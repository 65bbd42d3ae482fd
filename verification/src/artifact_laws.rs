//! Which artifacts can be read, and what is read of them.

use vstd::prelude::*;

use crate::artifacts::{
    eqlog_read, fr_unhex, g1_unhex, g2_unhex, points_read, registration_read, scalars_read,
    tally_read, voter_read, voters_read, EqLogProofArtifact, RegistrationPostArtifact,
    TallyPostArtifact, VoterRegistrationArtifact,
};
use crate::field::le_value;
use crate::hexcode::{hex_bytes, hex_valid};
use crate::modular::modulus;
use crate::registration::RecordView;
use crate::text::texts;

verus! {

/// A scalar is read exactly from the text of at least 32 bytes, of which the
/// first 32 give a number below the modulus, and that number is what is read.
pub proof fn law_scalar_read(text: Seq<char>, x: int)
    ensures
        fr_unhex(text) == Ok::<int, Seq<char>>(x) <==> hex_valid(text) && hex_bytes(text).len() >= 32
            && le_value(hex_bytes(text).take(32)) == x && x < modulus(),
{
}

/// Each value of a proof can be read.
pub open spec fn eqlog_readable(a: &EqLogProofArtifact) -> bool {
    g1_unhex(a.a1@) is Ok && g2_unhex(a.a2@) is Ok && fr_unhex(a.z@) is Ok
}

/// Each value of a record can be read.
pub open spec fn voter_readable(a: &VoterRegistrationArtifact) -> bool {
    &&& g2_unhex(a.pk@) is Ok
    &&& g2_unhex(a.pkv@) is Ok
    &&& g1_unhex(a.tau@) is Ok
    &&& g1_unhex(a.sigma@) is Ok
    &&& eqlog_readable(&a.eqlog)
}

/// The record holds what each text stands for.
pub open spec fn voter_stands_for(a: &VoterRegistrationArtifact, v: RecordView) -> bool {
    &&& v.voter_id == a.voter_id@
    &&& v.idx == a.idx
    &&& v.pk == g2_unhex(a.pk@)->Ok_0
    &&& v.pkv == g2_unhex(a.pkv@)->Ok_0
    &&& v.tau == g1_unhex(a.tau@)->Ok_0
    &&& v.sigma == g1_unhex(a.sigma@)->Ok_0
    &&& v.eqlog.a1 == g1_unhex(a.eqlog.a1@)->Ok_0
    &&& v.eqlog.a2 == g2_unhex(a.eqlog.a2@)->Ok_0
    &&& v.eqlog.z == fr_unhex(a.eqlog.z@)->Ok_0
}

proof fn lemma_voters_read(list: Seq<VoterRegistrationArtifact>, n: int)
    requires
        0 <= n <= list.len(),
    ensures
        voters_read(list, n) is Ok <==> forall|i: int|
            0 <= i < n ==> voter_readable(&#[trigger] list[i]),
        voters_read(list, n) matches Ok(vs) ==> vs.len() == n && forall|i: int|
            0 <= i < n ==> voter_stands_for(&#[trigger] list[i], vs[i]),
    decreases n,
{
    if n > 0 {
        lemma_voters_read(list, n - 1);
        let last = list[n - 1];
        assert(voter_read(&last) is Ok <==> voter_readable(&last)) by {
            assert(eqlog_read(&last.eqlog) is Ok <==> eqlog_readable(&last.eqlog));
        }
    }
}

proof fn lemma_points_read(list: Seq<Seq<char>>, n: int)
    requires
        0 <= n <= list.len(),
    ensures
        points_read(list, n) is Ok <==> forall|i: int| 0 <= i < n ==> g1_unhex(#[trigger] list[i]) is Ok,
        points_read(list, n) matches Ok(xs) ==> xs.len() == n && forall|i: int|
            0 <= i < n ==> g1_unhex(#[trigger] list[i]) == Ok::<int, Seq<char>>(xs[i]),
    decreases n,
{
    if n > 0 {
        lemma_points_read(list, n - 1);
    }
}

proof fn lemma_scalars_read(list: Seq<Seq<char>>, n: int)
    requires
        0 <= n <= list.len(),
    ensures
        scalars_read(list, n) is Ok <==> forall|i: int|
            0 <= i < n ==> fr_unhex(#[trigger] list[i]) is Ok,
        scalars_read(list, n) matches Ok(xs) ==> xs.len() == n && forall|i: int|
            0 <= i < n ==> fr_unhex(#[trigger] list[i]) == Ok::<int, Seq<char>>(xs[i]),
    decreases n,
{
    if n > 0 {
        lemma_scalars_read(list, n - 1);
    }
}

/// A registration post is read exactly if every value in it can be read, and
/// each of its values is then what its text stands for, in its place.
pub proof fn law_registration_read(a: &RegistrationPostArtifact)
    ensures
        registration_read(a) is Ok <==> {
            &&& forall|i: int| 0 <= i < a.voters@.len() ==> voter_readable(&#[trigger] a.voters@[i])
            &&& forall|i: int|
                0 <= i < a.pad_tokens@.len() ==> g1_unhex((#[trigger] a.pad_tokens@[i])@) is Ok
            &&& g1_unhex(a.aggregate_sigma@) is Ok
            &&& g1_unhex(a.c_commit@) is Ok
        },
        registration_read(a) matches Ok(p) ==> {
            &&& p.election_id == a.election_id@
            &&& p.aggregator_id == a.aggregator_id@
            &&& p.domain_size == a.domain_size
            &&& p.real_registered_count == a.real_registered_count
            &&& p.pad_count == a.pad_count
            &&& p.voters.len() == a.voters@.len()
            &&& forall|i: int|
                0 <= i < a.voters@.len() ==> voter_stands_for(&#[trigger] a.voters@[i], p.voters[i])
            &&& p.pad_tokens.len() == a.pad_tokens@.len()
            &&& forall|i: int|
                0 <= i < a.pad_tokens@.len() ==> g1_unhex((#[trigger] a.pad_tokens@[i])@) == Ok::<
                    int,
                    Seq<char>,
                >(p.pad_tokens[i])
            &&& g1_unhex(a.aggregate_sigma@) == Ok::<int, Seq<char>>(p.aggregate_sigma)
            &&& g1_unhex(a.c_commit@) == Ok::<int, Seq<char>>(p.c_commit)
            &&& p.srs_ref == a.srs_ref@
            &&& p.timestamp_unix_ms == a.timestamp_unix_ms
        },
{
    let list = texts(a.pad_tokens@);
    let n = a.pad_tokens@.len() as int;
    lemma_voters_read(a.voters@, a.voters@.len() as int);
    lemma_points_read(list, n);
    assert forall|i: int| 0 <= i < n implies #[trigger] list[i] == a.pad_tokens@[i]@ by {
    }
    if forall|i: int| 0 <= i < n ==> g1_unhex((#[trigger] a.pad_tokens@[i])@) is Ok {
        assert forall|i: int| 0 <= i < n implies g1_unhex(#[trigger] list[i]) is Ok by {
            assert(list[i] == a.pad_tokens@[i]@);
        }
    }
    if points_read(list, n) is Ok {
        assert forall|i: int| 0 <= i < n implies g1_unhex((#[trigger] a.pad_tokens@[i])@) == Ok::<
            int,
            Seq<char>,
        >(points_read(list, n)->Ok_0[i]) by {
            assert(list[i] == a.pad_tokens@[i]@);
        }
    }
}

/// A tally post is read exactly if every value in it can be read, and each of
/// its values is then what its text stands for, in its place.
pub proof fn law_tally_read(a: &TallyPostArtifact)
    ensures
        tally_read(a) is Ok <==> {
            &&& g1_unhex(a.c_commit@) is Ok
            &&& forall|i: int| 0 <= i < a.labels@.len() ==> fr_unhex((#[trigger] a.labels@[i])@) is Ok
            &&& hex_valid(a.proof_hex@)
        },
        tally_read(a) matches Ok(p) ==> {
            &&& p.election_id == a.election_id@
            &&& p.aggregator_id == a.aggregator_id@
            &&& p.candidate_counts == a.candidate_counts@
            &&& p.no_vote_count == a.no_vote_count
            &&& p.pad_count == a.pad_count
            &&& p.domain_size == a.domain_size
            &&& g1_unhex(a.c_commit@) == Ok::<int, Seq<char>>(p.c_commit)
            &&& p.labels.len() == a.labels@.len()
            &&& forall|i: int|
                0 <= i < a.labels@.len() ==> fr_unhex((#[trigger] a.labels@[i])@) == Ok::<
                    int,
                    Seq<char>,
                >(p.labels[i])
            &&& p.label_indices == a.label_indices@
            &&& p.sizes == a.sizes@
            &&& p.proof_bytes == hex_bytes(a.proof_hex@)
            &&& p.proving_time_ms == a.proving_time_ms
            &&& p.proof_size_bytes == a.proof_size_bytes
        },
{
    let list = texts(a.labels@);
    let n = a.labels@.len() as int;
    lemma_scalars_read(list, n);
    assert forall|i: int| 0 <= i < n implies #[trigger] list[i] == a.labels@[i]@ by {
    }
    if forall|i: int| 0 <= i < n ==> fr_unhex((#[trigger] a.labels@[i])@) is Ok {
        assert forall|i: int| 0 <= i < n implies fr_unhex(#[trigger] list[i]) is Ok by {
            assert(list[i] == a.labels@[i]@);
        }
    }
    if scalars_read(list, n) is Ok {
        assert forall|i: int| 0 <= i < n implies fr_unhex((#[trigger] a.labels@[i])@) == Ok::<
            int,
            Seq<char>,
        >(scalars_read(list, n)->Ok_0[i]) by {
            assert(list[i] == a.labels@[i]@);
        }
    }
}

} // verus!

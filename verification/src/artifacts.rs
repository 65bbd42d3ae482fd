//! The public objects of an election, with points and scalars as hexadecimal
//! text of their canonical encodings.

use vstd::prelude::*;

use crate::curve::{
    g1_decoding, g1_encoding, g1_logs, g2_decoding, g2_encoding, good, G1Affine, G2Affine,
};
use crate::election::{ElectionParams, ARTIFACT_VERSION};
use crate::epa_adapter::EPA_BACKEND_ID;
use crate::eqlog::{EqLogProof, EqLogProofView};
use crate::error::{AggiosError, Result};
use crate::field::{
    fr_decodable, fr_decode_error, le_digits, le_value, lemma_fr_round_trip, values, Fr,
};
use crate::hexcode::{decode, encode, hex_bytes, hex_error, hex_of, hex_valid, law_hex_round_trip};
use crate::registration::{
    record_views, FinalizedRegistration, RecordView, RegistrationView, VoterRegistrationRecord,
};
use crate::string_map::StringMap;
use crate::tally::{clone_sizes, AggregatorVerification, TallyPost, TallyView};
use crate::text::{clone_texts, texts};

verus! {

/// What was read, or a message.
pub type Read<T> = std::result::Result<T, Seq<char>>;

/// A point of the first group as text.
pub open spec fn g1_hex(x: int) -> Seq<char> {
    hex_of(g1_encoding(x))
}

/// A point of the second group as text.
pub open spec fn g2_hex(x: int) -> Seq<char> {
    hex_of(g2_encoding(x))
}

/// A scalar as text.
pub open spec fn fr_hex(x: int) -> Seq<char> {
    hex_of(le_digits(x, 32))
}

pub open spec fn g1_unhex(text: Seq<char>) -> Read<int> {
    if hex_valid(text) {
        g1_decoding(hex_bytes(text))
    } else {
        Err(hex_error(text))
    }
}

pub open spec fn g2_unhex(text: Seq<char>) -> Read<int> {
    if hex_valid(text) {
        g2_decoding(hex_bytes(text))
    } else {
        Err(hex_error(text))
    }
}

pub open spec fn fr_unhex(text: Seq<char>) -> Read<int> {
    if !hex_valid(text) {
        Err(hex_error(text))
    } else if fr_decodable(hex_bytes(text)) {
        Ok(le_value(hex_bytes(text).take(32)))
    } else {
        Err(fr_decode_error(hex_bytes(text)))
    }
}

/// The result is the point or scalar with a value, or an error with a message.
pub open spec fn reads<T: View<V = int>>(r: Result<T>, want: Read<int>) -> bool {
    match want {
        Ok(x) => r matches Ok(p) && p@ == x,
        Err(e) => r matches Err(AggiosError::Serialization(m)) && m@ == e,
    }
}

pub fn g1_to_hex(p: &G1Affine) -> (s: String)
    ensures
        s@ == g1_hex(p@),
        g1_unhex(s@) == good(p@),
{
    let bytes = p.to_bytes();
    proof {
        law_hex_round_trip(bytes@);
    }
    encode(bytes.as_slice())
}

pub fn g1_from_hex(s: &str) -> (r: Result<G1Affine>)
    ensures
        reads(r, g1_unhex(s@)),
{
    match decode(s) {
        Ok(bytes) => match G1Affine::from_bytes(bytes.as_slice()) {
            Ok(p) => Ok(p),
            Err(e) => Err(AggiosError::Serialization(e)),
        },
        Err(e) => Err(AggiosError::Serialization(e)),
    }
}

pub fn g2_to_hex(p: &G2Affine) -> (s: String)
    ensures
        s@ == g2_hex(p@),
        g2_unhex(s@) == good(p@),
{
    let bytes = p.to_bytes();
    proof {
        law_hex_round_trip(bytes@);
    }
    encode(bytes.as_slice())
}

pub fn g2_from_hex(s: &str) -> (r: Result<G2Affine>)
    ensures
        reads(r, g2_unhex(s@)),
{
    match decode(s) {
        Ok(bytes) => match G2Affine::from_bytes(bytes.as_slice()) {
            Ok(p) => Ok(p),
            Err(e) => Err(AggiosError::Serialization(e)),
        },
        Err(e) => Err(AggiosError::Serialization(e)),
    }
}

pub fn fr_to_hex(x: &Fr) -> (s: String)
    ensures
        s@ == fr_hex(x@),
        fr_unhex(s@) == good(x@),
{
    let bytes = x.to_bytes();
    proof {
        law_hex_round_trip(bytes@);
        lemma_fr_round_trip(*x);
    }
    encode(bytes.as_slice())
}

pub fn fr_from_hex(s: &str) -> (r: Result<Fr>)
    ensures
        reads(r, fr_unhex(s@)),
{
    match decode(s) {
        Ok(bytes) => match Fr::from_bytes(bytes.as_slice()) {
            Ok(p) => Ok(p),
            Err(e) => Err(AggiosError::Serialization(e)),
        },
        Err(e) => Err(AggiosError::Serialization(e)),
    }
}

// ---- proofs of equal logarithms ---------------------------------------------

#[derive(Clone, Debug, PartialEq, Eq)]
pub struct EqLogProofArtifact {
    pub a1: String,
    pub a2: String,
    pub z: String,
}

/// The texts of a proof of equal logarithms.
pub open spec fn eqlog_texts(a: &EqLogProofArtifact, p: EqLogProofView) -> bool {
    a.a1@ == g1_hex(p.a1) && a.a2@ == g2_hex(p.a2) && a.z@ == fr_hex(p.z)
}

/// The proof that texts stand for.
pub open spec fn eqlog_read(a: &EqLogProofArtifact) -> Read<EqLogProofView> {
    match g1_unhex(a.a1@) {
        Err(e) => Err(e),
        Ok(a1) => match g2_unhex(a.a2@) {
            Err(e) => Err(e),
            Ok(a2) => match fr_unhex(a.z@) {
                Err(e) => Err(e),
                Ok(z) => Ok(EqLogProofView { a1, a2, z }),
            },
        },
    }
}

impl EqLogProofArtifact {
    pub fn from_proof(p: &EqLogProof) -> (a: EqLogProofArtifact)
        ensures
            eqlog_texts(&a, p@),
            eqlog_read(&a) == Ok::<EqLogProofView, Seq<char>>(p@),
    {
        EqLogProofArtifact { a1: g1_to_hex(&p.a1), a2: g2_to_hex(&p.a2), z: fr_to_hex(&p.z) }
    }

    pub fn to_proof(&self) -> (r: Result<EqLogProof>)
        ensures
            match eqlog_read(self) {
                Ok(p) => r matches Ok(x) && x@ == p,
                Err(e) => r matches Err(AggiosError::Serialization(m)) && m@ == e,
            },
    {
        let a1 = match g1_from_hex(self.a1.as_str()) {
            Ok(x) => x,
            Err(e) => return Err(e),
        };
        let a2 = match g2_from_hex(self.a2.as_str()) {
            Ok(x) => x,
            Err(e) => return Err(e),
        };
        let z = match fr_from_hex(self.z.as_str()) {
            Ok(x) => x,
            Err(e) => return Err(e),
        };
        Ok(EqLogProof { a1, a2, z })
    }
}

// ---- registration posts -----------------------------------------------------

#[derive(Clone, Debug, PartialEq, Eq)]
pub struct VoterRegistrationArtifact {
    pub voter_id: String,
    pub idx: usize,
    pub pk: String,
    pub pkv: String,
    pub tau: String,
    pub sigma: String,
    pub eqlog: EqLogProofArtifact,
}

#[derive(Clone, Debug, PartialEq, Eq)]
pub struct RegistrationPostArtifact {
    pub version: u32,
    pub object_type: String,
    pub curve: String,
    pub election_id: String,
    pub aggregator_id: String,
    pub domain_size: usize,
    pub real_registered_count: usize,
    pub pad_count: usize,
    pub voters: Vec<VoterRegistrationArtifact>,
    pub pad_tokens: Vec<String>,
    pub aggregate_sigma: String,
    pub c_commit: String,
    pub srs_ref: String,
    pub timestamp_unix_ms: u64,
}

/// The texts of a voter's record.
pub open spec fn voter_texts(a: &VoterRegistrationArtifact, v: RecordView) -> bool {
    &&& a.voter_id@ == v.voter_id
    &&& a.idx == v.idx
    &&& a.pk@ == g2_hex(v.pk)
    &&& a.pkv@ == g2_hex(v.pkv)
    &&& a.tau@ == g1_hex(v.tau)
    &&& a.sigma@ == g1_hex(v.sigma)
    &&& eqlog_texts(&a.eqlog, v.eqlog)
}

/// The record that texts stand for.
pub open spec fn voter_read(a: &VoterRegistrationArtifact) -> Read<RecordView> {
    match g2_unhex(a.pk@) {
        Err(e) => Err(e),
        Ok(pk) => match g2_unhex(a.pkv@) {
            Err(e) => Err(e),
            Ok(pkv) => match g1_unhex(a.tau@) {
                Err(e) => Err(e),
                Ok(tau) => match g1_unhex(a.sigma@) {
                    Err(e) => Err(e),
                    Ok(sigma) => match eqlog_read(&a.eqlog) {
                        Err(e) => Err(e),
                        Ok(eqlog) => Ok(
                            RecordView {
                                voter_id: a.voter_id@,
                                idx: a.idx,
                                pk,
                                pkv,
                                tau,
                                sigma,
                                eqlog,
                            },
                        ),
                    },
                },
            },
        },
    }
}

/// The records that the first `count` texts stand for.
pub open spec fn voters_read(list: Seq<VoterRegistrationArtifact>, count: int) -> Read<
    Seq<RecordView>,
>
    decreases count,
{
    if count <= 0 {
        Ok(Seq::empty())
    } else {
        match voters_read(list, count - 1) {
            Err(e) => Err(e),
            Ok(rest) => match voter_read(&list[count - 1]) {
                Err(e) => Err(e),
                Ok(v) => Ok(rest.push(v)),
            },
        }
    }
}

/// The points that the first `count` texts stand for.
pub open spec fn points_read(list: Seq<Seq<char>>, count: int) -> Read<Seq<int>>
    decreases count,
{
    if count <= 0 {
        Ok(Seq::empty())
    } else {
        match points_read(list, count - 1) {
            Err(e) => Err(e),
            Ok(rest) => match g1_unhex(list[count - 1]) {
                Err(e) => Err(e),
                Ok(x) => Ok(rest.push(x)),
            },
        }
    }
}

/// The scalars that the first `count` texts stand for.
pub open spec fn scalars_read(list: Seq<Seq<char>>, count: int) -> Read<Seq<int>>
    decreases count,
{
    if count <= 0 {
        Ok(Seq::empty())
    } else {
        match scalars_read(list, count - 1) {
            Err(e) => Err(e),
            Ok(rest) => match fr_unhex(list[count - 1]) {
                Err(e) => Err(e),
                Ok(x) => Ok(rest.push(x)),
            },
        }
    }
}

/// The post that an artifact stands for.
pub open spec fn registration_read(a: &RegistrationPostArtifact) -> Read<RegistrationView> {
    match voters_read(a.voters@, a.voters@.len() as int) {
        Err(e) => Err(e),
        Ok(voters) => match points_read(texts(a.pad_tokens@), a.pad_tokens@.len() as int) {
            Err(e) => Err(e),
            Ok(pad_tokens) => match g1_unhex(a.aggregate_sigma@) {
                Err(e) => Err(e),
                Ok(aggregate_sigma) => match g1_unhex(a.c_commit@) {
                    Err(e) => Err(e),
                    Ok(c_commit) => Ok(
                        RegistrationView {
                            election_id: a.election_id@,
                            aggregator_id: a.aggregator_id@,
                            domain_size: a.domain_size,
                            real_registered_count: a.real_registered_count,
                            pad_count: a.pad_count,
                            voters,
                            pad_tokens,
                            aggregate_sigma,
                            c_commit,
                            srs_ref: a.srs_ref@,
                            timestamp_unix_ms: a.timestamp_unix_ms,
                        },
                    ),
                },
            },
        },
    }
}

/// The texts of a registration post.
pub open spec fn registration_texts(a: &RegistrationPostArtifact, p: RegistrationView) -> bool {
    &&& a.version == ARTIFACT_VERSION
    &&& a.object_type@ == "aggios_registration_post"@
    &&& a.curve@ == EPA_BACKEND_ID@
    &&& a.election_id@ == p.election_id
    &&& a.aggregator_id@ == p.aggregator_id
    &&& a.domain_size == p.domain_size
    &&& a.real_registered_count == p.real_registered_count
    &&& a.pad_count == p.pad_count
    &&& a.voters@.len() == p.voters.len()
    &&& forall|i: int| 0 <= i < p.voters.len() ==> voter_texts(&#[trigger] a.voters@[i], p.voters[i])
    &&& texts(a.pad_tokens@) == hexes(p.pad_tokens)
    &&& a.aggregate_sigma@ == g1_hex(p.aggregate_sigma)
    &&& a.c_commit@ == g1_hex(p.c_commit)
    &&& a.srs_ref@ == p.srs_ref
    &&& a.timestamp_unix_ms == p.timestamp_unix_ms
}

/// Points as texts.
pub open spec fn hexes(s: Seq<int>) -> Seq<Seq<char>> {
    Seq::new(s.len(), |i: int| g1_hex(s[i]))
}

/// Scalars as texts.
pub open spec fn scalar_hexes(s: Seq<int>) -> Seq<Seq<char>> {
    Seq::new(s.len(), |i: int| fr_hex(s[i]))
}

fn voter_to_artifact(v: &VoterRegistrationRecord) -> (a: VoterRegistrationArtifact)
    ensures
        voter_texts(&a, v@),
        voter_read(&a) == Ok::<RecordView, Seq<char>>(v@),
{
    VoterRegistrationArtifact {
        voter_id: v.voter_id.clone(),
        idx: v.idx,
        pk: g2_to_hex(&v.pk),
        pkv: g2_to_hex(&v.pkv),
        tau: g1_to_hex(&v.tau),
        sigma: g1_to_hex(&v.sigma),
        eqlog: EqLogProofArtifact::from_proof(&v.eqlog),
    }
}

fn voter_from_artifact(a: &VoterRegistrationArtifact) -> (r: Result<VoterRegistrationRecord>)
    ensures
        match voter_read(a) {
            Ok(v) => r matches Ok(x) && x@ == v,
            Err(e) => r matches Err(AggiosError::Serialization(m)) && m@ == e,
        },
{
    let pk = match g2_from_hex(a.pk.as_str()) {
        Ok(x) => x,
        Err(e) => return Err(e),
    };
    let pkv = match g2_from_hex(a.pkv.as_str()) {
        Ok(x) => x,
        Err(e) => return Err(e),
    };
    let tau = match g1_from_hex(a.tau.as_str()) {
        Ok(x) => x,
        Err(e) => return Err(e),
    };
    let sigma = match g1_from_hex(a.sigma.as_str()) {
        Ok(x) => x,
        Err(e) => return Err(e),
    };
    let eqlog = match a.eqlog.to_proof() {
        Ok(x) => x,
        Err(e) => return Err(e),
    };
    Ok(VoterRegistrationRecord { voter_id: a.voter_id.clone(), idx: a.idx, pk, pkv, tau, sigma, eqlog })
}

fn points_to_hex(list: &Vec<G1Affine>) -> (r: Vec<String>)
    ensures
        texts(r@) == hexes(g1_logs(list@)),
        points_read(texts(r@), r@.len() as int) == Ok::<Seq<int>, Seq<char>>(g1_logs(list@)),
{
    let ghost logs = g1_logs(list@);
    let mut r: Vec<String> = Vec::new();
    let mut i: usize = 0;
    proof {
        assert(texts(r@) =~= hexes(logs.take(0)));
        assert(logs.take(0) =~= Seq::<int>::empty());
    }
    while i < list.len()
        invariant
            i <= list.len(),
            logs == g1_logs(list@),
            r@.len() == i,
            texts(r@) == hexes(logs.take(i as int)),
            points_read(texts(r@), i as int) == Ok::<Seq<int>, Seq<char>>(logs.take(i as int)),
        decreases list.len() - i,
    {
        let ghost before = texts(r@);
        let s = g1_to_hex(&list[i]);
        r.push(s);
        proof {
            let now = texts(r@);
            assert(now =~= before.push(s@));
            lemma_points_prefix(before, now, i as int);
            assert(logs.take(i + 1) =~= logs.take(i as int).push(logs[i as int]));
            assert(now =~= hexes(logs.take(i + 1)));
        }
        i += 1;
    }
    proof {
        assert(logs.take(logs.len() as int) =~= logs);
    }
    r
}

proof fn lemma_points_prefix(a: Seq<Seq<char>>, b: Seq<Seq<char>>, count: int)
    requires
        count <= a.len() <= b.len(),
        forall|i: int| 0 <= i < a.len() ==> a[i] == b[i],
    ensures
        points_read(a, count) == points_read(b, count),
    decreases count,
{
    if count > 0 {
        lemma_points_prefix(a, b, count - 1);
    }
}

proof fn lemma_scalars_prefix(a: Seq<Seq<char>>, b: Seq<Seq<char>>, count: int)
    requires
        count <= a.len() <= b.len(),
        forall|i: int| 0 <= i < a.len() ==> a[i] == b[i],
    ensures
        scalars_read(a, count) == scalars_read(b, count),
    decreases count,
{
    if count > 0 {
        lemma_scalars_prefix(a, b, count - 1);
    }
}

proof fn lemma_points_error(list: Seq<Seq<char>>, i: int, count: int)
    requires
        1 <= i <= count,
        points_read(list, i) is Err,
    ensures
        points_read(list, count) == points_read(list, i),
    decreases count - i,
{
    if i < count {
        lemma_points_error(list, i, count - 1);
    }
}

proof fn lemma_scalars_error(list: Seq<Seq<char>>, i: int, count: int)
    requires
        1 <= i <= count,
        scalars_read(list, i) is Err,
    ensures
        scalars_read(list, count) == scalars_read(list, i),
    decreases count - i,
{
    if i < count {
        lemma_scalars_error(list, i, count - 1);
    }
}

proof fn lemma_voters_error(list: Seq<VoterRegistrationArtifact>, i: int, count: int)
    requires
        1 <= i <= count,
        voters_read(list, i) is Err,
    ensures
        voters_read(list, count) == voters_read(list, i),
    decreases count - i,
{
    if i < count {
        lemma_voters_error(list, i, count - 1);
    }
}

proof fn lemma_voters_prefix(
    a: Seq<VoterRegistrationArtifact>,
    b: Seq<VoterRegistrationArtifact>,
    count: int,
)
    requires
        count <= a.len() <= b.len(),
        forall|i: int| 0 <= i < a.len() ==> a[i] == b[i],
    ensures
        voters_read(a, count) == voters_read(b, count),
    decreases count,
{
    if count > 0 {
        lemma_voters_prefix(a, b, count - 1);
    }
}

fn points_from_hex(list: &Vec<String>) -> (r: Result<Vec<G1Affine>>)
    ensures
        match points_read(texts(list@), list@.len() as int) {
            Ok(xs) => r matches Ok(v) && g1_logs(v@) == xs,
            Err(e) => r matches Err(AggiosError::Serialization(m)) && m@ == e,
        },
{
    let ghost all = texts(list@);
    let mut v: Vec<G1Affine> = Vec::new();
    let mut i: usize = 0;
    proof {
        assert(g1_logs(v@) =~= Seq::<int>::empty());
    }
    while i < list.len()
        invariant
            i <= list.len(),
            all == texts(list@),
            points_read(all, i as int) == Ok::<Seq<int>, Seq<char>>(g1_logs(v@)),
        decreases list.len() - i,
    {
        let ghost before = g1_logs(v@);
        assert(all[i as int] == list@[i as int]@);
        match g1_from_hex(list[i].as_str()) {
            Ok(p) => {
                v.push(p);
                proof {
                    assert(g1_logs(v@) =~= before.push(p@));
                }
            },
            Err(e) => {
                proof {
                    lemma_points_error(all, i + 1, all.len() as int);
                }
                return Err(e);
            },
        }
        i += 1;
    }
    Ok(v)
}

pub(crate) fn scalars_to_hex(list: &Vec<Fr>) -> (r: Vec<String>)
    ensures
        texts(r@) == scalar_hexes(values(list@)),
        scalars_read(texts(r@), r@.len() as int) == Ok::<Seq<int>, Seq<char>>(values(list@)),
{
    let ghost vals = values(list@);
    let mut r: Vec<String> = Vec::new();
    let mut i: usize = 0;
    proof {
        assert(texts(r@) =~= scalar_hexes(vals.take(0)));
        assert(vals.take(0) =~= Seq::<int>::empty());
    }
    while i < list.len()
        invariant
            i <= list.len(),
            vals == values(list@),
            r@.len() == i,
            texts(r@) == scalar_hexes(vals.take(i as int)),
            scalars_read(texts(r@), i as int) == Ok::<Seq<int>, Seq<char>>(vals.take(i as int)),
        decreases list.len() - i,
    {
        let ghost before = texts(r@);
        let s = fr_to_hex(&list[i]);
        r.push(s);
        proof {
            let now = texts(r@);
            assert(now =~= before.push(s@));
            lemma_scalars_prefix(before, now, i as int);
            assert(vals.take(i + 1) =~= vals.take(i as int).push(vals[i as int]));
            assert(now =~= scalar_hexes(vals.take(i + 1)));
        }
        i += 1;
    }
    proof {
        assert(vals.take(vals.len() as int) =~= vals);
    }
    r
}

fn scalars_from_hex(list: &Vec<String>) -> (r: Result<Vec<Fr>>)
    ensures
        match scalars_read(texts(list@), list@.len() as int) {
            Ok(xs) => r matches Ok(v) && values(v@) == xs,
            Err(e) => r matches Err(AggiosError::Serialization(m)) && m@ == e,
        },
{
    let ghost all = texts(list@);
    let mut v: Vec<Fr> = Vec::new();
    let mut i: usize = 0;
    proof {
        assert(values(v@) =~= Seq::<int>::empty());
    }
    while i < list.len()
        invariant
            i <= list.len(),
            all == texts(list@),
            scalars_read(all, i as int) == Ok::<Seq<int>, Seq<char>>(values(v@)),
        decreases list.len() - i,
    {
        let ghost before = values(v@);
        assert(all[i as int] == list@[i as int]@);
        match fr_from_hex(list[i].as_str()) {
            Ok(p) => {
                v.push(p);
                proof {
                    assert(values(v@) =~= before.push(p@));
                }
            },
            Err(e) => {
                proof {
                    lemma_scalars_error(all, i + 1, all.len() as int);
                }
                return Err(e);
            },
        }
        i += 1;
    }
    Ok(v)
}

impl RegistrationPostArtifact {
    /// The artifact of a post. The post can be read back from it.
    pub fn from_post(post: &FinalizedRegistration) -> (a: RegistrationPostArtifact)
        ensures
            registration_texts(&a, post@),
            registration_read(&a) == Ok::<RegistrationView, Seq<char>>(post@),
    {
        let ghost views = record_views(post.voters@);
        let mut voters: Vec<VoterRegistrationArtifact> = Vec::new();
        let mut i: usize = 0;
        proof {
            assert(views.take(0) =~= Seq::<RecordView>::empty());
        }
        while i < post.voters.len()
            invariant
                i <= post.voters.len(),
                views == record_views(post.voters@),
                voters@.len() == i,
                forall|k: int| 0 <= k < i ==> voter_texts(&#[trigger] voters@[k], views[k]),
                voters_read(voters@, i as int) == Ok::<Seq<RecordView>, Seq<char>>(
                    views.take(i as int),
                ),
            decreases post.voters.len() - i,
        {
            let ghost before = voters@;
            voters.push(voter_to_artifact(&post.voters[i]));
            proof {
                lemma_voters_prefix(before, voters@, i as int);
                assert(views.take(i + 1) =~= views.take(i as int).push(views[i as int]));
                assert(views[i as int] == post.voters@[i as int]@);
            }
            i += 1;
        }
        proof {
            assert(views.take(views.len() as int) =~= views);
        }
        RegistrationPostArtifact {
            version: ARTIFACT_VERSION,
            object_type: String::from_str("aggios_registration_post"),
            curve: String::from_str(EPA_BACKEND_ID),
            election_id: post.election_id.clone(),
            aggregator_id: post.aggregator_id.clone(),
            domain_size: post.domain_size,
            real_registered_count: post.real_registered_count,
            pad_count: post.pad_count,
            voters,
            pad_tokens: points_to_hex(&post.pad_tokens),
            aggregate_sigma: g1_to_hex(&post.aggregate_sigma),
            c_commit: g1_to_hex(&post.c_commit),
            srs_ref: post.srs_ref.clone(),
            timestamp_unix_ms: post.timestamp_unix_ms,
        }
    }

    /// The post that the artifact stands for.
    pub fn to_post(&self) -> (r: Result<FinalizedRegistration>)
        ensures
            match registration_read(self) {
                Ok(p) => r matches Ok(x) && x@ == p,
                Err(e) => r matches Err(AggiosError::Serialization(m)) && m@ == e,
            },
    {
        let mut voters: Vec<VoterRegistrationRecord> = Vec::new();
        let mut i: usize = 0;
        proof {
            assert(record_views(voters@) =~= Seq::<RecordView>::empty());
        }
        while i < self.voters.len()
            invariant
                i <= self.voters.len(),
                voters_read(self.voters@, i as int) == Ok::<Seq<RecordView>, Seq<char>>(
                    record_views(voters@),
                ),
            decreases self.voters.len() - i,
        {
            let ghost before = record_views(voters@);
            match voter_from_artifact(&self.voters[i]) {
                Ok(v) => {
                    voters.push(v);
                    proof {
                        assert(record_views(voters@) =~= before.push(v@));
                    }
                },
                Err(e) => {
                    proof {
                        lemma_voters_error(self.voters@, i + 1, self.voters@.len() as int);
                    }
                    return Err(e);
                },
            }
            i += 1;
        }
        let pad_tokens = match points_from_hex(&self.pad_tokens) {
            Ok(x) => x,
            Err(e) => return Err(e),
        };
        let aggregate_sigma = match g1_from_hex(self.aggregate_sigma.as_str()) {
            Ok(x) => x,
            Err(e) => return Err(e),
        };
        let c_commit = match g1_from_hex(self.c_commit.as_str()) {
            Ok(x) => x,
            Err(e) => return Err(e),
        };
        Ok(
            FinalizedRegistration {
                election_id: self.election_id.clone(),
                aggregator_id: self.aggregator_id.clone(),
                domain_size: self.domain_size,
                real_registered_count: self.real_registered_count,
                pad_count: self.pad_count,
                voters,
                pad_tokens,
                aggregate_sigma,
                c_commit,
                srs_ref: self.srs_ref.clone(),
                timestamp_unix_ms: self.timestamp_unix_ms,
            },
        )
    }
}

// ---- tally posts ------------------------------------------------------------

#[derive(Clone, Debug, PartialEq, Eq)]
pub struct TallyPostArtifact {
    pub version: u32,
    pub object_type: String,
    pub curve: String,
    pub election_id: String,
    pub aggregator_id: String,
    pub candidate_counts: Vec<usize>,
    pub no_vote_count: usize,
    pub pad_count: usize,
    pub domain_size: usize,
    pub c_commit: String,
    pub labels: Vec<String>,
    pub label_indices: Vec<usize>,
    pub sizes: Vec<usize>,
    pub proof_hex: String,
    pub proving_time_ms: u64,
    pub proof_size_bytes: usize,
}

/// A time in 64 bits; what exceeds them is lost.
pub open spec fn short_time(ms: u128) -> u64 {
    (ms % 0x1_0000_0000_0000_0000) as u64
}

pub(crate) fn shorten(ms: u128) -> (r: u64)
    ensures
        r == short_time(ms),
{
    (ms % 0x1_0000_0000_0000_0000) as u64
}

/// The texts of a tally post.
pub open spec fn tally_texts(a: &TallyPostArtifact, p: TallyView) -> bool {
    &&& a.version == ARTIFACT_VERSION
    &&& a.object_type@ == "aggios_tally_post"@
    &&& a.curve@ == EPA_BACKEND_ID@
    &&& a.election_id@ == p.election_id
    &&& a.aggregator_id@ == p.aggregator_id
    &&& a.candidate_counts@ == p.candidate_counts
    &&& a.no_vote_count == p.no_vote_count
    &&& a.pad_count == p.pad_count
    &&& a.domain_size == p.domain_size
    &&& a.c_commit@ == g1_hex(p.c_commit)
    &&& texts(a.labels@) == scalar_hexes(p.labels)
    &&& a.label_indices@ == p.label_indices
    &&& a.sizes@ == p.sizes
    &&& a.proof_hex@ == hex_of(p.proof_bytes)
    &&& a.proving_time_ms == short_time(p.proving_time_ms)
    &&& a.proof_size_bytes == p.proof_size_bytes
}

/// The post that an artifact stands for.
pub open spec fn tally_read(a: &TallyPostArtifact) -> Read<TallyView> {
    match g1_unhex(a.c_commit@) {
        Err(e) => Err(e),
        Ok(c_commit) => match scalars_read(texts(a.labels@), a.labels@.len() as int) {
            Err(e) => Err(e),
            Ok(labels) => if hex_valid(a.proof_hex@) {
                Ok(
                    TallyView {
                        election_id: a.election_id@,
                        aggregator_id: a.aggregator_id@,
                        candidate_counts: a.candidate_counts@,
                        no_vote_count: a.no_vote_count,
                        pad_count: a.pad_count,
                        domain_size: a.domain_size,
                        c_commit,
                        labels,
                        label_indices: a.label_indices@,
                        sizes: a.sizes@,
                        proof_bytes: hex_bytes(a.proof_hex@),
                        proving_time_ms: a.proving_time_ms as u128,
                        proof_size_bytes: a.proof_size_bytes,
                    },
                )
            } else {
                Err(hex_error(a.proof_hex@))
            },
        },
    }
}

/// The post after a round through an artifact: times are cut to 64 bits.
pub open spec fn with_short_time(p: TallyView) -> TallyView {
    TallyView { proving_time_ms: short_time(p.proving_time_ms) as u128, ..p }
}

impl TallyPostArtifact {
    /// The artifact of a post. The post can be read back from it, but for
    /// times of more than 64 bits.
    pub fn from_post(post: &TallyPost) -> (a: TallyPostArtifact)
        ensures
            tally_texts(&a, post@),
            tally_read(&a) == Ok::<TallyView, Seq<char>>(with_short_time(post@)),
    {
        proof {
            law_hex_round_trip(post.proof_bytes@);
        }
        TallyPostArtifact {
            version: ARTIFACT_VERSION,
            object_type: String::from_str("aggios_tally_post"),
            curve: String::from_str(EPA_BACKEND_ID),
            election_id: post.election_id.clone(),
            aggregator_id: post.aggregator_id.clone(),
            candidate_counts: clone_sizes(&post.candidate_counts),
            no_vote_count: post.no_vote_count,
            pad_count: post.pad_count,
            domain_size: post.domain_size,
            c_commit: g1_to_hex(&post.c_commit),
            labels: scalars_to_hex(&post.labels),
            label_indices: clone_sizes(&post.label_indices),
            sizes: clone_sizes(&post.sizes),
            proof_hex: encode(post.proof_bytes.as_slice()),
            proving_time_ms: shorten(post.proving_time_ms),
            proof_size_bytes: post.proof_size_bytes,
        }
    }

    /// The post that the artifact stands for.
    pub fn to_post(&self) -> (r: Result<TallyPost>)
        ensures
            match tally_read(self) {
                Ok(p) => r matches Ok(x) && x@ == p,
                Err(e) => r matches Err(AggiosError::Serialization(m)) && m@ == e,
            },
    {
        let c_commit = match g1_from_hex(self.c_commit.as_str()) {
            Ok(x) => x,
            Err(e) => return Err(e),
        };
        let labels = match scalars_from_hex(&self.labels) {
            Ok(x) => x,
            Err(e) => return Err(e),
        };
        let proof_bytes = match decode(self.proof_hex.as_str()) {
            Ok(x) => x,
            Err(e) => return Err(AggiosError::Serialization(e)),
        };
        Ok(
            TallyPost {
                election_id: self.election_id.clone(),
                aggregator_id: self.aggregator_id.clone(),
                candidate_counts: clone_sizes(&self.candidate_counts),
                no_vote_count: self.no_vote_count,
                pad_count: self.pad_count,
                domain_size: self.domain_size,
                c_commit,
                labels,
                label_indices: clone_sizes(&self.label_indices),
                sizes: clone_sizes(&self.sizes),
                proof_bytes,
                proving_time_ms: self.proving_time_ms as u128,
                proof_size_bytes: self.proof_size_bytes,
            },
        )
    }
}

// ---- verifications ----------------------------------------------------------

#[derive(Clone, Debug, PartialEq, Eq)]
pub struct VerificationArtifact {
    pub version: u32,
    pub object_type: String,
    pub curve: String,
    pub election_id: String,
    pub aggregator_id: String,
    pub valid: bool,
    pub errors: Vec<String>,
    pub verification_time_ms: u64,
}

impl VerificationArtifact {
    pub fn from_verification(election_id: &str, v: &AggregatorVerification) -> (a:
        VerificationArtifact)
        ensures
            a.version == ARTIFACT_VERSION,
            a.object_type@ == "aggios_verification_result"@,
            a.curve@ == EPA_BACKEND_ID@,
            a.election_id@ == election_id@,
            a.aggregator_id@ == v.aggregator_id@,
            a.valid == v.valid,
            texts(a.errors@) == texts(v.errors@),
            a.verification_time_ms == short_time(v.verification_time_ms),
    {
        VerificationArtifact {
            version: ARTIFACT_VERSION,
            object_type: String::from_str("aggios_verification_result"),
            curve: String::from_str(EPA_BACKEND_ID),
            election_id: String::from_str(election_id),
            aggregator_id: v.aggregator_id.clone(),
            valid: v.valid,
            errors: clone_texts(&v.errors),
            verification_time_ms: shorten(v.verification_time_ms),
        }
    }
}

/// All that is public of an election.
#[derive(Clone, Debug)]
pub struct PublicElectionArtifact {
    pub version: u32,
    pub object_type: String,
    pub curve: String,
    pub election: ElectionParams,
    pub candidate_labels: Vec<String>,
    pub no_vote_label: String,
    pub pad_label: String,
    pub registration_posts: Vec<RegistrationPostArtifact>,
    pub tally_posts: Vec<TallyPostArtifact>,
    pub verifications: Vec<VerificationArtifact>,
    /// The votes for each candidate over verified aggregators only.
    pub verified_global_tally: StringMap<usize>,
}

} // verus!

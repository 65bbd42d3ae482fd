//! Candidate labels and the internal NO_VOTE and PAD labels.
//!
//! A label is a scalar hashed from the election id, and for a candidate from
//! its id and name too. All labels of an election are nonzero and pairwise
//! distinct: on a zero or a collision the hash is taken again with a counter.
//!
//! The partition proof knows each partition by the index of a domain element.
//! The labels here bind candidate identities on the bulletin board, and
//! partition `j` has the label index `j + 1`; both are published, and
//! validators recompute both.

use vstd::bytes::{spec_u64_to_le_bytes, u64_to_le_bytes};
use vstd::prelude::*;
use vstd::utf8::encode_utf8;

use crate::field::{values, Fr};
use crate::hash::{
    fr_collision, fr_hash, front_fits, hash_to_fr, least_counter, lemma_least_unique,
    lemma_text_bytes, lemma_transcript_front, slices, transcript,
};

verus! {

pub const CANDIDATE_LABEL_SEP: &'static str = "AGGIOS_CANDIDATE_LABEL";

pub const NO_VOTE_LABEL_SEP: &'static str = "AGGIOS_NO_VOTE_LABEL";

pub const PAD_LABEL_SEP: &'static str = "AGGIOS_PAD_LABEL";

/// The labels of an election.
#[derive(Debug, PartialEq, Eq)]
pub struct ElectionLabels {
    /// One label per real candidate, in display order.
    pub candidate_labels: Vec<Fr>,
    pub no_vote_label: Fr,
    pub pad_label: Fr,
}

/// The values of an election's labels: of the candidates, of NO_VOTE and of PAD.
pub struct LabelsView {
    pub candidates: Seq<int>,
    pub no_vote: int,
    pub pad: int,
}

impl LabelsView {
    /// All labels in the order of the partitions: the candidates in display
    /// order, then NO_VOTE, then PAD.
    pub open spec fn all(self) -> Seq<int> {
        self.candidates.push(self.no_vote).push(self.pad)
    }
}

impl View for ElectionLabels {
    type V = LabelsView;

    open spec fn view(&self) -> LabelsView {
        LabelsView {
            candidates: values(self.candidate_labels@),
            no_vote: self.no_vote_label@,
            pad: self.pad_label@,
        }
    }
}

/// The hashed parts with a counter, which counter zero leaves out.
pub open spec fn counted(parts: Seq<Seq<u8>>, counter: int) -> Seq<Seq<u8>> {
    if counter > 0 {
        parts.push(spec_u64_to_le_bytes(counter as u64))
    } else {
        parts
    }
}

/// The counters that give a nonzero label outside `taken`.
pub open spec fn label_hits(sep: Seq<u8>, parts: Seq<Seq<u8>>, taken: Seq<int>) -> spec_fn(
    int,
) -> bool {
    |c: int|
        fr_hash(sep, counted(parts, c)) != 0 && !taken.contains(fr_hash(sep, counted(parts, c)))
}

/// Some counter gives a nonzero label outside `taken`.
pub open spec fn derivable(sep: Seq<u8>, parts: Seq<Seq<u8>>, taken: Seq<int>) -> bool {
    exists|c: int| #[trigger] least_counter(label_hits(sep, parts, taken), c)
}

/// The label: the hash with the least such counter.
pub open spec fn derived(sep: Seq<u8>, parts: Seq<Seq<u8>>, taken: Seq<int>) -> int {
    let c = choose|c: int| #[trigger] least_counter(label_hits(sep, parts, taken), c);
    fr_hash(sep, counted(parts, c))
}

/// The texts of a list of candidates: ids and display names.
pub open spec fn pair_texts(candidates: Seq<(String, String)>) -> Seq<(Seq<char>, Seq<char>)> {
    Seq::new(candidates.len(), |i: int| (candidates[i].0@, candidates[i].1@))
}

/// The hashed parts of a candidate's label.
pub open spec fn candidate_parts(election_id: Seq<char>, candidate: (Seq<char>, Seq<char>)) -> Seq<
    Seq<u8>,
> {
    seq![encode_utf8(election_id), encode_utf8(candidate.0), encode_utf8(candidate.1)]
}

/// The labels of the candidates, in order; each avoids those before it.
pub open spec fn candidate_labels(
    election_id: Seq<char>,
    candidates: Seq<(Seq<char>, Seq<char>)>,
) -> Seq<int>
    decreases candidates.len(),
{
    if candidates.len() == 0 {
        Seq::empty()
    } else {
        let before = candidate_labels(election_id, candidates.drop_last());
        before.push(
            derived(
                encode_utf8(CANDIDATE_LABEL_SEP@),
                candidate_parts(election_id, candidates.last()),
                before,
            ),
        )
    }
}

/// There is one label for each candidate.
pub proof fn lemma_candidate_labels_len(
    election_id: Seq<char>,
    candidates: Seq<(Seq<char>, Seq<char>)>,
)
    ensures
        candidate_labels(election_id, candidates).len() == candidates.len(),
    decreases candidates.len(),
{
    if candidates.len() > 0 {
        lemma_candidate_labels_len(election_id, candidates.drop_last());
    }
}

/// Every candidate has a label.
pub open spec fn candidates_derivable(
    election_id: Seq<char>,
    candidates: Seq<(Seq<char>, Seq<char>)>,
) -> bool
    decreases candidates.len(),
{
    candidates.len() == 0 || (candidates_derivable(election_id, candidates.drop_last())
        && derivable(
        encode_utf8(CANDIDATE_LABEL_SEP@),
        candidate_parts(election_id, candidates.last()),
        candidate_labels(election_id, candidates.drop_last()),
    ))
}

/// The labels of an election.
pub open spec fn election_labels(
    election_id: Seq<char>,
    candidates: Seq<(Seq<char>, Seq<char>)>,
) -> LabelsView {
    let c = candidate_labels(election_id, candidates);
    let parts = seq![encode_utf8(election_id)];
    let no_vote = derived(encode_utf8(NO_VOTE_LABEL_SEP@), parts, c);
    let pad = derived(encode_utf8(PAD_LABEL_SEP@), parts, c.push(no_vote));
    LabelsView { candidates: c, no_vote, pad }
}

/// Every label of the election can be derived.
pub open spec fn labels_derivable(
    election_id: Seq<char>,
    candidates: Seq<(Seq<char>, Seq<char>)>,
) -> bool {
    let c = candidate_labels(election_id, candidates);
    let parts = seq![encode_utf8(election_id)];
    let no_vote = derived(encode_utf8(NO_VOTE_LABEL_SEP@), parts, c);
    &&& candidates_derivable(election_id, candidates)
    &&& derivable(encode_utf8(NO_VOTE_LABEL_SEP@), parts, c)
    &&& derivable(encode_utf8(PAD_LABEL_SEP@), parts, c.push(no_vote))
}

/// All values are nonzero and pairwise distinct.
pub open spec fn nonzero_distinct(s: Seq<int>) -> bool {
    &&& forall|i: int| 0 <= i < s.len() ==> #[trigger] s[i] != 0
    &&& forall|i: int, j: int| 0 <= i < j < s.len() ==> #[trigger] s[i] != #[trigger] s[j]
}

impl Clone for ElectionLabels {
    fn clone(&self) -> (r: ElectionLabels)
        ensures
            r@ == self@,
    {
        ElectionLabels {
            candidate_labels: clone_scalars(&self.candidate_labels),
            no_vote_label: self.no_vote_label,
            pad_label: self.pad_label,
        }
    }
}

impl ElectionLabels {
    /// All labels in the order of the partitions: the candidates in display
    /// order, then NO_VOTE, then PAD.
    pub fn partition_labels(&self) -> (labels: Vec<Fr>)
        ensures
            values(labels@) == self@.all(),
    {
        let mut labels = clone_scalars(&self.candidate_labels);
        labels.push(self.no_vote_label);
        labels.push(self.pad_label);
        proof {
            assert(values(labels@) =~= self@.all());
        }
        labels
    }
}

/// A copy of a list of scalars.
pub fn clone_scalars(list: &Vec<Fr>) -> (r: Vec<Fr>)
    ensures
        r@ == list@,
{
    let mut r: Vec<Fr> = Vec::new();
    let mut i: usize = 0;
    while i < list.len()
        invariant
            i <= list.len(),
            r@ == list@.take(i as int),
        decreases list.len() - i,
    {
        r.push(list[i]);
        i += 1;
        proof {
            assert(r@ =~= list@.take(i as int));
        }
    }
    proof {
        assert(r@ =~= list@);
    }
    r
}

/// Whether `x` occurs in `list`.
fn contains_scalar(list: &Vec<Fr>, x: &Fr) -> (found: bool)
    ensures
        found == values(list@).contains(x@),
{
    let mut i: usize = 0;
    while i < list.len()
        invariant
            i <= list.len(),
            forall|j: int| 0 <= j < i ==> #[trigger] list@[j]@ != x@,
        decreases list.len() - i,
    {
        if list[i] == *x {
            proof {
                assert(values(list@)[i as int] == x@);
            }
            return true;
        }
        i += 1;
    }
    proof {
        assert forall|j: int| 0 <= j < values(list@).len() implies values(list@)[j] != x@ by {
            assert(list@[j]@ != x@);
        }
    }
    false
}

/// Derives a label: hashes with a counter until the result is nonzero and not
/// in `taken`, or gives `None` where no 64-bit counter leads to one.
fn derive_distinct(sep: &[u8], parts: &[&[u8]], taken: &Vec<Fr>) -> (r: Option<Fr>)
    ensures
        r is Some <==> derivable(sep@, slices(parts@), values(taken@)),
        r matches Some(w) ==> w@ == derived(sep@, slices(parts@), values(taken@)) && w@ != 0
            && !values(taken@).contains(w@),
{
    let ghost hit = label_hits(sep@, slices(parts@), values(taken@));
    let mut counter: u64 = 0;
    loop
        invariant
            hit == label_hits(sep@, slices(parts@), values(taken@)),
            forall|d: int| 0 <= d < counter ==> !#[trigger] hit(d),
        decreases u64::MAX - counter,
    {
        let counter_bytes = u64_to_le_bytes(counter);
        let mut all_parts: Vec<&[u8]> = Vec::new();
        let mut i: usize = 0;
        while i < parts.len()
            invariant
                i <= parts.len(),
                all_parts@ == parts@.take(i as int),
            decreases parts.len() - i,
        {
            all_parts.push(parts[i]);
            i += 1;
            proof {
                assert(all_parts@ =~= parts@.take(i as int));
            }
        }
        // Counter 0 is hashed without a suffix, so that the usual case is the
        // plain derivation.
        if counter > 0 {
            all_parts.push(counter_bytes.as_slice());
        }
        proof {
            assert(slices(all_parts@) =~= counted(slices(parts@), counter as int));
        }
        let candidate = hash_to_fr(sep, all_parts.as_slice());
        if !candidate.is_zero() && !contains_scalar(taken, &candidate) {
            proof {
                assert(hit(counter as int));
                assert(least_counter(hit, counter as int));
                let c = choose|c: int| #[trigger] least_counter(hit, c);
                lemma_least_unique(hit, c, counter as int);
            }
            return Some(candidate);
        }
        proof {
            assert(!hit(counter as int));
        }
        if counter == u64::MAX {
            proof {
                assert forall|c: int| !#[trigger] least_counter(hit, c) by {}
            }
            return None;
        }
        counter += 1;
    }
}

/// Derives all labels of an election, or gives `None` where one of them has
/// no 64-bit counter. `candidates` lists ids and names in display order.
pub fn try_derive_election_labels(election_id: &str, candidates: &Vec<(String, String)>) -> (r:
    Option<ElectionLabels>)
    ensures
        r is Some <==> labels_derivable(election_id@, pair_texts(candidates@)),
        r matches Some(l) ==> l@ == election_labels(election_id@, pair_texts(candidates@)),
{
    let mut taken: Vec<Fr> = Vec::new();
    let ghost eid = election_id@;
    let ghost all = pair_texts(candidates@);
    let mut i: usize = 0;
    proof {
        assert(all.take(0) =~= Seq::empty());
        assert(values(taken@) =~= candidate_labels(eid, all.take(0)));
    }
    while i < candidates.len()
        invariant
            i <= candidates.len(),
            eid == election_id@,
            all == pair_texts(candidates@),
            values(taken@) == candidate_labels(eid, all.take(i as int)),
            candidates_derivable(eid, all.take(i as int)),
        decreases candidates.len() - i,
    {
        let pair = &candidates[i];
        let parts: Vec<&[u8]> = vec![
            election_id.as_bytes(),
            pair.0.as_str().as_bytes(),
            pair.1.as_str().as_bytes(),
        ];
        proof {
            assert(slices(parts@) =~= candidate_parts(eid, all[i as int]));
            assert(all.take(i + 1).drop_last() =~= all.take(i as int));
            assert(all.take(i + 1).last() == all[i as int]);
        }
        match derive_distinct(CANDIDATE_LABEL_SEP.as_bytes(), parts.as_slice(), &taken) {
            Some(w) => {
                taken.push(w);
                proof {
                    assert(values(taken@) =~= candidate_labels(eid, all.take(i + 1)));
                }
            },
            None => {
                proof {
                    lemma_derivable_prefix(eid, all, i + 1);
                }
                return None;
            },
        }
        i += 1;
    }
    proof {
        assert(all.take(all.len() as int) =~= all);
    }
    let candidate_labels = clone_scalars(&taken);
    let id_parts: Vec<&[u8]> = vec![election_id.as_bytes()];
    proof {
        assert(slices(id_parts@) =~= seq![encode_utf8(eid)]);
    }
    let no_vote_label = match derive_distinct(
        NO_VOTE_LABEL_SEP.as_bytes(),
        id_parts.as_slice(),
        &taken,
    ) {
        Some(w) => w,
        None => {
            return None;
        },
    };
    proof {
        assert(values(taken@.push(no_vote_label)) =~= values(taken@).push(no_vote_label@));
    }
    taken.push(no_vote_label);
    let pad_label = match derive_distinct(PAD_LABEL_SEP.as_bytes(), id_parts.as_slice(), &taken) {
        Some(w) => w,
        None => {
            return None;
        },
    };
    Some(ElectionLabels { candidate_labels, no_vote_label, pad_label })
}

/// If all candidates have labels, so have the first `k`.
proof fn lemma_derivable_prefix(eid: Seq<char>, all: Seq<(Seq<char>, Seq<char>)>, k: int)
    requires
        0 <= k <= all.len(),
    ensures
        candidates_derivable(eid, all) ==> candidates_derivable(eid, all.take(k)),
    decreases all.len(),
{
    if k == all.len() {
        assert(all.take(k) =~= all);
    } else {
        lemma_derivable_prefix(eid, all.drop_last(), k);
        assert(all.drop_last().take(k) =~= all.take(k));
    }
}

/// Derives all labels of an election. `candidates` lists ids and names in
/// display order.
pub fn derive_election_labels(election_id: &str, candidates: &Vec<(String, String)>) -> (l:
    ElectionLabels)
    requires
        labels_derivable(election_id@, pair_texts(candidates@)),
    ensures
        l@ == election_labels(election_id@, pair_texts(candidates@)),
        nonzero_distinct(l@.all()),
{
    let l = try_derive_election_labels(election_id, candidates).unwrap();
    proof {
        law_labels_nonzero_distinct(election_id@, pair_texts(candidates@));
    }
    l
}

/// A derived label is nonzero and not taken.
proof fn lemma_derived(sep: Seq<u8>, parts: Seq<Seq<u8>>, taken: Seq<int>)
    requires
        derivable(sep, parts, taken),
    ensures
        derived(sep, parts, taken) != 0,
        !taken.contains(derived(sep, parts, taken)),
{
    let hit = label_hits(sep, parts, taken);
    let c = choose|c: int| #[trigger] least_counter(hit, c);
    assert(hit(c));
}

proof fn lemma_push_distinct(s: Seq<int>, x: int)
    requires
        nonzero_distinct(s),
        x != 0,
        !s.contains(x),
    ensures
        nonzero_distinct(s.push(x)),
{
    let t = s.push(x);
    assert forall|i: int, j: int| 0 <= i < j < t.len() implies #[trigger] t[i] != #[trigger] t[j] by {
        if j == s.len() {
            assert(s[i] == t[i]);
        } else {
            assert(s[i] == t[i] && s[j] == t[j]);
        }
    }
}

proof fn lemma_candidate_labels(eid: Seq<char>, candidates: Seq<(Seq<char>, Seq<char>)>)
    requires
        candidates_derivable(eid, candidates),
    ensures
        nonzero_distinct(candidate_labels(eid, candidates)),
        candidate_labels(eid, candidates).len() == candidates.len(),
    decreases candidates.len(),
{
    if candidates.len() > 0 {
        let before = candidates.drop_last();
        lemma_candidate_labels(eid, before);
        let sep = encode_utf8(CANDIDATE_LABEL_SEP@);
        let parts = candidate_parts(eid, candidates.last());
        let taken = candidate_labels(eid, before);
        lemma_derived(sep, parts, taken);
        lemma_push_distinct(taken, derived(sep, parts, taken));
    }
}

/// All labels of an election, those of NO_VOTE and PAD included, are nonzero
/// and pairwise distinct, and every candidate has one.
pub proof fn law_labels_nonzero_distinct(eid: Seq<char>, candidates: Seq<(Seq<char>, Seq<char>)>)
    requires
        labels_derivable(eid, candidates),
    ensures
        nonzero_distinct(election_labels(eid, candidates).all()),
        election_labels(eid, candidates).candidates.len() == candidates.len(),
{
    lemma_candidate_labels(eid, candidates);
    let c = candidate_labels(eid, candidates);
    let parts = seq![encode_utf8(eid)];
    let l = election_labels(eid, candidates);
    lemma_derived(encode_utf8(NO_VOTE_LABEL_SEP@), parts, c);
    lemma_push_distinct(c, l.no_vote);
    lemma_derived(encode_utf8(PAD_LABEL_SEP@), parts, c.push(l.no_vote));
    lemma_push_distinct(c.push(l.no_vote), l.pad);
}

/// The separator and the parts that the label at a position of all labels is
/// hashed from.
pub open spec fn label_source(
    eid: Seq<char>,
    candidates: Seq<(Seq<char>, Seq<char>)>,
    i: int,
) -> (Seq<u8>, Seq<Seq<u8>>) {
    if i < candidates.len() {
        (encode_utf8(CANDIDATE_LABEL_SEP@), candidate_parts(eid, candidates[i]))
    } else if i == candidates.len() {
        (encode_utf8(NO_VOTE_LABEL_SEP@), seq![encode_utf8(eid)])
    } else {
        (encode_utf8(PAD_LABEL_SEP@), seq![encode_utf8(eid)])
    }
}

/// The bytes that are hashed for the label at a position, with a counter.
pub open spec fn label_bytes(
    eid: Seq<char>,
    candidates: Seq<(Seq<char>, Seq<char>)>,
    i: int,
    counter: int,
) -> Seq<u8> {
    let (sep, parts) = label_source(eid, candidates, i);
    transcript(sep, counted(parts, counter))
}

/// The label of a candidate avoids those of the candidates before it.
proof fn lemma_candidate_label(eid: Seq<char>, candidates: Seq<(Seq<char>, Seq<char>)>, i: int)
    requires
        0 <= i < candidates.len(),
        candidates_derivable(eid, candidates),
    ensures
        ({
            let sep = encode_utf8(CANDIDATE_LABEL_SEP@);
            let parts = candidate_parts(eid, candidates[i]);
            let taken = candidate_labels(eid, candidates.take(i));
            &&& derivable(sep, parts, taken)
            &&& candidate_labels(eid, candidates).len() == candidates.len()
            &&& candidate_labels(eid, candidates)[i] == derived(sep, parts, taken)
        }),
    decreases candidates.len(),
{
    let before = candidates.drop_last();
    lemma_candidate_labels_len(eid, before);
    if i < before.len() {
        lemma_candidate_label(eid, before, i);
        assert(before.take(i) =~= candidates.take(i));
    } else {
        assert(before =~= candidates.take(i));
    }
}

/// A label is a hash with some counter.
proof fn lemma_label_hashed(
    eid: Seq<char>,
    candidates: Seq<(Seq<char>, Seq<char>)>,
    i: int,
) -> (c: int)
    requires
        labels_derivable(eid, candidates),
        0 <= i < election_labels(eid, candidates).all().len(),
    ensures
        0 <= c <= u64::MAX,
        ({
            let (sep, parts) = label_source(eid, candidates, i);
            election_labels(eid, candidates).all()[i] == fr_hash(sep, counted(parts, c))
        }),
{
    let l = election_labels(eid, candidates);
    lemma_candidate_labels_len(eid, candidates);
    let n = candidates.len() as int;
    let (sep, parts) = label_source(eid, candidates, i);
    let taken = if i < n {
        candidate_labels(eid, candidates.take(i))
    } else if i == n {
        l.candidates
    } else {
        l.candidates.push(l.no_vote)
    };
    if i < n {
        lemma_candidate_label(eid, candidates, i);
    }
    choose|c: int| #[trigger] least_counter(label_hits(sep, parts, taken), c)
}

/// The labels of two elections differ, whatever their candidates and
/// positions, unless bytes that are hashed for the one and for the other
/// collide.
pub proof fn law_labels_of_elections(
    eid: Seq<char>,
    candidates: Seq<(Seq<char>, Seq<char>)>,
    i: int,
    other: Seq<char>,
    other_candidates: Seq<(Seq<char>, Seq<char>)>,
    j: int,
)
    requires
        eid != other,
        encode_utf8(eid).len() <= u64::MAX,
        encode_utf8(other).len() <= u64::MAX,
        labels_derivable(eid, candidates),
        labels_derivable(other, other_candidates),
        0 <= i < election_labels(eid, candidates).all().len(),
        0 <= j < election_labels(other, other_candidates).all().len(),
        election_labels(eid, candidates).all()[i] == election_labels(
            other,
            other_candidates,
        ).all()[j],
    ensures
        exists|c: int, d: int|
            0 <= c <= u64::MAX && 0 <= d <= u64::MAX && fr_collision(
                #[trigger] label_bytes(eid, candidates, i, c),
                #[trigger] label_bytes(other, other_candidates, j, d),
            ),
{
    let c = lemma_label_hashed(eid, candidates, i);
    let d = lemma_label_hashed(other, other_candidates, j);
    let (sep, parts) = label_source(eid, candidates, i);
    let (other_sep, other_parts) = label_source(other, other_candidates, j);
    let (a, b) = (counted(parts, c), counted(other_parts, d));
    assert(a[0] == encode_utf8(eid) && b[0] == encode_utf8(other));
    if label_bytes(eid, candidates, i, c) == label_bytes(other, other_candidates, j, d) {
        reveal_strlit("AGGIOS_CANDIDATE_LABEL");
        reveal_strlit("AGGIOS_NO_VOTE_LABEL");
        reveal_strlit("AGGIOS_PAD_LABEL");
        vstd::utf8::is_ascii_chars_encode_utf8(CANDIDATE_LABEL_SEP@);
        vstd::utf8::is_ascii_chars_encode_utf8(NO_VOTE_LABEL_SEP@);
        vstd::utf8::is_ascii_chars_encode_utf8(PAD_LABEL_SEP@);
        assert(front_fits(a, 1) && front_fits(b, 1));
        lemma_transcript_front(sep, a, other_sep, b, 1);
        assert(a.take(1)[0] == b.take(1)[0]);
        lemma_text_bytes(eid, other);
    }
    assert(fr_collision(
        label_bytes(eid, candidates, i, c),
        label_bytes(other, other_candidates, j, d),
    ));
}

/// The label at a position of all labels is for this: a candidate's id and
/// name, no vote, or padding.
pub open spec fn label_subject(candidates: Seq<(Seq<char>, Seq<char>)>, i: int) -> (
    int,
    Seq<char>,
    Seq<char>,
) {
    if i < candidates.len() {
        (0, candidates[i].0, candidates[i].1)
    } else if i == candidates.len() {
        (1, Seq::empty(), Seq::empty())
    } else {
        (2, Seq::empty(), Seq::empty())
    }
}

proof fn lemma_separator_lengths()
    ensures
        encode_utf8(CANDIDATE_LABEL_SEP@).len() == 22,
        encode_utf8(NO_VOTE_LABEL_SEP@).len() == 20,
        encode_utf8(PAD_LABEL_SEP@).len() == 16,
{
    reveal_strlit("AGGIOS_CANDIDATE_LABEL");
    reveal_strlit("AGGIOS_NO_VOTE_LABEL");
    reveal_strlit("AGGIOS_PAD_LABEL");
    vstd::utf8::is_ascii_chars_encode_utf8(CANDIDATE_LABEL_SEP@);
    vstd::utf8::is_ascii_chars_encode_utf8(NO_VOTE_LABEL_SEP@);
    vstd::utf8::is_ascii_chars_encode_utf8(PAD_LABEL_SEP@);
}

/// In one election, a candidate with another id or name has another label, and
/// no candidate that of no vote or padding, whatever the lists of candidates
/// are, unless bytes that are hashed for the one and for the other collide.
#[verifier::spinoff_prover]
#[verifier::rlimit(40)]
pub proof fn law_labels_of_subjects(
    eid: Seq<char>,
    candidates: Seq<(Seq<char>, Seq<char>)>,
    i: int,
    others: Seq<(Seq<char>, Seq<char>)>,
    j: int,
)
    requires
        label_subject(candidates, i) != label_subject(others, j),
        encode_utf8(eid).len() <= u64::MAX,
        i < candidates.len() ==> encode_utf8(candidates[i].0).len() <= u64::MAX && encode_utf8(
            candidates[i].1,
        ).len() <= u64::MAX,
        j < others.len() ==> encode_utf8(others[j].0).len() <= u64::MAX && encode_utf8(
            others[j].1,
        ).len() <= u64::MAX,
        labels_derivable(eid, candidates),
        labels_derivable(eid, others),
        0 <= i < election_labels(eid, candidates).all().len(),
        0 <= j < election_labels(eid, others).all().len(),
        election_labels(eid, candidates).all()[i] == election_labels(eid, others).all()[j],
    ensures
        exists|c: int, d: int|
            0 <= c <= u64::MAX && 0 <= d <= u64::MAX && fr_collision(
                #[trigger] label_bytes(eid, candidates, i, c),
                #[trigger] label_bytes(eid, others, j, d),
            ),
{
    let c = lemma_label_hashed(eid, candidates, i);
    let d = lemma_label_hashed(eid, others, j);
    let (sep, parts) = label_source(eid, candidates, i);
    let (other_sep, other_parts) = label_source(eid, others, j);
    let (a, b) = (counted(parts, c), counted(other_parts, d));
    if label_bytes(eid, candidates, i, c) == label_bytes(eid, others, j, d) {
        lemma_separator_lengths();
        assert(a[0] == encode_utf8(eid) && b[0] == encode_utf8(eid));
        assert(front_fits(a, 1) && front_fits(b, 1));
        lemma_transcript_front(sep, a, other_sep, b, 1);
        if i < candidates.len() && j < others.len() {
            assert(front_fits(a, 3) && front_fits(b, 3));
            lemma_transcript_front(sep, a, other_sep, b, 3);
            assert(a.take(3)[1] == a[1] && a.take(3)[2] == a[2]);
            assert(b.take(3)[1] == b[1] && b.take(3)[2] == b[2]);
            lemma_text_bytes(candidates[i].0, others[j].0);
            lemma_text_bytes(candidates[i].1, others[j].1);
        }
        lemma_candidate_labels_len(eid, candidates);
        lemma_candidate_labels_len(eid, others);
        assert(sep.len() == other_sep.len());
    }
    assert(fr_collision(
        label_bytes(eid, candidates, i, c),
        label_bytes(eid, others, j, d),
    ));
}

} // verus!

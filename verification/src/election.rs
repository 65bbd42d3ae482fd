//! Election parameters and templates.

use vstd::prelude::*;

use crate::epa_adapter::EPA_BACKEND_ID;
use crate::labels::pair_texts;
use crate::text::{clone_texts, texts};

verus! {

pub const ARTIFACT_VERSION: u32 = 1;

/// A candidate or option.
#[derive(Debug, PartialEq, Eq)]
pub struct Candidate {
    pub id: String,
    pub name: String,
}

impl Clone for Candidate {
    fn clone(&self) -> (r: Candidate)
        ensures
            r == *self,
    {
        Candidate { id: self.id.clone(), name: self.name.clone() }
    }
}

/// Where an election stands.
#[derive(Clone, Copy, Debug, PartialEq, Eq, Structural)]
pub enum ElectionPhase {
    Setup,
    Registration,
    Voting,
    Tally,
    Closed,
}

/// The public parameters of an election.
#[derive(Debug, PartialEq, Eq)]
pub struct ElectionParams {
    pub version: u32,
    pub object_type: String,
    pub curve: String,
    pub election_id: String,
    pub title: String,
    pub description: String,
    pub candidates: Vec<Candidate>,
    pub aggregators: Vec<String>,
    pub max_voters: usize,
    /// The family of parameters; the size is chosen for each aggregator when
    /// its registration is finalized.
    pub srs_ref: String,
    pub phase: ElectionPhase,
}

/// The ids and names of candidates.
pub open spec fn candidate_texts(s: Seq<Candidate>) -> Seq<(Seq<char>, Seq<char>)> {
    Seq::new(s.len(), |i: int| (s[i].id@, s[i].name@))
}

/// The ids of candidates.
pub open spec fn candidate_ids(s: Seq<Candidate>) -> Seq<Seq<char>> {
    Seq::new(s.len(), |i: int| s[i].id@)
}

pub fn clone_candidates(list: &Vec<Candidate>) -> (r: Vec<Candidate>)
    ensures
        r@ == list@,
{
    let mut r: Vec<Candidate> = Vec::new();
    let mut i: usize = 0;
    while i < list.len()
        invariant
            i <= list.len(),
            r@ == list@.take(i as int),
        decreases list.len() - i,
    {
        r.push(list[i].clone());
        i += 1;
        proof {
            assert(r@ =~= list@.take(i as int));
        }
    }
    proof {
        assert(r@ =~= list@);
    }
    r
}

/// What the public sees of an election.
#[verifier::ext_equal]
pub struct ElectionView {
    pub version: u32,
    pub object_type: Seq<char>,
    pub curve: Seq<char>,
    pub election_id: Seq<char>,
    pub title: Seq<char>,
    pub description: Seq<char>,
    pub candidates: Seq<(Seq<char>, Seq<char>)>,
    pub aggregators: Seq<Seq<char>>,
    pub max_voters: usize,
    pub srs_ref: Seq<char>,
    pub phase: ElectionPhase,
}

impl View for ElectionParams {
    type V = ElectionView;

    open spec fn view(&self) -> ElectionView {
        ElectionView {
            version: self.version,
            object_type: self.object_type@,
            curve: self.curve@,
            election_id: self.election_id@,
            title: self.title@,
            description: self.description@,
            candidates: candidate_texts(self.candidates@),
            aggregators: texts(self.aggregators@),
            max_voters: self.max_voters,
            srs_ref: self.srs_ref@,
            phase: self.phase,
        }
    }
}

impl Clone for ElectionParams {
    fn clone(&self) -> (r: ElectionParams)
        ensures
            r@ == self@,
    {
        ElectionParams {
            version: self.version,
            object_type: self.object_type.clone(),
            curve: self.curve.clone(),
            election_id: self.election_id.clone(),
            title: self.title.clone(),
            description: self.description.clone(),
            candidates: clone_candidates(&self.candidates),
            aggregators: clone_texts(&self.aggregators),
            max_voters: self.max_voters,
            srs_ref: self.srs_ref.clone(),
            phase: self.phase,
        }
    }
}

impl ElectionParams {
    /// A new election, not yet open.
    pub fn new(
        election_id: String,
        title: String,
        description: String,
        candidates: Vec<Candidate>,
        aggregators: Vec<String>,
        max_voters: usize,
    ) -> (r: ElectionParams)
        ensures
            r.version == ARTIFACT_VERSION,
            r.object_type@ == "aggios_election_params"@,
            r.curve@ == EPA_BACKEND_ID@,
            r.election_id == election_id,
            r.title == title,
            r.description == description,
            r.candidates == candidates,
            r.aggregators == aggregators,
            r.max_voters == max_voters,
            r.srs_ref@ == "epa-kzg10-bls12-381;deterministic-test-rng;n=per-aggregator"@,
            r.phase == ElectionPhase::Setup,
    {
        ElectionParams {
            version: ARTIFACT_VERSION,
            object_type: String::from_str("aggios_election_params"),
            curve: String::from_str(EPA_BACKEND_ID),
            election_id,
            title,
            description,
            candidates,
            aggregators,
            max_voters,
            srs_ref: String::from_str(
                "epa-kzg10-bls12-381;deterministic-test-rng;n=per-aggregator",
            ),
            phase: ElectionPhase::Setup,
        }
    }

    /// The ids and names of the candidates, in display order.
    pub fn candidate_pairs(&self) -> (r: Vec<(String, String)>)
        ensures
            pair_texts(r@) == candidate_texts(self.candidates@),
    {
        let mut r: Vec<(String, String)> = Vec::new();
        let mut i: usize = 0;
        while i < self.candidates.len()
            invariant
                i <= self.candidates.len(),
                r@.len() == i,
                forall|k: int|
                    0 <= k < i ==> (#[trigger] r@[k]).0@ == self.candidates@[k].id@ && r@[k].1@
                        == self.candidates@[k].name@,
            decreases self.candidates.len() - i,
        {
            let c = &self.candidates[i];
            r.push((c.id.clone(), c.name.clone()));
            i += 1;
        }
        proof {
            assert(pair_texts(r@) =~= candidate_texts(self.candidates@));
        }
        r
    }

    /// One partition for each candidate, one for no vote, and one for padding.
    pub open spec fn partitions(&self) -> int {
        self.candidates@.len() as int + 2
    }

    /// The number of partitions.
    pub fn num_partitions(&self) -> (n: usize)
        requires
            self.partitions() <= usize::MAX,
        ensures
            n == self.partitions(),
    {
        self.candidates.len() + 2
    }
}

pub const DEFAULT_AGGREGATORS: [&'static str; 3] = ["A1", "A2", "A3"];

/// The ids of the default aggregators.
pub fn default_aggregators() -> (r: Vec<String>)
    ensures
        texts(r@) == seq!["A1"@, "A2"@, "A3"@],
{
    let mut r: Vec<String> = Vec::new();
    r.push(String::from_str("A1"));
    r.push(String::from_str("A2"));
    r.push(String::from_str("A3"));
    proof {
        assert(texts(r@) =~= seq!["A1"@, "A2"@, "A3"@]);
    }
    r
}

/// The built-in kinds of election.
#[derive(Clone, Copy, Debug, PartialEq, Eq, Structural)]
pub enum ElectionTemplate {
    Representative,
    CrimeReform,
    Custom,
}

/// The ids and names of a template's candidates.
pub open spec fn template_texts(template: ElectionTemplate) -> Seq<(Seq<char>, Seq<char>)> {
    match template {
        ElectionTemplate::Representative => seq![
            ("alice"@, "Alice"@),
            ("bob"@, "Bob"@),
            ("charlie"@, "Charlie"@),
        ],
        ElectionTemplate::CrimeReform => seq![
            ("increase-sentencing"@, "Increase sentencing for violent crime"@),
            ("rehabilitation-first"@, "Rehabilitation-first reform"@),
            ("keep-current"@, "Keep the current policy"@),
            ("balanced-reform"@, "Balanced reform: targeted sentencing + rehabilitation"@),
        ],
        ElectionTemplate::Custom => Seq::empty(),
    }
}

fn push_candidate(list: &mut Vec<Candidate>, id: &str, name: &str)
    ensures
        candidate_texts(final(list)@) == candidate_texts(old(list)@).push((id@, name@)),
{
    list.push(Candidate { id: String::from_str(id), name: String::from_str(name) });
    proof {
        assert(candidate_texts(list@) =~= candidate_texts(old(list)@).push((id@, name@)));
    }
}

/// The candidates of a template.
pub fn template_candidates(template: ElectionTemplate) -> (r: Vec<Candidate>)
    ensures
        candidate_texts(r@) == template_texts(template),
{
    let mut r: Vec<Candidate> = Vec::new();
    proof {
        assert(candidate_texts(r@) =~= Seq::<(Seq<char>, Seq<char>)>::empty());
    }
    match template {
        ElectionTemplate::Representative => {
            push_candidate(&mut r, "alice", "Alice");
            push_candidate(&mut r, "bob", "Bob");
            push_candidate(&mut r, "charlie", "Charlie");
        },
        ElectionTemplate::CrimeReform => {
            push_candidate(&mut r, "increase-sentencing", "Increase sentencing for violent crime");
            push_candidate(&mut r, "rehabilitation-first", "Rehabilitation-first reform");
            push_candidate(&mut r, "keep-current", "Keep the current policy");
            push_candidate(
                &mut r,
                "balanced-reform",
                "Balanced reform: targeted sentencing + rehabilitation",
            );
        },
        ElectionTemplate::Custom => {},
    }
    proof {
        assert(candidate_texts(r@) =~= template_texts(template));
    }
    r
}

/// The title of a template.
pub open spec fn template_title_text(template: ElectionTemplate) -> Seq<char> {
    match template {
        ElectionTemplate::Representative => "Representative election"@,
        ElectionTemplate::CrimeReform => "Crime reform policy vote"@,
        ElectionTemplate::Custom => "Custom election"@,
    }
}

pub fn template_title(template: ElectionTemplate) -> (s: &'static str)
    ensures
        s@ == template_title_text(template),
{
    match template {
        ElectionTemplate::Representative => "Representative election",
        ElectionTemplate::CrimeReform => "Crime reform policy vote",
        ElectionTemplate::Custom => "Custom election",
    }
}

} // verus!

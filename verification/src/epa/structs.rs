//! The transcript, the public parameters, the inputs and the proof.

use vstd::prelude::*;
use vstd::utf8::encode_utf8;

use crate::curve::{g1_logs, g2_logs, G1Affine, G2Affine};
use crate::field::{le_digits, le_value, Fr};
use crate::hash::{canonical_bytes, CanonicalBytes};
use crate::modular::{eqm, md};
use crate::poly::{DensePolynomial, GeneralEvaluationDomain};
use vstd::arithmetic::power::pow;

verus! {

/// The transcript of `merlin`.
#[verifier::external_type_specification]
#[verifier::external_body]
pub struct ExTranscript(merlin::Transcript);

/// What a transcript has absorbed so far, in order: 0 with its starting
/// label, 1 with the label of a message and the message, 2 with the label of
/// a challenge of 64 bytes.
pub uninterp spec fn absorbed(t: merlin::Transcript) -> Seq<(int, Seq<u8>, Seq<u8>)>;

/// The 64 challenge bytes under a label after what has been absorbed.
pub uninterp spec fn challenge_output(
    history: Seq<(int, Seq<u8>, Seq<u8>)>,
    label: Seq<u8>,
) -> Seq<u8>;

/// The history of a transcript that has just been started.
pub open spec fn history_start(label: Seq<u8>) -> Seq<(int, Seq<u8>, Seq<u8>)> {
    seq![(0int, label, Seq::<u8>::empty())]
}

/// The history with a message appended.
pub open spec fn history_message(
    history: Seq<(int, Seq<u8>, Seq<u8>)>,
    label: Seq<u8>,
    message: Seq<u8>,
) -> Seq<(int, Seq<u8>, Seq<u8>)> {
    history.push((1int, label, message))
}

/// The history with a challenge taken.
pub open spec fn history_challenge(
    history: Seq<(int, Seq<u8>, Seq<u8>)>,
    label: Seq<u8>,
) -> Seq<(int, Seq<u8>, Seq<u8>)> {
    history.push((2int, label, Seq::<u8>::empty()))
}

/// `Transcript::new` of `merlin`: a transcript that has absorbed the label. It
/// panics on labels longer than 32 bits can count.
#[verifier::external_body]
fn merlin_new(label: &'static [u8]) -> (t: merlin::Transcript)
    requires
        label@.len() <= u32::MAX,
    ensures
        absorbed(t) == history_start(label@),
{
    merlin::Transcript::new(label)
}

/// `Transcript::append_message` of `merlin`: absorbs a message under a label.
/// It panics on messages longer than 32 bits can count.
#[verifier::external_body]
fn merlin_append(t: &mut merlin::Transcript, label: &'static [u8], message: &[u8])
    requires
        message@.len() <= u32::MAX,
    ensures
        absorbed(*final(t)) == history_message(absorbed(*old(t)), label@, message@),
{
    t.append_message(label, message)
}

/// `Transcript::challenge_bytes` of `merlin` for 64 bytes: output that depends
/// on the label and on all that has been absorbed, and is itself absorbed.
#[verifier::external_body]
fn merlin_challenge(t: &mut merlin::Transcript, label: &'static [u8]) -> (bytes: Vec<u8>)
    ensures
        bytes@ == challenge_output(absorbed(*old(t)), label@),
        absorbed(*final(t)) == history_challenge(absorbed(*old(t)), label@),
{
    let mut bytes = vec![0u8; 64];
    t.challenge_bytes(label, &mut bytes);
    bytes
}

/// The label with which every transcript starts.
pub const TRANSCRIPT_LABEL: &'static str = "Init Aggios transcript";

/// The label under which a challenge is appended.
pub const CHALLENGE_LABEL: &'static str = "append_challenge";

/// The transcript that the challenges of a proof are derived from.
pub struct AggiosTranscript {
    transcript: merlin::Transcript,
}

impl View for AggiosTranscript {
    type V = Seq<(int, Seq<u8>, Seq<u8>)>;

    closed spec fn view(&self) -> Seq<(int, Seq<u8>, Seq<u8>)> {
        absorbed(self.transcript)
    }
}

/// The scalar that the challenge bytes stand for.
pub open spec fn challenge_value(history: Seq<(int, Seq<u8>, Seq<u8>)>, label: Seq<u8>) -> int {
    md(le_value(challenge_output(history, label)))
}

/// The history after a challenge was taken and appended.
pub open spec fn after_challenge(
    history: Seq<(int, Seq<u8>, Seq<u8>)>,
    label: Seq<u8>,
) -> Seq<(int, Seq<u8>, Seq<u8>)> {
    history_message(
        history_challenge(history, label),
        encode_utf8(CHALLENGE_LABEL@),
        le_digits(challenge_value(history, label), 32),
    )
}

impl Default for AggiosTranscript {
    fn default() -> (t: AggiosTranscript)
        ensures
            t@ == history_start(encode_utf8(TRANSCRIPT_LABEL@)),
    {
        AggiosTranscript::new()
    }
}

impl AggiosTranscript {
    pub fn new() -> (t: AggiosTranscript)
        ensures
            t@ == history_start(encode_utf8(TRANSCRIPT_LABEL@)),
    {
        let label = TRANSCRIPT_LABEL.as_bytes();
        proof {
            reveal_strlit("Init Aggios transcript");
            vstd::utf8::is_ascii_chars_encode_utf8(TRANSCRIPT_LABEL@);
        }
        AggiosTranscript { transcript: merlin_new(label) }
    }

    /// Takes a challenge scalar and appends it to the transcript.
    pub fn get_and_append_challenge(&mut self, label: &'static [u8]) -> (c: Fr)
        ensures
            c@ == challenge_value(old(self)@, label@),
            final(self)@ == after_challenge(old(self)@, label@),
    {
        let bytes = merlin_challenge(&mut self.transcript, label);
        let challenge = Fr::from_le_bytes_mod_order(bytes.as_slice());
        self.append_element(CHALLENGE_LABEL.as_bytes(), &challenge);
        challenge
    }

    /// Appends a scalar or a point.
    pub fn append_element<T: CanonicalBytes>(&mut self, label: &'static [u8], r: &T)
        ensures
            final(self)@ == history_message(old(self)@, label@, r.canonical()),
    {
        let buf = canonical_bytes(r);
        merlin_append(&mut self.transcript, label, buf.as_slice());
    }
}

/// The points of the first group in which commitments are made.
#[derive(Debug)]
pub struct Powers {
    pub powers_of_g: Vec<G1Affine>,
}

/// The public parameters, known to prover and verifier.
#[derive(Debug)]
pub struct PublicParameters {
    /// Powers in the first group.
    pub poly_ck: Powers,
    /// Powers in the second group.
    pub g2_powers: Vec<G2Affine>,
    pub domain: GeneralEvaluationDomain,
    /// The largest degree that can be committed to.
    pub max_degree: usize,
}

impl PublicParameters {
    /// The sizes fit together: there is one more power in each group than the
    /// largest degree, which is the size of the domain.
    pub open spec fn wf(&self) -> bool {
        &&& self.domain.wf()
        &&& self.max_degree == self.domain.spec_size()
        &&& self.poly_ck.powers_of_g@.len() == self.max_degree + 1
        &&& self.g2_powers@.len() == self.max_degree + 1
    }

    /// The powers are those of `tau`, times `g` in the first group and times
    /// `h` in the second.
    pub open spec fn structured(&self, g: int, h: int, tau: int) -> bool {
        &&& structured_powers(g1_logs(self.poly_ck.powers_of_g@), g, tau)
        &&& structured_powers(g2_logs(self.g2_powers@), h, tau)
    }
}

/// Entry `i` is `base * tau^i`.
pub open spec fn structured_powers(logs: Seq<int>, base: int, tau: int) -> bool {
    forall|i: int| 0 <= i < logs.len() ==> eqm(#[trigger] logs[i], base * pow(tau, i as nat))
}

/// What prover and verifier agree on.
#[derive(Debug)]
pub struct CommonInputs {
    pub c_comm: G1Affine,
    /// For each subset the label, as the index of a domain element.
    pub vote_per_j: Vec<usize>,
    /// The claimed sizes.
    pub subsets_sizes: Vec<usize>,
}

/// What only the prover knows.
#[derive(Debug)]
pub struct Witness {
    pub subsets_indices: Vec<Vec<usize>>,
    pub c_poly: DensePolynomial,
    /// The values of `c_poly` on the domain.
    pub c_values: Vec<Fr>,
}

/// A proof of partition.
#[derive(Debug)]
pub struct Proof {
    pub round1proof: Round1Proof,
    pub p_0_comm: G2Affine,
    pub p_nonzero_comm: Vec<G1Affine>,
}

/// The commitments of the first round.
#[derive(Debug)]
pub struct Round1Proof {
    /// Commitments to the shifted vanishing polynomials.
    pub x_comm: Vec<G1Affine>,
    /// The first vanishing polynomial, in the first group.
    pub z_0_comm: G1Affine,
    /// The other vanishing polynomials, in the second group.
    pub z_nonzero_comm: Vec<G2Affine>,
    pub v_comm: Vec<G1Affine>,
    pub y_comm: Vec<G1Affine>,
}

/// The logarithms of the commitments of the first round.
#[verifier::ext_equal]
pub struct Round1View {
    pub x: Seq<int>,
    pub z_0: int,
    pub z_nonzero: Seq<int>,
    pub v: Seq<int>,
    pub y: Seq<int>,
}

/// The logarithms of a proof.
#[verifier::ext_equal]
pub struct ProofView {
    pub round1: Round1View,
    pub p_0: int,
    pub p_nonzero: Seq<int>,
}

impl View for Round1Proof {
    type V = Round1View;

    open spec fn view(&self) -> Round1View {
        Round1View {
            x: g1_logs(self.x_comm@),
            z_0: self.z_0_comm@,
            z_nonzero: g2_logs(self.z_nonzero_comm@),
            v: g1_logs(self.v_comm@),
            y: g1_logs(self.y_comm@),
        }
    }
}

impl View for Proof {
    type V = ProofView;

    open spec fn view(&self) -> ProofView {
        ProofView {
            round1: self.round1proof@,
            p_0: self.p_0_comm@,
            p_nonzero: g1_logs(self.p_nonzero_comm@),
        }
    }
}

} // verus!

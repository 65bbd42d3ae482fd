//! Challenges and random partitions.

use vstd::prelude::*;
use vstd::string::*;
use vstd::utf8::encode_utf8;

use crate::curve::{g1_encoding, g1_logs, g2_encoding, g2_logs, G1Affine, G2Affine};
use crate::epa::structs::{
    after_challenge, challenge_value, history_message, history_start, AggiosTranscript,
    CommonInputs, Proof, Round1Proof, Round1View, TRANSCRIPT_LABEL,
};
use crate::field::{values, Fr};
use crate::hash::CanonicalBytes;
use crate::text::{decimal, decimal_text};

verus! {

/// `Vec::leak` of std: the contents as a slice that lives for the rest of the
/// program.
#[verifier::external_body]
fn leaked(bytes: Vec<u8>) -> (s: &'static [u8])
    ensures
        s@ == bytes@,
{
    bytes.leak()
}

/// A label with a number behind it.
pub open spec fn numbered(base: Seq<u8>, j: int) -> Seq<u8> {
    base + encode_utf8(decimal(j))
}

/// A label with a number behind it, so that no two labels of a transcript are
/// the same. The bytes are never freed; they are few.
pub fn concat_to_static(base: &'static [u8], j: usize) -> (label: &'static [u8])
    ensures
        label@ == numbered(base@, j as int),
{
    let mut label: Vec<u8> = Vec::new();
    label.extend_from_slice(base);
    let digits = decimal_text(j as u64);
    let mut digits = digits.as_str().as_bytes_vec();
    label.append(&mut digits);
    proof {
        assert(label@ =~= numbered(base@, j as int));
    }
    leaked(label)
}

/// The history with points of the first group appended under numbered labels.
pub open spec fn with_g1_points(
    history: Seq<(int, Seq<u8>, Seq<u8>)>,
    base: Seq<u8>,
    logs: Seq<int>,
) -> Seq<(int, Seq<u8>, Seq<u8>)>
    decreases logs.len(),
{
    if logs.len() == 0 {
        history
    } else {
        history_message(
            with_g1_points(history, base, logs.drop_last()),
            numbered(base, logs.len() - 1),
            g1_encoding(logs.last()),
        )
    }
}

/// The history with points of the second group appended under numbered labels.
pub open spec fn with_g2_points(
    history: Seq<(int, Seq<u8>, Seq<u8>)>,
    base: Seq<u8>,
    logs: Seq<int>,
) -> Seq<(int, Seq<u8>, Seq<u8>)>
    decreases logs.len(),
{
    if logs.len() == 0 {
        history
    } else {
        history_message(
            with_g2_points(history, base, logs.drop_last()),
            numbered(base, logs.len() - 1),
            g2_encoding(logs.last()),
        )
    }
}

/// What the transcript has absorbed when the challenges are taken: the
/// commitment to the vector and all commitments of the first round.
pub open spec fn round1_history(c_comm: int, p: Round1View) -> Seq<(int, Seq<u8>, Seq<u8>)> {
    let h0 = history_message(
        history_start(encode_utf8(TRANSCRIPT_LABEL@)),
        encode_utf8("c_com"@),
        g1_encoding(c_comm),
    );
    let h1 = with_g1_points(h0, encode_utf8("x_com"@), p.x);
    let h2 = history_message(h1, encode_utf8("z_0_comm"@), g1_encoding(p.z_0));
    let h3 = with_g2_points(h2, encode_utf8("z_comm"@), p.z_nonzero);
    let h4 = with_g1_points(h3, encode_utf8("v_comm"@), p.v);
    with_g1_points(h4, encode_utf8("y_comm"@), p.y)
}

/// The history after `count` challenges were taken.
pub open spec fn challenge_history(
    history: Seq<(int, Seq<u8>, Seq<u8>)>,
    count: int,
) -> Seq<(int, Seq<u8>, Seq<u8>)>
    decreases count,
{
    if count <= 0 {
        history
    } else {
        after_challenge(
            challenge_history(history, count - 1),
            numbered(encode_utf8("chi"@), count - 1),
        )
    }
}

/// The challenges of a proof, one for each subset.
pub open spec fn challenges(c_comm: int, p: Round1View, count: nat) -> Seq<int> {
    Seq::new(
        count,
        |j: int|
            challenge_value(
                challenge_history(round1_history(c_comm, p), j),
                numbered(encode_utf8("chi"@), j),
            ),
    )
}

fn append_g1_points(t: &mut AggiosTranscript, base: &'static [u8], points: &Vec<G1Affine>)
    ensures
        final(t)@ == with_g1_points(old(t)@, base@, g1_logs(points@)),
{
    let ghost start = t@;
    let ghost logs = g1_logs(points@);
    let mut j: usize = 0;
    proof {
        assert(logs.take(0) =~= Seq::empty());
    }
    while j < points.len()
        invariant
            j <= points.len(),
            logs == g1_logs(points@),
            t@ == with_g1_points(start, base@, logs.take(j as int)),
        decreases points.len() - j,
    {
        let label = concat_to_static(base, j);
        proof {
            assert(logs.take(j + 1).drop_last() =~= logs.take(j as int));
        }
        t.append_element(label, &points[j]);
        j += 1;
    }
    proof {
        assert(logs.take(logs.len() as int) =~= logs);
    }
}

fn append_g2_points(t: &mut AggiosTranscript, base: &'static [u8], points: &Vec<G2Affine>)
    ensures
        final(t)@ == with_g2_points(old(t)@, base@, g2_logs(points@)),
{
    let ghost start = t@;
    let ghost logs = g2_logs(points@);
    let mut j: usize = 0;
    proof {
        assert(logs.take(0) =~= Seq::empty());
    }
    while j < points.len()
        invariant
            j <= points.len(),
            logs == g2_logs(points@),
            t@ == with_g2_points(start, base@, logs.take(j as int)),
        decreases points.len() - j,
    {
        let label = concat_to_static(base, j);
        proof {
            assert(logs.take(j + 1).drop_last() =~= logs.take(j as int));
        }
        t.append_element(label, &points[j]);
        j += 1;
    }
    proof {
        assert(logs.take(logs.len() as int) =~= logs);
    }
}

/// Derives the challenges from a proof's first round. Prover and verifier
/// both do.
pub fn get_challenges(round1proof: &Round1Proof, common_inputs: &CommonInputs) -> (r: Vec<Fr>)
    ensures
        values(r@) == challenges(
            common_inputs.c_comm@,
            round1proof@,
            common_inputs.subsets_sizes@.len(),
        ),
{
    let k = common_inputs.subsets_sizes.len();
    let mut transcript = AggiosTranscript::new();
    transcript.append_element("c_com".as_bytes(), &common_inputs.c_comm);
    append_g1_points(&mut transcript, "x_com".as_bytes(), &round1proof.x_comm);
    transcript.append_element("z_0_comm".as_bytes(), &round1proof.z_0_comm);
    append_g2_points(&mut transcript, "z_comm".as_bytes(), &round1proof.z_nonzero_comm);
    append_g1_points(&mut transcript, "v_comm".as_bytes(), &round1proof.v_comm);
    append_g1_points(&mut transcript, "y_comm".as_bytes(), &round1proof.y_comm);
    let ghost start = round1_history(common_inputs.c_comm@, round1proof@);
    let ghost want = challenges(common_inputs.c_comm@, round1proof@, k as nat);
    let mut result: Vec<Fr> = Vec::new();
    let mut j: usize = 0;
    while j < k
        invariant
            j <= k,
            want == challenges(common_inputs.c_comm@, round1proof@, k as nat),
            start == round1_history(common_inputs.c_comm@, round1proof@),
            transcript@ == challenge_history(start, j as int),
            result@.len() == j,
            forall|i: int| 0 <= i < j ==> (#[trigger] result@[i])@ == want[i],
        decreases k - j,
    {
        let c = transcript.get_and_append_challenge(concat_to_static("chi".as_bytes(), j));
        result.push(c);
        j += 1;
    }
    proof {
        assert(values(result@) =~= want);
    }
    result
}

// ---- proofs in files -------------------------------------------------------------

/// A number in four bytes, most significant first.
pub open spec fn be_count(n: int) -> Seq<u8> {
    seq![
        (n / 0x100_0000 % 256) as u8,
        (n / 0x1_0000 % 256) as u8,
        (n / 0x100 % 256) as u8,
        (n % 256) as u8,
    ]
}

/// The uncompressed encodings of points of the first group.
pub open spec fn g1_coordinates(points: Seq<G1Affine>) -> Seq<u8>
    decreases points.len(),
{
    if points.len() == 0 {
        Seq::empty()
    } else {
        g1_coordinates(points.drop_last()) + points.last().coordinates()
    }
}

/// The uncompressed encodings of points of the second group.
pub open spec fn g2_coordinates(points: Seq<G2Affine>) -> Seq<u8>
    decreases points.len(),
{
    if points.len() == 0 {
        Seq::empty()
    } else {
        g2_coordinates(points.drop_last()) + points.last().coordinates()
    }
}

fn save_count(out: &mut Vec<u8>, n: usize)
    requires
        n <= u32::MAX,
    ensures
        final(out)@ == old(out)@ + be_count(n as int),
{
    out.push((n / 0x100_0000 % 256) as u8);
    out.push((n / 0x1_0000 % 256) as u8);
    out.push((n / 0x100 % 256) as u8);
    out.push((n % 256) as u8);
    proof {
        assert(out@ =~= old(out)@ + be_count(n as int));
    }
}

/// Saves points of the first group: their number, then the points.
fn save_g1_vec(out: &mut Vec<u8>, points: &Vec<G1Affine>)
    requires
        points@.len() <= u32::MAX,
    ensures
        final(out)@ == old(out)@ + be_count(points@.len() as int) + g1_coordinates(points@),
{
    save_count(out, points.len());
    let ghost start = out@;
    let mut i: usize = 0;
    proof {
        assert(points@.take(0) =~= Seq::<G1Affine>::empty());
        assert(start + g1_coordinates(points@.take(0)) =~= start);
    }
    while i < points.len()
        invariant
            i <= points.len(),
            out@ == start + g1_coordinates(points@.take(i as int)),
        decreases points.len() - i,
    {
        let mut bytes = points[i].to_uncompressed();
        out.append(&mut bytes);
        i += 1;
        proof {
            assert(points@.take(i as int).drop_last() =~= points@.take(i - 1));
            assert(out@ =~= start + g1_coordinates(points@.take(i as int)));
        }
    }
    proof {
        assert(points@.take(points@.len() as int) =~= points@);
    }
}

/// Saves points of the second group: their number, then the points.
fn save_g2_vec(out: &mut Vec<u8>, points: &Vec<G2Affine>)
    requires
        points@.len() <= u32::MAX,
    ensures
        final(out)@ == old(out)@ + be_count(points@.len() as int) + g2_coordinates(points@),
{
    save_count(out, points.len());
    let ghost start = out@;
    let mut i: usize = 0;
    proof {
        assert(points@.take(0) =~= Seq::<G2Affine>::empty());
        assert(start + g2_coordinates(points@.take(0)) =~= start);
    }
    while i < points.len()
        invariant
            i <= points.len(),
            out@ == start + g2_coordinates(points@.take(i as int)),
        decreases points.len() - i,
    {
        let mut bytes = points[i].to_uncompressed();
        out.append(&mut bytes);
        i += 1;
        proof {
            assert(points@.take(i as int).drop_last() =~= points@.take(i - 1));
            assert(out@ =~= start + g2_coordinates(points@.take(i as int)));
        }
    }
    proof {
        assert(points@.take(points@.len() as int) =~= points@);
    }
}

/// The lists of a proof are short enough to be saved.
pub open spec fn savable(made: &Proof) -> bool {
    &&& made.round1proof.x_comm@.len() <= u32::MAX
    &&& made.round1proof.y_comm@.len() <= u32::MAX
    &&& made.round1proof.v_comm@.len() <= u32::MAX
    &&& made.p_nonzero_comm@.len() <= u32::MAX
    &&& made.round1proof.z_nonzero_comm@.len() <= u32::MAX
}

/// A proof as it is saved: the lists with their lengths, then single points.
pub open spec fn saved(made: &Proof) -> Seq<u8> {
    let r = made.round1proof;
    be_count(r.x_comm@.len() as int) + g1_coordinates(r.x_comm@) + be_count(
        r.y_comm@.len() as int,
    ) + g1_coordinates(r.y_comm@) + be_count(r.v_comm@.len() as int) + g1_coordinates(r.v_comm@)
        + be_count(made.p_nonzero_comm@.len() as int) + g1_coordinates(made.p_nonzero_comm@)
        + be_count(r.z_nonzero_comm@.len() as int) + g2_coordinates(r.z_nonzero_comm@)
        + r.z_0_comm.coordinates() + made.p_0_comm.coordinates()
}

/// The bytes of a proof, for measuring its size.
pub fn saved_proof(made: &Proof) -> (out: Vec<u8>)
    requires
        savable(made),
    ensures
        out@ == saved(made),
{
    let mut out: Vec<u8> = Vec::new();
    save_g1_vec(&mut out, &made.round1proof.x_comm);
    save_g1_vec(&mut out, &made.round1proof.y_comm);
    save_g1_vec(&mut out, &made.round1proof.v_comm);
    save_g1_vec(&mut out, &made.p_nonzero_comm);
    save_g2_vec(&mut out, &made.round1proof.z_nonzero_comm);
    let mut z_0 = made.round1proof.z_0_comm.to_uncompressed();
    out.append(&mut z_0);
    let mut p_0 = made.p_0_comm.to_uncompressed();
    out.append(&mut p_0);
    proof {
        assert(out@ =~= saved(made));
    }
    out
}

} // verus!

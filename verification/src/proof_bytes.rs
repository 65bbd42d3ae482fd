//! Lists of curve points as bytes: a count in four bytes, least significant
//! first, then the compressed encodings.

use vstd::prelude::*;
use vstd::slice::slice_subrange;

use crate::curve::{
    bad, g1_decoding, g1_encoding, g2_decoding, g2_encoding, good, G1Affine, G2Affine,
};
use crate::field::{le_digits, le_value, lemma_le_digits_len, lemma_le_round_trip};

verus! {

/// A point with a compressed encoding of fixed width.
pub trait PointBytes: Sized {
    /// The logarithm of the point.
    spec fn log(&self) -> int;

    /// The encoding of the point with a logarithm.
    spec fn encoding(log: int) -> Seq<u8>;

    /// What an encoding stands for, or the decoder's message.
    spec fn decoding(bytes: Seq<u8>) -> Result<int, Seq<char>>;

    /// The number of bytes of an encoding.
    spec fn width() -> nat;

    fn byte_width() -> (n: usize)
        ensures
            n == Self::width(),
            n > 0,
    ;

    fn encode_point(&self) -> (bytes: Vec<u8>)
        ensures
            bytes@ == Self::encoding(self.log()),
            bytes@.len() == Self::width(),
            Self::decoding(bytes@) == good(self.log()),
    ;

    fn decode_point(bytes: &[u8]) -> (r: Result<Self, String>)
        ensures
            r matches Ok(p) ==> Self::decoding(bytes@) == good(p.log()) && bytes@.len()
                >= Self::width(),
            r matches Err(e) ==> Self::decoding(bytes@) == bad(e@),
    ;
}

impl PointBytes for G1Affine {
    open spec fn log(&self) -> int {
        self@
    }

    open spec fn encoding(log: int) -> Seq<u8> {
        g1_encoding(log)
    }

    open spec fn decoding(bytes: Seq<u8>) -> Result<int, Seq<char>> {
        g1_decoding(bytes)
    }

    open spec fn width() -> nat {
        48
    }

    fn byte_width() -> (n: usize) {
        48
    }

    fn encode_point(&self) -> (bytes: Vec<u8>) {
        self.to_bytes()
    }

    fn decode_point(bytes: &[u8]) -> (r: Result<G1Affine, String>) {
        G1Affine::from_bytes(bytes)
    }
}

impl PointBytes for G2Affine {
    open spec fn log(&self) -> int {
        self@
    }

    open spec fn encoding(log: int) -> Seq<u8> {
        g2_encoding(log)
    }

    open spec fn decoding(bytes: Seq<u8>) -> Result<int, Seq<char>> {
        g2_decoding(bytes)
    }

    open spec fn width() -> nat {
        96
    }

    fn byte_width() -> (n: usize) {
        96
    }

    fn encode_point(&self) -> (bytes: Vec<u8>) {
        self.to_bytes()
    }

    fn decode_point(bytes: &[u8]) -> (r: Result<G2Affine, String>) {
        G2Affine::from_bytes(bytes)
    }
}

/// The logarithms of a list of points.
pub open spec fn logs<P: PointBytes>(s: Seq<P>) -> Seq<int> {
    Seq::new(s.len(), |i: int| s[i].log())
}

/// A count in four bytes; what exceeds them is lost.
pub open spec fn count_bytes(n: int) -> Seq<u8> {
    le_digits(n % 0x1_0000_0000, 4)
}

/// The encodings of points, one after another.
pub open spec fn encodings<P: PointBytes>(s: Seq<int>) -> Seq<u8>
    decreases s.len(),
{
    if s.len() == 0 {
        Seq::empty()
    } else {
        encodings::<P>(s.drop_last()) + P::encoding(s.last())
    }
}

/// A list of points: its length, then the encodings.
pub open spec fn list_bytes<P: PointBytes>(s: Seq<int>) -> Seq<u8> {
    count_bytes(s.len() as int) + encodings::<P>(s)
}

/// At most the first `n` bytes.
pub open spec fn front(bytes: Seq<u8>, n: nat) -> Seq<u8> {
    if bytes.len() <= n {
        bytes
    } else {
        bytes.take(n as int)
    }
}

/// What was read and what is left, or a message.
pub type Parsed<T> = Result<(T, Seq<u8>), Seq<char>>;

/// Reads one point. Fewer bytes than a point has are refused.
pub open spec fn read_point_spec<P: PointBytes>(bytes: Seq<u8>) -> Parsed<int> {
    if bytes.len() < P::width() {
        Err(P::decoding(bytes)->Err_0)
    } else {
        match P::decoding(front(bytes, P::width())) {
            Ok(x) => Ok((x, bytes.skip(P::width() as int))),
            Err(e) => Err(e),
        }
    }
}

/// Reads `count` points.
pub open spec fn read_points_spec<P: PointBytes>(bytes: Seq<u8>, count: int) -> Parsed<Seq<int>>
    decreases count,
{
    if count <= 0 {
        Ok((Seq::empty(), bytes))
    } else {
        match read_points_spec::<P>(bytes, count - 1) {
            Ok((xs, rest)) => match read_point_spec::<P>(rest) {
                Ok((x, rest)) => Ok((xs.push(x), rest)),
                Err(e) => Err(e),
            },
            Err(e) => Err(e),
        }
    }
}

/// The largest count that is read.
pub const MAX_COUNT: u64 = 0x100_0000;

/// Reads a list of points.
pub open spec fn read_list_spec<P: PointBytes>(bytes: Seq<u8>) -> Parsed<Seq<int>> {
    let count = le_value(bytes.take(4));
    if bytes.len() < 4 {
        Err("truncated proof"@)
    } else if count > MAX_COUNT {
        Err("implausible vector length"@)
    } else {
        read_points_spec::<P>(bytes.skip(4), count)
    }
}

/// Each point in the list can be read back from its encoding.
pub open spec fn readable<P: PointBytes>(s: Seq<int>) -> bool {
    forall|i: int|
        0 <= i < s.len() ==> P::decoding(P::encoding(#[trigger] s[i])) == good(s[i])
            && P::encoding(s[i]).len() == P::width()
}

fn push_all(out: &mut Vec<u8>, bytes: &Vec<u8>)
    ensures
        final(out)@ == old(out)@ + bytes@,
{
    let ghost start = out@;
    let mut i: usize = 0;
    while i < bytes.len()
        invariant
            i <= bytes.len(),
            out@ == start + bytes@.take(i as int),
        decreases bytes.len() - i,
    {
        out.push(bytes[i]);
        i += 1;
        proof {
            assert(out@ =~= start + bytes@.take(i as int));
        }
    }
    proof {
        assert(bytes@.take(bytes@.len() as int) =~= bytes@);
    }
}

/// Appends one point.
pub fn write_point<P: PointBytes>(out: &mut Vec<u8>, p: &P)
    ensures
        final(out)@ == old(out)@ + P::encoding(p.log()),
        P::decoding(P::encoding(p.log())) == good(p.log()),
        P::encoding(p.log()).len() == P::width(),
{
    let bytes = p.encode_point();
    push_all(out, &bytes);
}

/// Appends a list of points.
pub fn write_vec<P: PointBytes>(out: &mut Vec<u8>, v: &Vec<P>)
    ensures
        final(out)@ == old(out)@ + list_bytes::<P>(logs(v@)),
        readable::<P>(logs(v@)),
{
    let ghost start = out@;
    let n: u64 = v.len() as u64 % 0x1_0000_0000;
    out.push((n % 256) as u8);
    out.push(((n / 256) % 256) as u8);
    out.push(((n / 65536) % 256) as u8);
    out.push((n / 16777216) as u8);
    proof {
        reveal_with_fuel(le_digits, 5);
        assert(n as int / 256 / 256 == n as int / 65536);
        assert(n as int / 65536 / 256 == n as int / 16777216);
        assert(out@ =~= start + count_bytes(v@.len() as int));
    }
    let ghost head = out@;
    let ghost all = logs(v@);
    let mut i: usize = 0;
    proof {
        assert(all.take(0) =~= Seq::<int>::empty());
        assert(out@ =~= head + encodings::<P>(all.take(0)));
    }
    while i < v.len()
        invariant
            i <= v.len(),
            all == logs(v@),
            out@ == head + encodings::<P>(all.take(i as int)),
            readable::<P>(all.take(i as int)),
        decreases v.len() - i,
    {
        write_point(out, &v[i]);
        proof {
            let now = all.take(i + 1);
            assert(now.drop_last() =~= all.take(i as int));
            assert(now.last() == v@[i as int].log());
            assert(out@ =~= head + encodings::<P>(now));
            assert forall|j: int| 0 <= j < now.len() implies P::decoding(
                P::encoding(#[trigger] now[j]),
            ) == good(now[j]) && P::encoding(now[j]).len() == P::width() by {
                if j < i {
                    assert(all.take(i as int)[j] == now[j]);
                }
            }
        }
        i += 1;
    }
    proof {
        assert(all.take(all.len() as int) =~= all);
        assert(out@ =~= start + list_bytes::<P>(all));
    }
}

/// Reads one point at `pos`.
pub fn read_one<P: PointBytes>(bytes: &[u8], pos: usize) -> (r: Result<(P, usize), String>)
    requires
        pos <= bytes@.len(),
    ensures
        r matches Ok((p, next)) ==> pos <= next <= bytes@.len() && read_point_spec::<P>(
            bytes@.skip(pos as int),
        ) == Ok::<(int, Seq<u8>), Seq<char>>((p.log(), bytes@.skip(next as int))),
        r matches Err(e) ==> read_point_spec::<P>(bytes@.skip(pos as int)) == Err::<
            (int, Seq<u8>),
            Seq<char>,
        >(e@),
{
    let width = P::byte_width();
    let left = bytes.len() - pos;
    let take: usize = if left <= width {
        left
    } else {
        width
    };
    let part = slice_subrange(bytes, pos, pos + take);
    proof {
        assert(part@ =~= front(bytes@.skip(pos as int), P::width()));
    }
    match P::decode_point(part) {
        Ok(p) => {
            proof {
                assert(bytes@.skip(pos as int).skip(P::width() as int) =~= bytes@.skip(
                    pos + width,
                ));
            }
            Ok((p, pos + width))
        },
        Err(e) => Err(e),
    }
}

/// Reads a list of points at `pos`.
pub fn read_vec<P: PointBytes>(bytes: &[u8], pos: usize) -> (r: Result<(Vec<P>, usize), String>)
    requires
        pos <= bytes@.len(),
    ensures
        r matches Ok((v, next)) ==> pos <= next <= bytes@.len() && read_list_spec::<P>(
            bytes@.skip(pos as int),
        ) == Ok::<(Seq<int>, Seq<u8>), Seq<char>>((logs(v@), bytes@.skip(next as int))),
        r matches Err(e) ==> read_list_spec::<P>(bytes@.skip(pos as int)) == Err::<
            (Seq<int>, Seq<u8>),
            Seq<char>,
        >(e@),
{
    let ghost start = bytes@.skip(pos as int);
    if bytes.len() - pos < 4 {
        return Err(String::from_str("truncated proof"));
    }
    let count: u64 = bytes[pos] as u64 + 256 * (bytes[pos + 1] as u64) + 65536 * (bytes[pos
        + 2] as u64) + 16777216 * (bytes[pos + 3] as u64);
    proof {
        let four = start.take(4);
        reveal_with_fuel(le_value, 5);
        assert(four[0] == bytes@[pos as int] && four[1] == bytes@[pos + 1] && four[2]
            == bytes@[pos + 2] && four[3] == bytes@[pos + 3]);
        assert(le_value(four) == count) by {
            let t1 = four.drop_first();
            let t2 = t1.drop_first();
            let t3 = t2.drop_first();
            let t4 = t3.drop_first();
            assert(t4.len() == 0);
            assert(t1[0] == four[1] && t2[0] == four[2] && t3[0] == four[3]);
        }
    }
    if count > MAX_COUNT {
        return Err(String::from_str("implausible vector length"));
    }
    let ghost body = start.skip(4);
    let mut v: Vec<P> = Vec::new();
    let mut at: usize = pos + 4;
    let mut i: u64 = 0;
    proof {
        assert(body =~= bytes@.skip(at as int));
        assert(logs(v@) =~= Seq::<int>::empty());
    }
    while i < count
        invariant
            i <= count,
            pos <= at <= bytes@.len(),
            start == bytes@.skip(pos as int),
            body == start.skip(4),
            read_list_spec::<P>(start) == read_points_spec::<P>(body, count as int),
            read_points_spec::<P>(body, i as int) == Ok::<(Seq<int>, Seq<u8>), Seq<char>>(
                (logs(v@), bytes@.skip(at as int)),
            ),
        decreases count - i,
    {
        let ghost before = logs(v@);
        match read_one::<P>(bytes, at) {
            Ok((p, next)) => {
                v.push(p);
                at = next;
                proof {
                    assert(logs(v@) =~= before.push(p.log()));
                }
            },
            Err(e) => {
                proof {
                    lemma_read_error_stays::<P>(body, i + 1, count as int);
                }
                return Err(e);
            },
        }
        i += 1;
    }
    Ok((v, at))
}

/// A failure on the first points is the failure of all.
proof fn lemma_read_error_stays<P: PointBytes>(bytes: Seq<u8>, i: int, count: int)
    requires
        1 <= i <= count,
        read_points_spec::<P>(bytes, i) is Err,
    ensures
        read_points_spec::<P>(bytes, count) == read_points_spec::<P>(bytes, i),
    decreases count - i,
{
    if i < count {
        lemma_read_error_stays::<P>(bytes, i + 1, count);
    }
}

/// A point that can be read back is read from the front of any bytes.
pub proof fn lemma_point_round_trip<P: PointBytes>(x: int, rest: Seq<u8>)
    requires
        P::decoding(P::encoding(x)) == good(x),
        P::encoding(x).len() == P::width(),
    ensures
        read_point_spec::<P>(P::encoding(x) + rest) == Ok::<(int, Seq<u8>), Seq<char>>((x, rest)),
{
    let all = P::encoding(x) + rest;
    assert(front(all, P::width()) =~= P::encoding(x));
    assert(all.skip(P::width() as int) =~= rest);
}

proof fn lemma_points_round_trip<P: PointBytes>(s: Seq<int>, rest: Seq<u8>)
    requires
        readable::<P>(s),
    ensures
        read_points_spec::<P>(encodings::<P>(s) + rest, s.len() as int) == Ok::<
            (Seq<int>, Seq<u8>),
            Seq<char>,
        >((s, rest)),
    decreases s.len(),
{
    if s.len() == 0 {
        assert(encodings::<P>(s) + rest =~= rest);
        assert(s =~= Seq::<int>::empty());
    } else {
        let t = s.drop_last();
        let last = P::encoding(s.last());
        assert(readable::<P>(t)) by {
            assert forall|i: int| 0 <= i < t.len() implies P::decoding(P::encoding(#[trigger] t[i]))
                == good(t[i]) && P::encoding(t[i]).len() == P::width() by {
                assert(s[i] == t[i]);
            }
        }
        lemma_points_round_trip::<P>(t, last + rest);
        assert(encodings::<P>(s) + rest =~= encodings::<P>(t) + (last + rest));
        assert(s[s.len() - 1] == s.last());
        lemma_point_round_trip::<P>(s.last(), rest);
        assert(t.push(s.last()) =~= s);
    }
}

/// A list that was written is read back, with what follows it left over.
pub proof fn law_list_round_trip<P: PointBytes>(s: Seq<int>, rest: Seq<u8>)
    requires
        readable::<P>(s),
        s.len() <= MAX_COUNT,
    ensures
        read_list_spec::<P>(list_bytes::<P>(s) + rest) == Ok::<(Seq<int>, Seq<u8>), Seq<char>>(
            (s, rest),
        ),
{
    let n = s.len() as int;
    let all = list_bytes::<P>(s) + rest;
    assert(n % 0x1_0000_0000 == n);
    lemma_le_digits_len(n, 4);
    assert(vstd::arithmetic::power::pow(256, 4) == 0x1_0000_0000) by {
        reveal_with_fuel(vstd::arithmetic::power::pow, 5);
    }
    lemma_le_round_trip(n, 4);
    assert(all.take(4) =~= count_bytes(n));
    assert(all.skip(4) =~= encodings::<P>(s) + rest);
    lemma_points_round_trip::<P>(s, rest);
}

/// Of a point cut short nothing is read; a whole one is read, and what is left
/// of the rest.
pub proof fn lemma_point_cut<P: PointBytes>(x: int, rest: Seq<u8>, k: int)
    requires
        P::decoding(P::encoding(x)) == good(x),
        P::encoding(x).len() == P::width(),
        0 <= k < P::width() + rest.len(),
    ensures
        ({
            let got = read_point_spec::<P>((P::encoding(x) + rest).take(k));
            let left = k - P::width();
            if left < 0 {
                got is Err
            } else {
                got == Ok::<(int, Seq<u8>), Seq<char>>((x, rest.take(left)))
            }
        }),
{
    let left = k - P::width();
    if left >= 0 {
        assert((P::encoding(x) + rest).take(k) =~= P::encoding(x) + rest.take(left));
        lemma_point_round_trip::<P>(x, rest.take(left));
    }
}

proof fn lemma_points_cut<P: PointBytes>(s: Seq<int>, k: int)
    requires
        readable::<P>(s),
        0 <= k < encodings::<P>(s).len(),
    ensures
        read_points_spec::<P>(encodings::<P>(s).take(k), s.len() as int) is Err,
    decreases s.len(),
{
    let t = s.drop_last();
    let last = P::encoding(s.last());
    let before = encodings::<P>(t);
    let bytes = encodings::<P>(s).take(k);
    assert(s[s.len() - 1] == s.last());
    assert(readable::<P>(t)) by {
        assert forall|i: int| 0 <= i < t.len() implies P::decoding(P::encoding(#[trigger] t[i]))
            == good(t[i]) && P::encoding(t[i]).len() == P::width() by {
            assert(s[i] == t[i]);
        }
    }
    if k < before.len() {
        lemma_points_cut::<P>(t, k);
        assert(bytes =~= before.take(k));
    } else {
        let rest = last.take(k - before.len());
        assert(bytes =~= before + rest);
        lemma_points_round_trip::<P>(t, rest);
    }
}

/// Of a list cut short nothing is read; a whole one is read, and what is left
/// of the rest, or refused for its length.
pub proof fn lemma_list_cut<P: PointBytes>(s: Seq<int>, rest: Seq<u8>, k: int)
    requires
        readable::<P>(s),
        s.len() <= u32::MAX,
        0 <= k < list_bytes::<P>(s).len() + rest.len(),
    ensures
        ({
            let got = read_list_spec::<P>((list_bytes::<P>(s) + rest).take(k));
            let left = k - list_bytes::<P>(s).len();
            if left < 0 || s.len() > MAX_COUNT {
                got is Err
            } else {
                got == Ok::<(Seq<int>, Seq<u8>), Seq<char>>((s, rest.take(left)))
            }
        }),
{
    let n = s.len() as int;
    let list = list_bytes::<P>(s);
    let bytes = (list + rest).take(k);
    let left = k - list.len();
    assert(n % 0x1_0000_0000 == n);
    lemma_le_digits_len(n, 4);
    assert(vstd::arithmetic::power::pow(256, 4) == 0x1_0000_0000) by {
        reveal_with_fuel(vstd::arithmetic::power::pow, 5);
    }
    lemma_le_round_trip(n, 4);
    if k >= 4 {
        assert(bytes.take(4) =~= count_bytes(n));
        if n <= MAX_COUNT {
            if left < 0 {
                assert(bytes.skip(4) =~= encodings::<P>(s).take(k - 4));
                lemma_points_cut::<P>(s, k - 4);
            } else {
                assert(bytes =~= list + rest.take(left));
                law_list_round_trip::<P>(s, rest.take(left));
            }
        }
    }
}

} // verus!

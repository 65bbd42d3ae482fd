//! Text: numbers in decimal and hexadecimal, and concatenation.

use vstd::prelude::*;
use vstd::string::*;

verus! {

/// The digit with value `d`, below 16.
pub open spec fn digit_char(d: int) -> char {
    if d < 10 {
        (48 + d) as char
    } else {
        (87 + d) as char
    }
}

/// `n` in decimal, without leading zeros.
pub open spec fn decimal(n: int) -> Seq<char>
    decreases n,
{
    if n < 10 {
        seq![digit_char(n)]
    } else {
        decimal(n / 10).push(digit_char(n % 10))
    }
}

/// `n` in lower-case hexadecimal, with zeros in front up to `width` digits.
pub open spec fn hexadecimal(n: int, width: int) -> Seq<char>
    decreases n, width,
{
    if n < 16 && width <= 1 {
        seq![digit_char(n)]
    } else if n < 16 {
        zeros(width - 1).push(digit_char(n))
    } else {
        hexadecimal(n / 16, width - 1).push(digit_char(n % 16))
    }
}

/// `count` zero digits.
pub open spec fn zeros(count: int) -> Seq<char> {
    Seq::new(
        if count > 0 {
            count as nat
        } else {
            0
        },
        |i: int| '0',
    )
}

fn digit_text(d: u64) -> (s: &'static str)
    requires
        d < 16,
    ensures
        s@ == seq![digit_char(d as int)],
{
    proof {
        reveal_strlit("0");
        reveal_strlit("1");
        reveal_strlit("2");
        reveal_strlit("3");
        reveal_strlit("4");
        reveal_strlit("5");
        reveal_strlit("6");
        reveal_strlit("7");
        reveal_strlit("8");
        reveal_strlit("9");
        reveal_strlit("a");
        reveal_strlit("b");
        reveal_strlit("c");
        reveal_strlit("d");
        reveal_strlit("e");
        reveal_strlit("f");
    }
    match d {
        0 => "0",
        1 => "1",
        2 => "2",
        3 => "3",
        4 => "4",
        5 => "5",
        6 => "6",
        7 => "7",
        8 => "8",
        9 => "9",
        10 => "a",
        11 => "b",
        12 => "c",
        13 => "d",
        14 => "e",
        _ => "f",
    }
}

/// Appends `n` in decimal.
pub fn push_decimal(out: &mut String, n: u128)
    ensures
        final(out)@ == old(out)@ + decimal(n as int),
    decreases n,
{
    if n >= 10 {
        push_decimal(out, n / 10);
    }
    out.append(digit_text((n % 10) as u64));
    proof {
        assert(out@ =~= old(out)@ + decimal(n as int));
    }
}

/// `n` in decimal.
pub fn decimal_text(n: u64) -> (s: String)
    ensures
        s@ == decimal(n as int),
{
    wide_decimal_text(n as u128)
}

/// `n` in decimal.
pub fn wide_decimal_text(n: u128) -> (s: String)
    ensures
        s@ == decimal(n as int),
{
    let mut s = String::new();
    push_decimal(&mut s, n);
    proof {
        assert(s@ =~= decimal(n as int));
    }
    s
}

fn push_zeros(out: &mut String, count: u64)
    ensures
        final(out)@ == old(out)@ + zeros(count as int),
    decreases count,
{
    proof {
        reveal_strlit("0");
    }
    if count > 0 {
        push_zeros(out, count - 1);
        out.append("0");
    }
    proof {
        assert(out@ =~= old(out)@ + zeros(count as int));
    }
}

/// Appends `n` in lower-case hexadecimal, padded to `width` digits.
pub fn push_hexadecimal(out: &mut String, n: u64, width: u64)
    ensures
        final(out)@ == old(out)@ + hexadecimal(n as int, width as int),
    decreases n,
{
    if n >= 16 {
        push_hexadecimal(out, n / 16, if width > 0 { width - 1 } else { 0 });
        proof {
            if width == 0 {
                lemma_narrow(n as int / 16, width as int - 1);
            }
        }
        out.append(digit_text(n % 16));
    } else {
        if width > 1 {
            push_zeros(out, width - 1);
        }
        out.append(digit_text(n));
    }
    proof {
        assert(out@ =~= old(out)@ + hexadecimal(n as int, width as int));
    }
}

/// A width that is not positive asks for no padding.
proof fn lemma_narrow(n: int, width: int)
    requires
        width <= 0,
    ensures
        hexadecimal(n, width) == hexadecimal(n, 0),
    decreases n,
{
    if n >= 16 {
        lemma_narrow(n / 16, width - 1);
        lemma_narrow(n / 16, -1);
    }
}

pub fn cat2(a: &str, b: &str) -> (s: String)
    ensures
        s@ == a@ + b@,
{
    let mut s = String::from_str(a);
    s.append(b);
    s
}

pub fn cat3(a: &str, b: &str, c: &str) -> (s: String)
    ensures
        s@ == a@ + b@ + c@,
{
    let mut s = cat2(a, b);
    s.append(c);
    s
}

pub fn cat4(a: &str, b: &str, c: &str, d: &str) -> (s: String)
    ensures
        s@ == a@ + b@ + c@ + d@,
{
    let mut s = cat3(a, b, c);
    s.append(d);
    s
}

pub fn cat5(a: &str, b: &str, c: &str, d: &str, e: &str) -> (s: String)
    ensures
        s@ == a@ + b@ + c@ + d@ + e@,
{
    let mut s = cat4(a, b, c, d);
    s.append(e);
    s
}

pub fn cat6(a: &str, b: &str, c: &str, d: &str, e: &str, f: &str) -> (s: String)
    ensures
        s@ == a@ + b@ + c@ + d@ + e@ + f@,
{
    let mut s = cat5(a, b, c, d, e);
    s.append(f);
    s
}

/// Whether two texts are the same.
pub fn same_text(a: &str, b: &str) -> (same: bool)
    ensures
        same == (a@ == b@),
{
    let x = String::from_str(a);
    let y = String::from_str(b);
    x == y
}

/// The texts of a list.
pub open spec fn texts(s: Seq<String>) -> Seq<Seq<char>> {
    Seq::new(s.len(), |i: int| s[i]@)
}

/// A copy of a list of texts.
pub fn clone_texts(list: &Vec<String>) -> (r: Vec<String>)
    ensures
        r@ == list@,
{
    let mut r: Vec<String> = Vec::new();
    let mut i: usize = 0;
    while i < list.len()
        invariant
            i <= list.len(),
            r@ == list@.take(i as int),
        decreases list.len() - i,
    {
        r.push(list[i].clone());
        i += 1;
        proof {
            assert(r@ =~= list@.take(i as int));
        }
    }
    proof {
        assert(r@ =~= list@);
    }
    r
}

/// Whether `text` occurs in `list`.
pub fn contains_text(list: &Vec<String>, text: &str) -> (found: bool)
    ensures
        found == texts(list@).contains(text@),
{
    let wanted = String::from_str(text);
    let mut i: usize = 0;
    while i < list.len()
        invariant
            i <= list.len(),
            wanted@ == text@,
            forall|j: int| 0 <= j < i ==> #[trigger] list@[j]@ != text@,
        decreases list.len() - i,
    {
        if list[i] == wanted {
            proof {
                assert(texts(list@)[i as int] == text@);
            }
            return true;
        }
        i += 1;
    }
    proof {
        assert forall|j: int| 0 <= j < texts(list@).len() implies texts(list@)[j] != text@ by {
            assert(list@[j]@ != text@);
        }
    }
    false
}

// ---- numbers can be read back ------------------------------------------------

/// The value of a digit.
pub open spec fn digit_value(c: char) -> int {
    if c as int <= 57 {
        c as int - 48
    } else {
        c as int - 87
    }
}

/// The number that digits stand for.
pub open spec fn number_of(s: Seq<char>, base: int) -> int
    decreases s.len(),
{
    if s.len() == 0 {
        0
    } else {
        base * number_of(s.drop_last(), base) + digit_value(s.last())
    }
}

/// A number in decimal is read back; its digits are decimal.
pub proof fn lemma_decimal(n: int)
    requires
        n >= 0,
    ensures
        number_of(decimal(n), 10) == n,
        decimal(n).len() >= 1,
        forall|i: int| 0 <= i < decimal(n).len() ==> 48 <= (#[trigger] decimal(n)[i]) as int <= 57,
    decreases n,
{
    let s = decimal(n);
    if n < 10 {
        assert(s.drop_last() =~= Seq::<char>::empty());
        assert(number_of(s.drop_last(), 10) == 0);
    } else {
        lemma_decimal(n / 10);
        assert(s.drop_last() =~= decimal(n / 10));
        assert forall|i: int| 0 <= i < s.len() implies 48 <= (#[trigger] s[i]) as int <= 57 by {
            if i < s.len() - 1 {
                assert(s[i] == decimal(n / 10)[i]);
            }
        }
    }
}

proof fn lemma_zeros(count: int)
    ensures
        number_of(zeros(count), 16) == 0,
    decreases count,
{
    if count > 0 {
        lemma_zeros(count - 1);
        assert(zeros(count).drop_last() =~= zeros(count - 1));
    }
}

/// A number in hexadecimal is read back.
pub proof fn lemma_hexadecimal(n: int, width: int)
    requires
        n >= 0,
    ensures
        number_of(hexadecimal(n, width), 16) == n,
    decreases n,
{
    let s = hexadecimal(n, width);
    if n < 16 && width <= 1 {
        assert(s.drop_last() =~= Seq::<char>::empty());
        assert(number_of(s.drop_last(), 16) == 0);
    } else if n < 16 {
        lemma_zeros(width - 1);
        assert(s.drop_last() =~= zeros(width - 1));
    } else {
        lemma_hexadecimal(n / 16, width - 1);
        assert(s.drop_last() =~= hexadecimal(n / 16, width - 1));
    }
}

/// What the `{:?}` of std shows of a list of texts: brackets, commas, and
/// each text in quotes with its special characters escaped.
pub uninterp spec fn debug_shown(list: Seq<Seq<char>>) -> Seq<char>;

/// `format!` of std with `{:?}` on a list of strings. What it shows depends on
/// the texts of the list alone.
#[verifier::external_body]
pub(crate) fn debug_text(list: &Vec<String>) -> (s: String)
    ensures
        s@ == debug_shown(texts(list@)),
{
    format!("{:?}", list)
}

} // verus!

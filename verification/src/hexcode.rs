//! Bytes as hexadecimal text.

use vstd::prelude::*;

use crate::text::digit_char;

verus! {

/// The value of a hexadecimal digit, in lower or upper case.
pub open spec fn hex_value(c: char) -> Option<int> {
    let n = c as int;
    if 48 <= n <= 57 {
        Some(n - 48)
    } else if 97 <= n <= 102 {
        Some(n - 87)
    } else if 65 <= n <= 70 {
        Some(n - 55)
    } else {
        None
    }
}

/// The text is an even number of hexadecimal digits.
pub open spec fn hex_valid(text: Seq<char>) -> bool {
    text.len() % 2 == 0 && forall|i: int|
        0 <= i < text.len() ==> hex_value(#[trigger] text[i]) is Some
}

/// The bytes that a text stands for, two digits each.
pub open spec fn hex_bytes(text: Seq<char>) -> Seq<u8> {
    Seq::new(
        text.len() / 2,
        |i: int| (16 * hex_value(text[2 * i])->0 + hex_value(text[2 * i + 1])->0) as u8,
    )
}

/// Bytes in lower-case hexadecimal.
pub open spec fn hex_of(bytes: Seq<u8>) -> Seq<char> {
    Seq::new(
        2 * bytes.len(),
        |i: int|
            digit_char(
                if i % 2 == 0 {
                    bytes[i / 2] as int / 16
                } else {
                    bytes[i / 2] as int % 16
                },
            ),
    )
}

/// The message for a text that is no hexadecimal.
pub uninterp spec fn hex_error(text: Seq<char>) -> Seq<char>;

/// `hex::encode`: two lower-case digits for each byte.
#[verifier::external_body]
pub(crate) fn encode(bytes: &[u8]) -> (text: String)
    ensures
        text@ == hex_of(bytes@),
{
    hex::encode(bytes)
}

/// `hex::decode`: accepts exactly an even number of hexadecimal digits in
/// either case. The error is handed on as its text.
#[verifier::external_body]
pub(crate) fn decode(text: &str) -> (r: Result<Vec<u8>, String>)
    ensures
        r is Ok <==> hex_valid(text@),
        r matches Ok(bytes) ==> bytes@ == hex_bytes(text@),
        r matches Err(e) ==> e@ == hex_error(text@),
{
    match hex::decode(text) {
        Ok(bytes) => Ok(bytes),
        Err(e) => Err(e.to_string()),
    }
}

/// Bytes are read back from their text.
pub proof fn law_hex_round_trip(bytes: Seq<u8>)
    ensures
        hex_valid(hex_of(bytes)),
        hex_bytes(hex_of(bytes)) == bytes,
{
    let t = hex_of(bytes);
    assert forall|i: int| 0 <= i < t.len() implies hex_value(#[trigger] t[i]) is Some by {
        let b = bytes[i / 2];
        assert(0 <= b as int / 16 < 16 && 0 <= b as int % 16 < 16);
    }
    let back = hex_bytes(t);
    assert forall|i: int| 0 <= i < back.len() implies back[i] == bytes[i] by {
        let b = bytes[i] as int;
        assert(t[2 * i] == digit_char(b / 16));
        assert(t[2 * i + 1] == digit_char(b % 16));
        assert(hex_value(digit_char(b / 16)) == Some(b / 16));
        assert(hex_value(digit_char(b % 16)) == Some(b % 16));
    }
    assert(back =~= bytes);
}

} // verus!

//! Bytes as text in hexadecimal digits.

use vstd::prelude::*;

verus! {

/// The digit for a number below sixteen, in upper case.
pub open spec fn upper_digit(n: int) -> char {
    if n < 10 {
        ('0' as int + n) as char
    } else {
        ('A' as int + (n - 10)) as char
    }
}

/// What a digit stands for, in either case.
pub open spec fn digit_value(c: char) -> Option<int> {
    if '0' <= c && c <= '9' {
        Some(c as int - '0' as int)
    } else if 'A' <= c && c <= 'F' {
        Some(c as int - 'A' as int + 10)
    } else if 'a' <= c && c <= 'f' {
        Some(c as int - 'a' as int + 10)
    } else {
        None
    }
}

/// Two upper case digits for each byte.
pub open spec fn hex_upper(bytes: Seq<u8>) -> Seq<char> {
    Seq::new(
        2 * bytes.len(),
        |i: int| if i % 2 == 0 { upper_digit(bytes[i / 2] as int / 16) } else { upper_digit(bytes[i / 2] as int % 16) },
    )
}

/// A text of digits, two for each byte.
pub open spec fn is_hex(s: Seq<char>) -> bool {
    s.len() % 2 == 0 && forall|i: int| 0 <= i < s.len() ==> digit_value(#[trigger] s[i]) is Some
}

/// The bytes that a text of digits stands for.
pub open spec fn hex_bytes(s: Seq<char>) -> Seq<u8> {
    Seq::new(s.len() / 2, |i: int| (digit_value(s[2 * i])->0 * 16 + digit_value(s[2 * i + 1])->0) as u8)
}

/// `hex::encode_upper` writes two upper case digits for each byte, the upper half first.
#[verifier::external_body]
pub(crate) fn encode_upper(bytes: &[u8]) -> (r: String)
    ensures
        r@ == hex_upper(bytes@),
{
    hex::encode_upper(bytes)
}

/// `hex::decode` reads two digits of either case for each byte, and refuses a text of
/// odd length and one with any other character.
#[verifier::external_body]
pub(crate) fn decode(text: &str) -> (r: Option<Vec<u8>>)
    ensures
        r is Some == is_hex(text@),
        r is Some ==> r->0@ == hex_bytes(text@),
{
    match hex::decode(text) {
        Ok(bytes) => Some(bytes),
        Err(_) => None,
    }
}

/// What is written for bytes stands for them.
pub proof fn hex_reads_back(bytes: Seq<u8>)
    ensures
        is_hex(hex_upper(bytes)),
        hex_bytes(hex_upper(bytes)) == bytes,
{
    let s = hex_upper(bytes);
    assert forall|i: int| 0 <= i < s.len() implies digit_value(#[trigger] s[i]) is Some by {
        let b = bytes[i / 2];
        assert(0 <= b as int / 16 < 16 && 0 <= b as int % 16 < 16);
    }
    assert forall|i: int| 0 <= i < bytes.len() implies hex_bytes(s)[i] == bytes[i] by {
        let b = bytes[i] as int;
        assert((2 * i) / 2 == i && (2 * i + 1) / 2 == i);
        assert(digit_value(s[2 * i]) == Some(b / 16));
        assert(digit_value(s[2 * i + 1]) == Some(b % 16));
    }
    assert(hex_bytes(s) =~= bytes);
}

/// Different bytes are written differently.
pub proof fn hex_differs(a: Seq<u8>, b: Seq<u8>)
    requires
        hex_upper(a) == hex_upper(b),
    ensures
        a == b,
{
    hex_reads_back(a);
    hex_reads_back(b);
}

} // verus!

//! Hexadecimal text: what it is, and the two conversions between bytes and
//! text that the `hex` crate performs.

use vstd::prelude::*;

verus! {

/// The lowercase hexadecimal digit for a value below sixteen.
pub open spec fn hex_digit(n: int) -> char {
    if n < 10 {
        (0x30 + n) as char
    } else {
        (0x57 + n) as char
    }
}

/// Two lowercase digits for each byte, the high half first.
pub open spec fn hex_string(data: Seq<u8>) -> Seq<char> {
    Seq::new(
        2 * data.len(),
        |i: int|
            if i % 2 == 0 {
                hex_digit(data[i / 2] as int / 16)
            } else {
                hex_digit(data[i / 2] as int % 16)
            },
    )
}

/// `0`-`9`, `a`-`f` or `A`-`F`.
pub open spec fn is_hex_digit(c: char) -> bool {
    ('0' <= c && c <= '9') || ('a' <= c && c <= 'f') || ('A' <= c && c <= 'F')
}

/// `0`-`9` or `a`-`f`: the digits that `hex_string` writes.
pub open spec fn is_lower_hex_digit(c: char) -> bool {
    ('0' <= c && c <= '9') || ('a' <= c && c <= 'f')
}

/// The value of a hexadecimal digit of either case.
pub open spec fn hex_value(c: char) -> int {
    if '0' <= c && c <= '9' {
        c as int - 0x30
    } else if 'a' <= c && c <= 'f' {
        c as int - 0x57
    } else {
        c as int - 0x37
    }
}

/// An even number of hexadecimal digits.
pub open spec fn is_hex_string(text: Seq<char>) -> bool {
    &&& text.len() % 2 == 0
    &&& forall|i: int| 0 <= i < text.len() ==> is_hex_digit(#[trigger] text[i])
}

/// The bytes that a hexadecimal string writes out, a pair of digits each.
pub open spec fn hex_bytes(text: Seq<char>) -> Seq<u8> {
    Seq::new(
        text.len() / 2,
        |i: int| (hex_value(text[2 * i]) * 16 + hex_value(text[2 * i + 1])) as u8,
    )
}

/// What `hex_string` writes is lowercase hexadecimal, two digits for a byte,
/// and reads back as the bytes it was written from.
pub proof fn lemma_hex_round_trip(data: Seq<u8>)
    ensures
        hex_string(data).len() == 2 * data.len(),
        is_hex_string(hex_string(data)),
        forall|i: int|
            0 <= i < hex_string(data).len() ==> is_lower_hex_digit(#[trigger] hex_string(data)[i]),
        hex_bytes(hex_string(data)) == data,
{
    let text = hex_string(data);
    assert forall|i: int| 0 <= i < text.len() implies is_lower_hex_digit(#[trigger] text[i]) by {
        let v = data[i / 2] as int;
        assert(0 <= v / 16 < 16 && 0 <= v % 16 < 16);
    }
    assert forall|i: int| 0 <= i < data.len() implies hex_bytes(text)[i] == data[i] by {
        let v = data[i] as int;
        assert(0 <= v / 16 < 16 && 0 <= v % 16 < 16);
        assert((2 * i) % 2 == 0 && (2 * i) / 2 == i);
        assert((2 * i + 1) % 2 == 1 && (2 * i + 1) / 2 == i);
        assert(hex_value(text[2 * i]) == v / 16);
        assert(hex_value(text[2 * i + 1]) == v % 16);
    }
    assert(hex_bytes(text) =~= data);
}

/// Hexadecimal text is ASCII.
pub proof fn lemma_hex_is_ascii(text: Seq<char>)
    requires
        forall|i: int| 0 <= i < text.len() ==> is_hex_digit(#[trigger] text[i]),
    ensures
        vstd::utf8::is_ascii_chars(text),
{
    assert forall|i: int| 0 <= i < text.len() implies (text[i] as nat) < 128 by {
        assert(is_hex_digit(text[i]));
    }
}

/// Calls `hex::encode`, which writes each byte as two characters taken from
/// `0123456789abcdef`, the high four bits first. Trusted: the result is
/// `hex_string` of the input.
#[verifier::external_body]
pub(crate) fn hex_encode(data: &[u8]) -> (text: String)
    ensures
        text@ == hex_string(data@),
{
    ::hex::encode(data)
}

/// Calls `hex::decode` on the text's bytes. It fails on an odd number of
/// bytes and on any byte that is not a hexadecimal digit of either case, and
/// otherwise joins each pair of digits into one byte, the first digit being
/// the high half. Trusted: it succeeds exactly on `is_hex_string`, with
/// `hex_bytes` of the text. (A character outside ASCII is encoded with bytes
/// above `0x7f`, none of which is a digit.)
#[verifier::external_body]
pub(crate) fn hex_decode(text: &str) -> (bytes: Option<Vec<u8>>)
    ensures
        bytes is Some <==> is_hex_string(text@),
        bytes matches Some(b) ==> b@ == hex_bytes(text@),
{
    ::hex::decode(text).ok()
}

} // verus!

//! Hexadecimal text, as the key and ciphertext frames carry it.
//!
//! The conversion itself is done by the `hex` crate; this module says what
//! the text is, and proves that decoding undoes encoding.

use vstd::prelude::*;

verus! {

/// The sixteen digits that encoding writes, by value.
pub open spec fn digits() -> Seq<char> {
    seq!['0', '1', '2', '3', '4', '5', '6', '7', '8', '9', 'a', 'b', 'c', 'd', 'e', 'f']
}

/// The value of a hexadecimal digit, in either case, or `None` for any other
/// character.
pub open spec fn digit_value(c: char) -> Option<u8> {
    if '0' <= c && c <= '9' {
        Some((c as u32 - '0' as u32) as u8)
    } else if 'a' <= c && c <= 'f' {
        Some((c as u32 - 'a' as u32 + 10) as u8)
    } else if 'A' <= c && c <= 'F' {
        Some((c as u32 - 'A' as u32 + 10) as u8)
    } else {
        None
    }
}

/// The hexadecimal text of `bytes`: two lower-case digits for each byte, the
/// high half first.
pub open spec fn encoded(bytes: Seq<u8>) -> Seq<char> {
    Seq::new(
        2 * bytes.len(),
        |i: int|
            if i % 2 == 0 {
                digits()[bytes[i / 2] as int / 16]
            } else {
                digits()[bytes[i / 2] as int % 16]
            },
    )
}

/// Whether `text` is hexadecimal text: an even number of hexadecimal digits.
pub open spec fn is_hex(text: Seq<char>) -> bool {
    text.len() % 2 == 0 && forall|i: int|
        0 <= i < text.len() ==> (#[trigger] digit_value(text[i])) is Some
}

/// The bytes that hexadecimal text stands for.
pub open spec fn decoded(text: Seq<char>) -> Seq<u8> {
    Seq::new(
        text.len() / 2,
        |i: int|
            (16 * digit_value(text[2 * i]).unwrap() + digit_value(text[2 * i + 1]).unwrap()) as u8,
    )
}

/// Each of the sixteen digits has its position as its value.
pub proof fn lemma_digit_values(n: int)
    requires
        0 <= n < 16,
    ensures
        digit_value(digits()[n]) == Some(n as u8),
{
    let d = digits();
    assert(d[0] == '0' && d[1] == '1' && d[2] == '2' && d[3] == '3');
    assert(d[4] == '4' && d[5] == '5' && d[6] == '6' && d[7] == '7');
    assert(d[8] == '8' && d[9] == '9' && d[10] == 'a' && d[11] == 'b');
    assert(d[12] == 'c' && d[13] == 'd' && d[14] == 'e' && d[15] == 'f');
}

/// Encoded bytes are hexadecimal text, twice as long as the bytes, and
/// decoding them gives the bytes back.
pub proof fn lemma_round_trip(bytes: Seq<u8>)
    ensures
        encoded(bytes).len() == 2 * bytes.len(),
        is_hex(encoded(bytes)),
        decoded(encoded(bytes)) == bytes,
{
    let text = encoded(bytes);
    assert forall|i: int| 0 <= i < text.len() implies (#[trigger] digit_value(text[i])) is Some by {
        let b = bytes[i / 2] as int;
        lemma_digit_values(b / 16);
        lemma_digit_values(b % 16);
    }
    assert forall|i: int| 0 <= i < bytes.len() implies decoded(text)[i] == bytes[i] by {
        let b = bytes[i] as int;
        lemma_digit_values(b / 16);
        lemma_digit_values(b % 16);
        assert((2 * i) / 2 == i && (2 * i) % 2 == 0);
        assert((2 * i + 1) / 2 == i && (2 * i + 1) % 2 == 1);
        assert(text[2 * i] == digits()[b / 16]);
        assert(text[2 * i + 1] == digits()[b % 16]);
        assert(16 * (b / 16) + b % 16 == b);
    }
    assert(decoded(text) =~= bytes);
}

/// Hexadecimal text holds no whitespace.
pub proof fn lemma_hex_has_no_whitespace(text: Seq<char>)
    requires
        is_hex(text),
    ensures
        forall|i: int| 0 <= i < text.len() ==> !crate::text::is_whitespace(#[trigger] text[i]),
{
    assert forall|i: int| 0 <= i < text.len() implies !crate::text::is_whitespace(
        #[trigger] text[i],
    ) by {
        assert(digit_value(text[i]) is Some);
    }
}

/// The error of the `hex` crate's decoder.
#[verifier::external_type_specification]
#[verifier::external_body]
pub struct ExFromHexError(::hex::FromHexError);

/// Calls `hex::encode`, which writes each byte as two lower-case hexadecimal
/// digits, the high half first.
#[verifier::external_body]
pub(crate) fn encode(bytes: &[u8]) -> (text: String)
    ensures
        text@ == encoded(bytes@),
{
    ::hex::encode(bytes)
}

/// Calls `hex::decode`, which accepts an even number of hexadecimal digits in
/// either case and gives one byte for each two, and fails on any other text.
#[verifier::external_body]
pub(crate) fn decode(text: &str) -> (r: Result<Vec<u8>, ::hex::FromHexError>)
    ensures
        r is Ok <==> is_hex(text@),
        r matches Ok(bytes) ==> bytes@ == decoded(text@),
{
    ::hex::decode(text)
}

/// The hexadecimal text of `bytes`.
pub fn to_hex(bytes: &[u8]) -> (text: String)
    ensures
        text@ == encoded(bytes@),
        text@.len() == 2 * bytes@.len(),
        is_hex(text@),
        decoded(text@) == bytes@,
{
    proof {
        lemma_round_trip(bytes@);
    }
    encode(bytes)
}

/// The bytes that `text` stands for, or `None` where `text` is not
/// hexadecimal text.
pub fn from_hex(text: &str) -> (r: Option<Vec<u8>>)
    ensures
        match r {
            Some(bytes) => is_hex(text@) && bytes@ == decoded(text@),
            None => !is_hex(text@),
        },
{
    match decode(text) {
        Ok(bytes) => Some(bytes),
        Err(_) => None,
    }
}

} // verus!

//! Hexadecimal text for object identifiers, through the `hex` crate.

use vstd::prelude::*;

verus! {

/// The lowercase hexadecimal digit for a value below sixteen.
pub open spec fn hex_digit_lower(n: int) -> char {
    if n < 10 {
        (n + 48) as char
    } else {
        (n + 87) as char
    }
}

/// The ASCII code of [`hex_digit_lower`].
pub open spec fn hex_digit_code(n: int) -> u8 {
    if n < 10 {
        (n + 48) as u8
    } else {
        (n + 87) as u8
    }
}

/// Lowercase hexadecimal text of `data`: two digits per byte, high nibble first.
pub open spec fn hex_lower(data: Seq<u8>) -> Seq<char>
    decreases data.len(),
{
    if data.len() == 0 {
        Seq::empty()
    } else {
        seq![hex_digit_lower(data[0] as int / 16), hex_digit_lower(data[0] as int % 16)] + hex_lower(
            data.drop_first(),
        )
    }
}

/// The bytes (ASCII codes) of [`hex_lower`].
pub open spec fn hex_lower_bytes(data: Seq<u8>) -> Seq<u8>
    decreases data.len(),
{
    if data.len() == 0 {
        Seq::empty()
    } else {
        seq![hex_digit_code(data[0] as int / 16), hex_digit_code(data[0] as int % 16)] + hex_lower_bytes(
            data.drop_first(),
        )
    }
}

/// The value of one hexadecimal digit (either case), if `c` is one.
pub open spec fn hex_value(c: u8) -> Option<int> {
    if 48 <= c <= 57 {
        Some(c - 48)
    } else if 97 <= c <= 102 {
        Some(c - 87)
    } else if 65 <= c <= 70 {
        Some(c - 55)
    } else {
        None
    }
}

/// Decoding of hexadecimal text (either case): `None` for an odd length or
/// a character that is not a hexadecimal digit.
pub open spec fn hex_decoded(text: Seq<u8>) -> Option<Seq<u8>>
    decreases text.len(),
{
    if text.len() == 0 {
        Some(Seq::empty())
    } else if text.len() == 1 {
        None
    } else {
        match (hex_value(text[0]), hex_value(text[1]), hex_decoded(text.skip(2))) {
            (Some(hi), Some(lo), Some(rest)) => Some(seq![(hi * 16 + lo) as u8] + rest),
            _ => None,
        }
    }
}

#[verifier::external_type_specification]
#[verifier::external_body]
pub struct ExFromHexError(hex::FromHexError);

/// Calls `hex::encode`, which writes each byte as two lowercase hexadecimal
/// digits, high nibble first; the contract states exactly that text.
#[verifier::external_body]
pub(crate) fn hex_encode(data: &[u8]) -> (text: String)
    ensures
        text@ == hex_lower(data@),
{
    hex::encode(data)
}

/// Calls `hex::decode`, which accepts digits of either case, rejects an odd
/// length or any other character, and otherwise yields one byte per pair of
/// digits, high nibble first; the contract states exactly that.
#[verifier::external_body]
pub(crate) fn hex_decode(text: &[u8]) -> (res: Result<Vec<u8>, hex::FromHexError>)
    ensures
        match res {
            Ok(v) => hex_decoded(text@) == Some(v@),
            Err(_) => hex_decoded(text@) is None,
        },
{
    hex::decode(text)
}

/// The lowercase hex text is ASCII and its UTF-8 bytes are [`hex_lower_bytes`].
pub proof fn lemma_hex_lower_bytes(data: Seq<u8>)
    ensures
        vstd::utf8::is_ascii_chars(hex_lower(data)),
        vstd::utf8::encode_utf8(hex_lower(data)) == hex_lower_bytes(data),
        hex_lower_bytes(data).len() == 2 * data.len(),
        hex_lower(data).len() == 2 * data.len(),
    decreases data.len(),
{
    if data.len() > 0 {
        lemma_hex_lower_bytes(data.drop_first());
        let head = seq![hex_digit_lower(data[0] as int / 16), hex_digit_lower(data[0] as int % 16)];
        assert(vstd::utf8::is_ascii_chars(head));
        vstd::utf8::is_ascii_chars_concat(hex_lower(data), head, hex_lower(data.drop_first()));
    }
    vstd::utf8::is_ascii_chars_encode_utf8(hex_lower(data));
    lemma_hex_chars_to_bytes(data);
}

proof fn lemma_hex_chars_to_bytes(data: Seq<u8>)
    ensures
        hex_lower(data).len() == hex_lower_bytes(data).len(),
        forall|i: int|
            0 <= i < hex_lower(data).len() ==> #[trigger] hex_lower(data)[i] as u8
                == hex_lower_bytes(data)[i],
    decreases data.len(),
{
    if data.len() > 0 {
        lemma_hex_chars_to_bytes(data.drop_first());
    }
}

/// A byte's two lowercase digits decode back to it.
pub proof fn lemma_hex_pair_roundtrip(b: u8)
    ensures
        hex_value(hex_digit_code(b as int / 16)) == Some(b as int / 16),
        hex_value(hex_digit_code(b as int % 16)) == Some(b as int % 16),
        (b / 16) * 16 + b % 16 == b,
{
}

/// Where each digit of [`hex_lower_bytes`] comes from: digits `2j` and
/// `2j + 1` are the high and low nibble of byte `j`.
pub proof fn lemma_hex_lower_bytes_index(data: Seq<u8>)
    ensures
        hex_lower_bytes(data).len() == 2 * data.len(),
        forall|j: int|
            0 <= j < data.len() ==> #[trigger] hex_lower_bytes(data)[2 * j] == hex_digit_code(data[j] as int / 16)
                && hex_lower_bytes(data)[2 * j + 1] == hex_digit_code(data[j] as int % 16),
    decreases data.len(),
{
    if data.len() > 0 {
        let tail = data.drop_first();
        lemma_hex_lower_bytes_index(tail);
        assert forall|j: int| 0 <= j < data.len() implies #[trigger] hex_lower_bytes(data)[2 * j] == hex_digit_code(
            data[j] as int / 16,
        ) && hex_lower_bytes(data)[2 * j + 1] == hex_digit_code(data[j] as int % 16) by {
            if j > 0 {
                assert(tail[j - 1] == data[j]);
                assert(hex_lower_bytes(tail)[2 * (j - 1)] == hex_digit_code(tail[j - 1] as int / 16));
            }
        }
    }
}

/// Lowercase hex digits are ordered as the values they stand for.
pub proof fn lemma_hex_digit_code_order(x: int, y: int)
    requires
        0 <= x < y < 16,
    ensures
        hex_digit_code(x) < hex_digit_code(y),
{
}

} // verus!

use vstd::prelude::*;

verus! {

/// The value of one hexadecimal digit given as an ASCII byte, if it is one.
pub open spec fn hex_digit_value(c: u8) -> Option<u8> {
    if 0x30 <= c && c <= 0x39 {
        Some((c - 0x30) as u8)
    } else if 0x61 <= c && c <= 0x66 {
        Some((c - 0x61 + 10) as u8)
    } else if 0x41 <= c && c <= 0x46 {
        Some((c - 0x41 + 10) as u8)
    } else {
        None
    }
}

/// Hexadecimal text (as bytes, upper or lower case) decoded two digits per
/// byte; `None` for an odd length or a byte that is no hexadecimal digit.
pub open spec fn spec_hex_decode(text: Seq<u8>) -> Option<Seq<u8>>
    decreases text.len(),
{
    if text.len() == 0 {
        Some(Seq::empty())
    } else if text.len() == 1 {
        None
    } else {
        match (hex_digit_value(text[0]), hex_digit_value(text[1]), spec_hex_decode(text.skip(2))) {
            (Some(hi), Some(lo), Some(rest)) => Some(seq![(hi * 16 + lo) as u8] + rest),
            _ => None,
        }
    }
}

/// The lower-case hexadecimal digit for a value below sixteen.
pub open spec fn hex_digit_char(v: u8) -> char {
    if v < 10 {
        (('0' as u8) + v) as char
    } else {
        (('a' as u8) + v - 10) as char
    }
}

/// Bytes written as lower-case hexadecimal text, two digits per byte.
pub open spec fn spec_hex_encode(data: Seq<u8>) -> Seq<char>
    decreases data.len(),
{
    if data.len() == 0 {
        Seq::empty()
    } else {
        seq![hex_digit_char(data[0] / 16), hex_digit_char(data[0] % 16)] + spec_hex_encode(
            data.skip(1),
        )
    }
}

/// Calls `hex::decode`. The contract claims what the `hex` crate documents
/// and its source shows: digits of either case are accepted, an odd length or
/// a non-digit byte is an error, and each pair of digits gives one byte.
#[verifier::external_body]
pub(crate) fn hex_decode(text: &[u8]) -> (res: Option<Vec<u8>>)
    ensures
        match res {
            Some(bytes) => spec_hex_decode(text@) == Some(bytes@),
            None => spec_hex_decode(text@) is None,
        },
{
    hex::decode(text).ok()
}

/// Calls `hex::encode`. The contract claims what the `hex` crate documents:
/// each byte becomes two lower-case hexadecimal digits, high half first.
#[verifier::external_body]
pub(crate) fn hex_encode(data: &[u8]) -> (res: String)
    ensures
        res@ == spec_hex_encode(data@),
{
    hex::encode(data)
}

} // verus!

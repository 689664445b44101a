//! Hexadecimal text, through the `hex` crate.

use vstd::prelude::*;

verus! {

/// Why a text is not the hexadecimal form of a byte string.
#[derive(Debug, Clone, Copy, PartialEq, Eq, Structural)]
pub enum HexError {
    /// The byte at `index` is not a hexadecimal digit; `c` is that byte.
    InvalidHexCharacter { c: char, index: usize },
    /// The text has an odd number of bytes.
    OddLength,
    /// The text does not fit the expected output length.
    InvalidStringLength,
}

/// `b` is one of the ASCII digits `0-9`, `a-f` or `A-F`.
pub open spec fn is_hex_digit(b: u8) -> bool {
    (0x30 <= b <= 0x39) || (0x41 <= b <= 0x46) || (0x61 <= b <= 0x66)
}

/// The value of the hexadecimal digit `b`.
pub open spec fn hex_digit_value(b: u8) -> int {
    if 0x30 <= b <= 0x39 {
        b - 0x30
    } else if 0x41 <= b <= 0x46 {
        b - 0x41 + 10
    } else {
        b - 0x61 + 10
    }
}

/// Reads the digit pairs of `s`, whose first byte stands at `offset` in the
/// whole text: each pair gives one byte, high half first; the first byte that
/// is no digit is the error.
pub open spec fn hex_decode_pairs(s: Seq<u8>, offset: nat) -> Result<Seq<u8>, HexError>
    decreases s.len(),
{
    if s.len() < 2 {
        Ok(Seq::empty())
    } else if !is_hex_digit(s[0]) {
        Err(HexError::InvalidHexCharacter { c: s[0] as char, index: offset as usize })
    } else if !is_hex_digit(s[1]) {
        Err(HexError::InvalidHexCharacter { c: s[1] as char, index: (offset + 1) as usize })
    } else {
        match hex_decode_pairs(s.skip(2), offset + 2) {
            Ok(rest) => Ok(
                seq![(hex_digit_value(s[0]) * 16 + hex_digit_value(s[1])) as u8] + rest,
            ),
            Err(e) => Err(e),
        }
    }
}

/// The bytes that the hexadecimal text `s` stands for (upper or lower case
/// digits), or why it stands for none.
pub open spec fn hex_decode_spec(s: Seq<u8>) -> Result<Seq<u8>, HexError> {
    if s.len() % 2 != 0 {
        Err(HexError::OddLength)
    } else {
        hex_decode_pairs(s, 0)
    }
}

/// The lower case hexadecimal digit of `v`, for `v < 16`.
pub open spec fn hex_char(v: int) -> char {
    if v < 10 {
        (0x30 + v) as char
    } else {
        (0x61 + v - 10) as char
    }
}

/// The lower case hexadecimal text of `b`: two digits per byte, high half first.
pub open spec fn hex_encode_spec(b: Seq<u8>) -> Seq<char>
    decreases b.len(),
{
    if b.len() == 0 {
        Seq::empty()
    } else {
        seq![hex_char(b[0] as int / 16), hex_char(b[0] as int % 16)] + hex_encode_spec(b.drop_first())
    }
}

/// Calls `hex::decode`. The contract restates that function: an odd number of
/// bytes is `OddLength`; otherwise the first byte that is no hexadecimal digit
/// is `InvalidHexCharacter` with that byte and its index; otherwise each pair
/// of digits gives one byte.
#[verifier::external_body]
pub(crate) fn hex_decode(data: &[u8]) -> (res: Result<Vec<u8>, HexError>)
    ensures
        (match hex_decode_spec(data@) {
            Ok(b) => res is Ok && res->Ok_0@ == b,
            Err(e) => res == Err::<Vec<u8>, HexError>(e),
        }),
{
    match hex::decode(data) {
        Ok(v) => Ok(v),
        Err(hex::FromHexError::InvalidHexCharacter { c, index }) => Err(
            HexError::InvalidHexCharacter { c, index },
        ),
        Err(hex::FromHexError::OddLength) => Err(HexError::OddLength),
        Err(hex::FromHexError::InvalidStringLength) => Err(HexError::InvalidStringLength),
    }
}

/// Calls `hex::encode`. The contract restates that function: two lower case
/// hexadecimal digits per byte, high half first.
#[verifier::external_body]
pub(crate) fn hex_encode(data: &[u8]) -> (res: String)
    ensures
        res@ == hex_encode_spec(data@),
{
    hex::encode(data)
}

} // verus!

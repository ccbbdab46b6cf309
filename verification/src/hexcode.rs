//! Bytes as hexadecimal text, which the `hex` crate writes and reads.

use vstd::prelude::*;
use vstd::utf8;

verus! {

/// Why a text is no hexadecimal notation of bytes.
#[derive(Clone, Copy, Debug, PartialEq, Eq, Structural)]
pub enum HexError {
    /// A byte of the text is no hexadecimal digit.
    InvalidHexCharacter { c: char, index: usize },
    /// The number of digits is odd.
    OddLength,
    /// The text does not fill a container of fixed size.
    InvalidStringLength,
}

/// The lower-case hexadecimal digit of a number below sixteen.
pub open spec fn hex_digit(n: int) -> char {
    if n < 10 {
        ('0' as u32 + n) as char
    } else {
        ('a' as u32 + (n - 10)) as char
    }
}

/// The lower-case hexadecimal notation of bytes: two digits for each, the high one first.
pub open spec fn hex_text(data: Seq<u8>) -> Seq<char> {
    Seq::new(
        2 * data.len(),
        |i: int|
            if i % 2 == 0 {
                hex_digit(data[i / 2] as int / 16)
            } else {
                hex_digit(data[i / 2] as int % 16)
            },
    )
}

/// The value of a hexadecimal digit of either case.
pub open spec fn nibble(b: u8) -> Option<int> {
    if 48 <= b <= 57 {
        Some(b - 48)
    } else if 65 <= b <= 70 {
        Some(b - 65 + 10)
    } else if 97 <= b <= 102 {
        Some(b - 97 + 10)
    } else {
        None
    }
}

/// Whether every byte is a hexadecimal digit.
pub open spec fn all_nibbles(text: Seq<u8>) -> bool {
    forall|i: int| 0 <= i < text.len() ==> nibble(#[trigger] text[i]) is Some
}

/// The bytes that a text of hexadecimal digits denotes.
pub open spec fn hex_bytes(text: Seq<u8>) -> Seq<u8> {
    Seq::new(
        text.len() / 2,
        |i: int| (nibble(text[2 * i])->0 * 16 + nibble(text[2 * i + 1])->0) as u8,
    )
}

/// What reading a text as hexadecimal notation gives: the bytes, or the first thing wrong with
/// the text.
pub open spec fn hex_reads_as(text: Seq<u8>, r: Result<Seq<u8>, HexError>) -> bool {
    match r {
        Ok(bytes) => text.len() % 2 == 0 && all_nibbles(text) && bytes == hex_bytes(text),
        Err(HexError::OddLength) => text.len() % 2 == 1,
        Err(HexError::InvalidHexCharacter { c, index }) => {
            &&& text.len() % 2 == 0
            &&& index < text.len()
            &&& nibble(text[index as int]) is None
            &&& all_nibbles(text.take(index as int))
            &&& c == text[index as int] as char
        },
        Err(HexError::InvalidStringLength) => false,
    }
}

/// The outcome of reading, with the bytes taken by their view.
pub open spec fn outcome_view(r: Result<Vec<u8>, HexError>) -> Result<Seq<u8>, HexError> {
    match r {
        Ok(bytes) => Ok(bytes@),
        Err(e) => Err(e),
    }
}

/// Writes bytes as lower-case hexadecimal digits: `hex::encode`. The bound keeps the text
/// within the length that a string can have.
#[verifier::external_body]
pub(crate) fn hex_encode(data: &[u8]) -> (text: String)
    requires
        data@.len() <= isize::MAX / 2,
    ensures
        text@ == hex_text(data@),
{
    hex::encode(data)
}

/// Reads hexadecimal digits of either case: `hex::decode`. The digits are the bytes of the
/// text. An odd number of them is refused, and otherwise the first byte that is no digit.
#[verifier::external_body]
pub(crate) fn hex_decode(text: &str) -> (r: Result<Vec<u8>, HexError>)
    ensures
        hex_reads_as(utf8::encode_utf8(text@), outcome_view(r)),
{
    hex::decode(text).map_err(
        |e|
            match e {
                hex::FromHexError::InvalidHexCharacter { c, index } => {
                    HexError::InvalidHexCharacter { c, index }
                },
                hex::FromHexError::OddLength => HexError::OddLength,
                hex::FromHexError::InvalidStringLength => HexError::InvalidStringLength,
            },
    )
}

/// Every byte string survives a trip through hexadecimal text.
pub proof fn law_hex_round_trip(data: Seq<u8>, r: Result<Seq<u8>, HexError>)
    requires
        hex_reads_as(utf8::encode_utf8(hex_text(data)), r),
    ensures
        r == Ok::<Seq<u8>, HexError>(data),
{
    let text = hex_text(data);
    assert(utf8::is_ascii_chars(text));
    utf8::is_ascii_chars_encode_utf8(text);
    let bytes = utf8::encode_utf8(text);
    assert forall|i: int| 0 <= i < bytes.len() implies nibble(#[trigger] bytes[i]) == Some(
        if i % 2 == 0 {
            data[i / 2] as int / 16
        } else {
            data[i / 2] as int % 16
        },
    ) by {
        assert(bytes[i] == text[i] as u8);
    }
    match r {
        Ok(read) => {
            assert forall|i: int| 0 <= i < data.len() implies #[trigger] read[i] == data[i] by {
                assert(nibble(bytes[2 * i]) is Some);
                assert(nibble(bytes[2 * i + 1]) is Some);
            }
            assert(read =~= data);
        },
        Err(HexError::InvalidHexCharacter { c, index }) => {
            assert(nibble(bytes[index as int]) is Some);
        },
        Err(_) => {},
    }
}

} // verus!

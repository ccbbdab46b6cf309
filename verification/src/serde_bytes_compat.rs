//! The text form of chunk data: hexadecimal digits.

use crate::hexcode;
use crate::hexcode::HexError;
use vstd::prelude::*;
use vstd::utf8;

verus! {

/// The text that stands for chunk data.
pub fn serialize(data: &Vec<u8>) -> (text: String)
    requires
        data@.len() <= isize::MAX / 2,
    ensures
        text@ == hexcode::hex_text(data@),
{
    hexcode::hex_encode(data.as_slice())
}

/// The chunk data that a text stands for.
pub fn deserialize(text: &str) -> (r: Result<Vec<u8>, HexError>)
    ensures
        hexcode::hex_reads_as(utf8::encode_utf8(text@), hexcode::outcome_view(r)),
{
    hexcode::hex_decode(text)
}

} // verus!

use byteorder::{LittleEndian, ReadBytesExt};
use std::io::Cursor;
use vstd::prelude::*;
use vstd::utf8::{decode_utf8, valid_utf8};

use crate::error::FormatError;

verus! {

/// The unsigned value of the first two bytes, least significant first.
pub open spec fn le_u16(bytes: Seq<u8>) -> int {
    bytes[0] + 256 * bytes[1]
}

/// The unsigned value of the first four bytes, least significant first.
pub open spec fn le_u32(bytes: Seq<u8>) -> int {
    bytes[0] + 256 * bytes[1] + 65536 * bytes[2] + 16777216 * bytes[3]
}

/// The two's complement value of the first two bytes.
pub open spec fn le_i16(bytes: Seq<u8>) -> int {
    if le_u16(bytes) < 32768 {
        le_u16(bytes)
    } else {
        le_u16(bytes) - 65536
    }
}

/// The two's complement value of the first four bytes.
pub open spec fn le_i32(bytes: Seq<u8>) -> int {
    if le_u32(bytes) < 2147483648 {
        le_u32(bytes)
    } else {
        le_u32(bytes) - 4294967296
    }
}

/// `ReadBytesExt::read_u16::<LittleEndian>` of byteorder on a cursor over
/// `buf`: it takes the first two bytes and fails when there are fewer.
#[verifier::external_body]
fn read_u16_le(buf: &[u8]) -> (value: Option<u16>)
    ensures
        value is Some <==> buf.len() >= 2,
        value matches Some(v) ==> v == le_u16(buf@),
{
    Cursor::new(buf).read_u16::<LittleEndian>().ok()
}

/// `ReadBytesExt::read_i16::<LittleEndian>` of byteorder on a cursor over
/// `buf`: the same two bytes read as a signed number.
#[verifier::external_body]
fn read_i16_le(buf: &[u8]) -> (value: Option<i16>)
    ensures
        value is Some <==> buf.len() >= 2,
        value matches Some(v) ==> v == le_i16(buf@),
{
    Cursor::new(buf).read_i16::<LittleEndian>().ok()
}

/// `ReadBytesExt::read_u32::<LittleEndian>` of byteorder on a cursor over
/// `buf`: it takes the first four bytes and fails when there are fewer.
#[verifier::external_body]
fn read_u32_le(buf: &[u8]) -> (value: Option<u32>)
    ensures
        value is Some <==> buf.len() >= 4,
        value matches Some(v) ==> v == le_u32(buf@),
{
    Cursor::new(buf).read_u32::<LittleEndian>().ok()
}

/// `ReadBytesExt::read_i32::<LittleEndian>` of byteorder on a cursor over
/// `buf`: the same four bytes read as a signed number.
#[verifier::external_body]
fn read_i32_le(buf: &[u8]) -> (value: Option<i32>)
    ensures
        value is Some <==> buf.len() >= 4,
        value matches Some(v) ==> v == le_i32(buf@),
{
    Cursor::new(buf).read_i32::<LittleEndian>().ok()
}

/// `std::str::from_utf8`: the text that `bytes` encode, and nothing when
/// they are not valid UTF-8.
#[verifier::external_body]
pub(crate) fn str_from_utf8<'a>(bytes: &'a [u8]) -> (text: Option<&'a str>)
    ensures
        text is Some <==> valid_utf8(bytes@),
        text matches Some(s) ==> s@ == decode_utf8(bytes@),
{
    std::str::from_utf8(bytes).ok()
}

/// What `buf_to_le_i32` yields for a buffer: a two-byte buffer holds a
/// 16-bit number, any other buffer a 32-bit number in its first four bytes.
pub open spec fn le_signed(bytes: Seq<u8>) -> Result<int, FormatError> {
    if bytes.len() == 2 {
        Ok(le_i16(bytes))
    } else if bytes.len() >= 4 {
        Ok(le_i32(bytes))
    } else {
        Err(FormatError::Truncated)
    }
}

/// What `buf_to_le_u32` yields for a buffer, as `le_signed` does for the
/// signed reading.
pub open spec fn le_unsigned(bytes: Seq<u8>) -> Result<int, FormatError> {
    if bytes.len() == 2 {
        Ok(le_u16(bytes))
    } else if bytes.len() >= 4 {
        Ok(le_u32(bytes))
    } else {
        Err(FormatError::Truncated)
    }
}

/// Decodes a signed little-endian number of 16 or 32 bits.
pub fn buf_to_le_i32(buf: &[u8]) -> (value: Result<i32, FormatError>)
    ensures
        match le_signed(buf@) {
            Ok(n) => value matches Ok(v) && v == n,
            Err(e) => value == Err::<i32, FormatError>(e),
        },
{
    if buf.len() == 2 {
        match read_i16_le(buf) {
            Some(v) => Ok(v as i32),
            None => Err(FormatError::Truncated),
        }
    } else {
        match read_i32_le(buf) {
            Some(v) => Ok(v),
            None => Err(FormatError::Truncated),
        }
    }
}

/// Decodes an unsigned little-endian number of 16 or 32 bits.
pub fn buf_to_le_u32(buf: &[u8]) -> (value: Result<u32, FormatError>)
    ensures
        match le_unsigned(buf@) {
            Ok(n) => value matches Ok(v) && v == n,
            Err(e) => value == Err::<u32, FormatError>(e),
        },
{
    if buf.len() == 2 {
        match read_u16_le(buf) {
            Some(v) => Ok(v as u32),
            None => Err(FormatError::Truncated),
        }
    } else {
        match read_u32_le(buf) {
            Some(v) => Ok(v),
            None => Err(FormatError::Truncated),
        }
    }
}

/// Decodes an unsigned little-endian number of 16 or 32 bits into 64 bits.
pub fn buf_to_le_u64(buf: &[u8]) -> (value: Result<u64, FormatError>)
    ensures
        match le_unsigned(buf@) {
            Ok(n) => value matches Ok(v) && v == n,
            Err(e) => value == Err::<u64, FormatError>(e),
        },
{
    match buf_to_le_u32(buf) {
        Ok(v) => Ok(v as u64),
        Err(e) => Err(e),
    }
}

} // verus!

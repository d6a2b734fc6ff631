use vstd::prelude::*;
use vstd::slice::slice_subrange;

use crate::error::FormatError;
use crate::utils::{buf_to_le_u32, le_u16, le_u32};

verus! {

/// Whether `length` bytes starting at `offset` lie inside a source of `total` bytes.
pub open spec fn in_source(total: nat, offset: int, length: int) -> bool {
    0 <= offset && 0 <= length && offset + length <= total
}

/// The 16-bit field that starts at `offset`.
pub open spec fn u16_at(source: Seq<u8>, offset: int) -> int {
    le_u16(source.subrange(offset, offset + 2))
}

/// The 32-bit field that starts at `offset`.
pub open spec fn u32_at(source: Seq<u8>, offset: int) -> int {
    le_u32(source.subrange(offset, offset + 4))
}

/// The bytes `offset .. offset + length` of `source`, or `Truncated` when
/// the source ends before them.
pub fn read_span<'a>(source: &'a [u8], offset: u64, length: u64) -> (span: Result<
    &'a [u8],
    FormatError,
>)
    ensures
        in_source(source@.len(), offset as int, length as int) ==> (span matches Ok(s) && s@
            == source@.subrange(offset as int, offset + length)),
        !in_source(source@.len(), offset as int, length as int) ==> (span matches Err(e) && e
            == FormatError::Truncated),
{
    let total = source.len() as u64;
    if offset > total || length > total - offset {
        Err(FormatError::Truncated)
    } else {
        Ok(slice_subrange(source, offset as usize, (offset + length) as usize))
    }
}

/// The byte at `offset`.
pub fn read_u8_at(source: &[u8], offset: u64) -> (value: Result<u8, FormatError>)
    ensures
        offset < source@.len() ==> value == Ok::<u8, FormatError>(source@[offset as int]),
        offset >= source@.len() ==> value == Err::<u8, FormatError>(FormatError::Truncated),
{
    if offset < source.len() as u64 {
        Ok(source[offset as usize])
    } else {
        Err(FormatError::Truncated)
    }
}

/// The little-endian 16-bit field at `offset`.
pub fn read_u16_at(source: &[u8], offset: u64) -> (value: Result<u16, FormatError>)
    ensures
        in_source(source@.len(), offset as int, 2) ==> (value matches Ok(v) && v == u16_at(
            source@,
            offset as int,
        )),
        !in_source(source@.len(), offset as int, 2) ==> value == Err::<u16, FormatError>(
            FormatError::Truncated,
        ),
{
    let span = read_span(source, offset, 2)?;
    let value = buf_to_le_u32(span)?;
    Ok(value as u16)
}

/// The little-endian 32-bit field at `offset`.
pub fn read_u32_at(source: &[u8], offset: u64) -> (value: Result<u32, FormatError>)
    ensures
        in_source(source@.len(), offset as int, 4) ==> (value matches Ok(v) && v == u32_at(
            source@,
            offset as int,
        )),
        !in_source(source@.len(), offset as int, 4) ==> value == Err::<u32, FormatError>(
            FormatError::Truncated,
        ),
{
    let span = read_span(source, offset, 4)?;
    buf_to_le_u32(span)
}

} // verus!

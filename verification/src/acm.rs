use vstd::prelude::*;
use vstd::slice::slice_to_vec;

use crate::cursor::{in_source, read_span, read_u32_at, u32_at};
use crate::directory::Asset;
use crate::error::FormatError;

verus! {

/// What `extract_acm` yields. The first four bytes of the asset give the
/// length of the sound data, which are the last bytes of the asset: they
/// start at `offset + length` less their own length. A start before the
/// archive begins is `Corrupt`.
pub open spec fn acm_data(source: Seq<u8>, offset: u64, length: u64) -> Result<Seq<u8>, FormatError> {
    if !in_source(source.len(), offset as int, 4) || offset + length > u64::MAX {
        Err(FormatError::Truncated)
    } else if u32_at(source, offset as int) > offset + length {
        Err(FormatError::Corrupt)
    } else if !in_source(
        source.len(),
        offset + length - u32_at(source, offset as int),
        u32_at(source, offset as int),
    ) {
        Err(FormatError::Truncated)
    } else {
        Ok(source.subrange(offset + length - u32_at(source, offset as int), offset + length))
    }
}

/// Copies the sound data of an asset out of the archive.
pub fn extract_acm(res_file: &[u8], asset: &Asset) -> (data: Result<Vec<u8>, FormatError>)
    ensures
        match acm_data(res_file@, asset.offset, asset.length) {
            Ok(bytes) => data matches Ok(v) && v@ == bytes,
            Err(e) => data matches Err(x) && x == e,
        },
{
    let length = read_u32_at(res_file, asset.offset)? as u64;
    let end = match asset.offset.checked_add(asset.length) {
        Some(end) => end,
        None => return Err(FormatError::Truncated),
    };
    if length > end {
        return Err(FormatError::Corrupt);
    }
    let span = read_span(res_file, end - length, length)?;
    Ok(slice_to_vec(span))
}

} // verus!

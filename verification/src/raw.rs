use vstd::prelude::*;
use vstd::slice::slice_to_vec;

use crate::cursor::{in_source, read_span};
use crate::directory::Asset;
use crate::error::FormatError;

verus! {

/// The `length` bytes of a payload that starts at `offset`, or `Truncated`
/// when the source ends before them.
pub open spec fn payload(source: Seq<u8>, offset: u64, length: u64) -> Result<Seq<u8>, FormatError> {
    if in_source(source.len(), offset as int, length as int) {
        Ok(source.subrange(offset as int, offset + length))
    } else {
        Err(FormatError::Truncated)
    }
}

/// Copies the payload of an asset out of the archive as it is.
pub fn extract_raw(res_file: &[u8], asset: &Asset) -> (data: Result<Vec<u8>, FormatError>)
    ensures
        match payload(res_file@, asset.offset, asset.length) {
            Ok(bytes) => data matches Ok(v) && v@ == bytes,
            Err(e) => data matches Err(x) && x == e,
        },
{
    let span = read_span(res_file, asset.offset, asset.length)?;
    Ok(slice_to_vec(span))
}

} // verus!

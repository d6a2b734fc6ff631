use vstd::prelude::*;
use vstd::slice::slice_to_vec;

use crate::cursor::read_span;
use crate::directory::Asset;
use crate::error::FormatError;
use crate::raw::payload;

verus! {

/// Copies the text of an asset out of the archive: its payload, byte for
/// byte.
pub fn extract_txt_asset(res_file: &[u8], asset: &Asset) -> (data: Result<Vec<u8>, FormatError>)
    ensures
        match payload(res_file@, asset.offset, asset.length) {
            Ok(bytes) => data matches Ok(v) && v@ == bytes,
            Err(e) => data matches Err(x) && x == e,
        },
{
    let span = read_span(res_file, asset.offset, asset.length)?;
    Ok(slice_to_vec(span))
}

} // verus!

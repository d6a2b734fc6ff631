use vstd::prelude::*;

use crate::directory::Asset;
use crate::error::FormatError;
use crate::grid::RgbGrid;
use crate::imgwithpalette::{extract_img_with_palette, img_with_palette};

verus! {

/// Decodes a bitmap asset: an image that brings its own palette and keeps
/// its pixels run-length compressed.
pub fn extract_bmp_asset(res_file: &[u8], asset: &Asset) -> (image: Result<RgbGrid, FormatError>)
    ensures
        match img_with_palette(res_file@, asset.offset, asset.length) {
            Ok(raster) => image matches Ok(grid) && grid@ == raster,
            Err(e) => image matches Err(x) && x == e,
        },
{
    extract_img_with_palette(res_file, asset)
}

} // verus!

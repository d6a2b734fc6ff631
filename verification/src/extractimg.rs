use vstd::prelude::*;

use crate::directory::Asset;
use crate::error::FormatError;
use crate::grid::RgbaGrid;
use crate::img::{decode_img, img_image, Transparency};
use crate::palette::palettes_view;

verus! {

/// Decodes an image asset in which one fixed colour, `transparent`, stands
/// for transparency whatever the palette is.
pub fn extract_img_asset(
    res_file: &[u8],
    asset: &Asset,
    palettes: &Vec<[u8; 768]>,
    transparent: (u8, u8, u8),
) -> (image: Result<RgbaGrid, FormatError>)
    ensures
        match img_image(
            res_file@,
            palettes_view(palettes@),
            asset.offset,
            asset.length,
            Transparency::Color(transparent.0, transparent.1, transparent.2),
        ) {
            Ok(raster) => image matches Ok(grid) && grid@ == raster,
            Err(e) => image matches Err(x) && x == e,
        },
{
    decode_img(
        res_file,
        palettes,
        asset,
        Transparency::Color(transparent.0, transparent.1, transparent.2),
    )
}

} // verus!

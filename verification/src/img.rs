use vstd::prelude::*;

use crate::cursor::{in_source, read_span, read_u16_at, u16_at};
use crate::directory::Asset;
use crate::error::FormatError;
use crate::grid::{Raster, RgbaGrid};
use crate::palette::{keyed_image, paint_keyed, palette_sample, palettes_view};

verus! {

/// The bytes of an image asset before its pixels: width, height, the two
/// coordinates of its origin and the id of its palette, 16 bits each.
pub const HEADER_LEN: u64 = 10;

/// How an image tells its transparent pixels from the others.
#[derive(Clone, Copy, Debug, PartialEq, Eq, Structural)]
pub enum Transparency {
    /// The first colour of the image's palette is transparent.
    FirstEntry,
    /// This colour is transparent.
    Color(u8, u8, u8),
}

/// The colour that is transparent under `rule` with the given palette.
pub open spec fn key_color(rule: Transparency, palette: Seq<u8>) -> (u8, u8, u8) {
    match rule {
        Transparency::FirstEntry => (
            palette_sample(palette, 0, 0),
            palette_sample(palette, 0, 1),
            palette_sample(palette, 0, 2),
        ),
        Transparency::Color(r, g, b) => (r, g, b),
    }
}

/// What `decode_img` yields. The pixels follow the header as one palette
/// index each, row by row. An asset shorter than its header or reaching
/// past the source is `Truncated`, as are fewer indices than pixels; a
/// palette id that the bank does not hold is `Corrupt`.
pub open spec fn img_image(
    source: Seq<u8>,
    palettes: Seq<Seq<u8>>,
    offset: u64,
    length: u64,
    rule: Transparency,
) -> Result<Raster, FormatError> {
    if length < HEADER_LEN || !in_source(source.len(), offset as int, length as int) {
        Err(FormatError::Truncated)
    } else if u16_at(source, offset + 8) >= palettes.len() {
        Err(FormatError::Corrupt)
    } else {
        keyed_image(
            u16_at(source, offset as int) as u32,
            u16_at(source, offset + 2) as u32,
            source.subrange(offset + HEADER_LEN, offset + length),
            palettes[u16_at(source, offset + 8)],
            key_color(rule, palettes[u16_at(source, offset + 8)]),
        )
    }
}

/// Decodes an image asset whose palette is one of the bank, with the given
/// rule for transparency.
pub fn decode_img(res_file: &[u8], palettes: &Vec<[u8; 768]>, asset: &Asset, rule: Transparency) -> (image:
    Result<RgbaGrid, FormatError>)
    ensures
        match img_image(res_file@, palettes_view(palettes@), asset.offset, asset.length, rule) {
            Ok(raster) => image matches Ok(grid) && grid@ == raster,
            Err(e) => image matches Err(x) && x == e,
        },
{
    if asset.length < HEADER_LEN {
        return Err(FormatError::Truncated);
    }
    read_span(res_file, asset.offset, asset.length)?;
    assert(res_file@.len() == res_file.len());
    let width = read_u16_at(res_file, asset.offset)? as u32;
    let height = read_u16_at(res_file, asset.offset + 2)? as u32;
    let palette_id = read_u16_at(res_file, asset.offset + 8)? as usize;
    if palette_id >= palettes.len() {
        return Err(FormatError::Corrupt);
    }
    let palette = &palettes[palette_id];
    let image_data = read_span(res_file, asset.offset + HEADER_LEN, asset.length - HEADER_LEN)?;
    let key = match rule {
        Transparency::FirstEntry => (palette[0], palette[1], palette[2]),
        Transparency::Color(r, g, b) => (r, g, b),
    };
    paint_keyed(width, height, image_data, palette, key)
}

/// Decodes an image asset; the first colour of its palette is transparent.
pub fn extract_img(res_file: &[u8], palettes: &Vec<[u8; 768]>, asset: &Asset) -> (image: Result<
    RgbaGrid,
    FormatError,
>)
    ensures
        match img_image(
            res_file@,
            palettes_view(palettes@),
            asset.offset,
            asset.length,
            Transparency::FirstEntry,
        ) {
            Ok(raster) => image matches Ok(grid) && grid@ == raster,
            Err(e) => image matches Err(x) && x == e,
        },
{
    decode_img(res_file, palettes, asset, Transparency::FirstEntry)
}

} // verus!

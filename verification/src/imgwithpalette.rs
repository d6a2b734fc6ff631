use vstd::prelude::*;

use crate::cursor::{in_source, read_span, read_u16_at, u16_at};
use crate::decompress::{decompress_data, decompressed, expand};
use crate::directory::Asset;
use crate::error::FormatError;
use crate::grid::{lemma_sample_index, Raster, RgbGrid};
use crate::palette::{indexed_image, lemma_indexed_pixels, paint_indexed, read_palette};

verus! {

/// The bytes at the start of the asset that carry nothing.
pub const UNKNOWN_LEN: u64 = 4;

/// The bytes of the header after them: width and height of 16 bits each
/// and the palette.
pub const HEADER_LEN: u64 = 772;

/// What `extract_img_with_palette` yields. After four unused bytes come
/// width, height and the image's own palette, then the palette indices of
/// its pixels, run-length compressed up to the end of the asset. An asset
/// shorter than its header or reaching past the source is `Truncated`, as
/// are fewer indices than pixels.
pub open spec fn img_with_palette(source: Seq<u8>, offset: u64, length: u64) -> Result<
    Raster,
    FormatError,
> {
    if length < UNKNOWN_LEN + HEADER_LEN || !in_source(source.len(), offset as int, length as int) {
        Err(FormatError::Truncated)
    } else {
        indexed_image(
            u16_at(source, offset + UNKNOWN_LEN) as u32,
            u16_at(source, offset + UNKNOWN_LEN + 2) as u32,
            expand(source.subrange(offset + UNKNOWN_LEN + HEADER_LEN, offset + length)),
            source.subrange(offset + UNKNOWN_LEN + 4, offset + UNKNOWN_LEN + HEADER_LEN),
        )
    }
}

/// Where an image with its own palette can be decoded, every pixel of it
/// has the colour that its expanded index names in that palette.
pub proof fn lemma_img_with_palette_pixels(source: Seq<u8>, offset: u64, length: u64)
    requires
        img_with_palette(source, offset, length) is Ok,
    ensures
        forall|x: int, y: int, c: int|
            0 <= x < u16_at(source, offset + UNKNOWN_LEN) && 0 <= y < u16_at(
                source,
                offset + UNKNOWN_LEN + 2,
            ) && 0 <= c < 3 ==> #[trigger] img_with_palette(source, offset, length)->Ok_0.sample(
                x,
                y,
                c,
            ) == source[offset + UNKNOWN_LEN + 4 + 3 * expand(
                source.subrange(offset + UNKNOWN_LEN + HEADER_LEN, offset + length),
            )[x + y * u16_at(source, offset + UNKNOWN_LEN)] + c],
{
    let width = u16_at(source, offset + UNKNOWN_LEN) as u32;
    let height = u16_at(source, offset + UNKNOWN_LEN + 2) as u32;
    let indices = expand(source.subrange(offset + UNKNOWN_LEN + HEADER_LEN, offset + length));
    let palette = source.subrange(offset + UNKNOWN_LEN + 4, offset + UNKNOWN_LEN + HEADER_LEN);
    lemma_indexed_pixels(width, height, indices, palette);
    assert forall|x: int, y: int, c: int|
        0 <= x < width && 0 <= y < height && 0 <= c < 3 implies #[trigger] img_with_palette(
        source,
        offset,
        length,
    )->Ok_0.sample(x, y, c) == source[offset + UNKNOWN_LEN + 4 + 3 * indices[x + y * width] + c] by {
        assert(indexed_image(width, height, indices, palette)->Ok_0.sample(x, y, c) == palette[3
            * indices[x + y * width] + c]);
        lemma_sample_index(width as int, height as int, 1, x, y, 0);
    }
}

/// Decodes an image asset that brings its own palette.
pub fn extract_img_with_palette(res_file: &[u8], asset: &Asset) -> (image: Result<
    RgbGrid,
    FormatError,
>)
    ensures
        match img_with_palette(res_file@, asset.offset, asset.length) {
            Ok(raster) => image matches Ok(grid) && grid@ == raster,
            Err(e) => image matches Err(x) && x == e,
        },
{
    if asset.length < UNKNOWN_LEN + HEADER_LEN {
        return Err(FormatError::Truncated);
    }
    read_span(res_file, asset.offset, asset.length)?;
    assert(res_file@.len() == res_file.len());
    let offset = asset.offset + UNKNOWN_LEN;
    let width = read_u16_at(res_file, offset)? as u32;
    let height = read_u16_at(res_file, offset + 2)? as u32;
    let palette = read_palette(res_file, offset + 4)?;
    let data_len = asset.length - HEADER_LEN - UNKNOWN_LEN;
    let image_data = decompress_img_data(res_file, offset + HEADER_LEN, data_len)?;
    paint_indexed(width, height, image_data.as_slice(), &palette)
}

/// Expands the compressed palette indices of an image: `data_len` bytes
/// from `position` on.
pub fn decompress_img_data(res_file: &[u8], position: u64, data_len: u64) -> (unpacked: Result<
    Vec<u8>,
    FormatError,
>)
    ensures
        match decompressed(res_file@, position, data_len) {
            Ok(bytes) => unpacked matches Ok(v) && v@ == bytes,
            Err(e) => unpacked matches Err(x) && x == e,
        },
{
    decompress_data(res_file, position, data_len)
}

} // verus!

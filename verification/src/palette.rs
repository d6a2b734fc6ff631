use vstd::prelude::*;

use crate::cursor::{in_source, read_span, read_u16_at, u16_at};
use crate::directory::Directory;
use crate::error::FormatError;
use crate::grid::{check_grid_fits, grid_fits, lemma_sample_index, Raster, RgbGrid, RgbaGrid};

verus! {

/// The bytes of one palette: 256 colours of three bytes each.
pub const PALETTE_LEN: usize = 768;

/// Channel `c` of colour `index` of a palette.
pub open spec fn palette_sample(palette: Seq<u8>, index: int, c: int) -> u8 {
    palette[3 * index + c]
}

/// Looks a pixel index up in a palette. An index above 255 names no colour
/// and is refused.
pub fn palette_color(palette: &[u8; 768], index: usize) -> (color: Result<
    (u8, u8, u8),
    FormatError,
>)
    ensures
        index < 256 ==> color == Ok::<(u8, u8, u8), FormatError>(
            (
                palette_sample(palette@, index as int, 0),
                palette_sample(palette@, index as int, 1),
                palette_sample(palette@, index as int, 2),
            ),
        ),
        index >= 256 ==> color == Err::<(u8, u8, u8), FormatError>(FormatError::Corrupt),
{
    if index < 256 {
        Ok((palette[3 * index], palette[3 * index + 1], palette[3 * index + 2]))
    } else {
        Err(FormatError::Corrupt)
    }
}

/// Copies the bytes of a palette out of `bytes`.
fn palette_from(bytes: &[u8]) -> (palette: [u8; 768])
    requires
        bytes@.len() == PALETTE_LEN,
    ensures
        palette@ == bytes@,
{
    let mut palette = [0u8; 768];
    let mut i: usize = 0;
    while i < PALETTE_LEN
        invariant
            i <= PALETTE_LEN,
            bytes@.len() == PALETTE_LEN,
            forall|k: int| 0 <= k < i ==> palette@[k] == bytes@[k],
        decreases PALETTE_LEN - i,
    {
        palette[i] = bytes[i];
        i = i + 1;
    }
    assert(palette@ =~= bytes@);
    palette
}

/// The palette that lies at `offset`, or `Truncated` when the source ends
/// before its last byte.
pub fn read_palette(source: &[u8], offset: u64) -> (palette: Result<[u8; 768], FormatError>)
    ensures
        in_source(source@.len(), offset as int, PALETTE_LEN as int) ==> (palette matches Ok(p)
            && p@ == source@.subrange(offset as int, offset + PALETTE_LEN)),
        !in_source(source@.len(), offset as int, PALETTE_LEN as int) ==> (palette matches Err(e)
            && e == FormatError::Truncated),
{
    let span = read_span(source, offset, PALETTE_LEN as u64)?;
    Ok(palette_from(span))
}

/// The samples of an image whose pixels are indices into a palette: pixel
/// `(x, y)` takes its index from `indices[x + y * width]`.
pub open spec fn indexed_fn(indices: Seq<u8>, width: int, palette: Seq<u8>) -> spec_fn(
    int,
    int,
    int,
) -> u8 {
    |x: int, y: int, c: int| palette_sample(palette, indices[x + y * width] as int, c)
}

/// What `paint_indexed` yields for its arguments.
pub open spec fn indexed_image(width: u32, height: u32, indices: Seq<u8>, palette: Seq<u8>) -> Result<
    Raster,
    FormatError,
> {
    if indices.len() < width * height {
        Err(FormatError::Truncated)
    } else if !grid_fits(width as int, height as int, 3) {
        Err(FormatError::Corrupt)
    } else {
        Ok(Raster::painted(width as nat, height as nat, 3, indexed_fn(indices, width as int, palette)))
    }
}

/// Where an indexed image can be painted, every pixel of it has the
/// palette colour of its index.
pub proof fn lemma_indexed_pixels(width: u32, height: u32, indices: Seq<u8>, palette: Seq<u8>)
    requires
        indexed_image(width, height, indices, palette) is Ok,
    ensures
        indexed_image(width, height, indices, palette)->Ok_0.wf(),
        indexed_image(width, height, indices, palette)->Ok_0.width == width,
        indexed_image(width, height, indices, palette)->Ok_0.height == height,
        forall|x: int, y: int, c: int|
            0 <= x < width && 0 <= y < height && 0 <= c < 3 ==> #[trigger] indexed_image(
                width,
                height,
                indices,
                palette,
            )->Ok_0.sample(x, y, c) == palette[3 * indices[x + y * width] + c],
{
    Raster::lemma_painted(
        width as nat,
        height as nat,
        3,
        indexed_fn(indices, width as int, palette),
    );
}

/// Paints an image of `width` by `height` pixels, each the palette colour
/// of its index. Fewer indices than pixels are `Truncated`; an image too
/// large for this machine is `Corrupt`.
pub fn paint_indexed(width: u32, height: u32, indices: &[u8], palette: &[u8; 768]) -> (image:
    Result<RgbGrid, FormatError>)
    ensures
        match indexed_image(width, height, indices@, palette@) {
            Ok(raster) => image matches Ok(grid) && grid@ == raster,
            Err(e) => image matches Err(x) && x == e,
        },
{
    assert(width * height <= 0xffff_ffff * 0xffff_ffff) by (nonlinear_arith)
        requires
            0 <= width <= 0xffff_ffff,
            0 <= height <= 0xffff_ffff,
    ;
    let cells: u64 = (width as u64) * (height as u64);
    if (indices.len() as u64) < cells {
        return Err(FormatError::Truncated);
    }
    if !check_grid_fits(width, height, 3) {
        return Err(FormatError::Corrupt);
    }
    let mut img = RgbGrid::with_size(width, height);
    let ghost f = indexed_fn(indices@, width as int, palette@);
    proof {
        Raster::lemma_blank(width as nat, height as nat, 3);
    }
    let mut y: u32 = 0;
    while y < height
        invariant
            y <= height,
            indices@.len() >= width * height,
            indices@.len() == indices.len(),
            f == indexed_fn(indices@, width as int, palette@),
            img@.wf(),
            img@.channels == 3,
            img@.width == width,
            img@.height == height,
            forall|i: int, j: int, c: int|
                img@.contains(i, j) && 0 <= c < 3 ==> #[trigger] img@.sample(i, j, c) == (if j < y {
                    f(i, j, c)
                } else {
                    0
                }),
        decreases height - y,
    {
        let mut x: u32 = 0;
        while x < width
            invariant
                x <= width,
                y < height,
                indices@.len() >= width * height,
                indices@.len() == indices.len(),
                f == indexed_fn(indices@, width as int, palette@),
                img@.wf(),
                img@.channels == 3,
                img@.width == width,
                img@.height == height,
                forall|i: int, j: int, c: int|
                    img@.contains(i, j) && 0 <= c < 3 ==> #[trigger] img@.sample(i, j, c) == (if j < y
                        || (j == y && i < x) {
                        f(i, j, c)
                    } else {
                        0
                    }),
            decreases width - x,
        {
            proof {
                lemma_sample_index(width as int, height as int, 1, x as int, y as int, 0);
                assert(0 <= y * width) by (nonlinear_arith)
                    requires
                        0 <= y,
                        0 <= width,
                ;
            }
            let src: usize = (x as usize) + (y as usize) * (width as usize);
            let color = (indices[src] as usize) * 3;
            img.set(x, y, palette[color], palette[color + 1], palette[color + 2]);
            x = x + 1;
        }
        y = y + 1;
    }
    proof {
        img@.lemma_is_painted(f);
    }
    Ok(img)
}

/// Whether colour `index` of the palette is the colour `key`.
pub open spec fn is_key(palette: Seq<u8>, index: int, key: (u8, u8, u8)) -> bool {
    palette_sample(palette, index, 0) == key.0 && palette_sample(palette, index, 1) == key.1
        && palette_sample(palette, index, 2) == key.2
}

/// Channel `c` of a pixel with the given index where the colour `key`
/// stands for transparency: such a pixel is all zero, any other has its
/// palette colour and full alpha.
pub open spec fn keyed_sample(palette: Seq<u8>, index: int, key: (u8, u8, u8), c: int) -> u8 {
    if is_key(palette, index, key) {
        0
    } else if c < 3 {
        palette_sample(palette, index, c)
    } else {
        255
    }
}

/// The samples of an image with alpha whose pixels are indices into a
/// palette and whose colour `key` is transparent.
pub open spec fn keyed_fn(indices: Seq<u8>, width: int, palette: Seq<u8>, key: (u8, u8, u8)) -> spec_fn(
    int,
    int,
    int,
) -> u8 {
    |x: int, y: int, c: int| keyed_sample(palette, indices[x + y * width] as int, key, c)
}

/// What `paint_keyed` yields for its arguments.
pub open spec fn keyed_image(
    width: u32,
    height: u32,
    indices: Seq<u8>,
    palette: Seq<u8>,
    key: (u8, u8, u8),
) -> Result<Raster, FormatError> {
    if indices.len() < width * height {
        Err(FormatError::Truncated)
    } else if !grid_fits(width as int, height as int, 4) {
        Err(FormatError::Corrupt)
    } else {
        Ok(
            Raster::painted(
                width as nat,
                height as nat,
                4,
                keyed_fn(indices, width as int, palette, key),
            ),
        )
    }
}

/// Where an indexed image with a transparent colour can be painted, every
/// pixel of it is transparent or has the palette colour of its index.
pub proof fn lemma_keyed_pixels(
    width: u32,
    height: u32,
    indices: Seq<u8>,
    palette: Seq<u8>,
    key: (u8, u8, u8),
)
    requires
        keyed_image(width, height, indices, palette, key) is Ok,
    ensures
        keyed_image(width, height, indices, palette, key)->Ok_0.wf(),
        keyed_image(width, height, indices, palette, key)->Ok_0.width == width,
        keyed_image(width, height, indices, palette, key)->Ok_0.height == height,
        forall|x: int, y: int, c: int|
            0 <= x < width && 0 <= y < height && 0 <= c < 4 ==> #[trigger] keyed_image(
                width,
                height,
                indices,
                palette,
                key,
            )->Ok_0.sample(x, y, c) == keyed_sample(palette, indices[x + y * width] as int, key, c),
{
    Raster::lemma_painted(
        width as nat,
        height as nat,
        4,
        keyed_fn(indices, width as int, palette, key),
    );
}

/// Paints an image with alpha of `width` by `height` pixels. A pixel whose
/// palette colour is `key` is transparent; any other has its palette colour.
pub fn paint_keyed(
    width: u32,
    height: u32,
    indices: &[u8],
    palette: &[u8; 768],
    key: (u8, u8, u8),
) -> (image: Result<RgbaGrid, FormatError>)
    ensures
        match keyed_image(width, height, indices@, palette@, key) {
            Ok(raster) => image matches Ok(grid) && grid@ == raster,
            Err(e) => image matches Err(x) && x == e,
        },
{
    assert(width * height <= 0xffff_ffff * 0xffff_ffff) by (nonlinear_arith)
        requires
            0 <= width <= 0xffff_ffff,
            0 <= height <= 0xffff_ffff,
    ;
    let cells: u64 = (width as u64) * (height as u64);
    if (indices.len() as u64) < cells {
        return Err(FormatError::Truncated);
    }
    if !check_grid_fits(width, height, 4) {
        return Err(FormatError::Corrupt);
    }
    let mut img = RgbaGrid::with_size(width, height);
    let ghost f = keyed_fn(indices@, width as int, palette@, key);
    proof {
        Raster::lemma_blank(width as nat, height as nat, 4);
    }
    let mut y: u32 = 0;
    while y < height
        invariant
            y <= height,
            indices@.len() >= width * height,
            indices@.len() == indices.len(),
            f == keyed_fn(indices@, width as int, palette@, key),
            img@.wf(),
            img@.channels == 4,
            img@.width == width,
            img@.height == height,
            forall|i: int, j: int, c: int|
                img@.contains(i, j) && 0 <= c < 4 ==> #[trigger] img@.sample(i, j, c) == (if j < y {
                    f(i, j, c)
                } else {
                    0
                }),
        decreases height - y,
    {
        let mut x: u32 = 0;
        while x < width
            invariant
                x <= width,
                y < height,
                indices@.len() >= width * height,
                indices@.len() == indices.len(),
                f == keyed_fn(indices@, width as int, palette@, key),
                img@.wf(),
                img@.channels == 4,
                img@.width == width,
                img@.height == height,
                forall|i: int, j: int, c: int|
                    img@.contains(i, j) && 0 <= c < 4 ==> #[trigger] img@.sample(i, j, c) == (if j < y
                        || (j == y && i < x) {
                        f(i, j, c)
                    } else {
                        0
                    }),
            decreases width - x,
        {
            proof {
                lemma_sample_index(width as int, height as int, 1, x as int, y as int, 0);
                assert(0 <= y * width) by (nonlinear_arith)
                    requires
                        0 <= y,
                        0 <= width,
                ;
            }
            let src: usize = (x as usize) + (y as usize) * (width as usize);
            let color = (indices[src] as usize) * 3;
            let red = palette[color];
            let green = palette[color + 1];
            let blue = palette[color + 2];
            if red == key.0 && green == key.1 && blue == key.2 {
                img.set(x, y, 0, 0, 0, 0);
            } else {
                img.set(x, y, red, green, blue, 255);
            }
            x = x + 1;
        }
        y = y + 1;
    }
    proof {
        img@.lemma_is_painted(f);
    }
    Ok(img)
}

/// The palettes that follow the asset table: a 16-bit count at `position`,
/// then that many palettes, one after the other.
pub open spec fn palette_bank(source: Seq<u8>, position: int) -> Result<Seq<Seq<u8>>, FormatError> {
    if !in_source(source.len(), position, 2) {
        Err(FormatError::Truncated)
    } else if !in_source(source.len(), position + 2, u16_at(source, position) * PALETTE_LEN) {
        Err(FormatError::Truncated)
    } else {
        Ok(
            Seq::new(
                u16_at(source, position) as nat,
                |i: int|
                    source.subrange(
                        position + 2 + i * PALETTE_LEN,
                        position + 2 + i * PALETTE_LEN + PALETTE_LEN,
                    ),
            ),
        )
    }
}

/// The bytes of each palette of a bank.
pub open spec fn palettes_view(palettes: Seq<[u8; 768]>) -> Seq<Seq<u8>> {
    Seq::new(palettes.len(), |i: int| palettes[i]@)
}

/// Reads the palettes of an archive, which start where the asset table of
/// `directory` ends.
pub fn get_palettes(res_file: &[u8], directory: &Directory) -> (palettes: Result<
    Vec<[u8; 768]>,
    FormatError,
>)
    ensures
        match palette_bank(res_file@, directory.offset + directory.length) {
            Ok(bank) => palettes matches Ok(list) && palettes_view(list@) == bank,
            Err(e) => palettes matches Err(x) && x == e,
        },
{
    let total = res_file.len() as u64;
    if directory.offset > total || directory.length > total - directory.offset {
        return Err(FormatError::Truncated);
    }
    let position = directory.offset + directory.length;
    let palettes_count = read_u16_at(res_file, position)? as u64;
    if palettes_count * (PALETTE_LEN as u64) > total - (position + 2) {
        return Err(FormatError::Truncated);
    }
    let mut palettes: Vec<[u8; 768]> = Vec::new();
    let mut done: u64 = 0;
    while done < palettes_count
        invariant
            done <= palettes_count,
            palettes_count <= 0xffff,
            res_file@.len() == total,
            position + 2 + palettes_count * PALETTE_LEN <= res_file@.len(),
            palettes@.len() == done,
            forall|i: int|
                0 <= i < done ==> (#[trigger] palettes@[i])@ == res_file@.subrange(
                    position + 2 + i * PALETTE_LEN,
                    position + 2 + i * PALETTE_LEN + PALETTE_LEN,
                ),
        decreases palettes_count - done,
    {
        let palette = match read_palette(res_file, position + 2 + done * (PALETTE_LEN as u64)) {
            Ok(palette) => palette,
            Err(e) => return Err(e),
        };
        palettes.push(palette);
        done = done + 1;
    }
    assert(palettes_view(palettes@) =~= palette_bank(
        res_file@,
        directory.offset + directory.length,
    )->Ok_0);
    Ok(palettes)
}

/// Paints a palette as a square of 16 by 16 pixels, colour 0 at the top
/// left, row by row: the samples of the image are the bytes of the palette.
pub fn render_palette(palette: &[u8; 768]) -> (image: RgbGrid)
    ensures
        image@ == (Raster { width: 16, height: 16, channels: 3, samples: palette@ }),
{
    assert(grid_fits(16, 16, 3));
    let mut img = RgbGrid::with_size(16, 16);
    img.fill_box(0, 0, 16, 16, palette.as_slice());
    proof {
        reveal(Raster::sample);
        let blank = Raster::blank(16, 16, 3);
        assert forall|i: int| 0 <= i < 768 implies img@.samples[i] == palette@[i] by {
            let x = (i / 3) % 16;
            let y = (i / 3) / 16;
            let c = i % 3;
            assert(((y - 0) * 16 + (x - 0)) * 3 + c == i);
        }
        assert(img@.samples =~= palette@);
    }
    img
}

} // verus!

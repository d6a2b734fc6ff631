use vstd::prelude::*;

use crate::cursor::{in_source, read_span, read_u16_at, read_u32_at, u16_at, u32_at};
use crate::directory::Asset;
use crate::error::FormatError;
use crate::grid::{check_grid_fits, grid_fits, Raster, RgbaGrid};
use crate::palette::{palette_sample, palettes_view};

verus! {

/// The margin that ends a row.
pub const ROW_END: u8 = 255;

/// A row of `width` transparent pixels: four zero samples for each.
pub open spec fn clear_row(width: int) -> Seq<u8> {
    Seq::new((4 * width) as nat, |i: int| 0u8)
}

/// The row after the pixels from column `start` on were painted with the
/// palette colours of `indices`, opaque; the other pixels stay as they were.
pub open spec fn paint_run(row: Seq<u8>, start: int, indices: Seq<u8>, palette: Seq<u8>) -> Seq<u8> {
    Seq::new(
        row.len(),
        |i: int|
            if 4 * start <= i < 4 * (start + indices.len()) {
                if i % 4 == 3 {
                    255u8
                } else {
                    palette_sample(palette, indices[i / 4 - start] as int, i % 4)
                }
            } else {
                row[i]
            },
    )
}

/// The samples of a row once the chunks from `pos` on were decoded, where
/// `x` is the column that the next chunk starts from and `row` holds what
/// was painted so far. A chunk is a margin, a run length and that many
/// palette indices: the margin is skipped, the run is painted. The row ends
/// at the margin 255 or when `x` has reached the width. A chunk that the
/// source does not hold is `Truncated`; a run that would paint past the
/// width is `Corrupt`.
pub open spec fn row_from(
    source: Seq<u8>,
    pos: int,
    x: int,
    width: int,
    palette: Seq<u8>,
    row: Seq<u8>,
) -> Result<Seq<u8>, FormatError>
    decreases source.len() - pos,
{
    if x >= width {
        Ok(row)
    } else if !in_source(source.len(), pos, 2) {
        Err(FormatError::Truncated)
    } else if source[pos] == ROW_END {
        Ok(row)
    } else {
        let margin = source[pos] as int;
        let run = source[pos + 1] as int;
        if !in_source(source.len(), pos + 2, run) {
            Err(FormatError::Truncated)
        } else if run > 0 && x + margin + run > width {
            Err(FormatError::Corrupt)
        } else {
            row_from(
                source,
                pos + 2 + run,
                x + margin + run,
                width,
                palette,
                paint_run(row, x + margin, source.subrange(pos + 2, pos + 2 + run), palette),
            )
        }
    }
}

/// The samples of the row of `width` pixels whose chunks start at `position`.
pub open spec fn row_samples(source: Seq<u8>, position: u64, width: u16, palette: Seq<u8>) -> Result<
    Seq<u8>,
    FormatError,
> {
    row_from(source, position as int, 0, width as int, palette, clear_row(width as int))
}

/// A row that holds one chunk and the end mark shows the chunk's run at
/// its margin, and is transparent everywhere else.
pub proof fn lemma_row_of_one_run(source: Seq<u8>, position: u64, width: u16, palette: Seq<u8>)
    requires
        in_source(source.len(), position as int, 2),
        source[position as int] != ROW_END,
        source[position as int] + source[position + 1] <= width,
        in_source(source.len(), position + 2, source[position + 1] + 2),
        source[position + 2 + source[position + 1]] == ROW_END,
    ensures
        row_samples(source, position, width, palette) == Ok::<Seq<u8>, FormatError>(
            paint_run(
                clear_row(width as int),
                source[position as int] as int,
                source.subrange(position + 2, position + 2 + source[position + 1]),
                palette,
            ),
        ),
{
    let margin = source[position as int] as int;
    let run = source[position + 1] as int;
    let clear = clear_row(width as int);
    let painted = paint_run(clear, margin, source.subrange(position + 2, position + 2 + run), palette);
    if width == 0 {
        assert(painted =~= clear);
    } else {
        assert(row_from(source, position as int, 0, width as int, palette, clear) == row_from(
            source,
            position + 2 + run,
            margin + run,
            width as int,
            palette,
            painted,
        ));
    }
}

/// Decodes one row of a sub-image into four samples for each pixel.
pub fn decode_row(source: &[u8], position: u64, width: u16, palette: &[u8; 768]) -> (row: Result<
    Vec<u8>,
    FormatError,
>)
    ensures
        match row_samples(source@, position, width, palette@) {
            Ok(samples) => row matches Ok(v) && v@ == samples,
            Err(e) => row matches Err(x) && x == e,
        },
        row matches Ok(v) ==> v@.len() == 4 * width,
{
    let mut row: Vec<u8> = Vec::new();
    let mut filled: u32 = 0;
    while filled < 4 * (width as u32)
        invariant
            filled <= 4 * width,
            row@ == Seq::new(filled as nat, |i: int| 0u8),
        decreases 4 * width - filled,
    {
        row.push(0);
        filled = filled + 1;
        assert(row@ =~= Seq::new(filled as nat, |i: int| 0u8));
    }
    let ghost goal = row_samples(source@, position, width, palette@);
    let mut pos: u64 = position;
    let mut x: u32 = 0;
    while x < width as u32
        invariant
            x <= width + 510,
            row@.len() == 4 * width,
            source@.len() == source.len(),
            goal == row_samples(source@, position, width, palette@),
            row_from(source@, pos as int, x as int, width as int, palette@, row@) == goal,
        ensures
            row@.len() == 4 * width,
            goal == Ok::<Seq<u8>, FormatError>(row@),
        decreases source@.len() - pos,
    {
        let header = match read_span(source, pos, 2) {
            Ok(header) => header,
            Err(e) => return Err(e),
        };
        let margin = header[0];
        if margin == ROW_END {
            break ;
        }
        let run = header[1];
        let colors = match read_span(source, pos + 2, run as u64) {
            Ok(colors) => colors,
            Err(e) => return Err(e),
        };
        let start: u32 = x + margin as u32;
        if run > 0 && start + run as u32 > width as u32 {
            return Err(FormatError::Corrupt);
        }
        let ghost before = row@;
        let mut k: usize = 0;
        while k < run as usize
            invariant
                k <= run,
                colors@.len() == run,
                run > 0 ==> start + run <= width,
                row@.len() == 4 * width,
                before.len() == 4 * width,
                row@ == paint_run(before, start as int, colors@.take(k as int), palette@),
            decreases run - k,
        {
            let color = (colors[k] as usize) * 3;
            let at: usize = 4 * (start as usize + k);
            row.set(at, palette[color]);
            row.set(at + 1, palette[color + 1]);
            row.set(at + 2, palette[color + 2]);
            row.set(at + 3, 255);
            k = k + 1;
            assert(row@ =~= paint_run(before, start as int, colors@.take(k as int), palette@));
        }
        assert(colors@.take(run as int) =~= colors@);
        assert(row@ =~= paint_run(before, start as int, colors@, palette@));
        pos = pos + 2 + run as u64;
        x = start + run as u32;
    }
    Ok(row)
}

/// The sub-image after the rows from number `y` on were painted on `prev`.
/// The position of row `y` is the 32-bit number at `table + 4 * y`, counted
/// from the start of the asset.
pub open spec fn rows_from(
    prev: Raster,
    source: Seq<u8>,
    palette: Seq<u8>,
    asset_offset: u64,
    table: int,
    width: u16,
    height: u16,
    y: int,
) -> Result<Raster, FormatError>
    decreases height - y,
{
    if y >= height {
        Ok(prev)
    } else if asset_offset + u32_at(source, table + 4 * y) > u64::MAX {
        Err(FormatError::Truncated)
    } else {
        match row_samples(
            source,
            (asset_offset + u32_at(source, table + 4 * y)) as u64,
            width,
            palette,
        ) {
            Err(e) => Err(e),
            Ok(samples) => rows_from(
                prev.with_box(0, y, width as int, 1, samples),
                source,
                palette,
                asset_offset,
                table,
                width,
                height,
                y + 1,
            ),
        }
    }
}

/// The samples of a sub-image once the rows from number `y` on were
/// painted on `prev`: a pixel of one of those rows has its samples from
/// the decoded row, any other pixel is as it was.
pub open spec fn rows_fn(
    prev: Raster,
    source: Seq<u8>,
    palette: Seq<u8>,
    asset_offset: u64,
    table: int,
    width: u16,
    y: int,
) -> spec_fn(int, int, int) -> u8 {
    |x: int, row: int, c: int|
        if row >= y {
            row_samples(
                source,
                (asset_offset + u32_at(source, table + 4 * row)) as u64,
                width,
                palette,
            )->Ok_0[4 * x + c]
        } else {
            prev.sample(x, row, c)
        }
}

/// Painting the rows one after the other gives every pixel the samples of
/// its place in its own decoded row.
pub proof fn lemma_rows_pixels(
    prev: Raster,
    source: Seq<u8>,
    palette: Seq<u8>,
    asset_offset: u64,
    table: int,
    width: u16,
    height: u16,
    y: int,
)
    requires
        prev.wf(),
        prev.channels == 4,
        prev.width == width,
        prev.height == height,
        0 <= y,
        rows_from(prev, source, palette, asset_offset, table, width, height, y) is Ok,
    ensures
        rows_from(prev, source, palette, asset_offset, table, width, height, y)->Ok_0
            == Raster::painted(
            width as nat,
            height as nat,
            4,
            rows_fn(prev, source, palette, asset_offset, table, width, y),
        ),
    decreases height - y,
{
    let goal = rows_fn(prev, source, palette, asset_offset, table, width, y);
    let result = rows_from(prev, source, palette, asset_offset, table, width, height, y)->Ok_0;
    if y >= height {
        prev.lemma_is_painted(goal);
    } else {
        let samples = row_samples(
            source,
            (asset_offset + u32_at(source, table + 4 * y)) as u64,
            width,
            palette,
        )->Ok_0;
        let next = prev.with_box(0, y, width as int, 1, samples);
        Raster::lemma_painted(
            width as nat,
            height as nat,
            4,
            prev.box_fn(0, y, width as int, 1, samples),
        );
        lemma_rows_pixels(next, source, palette, asset_offset, table, width, height, y + 1);
        Raster::lemma_painted(
            width as nat,
            height as nat,
            4,
            rows_fn(next, source, palette, asset_offset, table, width, y + 1),
        );
        assert forall|x: int, row: int, c: int|
            result.contains(x, row) && 0 <= c < 4 implies #[trigger] result.sample(x, row, c)
            == goal(x, row, c) by {
            if row == y {
                assert(((row - y) * width + (x - 0)) * 4 + c == 4 * x + c) by (nonlinear_arith)
                    requires
                        row == y,
                ;
            }
        }
        result.lemma_is_painted(goal);
    }
}

/// The samples of a sub-image whose table of row positions starts at
/// `table`: every pixel has the samples of its place in its decoded row.
pub open spec fn sub_image_fn(
    source: Seq<u8>,
    palette: Seq<u8>,
    asset_offset: u64,
    table: int,
    width: u16,
) -> spec_fn(int, int, int) -> u8 {
    |x: int, row: int, c: int|
        row_samples(
            source,
            (asset_offset + u32_at(source, table + 4 * row)) as u64,
            width,
            palette,
        )->Ok_0[4 * x + c]
}

/// Where a sub-image can be decoded, every pixel of it has the samples of
/// its place in its own decoded row.
pub proof fn lemma_sub_image_pixels(
    source: Seq<u8>,
    palette: Seq<u8>,
    asset_offset: u64,
    img_offset: u64,
)
    requires
        sub_image(source, palette, asset_offset, img_offset) is Ok,
    ensures
        sub_image(source, palette, asset_offset, img_offset)->Ok_0 == Raster::painted(
            u16_at(source, img_offset as int) as nat,
            u16_at(source, img_offset + 2) as nat,
            4,
            sub_image_fn(
                source,
                palette,
                asset_offset,
                img_offset + 8,
                u16_at(source, img_offset as int) as u16,
            ),
        ),
{
    let width = u16_at(source, img_offset as int) as u16;
    let height = u16_at(source, img_offset + 2) as u16;
    let blank = Raster::blank(width as nat, height as nat, 4);
    let result = sub_image(source, palette, asset_offset, img_offset)->Ok_0;
    Raster::lemma_blank(width as nat, height as nat, 4);
    lemma_rows_pixels(blank, source, palette, asset_offset, img_offset + 8, width, height, 0);
    Raster::lemma_painted(
        width as nat,
        height as nat,
        4,
        rows_fn(blank, source, palette, asset_offset, img_offset + 8, width, 0),
    );
    result.lemma_is_painted(sub_image_fn(source, palette, asset_offset, img_offset + 8, width));
}

/// What `extract_img_from_container` yields. The sub-image starts with
/// width, height and the two coordinates of its origin, 16 bits each; then
/// comes one row position for each row. Every pixel that no run paints is
/// transparent.
pub open spec fn sub_image(source: Seq<u8>, palette: Seq<u8>, asset_offset: u64, img_offset: u64) -> Result<
    Raster,
    FormatError,
> {
    if !in_source(source.len(), img_offset as int, 8) {
        Err(FormatError::Truncated)
    } else {
        let width = u16_at(source, img_offset as int) as u16;
        let height = u16_at(source, img_offset + 2) as u16;
        if !in_source(source.len(), img_offset + 8, 4 * height) {
            Err(FormatError::Truncated)
        } else if !grid_fits(width as int, height as int, 4) {
            Err(FormatError::Corrupt)
        } else {
            rows_from(
                Raster::blank(width as nat, height as nat, 4),
                source,
                palette,
                asset_offset,
                img_offset + 8,
                width,
                height,
                0,
            )
        }
    }
}

/// Decodes one sub-image of a container: `img_offset` is where it starts
/// in the archive, `asset_offset` where its container starts.
pub fn extract_img_from_container(
    res_file: &[u8],
    palette: &[u8; 768],
    asset_offset: u64,
    img_offset: u64,
) -> (image: Result<RgbaGrid, FormatError>)
    ensures
        match sub_image(res_file@, palette@, asset_offset, img_offset) {
            Ok(raster) => image matches Ok(grid) && grid@ == raster,
            Err(e) => image matches Err(x) && x == e,
        },
{
    let total = res_file.len() as u64;
    read_span(res_file, img_offset, 8)?;
    let width = read_u16_at(res_file, img_offset)?;
    let height = read_u16_at(res_file, img_offset + 2)?;
    let table: u64 = img_offset + 8;
    if 4 * (height as u64) > total - table {
        return Err(FormatError::Truncated);
    }
    if !check_grid_fits(width as u32, height as u32, 4) {
        return Err(FormatError::Corrupt);
    }
    let mut img = RgbaGrid::with_size(width as u32, height as u32);
    let ghost blank = img@;
    proof {
        Raster::lemma_blank(width as nat, height as nat, 4);
    }
    let mut y: u16 = 0;
    while y < height
        invariant
            y <= height,
            total == res_file@.len(),
            table + 4 * height <= total,
            img@.wf(),
            img@.channels == 4,
            img@.width == width,
            img@.height == height,
            sub_image(res_file@, palette@, asset_offset, img_offset) == rows_from(
                blank,
                res_file@,
                palette@,
                asset_offset,
                table as int,
                width,
                height,
                0,
            ),
            rows_from(img@, res_file@, palette@, asset_offset, table as int, width, height, y as int)
                == rows_from(
                blank,
                res_file@,
                palette@,
                asset_offset,
                table as int,
                width,
                height,
                0,
            ),
        decreases height - y,
    {
        let relative = match read_u32_at(res_file, table + 4 * (y as u64)) {
            Ok(relative) => relative,
            Err(e) => return Err(e),
        };
        let position = match asset_offset.checked_add(relative as u64) {
            Some(position) => position,
            None => return Err(FormatError::Truncated),
        };
        let row = match decode_row(res_file, position, width, palette) {
            Ok(row) => row,
            Err(e) => return Err(e),
        };
        assert(width * 1 * 4 == 4 * width) by (nonlinear_arith);
        img.fill_box(0, y as u32, width as u32, 1, row.as_slice());
        y = y + 1;
    }
    Ok(img)
}

/// The rasters that a sequence of grids holds.
pub open spec fn grids_view(grids: Seq<RgbaGrid>) -> Seq<Raster> {
    Seq::new(grids.len(), |i: int| grids[i]@)
}

/// `done` in front of the images that follow them, if those could be decoded.
pub open spec fn after_done(done: Seq<Raster>, following: Result<Seq<Raster>, FormatError>) -> Result<
    Seq<Raster>,
    FormatError,
> {
    match following {
        Err(e) => Err(e),
        Ok(images) => Ok(done + images),
    }
}

/// The sub-images of a container from number `i` on. The position of
/// sub-image `i` is the 32-bit number at `table + 4 * i`, counted from the
/// start of the asset.
pub open spec fn images_from(
    source: Seq<u8>,
    palette: Seq<u8>,
    asset_offset: u64,
    table: int,
    count: int,
    i: int,
) -> Result<Seq<Raster>, FormatError>
    decreases count - i,
{
    if i >= count {
        Ok(Seq::empty())
    } else if asset_offset + u32_at(source, table + 4 * i) > u64::MAX {
        Err(FormatError::Truncated)
    } else {
        match sub_image(
            source,
            palette,
            asset_offset,
            (asset_offset + u32_at(source, table + 4 * i)) as u64,
        ) {
            Err(e) => Err(e),
            Ok(image) => after_done(
                seq![image],
                images_from(source, palette, asset_offset, table, count, i + 1),
            ),
        }
    }
}

/// What `extract_img_container` yields. The container starts with the
/// number of its sub-images and the id of its palette, 16 bits each; then
/// comes one position for each sub-image. A palette id that the bank does
/// not hold is `Corrupt`.
pub open spec fn container_images(source: Seq<u8>, palettes: Seq<Seq<u8>>, asset_offset: u64) -> Result<
    Seq<Raster>,
    FormatError,
> {
    if !in_source(source.len(), asset_offset as int, 4) {
        Err(FormatError::Truncated)
    } else if u16_at(source, asset_offset + 2) >= palettes.len() {
        Err(FormatError::Corrupt)
    } else if !in_source(source.len(), asset_offset + 4, 4 * u16_at(source, asset_offset as int)) {
        Err(FormatError::Truncated)
    } else {
        images_from(
            source,
            palettes[u16_at(source, asset_offset + 2)],
            asset_offset,
            asset_offset + 4,
            u16_at(source, asset_offset as int),
            0,
        )
    }
}

/// Decodes all sub-images of a container asset, in the order of its table.
pub fn extract_img_container(res_file: &[u8], palettes: &Vec<[u8; 768]>, asset: &Asset) -> (images:
    Result<Vec<RgbaGrid>, FormatError>)
    ensures
        match container_images(res_file@, palettes_view(palettes@), asset.offset) {
            Ok(rasters) => images matches Ok(list) && grids_view(list@) == rasters,
            Err(e) => images matches Err(x) && x == e,
        },
{
    let total = res_file.len() as u64;
    read_span(res_file, asset.offset, 4)?;
    let images_count = read_u16_at(res_file, asset.offset)?;
    let palette_id = read_u16_at(res_file, asset.offset + 2)? as usize;
    if palette_id >= palettes.len() {
        return Err(FormatError::Corrupt);
    }
    let palette = &palettes[palette_id];
    let table: u64 = asset.offset + 4;
    if 4 * (images_count as u64) > total - table {
        return Err(FormatError::Truncated);
    }
    let ghost goal = images_from(
        res_file@,
        palette@,
        asset.offset,
        table as int,
        images_count as int,
        0,
    );
    let mut images: Vec<RgbaGrid> = Vec::new();
    let mut i: u16 = 0;
    assert(after_done(
        grids_view(images@),
        images_from(res_file@, palette@, asset.offset, table as int, images_count as int, 0),
    ) == goal) by {
        match goal {
            Ok(rasters) => assert(grids_view(images@) + rasters =~= rasters),
            Err(_) => {},
        }
    }
    while i < images_count
        invariant
            i <= images_count,
            total == res_file@.len(),
            table + 4 * images_count <= total,
            goal == container_images(res_file@, palettes_view(palettes@), asset.offset),
            after_done(
                grids_view(images@),
                images_from(
                    res_file@,
                    palette@,
                    asset.offset,
                    table as int,
                    images_count as int,
                    i as int,
                ),
            ) == goal,
        decreases images_count - i,
    {
        let ghost done = grids_view(images@);
        let relative = match read_u32_at(res_file, table + 4 * (i as u64)) {
            Ok(relative) => relative,
            Err(e) => return Err(e),
        };
        let image_offset = match asset.offset.checked_add(relative as u64) {
            Some(image_offset) => image_offset,
            None => return Err(FormatError::Truncated),
        };
        let image = match extract_img_from_container(res_file, palette, asset.offset, image_offset) {
            Ok(image) => image,
            Err(e) => return Err(e),
        };
        let ghost raster = image@;
        images.push(image);
        i = i + 1;
        proof {
            assert(grids_view(images@) =~= done + seq![raster]);
            match images_from(
                res_file@,
                palette@,
                asset.offset,
                table as int,
                images_count as int,
                i as int,
            ) {
                Ok(rest) => assert(done + (seq![raster] + rest) =~= (done + seq![raster]) + rest),
                Err(_) => {},
            }
        }
    }
    assert(grids_view(images@) + Seq::<Raster>::empty() =~= grids_view(images@));
    Ok(images)
}

} // verus!

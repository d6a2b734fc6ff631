use vstd::arithmetic::div_mod::lemma_fundamental_div_mod_converse;
use vstd::prelude::*;

use crate::cursor::{in_source, read_span, read_u16_at, u16_at};
use crate::error::FormatError;
use crate::grid::{check_grid_fits, grid_fits, lemma_sample_index, Raster, RgbGrid};
use crate::palette::{
    indexed_image,
    paint_indexed,
    palette_sample,
    read_palette,
    render_palette,
    PALETTE_LEN,
};

verus! {

/// The edge of a sector in pixels.
pub const SECTOR_EDGE: u32 = 32;

/// The bytes of a sector: one palette index for each of its pixels.
pub const SECTOR_LEN: u64 = 1024;

/// The largest map edge whose length in pixels still is a 32-bit number.
pub const MAX_MAP_EDGE: u32 = 0x07ff_ffff;

/// Whether `source` starts with the three letters of a terrain map.
pub open spec fn has_wld_magic(source: Seq<u8>) -> bool {
    source.len() >= 3 && source[0] == 0x57 && source[1] == 0x4c && source[2] == 0x44
}

/// Accepts a terrain map by its first three bytes, `WLD`.
pub fn check_wld_file_header(wld_file: &[u8]) -> (checked: Result<(), FormatError>)
    ensures
        has_wld_magic(wld_file@) ==> checked is Ok,
        !has_wld_magic(wld_file@) ==> checked == Err::<(), FormatError>(FormatError::BadMagic),
{
    if wld_file.len() >= 3 && wld_file[0] == 0x57 && wld_file[1] == 0x4c && wld_file[2] == 0x44 {
        Ok(())
    } else {
        Err(FormatError::BadMagic)
    }
}

/// The grey level that stands for a vertex height: heights above 255 all
/// show as 255.
pub open spec fn clamp_height(height: int) -> u8 {
    if height > 255 {
        255u8
    } else {
        height as u8
    }
}

/// The grey level of a vertex height.
pub fn height_level(vertex: u16) -> (level: u8)
    ensures
        level == clamp_height(vertex as int),
{
    if vertex > 255 {
        255
    } else {
        vertex as u8
    }
}

/// The samples of a height field of `columns` vertices to the row, stored
/// as 16-bit heights from `position` on.
pub open spec fn heightmap_fn(source: Seq<u8>, position: int, columns: int) -> spec_fn(
    int,
    int,
    int,
) -> u8 {
    |x: int, y: int, c: int| clamp_height(u16_at(source, position + 2 * (x + y * columns)))
}

/// What `render_heightmap` yields for its arguments.
pub open spec fn heightmap_image(width: u32, height: u32, source: Seq<u8>, position: u64) -> Result<
    Raster,
    FormatError,
> {
    if width == u32::MAX || height == u32::MAX {
        Err(FormatError::Corrupt)
    } else if !in_source(source.len(), position as int, 2 * ((width + 1) * (height + 1))) {
        Err(FormatError::Truncated)
    } else if !grid_fits(width + 1, height + 1, 3) {
        Err(FormatError::Corrupt)
    } else {
        Ok(
            Raster::painted(
                (width + 1) as nat,
                (height + 1) as nat,
                3,
                heightmap_fn(source, position as int, width + 1),
            ),
        )
    }
}

/// Where the height field can be painted, every vertex shows as its
/// height, or as 255 where its height is above that.
pub proof fn lemma_heightmap_pixels(width: u32, height: u32, source: Seq<u8>, position: u64)
    requires
        heightmap_image(width, height, source, position) is Ok,
    ensures
        heightmap_image(width, height, source, position)->Ok_0.wf(),
        heightmap_image(width, height, source, position)->Ok_0.width == width + 1,
        heightmap_image(width, height, source, position)->Ok_0.height == height + 1,
        forall|x: int, y: int, c: int|
            0 <= x <= width && 0 <= y <= height && 0 <= c < 3 ==> {
                let vertex = u16_at(source, position + 2 * (x + y * (width + 1)));
                #[trigger] heightmap_image(width, height, source, position)->Ok_0.sample(x, y, c)
                    == (if vertex <= 255 {
                    vertex as u8
                } else {
                    255u8
                })
            },
{
    Raster::lemma_painted(
        (width + 1) as nat,
        (height + 1) as nat,
        3,
        heightmap_fn(source, position as int, width + 1),
    );
}

/// Paints the height field of a map of `width` by `height` sectors: one
/// grey pixel for each vertex, so one more each way than there are sectors.
pub fn render_heightmap(width: u32, height: u32, wld_file: &[u8], position: u64) -> (image: Result<
    RgbGrid,
    FormatError,
>)
    ensures
        match heightmap_image(width, height, wld_file@, position) {
            Ok(raster) => image matches Ok(grid) && grid@ == raster,
            Err(e) => image matches Err(x) && x == e,
        },
{
    if width == u32::MAX || height == u32::MAX {
        return Err(FormatError::Corrupt);
    }
    let columns = width + 1;
    let rows = height + 1;
    assert(columns * rows <= 0xffff_ffff * 0xffff_ffff) by (nonlinear_arith)
        requires
            0 <= columns <= 0xffff_ffff,
            0 <= rows <= 0xffff_ffff,
    ;
    let vertices: u64 = (columns as u64) * (rows as u64);
    let total = wld_file.len() as u64;
    if position > total || vertices > (total - position) / 2 {
        return Err(FormatError::Truncated);
    }
    if !check_grid_fits(columns, rows, 3) {
        return Err(FormatError::Corrupt);
    }
    let mut img = RgbGrid::with_size(columns, rows);
    let ghost f = heightmap_fn(wld_file@, position as int, columns as int);
    proof {
        Raster::lemma_blank(columns as nat, rows as nat, 3);
    }
    let mut y: u32 = 0;
    while y < rows
        invariant
            y <= rows,
            total == wld_file@.len(),
            position + 2 * (columns * rows) <= total,
            f == heightmap_fn(wld_file@, position as int, columns as int),
            img@.wf(),
            img@.channels == 3,
            img@.width == columns,
            img@.height == rows,
            forall|i: int, j: int, c: int|
                img@.contains(i, j) && 0 <= c < 3 ==> #[trigger] img@.sample(i, j, c) == (if j < y {
                    f(i, j, c)
                } else {
                    0
                }),
        decreases rows - y,
    {
        let mut x: u32 = 0;
        while x < columns
            invariant
                x <= columns,
                y < rows,
                total == wld_file@.len(),
                position + 2 * (columns * rows) <= total,
                f == heightmap_fn(wld_file@, position as int, columns as int),
                img@.wf(),
                img@.channels == 3,
                img@.width == columns,
                img@.height == rows,
                forall|i: int, j: int, c: int|
                    img@.contains(i, j) && 0 <= c < 3 ==> #[trigger] img@.sample(i, j, c) == (if j < y
                        || (j == y && i < x) {
                        f(i, j, c)
                    } else {
                        0
                    }),
            decreases columns - x,
        {
            proof {
                lemma_sample_index(columns as int, rows as int, 1, x as int, y as int, 0);
                assert(0 <= y * columns) by (nonlinear_arith)
                    requires
                        0 <= y,
                        0 <= columns,
                ;
            }
            let vertex_at: u64 = position + 2 * ((x as u64) + (y as u64) * (columns as u64));
            let vertex = match read_u16_at(wld_file, vertex_at) {
                Ok(vertex) => vertex,
                Err(e) => return Err(e),
            };
            let level = height_level(vertex);
            img.set(x, y, level, level, level);
            x = x + 1;
        }
        y = y + 1;
    }
    proof {
        img@.lemma_is_painted(f);
    }
    Ok(img)
}

/// Paints the minimap of a map of `width` by `height` sectors: one pixel
/// for each sector, in the palette colour of its index.
pub fn render_minimap(width: u32, height: u32, minimap: &[u8], palette: &[u8; 768]) -> (image:
    Result<RgbGrid, FormatError>)
    ensures
        match indexed_image(width, height, minimap@, palette@) {
            Ok(raster) => image matches Ok(grid) && grid@ == raster,
            Err(e) => image matches Err(x) && x == e,
        },
{
    paint_indexed(width, height, minimap, palette)
}

/// The colours of a run of palette indices, three samples for each index.
pub open spec fn sector_colors(sector: Seq<u8>, palette: Seq<u8>) -> Seq<u8> {
    Seq::new(3 * sector.len(), |i: int| palette_sample(palette, sector[i / 3] as int, i % 3))
}

/// Looks every index of `sector` up in the palette.
pub fn color_sector(sector: &[u8], palette: &[u8; 768]) -> (colors: Vec<u8>)
    ensures
        colors@ == sector_colors(sector@, palette@),
{
    let mut colors: Vec<u8> = Vec::new();
    let mut i: usize = 0;
    while i < sector.len()
        invariant
            i <= sector.len(),
            colors@ == sector_colors(sector@.take(i as int), palette@),
        decreases sector.len() - i,
    {
        let color = (sector[i] as usize) * 3;
        colors.push(palette[color]);
        colors.push(palette[color + 1]);
        colors.push(palette[color + 2]);
        i = i + 1;
        assert(colors@ =~= sector_colors(sector@.take(i as int), palette@));
    }
    assert(sector@.take(i as int) =~= sector@);
    colors
}

/// The map after one more sector was placed. The sector of 1024 indices
/// at `at` goes to the cell in column `chunk % width` of row
/// `chunk / height`: the column is taken by the width and the row by the
/// height. A sector that the source does not hold is `Truncated`; a row
/// outside the map is `Corrupt`.
pub open spec fn place_sector(
    prev: Raster,
    width: u32,
    height: u32,
    chunk: u32,
    source: Seq<u8>,
    at: int,
    palette: Seq<u8>,
) -> Result<Raster, FormatError> {
    if !in_source(source.len(), at, SECTOR_LEN as int) {
        Err(FormatError::Truncated)
    } else if (chunk as int) / (height as int) >= height {
        Err(FormatError::Corrupt)
    } else {
        Ok(
            prev.with_box(
                32 * ((chunk as int) % (width as int)),
                32 * ((chunk as int) / (height as int)),
                32,
                32,
                sector_colors(source.subrange(at, at + SECTOR_LEN), palette),
            ),
        )
    }
}

/// The map after the sectors from number `k` on were placed on `prev`, in
/// the order in which the source stores them: sector `k` lies at
/// `position + 1024 * k` and goes to the cell `order[k]`.
pub open spec fn mosaic_from(
    prev: Raster,
    width: u32,
    height: u32,
    order: Seq<u32>,
    source: Seq<u8>,
    position: int,
    palette: Seq<u8>,
    k: int,
) -> Result<Raster, FormatError>
    decreases order.len() - k,
{
    if k >= order.len() {
        Ok(prev)
    } else {
        match place_sector(
            prev,
            width,
            height,
            order[k],
            source,
            position + SECTOR_LEN * k,
            palette,
        ) {
            Err(e) => Err(e),
            Ok(next) => mosaic_from(next, width, height, order, source, position, palette, k + 1),
        }
    }
}

/// What `render_map` yields for its arguments.
pub open spec fn map_image(
    width: u32,
    height: u32,
    order: Seq<u32>,
    source: Seq<u8>,
    position: u64,
    palette: Seq<u8>,
) -> Result<Raster, FormatError> {
    if width > MAX_MAP_EDGE || height > MAX_MAP_EDGE || !grid_fits(32 * width, 32 * height, 3) {
        Err(FormatError::Corrupt)
    } else if order.len() > 0 && (width == 0 || height == 0) {
        Err(FormatError::Corrupt)
    } else {
        mosaic_from(
            Raster::blank((32 * width) as nat, (32 * height) as nat, 3),
            width,
            height,
            order,
            source,
            position as int,
            palette,
            0,
        )
    }
}

/// Whether the sector with the stored number `chunk` goes to the cell in
/// column `cx` of row `cy`.
pub open spec fn names_cell(width: u32, height: u32, chunk: u32, cx: int, cy: int) -> bool {
    (chunk as int) % (width as int) == cx && (chunk as int) / (height as int) == cy
}

/// The last of the sectors from number `k` on that goes to the cell in
/// column `cx` of row `cy`, or -1 where none of them does.
pub open spec fn last_naming(order: Seq<u32>, width: u32, height: u32, cx: int, cy: int, k: int) -> int
    decreases order.len() - k,
{
    if k < 0 || k >= order.len() {
        -1
    } else {
        let later = last_naming(order, width, height, cx, cy, k + 1);
        if later >= 0 {
            later
        } else if names_cell(width, height, order[k], cx, cy) {
            k
        } else {
            -1
        }
    }
}

/// The samples of the map once the sectors from number `k` on were placed
/// on `prev`: a pixel of a cell that one of them goes to shows the last
/// such sector, at the pixel's place in the sector; any other pixel is as
/// it was.
pub open spec fn mosaic_fn(
    prev: Raster,
    width: u32,
    height: u32,
    order: Seq<u32>,
    source: Seq<u8>,
    position: int,
    palette: Seq<u8>,
    k: int,
) -> spec_fn(int, int, int) -> u8 {
    |x: int, y: int, c: int|
        {
            let j = last_naming(order, width, height, x / 32, y / 32, k);
            if j >= 0 {
                palette_sample(
                    palette,
                    source[position + SECTOR_LEN * j + (y % 32) * 32 + x % 32] as int,
                    c,
                )
            } else {
                prev.sample(x, y, c)
            }
        }
}

/// Placing the sectors one after the other leaves in each cell the last
/// stored sector that names it.
pub proof fn lemma_mosaic_pixels(
    prev: Raster,
    width: u32,
    height: u32,
    order: Seq<u32>,
    source: Seq<u8>,
    position: int,
    palette: Seq<u8>,
    k: int,
)
    requires
        prev.wf(),
        prev.channels == 3,
        prev.width == 32 * width,
        prev.height == 32 * height,
        width > 0,
        height > 0,
        0 <= k,
        0 <= position,
        mosaic_from(prev, width, height, order, source, position, palette, k) is Ok,
    ensures
        mosaic_from(prev, width, height, order, source, position, palette, k)->Ok_0
            == Raster::painted(
            prev.width,
            prev.height,
            3,
            mosaic_fn(prev, width, height, order, source, position, palette, k),
        ),
    decreases order.len() - k,
{
    let goal = mosaic_fn(prev, width, height, order, source, position, palette, k);
    let result = mosaic_from(prev, width, height, order, source, position, palette, k)->Ok_0;
    if k >= order.len() {
        prev.lemma_is_painted(goal);
    } else {
        let at = position + SECTOR_LEN * k;
        let cx = (order[k] as int) % (width as int);
        let cy = (order[k] as int) / (height as int);
        let sector = source.subrange(at, at + SECTOR_LEN);
        let colors = sector_colors(sector, palette);
        let next = prev.with_box(32 * cx, 32 * cy, 32, 32, colors);
        Raster::lemma_painted(
            prev.width,
            prev.height,
            3,
            prev.box_fn(32 * cx, 32 * cy, 32, 32, colors),
        );
        lemma_mosaic_pixels(next, width, height, order, source, position, palette, k + 1);
        let after = mosaic_fn(next, width, height, order, source, position, palette, k + 1);
        Raster::lemma_painted(prev.width, prev.height, 3, after);
        assert forall|x: int, y: int, c: int|
            result.contains(x, y) && 0 <= c < 3 implies #[trigger] result.sample(x, y, c) == goal(
            x,
            y,
            c,
        ) by {
            let later = last_naming(order, width, height, x / 32, y / 32, k + 1);
            if later < 0 {
                if Raster::in_box(x, y, 32 * cx, 32 * cy, 32, 32) {
                    let cell = (y - 32 * cy) * 32 + (x - 32 * cx);
                    assert(cell == (y % 32) * 32 + x % 32);
                    assert((cell * 3 + c) / 3 == cell && (cell * 3 + c) % 3 == c);
                    assert(sector[cell] == source[at + cell]);
                }
            }
        }
        result.lemma_is_painted(goal);
    }
}

/// The samples of the map in full: a pixel of a cell that a stored sector
/// names shows the last such sector; any other pixel is 0.
pub open spec fn map_fn(
    width: u32,
    height: u32,
    order: Seq<u32>,
    source: Seq<u8>,
    position: int,
    palette: Seq<u8>,
) -> spec_fn(int, int, int) -> u8 {
    |x: int, y: int, c: int|
        {
            let j = last_naming(order, width, height, x / 32, y / 32, 0);
            if j >= 0 {
                palette_sample(
                    palette,
                    source[position + SECTOR_LEN * j + (y % 32) * 32 + x % 32] as int,
                    c,
                )
            } else {
                0u8
            }
        }
}

/// Where the map can be painted, each of its cells shows the last stored
/// sector that names it, and the cells that none names are black.
pub proof fn lemma_map_pixels(
    width: u32,
    height: u32,
    order: Seq<u32>,
    source: Seq<u8>,
    position: u64,
    palette: Seq<u8>,
)
    requires
        map_image(width, height, order, source, position, palette) is Ok,
    ensures
        map_image(width, height, order, source, position, palette)->Ok_0 == Raster::painted(
            (32 * width) as nat,
            (32 * height) as nat,
            3,
            map_fn(width, height, order, source, position as int, palette),
        ),
{
    let blank = Raster::blank((32 * width) as nat, (32 * height) as nat, 3);
    let goal = map_fn(width, height, order, source, position as int, palette);
    let result = map_image(width, height, order, source, position, palette)->Ok_0;
    Raster::lemma_blank((32 * width) as nat, (32 * height) as nat, 3);
    if order.len() == 0 {
        blank.lemma_is_painted(goal);
    } else {
        lemma_mosaic_pixels(blank, width, height, order, source, position as int, palette, 0);
        Raster::lemma_painted(
            blank.width,
            blank.height,
            3,
            mosaic_fn(blank, width, height, order, source, position as int, palette, 0),
        );
        result.lemma_is_painted(goal);
    }
}

/// Paints the map in full: 32 by 32 pixels for each sector, the sectors
/// taken from `position` on in the order of `chunk_order`.
pub fn render_map(
    width: u32,
    height: u32,
    chunk_order: &Vec<u32>,
    wld_file: &[u8],
    position: u64,
    palette: &[u8; 768],
) -> (image: Result<RgbGrid, FormatError>)
    ensures
        match map_image(width, height, chunk_order@, wld_file@, position, palette@) {
            Ok(raster) => image matches Ok(grid) && grid@ == raster,
            Err(e) => image matches Err(x) && x == e,
        },
{
    if width > MAX_MAP_EDGE || height > MAX_MAP_EDGE {
        return Err(FormatError::Corrupt);
    }
    let width_px = width * SECTOR_EDGE;
    let height_px = height * SECTOR_EDGE;
    if !check_grid_fits(width_px, height_px, 3) {
        return Err(FormatError::Corrupt);
    }
    if chunk_order.len() > 0 && (width == 0 || height == 0) {
        return Err(FormatError::Corrupt);
    }
    let mut img = RgbGrid::with_size(width_px, height_px);
    let ghost blank = img@;
    proof {
        Raster::lemma_blank(width_px as nat, height_px as nat, 3);
    }
    let mut k: usize = 0;
    let mut at: u64 = position;
    while k < chunk_order.len()
        invariant
            k <= chunk_order.len(),
            chunk_order.len() > 0 ==> width > 0 && height > 0,
            wld_file@.len() == wld_file.len(),
            map_image(width, height, chunk_order@, wld_file@, position, palette@) == mosaic_from(
                blank,
                width,
                height,
                chunk_order@,
                wld_file@,
                position as int,
                palette@,
                0,
            ),
            width <= MAX_MAP_EDGE,
            height <= MAX_MAP_EDGE,
            at == position + SECTOR_LEN * k,
            img@.wf(),
            img@.channels == 3,
            img@.width == 32 * width,
            img@.height == 32 * height,
            mosaic_from(img@, width, height, chunk_order@, wld_file@, position as int, palette@, k as int)
                == mosaic_from(
                blank,
                width,
                height,
                chunk_order@,
                wld_file@,
                position as int,
                palette@,
                0,
            ),
        decreases chunk_order.len() - k,
    {
        let chunk = chunk_order[k];
        let sector = match read_span(wld_file, at, SECTOR_LEN) {
            Ok(sector) => sector,
            Err(e) => return Err(e),
        };
        let chunk_y = chunk / height;
        let chunk_x = chunk % width;
        if chunk_y >= height {
            return Err(FormatError::Corrupt);
        }
        let colors = color_sector(sector, palette);
        img.fill_box(
            chunk_x * SECTOR_EDGE,
            chunk_y * SECTOR_EDGE,
            SECTOR_EDGE,
            SECTOR_EDGE,
            colors.as_slice(),
        );
        k = k + 1;
        at = at + SECTOR_LEN;
    }
    Ok(img)
}

/// The kinds of ground that a sector can have.
#[derive(Clone, Copy, Debug, PartialEq, Eq, Structural)]
pub enum Surface {
    Grass,
    Water,
    Shore,
    Block,
    Slower,
    Slowest,
}

/// The kind of ground that a tag stands for, if it stands for one.
pub open spec fn surface_of(tag: u8) -> Option<Surface> {
    if tag == 0 {
        Some(Surface::Grass)
    } else if tag == 1 {
        Some(Surface::Water)
    } else if tag == 2 {
        Some(Surface::Shore)
    } else if tag == 3 {
        Some(Surface::Block)
    } else if tag == 4 {
        Some(Surface::Slower)
    } else if tag == 5 {
        Some(Surface::Slowest)
    } else {
        None
    }
}

/// The colour in which a kind of ground is painted.
pub open spec fn surface_rgb(surface: Surface) -> (u8, u8, u8) {
    match surface {
        Surface::Grass => (49u8, 97u8, 8u8),
        Surface::Water => (24u8, 73u8, 107u8),
        Surface::Shore => (82u8, 158u8, 206u8),
        Surface::Block => (206u8, 32u8, 0u8),
        Surface::Slower => (189u8, 186u8, 16u8),
        Surface::Slowest => (231u8, 142u8, 24u8),
    }
}

impl Surface {
    /// Reads a surface tag; a tag above 5 is `UnknownType`.
    pub fn from_tag(tag: u8) -> (surface: Result<Surface, FormatError>)
        ensures
            match surface_of(tag) {
                Some(s) => surface == Ok::<Surface, FormatError>(s),
                None => surface == Err::<Surface, FormatError>(FormatError::UnknownType),
            },
    {
        match tag {
            0 => Ok(Surface::Grass),
            1 => Ok(Surface::Water),
            2 => Ok(Surface::Shore),
            3 => Ok(Surface::Block),
            4 => Ok(Surface::Slower),
            5 => Ok(Surface::Slowest),
            _ => Err(FormatError::UnknownType),
        }
    }

    /// The colour in which this kind of ground is painted.
    pub fn color(self) -> (rgb: (u8, u8, u8))
        ensures
            rgb == surface_rgb(self),
    {
        match self {
            Surface::Grass => (49, 97, 8),
            Surface::Water => (24, 73, 107),
            Surface::Shore => (82, 158, 206),
            Surface::Block => (206, 32, 0),
            Surface::Slower => (189, 186, 16),
            Surface::Slowest => (231, 142, 24),
        }
    }
}

/// Channel `c` of the pixel of a surface tag: the colour of its kind of
/// ground, and black for a tag that stands for none.
pub open spec fn tag_sample(tag: u8, c: int) -> u8 {
    match surface_of(tag) {
        None => 0u8,
        Some(s) => if c == 0 {
            surface_rgb(s).0
        } else if c == 1 {
            surface_rgb(s).1
        } else {
            surface_rgb(s).2
        },
    }
}

/// The colours of the tags of a block, three samples for each tag.
pub open spec fn quarter_colors(block: Seq<u8>) -> Seq<u8> {
    Seq::new(3 * block.len(), |i: int| tag_sample(block[i / 3], i % 3))
}

/// Whether a tag stands for no kind of ground.
pub open spec fn is_unknown_tag() -> spec_fn(u8) -> bool {
    |tag: u8| surface_of(tag) is None
}

/// The colours of the tags of one block and, in their order, the tags
/// among them that stand for no kind of ground.
fn color_quarter(block: &[u8]) -> (painted: (Vec<u8>, Vec<u8>))
    ensures
        painted.0@ == quarter_colors(block@),
        painted.1@ == block@.filter(is_unknown_tag()),
{
    let mut colors: Vec<u8> = Vec::new();
    let mut unknown: Vec<u8> = Vec::new();
    proof {
        reveal(Seq::filter);
        assert(block@.take(0) =~= Seq::<u8>::empty());
    }
    let mut n: usize = 0;
    while n < block.len()
        invariant
            n <= block.len(),
            block@.len() == block.len(),
            colors@ == quarter_colors(block@.take(n as int)),
            unknown@ == block@.take(n as int).filter(is_unknown_tag()),
        decreases block.len() - n,
    {
        let tag = block[n];
        match Surface::from_tag(tag) {
            Ok(surface) => {
                let rgb = surface.color();
                colors.push(rgb.0);
                colors.push(rgb.1);
                colors.push(rgb.2);
            },
            Err(_) => {
                colors.push(0);
                colors.push(0);
                colors.push(0);
                unknown.push(tag);
            },
        }
        proof {
            assert(colors@ =~= quarter_colors(block@.take(n + 1)));
            reveal(Seq::filter);
            assert(block@.take(n + 1).drop_last() =~= block@.take(n as int));
            assert(block@.take(n + 1).last() == tag);
        }
        n = n + 1;
    }
    proof {
        assert(block@.take(n as int) =~= block@);
    }
    (colors, unknown)
}

/// What the surface types of a map look like and which tags in them stand
/// for no kind of ground.
pub struct SectorTypes {
    /// One pixel for each sector, in the colour of its kind of ground.
    pub image: RgbGrid,
    /// The tags that stand for no kind of ground, in the order in which
    /// their cells were painted. Their pixels are black.
    pub unknown: Vec<u8>,
}

/// What a `SectorTypes` holds.
pub struct SectorTypesView {
    pub image: Raster,
    pub unknown: Seq<u8>,
}

impl View for SectorTypes {
    type V = SectorTypesView;

    open spec fn view(&self) -> SectorTypesView {
        SectorTypesView { image: self.image@, unknown: self.unknown@ }
    }
}

/// The block of quarter `q` of a grid whose quarters take `quarter` bytes
/// each and start at `position`.
pub open spec fn quarter_block(source: Seq<u8>, position: int, quarter: int, q: int) -> Seq<u8> {
    source.subrange(position + q * quarter, position + q * quarter + quarter)
}

/// The type map after the quarters from number `q` on were painted on
/// `prev`: quarter 0 top left, 1 top right, 2 bottom left, 3 bottom right.
/// Inside a quarter the tags lie row by row, one tag for each pixel.
pub open spec fn types_from(
    prev: Raster,
    wide: int,
    high: int,
    source: Seq<u8>,
    position: int,
    q: int,
) -> Raster
    decreases 4 - q,
{
    if q >= 4 {
        prev
    } else {
        types_from(
            prev.with_box(
                (q % 2) * wide,
                (q / 2) * high,
                wide,
                high,
                quarter_colors(quarter_block(source, position, wide * high, q)),
            ),
            wide,
            high,
            source,
            position,
            q + 1,
        )
    }
}

/// The unknown tags of the quarters before number `q`, in painting order.
pub open spec fn unknown_before(wide: int, high: int, source: Seq<u8>, position: int, q: int) -> Seq<
    u8,
>
    decreases q,
{
    if q <= 0 {
        Seq::empty()
    } else {
        unknown_before(wide, high, source, position, q - 1) + quarter_block(
            source,
            position,
            wide * high,
            q - 1,
        ).filter(is_unknown_tag())
    }
}

/// Channel `c` of pixel `(x, y)` of the type map. A pixel of one of the
/// four quarters takes the colour of the tag at its place in its quarter,
/// the tags of a quarter lying row by row; any other pixel is 0.
pub open spec fn type_pixel(
    width: u32,
    height: u32,
    source: Seq<u8>,
    position: int,
    x: int,
    y: int,
    c: int,
) -> u8 {
    let wide = (width / 2) as int;
    let high = (height / 2) as int;
    if 0 <= x < 2 * wide && 0 <= y < 2 * high {
        let right: int = if x >= wide {
            1
        } else {
            0
        };
        let lower: int = if y >= high {
            1
        } else {
            0
        };
        tag_sample(
            source[position + (2 * lower + right) * (wide * high) + (x - right * wide) + (y - lower
                * high) * wide],
            c,
        )
    } else {
        0
    }
}

/// The samples of the type map, pixel by pixel.
pub open spec fn type_fn(width: u32, height: u32, source: Seq<u8>, position: int) -> spec_fn(
    int,
    int,
    int,
) -> u8 {
    |x: int, y: int, c: int| type_pixel(width, height, source, position, x, y, c)
}

/// What `render_sector_types` yields for its arguments. The four quarters
/// of `(width / 2) * (height / 2)` tags each follow one another from
/// `position` on: top left, top right, bottom left, bottom right. The
/// image shows every tag at its place; the unknown tags are those among all
/// the tags that stand for no kind of ground, in the order of the source,
/// which is the order of painting. A source that ends before the quarters
/// is `Truncated`; a grid too large for this machine is `Corrupt`.
pub open spec fn sector_types(width: u32, height: u32, source: Seq<u8>, position: u64) -> Result<
    SectorTypesView,
    FormatError,
> {
    let wide = (width / 2) as int;
    let high = (height / 2) as int;
    if !in_source(source.len(), position as int, 4 * (wide * high)) {
        Err(FormatError::Truncated)
    } else if !grid_fits(width as int, height as int, 3) {
        Err(FormatError::Corrupt)
    } else {
        Ok(
            SectorTypesView {
                image: Raster::painted(
                    width as nat,
                    height as nat,
                    3,
                    type_fn(width, height, source, position as int),
                ),
                unknown: source.subrange(position as int, position + 4 * (wide * high)).filter(
                    is_unknown_tag(),
                ),
            },
        )
    }
}

/// Painting the block of one quarter gives each pixel of its box the colour
/// of the tag at its place in the block, and leaves the others alone.
pub proof fn lemma_quarter_box(
    prev: Raster,
    x0: int,
    y0: int,
    wide: int,
    high: int,
    block: Seq<u8>,
    x: int,
    y: int,
    c: int,
)
    requires
        prev.channels == 3,
        0 <= wide,
        0 <= high,
        block.len() == wide * high,
        prev.contains(x, y),
        0 <= c < 3,
    ensures
        prev.with_box(x0, y0, wide, high, quarter_colors(block)).wf(),
        prev.with_box(x0, y0, wide, high, quarter_colors(block)).width == prev.width,
        prev.with_box(x0, y0, wide, high, quarter_colors(block)).height == prev.height,
        prev.with_box(x0, y0, wide, high, quarter_colors(block)).channels == 3,
        prev.with_box(x0, y0, wide, high, quarter_colors(block)).sample(x, y, c) == (if Raster::in_box(
            x,
            y,
            x0,
            y0,
            wide,
            high,
        ) {
            tag_sample(block[(y - y0) * wide + (x - x0)], c)
        } else {
            prev.sample(x, y, c)
        }),
{
    let colors = quarter_colors(block);
    Raster::lemma_painted(
        prev.width,
        prev.height,
        3,
        prev.box_fn(x0, y0, wide, high, colors),
    );
    if Raster::in_box(x, y, x0, y0, wide, high) {
        let cell = (y - y0) * wide + (x - x0);
        lemma_sample_index(wide, high, 3, x - x0, y - y0, c);
        lemma_fundamental_div_mod_converse(cell * 3 + c, 3, cell, c);
    }
}

/// Painting the four quarters one after the other on a blank grid gives
/// the type map, and their unknown tags joined are the unknown tags of all
/// the tags.
pub proof fn lemma_quarters_painted(width: u32, height: u32, source: Seq<u8>, position: u64)
    requires
        in_source(source.len(), position as int, 4 * ((width / 2) * (height / 2))),
    ensures
        types_from(
            Raster::blank(width as nat, height as nat, 3),
            (width / 2) as int,
            (height / 2) as int,
            source,
            position as int,
            0,
        ) == Raster::painted(
            width as nat,
            height as nat,
            3,
            type_fn(width, height, source, position as int),
        ),
        unknown_before((width / 2) as int, (height / 2) as int, source, position as int, 4)
            == source.subrange(
            position as int,
            position + 4 * ((width / 2) * (height / 2)),
        ).filter(is_unknown_tag()),
{
    let wide = (width / 2) as int;
    let high = (height / 2) as int;
    let quarter = wide * high;
    let pos = position as int;
    let blank = Raster::blank(width as nat, height as nat, 3);
    let b0 = quarter_block(source, pos, quarter, 0);
    let b1 = quarter_block(source, pos, quarter, 1);
    let b2 = quarter_block(source, pos, quarter, 2);
    let b3 = quarter_block(source, pos, quarter, 3);
    let r1 = blank.with_box(0, 0, wide, high, quarter_colors(b0));
    let r2 = r1.with_box(wide, 0, wide, high, quarter_colors(b1));
    let r3 = r2.with_box(0, high, wide, high, quarter_colors(b2));
    let r4 = r3.with_box(wide, high, wide, high, quarter_colors(b3));
    assert(0 <= quarter) by (nonlinear_arith)
        requires
            quarter == wide * high,
            0 <= wide,
            0 <= high,
    ;
    assert(types_from(blank, wide, high, source, pos, 0) == r4) by {
        reveal_with_fuel(types_from, 5);
        assert(0 * wide == 0 && 1 * wide == wide && 0 * high == 0 && 1 * high == high);
    }
    Raster::lemma_blank(width as nat, height as nat, 3);
    assert forall|x: int, y: int, c: int| r4.contains(x, y) && 0 <= c < 3 implies #[trigger] r4.sample(
        x,
        y,
        c,
    ) == type_fn(width, height, source, pos)(x, y, c) by {
        lemma_quarter_box(blank, 0, 0, wide, high, b0, x, y, c);
        lemma_quarter_box(r1, wide, 0, wide, high, b1, x, y, c);
        lemma_quarter_box(r2, 0, high, wide, high, b2, x, y, c);
        lemma_quarter_box(r3, wide, high, wide, high, b3, x, y, c);
        if 0 <= x < 2 * wide && 0 <= y < 2 * high {
            let right: int = if x >= wide {
                1
            } else {
                0
            };
            let lower: int = if y >= high {
                1
            } else {
                0
            };
            let cell = (y - lower * high) * wide + (x - right * wide);
            lemma_sample_index(wide, high, 1, x - right * wide, y - lower * high, 0);
            assert((2 * lower + right) * quarter + quarter <= 4 * quarter) by (nonlinear_arith)
                requires
                    0 <= lower <= 1,
                    0 <= right <= 1,
                    0 <= quarter,
            ;
            assert(0 <= (2 * lower + right) * quarter) by (nonlinear_arith)
                requires
                    0 <= lower <= 1,
                    0 <= right <= 1,
                    0 <= quarter,
            ;
            assert(0 * quarter == 0 && 1 * quarter == quarter && 2 * quarter == quarter + quarter
                && 3 * quarter == quarter + quarter + quarter);
        }
    }
    Raster::lemma_painted(
        width as nat,
        height as nat,
        3,
        r3.box_fn(wide, high, wide, high, quarter_colors(b3)),
    );
    r4.lemma_is_painted(type_fn(width, height, source, pos));
    assert(unknown_before(wide, high, source, pos, 4) == source.subrange(pos, pos + 4 * quarter).filter(
        is_unknown_tag(),
    )) by {
        reveal_with_fuel(unknown_before, 5);
        let p = is_unknown_tag();
        assert(0 * quarter == 0 && 1 * quarter == quarter && 2 * quarter == quarter + quarter
            && 3 * quarter == quarter + quarter + quarter && 4 * quarter == quarter + quarter
            + quarter + quarter);
        Seq::filter_distributes_over_add(b0, b1, p);
        Seq::filter_distributes_over_add(b0 + b1, b2, p);
        Seq::filter_distributes_over_add(b0 + b1 + b2, b3, p);
        assert(b0 + b1 + b2 + b3 =~= source.subrange(pos, pos + 4 * quarter));
        assert(Seq::<u8>::empty() + b0.filter(p) =~= b0.filter(p));
    }
}

/// Paints the surface types of a map of `width` by `height` sectors, which
/// are stored as four quarters from `position` on.
pub fn render_sector_types(width: u32, height: u32, wld_file: &[u8], position: u64) -> (types:
    Result<SectorTypes, FormatError>)
    ensures
        match sector_types(width, height, wld_file@, position) {
            Ok(view) => types matches Ok(t) && t@ == view,
            Err(e) => types matches Err(x) && x == e,
        },
{
    let width_half = width / 2;
    let height_half = height / 2;
    assert(width_half * height_half <= 0x7fff_ffff * 0x7fff_ffff) by (nonlinear_arith)
        requires
            0 <= width_half <= 0x7fff_ffff,
            0 <= height_half <= 0x7fff_ffff,
    ;
    let quarter: u64 = (width_half as u64) * (height_half as u64);
    let total = wld_file.len() as u64;
    if position > total || quarter > (total - position) / 4 {
        return Err(FormatError::Truncated);
    }
    if !check_grid_fits(width, height, 3) {
        return Err(FormatError::Corrupt);
    }
    let mut img = RgbGrid::with_size(width, height);
    let ghost blank = img@;
    let mut unknown: Vec<u8> = Vec::new();
    proof {
        Raster::lemma_blank(width as nat, height as nat, 3);
    }
    let mut q: u32 = 0;
    while q < 4
        invariant
            q <= 4,
            width_half == width / 2,
            height_half == height / 2,
            quarter == width_half * height_half,
            total == wld_file@.len(),
            position + 4 * quarter <= total,
            img@.wf(),
            img@.channels == 3,
            img@.width == width,
            img@.height == height,
            types_from(img@, width_half as int, height_half as int, wld_file@, position as int, q as int)
                == types_from(
                blank,
                width_half as int,
                height_half as int,
                wld_file@,
                position as int,
                0,
            ),
            unknown@ == unknown_before(
                width_half as int,
                height_half as int,
                wld_file@,
                position as int,
                q as int,
            ),
        decreases 4 - q,
    {
        assert(0 <= q * quarter && q * quarter + quarter <= 4 * quarter) by (nonlinear_arith)
            requires
                0 <= q < 4,
                0 <= quarter,
        ;
        assert((q % 2) * width_half <= width_half && (q / 2) * height_half <= height_half
            && 0 <= (q % 2) * width_half && 0 <= (q / 2) * height_half) by (nonlinear_arith)
            requires
                0 <= q < 4,
                0 <= width_half,
                0 <= height_half,
        ;
        let block = match read_span(wld_file, position + (q as u64) * quarter, quarter) {
            Ok(block) => block,
            Err(e) => return Err(e),
        };
        let (colors, mut found) = color_quarter(block);
        assert(width_half * height_half * 3 == 3 * quarter) by (nonlinear_arith)
            requires
                quarter == width_half * height_half,
        ;
        let x0 = (q % 2) * width_half;
        let y0 = (q / 2) * height_half;
        img.fill_box(x0, y0, width_half, height_half, colors.as_slice());
        unknown.append(&mut found);
        q = q + 1;
    }
    proof {
        lemma_quarters_painted(width, height, wld_file@, position);
    }
    Ok(SectorTypes { image: img, unknown })
}

/// The chunk order after the first `n` entries of the stored order were
/// read. Entry `i` is a 16-bit number `v` at `position + 2 * i`; it sets
/// place `v` of the order to `i`. An entry that names no cell of the map
/// changes nothing, and a place that no entry names stays 0.
pub open spec fn order_after(source: Seq<u8>, position: int, length: int, n: int) -> Seq<u32>
    decreases n,
{
    if n <= 0 {
        Seq::new(length as nat, |i: int| 0u32)
    } else {
        let prev = order_after(source, position, length, n - 1);
        let entry = u16_at(source, position + 2 * (n - 1));
        if entry < length {
            prev.update(entry, (n - 1) as u32)
        } else {
            prev
        }
    }
}

/// The entry of the stored order at place `i`.
pub open spec fn stored_entry(source: Seq<u8>, position: int, i: int) -> int {
    u16_at(source, position + 2 * i)
}

/// Where no two entries of the stored order are the same, the chunk order
/// turns the stored order round: the place that entry `i` names holds `i`.
pub proof fn lemma_order_inverts(source: Seq<u8>, position: int, length: int, n: int)
    requires
        0 <= n <= length <= u32::MAX,
        forall|i: int, j: int|
            0 <= i < j < n ==> stored_entry(source, position, i) != stored_entry(
                source,
                position,
                j,
            ),
    ensures
        order_after(source, position, length, n).len() == length,
        forall|i: int|
            0 <= i < n && 0 <= stored_entry(source, position, i) < length ==> order_after(
                source,
                position,
                length,
                n,
            )[#[trigger] stored_entry(source, position, i)] == i,
    decreases n,
{
    if n > 0 {
        lemma_order_inverts(source, position, length, n - 1);
        let prev = order_after(source, position, length, n - 1);
        let last = stored_entry(source, position, n - 1);
        assert forall|i: int|
            0 <= i < n && 0 <= stored_entry(source, position, i) < length implies order_after(
            source,
            position,
            length,
            n,
        )[#[trigger] stored_entry(source, position, i)] == i by {
            if i < n - 1 {
                assert(stored_entry(source, position, i) != last);
                assert(prev[stored_entry(source, position, i)] == i);
            }
        }
    }
}

/// What `read_chunk_order` yields for its arguments.
pub open spec fn chunk_order_of(source: Seq<u8>, position: u64, length: u32) -> Result<
    Seq<u32>,
    FormatError,
> {
    if !in_source(source.len(), position as int, 2 * length) {
        Err(FormatError::Truncated)
    } else {
        Ok(order_after(source, position as int, length as int, length as int))
    }
}

/// Reads the order of the sectors of a map of `length` cells.
pub fn read_chunk_order(wld_file: &[u8], position: u64, length: u32) -> (order: Result<
    Vec<u32>,
    FormatError,
>)
    ensures
        match chunk_order_of(wld_file@, position, length) {
            Ok(seq) => order matches Ok(v) && v@ == seq,
            Err(e) => order matches Err(x) && x == e,
        },
{
    let total = wld_file.len() as u64;
    if position > total || (length as u64) > (total - position) / 2 {
        return Err(FormatError::Truncated);
    }
    let mut chunk_order: Vec<u32> = Vec::new();
    let mut i: u32 = 0;
    while i < length
        invariant
            i <= length,
            chunk_order@ == Seq::new(i as nat, |k: int| 0u32),
        decreases length - i,
    {
        chunk_order.push(0);
        i = i + 1;
        assert(chunk_order@ =~= Seq::new(i as nat, |k: int| 0u32));
    }
    let mut i: u32 = 0;
    while i < length
        invariant
            i <= length,
            total == wld_file@.len(),
            position + 2 * length <= total,
            chunk_order@.len() == length,
            chunk_order@ == order_after(wld_file@, position as int, length as int, i as int),
        decreases length - i,
    {
        let chunk = match read_u16_at(wld_file, position + 2 * (i as u64)) {
            Ok(chunk) => chunk as u32,
            Err(e) => return Err(e),
        };
        if chunk < length {
            chunk_order.set(chunk as usize, i);
        }
        i = i + 1;
    }
    Ok(chunk_order)
}

/// The images that a terrain map decodes to.
pub struct Terrain {
    /// The map's width in sectors.
    pub width: u32,
    /// The map's height in sectors.
    pub height: u32,
    /// The height field, one grey pixel for each vertex.
    pub heightmap: RgbGrid,
    /// The palette as a square of 16 by 16 colours.
    pub palette: RgbGrid,
    /// The minimap, one pixel for each sector.
    pub minimap: RgbGrid,
    /// The map in full, 32 by 32 pixels for each sector.
    pub map: RgbGrid,
    /// The surface types, one pixel for each sector.
    pub types: SectorTypes,
}

/// What a `Terrain` holds.
pub struct TerrainView {
    pub width: u32,
    pub height: u32,
    pub heightmap: Raster,
    pub palette: Raster,
    pub minimap: Raster,
    pub map: Raster,
    pub types: SectorTypesView,
}

impl View for Terrain {
    type V = TerrainView;

    open spec fn view(&self) -> TerrainView {
        TerrainView {
            width: self.width,
            height: self.height,
            heightmap: self.heightmap@,
            palette: self.palette@,
            minimap: self.minimap@,
            map: self.map@,
            types: self.types@,
        }
    }
}

/// Where the fields of a terrain map lie. After the magic and two unused
/// bytes come width and height; the minimap of one byte for each sector;
/// the stored order of two bytes for each sector; the height field of two
/// bytes for each vertex; the 16-bit count of stored sectors; the sectors
/// of 1024 bytes each; the palette; and the four quarters of surface types.
pub struct TerrainLayout {
    pub width: u32,
    pub height: u32,
    pub minimap_at: int,
    pub order_at: int,
    pub heights_at: int,
    pub count_at: int,
    pub map_at: int,
    pub palette_at: int,
    pub types_at: int,
}

/// The layout of the terrain map `source`, as far as width, height and the
/// count of stored sectors can be read.
pub open spec fn layout_of(source: Seq<u8>) -> TerrainLayout {
    let width = u16_at(source, 5) as u32;
    let height = u16_at(source, 7) as u32;
    let length = width * height;
    let count_at = 9 + 3 * length + 2 * ((width + 1) * (height + 1));
    let map_at = count_at + 2;
    let palette_at = map_at + SECTOR_LEN * u16_at(source, count_at);
    TerrainLayout {
        width,
        height,
        minimap_at: 9,
        order_at: 9 + length,
        heights_at: 9 + 3 * length,
        count_at,
        map_at,
        palette_at,
        types_at: palette_at + PALETTE_LEN,
    }
}

/// What `extract_wld` yields for a terrain map. The fields are read in the
/// order of the layout, and the first that cannot be read decides the error.
pub open spec fn terrain_of(source: Seq<u8>) -> Result<TerrainView, FormatError> {
    let at = layout_of(source);
    let length = at.width * at.height;
    if !has_wld_magic(source) {
        Err(FormatError::BadMagic)
    } else if !in_source(source.len(), 5, 4) || !in_source(source.len(), at.minimap_at, length)
        || !in_source(source.len(), at.order_at, 2 * length) {
        Err(FormatError::Truncated)
    } else {
        match heightmap_image(at.width, at.height, source, at.heights_at as u64) {
            Err(e) => Err(e),
            Ok(heightmap) => if !in_source(source.len(), at.count_at, 2) || !in_source(
                source.len(),
                at.palette_at,
                PALETTE_LEN as int,
            ) {
                Err(FormatError::Truncated)
            } else {
                let palette = source.subrange(at.palette_at, at.palette_at + PALETTE_LEN);
                let minimap = source.subrange(at.minimap_at, at.minimap_at + length);
                let order = order_after(source, at.order_at, length, length);
                match indexed_image(at.width, at.height, minimap, palette) {
                    Err(e) => Err(e),
                    Ok(minimap_image) => match map_image(
                        at.width,
                        at.height,
                        order,
                        source,
                        at.map_at as u64,
                        palette,
                    ) {
                        Err(e) => Err(e),
                        Ok(map) => match sector_types(
                            at.width,
                            at.height,
                            source,
                            at.types_at as u64,
                        ) {
                            Err(e) => Err(e),
                            Ok(types) => Ok(
                                TerrainView {
                                    width: at.width,
                                    height: at.height,
                                    heightmap,
                                    palette: Raster {
                                        width: 16,
                                        height: 16,
                                        channels: 3,
                                        samples: palette,
                                    },
                                    minimap: minimap_image,
                                    map,
                                    types,
                                },
                            ),
                        },
                    },
                }
            },
        }
    }
}

/// Decodes a terrain map into its five images.
pub fn extract_wld(wld_file: &[u8]) -> (terrain: Result<Terrain, FormatError>)
    ensures
        match terrain_of(wld_file@) {
            Ok(view) => terrain matches Ok(t) && t@ == view,
            Err(e) => terrain matches Err(x) && x == e,
        },
{
    check_wld_file_header(wld_file)?;
    let width = read_u16_at(wld_file, 5)? as u32;
    let height = read_u16_at(wld_file, 7)? as u32;
    assert(width * height <= 0xffff * 0xffff && (width + 1) * (height + 1) <= 0x10000 * 0x10000)
        by (nonlinear_arith)
        requires
            0 <= width <= 0xffff,
            0 <= height <= 0xffff,
    ;
    let length: u32 = width * height;
    let minimap = read_span(wld_file, 9, length as u64)?;
    let order_at: u64 = 9 + (length as u64);
    let chunk_order = read_chunk_order(wld_file, order_at, length)?;
    let heights_at: u64 = 9 + 3 * (length as u64);
    let heightmap = render_heightmap(width, height, wld_file, heights_at)?;
    let count_at: u64 = heights_at + 2 * (((width + 1) as u64) * ((height + 1) as u64));
    let grid_length = read_u16_at(wld_file, count_at)? as u64;
    let map_at: u64 = count_at + 2;
    let palette_at: u64 = map_at + SECTOR_LEN * grid_length;
    let palette = read_palette(wld_file, palette_at)?;
    let palette_image = render_palette(&palette);
    let minimap_image = render_minimap(width, height, minimap, &palette)?;
    let map = render_map(width, height, &chunk_order, wld_file, map_at, &palette)?;
    let types = render_sector_types(width, height, wld_file, palette_at + PALETTE_LEN as u64)?;
    Ok(
        Terrain {
            width,
            height,
            heightmap,
            palette: palette_image,
            minimap: minimap_image,
            map,
            types,
        },
    )
}

} // verus!

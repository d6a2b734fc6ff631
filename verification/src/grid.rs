use vstd::arithmetic::div_mod::{
    lemma_fundamental_div_mod,
    lemma_fundamental_div_mod_converse,
};
use vstd::arithmetic::mul::lemma_mul_is_commutative;
use vstd::prelude::*;

verus! {

/// The mathematical content of a pixel grid: its size and its samples,
/// row by row from the top, the channels of one pixel next to each other.
pub struct Raster {
    pub width: nat,
    pub height: nat,
    pub channels: nat,
    pub samples: Seq<u8>,
}

impl Raster {
    /// There is exactly one sample for each channel of each pixel.
    pub open spec fn wf(self) -> bool {
        self.channels > 0 && self.samples.len() == self.width * self.height * self.channels
    }

    /// Whether `(x, y)` is a pixel of the grid.
    pub open spec fn contains(self, x: int, y: int) -> bool {
        0 <= x < self.width && 0 <= y < self.height
    }

    /// Channel `c` of the pixel in column `x` of row `y`.
    #[verifier::opaque]
    pub open spec fn sample(self, x: int, y: int, c: int) -> u8 {
        self.samples[(y * self.width + x) * self.channels + c]
    }

    /// The grid of the given size whose samples are given by `f`, a function
    /// of column, row and channel.
    pub open spec fn painted(
        width: nat,
        height: nat,
        channels: nat,
        f: spec_fn(int, int, int) -> u8,
    ) -> Raster {
        Raster {
            width,
            height,
            channels,
            samples: Seq::new(
                width * height * channels,
                |i: int| f((i / channels as int) % width as int, (i / channels as int) / width as int, i % channels as int),
            ),
        }
    }

    /// The grid of the given size with every sample zero.
    pub open spec fn blank(width: nat, height: nat, channels: nat) -> Raster {
        Raster {
            width,
            height,
            channels,
            samples: Seq::new(width * height * channels, |i: int| 0u8),
        }
    }
}

/// The samples of one pixel lie inside the sample sequence, and the
/// position of a sample determines its pixel and channel.
pub proof fn lemma_sample_index(w: int, h: int, ch: int, x: int, y: int, c: int)
    requires
        0 <= x < w,
        0 <= y < h,
        0 <= c < ch,
    ensures
        0 <= (y * w + x) * ch + c < w * h * ch,
        ((y * w + x) * ch + c) % ch == c,
        (((y * w + x) * ch + c) / ch) % w == x,
        (((y * w + x) * ch + c) / ch) / w == y,
{
    let cell = y * w + x;
    assert(0 <= y * w) by (nonlinear_arith)
        requires
            0 <= y,
            0 <= w,
    ;
    assert(y * w + w <= h * w) by (nonlinear_arith)
        requires
            0 <= y < h,
            0 <= w,
    ;
    assert(h * w == w * h) by (nonlinear_arith);
    assert(0 <= cell < w * h);
    assert(0 <= cell * ch && cell * ch + ch <= (w * h) * ch) by (nonlinear_arith)
        requires
            0 <= cell < w * h,
            0 < ch,
    ;
    lemma_fundamental_div_mod_converse(cell * ch + c, ch, cell, c);
    lemma_fundamental_div_mod_converse(cell, w, y, x);
}

/// Every position in the sample sequence belongs to one channel of one pixel.
pub proof fn lemma_sample_position(w: int, h: int, ch: int, i: int)
    requires
        0 <= w,
        0 <= h,
        0 <= ch,
        0 <= i < w * h * ch,
    ensures
        0 <= (i / ch) % w < w,
        0 <= (i / ch) / w < h,
        0 <= i % ch < ch,
        i == (((i / ch) / w) * w + (i / ch) % w) * ch + i % ch,
{
    assert(ch > 0 && w > 0 && h > 0) by (nonlinear_arith)
        requires
            0 <= i < w * h * ch,
            0 <= w,
            0 <= h,
            0 <= ch,
    ;
    let cell = i / ch;
    lemma_fundamental_div_mod(i, ch);
    lemma_fundamental_div_mod(cell, w);
    lemma_mul_is_commutative(ch, cell);
    lemma_mul_is_commutative(w, cell / w);
    assert(0 <= cell < w * h) by (nonlinear_arith)
        requires
            i == ch * cell + i % ch,
            0 <= i % ch < ch,
            0 <= i < w * h * ch,
            0 < ch,
    ;
    let row = cell / w;
    assert(0 <= row < h) by (nonlinear_arith)
        requires
            cell == w * row + cell % w,
            0 <= cell % w < w,
            0 <= cell < w * h,
            0 < w,
    ;
}

impl Raster {
    /// A well-formed grid is determined by its samples taken pixel by pixel.
    pub proof fn lemma_is_painted(self, f: spec_fn(int, int, int) -> u8)
        requires
            self.wf(),
            forall|x: int, y: int, c: int|
                self.contains(x, y) && 0 <= c < self.channels ==> #[trigger] self.sample(x, y, c)
                    == f(x, y, c),
        ensures
            self == Raster::painted(self.width, self.height, self.channels, f),
    {
        reveal(Raster::sample);
        let other = Raster::painted(self.width, self.height, self.channels, f);
        assert forall|i: int| 0 <= i < self.samples.len() implies self.samples[i]
            == other.samples[i] by {
            lemma_sample_position(self.width as int, self.height as int, self.channels as int, i);
            let x = (i / self.channels as int) % self.width as int;
            let y = (i / self.channels as int) / self.width as int;
            let c = i % self.channels as int;
            assert(self.sample(x, y, c) == f(x, y, c));
        }
        assert(self.samples =~= other.samples);
    }

    /// A painted grid is well formed and holds the painted samples.
    pub proof fn lemma_painted(
        width: nat,
        height: nat,
        channels: nat,
        f: spec_fn(int, int, int) -> u8,
    )
        requires
            channels > 0,
        ensures
            Raster::painted(width, height, channels, f).wf(),
            forall|x: int, y: int, c: int|
                0 <= x < width && 0 <= y < height && 0 <= c < channels ==> #[trigger] Raster::painted(
                    width,
                    height,
                    channels,
                    f,
                ).sample(x, y, c) == f(x, y, c),
    {
        reveal(Raster::sample);
        let grid = Raster::painted(width, height, channels, f);
        assert forall|x: int, y: int, c: int|
            0 <= x < width && 0 <= y < height && 0 <= c < channels implies #[trigger] grid.sample(
            x,
            y,
            c,
        ) == f(x, y, c) by {
            lemma_sample_index(width as int, height as int, channels as int, x, y, c);
        }
    }

    /// A blank grid is well formed and every sample of it is zero.
    pub proof fn lemma_blank(width: nat, height: nat, channels: nat)
        requires
            channels > 0,
        ensures
            Raster::blank(width, height, channels).wf(),
            forall|x: int, y: int, c: int|
                0 <= x < width && 0 <= y < height && 0 <= c < channels ==> #[trigger] Raster::blank(
                    width,
                    height,
                    channels,
                ).sample(x, y, c) == 0,
    {
        reveal(Raster::sample);
        let grid = Raster::blank(width, height, channels);
        assert forall|x: int, y: int, c: int|
            0 <= x < width && 0 <= y < height && 0 <= c < channels implies #[trigger] grid.sample(
            x,
            y,
            c,
        ) == 0 by {
            lemma_sample_index(width as int, height as int, channels as int, x, y, c);
        }
    }
}

impl Raster {
    /// Whether `(x, y)` lies in the box of `bw` by `bh` pixels whose top left
    /// corner is `(x0, y0)`.
    pub open spec fn in_box(x: int, y: int, x0: int, y0: int, bw: int, bh: int) -> bool {
        x0 <= x < x0 + bw && y0 <= y < y0 + bh
    }

    /// The samples of the grid after the box at `(x0, y0)` was overwritten
    /// with `colors`, which hold the box row by row.
    pub open spec fn box_fn(self, x0: int, y0: int, bw: int, bh: int, colors: Seq<u8>) -> spec_fn(
        int,
        int,
        int,
    ) -> u8 {
        |x: int, y: int, c: int|
            if Raster::in_box(x, y, x0, y0, bw, bh) {
                colors[((y - y0) * bw + (x - x0)) * self.channels + c]
            } else {
                self.sample(x, y, c)
            }
    }

    /// The grid after the box at `(x0, y0)` was overwritten with `colors`.
    pub open spec fn with_box(self, x0: int, y0: int, bw: int, bh: int, colors: Seq<u8>) -> Raster {
        Raster::painted(self.width, self.height, self.channels, self.box_fn(x0, y0, bw, bh, colors))
    }
}

/// Whether a grid of this size can be allocated on this machine: the
/// samples of one row can be counted, and all samples fit in one vector.
pub open spec fn grid_fits(width: int, height: int, channels: int) -> bool {
    channels * width <= usize::MAX && channels * width * height <= isize::MAX
}

/// Decides `grid_fits` without overflow.
pub fn check_grid_fits(width: u32, height: u32, channels: u8) -> (fits: bool)
    ensures
        fits == grid_fits(width as int, height as int, channels as int),
{
    if channels == 0 {
        assert(0 * width * height == 0) by (nonlinear_arith);
        return true;
    }
    assert(channels * width <= 255 * 0xffff_ffff) by (nonlinear_arith)
        requires
            0 <= channels <= 255,
            0 <= width <= 0xffff_ffff,
    ;
    let row: u64 = (channels as u64) * (width as u64);
    if row > usize::MAX as u64 {
        return false;
    }
    assert(width * height <= 0xffff_ffff * 0xffff_ffff) by (nonlinear_arith)
        requires
            0 <= width <= 0xffff_ffff,
            0 <= height <= 0xffff_ffff,
    ;
    let cells: u64 = (width as u64) * (height as u64);
    let limit: u64 = (isize::MAX as u64) / (channels as u64);
    proof {
        let c = channels as int;
        let n = cells as int;
        let m = isize::MAX as int;
        assert(channels * width * height == c * n) by (nonlinear_arith)
            requires
                c == channels,
                n == width * height,
        ;
        lemma_fundamental_div_mod(m, c);
        if n <= m / c {
            assert(c * n <= m) by (nonlinear_arith)
                requires
                    n <= m / c,
                    m == c * (m / c) + m % c,
                    0 <= m % c,
                    0 < c,
            ;
        } else {
            assert(c * n > m) by (nonlinear_arith)
                requires
                    n >= m / c + 1,
                    m == c * (m / c) + m % c,
                    m % c < c,
                    0 < c,
            ;
        }
    }
    cells <= limit
}

/// An image with three samples per pixel (red, green, blue), kept in an
/// `ImageBuffer` of the image crate.
#[verifier::external_body]
pub struct RgbGrid {
    buffer: image::RgbImage,
}

/// The width in pixels of the buffer in `grid`.
pub uninterp spec fn rgb_width(grid: RgbGrid) -> nat;

/// The height in pixels of the buffer in `grid`.
pub uninterp spec fn rgb_height(grid: RgbGrid) -> nat;

/// The raw samples of the buffer in `grid`, as `ImageBuffer::as_raw` gives
/// them: row by row, 3 for each pixel.
pub uninterp spec fn rgb_samples(grid: RgbGrid) -> Seq<u8>;

impl View for RgbGrid {
    type V = Raster;

    open spec fn view(&self) -> Raster {
        Raster {
            width: rgb_width(*self),
            height: rgb_height(*self),
            channels: 3,
            samples: rgb_samples(*self),
        }
    }
}

/// `ImageBuffer::new` of the image crate: a buffer of the given size with
/// 3 zeroed samples for each pixel. It panics when the samples of one
/// row or of the whole image are more than `usize` can count, or more than
/// a vector can hold, which the `requires` excludes.
#[verifier::external_body]
fn rgb_new(width: u32, height: u32) -> (grid: RgbGrid)
    requires
        3 * width <= usize::MAX,
        3 * width * height <= isize::MAX,
    ensures
        rgb_width(grid) == width,
        rgb_height(grid) == height,
        rgb_samples(grid) == Seq::new((3 * width * height) as nat, |i: int| 0u8),
{
    RgbGrid { buffer: image::ImageBuffer::new(width, height) }
}

/// `ImageBuffer::put_pixel` of the image crate: it overwrites the 3
/// samples of the pixel at `(x, y)`, which start at
/// `(y * width + x) * 3`, and leaves the size alone. It panics outside the
/// image, which the `requires` excludes.
#[verifier::external_body]
fn rgb_put(grid: &mut RgbGrid, x: u32, y: u32, r: u8, g: u8, b: u8)
    requires
        x < rgb_width(*old(grid)),
        y < rgb_height(*old(grid)),
    ensures
        rgb_width(*final(grid)) == rgb_width(*old(grid)),
        rgb_height(*final(grid)) == rgb_height(*old(grid)),
        rgb_samples(*final(grid)) == rgb_samples(*old(grid))
            .update(3 * (y * rgb_width(*old(grid)) + x), r)
            .update(3 * (y * rgb_width(*old(grid)) + x) + 1, g)
            .update(3 * (y * rgb_width(*old(grid)) + x) + 2, b),
{
    grid.buffer.put_pixel(x, y, image::Rgb([r, g, b]));
}

/// `ImageBuffer::dimensions` of the image crate: width, then height.
#[verifier::external_body]
fn rgb_dimensions(grid: &RgbGrid) -> (size: (u32, u32))
    ensures
        size.0 == rgb_width(*grid),
        size.1 == rgb_height(*grid),
{
    grid.buffer.dimensions()
}

/// `ImageBuffer::as_raw` of the image crate, copied: the samples of the
/// buffer.
#[verifier::external_body]
fn rgb_raw(grid: &RgbGrid) -> (samples: Vec<u8>)
    ensures
        samples@ == rgb_samples(*grid),
{
    grid.buffer.as_raw().clone()
}

/// The sample that `set` writes to channel `c`.
pub open spec fn rgb_channel(r: u8, g: u8, b: u8, c: int) -> u8 {
    if c == 0 {
        r
    } else if c == 1 {
        g
    } else {
        b
    }
}

impl RgbGrid {
    /// A grid of the given size with every sample zero.
    pub fn with_size(width: u32, height: u32) -> (grid: RgbGrid)
        requires
            grid_fits(width as int, height as int, 3),
        ensures
            grid@ == Raster::blank(width as nat, height as nat, 3),
    {
        let grid = rgb_new(width, height);
        assert(grid@.samples =~= Raster::blank(width as nat, height as nat, 3).samples) by {
            assert(3 * width * height == width * height * 3) by (nonlinear_arith);
        }
        grid
    }

    /// A grid of the given size with every sample zero, or `None` when this
    /// machine cannot hold so many samples.
    pub fn blank(width: u32, height: u32) -> (grid: Option<RgbGrid>)
        ensures
            grid is Some <==> grid_fits(width as int, height as int, 3),
            grid matches Some(g) ==> g@ == Raster::blank(width as nat, height as nat, 3),
    {
        if check_grid_fits(width, height, 3) {
            Some(RgbGrid::with_size(width, height))
        } else {
            None
        }
    }

    /// Overwrites the pixel at `(x, y)`; every other pixel stays as it was.
    pub fn set(&mut self, x: u32, y: u32, r: u8, g: u8, b: u8)
        requires
            old(self)@.wf(),
            old(self)@.contains(x as int, y as int),
        ensures
            final(self)@.wf(),
            final(self)@.width == old(self)@.width,
            final(self)@.height == old(self)@.height,
            forall|i: int, j: int, c: int|
                old(self)@.contains(i, j) && 0 <= c < 3 ==> #[trigger] final(self)@.sample(i, j, c)
                    == (if i == x && j == y {
                    rgb_channel(r, g, b, c)
                } else {
                    old(self)@.sample(i, j, c)
                }),
    {
        let ghost before = self@;
        rgb_put(self, x, y, r, g, b);
        proof {
            reveal(Raster::sample);
            let after = self@;
            let w = before.width as int;
            let h = before.height as int;
            lemma_sample_index(w, h, 3, x as int, y as int, 0);
            assert forall|i: int, j: int, c: int|
                before.contains(i, j) && 0 <= c < 3 implies #[trigger] after.sample(i, j, c) == (if i
                == x && j == y {
                rgb_channel(r, g, b, c)
            } else {
                before.sample(i, j, c)
            }) by {
                lemma_sample_index(w, h, 3, i, j, c);
                lemma_sample_index(w, h, 3, x as int, y as int, 0);
                lemma_sample_index(w, h, 3, x as int, y as int, 1);
                lemma_sample_index(w, h, 3, x as int, y as int, 2);
            }
        }
    }

    /// Overwrites the box of `bw` by `bh` pixels at `(x0, y0)` with
    /// `colors`, three samples for each pixel, row by row.
    pub fn fill_box(&mut self, x0: u32, y0: u32, bw: u32, bh: u32, colors: &[u8])
        requires
            old(self)@.wf(),
            x0 + bw <= old(self)@.width,
            y0 + bh <= old(self)@.height,
            colors@.len() == bw * bh * 3,
        ensures
            final(self)@.wf(),
            final(self)@ == old(self)@.with_box(
                x0 as int,
                y0 as int,
                bw as int,
                bh as int,
                colors@,
            ),
    {
        let ghost before = self@;
        let width = self.width();
        let height = self.height();
        let mut by: u32 = 0;
        while by < bh
            invariant
                by <= bh,
                width == before.width,
                height == before.height,
                colors@.len() == colors.len(),
                before.wf(),
                before.channels == 3,
                x0 + bw <= before.width,
                y0 + bh <= before.height,
                colors@.len() == bw * bh * 3,
                self@.wf(),
                self@.width == before.width,
                self@.height == before.height,
                forall|i: int, j: int, c: int|
                    before.contains(i, j) && 0 <= c < 3 ==> #[trigger] self@.sample(i, j, c) == (if Raster::in_box(
                        i,
                        j,
                        x0 as int,
                        y0 as int,
                        bw as int,
                        bh as int,
                    ) && j - y0 < by {
                        colors@[((j - y0) * bw + (i - x0)) * 3 + c]
                    } else {
                        before.sample(i, j, c)
                    }),
            decreases bh - by,
        {
            let mut bx: u32 = 0;
            while bx < bw
                invariant
                    bx <= bw,
                    by < bh,
                    width == before.width,
                    height == before.height,
                    colors@.len() == colors.len(),
                    before.wf(),
                    before.channels == 3,
                    x0 + bw <= before.width,
                    y0 + bh <= before.height,
                    colors@.len() == bw * bh * 3,
                    self@.wf(),
                    self@.width == before.width,
                    self@.height == before.height,
                    forall|i: int, j: int, c: int|
                        before.contains(i, j) && 0 <= c < 3 ==> #[trigger] self@.sample(i, j, c) == (if Raster::in_box(
                            i,
                            j,
                            x0 as int,
                            y0 as int,
                            bw as int,
                            bh as int,
                        ) && (j - y0 < by || (j - y0 == by && i - x0 < bx)) {
                            colors@[((j - y0) * bw + (i - x0)) * 3 + c]
                        } else {
                            before.sample(i, j, c)
                        }),
                decreases bw - bx,
            {
                proof {
                    lemma_sample_index(bw as int, bh as int, 3, bx as int, by as int, 0);
                    lemma_sample_index(bw as int, bh as int, 3, bx as int, by as int, 2);
                    assert(0 <= by * bw <= by * bw + bx) by (nonlinear_arith)
                        requires
                            0 <= by,
                            0 <= bw,
                            0 <= bx,
                    ;
                }
                let k: usize = ((by as usize) * (bw as usize) + (bx as usize)) * 3;
                self.set(x0 + bx, y0 + by, colors[k], colors[k + 1], colors[k + 2]);
                bx = bx + 1;
            }
            by = by + 1;
        }
        proof {
            self@.lemma_is_painted(
                before.box_fn(x0 as int, y0 as int, bw as int, bh as int, colors@),
            );
        }
    }

    /// The width in pixels.
    pub fn width(&self) -> (width: u32)
        ensures
            width == self@.width,
    {
        rgb_dimensions(self).0
    }

    /// The height in pixels.
    pub fn height(&self) -> (height: u32)
        ensures
            height == self@.height,
    {
        rgb_dimensions(self).1
    }

    /// A copy of the samples, row by row, 3 for each pixel.
    pub fn samples(&self) -> (samples: Vec<u8>)
        ensures
            samples@ == self@.samples,
    {
        rgb_raw(self)
    }
}

/// An image with four samples per pixel (red, green, blue, alpha), kept in an
/// `ImageBuffer` of the image crate.
#[verifier::external_body]
pub struct RgbaGrid {
    buffer: image::RgbaImage,
}

/// The width in pixels of the buffer in `grid`.
pub uninterp spec fn rgba_width(grid: RgbaGrid) -> nat;

/// The height in pixels of the buffer in `grid`.
pub uninterp spec fn rgba_height(grid: RgbaGrid) -> nat;

/// The raw samples of the buffer in `grid`, as `ImageBuffer::as_raw` gives
/// them: row by row, 4 for each pixel.
pub uninterp spec fn rgba_samples(grid: RgbaGrid) -> Seq<u8>;

impl View for RgbaGrid {
    type V = Raster;

    open spec fn view(&self) -> Raster {
        Raster {
            width: rgba_width(*self),
            height: rgba_height(*self),
            channels: 4,
            samples: rgba_samples(*self),
        }
    }
}

/// `ImageBuffer::new` of the image crate: a buffer of the given size with
/// 4 zeroed samples for each pixel. It panics when the samples of one
/// row or of the whole image are more than `usize` can count, or more than
/// a vector can hold, which the `requires` excludes.
#[verifier::external_body]
fn rgba_new(width: u32, height: u32) -> (grid: RgbaGrid)
    requires
        4 * width <= usize::MAX,
        4 * width * height <= isize::MAX,
    ensures
        rgba_width(grid) == width,
        rgba_height(grid) == height,
        rgba_samples(grid) == Seq::new((4 * width * height) as nat, |i: int| 0u8),
{
    RgbaGrid { buffer: image::ImageBuffer::new(width, height) }
}

/// `ImageBuffer::put_pixel` of the image crate: it overwrites the 4
/// samples of the pixel at `(x, y)`, which start at
/// `(y * width + x) * 4`, and leaves the size alone. It panics outside the
/// image, which the `requires` excludes.
#[verifier::external_body]
fn rgba_put(grid: &mut RgbaGrid, x: u32, y: u32, r: u8, g: u8, b: u8, a: u8)
    requires
        x < rgba_width(*old(grid)),
        y < rgba_height(*old(grid)),
    ensures
        rgba_width(*final(grid)) == rgba_width(*old(grid)),
        rgba_height(*final(grid)) == rgba_height(*old(grid)),
        rgba_samples(*final(grid)) == rgba_samples(*old(grid))
            .update(4 * (y * rgba_width(*old(grid)) + x), r)
            .update(4 * (y * rgba_width(*old(grid)) + x) + 1, g)
            .update(4 * (y * rgba_width(*old(grid)) + x) + 2, b)
            .update(4 * (y * rgba_width(*old(grid)) + x) + 3, a),
{
    grid.buffer.put_pixel(x, y, image::Rgba([r, g, b, a]));
}

/// `ImageBuffer::dimensions` of the image crate: width, then height.
#[verifier::external_body]
fn rgba_dimensions(grid: &RgbaGrid) -> (size: (u32, u32))
    ensures
        size.0 == rgba_width(*grid),
        size.1 == rgba_height(*grid),
{
    grid.buffer.dimensions()
}

/// `ImageBuffer::as_raw` of the image crate, copied: the samples of the
/// buffer.
#[verifier::external_body]
fn rgba_raw(grid: &RgbaGrid) -> (samples: Vec<u8>)
    ensures
        samples@ == rgba_samples(*grid),
{
    grid.buffer.as_raw().clone()
}

/// The sample that `set` writes to channel `c`.
pub open spec fn rgba_channel(r: u8, g: u8, b: u8, a: u8, c: int) -> u8 {
    if c == 0 {
        r
    } else if c == 1 {
        g
    } else if c == 2 {
        b
    } else {
        a
    }
}

impl RgbaGrid {
    /// A grid of the given size with every sample zero.
    pub fn with_size(width: u32, height: u32) -> (grid: RgbaGrid)
        requires
            grid_fits(width as int, height as int, 4),
        ensures
            grid@ == Raster::blank(width as nat, height as nat, 4),
    {
        let grid = rgba_new(width, height);
        assert(grid@.samples =~= Raster::blank(width as nat, height as nat, 4).samples) by {
            assert(4 * width * height == width * height * 4) by (nonlinear_arith);
        }
        grid
    }

    /// A grid of the given size with every sample zero, or `None` when this
    /// machine cannot hold so many samples.
    pub fn blank(width: u32, height: u32) -> (grid: Option<RgbaGrid>)
        ensures
            grid is Some <==> grid_fits(width as int, height as int, 4),
            grid matches Some(g) ==> g@ == Raster::blank(width as nat, height as nat, 4),
    {
        if check_grid_fits(width, height, 4) {
            Some(RgbaGrid::with_size(width, height))
        } else {
            None
        }
    }

    /// Overwrites the pixel at `(x, y)`; every other pixel stays as it was.
    pub fn set(&mut self, x: u32, y: u32, r: u8, g: u8, b: u8, a: u8)
        requires
            old(self)@.wf(),
            old(self)@.contains(x as int, y as int),
        ensures
            final(self)@.wf(),
            final(self)@.width == old(self)@.width,
            final(self)@.height == old(self)@.height,
            forall|i: int, j: int, c: int|
                old(self)@.contains(i, j) && 0 <= c < 4 ==> #[trigger] final(self)@.sample(i, j, c)
                    == (if i == x && j == y {
                    rgba_channel(r, g, b, a, c)
                } else {
                    old(self)@.sample(i, j, c)
                }),
    {
        let ghost before = self@;
        rgba_put(self, x, y, r, g, b, a);
        proof {
            reveal(Raster::sample);
            let after = self@;
            let w = before.width as int;
            let h = before.height as int;
            lemma_sample_index(w, h, 4, x as int, y as int, 0);
            assert forall|i: int, j: int, c: int|
                before.contains(i, j) && 0 <= c < 4 implies #[trigger] after.sample(i, j, c) == (if i
                == x && j == y {
                rgba_channel(r, g, b, a, c)
            } else {
                before.sample(i, j, c)
            }) by {
                lemma_sample_index(w, h, 4, i, j, c);
                lemma_sample_index(w, h, 4, x as int, y as int, 0);
                lemma_sample_index(w, h, 4, x as int, y as int, 1);
                lemma_sample_index(w, h, 4, x as int, y as int, 2);
                lemma_sample_index(w, h, 4, x as int, y as int, 3);
            }
        }
    }

    /// Overwrites the box of `bw` by `bh` pixels at `(x0, y0)` with
    /// `colors`, four samples for each pixel, row by row.
    pub fn fill_box(&mut self, x0: u32, y0: u32, bw: u32, bh: u32, colors: &[u8])
        requires
            old(self)@.wf(),
            x0 + bw <= old(self)@.width,
            y0 + bh <= old(self)@.height,
            colors@.len() == bw * bh * 4,
        ensures
            final(self)@.wf(),
            final(self)@ == old(self)@.with_box(
                x0 as int,
                y0 as int,
                bw as int,
                bh as int,
                colors@,
            ),
    {
        let ghost before = self@;
        let width = self.width();
        let height = self.height();
        let mut by: u32 = 0;
        while by < bh
            invariant
                by <= bh,
                width == before.width,
                height == before.height,
                colors@.len() == colors.len(),
                before.wf(),
                before.channels == 4,
                x0 + bw <= before.width,
                y0 + bh <= before.height,
                colors@.len() == bw * bh * 4,
                self@.wf(),
                self@.width == before.width,
                self@.height == before.height,
                forall|i: int, j: int, c: int|
                    before.contains(i, j) && 0 <= c < 4 ==> #[trigger] self@.sample(i, j, c) == (if Raster::in_box(
                        i,
                        j,
                        x0 as int,
                        y0 as int,
                        bw as int,
                        bh as int,
                    ) && j - y0 < by {
                        colors@[((j - y0) * bw + (i - x0)) * 4 + c]
                    } else {
                        before.sample(i, j, c)
                    }),
            decreases bh - by,
        {
            let mut bx: u32 = 0;
            while bx < bw
                invariant
                    bx <= bw,
                    by < bh,
                    width == before.width,
                    height == before.height,
                    colors@.len() == colors.len(),
                    before.wf(),
                    before.channels == 4,
                    x0 + bw <= before.width,
                    y0 + bh <= before.height,
                    colors@.len() == bw * bh * 4,
                    self@.wf(),
                    self@.width == before.width,
                    self@.height == before.height,
                    forall|i: int, j: int, c: int|
                        before.contains(i, j) && 0 <= c < 4 ==> #[trigger] self@.sample(i, j, c) == (if Raster::in_box(
                            i,
                            j,
                            x0 as int,
                            y0 as int,
                            bw as int,
                            bh as int,
                        ) && (j - y0 < by || (j - y0 == by && i - x0 < bx)) {
                            colors@[((j - y0) * bw + (i - x0)) * 4 + c]
                        } else {
                            before.sample(i, j, c)
                        }),
                decreases bw - bx,
            {
                proof {
                    lemma_sample_index(bw as int, bh as int, 4, bx as int, by as int, 0);
                    lemma_sample_index(bw as int, bh as int, 4, bx as int, by as int, 3);
                    assert(0 <= by * bw <= by * bw + bx) by (nonlinear_arith)
                        requires
                            0 <= by,
                            0 <= bw,
                            0 <= bx,
                    ;
                }
                let k: usize = ((by as usize) * (bw as usize) + (bx as usize)) * 4;
                self.set(
                    x0 + bx,
                    y0 + by,
                    colors[k],
                    colors[k + 1],
                    colors[k + 2],
                    colors[k + 3],
                );
                bx = bx + 1;
            }
            by = by + 1;
        }
        proof {
            self@.lemma_is_painted(
                before.box_fn(x0 as int, y0 as int, bw as int, bh as int, colors@),
            );
        }
    }

    /// The width in pixels.
    pub fn width(&self) -> (width: u32)
        ensures
            width == self@.width,
    {
        rgba_dimensions(self).0
    }

    /// The height in pixels.
    pub fn height(&self) -> (height: u32)
        ensures
            height == self@.height,
    {
        rgba_dimensions(self).1
    }

    /// A copy of the samples, row by row, 4 for each pixel.
    pub fn samples(&self) -> (samples: Vec<u8>)
        ensures
            samples@ == self@.samples,
    {
        rgba_raw(self)
    }
}

} // verus!

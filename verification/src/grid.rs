//! Pixel grids: the mathematical model and the row-major byte buffer that realises it.

use vstd::prelude::*;

verus! {

/// One pixel: a red, a green and a blue sample.
#[derive(Clone, Copy, PartialEq, Eq, Debug, Structural)]
pub struct Rgb {
    pub r: u8,
    pub g: u8,
    pub b: u8,
}

/// The pixel whose three samples start at byte `3 * i`.
pub open spec fn pixel_of(bytes: Seq<u8>, i: int) -> Rgb {
    Rgb { r: bytes[3 * i], g: bytes[3 * i + 1], b: bytes[3 * i + 2] }
}

/// The pixels that a buffer of three bytes per pixel holds, in order.
pub open spec fn pixels_of(bytes: Seq<u8>) -> Seq<Rgb> {
    Seq::new((bytes.len() / 3) as nat, |i: int| pixel_of(bytes, i))
}

/// The sample of `p` in channel `c`: red is 0, green is 1, blue is 2.
pub open spec fn sample(p: Rgb, c: int) -> u8 {
    if c == 0 {
        p.r
    } else if c == 1 {
        p.g
    } else {
        p.b
    }
}

/// A raster as a sequence of rows, each a sequence of pixels.
///
/// The width is kept beside the rows so that a raster without rows still has one.
pub struct Grid {
    pub width: nat,
    pub rows: Seq<Seq<Rgb>>,
}

impl Grid {
    /// The number of rows.
    pub open spec fn height(self) -> nat {
        self.rows.len()
    }

    /// Every row has exactly `width` pixels.
    pub open spec fn wf(self) -> bool {
        forall|y: int| 0 <= y < self.rows.len() ==> (#[trigger] self.rows[y]).len() == self.width
    }

    /// Column `x`, read from the top.
    pub open spec fn column(self, x: int) -> Seq<Rgb> {
        Seq::new(self.rows.len(), |y: int| self.rows[y][x])
    }

    /// Rows `y0 .. y1` as a raster of their own.
    pub open spec fn rows_band(self, y0: int, y1: int) -> Grid {
        Grid { width: self.width, rows: self.rows.subrange(y0, y1) }
    }

    /// Columns `x0 .. x1` as a raster of their own.
    pub open spec fn columns_band(self, x0: int, x1: int) -> Grid {
        Grid {
            width: (x1 - x0) as nat,
            rows: Seq::new(self.rows.len(), |y: int| self.rows[y].subrange(x0, x1)),
        }
    }

    /// The raster that a row-major buffer of three bytes per pixel holds.
    pub open spec fn from_bytes(width: nat, height: nat, bytes: Seq<u8>) -> Grid {
        Grid {
            width,
            rows: Seq::new(
                height,
                |y: int| Seq::new(width, |x: int| pixel_of(bytes, y * width + x)),
            ),
        }
    }

    /// The row-major buffer of three bytes per pixel that holds this raster.
    pub open spec fn to_bytes(self) -> Seq<u8> {
        Seq::new(
            3 * (self.width * self.rows.len()),
            |i: int|
                sample(
                    self.rows[(i / 3) / (self.width as int)][(i / 3) % (self.width as int)],
                    i % 3,
                ),
        )
    }
}

/// A cell inside a `w` by `h` raster has a row-major index below `w * h`.
pub proof fn lemma_cell_index(w: int, h: int, x: int, y: int)
    requires
        0 <= x < w,
        0 <= y < h,
    ensures
        0 <= y * w + x < w * h,
        0 <= y * w,
{
    assert(0 <= y * w) by (nonlinear_arith)
        requires
            0 <= y,
            0 <= w,
    ;
    assert((y + 1) * w <= h * w) by (nonlinear_arith)
        requires
            y + 1 <= h,
            0 <= w,
    ;
    assert((y + 1) * w == y * w + w) by (nonlinear_arith);
    assert(h * w == w * h) by (nonlinear_arith);
}

/// A row-major index below `w * h` names exactly one cell, and comes back from it.
pub proof fn lemma_index_cell(w: int, h: int, i: int)
    requires
        0 <= i < w * h,
        0 <= h,
        0 <= w,
    ensures
        0 < w,
        0 <= i % w < w,
        0 <= i / w < h,
        (i / w) * w + i % w == i,
{
    assert(w != 0) by (nonlinear_arith)
        requires
            0 <= i < w * h,
    ;
    vstd::arithmetic::div_mod::lemma_fundamental_div_mod(i, w);
    vstd::arithmetic::div_mod::lemma_mod_bound(i, w);
    vstd::arithmetic::div_mod::lemma_div_pos_is_pos(i, w);
    vstd::arithmetic::div_mod::lemma_multiply_divide_lt(i, w, h);
    assert((i / w) * w == w * (i / w)) by (nonlinear_arith);
}

/// Reading a buffer of the right length as a raster and writing the raster out
/// again gives the buffer back.
pub proof fn lemma_bytes_of_grid_of_bytes(width: nat, height: nat, bytes: Seq<u8>)
    requires
        bytes.len() == 3 * (width * height),
    ensures
        Grid::from_bytes(width, height, bytes).to_bytes() == bytes,
{
    let g = Grid::from_bytes(width, height, bytes);
    let out = g.to_bytes();
    assert(out.len() == bytes.len());
    assert forall|i: int| 0 <= i < out.len() implies out[i] == bytes[i] by {
        let p = i / 3;
        let c = i % 3;
        lemma_index_cell(width as int, height as int, p);
        let y = p / (width as int);
        let x = p % (width as int);
        assert(g.rows[y][x] == pixel_of(bytes, y * width + x));
    }
    assert(out =~= bytes);
}

/// Writing a rectangular raster out as bytes and reading them again gives the
/// raster back.
pub proof fn lemma_grid_of_bytes_of_grid(g: Grid)
    requires
        g.wf(),
    ensures
        Grid::from_bytes(g.width, g.height(), g.to_bytes()) == g,
{
    let w = g.width as int;
    let h = g.height() as int;
    let bytes = g.to_bytes();
    let back = Grid::from_bytes(g.width, g.height(), bytes);
    assert forall|y: int| 0 <= y < h implies #[trigger] back.rows[y] == g.rows[y] by {
        assert forall|x: int| 0 <= x < w implies back.rows[y][x] == g.rows[y][x] by {
            let p = y * w + x;
            lemma_cell_index(w, h, x, y);
            assert(y * w == w * y) by (nonlinear_arith);
            vstd::arithmetic::div_mod::lemma_fundamental_div_mod_converse(p, w, y, x);
            assert((3 * p) / 3 == p && (3 * p + 1) / 3 == p && (3 * p + 2) / 3 == p);
            assert(3 * p + 2 < 3 * (w * h));
        }
        assert(back.rows[y] =~= g.rows[y]);
    }
    assert(back.rows =~= g.rows);
}

/// A raster held as a row-major buffer of three bytes per pixel.
#[derive(Debug, PartialEq, Eq)]
pub struct PixelGrid {
    width: u32,
    height: u32,
    data: Vec<u8>,
}

impl View for PixelGrid {
    type V = Grid;

    closed spec fn view(&self) -> Grid {
        Grid::from_bytes(self.width as nat, self.height as nat, self.data@)
    }
}

impl Clone for PixelGrid {
    fn clone(&self) -> (copy: PixelGrid)
        ensures
            copy@ == self@,
    {
        proof {
            use_type_invariant(self);
        }
        PixelGrid { width: self.width, height: self.height, data: self.data.clone() }
    }
}

impl PixelGrid {
    #[verifier::type_invariant]
    spec fn buffer_fits(self) -> bool {
        self.data.len() == 3 * (self.width * self.height)
    }

    /// The view of a grid is always a rectangle.
    pub proof fn lemma_view_wf(&self)
        ensures
            self@.wf(),
    {
    }

    /// Wraps a buffer, provided that it holds exactly `width * height` pixels.
    pub fn from_raw(width: u32, height: u32, data: Vec<u8>) -> (made: Option<PixelGrid>)
        ensures
            made.is_some() <==> data.len() == 3 * (width * height),
            made.is_some() ==> made.unwrap()@ == Grid::from_bytes(
                width as nat,
                height as nat,
                data@,
            ),
    {
        assert(width * height <= 0xffff_ffff * 0xffff_ffff) by (nonlinear_arith)
            requires
                0 <= width <= 0xffff_ffff,
                0 <= height <= 0xffff_ffff,
        ;
        let need: u128 = 3u128 * (width as u128 * height as u128);
        if data.len() as u128 == need {
            Some(PixelGrid { width, height, data })
        } else {
            None
        }
    }

    /// The number of pixels in a row.
    pub fn width(&self) -> (w: u32)
        ensures
            w == self@.width,
    {
        self.width
    }

    /// The number of rows.
    pub fn height(&self) -> (h: u32)
        ensures
            h == self@.height(),
    {
        self.height
    }

    /// The buffer behind the grid: three bytes per pixel, row after row.
    pub fn as_raw(&self) -> (bytes: &Vec<u8>)
        ensures
            bytes@ == self@.to_bytes(),
    {
        proof {
            use_type_invariant(self);
            lemma_bytes_of_grid_of_bytes(self.width as nat, self.height as nat, self.data@);
        }
        &self.data
    }

    /// Gives up the grid for the buffer behind it.
    pub fn into_raw(self) -> (bytes: Vec<u8>)
        ensures
            bytes@ == self@.to_bytes(),
    {
        proof {
            use_type_invariant(&self);
            lemma_bytes_of_grid_of_bytes(self.width as nat, self.height as nat, self.data@);
        }
        self.data
    }

    /// The bytes of pixels `x0 .. x1` of row `y`, as they lie in the buffer.
    pub(crate) fn run_bytes(&self, y: u32, x0: u32, x1: u32) -> (bytes: &[u8])
        requires
            y < self@.height(),
            x0 <= x1 <= self@.width,
        ensures
            bytes@.len() == 3 * (x1 - x0),
            pixels_of(bytes@) == self@.rows[y as int].subrange(x0 as int, x1 as int),
    {
        let ghost w = self.width as int;
        proof {
            use_type_invariant(self);
            assert(0 <= y * w && (y + 1) * w <= self.height * w && (y + 1) * w == y * w + w
                && self.height * w == w * self.height) by (nonlinear_arith)
                requires
                    0 <= y < self.height,
                    0 <= w,
            ;
        }
        let base: usize = y as usize * self.width as usize;
        let from: usize = (base + x0 as usize) * 3;
        let to: usize = (base + x1 as usize) * 3;
        let bytes = vstd::slice::slice_subrange(self.data.as_slice(), from, to);
        proof {
            let row = self@.rows[y as int];
            assert forall|i: int| 0 <= i < x1 - x0 implies pixels_of(bytes@)[i] == row.subrange(
                x0 as int,
                x1 as int,
            )[i] by {
                assert(pixel_of(bytes@, i) == pixel_of(self.data@, y * w + (x0 + i)));
            }
            assert(pixels_of(bytes@) =~= row.subrange(x0 as int, x1 as int));
        }
        bytes
    }

    /// The pixel in column `x` of row `y`.
    pub fn get_pixel(&self, x: u32, y: u32) -> (p: Rgb)
        requires
            x < self@.width,
            y < self@.height(),
        ensures
            p == self@.rows[y as int][x as int],
    {
        proof {
            use_type_invariant(self);
            lemma_cell_index(self.width as int, self.height as int, x as int, y as int);
        }
        let i: usize = (y as usize * self.width as usize + x as usize) * 3;
        Rgb { r: self.data[i], g: self.data[i + 1], b: self.data[i + 2] }
    }

    /// The pixel in column `x` of row `y`, if the grid has such a cell.
    pub fn get_pixel_checked(&self, x: u32, y: u32) -> (p: Option<Rgb>)
        ensures
            p == (if x < self@.width && y < self@.height() {
                Some(self@.rows[y as int][x as int])
            } else {
                None
            }),
    {
        if x < self.width && y < self.height {
            Some(self.get_pixel(x, y))
        } else {
            None
        }
    }
}

} // verus!

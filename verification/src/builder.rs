//! Writing a grid pixel by pixel, row after row.

use vstd::prelude::*;
use crate::grid::{Grid, PixelGrid, Rgb, pixel_of, pixels_of, lemma_cell_index};

verus! {

/// A grid under construction: the rows that are complete, and the row being written.
pub(crate) struct GridBuilder {
    width: u32,
    height: u32,
    done: u32,
    col: u32,
    data: Vec<u8>,
}

/// Appending one pixel's samples leaves the earlier pixels as they were.
proof fn lemma_append_pixel(bytes: Seq<u8>, n: int, p: Rgb)
    requires
        0 <= n,
        bytes.len() == 3 * n,
    ensures
        pixel_of(bytes.push(p.r).push(p.g).push(p.b), n) == p,
        forall|i: int|
            0 <= i < n ==> pixel_of(bytes.push(p.r).push(p.g).push(p.b), i) == pixel_of(bytes, i),
{
}

/// Appending a run of whole pixels leaves the earlier pixels as they were, and
/// puts the pixels of the run after them.
proof fn lemma_append_run(bytes: Seq<u8>, n: int, run: Seq<u8>, m: int)
    requires
        0 <= n,
        0 <= m,
        bytes.len() == 3 * n,
        run.len() == 3 * m,
    ensures
        forall|i: int| 0 <= i < n ==> pixel_of(bytes + run, i) == pixel_of(bytes, i),
        forall|i: int| 0 <= i < m ==> pixel_of(bytes + run, n + i) == pixels_of(run)[i],
{
}

/// The first `done` rows of `width` pixels that a buffer holds.
spec fn rows_in(bytes: Seq<u8>, width: int, done: int) -> Seq<Seq<Rgb>> {
    Seq::new(done as nat, |y: int| Seq::new(width as nat, |x: int| pixel_of(bytes, y * width + x)))
}

/// Rows that lie in full before the end of a buffer stay as they are when the
/// pixels before that end do.
proof fn lemma_rows_kept(before: Seq<u8>, after: Seq<u8>, width: int, done: int, n: int)
    requires
        0 <= width,
        0 <= done,
        done * width <= n,
        forall|i: int| 0 <= i < n ==> pixel_of(after, i) == pixel_of(before, i),
    ensures
        rows_in(after, width, done) == rows_in(before, width, done),
{
    assert forall|y: int| 0 <= y < done implies #[trigger] rows_in(after, width, done)[y]
        == rows_in(before, width, done)[y] by {
        assert forall|x: int| 0 <= x < width implies #[trigger] rows_in(after, width, done)[y][x]
            == rows_in(before, width, done)[y][x] by {
            lemma_cell_index(width, done, x, y);
            assert(width * done == done * width) by (nonlinear_arith);
        }
        assert(rows_in(after, width, done)[y] =~= rows_in(before, width, done)[y]);
    }
    assert(rows_in(after, width, done) =~= rows_in(before, width, done));
}

impl GridBuilder {
    /// The buffer holds the complete rows and the pixels written of the next one.
    pub(crate) closed spec fn wf(&self) -> bool {
        &&& self.done <= self.height
        &&& self.col <= self.width
        &&& self.done == self.height ==> self.col == 0
        &&& self.data.len() == 3 * (self.done * self.width + self.col)
    }

    pub(crate) closed spec fn width(&self) -> nat {
        self.width as nat
    }

    /// The number of rows that the finished grid will have.
    pub(crate) closed spec fn height(&self) -> nat {
        self.height as nat
    }

    /// The rows written in full.
    pub(crate) closed spec fn rows(&self) -> Seq<Seq<Rgb>> {
        rows_in(self.data@, self.width as int, self.done as int)
    }

    /// The pixels written so far of the row after those.
    pub(crate) closed spec fn partial(&self) -> Seq<Rgb> {
        Seq::new(self.col as nat, |x: int| pixel_of(self.data@, self.done * self.width + x))
    }

    /// A builder for a grid of the given shape, with nothing written yet.
    pub(crate) fn new(width: u32, height: u32) -> (b: GridBuilder)
        ensures
            b.wf(),
            b.width() == width,
            b.height() == height,
            b.rows() == Seq::<Seq<Rgb>>::empty(),
            b.partial() == Seq::<Rgb>::empty(),
    {
        let b = GridBuilder { width, height, done: 0, col: 0, data: Vec::new() };
        assert(b.rows() =~= Seq::<Seq<Rgb>>::empty());
        assert(b.partial() =~= Seq::<Rgb>::empty());
        b
    }

    /// Writes the next pixel of the current row.
    pub(crate) fn push(&mut self, p: Rgb)
        requires
            old(self).wf(),
            old(self).rows().len() < old(self).height(),
            old(self).partial().len() < old(self).width(),
        ensures
            final(self).wf(),
            final(self).width() == old(self).width(),
            final(self).height() == old(self).height(),
            final(self).rows() == old(self).rows(),
            final(self).partial() == old(self).partial().push(p),
    {
        let ghost before = self.data@;
        let ghost n = self.done * self.width + self.col;
        proof {
            assert(0 <= self.done * self.width) by (nonlinear_arith)
                requires
                    0 <= self.done,
                    0 <= self.width,
            ;
            lemma_append_pixel(before, n, p);
        }
        self.data.push(p.r);
        self.data.push(p.g);
        self.data.push(p.b);
        self.col = self.col + 1;
        proof {
            lemma_rows_kept(before, self.data@, self.width as int, self.done as int, n);
            assert(self.partial() =~= old(self).partial().push(p));
        }
    }

    /// Writes pixels `x0 .. x1` of row `y` of `src` into the current row.
    pub(crate) fn copy_run(&mut self, src: &PixelGrid, y: u32, x0: u32, x1: u32)
        requires
            old(self).wf(),
            old(self).rows().len() < old(self).height(),
            y < src@.height(),
            x0 <= x1 <= src@.width,
            old(self).partial().len() + (x1 - x0) <= old(self).width(),
        ensures
            final(self).wf(),
            final(self).width() == old(self).width(),
            final(self).height() == old(self).height(),
            final(self).rows() == old(self).rows(),
            final(self).partial() == old(self).partial() + src@.rows[y as int].subrange(
                x0 as int,
                x1 as int,
            ),
    {
        let ghost before = self.data@;
        let ghost n = self.done * self.width + self.col;
        let ghost m = x1 - x0;
        let run = src.run_bytes(y, x0, x1);
        proof {
            src.lemma_view_wf();
            assert(0 <= self.done * self.width) by (nonlinear_arith)
                requires
                    0 <= self.done,
                    0 <= self.width,
            ;
            lemma_append_run(before, n, run@, m);
        }
        self.data.extend_from_slice(run);
        self.col = self.col + (x1 - x0);
        proof {
            let w = self.width as int;
            let d = self.done as int;
            assert(self.data@ =~= before + run@);
            lemma_rows_kept(before, self.data@, w, d, n);
            let wanted = old(self).partial() + src@.rows[y as int].subrange(x0 as int, x1 as int);
            assert forall|x: int| 0 <= x < self.col implies self.partial()[x] == wanted[x] by {
                if x >= old(self).col {
                    assert(d * w + x == n + (x - old(self).col));
                }
            }
            assert(self.partial() =~= wanted);
        }
    }

    /// Closes the current row, which must be full, and starts the next.
    pub(crate) fn end_row(&mut self)
        requires
            old(self).wf(),
            old(self).rows().len() < old(self).height(),
            old(self).partial().len() == old(self).width(),
        ensures
            final(self).wf(),
            final(self).width() == old(self).width(),
            final(self).height() == old(self).height(),
            final(self).rows() == old(self).rows().push(old(self).partial()),
            final(self).partial() == Seq::<Rgb>::empty(),
    {
        proof {
            assert((self.done + 1) * self.width == self.done * self.width + self.width)
                by (nonlinear_arith);
        }
        self.done = self.done + 1;
        self.col = 0;
        proof {
            assert(self.rows() =~~= old(self).rows().push(old(self).partial()));
            assert(self.partial() =~= Seq::<Rgb>::empty());
        }
    }

    /// The finished grid, once every row is written.
    pub(crate) fn finish(self) -> (grid: PixelGrid)
        requires
            self.wf(),
            self.rows().len() == self.height(),
        ensures
            grid@ == (Grid { width: self.width(), rows: self.rows() }),
    {
        proof {
            assert(self.done * self.width == self.width * self.height) by (nonlinear_arith)
                requires
                    self.done == self.height,
            ;
        }
        let made = PixelGrid::from_raw(self.width, self.height, self.data);
        made.unwrap()
    }
}

} // verus!

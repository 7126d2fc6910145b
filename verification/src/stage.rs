//! One shift of the whole grid, computed band by band.

use vstd::prelude::*;
use rayon::iter::{IntoParallelRefIterator, ParallelIterator};
use crate::builder::GridBuilder;
use crate::grid::{Grid, PixelGrid, Rgb};
use crate::partition::{lemma_tiles_within, partition, tiles, Span};
use crate::rotation::{
    lemma_columns_shifted_shape,
    lemma_rotated_is_tail_then_head,
    lemma_rows_shifted_shape,
    lemma_shift_amount_bound,
    line_shift,
    rotated,
    shift_amount,
    step_around,
};

verus! {

/// Computes the rows of `span` of the row shift of `src`.
///
/// Only `src` is read, and the band is a buffer of its own, so bands of different
/// spans can be computed side by side.
pub fn shift_rows_band(src: &PixelGrid, increment: i64, span: Span) -> (band: PixelGrid)
    requires
        span.start <= span.end <= src@.height(),
    ensures
        band@ == src@.rows_shifted(increment as int).rows_band(span.start as int, span.end as int),
{
    let w: u32 = src.width();
    let ghost target = src@.rows_shifted(increment as int);
    let mut b = GridBuilder::new(w, span.end - span.start);
    let mut y: u32 = span.start;
    proof {
        src.lemma_view_wf();
        lemma_rows_shifted_shape(src@, increment as int);
        assert(b.rows() =~= target.rows.subrange(span.start as int, y as int));
    }
    while y < span.end
        invariant
            span.start <= y <= span.end <= src@.height(),
            w == src@.width,
            src@.wf(),
            target == src@.rows_shifted(increment as int),
            target.height() == src@.height(),
            forall|r: int|
                0 <= r < src@.height() ==> #[trigger] target.rows[r] == rotated(
                    src@.rows[r],
                    shift_amount(r, increment as int, w as int),
                ),
            b.wf(),
            b.width() == w,
            b.height() == span.end - span.start,
            b.partial() == Seq::<Rgb>::empty(),
            b.rows() == target.rows.subrange(span.start as int, y as int),
        decreases span.end - y,
    {
        let ghost row = src@.rows[y as int];
        if w > 0 {
            let d: u32 = line_shift(y, increment, w);
            b.copy_run(src, y, d, w);
            b.copy_run(src, y, 0, d);
            proof {
                lemma_rotated_is_tail_then_head(row, d as int);
                assert(b.partial() =~= row.subrange(d as int, w as int) + row.subrange(
                    0,
                    d as int,
                ));
            }
        } else {
            assert(b.partial() =~= target.rows[y as int]);
        }
        assert(b.partial() == target.rows[y as int]);
        b.end_row();
        y = y + 1;
        proof {
            assert(b.rows() =~= target.rows.subrange(span.start as int, y as int));
        }
    }
    b.finish()
}

/// The shift amounts of the columns of `span`, in order.
fn column_shifts(span: Span, increment: i64, height: u32) -> (shifts: Vec<u32>)
    requires
        span.start <= span.end,
        height > 0,
    ensures
        shifts.len() == span.end - span.start,
        forall|i: int|
            0 <= i < shifts.len() ==> #[trigger] shifts[i] == shift_amount(
                span.start + i,
                increment as int,
                height as int,
            ),
{
    let mut shifts: Vec<u32> = Vec::new();
    let mut x: u32 = span.start;
    while x < span.end
        invariant
            span.start <= x <= span.end,
            height > 0,
            shifts.len() == x - span.start,
            forall|i: int|
                0 <= i < shifts.len() ==> #[trigger] shifts[i] == shift_amount(
                    span.start + i,
                    increment as int,
                    height as int,
                ),
        decreases span.end - x,
    {
        shifts.push(line_shift(x, increment, height));
        x = x + 1;
    }
    shifts
}

/// Computes the columns of `span` of the column shift of `src`.
///
/// Only `src` is read, and the band is a buffer of its own, so bands of different
/// spans can be computed side by side.
pub fn shift_columns_band(src: &PixelGrid, increment: i64, span: Span) -> (band: PixelGrid)
    requires
        span.start <= span.end <= src@.width,
    ensures
        band@ == src@.columns_shifted(increment as int).columns_band(
            span.start as int,
            span.end as int,
        ),
{
    let h: u32 = src.height();
    let ghost target = src@.columns_shifted(increment as int);
    let ghost wanted = target.columns_band(span.start as int, span.end as int);
    let mut b = GridBuilder::new(span.end - span.start, h);
    proof {
        src.lemma_view_wf();
    }
    if h > 0 {
        let shifts = column_shifts(span, increment, h);
        let mut y: u32 = 0;
        proof {
            assert(b.rows() =~= wanted.rows.take(y as int));
        }
        while y < h
            invariant
                y <= h,
                h > 0,
                h == src@.height(),
                span.start <= span.end <= src@.width,
                src@.wf(),
                target == src@.columns_shifted(increment as int),
                wanted == target.columns_band(span.start as int, span.end as int),
                shifts.len() == span.end - span.start,
                forall|i: int|
                    0 <= i < shifts.len() ==> #[trigger] shifts[i] == shift_amount(
                        span.start + i,
                        increment as int,
                        h as int,
                    ),
                b.wf(),
                b.width() == span.end - span.start,
                b.height() == h,
                b.partial() == Seq::<Rgb>::empty(),
                b.rows() == wanted.rows.take(y as int),
            decreases h - y,
        {
            let mut x: u32 = span.start;
            proof {
                assert(b.partial() =~= target.rows[y as int].subrange(
                    span.start as int,
                    x as int,
                ));
            }
            while x < span.end
                invariant
                    y < h,
                    h == src@.height(),
                    span.start <= x <= span.end <= src@.width,
                    src@.wf(),
                    target == src@.columns_shifted(increment as int),
                    shifts.len() == span.end - span.start,
                    forall|i: int|
                        0 <= i < shifts.len() ==> #[trigger] shifts[i] == shift_amount(
                            span.start + i,
                            increment as int,
                            h as int,
                        ),
                    b.wf(),
                    b.width() == span.end - span.start,
                    b.height() == h,
                    b.rows() == wanted.rows.take(y as int),
                    wanted.rows.len() == h,
                    b.partial() == target.rows[y as int].subrange(span.start as int, x as int),
                decreases span.end - x,
            {
                let d: u32 = shifts[(x - span.start) as usize];
                proof {
                    lemma_shift_amount_bound(x as int, increment as int, h as int);
                }
                let from: u32 = step_around(y, d, h);
                b.push(src.get_pixel(x, from));
                x = x + 1;
                proof {
                    assert(b.partial() =~= target.rows[y as int].subrange(
                        span.start as int,
                        x as int,
                    ));
                }
            }
            assert(b.partial() == wanted.rows[y as int]);
            b.end_row();
            y = y + 1;
            proof {
                assert(b.rows() =~= wanted.rows.take(y as int));
            }
        }
        proof {
            assert(b.rows() =~= wanted.rows);
        }
    } else {
        assert(b.rows() =~= wanted.rows);
    }
    b.finish()
}

/// Where band `i` begins on the axis; for `i` past the last band, where the axis ends.
spec fn boundary(spans: Seq<Span>, len: int, i: int) -> int {
    if i < spans.len() {
        spans[i].start as int
    } else {
        len
    }
}

/// Puts row bands one below the other.
fn stack_bands(
    bands: &Vec<PixelGrid>,
    spans: &Vec<Span>,
    width: u32,
    height: u32,
    Ghost(target): Ghost<Grid>,
) -> (out: PixelGrid)
    requires
        target.wf(),
        target.width == width,
        target.height() == height,
        tiles(spans@, height as int),
        bands.len() == spans.len(),
        forall|i: int|
            0 <= i < bands.len() ==> (#[trigger] bands[i])@ == target.rows_band(
                spans[i].start as int,
                spans[i].end as int,
            ),
    ensures
        out@ == target,
{
    let mut b = GridBuilder::new(width, height);
    let mut i: usize = 0;
    proof {
        assert(b.rows() =~= target.rows.take(boundary(spans@, height as int, 0)));
    }
    while i < bands.len()
        invariant
            i <= bands.len(),
            target.wf(),
            target.width == width,
            target.height() == height,
            tiles(spans@, height as int),
            bands.len() == spans.len(),
            forall|i: int|
                0 <= i < bands.len() ==> (#[trigger] bands[i])@ == target.rows_band(
                    spans[i].start as int,
                    spans[i].end as int,
                ),
            b.wf(),
            b.width() == width,
            b.height() == height,
            b.partial() == Seq::<Rgb>::empty(),
            b.rows() == target.rows.take(boundary(spans@, height as int, i as int)),
        decreases bands.len() - i,
    {
        let band = &bands[i];
        let ghost first = spans[i as int].start as int;
        let ghost last = spans[i as int].end as int;
        proof {
            lemma_tiles_within(spans@, height as int, i as int);
            assert(bands[i as int]@ == target.rows_band(first, last));
        }
        let rows: u32 = band.height();
        let mut j: u32 = 0;
        while j < rows
            invariant
                j <= rows,
                rows == last - first,
                0 <= first <= last <= height,
                target.wf(),
                target.width == width,
                target.height() == height,
                band@ == target.rows_band(first, last),
                b.wf(),
                b.width() == width,
                b.height() == height,
                b.partial() == Seq::<Rgb>::empty(),
                b.rows() == target.rows.take(first + j),
            decreases rows - j,
        {
            b.copy_run(band, j, 0, width);
            proof {
                assert(band@.rows[j as int] == target.rows[first + j]);
                assert(b.partial() =~= target.rows[first + j]);
            }
            b.end_row();
            j = j + 1;
            proof {
                assert(b.rows() =~= target.rows.take(first + j));
            }
        }
        i = i + 1;
    }
    proof {
        assert(b.rows() =~= target.rows);
    }
    b.finish()
}

/// Puts column bands side by side.
fn join_bands(
    bands: &Vec<PixelGrid>,
    spans: &Vec<Span>,
    width: u32,
    height: u32,
    Ghost(target): Ghost<Grid>,
) -> (out: PixelGrid)
    requires
        target.wf(),
        target.width == width,
        target.height() == height,
        tiles(spans@, width as int),
        bands.len() == spans.len(),
        forall|i: int|
            0 <= i < bands.len() ==> (#[trigger] bands[i])@ == target.columns_band(
                spans[i].start as int,
                spans[i].end as int,
            ),
    ensures
        out@ == target,
{
    let mut b = GridBuilder::new(width, height);
    let mut y: u32 = 0;
    proof {
        assert(b.rows() =~= target.rows.take(0));
    }
    while y < height
        invariant
            y <= height,
            target.wf(),
            target.width == width,
            target.height() == height,
            tiles(spans@, width as int),
            bands.len() == spans.len(),
            forall|i: int|
                0 <= i < bands.len() ==> (#[trigger] bands[i])@ == target.columns_band(
                    spans[i].start as int,
                    spans[i].end as int,
                ),
            b.wf(),
            b.width() == width,
            b.height() == height,
            b.partial() == Seq::<Rgb>::empty(),
            b.rows() == target.rows.take(y as int),
        decreases height - y,
    {
        let ghost row = target.rows[y as int];
        let mut i: usize = 0;
        proof {
            assert(b.partial() =~= row.take(boundary(spans@, width as int, 0)));
        }
        while i < bands.len()
            invariant
                i <= bands.len(),
                y < height,
                target.wf(),
                target.width == width,
                target.height() == height,
                row == target.rows[y as int],
                tiles(spans@, width as int),
                bands.len() == spans.len(),
                forall|i: int|
                    0 <= i < bands.len() ==> (#[trigger] bands[i])@ == target.columns_band(
                        spans[i].start as int,
                        spans[i].end as int,
                    ),
                b.wf(),
                b.width() == width,
                b.height() == height,
                b.rows() == target.rows.take(y as int),
                b.partial() == row.take(boundary(spans@, width as int, i as int)),
            decreases bands.len() - i,
        {
            let band = &bands[i];
            let ghost first = spans[i as int].start as int;
            let ghost last = spans[i as int].end as int;
            proof {
                lemma_tiles_within(spans@, width as int, i as int);
                assert(bands[i as int]@ == target.columns_band(first, last));
                assert(band@.rows[y as int] == row.subrange(first, last));
            }
            b.copy_run(band, y, 0, band.width());
            i = i + 1;
            proof {
                assert(b.partial() =~= row.take(boundary(spans@, width as int, i as int)));
            }
        }
        proof {
            assert(b.partial() =~= row);
        }
        b.end_row();
        y = y + 1;
        proof {
            assert(b.rows() =~= target.rows.take(y as int));
        }
    }
    proof {
        assert(b.rows() =~= target.rows);
    }
    b.finish()
}

/// Runs `work` on every span and returns the bands in the order of the spans.
///
/// The calls are made by rayon's `par_iter`, `copied`, `map` and `collect` on its
/// pool of worker threads, and the call returns when all of them are done. Taken on
/// trust: rayon calls `work` on the given spans only, once for each, and `collect`
/// puts each result at the place of the span it was computed from.
#[verifier::external_body]
fn run_on_spans<F>(spans: &Vec<Span>, work: F) -> (bands: Vec<PixelGrid>) where
    F: Fn(Span) -> PixelGrid + Sync + Send,

    requires
        forall|i: int| 0 <= i < spans.len() ==> call_requires(work, (#[trigger] spans[i],)),
    ensures
        bands.len() == spans.len(),
        forall|i: int|
            0 <= i < spans.len() ==> call_ensures(work, (spans[i],), #[trigger] bands[i]),
{
    spans.par_iter().copied().map(work).collect()
}

/// Shifts every row of `grid`, the work divided among `workers` workers.
///
/// The result does not depend on the number of workers, nor on the order in which
/// they finish: each computes a band of rows of its own, and the bands are put
/// together when all are done.
pub fn shift_rows(grid: &PixelGrid, increment: i64, workers: u32) -> (out: PixelGrid)
    requires
        workers >= 1,
    ensures
        out@ == grid@.rows_shifted(increment as int),
        out@.width == grid@.width,
        out@.height() == grid@.height(),
{
    let ghost target = grid@.rows_shifted(increment as int);
    proof {
        grid.lemma_view_wf();
        lemma_rows_shifted_shape(grid@, increment as int);
    }
    let spans = partition(grid.height(), workers);
    proof {
        assert forall|i: int| 0 <= i < spans.len() implies (#[trigger] spans[i]).start
            <= spans[i].end <= grid@.height() by {
            lemma_tiles_within(spans@, grid@.height() as int, i);
        }
    }
    let work = |span: Span| -> (band: PixelGrid)
        requires
            span.start <= span.end <= grid@.height(),
        ensures
            band@ == grid@.rows_shifted(increment as int).rows_band(
                span.start as int,
                span.end as int,
            ),
        { shift_rows_band(grid, increment, span) };
    let bands = run_on_spans(&spans, work);
    stack_bands(&bands, &spans, grid.width(), grid.height(), Ghost(target))
}

/// Shifts every column of `grid`, the work divided among `workers` workers.
///
/// The result does not depend on the number of workers, nor on the order in which
/// they finish: each computes a band of columns of its own, and the bands are put
/// together when all are done.
pub fn shift_columns(grid: &PixelGrid, increment: i64, workers: u32) -> (out: PixelGrid)
    requires
        workers >= 1,
    ensures
        out@ == grid@.columns_shifted(increment as int),
        out@.width == grid@.width,
        out@.height() == grid@.height(),
{
    let ghost target = grid@.columns_shifted(increment as int);
    proof {
        grid.lemma_view_wf();
        lemma_columns_shifted_shape(grid@, increment as int);
    }
    let spans = partition(grid.width(), workers);
    proof {
        assert forall|i: int| 0 <= i < spans.len() implies (#[trigger] spans[i]).start
            <= spans[i].end <= grid@.width by {
            lemma_tiles_within(spans@, grid@.width as int, i);
        }
    }
    let work = |span: Span| -> (band: PixelGrid)
        requires
            span.start <= span.end <= grid@.width,
        ensures
            band@ == grid@.columns_shifted(increment as int).columns_band(
                span.start as int,
                span.end as int,
            ),
        { shift_columns_band(grid, increment, span) };
    let bands = run_on_spans(&spans, work);
    join_bands(&bands, &spans, grid.width(), grid.height(), Ghost(target))
}

} // verus!

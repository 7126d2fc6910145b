//! The two directions: four shifts to scramble, the same four undone to restore.

use vstd::prelude::*;
use crate::grid::{Grid, PixelGrid};
use crate::rotation::{
    lemma_columns_shift_undone,
    lemma_columns_shifted_shape,
    lemma_rows_shift_undone,
    lemma_rows_shifted_shape,
};
use crate::stage::{shift_columns, shift_rows};

verus! {

/// The increment under which images are encrypted and decrypted.
pub const INCREMENT: i32 = 32;

/// Which way the pipeline runs.
#[derive(Clone, Copy, PartialEq, Eq, Debug, Structural)]
pub enum Direction {
    /// Scramble: rows, columns, rows, columns.
    Forward,
    /// Restore: columns, rows, columns, rows, each under the opposite increment.
    Inverse,
}

impl Grid {
    /// Rows, columns, rows, columns, all under `k`.
    pub open spec fn forward(self, k: int) -> Grid {
        self.rows_shifted(k).columns_shifted(k).rows_shifted(k).columns_shifted(k)
    }

    /// Columns, rows, columns, rows, all under `-k`: the shifts of `forward` undone,
    /// the last one first.
    pub open spec fn inverse(self, k: int) -> Grid {
        self.columns_shifted(-k).rows_shifted(-k).columns_shifted(-k).rows_shifted(-k)
    }

    /// The pipeline run in the given direction.
    pub open spec fn run(self, direction: Direction, k: int) -> Grid {
        match direction {
            Direction::Forward => self.forward(k),
            Direction::Inverse => self.inverse(k),
        }
    }
}

/// Neither direction changes the shape of a raster.
pub proof fn lemma_pipeline_shape(g: Grid, direction: Direction, k: int)
    requires
        g.wf(),
    ensures
        g.run(direction, k).wf(),
        g.run(direction, k).width == g.width,
        g.run(direction, k).height() == g.height(),
{
    match direction {
        Direction::Forward => {
            let a = g.rows_shifted(k);
            let b = a.columns_shifted(k);
            let c = b.rows_shifted(k);
            lemma_rows_shifted_shape(g, k);
            lemma_columns_shifted_shape(a, k);
            lemma_rows_shifted_shape(b, k);
            lemma_columns_shifted_shape(c, k);
        },
        Direction::Inverse => {
            let a = g.columns_shifted(-k);
            let b = a.rows_shifted(-k);
            let c = b.columns_shifted(-k);
            lemma_columns_shifted_shape(g, -k);
            lemma_rows_shifted_shape(a, -k);
            lemma_columns_shifted_shape(b, -k);
            lemma_rows_shifted_shape(c, -k);
        },
    }
}

/// What was scrambled under `k` is restored under `k`, pixel for pixel, whatever the
/// raster and whatever the increment.
pub proof fn lemma_round_trip(g: Grid, k: int)
    requires
        g.wf(),
    ensures
        g.forward(k).inverse(k) == g,
{
    let a = g.rows_shifted(k);
    let b = a.columns_shifted(k);
    let c = b.rows_shifted(k);
    lemma_rows_shifted_shape(g, k);
    lemma_columns_shifted_shape(a, k);
    lemma_rows_shifted_shape(b, k);
    lemma_columns_shift_undone(c, k);
    lemma_rows_shift_undone(b, k);
    lemma_columns_shift_undone(a, k);
    lemma_rows_shift_undone(g, k);
}

/// What was restored under `k` is scrambled back under `k`: the two directions undo
/// each other in either order.
pub proof fn lemma_round_trip_reversed(g: Grid, k: int)
    requires
        g.wf(),
    ensures
        g.inverse(k).forward(k) == g,
{
    let a = g.columns_shifted(-k);
    let b = a.rows_shifted(-k);
    let c = b.columns_shifted(-k);
    lemma_columns_shifted_shape(g, -k);
    lemma_rows_shifted_shape(a, -k);
    lemma_columns_shifted_shape(b, -k);
    assert(-(-k) == k);
    lemma_rows_shift_undone(c, -k);
    lemma_columns_shift_undone(b, -k);
    lemma_rows_shift_undone(a, -k);
    lemma_columns_shift_undone(g, -k);
}

/// Scrambles `grid` under increment `k`.
///
/// The result is fixed by the grid and the increment: the number of workers decides
/// how the work is divided, and nothing else.
pub fn forward(grid: &PixelGrid, k: i32, workers: u32) -> (out: PixelGrid)
    requires
        workers >= 1,
    ensures
        out@ == grid@.forward(k as int),
        out@.width == grid@.width,
        out@.height() == grid@.height(),
{
    let step: i64 = k as i64;
    let first = shift_rows(grid, step, workers);
    let second = shift_columns(&first, step, workers);
    let third = shift_rows(&second, step, workers);
    shift_columns(&third, step, workers)
}

/// Restores what `forward` scrambled under the same `k`.
///
/// The result is fixed by the grid and the increment: the number of workers decides
/// how the work is divided, and nothing else.
pub fn inverse(grid: &PixelGrid, k: i32, workers: u32) -> (out: PixelGrid)
    requires
        workers >= 1,
    ensures
        out@ == grid@.inverse(k as int),
        out@.width == grid@.width,
        out@.height() == grid@.height(),
{
    let step: i64 = -(k as i64);
    let first = shift_columns(grid, step, workers);
    let second = shift_rows(&first, step, workers);
    let third = shift_columns(&second, step, workers);
    shift_rows(&third, step, workers)
}

/// Runs the pipeline in the given direction.
pub fn run(direction: Direction, grid: &PixelGrid, k: i32, workers: u32) -> (out: PixelGrid)
    requires
        workers >= 1,
    ensures
        out@ == grid@.run(direction, k as int),
        out@.width == grid@.width,
        out@.height() == grid@.height(),
{
    match direction {
        Direction::Forward => forward(grid, k, workers),
        Direction::Inverse => inverse(grid, k, workers),
    }
}

/// Encrypts an image: the forward direction under [`INCREMENT`].
pub fn encrypt_image(grid: &PixelGrid, workers: u32) -> (out: PixelGrid)
    requires
        workers >= 1,
    ensures
        out@ == grid@.forward(INCREMENT as int),
        out@.width == grid@.width,
        out@.height() == grid@.height(),
{
    forward(grid, INCREMENT, workers)
}

/// Decrypts an image: the inverse direction under [`INCREMENT`].
pub fn decrypt_image(grid: &PixelGrid, workers: u32) -> (out: PixelGrid)
    requires
        workers >= 1,
    ensures
        out@ == grid@.inverse(INCREMENT as int),
        out@.width == grid@.width,
        out@.height() == grid@.height(),
{
    inverse(grid, INCREMENT, workers)
}

} // verus!

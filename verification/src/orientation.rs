//! Setting an image upright, as its orientation tag asks.

use vstd::prelude::*;
use crate::grid::{Grid, PixelGrid};

verus! {

impl Grid {
    /// The raster turned a quarter clockwise: the left column, read upwards, becomes
    /// the top row.
    pub open spec fn quarter_turned(self) -> Grid {
        Grid {
            width: self.rows.len(),
            rows: Seq::new(
                self.width,
                |y: int| Seq::new(self.rows.len(), |x: int| self.rows[self.rows.len() - 1 - x][y]),
            ),
        }
    }
}

/// Whether an orientation tag asks for a quarter turn. Only the value `6` does; a
/// missing tag counts as `1`, which asks for nothing.
pub open spec fn asks_quarter_turn(tag: Option<String>) -> bool {
    match tag {
        Some(text) => text@ == "6"@,
        None => false,
    }
}

/// A quarter turn keeps a raster rectangular and swaps its sides.
pub proof fn lemma_quarter_turned_shape(g: Grid)
    requires
        g.wf(),
    ensures
        g.quarter_turned().wf(),
        g.quarter_turned().width == g.height(),
        g.quarter_turned().height() == g.width,
{
}

/// Turns a grid a quarter clockwise.
///
/// The turn is made by `image::imageops::rotate90`, on an `image::RgbImage` over the
/// grid's buffer. Taken on trust: the image that it returns is as wide as the
/// grid is high and as high as the grid is wide, its buffer holds exactly that many
/// pixels, and the pixel of column `x` and row `y` of the grid stands in column
/// `height - 1 - y` and row `x` of it.
#[verifier::external_body]
fn quarter_turn(grid: PixelGrid) -> (out: PixelGrid)
    ensures
        out@ == grid@.quarter_turned(),
{
    let source = image::RgbImage::from_raw(grid.width(), grid.height(), grid.into_raw()).unwrap();
    let turned = image::imageops::rotate90(&source);
    PixelGrid::from_raw(turned.width(), turned.height(), turned.into_raw()).unwrap()
}

/// Decides whether an orientation tag asks for a quarter turn.
pub fn needs_quarter_turn(tag: &Option<String>) -> (turn: bool)
    ensures
        turn == asks_quarter_turn(*tag),
{
    match tag {
        Some(text) => *text == "6".to_owned(),
        None => false,
    }
}

/// Sets a decoded image upright: a quarter turn where the tag asks for one, and
/// nothing otherwise.
pub fn orient(grid: PixelGrid, tag: &Option<String>) -> (out: PixelGrid)
    ensures
        out@ == (if asks_quarter_turn(*tag) {
            grid@.quarter_turned()
        } else {
            grid@
        }),
{
    if needs_quarter_turn(tag) {
        quarter_turn(grid)
    } else {
        grid
    }
}

} // verus!

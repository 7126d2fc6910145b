//! A reversible pixel permutation for raster images.
//!
//! An image is scrambled by rotating every row and every column by an amount that
//! depends on the line's position, and restored by undoing the same rotations in the
//! opposite order. The permutation has no key: it hides nothing from anyone who knows
//! the scheme.
//!
//! - [`grid`]: rasters, as a mathematical model and as a byte buffer.
//! - [`rotation`]: what a shift does to a raster, and the laws that make it reversible.
//! - [`partition`]: how an axis is divided among workers.
//! - [`stage`]: one shift of a whole grid, computed band by band on a pool of workers.
//! - [`pipeline`]: the two directions, four shifts each.
//! - [`orientation`]: setting a decoded image upright.
//! - [`workers`]: the worker count of this machine.
//! - [`usage`]: reading the command line.

mod builder;
pub mod grid;
pub mod orientation;
pub mod partition;
pub mod pipeline;
pub mod rotation;
pub mod stage;
pub mod usage;
pub mod workers;

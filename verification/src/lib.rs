//! A constrained wave-function-collapse engine for square tile grids.
//!
//! Every cell of a fixed-size grid is assigned one of a small set of
//! terrain categories so that adjacency constraints between categories
//! are respected.  Cells start with a set of admissible categories; the
//! most constrained cell is repeatedly chosen and resolved to a single
//! category, and each resolution narrows the admissible categories of
//! its eight neighbors according to a static rule table.

use vstd::prelude::*;

pub mod collapse;
pub mod entropy;
pub mod grid;
mod rng;
pub mod rules;
pub mod terrain;

pub use grid::Cell;
pub use grid::Grid;
pub use rules::Direction;
pub use rules::Rule;
pub use terrain::Terrain;
pub use terrain::TerrainSet;

verus! {

/// Grid dimensions of the reference configuration.  Row-major
/// addressing with index `row * size + column` asks for a square
/// grid, so the two are equal.
pub const ROWS: usize = 30;

/// See `ROWS`.
pub const COLUMNS: usize = 30;

} // verus!

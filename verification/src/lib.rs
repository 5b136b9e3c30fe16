//! A dense, fixed-size two-dimensional cellular automaton in the style of
//! Conway's Game of Life, with a third cell state that marks a cell as having
//! died in the most recent generation. The grid advances one generation per
//! call and counts neighbors either toroidally (wrapping at the edges) or
//! bounded (out-of-range neighbors are skipped).

pub mod cell;
mod entropy;
pub mod universe;

pub use cell::Cell;
pub use cell::Density;
pub use universe::Universe;

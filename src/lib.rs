//! A Connect-Four engine: a bit-packed board, four-in-a-row detection,
//! a static evaluation heuristic and a fixed-depth minimax search.
//!
//! The board keeps one occupancy mask per side over a 7×6 grid, seven bits
//! per column (six rows and a guard bit), and the fill level of each column.
//! Every operation is stated over these masks and heights; the search is
//! stated against a recursive `minimax` specification.
pub mod bits;
pub mod board;
pub mod evaluation;
pub mod search;

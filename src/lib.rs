//! Board model of a match-three puzzle: a grid of colored tiles, a
//! two-click selection protocol, the adjacency rule for swaps and the
//! detection and refill of runs of three or more equal colors.

mod board;
mod geometry;
pub mod laws;
mod random;
mod resolver;
mod tile;

pub use board::{Board, BoardError, BoardModel};
pub use geometry::{adjacent, cell_at, Cell, Size};
pub use random::random_colors;
pub use resolver::{cell_in_run, matched_cells, MAX_RESOLVE_PASSES};
pub use tile::{Color, Tile};

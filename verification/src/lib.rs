//! Logical engine for a grid-based mine-clearing puzzle.
//!
//! The engine generates a rectangular field with a configured number of
//! mines, computes per-cell adjacency counts, and manages the reveal/flag
//! state of every cell, including the cascading reveal of connected safe
//! regions and win/loss detection.  It performs no I/O and owns no
//! presentation concepts: a host renders the board from the data this
//! crate exposes and feeds coordinate-targeted actions back in.

pub mod board;
pub mod coordinates;
pub mod counting;
pub mod rng;
pub mod tile;
pub mod tile_map;

pub use board::Board;
pub use board::CellState;
pub use board::Outcome;
pub use coordinates::Coordinates;
pub use tile::Tile;
pub use tile_map::GameError;
pub use tile_map::TileMap;

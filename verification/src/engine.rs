//! The simulation engine: board configuration, cell state, signed 2D
//! coordinates, and the double-buffered world state with its precomputed
//! neighbor table.

pub mod cell;
pub mod config;
pub mod coords;
pub mod state;

pub use cell::Cell;
pub use config::Config;
pub use coords::Coords;
pub use state::{BoardIterator, State};

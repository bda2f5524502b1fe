//! Conway's Game of Life on a toroidal grid, with a frame rasterizer and a
//! base64 codec for streaming frames to a terminal.
//!
//! The simulation keeps two equally sized cell buffers and a precomputed
//! neighbor table; every step applies the B3/S23 rules to the current buffer,
//! writes the outcome into the scratch buffer, and swaps the two. Every
//! coordinate transform wraps with a Euclidean modulus, so any pair of signed
//! coordinates addresses some cell.

pub mod base64;
pub mod cell;
pub mod coords;
pub mod engine;
pub mod grid;
pub mod render;
pub mod state;
pub mod ui;
pub mod world;

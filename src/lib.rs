//! Conway's Game of Life on a fixed board whose outer ring stays as it is,
//! with the screen and world mapping used to pan, zoom and paint it.
pub mod cell;
mod chance;
pub mod common;
pub mod gof;
pub mod laws;
pub mod viewport;

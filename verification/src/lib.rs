//! Conway's Game of Life on a bounded grid with hard edges, together with the
//! drawing of a generation into an RGBA8 frame buffer.
//!
//! Every function is verified against a contract stated over mathematical
//! models: a grid is a sequence of rows of booleans, a frame buffer is a
//! sequence of bytes.

pub mod color;
pub mod coords;
pub mod draw;
pub mod grid;
pub mod render;
pub mod sim;

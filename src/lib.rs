//! Conway's Game of Life on a toroidal grid, drawn through a text framebuffer.

pub mod framebuffer;
pub mod life;
pub mod laws;

pub use framebuffer::{Color, Framebuffer};
pub use life::GameOfLife;

//! A region of the character grid as pixels.

pub mod cell_shapes;
pub mod font;
pub mod surface;
pub mod tables;

//! The thin client: what it makes of the terminal it runs in, of what is typed there, and of
//! what the server sends.

pub mod attach;
pub mod control;
pub mod drop_path;
pub mod error;
pub mod geometry;
pub mod graphics_stream;
pub mod protocol;
pub mod scenes;
pub mod screen;
pub mod session;
pub mod startup;

//! The rules of a terminal workspace: what a thin client does, what it draws through the Kitty
//! graphics protocol, how its configuration reads, and what it learns from a screen.

pub mod base64_codec;
pub mod client;
pub mod config;
pub mod detect;
pub mod events;
pub mod forge;
pub mod gpu;
pub mod grid_raster;
pub mod handoff_metadata;
pub mod host_terminal_identity;
pub mod kitty_graphics;
pub mod layout;
pub mod table;
pub mod text;

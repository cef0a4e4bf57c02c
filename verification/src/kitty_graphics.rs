//! Images on the host terminal: which ones are there, where they go, and the Kitty
//! graphics escapes that bring the terminal from one state to the next.

pub mod cell_size;
pub mod clip;
pub mod encode;
pub mod host;
pub mod identity;
pub mod laws;
pub mod model;
pub mod reading;
pub mod scene;
pub mod steps;
pub mod terminal;
pub mod update;

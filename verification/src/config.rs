//! The configuration: what the sidebar's tables say, and where a complaint about a file points.

pub mod animation;
pub mod document;
pub mod laws;
pub mod layouts;
pub mod locate;
pub mod rows;
pub mod sidebar;
pub mod tokens;
pub mod value;
pub mod view;
pub mod writing;

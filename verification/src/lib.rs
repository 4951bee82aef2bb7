//! Procedural rendering of "nexryai" benchmark cells and result images.
//!
//! Images are held as [`canvas::Canvas`] values (row-major RGBA pixels), whose
//! view is a map from pixel coordinates to colours.
pub mod canvas;
pub mod layout;
pub mod paint;
pub mod cell;
pub mod raw;
pub mod compose;
pub mod text;
pub mod bench;

pub use cell::{render_cell, render_one};
pub use compose::{render_many, render_overlay, render_result};
pub use text::{generate_overlay, generate_stamp};

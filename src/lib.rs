//! Escape-time rendering of a Julia set into a packed RGB pixel buffer.
//!
//! The library holds the integer side of the renderer: the escape loop, the
//! three-band palette, the pixel buffer and the pixel sweep. Plane arithmetic
//! is handed in by the caller as closures.
pub mod color;
pub mod escape;
pub mod generator;
pub mod image;

pub use color::{color_of, Rgb, MAX_ITERATIONS};
pub use escape::escape_count;
pub use generator::generate;
pub use image::Image;

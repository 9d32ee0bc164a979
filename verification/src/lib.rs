//! Composition of one monochrome frame for a 128×64 pixel display, and its
//! packing into the trimmed bit stream that carries the frame.
//!
//! A [`screen::ScreenBuffer`] is drawn on in place (text, images in two
//! encodings, rectangles and single pixels) and then handed to
//! [`wire::serialize`]. Every drawing operation states the grid it leaves
//! behind as a function of the grid it found.

pub mod bits;
pub mod font;
pub mod frame;
pub mod image;
pub mod screen;
pub mod text;
pub mod wire;

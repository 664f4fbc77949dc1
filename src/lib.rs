//! Mandelbrot set rendering: text parsing of the command-line values, the
//! escape-time colour palette, and the filling of an RGB pixel buffer.

pub mod color;
pub mod parse;
pub mod render;

//! A Mandelbrot-set renderer: a viewport of the complex plane is mapped onto a
//! pixel grid, every pixel is classified by escape-time iteration, and the
//! iteration counts are turned into smoothly graded colour.
//!
//! Numbers are IEEE-754 single-precision values held as their 32-bit patterns.
pub mod float;

pub mod utils;
pub mod mandelbrot;
pub mod pixelmapper;
pub mod grid;
pub mod control;

//! A verified Mandelbrot-set rasterizer.
//!
//! The engine maps pixel indices of an output grid to points of the complex
//! plane, computes for each point how quickly the iteration `z <- z*z + c`
//! escapes, balances the escape counts through a histogram, and colors each
//! pixel from the resulting palette.  All plane coordinates are fixed-point
//! integers (see [`fx`]), so every stage of the pipeline is plain integer
//! arithmetic with a proved contract.

pub mod fx;
pub mod viewport;
pub mod escape;
pub mod histogram;
pub mod color;
pub mod engine;

//! The verified core of a Mandelbrot set viewer.
//!
//! - [`color`]: the palette, from an escape count to a colour, evaluated exactly.
//! - [`raster`]: a raster filled from the escape counts of its pixels, and its display form.
//! - [`budget`]: the controller that retunes the iteration budget after every render.
//! - [`natural`]: natural numbers of any size, which the palette compares powers with.
//!
//! Escape counts themselves are floating-point work and are handed in by the caller.

pub mod budget;
pub mod color;
pub mod natural;
pub mod raster;

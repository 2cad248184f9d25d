//! Escape-time rasterization of the Mandelbrot set.
//!
//! The plane is modelled with exact signed fixed-point coordinates
//! (`fixed::Fx`, scale `fixed::SCALE`), so every arithmetic step of the
//! coordinate mapping and of the escape iteration has a precise integer
//! meaning that the contracts state in full.

pub mod fixed;
pub mod escape;
pub mod mapper;
pub mod render;

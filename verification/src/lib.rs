//! Escape-time evaluation core for a Mandelbrot renderer.
//!
//! The library verifies the discrete heart of the renderer: the sampling
//! grid, the escape-count state machine, the eight-lane recycling scheduler
//! that drives vectorised evaluation (alone or with several workers sharing
//! one point queue), and the two colour policies (histogram rank and
//! smooth-log palette lookup). The floating-point orbit arithmetic itself
//! is performed by the caller, which reports each step's "still within
//! radius 2" outcome; every decision taken on those outcomes is verified
//! here.

pub mod colour;
pub mod escape;
pub mod evaluate;
pub mod grid;
pub mod histogram;
pub mod queue;
pub mod vector;

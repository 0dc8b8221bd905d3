//! Implicit-curve rendering on a raster canvas, and the tile workers that
//! stream frames to a compositor.
//!
//! The curve `f(x, y) = 0` of a scalar field is found pixel by pixel: a
//! pixel is marked where the field changes sign on a lattice of sample
//! points inside the pixel's cell. [`grid`] places pixels and sample points
//! on the Cartesian grid, [`oracle`] is the sign-change test, [`canvas`]
//! holds the colours, [`engine`] runs the coarse scan and the gated rescan
//! and [`deepen`] the pass that works outward from what is marked.
//!
//! [`frame`], [`pattern`] and [`worker`] are the frame pipeline: a worker
//! owns one strip of the picture, paints it a scanline at a time and hands
//! out copies of it on request.
pub mod canvas;
pub mod deepen;
pub mod engine;
pub mod frame;
pub mod grid;
pub mod oracle;
pub mod pattern;
pub mod worker;

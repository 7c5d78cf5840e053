//! A software rasterizer in exact integer arithmetic.
//!
//! A mesh of triangles is projected to the screen, filled by a barycentric
//! test, resolved against a depth buffer, textured and shaded by one
//! directional light.  A line drawer stands beside that pipeline.
//!
//! Coordinates are fixed-point numbers: an integer `n` stands for the real
//! number `n / math::UNIT`.  Barycentric weights are exact fractions.  Where a
//! result has to be rounded, the contract says how, as an integer formula.
//!
//! Images are held by the `image` crate; `buffer` is the only module that
//! touches it, and the only one whose contracts are believed, not proved.

pub mod arith;
pub mod buffer;
pub mod line;
pub mod math;
pub mod matrix;
pub mod mesh;
pub mod render;
pub mod shading;
pub mod utility;

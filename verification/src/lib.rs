//! Core of a software 3D rasterizer, restricted to the parts whose behaviour
//! is integer-valued: colors, the pixel/depth canvas with its wraparound
//! addressing and depth test, PPM byte serialization, the integer line walk
//! used by the drawing routines, the index topology of the solid
//! tessellators, and the scene-script symbol table.
//!
//! Geometry is produced and consumed by an unverified front end that works in
//! floating point; it hands this crate plain integer values (pixel
//! coordinates, depth keys, sample indices) and takes plain values back.

pub mod canvas;
pub mod colors;
pub mod line;
pub mod mdl;
pub mod ppm;
pub mod tessellate;
pub mod utils;

pub use canvas::PPMImg;
pub use colors::RGB;

//! Synthesis of an animated kaleidoscope: a six-fold motif built from
//! triangular wedges, packed into a repeating block and stamped across a
//! raster surface, with every step stated and proved over exact integer
//! models.

pub mod error;
pub mod geometry;
pub mod transform;
pub mod canvas;
pub mod motif;
pub mod grid;
pub mod tiling;
pub mod pixels;
pub mod kaleidoscope;
pub mod pattern;
pub mod driver;

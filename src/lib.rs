//! Turns a two-colour raster image into a relief mesh for CNC engraving.
//!
//! The pipeline runs forward: a luminance+alpha buffer becomes a binary
//! [`mask::Mask`], the mask becomes a [`height::HeightField`], the height field
//! becomes a sequence of [`mesh::Triangle`]s, and those become ASCII STL text.
//! [`relief::relief_stl`] runs the whole conversion.
//! All arithmetic is exact integer arithmetic: neighbourhood weights are fixed
//! point, and heights and coordinates along the vertical axis are counted in
//! thousandths of a unit.

pub mod mask;
pub mod height;
pub mod mesh;
pub mod stl;
pub mod relief;

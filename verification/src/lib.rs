//! Toolpath and mesh adaptation for printing on non-planar reference surfaces.
//!
//! The library prepares a part for a three-axis machine whose build surface is
//! not flat: a triangulated surface mesh is densified and displaced vertically
//! by a parametric height field (warping), and a toolpath program generated
//! against the warped geometry is rewritten against the flat reference by the
//! inverse height field, with long moves subdivided and extrusion compensated
//! by the Jacobian determinant of the forward map (dewarping).
//!
//! All lengths are held in fixed-point form: a coordinate is a signed 64-bit
//! count of `10^-5` millimetres, the same resolution as the five-decimal
//! numbers the toolpath text carries. Every contract in the crate is exact
//! over that representation.

pub mod command;
pub mod dewarp;
pub mod fixed;
pub mod parser;
pub mod printer;
pub mod sine;
pub mod tessellation;
pub mod transform;
pub mod utils;
pub mod vector;
pub mod warp;

//! Exact, integer core of a voxel renderer's geometry pipeline.
//!
//! The crate meshes 16x16x16 voxel chunks at five levels of detail, keeps the
//! concatenated scene geometry with its per-element bookkeeping, and runs the
//! per-frame pass that marks triangles dead and bins the live ones into
//! screen-space cells.  Everything here works on integers and booleans: world
//! geometry lives on a half-voxel lattice, and whatever depends on the camera
//! reaches the pass as already decided per-element facts.

pub mod bins;
pub mod chunk;
pub mod double_buffer;
pub mod error;
pub mod faces;
pub mod frame;
pub mod geometry;
pub mod lod;
pub mod meshing;
pub mod region;

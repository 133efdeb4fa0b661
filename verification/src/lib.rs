//! Compiles a sparse, human-authored voxel description into dense
//! GPU-renderable geometry.
//!
//! The pipeline has three verified stages:
//!
//! 1. a text parser ([`voxel_data::txt`]) that turns a line-oriented voxel
//!    description into a list of colored integer positions,
//! 2. a grid builder ([`voxel_data::VoxelData::from_records`]) that shifts the
//!    sparse positions into a zero-based dense grid sized to their bounding
//!    box, and
//! 3. a mesh compiler ([`voxel_data::VoxelData::verts`]) that emits one unit
//!    cube (8 vertices, 12 triangles) and one atlas texel per visible voxel.
//!
//! Vertex positions and texture coordinates are kept in exact integer and
//! rational form (see [`mesh::Vertex`]); turning them into floating-point
//! buffers for a graphics device is left to unverified callers.

pub mod mesh;
pub mod voxel_data;

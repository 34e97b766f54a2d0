//! A versioned binary interchange format for triangle-mesh geometry.
//!
//! The codec has two operations: decoding a byte buffer into an ordered
//! sequence of logical meshes (with transparent upgrade of the legacy wire
//! layout), and encoding a sequence of logical meshes into bytes of the
//! current wire revision.
//!
//! Vertex attributes (positions, normals, texture coordinates) travel as the
//! raw bit patterns of 32-bit IEEE 754 floats, held in `u32` values. The
//! codec never interprets them numerically, so this representation is exact:
//! callers convert with `f32::to_bits` / `f32::from_bits` at the boundary.

pub mod codec;
pub mod laws;
pub mod mesh;
pub mod wire;

pub use codec::ThreeD;
pub use mesh::CPUMesh;
pub use mesh::ThreeDError;

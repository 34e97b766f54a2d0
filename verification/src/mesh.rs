//! The logical mesh: the caller-facing representation of decoded geometry,
//! and the error taxonomy of the codec.

use vstd::prelude::*;

verus! {

/// One logical mesh as callers work with it.
///
/// `positions` is always present (flattened 3-component vertex positions);
/// the other attribute arrays are optional. On the wire an absent array is
/// stored as an empty sequence, so the format cannot distinguish an
/// explicitly empty array from an absent one; decoding always maps empty to
/// absent.
///
/// All attribute arrays hold the bit patterns of 32-bit IEEE 754 floats
/// (`indices` holds plain unsigned integers). The codec copies these values
/// byte for byte and never does arithmetic on them.
#[derive(Clone, Debug, PartialEq)]
pub struct CPUMesh {
    /// Triangle indices; `None` means a non-indexed mesh.
    pub indices: Option<Vec<u32>>,
    /// Flattened vertex positions, three values per vertex (float bits).
    pub positions: Vec<u32>,
    /// Flattened normal vectors, three values per vertex (float bits).
    pub normals: Option<Vec<u32>>,
    /// Flattened texture coordinates, two values per vertex (float bits).
    pub uvs: Option<Vec<u32>>,
}

/// The mathematical model of a logical mesh.
pub ghost struct MeshView {
    pub indices: Option<Seq<u32>>,
    pub positions: Seq<u32>,
    pub normals: Option<Seq<u32>>,
    pub uvs: Option<Seq<u32>>,
}

impl View for CPUMesh {
    type V = MeshView;

    open spec fn view(&self) -> MeshView {
        MeshView {
            indices: match self.indices {
                Some(v) => Some(v@),
                None => None,
            },
            positions: self.positions@,
            normals: match self.normals {
                Some(v) => Some(v@),
                None => None,
            },
            uvs: match self.uvs {
                Some(v) => Some(v@),
                None => None,
            },
        }
    }
}

/// The model of a whole decoded result: one view per mesh, in order.
pub open spec fn meshes_view(ms: Seq<CPUMesh>) -> Seq<MeshView> {
    ms.map_values(|m: CPUMesh| m@)
}

/// Everything that can go wrong in the codec.
#[derive(Clone, Copy, Debug, PartialEq, Eq, Structural)]
pub enum ThreeDError {
    /// The bytes match neither wire layout's shape (truncated or garbled).
    StructuralDecodeError,
    /// A structurally valid record holds zero usable submeshes.
    EmptyMeshData,
    /// A structurally valid, non-empty record whose magic number is wrong.
    CorruptMagicNumber,
    /// The underlying byte serialization failed during encode.
    EncodeFailure,
}

impl ThreeDError {
    /// The short description that `message` returns for each error kind.
    pub open spec fn message_spec(&self) -> Seq<char> {
        match self {
            ThreeDError::StructuralDecodeError => "Malformed mesh file!"@,
            ThreeDError::EmptyMeshData => "No mesh data in file!"@,
            ThreeDError::CorruptMagicNumber => "Corrupt file!"@,
            ThreeDError::EncodeFailure => "Serialization failed!"@,
        }
    }

    /// A short description of the error, for callers that log or display it.
    pub fn message(&self) -> (r: &'static str)
        ensures
            r@ == self.message_spec(),
    {
        match self {
            ThreeDError::StructuralDecodeError => "Malformed mesh file!",
            ThreeDError::EmptyMeshData => "No mesh data in file!",
            ThreeDError::CorruptMagicNumber => "Corrupt file!",
            ThreeDError::EncodeFailure => "Serialization failed!",
        }
    }
}

} // verus!

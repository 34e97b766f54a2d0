//! End-to-end tests of the mesh codec: round trips, legacy upgrade, and
//! each error condition, against handcrafted wire bytes.

use threed::{CPUMesh, ThreeD, ThreeDError};

/// Append the little-endian bytes of a 32-bit word.
fn put_u32(out: &mut Vec<u8>, x: u32) {
    out.extend_from_slice(&x.to_le_bytes());
}

/// Append a length-prefixed sequence of 32-bit words.
fn put_seq_u32(out: &mut Vec<u8>, words: &[u32]) {
    out.extend_from_slice(&(words.len() as u64).to_le_bytes());
    for &w in words {
        put_u32(out, w);
    }
}

/// Append a length-prefixed sequence of 32-bit floats, as their bits.
fn put_seq_f32(out: &mut Vec<u8>, floats: &[f32]) {
    out.extend_from_slice(&(floats.len() as u64).to_le_bytes());
    for &f in floats {
        put_u32(out, f.to_bits());
    }
}

fn bits(floats: &[f32]) -> Vec<u32> {
    floats.iter().map(|f| f.to_bits()).collect()
}

#[test]
fn round_trip_single_full_mesh() {
    let mesh = CPUMesh {
        indices: Some(vec![0, 1, 2]),
        positions: bits(&[0.0, 0.0, 0.0, 1.0, 0.0, 0.0, 0.0, 1.0, 0.0]),
        normals: Some(bits(&[0.0, 0.0, 1.0, 0.0, 0.0, 1.0, 0.0, 0.0, 1.0])),
        uvs: Some(bits(&[0.0, 0.0, 1.0, 0.0, 0.0, 1.0])),
    };
    let meshes = vec![mesh.clone()];
    let bytes = ThreeD::serialize(&meshes).unwrap();
    let decoded = ThreeD::parse(&bytes).unwrap();
    assert_eq!(decoded, vec![mesh]);
}

#[test]
fn round_trip_two_submeshes_preserves_optional_pattern() {
    let mesh_a = CPUMesh {
        indices: Some(vec![0, 1, 2, 2, 1, 3]),
        positions: bits(&[0.0, 0.0, 0.0, 1.0, 0.0, 0.0, 0.0, 1.0, 0.0, 1.0, 1.0, 0.0]),
        normals: Some(bits(&[0.0, 0.0, 1.0, 0.0, 0.0, 1.0, 0.0, 0.0, 1.0, 0.0, 0.0, 1.0])),
        uvs: None,
    };
    let mesh_b = CPUMesh {
        indices: None,
        positions: bits(&[0.0, 0.0, 0.0, 1.0, 0.0, 0.0, 0.0, 1.0, 0.0]),
        normals: None,
        uvs: Some(bits(&[0.0, 0.0, 1.0, 0.0, 0.0, 1.0])),
    };
    let meshes = vec![mesh_a.clone(), mesh_b.clone()];
    let bytes = ThreeD::serialize(&meshes).unwrap();
    let decoded = ThreeD::parse(&bytes).unwrap();
    assert_eq!(decoded.len(), 2);
    assert_eq!(decoded[0], mesh_a);
    assert_eq!(decoded[1], mesh_b);
}

#[test]
fn serialize_exact_bytes() {
    let mesh = CPUMesh {
        indices: Some(vec![0, 1, 2]),
        positions: bits(&[1.0, 2.0, 3.0]),
        normals: None,
        uvs: None,
    };
    let bytes = ThreeD::serialize(&vec![mesh]).unwrap();
    let mut expected: Vec<u8> = vec![61, 2];
    expected.extend_from_slice(&1u64.to_le_bytes()); // one submesh
    put_seq_u32(&mut expected, &[0, 1, 2]);
    put_seq_f32(&mut expected, &[1.0, 2.0, 3.0]);
    expected.extend_from_slice(&0u64.to_le_bytes()); // no normals
    expected.extend_from_slice(&0u64.to_le_bytes()); // no uvs
    assert_eq!(bytes, expected);
}

#[test]
fn magic_number_rejected() {
    // A well-shaped current-revision record with one submesh but the
    // wrong sentinel byte.
    let mut bytes: Vec<u8> = vec![60, 2];
    bytes.extend_from_slice(&1u64.to_le_bytes());
    put_seq_u32(&mut bytes, &[0, 1, 2]);
    put_seq_f32(&mut bytes, &[0.0, 0.0, 0.0]);
    put_seq_f32(&mut bytes, &[]);
    put_seq_f32(&mut bytes, &[]);
    assert_eq!(ThreeD::parse(&bytes), Err(ThreeDError::CorruptMagicNumber));
}

#[test]
fn empty_data_rejected() {
    // A current-revision record with zero submeshes; its ten bytes are too
    // short to match the legacy layout.
    let mut bytes: Vec<u8> = vec![61, 2];
    bytes.extend_from_slice(&0u64.to_le_bytes());
    assert_eq!(ThreeD::parse(&bytes), Err(ThreeDError::EmptyMeshData));
}

#[test]
fn legacy_record_upgraded() {
    let mut bytes: Vec<u8> = vec![61, 1];
    put_seq_u32(&mut bytes, &[0, 1, 2]);
    put_seq_f32(&mut bytes, &[0.0, 0.0, 0.0, 1.0, 0.0, 0.0, 0.0, 1.0, 0.0]);
    put_seq_f32(&mut bytes, &[]);
    let decoded = ThreeD::parse(&bytes).unwrap();
    assert_eq!(decoded.len(), 1);
    assert_eq!(decoded[0].indices, Some(vec![0, 1, 2]));
    assert_eq!(
        decoded[0].positions,
        bits(&[0.0, 0.0, 0.0, 1.0, 0.0, 0.0, 0.0, 1.0, 0.0])
    );
    assert_eq!(decoded[0].normals, None);
    assert_eq!(decoded[0].uvs, None);
}

#[test]
fn legacy_record_with_wrong_magic_rejected() {
    // The magic number is validated after shape resolution, on the legacy
    // path too.
    let mut bytes: Vec<u8> = vec![7, 1];
    put_seq_u32(&mut bytes, &[0, 1, 2]);
    put_seq_f32(&mut bytes, &[0.0, 0.0, 0.0]);
    put_seq_f32(&mut bytes, &[]);
    assert_eq!(ThreeD::parse(&bytes), Err(ThreeDError::CorruptMagicNumber));
}

#[test]
fn garbage_rejected_as_structural() {
    assert_eq!(
        ThreeD::parse(&[1, 2, 3]),
        Err(ThreeDError::StructuralDecodeError)
    );
    assert_eq!(ThreeD::parse(&[]), Err(ThreeDError::StructuralDecodeError));
}

#[test]
fn truncated_record_rejected_as_structural() {
    // A current-revision header advertising more submeshes than the buffer
    // holds, whose bytes do not match the legacy layout either.
    let mut bytes: Vec<u8> = vec![61, 2];
    bytes.extend_from_slice(&5u64.to_le_bytes());
    bytes.push(0);
    assert_eq!(ThreeD::parse(&bytes), Err(ThreeDError::StructuralDecodeError));
}

#[test]
fn empty_indices_indistinguishable_from_absent() {
    let with_empty = CPUMesh {
        indices: Some(vec![]),
        positions: bits(&[0.0, 0.0, 0.0]),
        normals: None,
        uvs: None,
    };
    let with_absent = CPUMesh {
        indices: None,
        positions: bits(&[0.0, 0.0, 0.0]),
        normals: None,
        uvs: None,
    };
    let bytes_empty = ThreeD::serialize(&vec![with_empty]).unwrap();
    let bytes_absent = ThreeD::serialize(&vec![with_absent]).unwrap();
    assert_eq!(bytes_empty, bytes_absent);
    let decoded = ThreeD::parse(&bytes_empty).unwrap();
    assert_eq!(decoded[0].indices, None);
}

#[test]
fn encoding_no_meshes_fails_decode_as_empty() {
    let no_meshes: Vec<CPUMesh> = vec![];
    let bytes = ThreeD::serialize(&no_meshes).unwrap();
    assert_eq!(bytes, {
        let mut expected: Vec<u8> = vec![61, 2];
        expected.extend_from_slice(&0u64.to_le_bytes());
        expected
    });
    assert_eq!(ThreeD::parse(&bytes), Err(ThreeDError::EmptyMeshData));
}

#[test]
fn trailing_bytes_accepted() {
    let mesh = CPUMesh {
        indices: None,
        positions: bits(&[0.0, 0.0, 0.0]),
        normals: None,
        uvs: None,
    };
    let mut bytes = ThreeD::serialize(&vec![mesh.clone()]).unwrap();
    bytes.extend_from_slice(&[0xde, 0xad, 0xbe, 0xef]);
    let decoded = ThreeD::parse(&bytes).unwrap();
    assert_eq!(decoded, vec![mesh]);
}

#[test]
fn empty_legacy_record_decodes_to_one_empty_mesh() {
    // All three legacy sequences empty: the current-revision attempt sees
    // zero submeshes, the legacy attempt matches, and positions are
    // carried through even when empty.
    let mut bytes: Vec<u8> = vec![61, 1];
    put_seq_u32(&mut bytes, &[]);
    put_seq_f32(&mut bytes, &[]);
    put_seq_f32(&mut bytes, &[]);
    let decoded = ThreeD::parse(&bytes).unwrap();
    assert_eq!(decoded.len(), 1);
    assert_eq!(decoded[0].indices, None);
    assert_eq!(decoded[0].positions, Vec::<u32>::new());
    assert_eq!(decoded[0].normals, None);
    assert_eq!(decoded[0].uvs, None);
}

#[test]
fn error_messages() {
    assert_eq!(
        ThreeDError::EmptyMeshData.message(),
        "No mesh data in file!"
    );
    assert_eq!(ThreeDError::CorruptMagicNumber.message(), "Corrupt file!");
    assert_eq!(
        ThreeDError::StructuralDecodeError.message(),
        "Malformed mesh file!"
    );
    assert_eq!(
        ThreeDError::EncodeFailure.message(),
        "Serialization failed!"
    );
}

// ---------------------------------------------------------------------------
// Interoperability with the general-purpose binary serializer
// ---------------------------------------------------------------------------

/// The current-revision record as nested tuples, shaped exactly like the
/// wire layout: serde encodes a tuple as its fields in order, with no
/// extra framing, so these bytes are what any serde-derived struct with
/// the same fields would produce.
type WireTuple = (u8, u8, Vec<(Vec<u32>, Vec<f32>, Vec<f32>, Vec<f32>)>);

#[test]
fn serialize_matches_general_purpose_serializer() {
    let mesh = CPUMesh {
        indices: Some(vec![0, 1, 2]),
        positions: bits(&[0.5, -1.5, 2.25, 0.0, 3.75, -0.125]),
        normals: Some(bits(&[0.0, 0.0, 1.0])),
        uvs: None,
    };
    let library_bytes = ThreeD::serialize(&vec![mesh]).unwrap();

    let record: WireTuple = (
        61,
        2,
        vec![(
            vec![0, 1, 2],
            vec![0.5, -1.5, 2.25, 0.0, 3.75, -0.125],
            vec![0.0, 0.0, 1.0],
            vec![],
        )],
    );
    let reference_bytes = bincode::serialize(&record).unwrap();
    assert_eq!(library_bytes, reference_bytes);
}

#[test]
fn parse_accepts_general_purpose_serializer_output() {
    let record: WireTuple = (
        61,
        2,
        vec![
            (vec![2, 1, 0], vec![1.0, 2.0, 3.0], vec![], vec![0.25, 0.75]),
            (vec![], vec![-4.0, 5.0, -6.0], vec![0.0, 1.0, 0.0], vec![]),
        ],
    );
    let bytes = bincode::serialize(&record).unwrap();
    let decoded = ThreeD::parse(&bytes).unwrap();
    assert_eq!(decoded.len(), 2);
    assert_eq!(decoded[0].indices, Some(vec![2, 1, 0]));
    assert_eq!(decoded[0].positions, bits(&[1.0, 2.0, 3.0]));
    assert_eq!(decoded[0].normals, None);
    assert_eq!(decoded[0].uvs, Some(bits(&[0.25, 0.75])));
    assert_eq!(decoded[1].indices, None);
    assert_eq!(decoded[1].positions, bits(&[-4.0, 5.0, -6.0]));
    assert_eq!(decoded[1].normals, Some(bits(&[0.0, 1.0, 0.0])));
    assert_eq!(decoded[1].uvs, None);
}

#[test]
fn legacy_bytes_from_general_purpose_serializer_upgraded() {
    // The legacy layout as a tuple: no submesh nesting, no texture
    // coordinates.
    let record: (u8, u8, Vec<u32>, Vec<f32>, Vec<f32>) = (
        61,
        1,
        vec![0, 1, 2],
        vec![0.0, 0.0, 0.0, 1.0, 0.0, 0.0, 0.0, 1.0, 0.0],
        vec![],
    );
    let bytes = bincode::serialize(&record).unwrap();
    let decoded = ThreeD::parse(&bytes).unwrap();
    assert_eq!(decoded.len(), 1);
    assert_eq!(decoded[0].indices, Some(vec![0, 1, 2]));
    assert_eq!(
        decoded[0].positions,
        bits(&[0.0, 0.0, 0.0, 1.0, 0.0, 0.0, 0.0, 1.0, 0.0])
    );
    assert_eq!(decoded[0].normals, None);
    assert_eq!(decoded[0].uvs, None);
}

#[test]
fn general_purpose_deserializer_accepts_serialize_output() {
    let mesh = CPUMesh {
        indices: None,
        positions: bits(&[9.5, -8.25, 7.0]),
        normals: None,
        uvs: Some(bits(&[0.5, 0.5])),
    };
    let bytes = ThreeD::serialize(&vec![mesh]).unwrap();
    let record: WireTuple = bincode::deserialize(&bytes).unwrap();
    assert_eq!(record.0, 61);
    assert_eq!(record.1, 2);
    assert_eq!(record.2.len(), 1);
    assert_eq!(record.2[0].0, Vec::<u32>::new());
    assert_eq!(record.2[0].1, vec![9.5, -8.25, 7.0]);
    assert_eq!(record.2[0].2, Vec::<f32>::new());
    assert_eq!(record.2[0].3, vec![0.5, 0.5]);
}

#[test]
fn truncated_second_submesh_rejected_as_structural() {
    // The header promises two submeshes but the bytes end after the
    // first; the buffer does not match the legacy layout either.
    let mut bytes: Vec<u8> = vec![61, 2];
    bytes.extend_from_slice(&2u64.to_le_bytes());
    put_seq_u32(&mut bytes, &[0, 1, 2]);
    put_seq_f32(&mut bytes, &[0.0, 0.0, 0.0]);
    put_seq_f32(&mut bytes, &[]);
    put_seq_f32(&mut bytes, &[]);
    assert_eq!(ThreeD::parse(&bytes), Err(ThreeDError::StructuralDecodeError));
}

#[test]
fn absurd_submesh_count_rejected_as_structural() {
    let mut bytes: Vec<u8> = vec![61, 2];
    bytes.extend_from_slice(&u64::MAX.to_le_bytes());
    assert_eq!(ThreeD::parse(&bytes), Err(ThreeDError::StructuralDecodeError));
}

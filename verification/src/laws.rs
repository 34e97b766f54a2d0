//! Properties that relate the codec's operations: what parsing gives back
//! on encoded bytes, and the laws that follow for whole decode/encode
//! round trips.

use crate::mesh::{MeshView, ThreeDError};
use crate::wire::{
    decode_spec, enc_mesh, enc_seq_u32, enc_submesh, enc_submeshes, enc_words, encode_spec,
    le_bytes_u32, le_bytes_u64, lemma_enc_words_len, lemma_word32_le_round, lemma_word64_le_round,
    logical_of_sub, parse_current, parse_legacy, parse_submesh, parse_submeshes, parse_vec,
    parse_words, sub_fits, sub_of_mesh, upgrade_v1, wire_fits, wire_of_meshes,
    word32_at, word64_at, WireMesh, WireMeshV1, WireSubMesh, MAGIC_NUMBER,
};
use vstd::prelude::*;

verus! {

/// What one decoded mesh looks like after an encode/decode round trip:
/// present-but-empty optional arrays collapse to absent ones (the format
/// stores absence as emptiness), and everything else is unchanged.
pub open spec fn normalize_mesh(m: MeshView) -> MeshView {
    logical_of_sub(sub_of_mesh(m))
}

/// Whether a logical mesh survives a round trip verbatim: its attribute
/// arrays fit the wire's 64-bit counts and no present optional array is
/// empty.
pub open spec fn mesh_faithful(m: MeshView) -> bool {
    &&& sub_fits(sub_of_mesh(m))
    &&& (m.indices matches Some(v) ==> v.len() > 0)
    &&& (m.normals matches Some(v) ==> v.len() > 0)
    &&& (m.uvs matches Some(v) ==> v.len() > 0)
}

/// Parsing `n` words out of the encoding of `n` words gives them back.
proof fn lemma_parse_words_of_enc(v: Seq<u32>, b: Seq<u8>, i: int)
    requires
        0 <= i,
        i + 4 * v.len() <= b.len(),
        b.subrange(i, i + 4 * v.len()) == enc_words(v),
    ensures
        parse_words(b, i, v.len()) == v,
    decreases v.len(),
{
    lemma_enc_words_len(v);
    if v.len() > 0 {
        let head = le_bytes_u32(v[0]);
        let tail = v.drop_first();
        lemma_enc_words_len(tail);
        assert forall|j: int| 0 <= j < 4 implies b[i + j] == head[j] by {
            assert(b.subrange(i, i + 4 * v.len())[j] == b[i + j]);
            assert(enc_words(v)[j] == head[j]);
        }
        lemma_word32_le_round(v[0]);
        assert(word32_at(b, i) == v[0]);
        assert(b.subrange(i + 4, i + 4 + 4 * tail.len()) =~= enc_words(tail)) by {
            assert forall|j: int| 0 <= j < 4 * tail.len() implies b[i + 4 + j] == enc_words(tail)[j]
            by {
                assert(b.subrange(i, i + 4 * v.len())[4 + j] == b[i + 4 + j]);
                assert(enc_words(v)[4 + j] == enc_words(tail)[j]);
            }
        }
        lemma_parse_words_of_enc(tail, b, i + 4);
        assert(parse_words(b, i, v.len()) =~= v);
    } else {
        assert(parse_words(b, i, v.len()) =~= v);
    }
}

/// Parsing a length-prefixed word sequence out of its own encoding gives
/// it back, together with the offset just past it.
proof fn lemma_parse_vec_of_enc(v: Seq<u32>, b: Seq<u8>, i: int)
    requires
        v.len() <= u64::MAX,
        0 <= i,
        i + 8 + 4 * v.len() <= b.len(),
        b.subrange(i, i + 8 + 4 * v.len()) == enc_seq_u32(v),
    ensures
        parse_vec(b, i) == Some((v, i + 8 + 4 * v.len())),
{
    lemma_enc_words_len(v);
    let lenbytes = le_bytes_u64(v.len() as u64);
    assert forall|j: int| 0 <= j < 8 implies b[i + j] == lenbytes[j] by {
        assert(b.subrange(i, i + 8 + 4 * v.len())[j] == b[i + j]);
        assert(enc_seq_u32(v)[j] == lenbytes[j]);
    }
    lemma_word64_le_round(v.len() as u64);
    assert(word64_at(b, i) == v.len() as u64);
    assert(b.subrange(i + 8, i + 8 + 4 * v.len()) =~= enc_words(v)) by {
        assert forall|j: int| 0 <= j < 4 * v.len() implies b[i + 8 + j] == enc_words(v)[j] by {
            assert(b.subrange(i, i + 8 + 4 * v.len())[8 + j] == b[i + 8 + j]);
            assert(enc_seq_u32(v)[8 + j] == enc_words(v)[j]);
        }
    }
    lemma_parse_words_of_enc(v, b, i + 8);
}

/// The number of bytes of one length-prefixed word sequence.
spec fn enc_seq_len(v: Seq<u32>) -> int {
    8 + 4 * (v.len() as int)
}

/// `enc_seq_u32` occupies exactly `enc_seq_len` bytes.
proof fn lemma_enc_seq_len(v: Seq<u32>)
    ensures
        enc_seq_u32(v).len() == enc_seq_len(v),
{
    lemma_enc_words_len(v);
}

/// Parsing a submesh record out of its own encoding gives it back,
/// together with the offset just past it.
proof fn lemma_parse_submesh_of_enc(s: WireSubMesh, b: Seq<u8>, i: int)
    requires
        sub_fits(s),
        0 <= i,
        i + enc_submesh(s).len() <= b.len(),
        b.subrange(i, i + enc_submesh(s).len()) == enc_submesh(s),
    ensures
        parse_submesh(b, i) == Some((s, i + enc_submesh(s).len())),
{
    let e1 = enc_seq_u32(s.indices);
    let e2 = enc_seq_u32(s.positions);
    let e3 = enc_seq_u32(s.normals);
    let e4 = enc_seq_u32(s.uvs);
    lemma_enc_seq_len(s.indices);
    lemma_enc_seq_len(s.positions);
    lemma_enc_seq_len(s.normals);
    lemma_enc_seq_len(s.uvs);
    let l1 = enc_seq_len(s.indices);
    let l2 = enc_seq_len(s.positions);
    let l3 = enc_seq_len(s.normals);
    let l4 = enc_seq_len(s.uvs);
    let whole = enc_submesh(s);
    assert(whole.len() == l1 + l2 + l3 + l4);
    assert forall|j: int| 0 <= j < whole.len() implies b[i + j] == whole[j] by {
        assert(b.subrange(i, i + whole.len())[j] == b[i + j]);
    }
    assert(b.subrange(i, i + l1) =~= e1) by {
        assert forall|j: int| 0 <= j < l1 implies b[i + j] == e1[j] by {
            assert(whole[j] == e1[j]);
        }
    }
    lemma_parse_vec_of_enc(s.indices, b, i);
    assert(b.subrange(i + l1, i + l1 + l2) =~= e2) by {
        assert forall|j: int| 0 <= j < l2 implies b[i + l1 + j] == e2[j] by {
            assert(whole[l1 + j] == e2[j]);
        }
    }
    lemma_parse_vec_of_enc(s.positions, b, i + l1);
    assert(b.subrange(i + l1 + l2, i + l1 + l2 + l3) =~= e3) by {
        assert forall|j: int| 0 <= j < l3 implies b[i + l1 + l2 + j] == e3[j] by {
            assert(whole[l1 + l2 + j] == e3[j]);
        }
    }
    lemma_parse_vec_of_enc(s.normals, b, i + l1 + l2);
    assert(b.subrange(i + l1 + l2 + l3, i + l1 + l2 + l3 + l4) =~= e4) by {
        assert forall|j: int| 0 <= j < l4 implies b[i + l1 + l2 + l3 + j] == e4[j] by {
            assert(whole[l1 + l2 + l3 + j] == e4[j]);
        }
    }
    lemma_parse_vec_of_enc(s.uvs, b, i + l1 + l2 + l3);
}

/// Parsing a run of submesh records out of its own encoding gives the
/// records back, together with the offset just past them.
proof fn lemma_parse_submeshes_of_enc(subs: Seq<WireSubMesh>, b: Seq<u8>, i: int)
    requires
        forall|k: int| 0 <= k < subs.len() ==> sub_fits(#[trigger] subs[k]),
        0 <= i,
        i + enc_submeshes(subs).len() <= b.len(),
        b.subrange(i, i + enc_submeshes(subs).len()) == enc_submeshes(subs),
    ensures
        parse_submeshes(b, i, subs.len()) == Some((subs, i + enc_submeshes(subs).len())),
    decreases subs.len(),
{
    if subs.len() == 0 {
        assert(parse_submeshes(b, i, 0) == Some((Seq::<WireSubMesh>::empty(), i)));
        assert(subs =~= Seq::<WireSubMesh>::empty());
    } else {
        let head = subs[0];
        let tail = subs.drop_first();
        let e1 = enc_submesh(head);
        let e2 = enc_submeshes(tail);
        let whole = enc_submeshes(subs);
        assert(whole == e1 + e2);
        assert forall|j: int| 0 <= j < whole.len() implies b[i + j] == whole[j] by {
            assert(b.subrange(i, i + whole.len())[j] == b[i + j]);
        }
        assert(b.subrange(i, i + e1.len()) =~= e1) by {
            assert forall|j: int| 0 <= j < e1.len() implies b[i + j] == e1[j] by {
                assert(whole[j] == e1[j]);
            }
        }
        lemma_parse_submesh_of_enc(head, b, i);
        assert(b.subrange(i + e1.len(), i + e1.len() + e2.len()) =~= e2) by {
            assert forall|j: int| 0 <= j < e2.len() implies b[i + e1.len() + j] == e2[j] by {
                assert(whole[e1.len() + j] == e2[j]);
            }
        }
        lemma_parse_submeshes_of_enc(tail, b, i + e1.len());
        assert(seq![head] + tail =~= subs);
    }
}

/// Parsing the encoding of a current-revision record gives the record
/// back.
pub proof fn lemma_parse_current_of_enc(w: WireMesh)
    requires
        wire_fits(w),
    ensures
        parse_current(enc_mesh(w)) == Some(w),
{
    let b = enc_mesh(w);
    let header = seq![w.magic_number, w.version] + le_bytes_u64(w.submeshes.len() as u64);
    let body = enc_submeshes(w.submeshes);
    assert(b == header + body);
    assert(header.len() == 10);
    assert(b.len() >= 10);
    assert(b[0] == w.magic_number);
    assert(b[1] == w.version);
    let lenbytes = le_bytes_u64(w.submeshes.len() as u64);
    lemma_word64_le_round(w.submeshes.len() as u64);
    assert forall|j: int| 0 <= j < 8 implies b[2 + j] == lenbytes[j] by {
        assert(header[2 + j] == lenbytes[j]);
    }
    assert(word64_at(b, 2) == w.submeshes.len() as u64);
    assert(b.subrange(10, 10 + body.len() as int) =~= body) by {
        assert forall|j: int| 0 <= j < body.len() implies b[10 + j] == body[j] by {
            assert(b[10 + j] == (header + body)[10 + j]);
        }
    }
    lemma_parse_submeshes_of_enc(w.submeshes, b, 10);
    assert(word64_at(b, 2) as nat == w.submeshes.len());
}

/// Law: decoding an encoding succeeds and returns the input meshes up to
/// the format's one documented loss — a present-but-empty optional array
/// comes back absent. Holds for every non-empty mesh sequence whose
/// lengths fit the wire's 64-bit counts.
pub proof fn lemma_encode_decode(ms: Seq<MeshView>)
    requires
        ms.len() > 0,
        ms.len() <= u64::MAX,
        forall|i: int| 0 <= i < ms.len() ==> sub_fits(sub_of_mesh(#[trigger] ms[i])),
    ensures
        decode_spec(encode_spec(ms)) == Ok::<Seq<MeshView>, ThreeDError>(
            ms.map_values(|m: MeshView| normalize_mesh(m)),
        ),
{
    let w = wire_of_meshes(ms);
    assert(w.submeshes.len() == ms.len());
    assert(wire_fits(w)) by {
        assert forall|i: int| 0 <= i < w.submeshes.len() implies sub_fits(
            #[trigger] w.submeshes[i],
        ) by {
            assert(w.submeshes[i] == sub_of_mesh(ms[i]));
        }
    }
    lemma_parse_current_of_enc(w);
    assert(w.magic_number == MAGIC_NUMBER);
    let converted = w.submeshes.map_values(|s: WireSubMesh| logical_of_sub(s));
    let normalized = ms.map_values(|m: MeshView| normalize_mesh(m));
    assert forall|i: int| 0 <= i < ms.len() implies #[trigger] converted[i] == normalized[i] by {
        assert(w.submeshes[i] == sub_of_mesh(ms[i]));
    }
    assert(converted =~= normalized);
}

/// Law: the round trip is the identity on faithful meshes — every mesh
/// sequence with non-empty positions in which no present optional array
/// is empty decodes from its own encoding verbatim: absent fields come
/// back absent and present ones compare equal element-wise.
pub proof fn lemma_round_trip(ms: Seq<MeshView>)
    requires
        ms.len() > 0,
        ms.len() <= u64::MAX,
        forall|i: int| 0 <= i < ms.len() ==> mesh_faithful(#[trigger] ms[i]),
        forall|i: int| 0 <= i < ms.len() ==> (#[trigger] ms[i]).positions.len() > 0,
    ensures
        decode_spec(encode_spec(ms)) == Ok::<Seq<MeshView>, ThreeDError>(ms),
{
    lemma_encode_decode(ms);
    let normalized = ms.map_values(|m: MeshView| normalize_mesh(m));
    assert forall|i: int| 0 <= i < ms.len() implies #[trigger] normalized[i] == ms[i] by {
        let m = ms[i];
        assert(mesh_faithful(m));
        assert(normalize_mesh(m).indices == m.indices);
        assert(normalize_mesh(m).normals == m.normals);
        assert(normalize_mesh(m).uvs == m.uvs);
    }
    assert(normalized =~= ms);
}

/// Law: a well-shaped current-revision record with a non-empty submesh
/// list and the wrong magic number never decodes successfully; it always
/// fails as corrupt.
pub proof fn lemma_magic_number_rejection(b: Seq<u8>, w: WireMesh)
    requires
        parse_current(b) == Some(w),
        w.submeshes.len() > 0,
        w.magic_number != MAGIC_NUMBER,
    ensures
        decode_spec(b) == Err::<Seq<MeshView>, ThreeDError>(ThreeDError::CorruptMagicNumber),
{
}

/// Law: a well-shaped current-revision record with zero submeshes, whose
/// bytes do not also match the legacy layout, fails decode as empty mesh
/// data.
pub proof fn lemma_empty_data_rejection(b: Seq<u8>, w: WireMesh)
    requires
        parse_current(b) == Some(w),
        w.submeshes.len() == 0,
        parse_legacy(b) is None,
    ensures
        decode_spec(b) == Err::<Seq<MeshView>, ThreeDError>(ThreeDError::EmptyMeshData),
{
}

/// Law: a buffer that the current revision does not accept (or accepts
/// empty) but that matches the legacy layout with the right magic number
/// decodes to exactly one logical mesh — the legacy record's fields, with
/// texture coordinates always absent.
pub proof fn lemma_legacy_upgrade(b: Seq<u8>, v1: WireMeshV1)
    requires
        parse_current(b) is None || (parse_current(b) matches Some(w) && w.submeshes.len() == 0),
        parse_legacy(b) == Some(v1),
        v1.magic_number == MAGIC_NUMBER,
    ensures
        decode_spec(b) == Ok::<Seq<MeshView>, ThreeDError>(
            seq![logical_of_sub(upgrade_v1(v1).submeshes[0])],
        ),
        logical_of_sub(upgrade_v1(v1).submeshes[0]).uvs is None,
        logical_of_sub(upgrade_v1(v1).submeshes[0]).positions == v1.positions,
{
    let up = upgrade_v1(v1);
    assert(up.submeshes.map_values(|s: WireSubMesh| logical_of_sub(s)) =~= seq![
        logical_of_sub(up.submeshes[0]),
    ]);
}

/// Law: the format cannot distinguish an absent optional index array from
/// a present-but-empty one — two meshes that differ only in that way
/// encode to identical bytes, and both decode with absent indices.
pub proof fn lemma_empty_indices_absent(m1: MeshView, m2: MeshView)
    requires
        m1.indices is None,
        m2.indices == Some(Seq::<u32>::empty()),
        m1.positions == m2.positions,
        m1.normals == m2.normals,
        m1.uvs == m2.uvs,
    ensures
        encode_spec(seq![m1]) == encode_spec(seq![m2]),
        normalize_mesh(m1).indices is None,
        normalize_mesh(m2).indices is None,
{
    assert(sub_of_mesh(m1) == sub_of_mesh(m2)) by {
        assert(sub_of_mesh(m1).indices =~= sub_of_mesh(m2).indices);
    }
    assert(wire_of_meshes(seq![m1]).submeshes =~= wire_of_meshes(seq![m2]).submeshes);
}

/// Law: a successful decode never yields an empty mesh sequence — the
/// empty-data check runs before the result is surfaced, on both the
/// current-revision and the legacy path.
pub proof fn lemma_decode_never_empty(b: Seq<u8>)
    ensures
        decode_spec(b) matches Ok(views) ==> views.len() > 0,
{
}

} // verus!


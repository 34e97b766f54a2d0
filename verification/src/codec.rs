//! The executable codec: decoding bytes into logical meshes with
//! version-detection fallback, and encoding logical meshes into bytes of
//! the current revision. Every function is proved against the byte-level
//! grammar in `wire`.

use crate::mesh::{CPUMesh, ThreeDError};
use crate::wire::{
    decode_spec, encode_spec, enc_seq_u32, enc_submeshes, enc_words, le_bytes_u32, le_bytes_u64,
    logical_of_sub, parse_current, parse_legacy, parse_submesh, parse_submeshes, parse_vec,
    parse_words, sub_of_mesh, upgrade_v1, validate, wire_of_meshes, word32_at, word64_at, enc_submesh,
    WireMesh, WireMeshV1, WireSubMesh, CURRENT_VERSION, MAGIC_NUMBER,
};
use crate::wire::{lemma_parse_words_index, lemma_enc_words_snoc, lemma_enc_submeshes_snoc};
use vstd::prelude::*;

verus! {

/// The mesh codec.
pub struct ThreeD {}

/// One submesh as parsed from the wire, before the wire-to-logical
/// conversion: all four attribute arrays concrete, possibly empty.
struct RawSubMesh {
    indices: Vec<u32>,
    positions: Vec<u32>,
    normals: Vec<u32>,
    uvs: Vec<u32>,
}

impl View for RawSubMesh {
    type V = WireSubMesh;

    closed spec fn view(&self) -> WireSubMesh {
        WireSubMesh {
            indices: self.indices@,
            positions: self.positions@,
            normals: self.normals@,
            uvs: self.uvs@,
        }
    }
}

/// A whole record as parsed from the wire, already normalized to the
/// current revision's in-memory shape.
struct RawMesh {
    magic_number: u8,
    version: u8,
    submeshes: Vec<RawSubMesh>,
}

impl View for RawMesh {
    type V = WireMesh;

    closed spec fn view(&self) -> WireMesh {
        WireMesh {
            magic_number: self.magic_number,
            version: self.version,
            submeshes: self.submeshes@.map_values(|s: RawSubMesh| s@),
        }
    }
}

/// Read the little-endian 32-bit word at offset `i`.
fn read_u32_at(b: &[u8], i: usize) -> (r: u32)
    requires
        i + 4 <= b@.len(),
    ensures
        r == word32_at(b@, i as int),
{
    (b[i] as u32) | ((b[i + 1] as u32) << 8) | ((b[i + 2] as u32) << 16)
        | ((b[i + 3] as u32) << 24)
}

/// Read the little-endian 64-bit word at offset `i`.
fn read_u64_at(b: &[u8], i: usize) -> (r: u64)
    requires
        i + 8 <= b@.len(),
    ensures
        r == word64_at(b@, i as int),
{
    (b[i] as u64) | ((b[i + 1] as u64) << 8) | ((b[i + 2] as u64) << 16)
        | ((b[i + 3] as u64) << 24) | ((b[i + 4] as u64) << 32) | ((b[i + 5] as u64) << 40)
        | ((b[i + 6] as u64) << 48) | ((b[i + 7] as u64) << 56)
}

/// Append the little-endian bytes of a 32-bit word.
fn push_u32(out: &mut Vec<u8>, x: u32)
    ensures
        final(out)@ == old(out)@ + le_bytes_u32(x),
{
    out.push((x & 0xff) as u8);
    out.push(((x >> 8) & 0xff) as u8);
    out.push(((x >> 16) & 0xff) as u8);
    out.push(((x >> 24) & 0xff) as u8);
    assert(out@ =~= old(out)@ + le_bytes_u32(x));
}

/// Append the little-endian bytes of a 64-bit word.
fn push_u64(out: &mut Vec<u8>, x: u64)
    ensures
        final(out)@ == old(out)@ + le_bytes_u64(x),
{
    out.push((x & 0xff) as u8);
    out.push(((x >> 8) & 0xff) as u8);
    out.push(((x >> 16) & 0xff) as u8);
    out.push(((x >> 24) & 0xff) as u8);
    out.push(((x >> 32) & 0xff) as u8);
    out.push(((x >> 40) & 0xff) as u8);
    out.push(((x >> 48) & 0xff) as u8);
    out.push(((x >> 56) & 0xff) as u8);
    assert(out@ =~= old(out)@ + le_bytes_u64(x));
}

/// Read one length-prefixed sequence of 32-bit words at offset `i`; on
/// success, the words and the offset just past them.
fn read_vec(b: &[u8], i: usize) -> (r: Option<(Vec<u32>, usize)>)
    requires
        i <= b@.len(),
    ensures
        match r {
            Some(p) => parse_vec(b@, i as int) == Some((p.0@, p.1 as int)),
            None => parse_vec(b@, i as int) is None,
        },
{
    let len = b.len();
    if len - i < 8 {
        return None;
    }
    let n = read_u64_at(b, i);
    let mut out: Vec<u32> = Vec::new();
    let mut j = i + 8;
    let mut k: u64 = 0;
    while k < n
        invariant
            i + 8 <= len,
            len == b@.len(),
            k <= n,
            n == word64_at(b@, i as int),
            j == i + 8 + 4 * k,
            j <= len,
            out@.len() == k,
            forall|m: int| 0 <= m < k ==> out@[m] == word32_at(b@, i + 8 + 4 * m),
        decreases n - k,
    {
        if len - j < 4 {
            // The advertised count runs past the end of the buffer.
            assert(i + 8 + 4 * (n as int) > b@.len());
            return None;
        }
        let w = read_u32_at(b, j);
        out.push(w);
        j = j + 4;
        k = k + 1;
    }
    proof {
        lemma_parse_words_index(b@, i + 8, n as nat);
        assert(out@ =~= parse_words(b@, i + 8, n as nat));
    }
    Some((out, j))
}

/// Read one submesh record at offset `i`: four sequences in field order.
fn read_submesh(b: &[u8], i: usize) -> (r: Option<(RawSubMesh, usize)>)
    requires
        i <= b@.len(),
    ensures
        match r {
            Some(p) => parse_submesh(b@, i as int) == Some((p.0@, p.1 as int)),
            None => parse_submesh(b@, i as int) is None,
        },
{
    let (indices, i1) = match read_vec(b, i) {
        Some(p) => p,
        None => {
            return None;
        },
    };
    let (positions, i2) = match read_vec(b, i1) {
        Some(p) => p,
        None => {
            return None;
        },
    };
    let (normals, i3) = match read_vec(b, i2) {
        Some(p) => p,
        None => {
            return None;
        },
    };
    let (uvs, i4) = match read_vec(b, i3) {
        Some(p) => p,
        None => {
            return None;
        },
    };
    Some((RawSubMesh { indices, positions, normals, uvs }, i4))
}

/// Read a whole current-revision record.
fn read_current(b: &[u8]) -> (r: Option<RawMesh>)
    ensures
        match r {
            Some(m) => parse_current(b@) == Some(m@),
            None => parse_current(b@) is None,
        },
{
    let len = b.len();
    if len < 10 {
        return None;
    }
    let magic_number = b[0];
    let version = b[1];
    let n = read_u64_at(b, 2);
    let mut submeshes: Vec<RawSubMesh> = Vec::new();
    let mut i: usize = 10;
    let mut k: u64 = 0;
    while k < n
        invariant
            10 <= len,
            len == b@.len(),
            k <= n,
            n == word64_at(b@, 2),
            i <= len,
            submeshes@.len() == k,
            parse_submeshes(b@, 10, n as nat) == (match parse_submeshes(
                b@,
                i as int,
                (n - k) as nat,
            ) {
                Some(p) => Some(
                    (submeshes@.map_values(|s: RawSubMesh| s@) + p.0, p.1),
                ),
                None => None::<(Seq<WireSubMesh>, int)>,
            }),
        decreases n - k,
    {
        match read_submesh(b, i) {
            Some(p) => {
                let (s, j) = p;
                let ghost sv = s@;
                let ghost prefix = submeshes@.map_values(|s: RawSubMesh| s@);
                submeshes.push(s);
                proof {
                    assert(submeshes@.map_values(|s: RawSubMesh| s@) =~= prefix.push(sv));
                    assert forall|rest: Seq<WireSubMesh>| true implies (prefix + (seq![sv] + rest))
                        =~= (prefix.push(sv) + rest) by {}
                }
                i = j;
                k = k + 1;
            },
            None => {
                return None;
            },
        }
    }
    proof {
        assert(submeshes@.map_values(|s: RawSubMesh| s@) + Seq::<WireSubMesh>::empty()
            =~= submeshes@.map_values(|s: RawSubMesh| s@));
    }
    Some(RawMesh { magic_number, version, submeshes })
}

impl ThreeD {
    /// Read a legacy-revision record and upgrade it to the current
    /// in-memory shape: one submesh, the current version tag, and empty
    /// texture coordinates. A buffer that does not match the legacy shape
    /// is a structural error.
    fn parse_version1(bytes: &[u8]) -> (r: Result<RawMesh, ThreeDError>)
        ensures
            match r {
                Ok(m) => parse_legacy(bytes@) matches Some(v1) && m@ == upgrade_v1(v1),
                Err(e) => parse_legacy(bytes@) is None && e == ThreeDError::StructuralDecodeError,
            },
    {
        let len = bytes.len();
        if len < 2 {
            return Err(ThreeDError::StructuralDecodeError);
        }
        let (indices, i1) = match read_vec(bytes, 2) {
            Some(p) => p,
            None => {
                return Err(ThreeDError::StructuralDecodeError);
            },
        };
        let (positions, i2) = match read_vec(bytes, i1) {
            Some(p) => p,
            None => {
                return Err(ThreeDError::StructuralDecodeError);
            },
        };
        let (normals, _i3) = match read_vec(bytes, i2) {
            Some(p) => p,
            None => {
                return Err(ThreeDError::StructuralDecodeError);
            },
        };
        let sub = RawSubMesh { indices, positions, normals, uvs: Vec::new() };
        let ghost sv = sub@;
        let mut submeshes: Vec<RawSubMesh> = Vec::new();
        submeshes.push(sub);
        let m = RawMesh { magic_number: bytes[0], version: CURRENT_VERSION, submeshes };
        proof {
            assert(m@.submeshes =~= seq![sv]);
        }
        Ok(m)
    }

    /// Validate a shape-resolved record and convert it to logical meshes:
    /// the magic number is checked first, then each submesh's empty
    /// optional arrays become absent fields.
    fn validate_and_convert(m: RawMesh) -> (r: Result<Vec<CPUMesh>, ThreeDError>)
        ensures
            match r {
                Ok(out) => validate(m@) == Ok::<Seq<crate::mesh::MeshView>, ThreeDError>(
                    out@.map_values(|c: CPUMesh| c@),
                ),
                Err(e) => validate(m@) == Err::<Seq<crate::mesh::MeshView>, ThreeDError>(e),
            },
    {
        if m.magic_number != MAGIC_NUMBER {
            return Err(ThreeDError::CorruptMagicNumber);
        }
        let RawMesh { magic_number: _m, version: _v, submeshes } = m;
        let mut subs = submeshes;
        let ghost orig = subs@;
        let mut out: Vec<CPUMesh> = Vec::new();
        while subs.len() > 0
            invariant
                out@.len() + subs@.len() == orig.len(),
                subs@ == orig.skip(out@.len() as int),
                forall|idx: int|
                    0 <= idx < out@.len() ==> (#[trigger] out@[idx])@ == logical_of_sub(
                        orig[idx]@,
                    ),
            decreases subs@.len(),
        {
            let ghost done = out@.len() as int;
            let s = subs.remove(0);
            proof {
                assert(s@ == orig[done]@);
                assert(subs@ =~= orig.skip(done + 1));
            }
            let cpu = to_cpu_mesh(s);
            out.push(cpu);
        }
        proof {
            assert(out@.map_values(|c: CPUMesh| c@) =~= m@.submeshes.map_values(
                |s: WireSubMesh| logical_of_sub(s),
            ));
        }
        Ok(out)
    }

    /// Decode a byte buffer into an ordered sequence of logical meshes.
    ///
    /// The current revision is tried first; if its shape does not match,
    /// or matches with an empty submesh list, the buffer is re-read as a
    /// legacy record and upgraded. The magic number is validated after
    /// shape resolution. On success the result has one mesh per wire
    /// submesh, in order, and is never empty.
    pub fn parse(bytes: &[u8]) -> (r: Result<Vec<CPUMesh>, ThreeDError>)
        ensures
            match decode_spec(bytes@) {
                Ok(views) => r matches Ok(out) && out@.map_values(|c: CPUMesh| c@) == views,
                Err(e) => r matches Err(actual) && actual == e,
            },
    {
        match read_current(bytes) {
            Some(m) => {
                if m.submeshes.len() > 0 {
                    Self::validate_and_convert(m)
                } else {
                    match Self::parse_version1(bytes) {
                        Ok(m1) => Self::validate_and_convert(m1),
                        Err(_e) => Err(ThreeDError::EmptyMeshData),
                    }
                }
            },
            None => {
                match Self::parse_version1(bytes) {
                    Ok(m1) => Self::validate_and_convert(m1),
                    Err(e) => Err(e),
                }
            },
        }
    }

    /// Encode an ordered sequence of logical meshes as a current-revision
    /// record: the fixed magic number, the current version tag, and one
    /// submesh per mesh, with absent optional arrays written as empty
    /// sequences. Encoding never fails.
    pub fn serialize(meshes: &Vec<CPUMesh>) -> (r: Result<Vec<u8>, ThreeDError>)
        ensures
            r matches Ok(bytes) && bytes@ == encode_spec(meshes@.map_values(|c: CPUMesh| c@)),
    {
        let ghost views = meshes@.map_values(|c: CPUMesh| c@);
        let ghost wire = wire_of_meshes(views);
        let mut out: Vec<u8> = Vec::new();
        out.push(MAGIC_NUMBER);
        out.push(CURRENT_VERSION);
        push_u64(&mut out, meshes.len() as u64);
        proof {
            assert(out@ =~= seq![MAGIC_NUMBER, CURRENT_VERSION] + le_bytes_u64(
                wire.submeshes.len() as u64,
            ) + enc_submeshes(wire.submeshes.take(0)));
        }
        let n = meshes.len();
        let mut idx: usize = 0;
        while idx < n
            invariant
                n == meshes@.len(),
                idx <= n,
                views == meshes@.map_values(|c: CPUMesh| c@),
                wire == wire_of_meshes(views),
                out@ == seq![MAGIC_NUMBER, CURRENT_VERSION] + le_bytes_u64(
                    wire.submeshes.len() as u64,
                ) + enc_submeshes(wire.submeshes.take(idx as int)),
            decreases n - idx,
        {
            write_submesh(&mut out, &meshes[idx]);
            proof {
                assert(wire.submeshes[idx as int] == sub_of_mesh(meshes@[idx as int]@));
                assert(wire.submeshes.take(idx + 1) =~= wire.submeshes.take(idx as int).push(
                    wire.submeshes[idx as int],
                ));
                lemma_enc_submeshes_snoc(
                    wire.submeshes.take(idx as int),
                    wire.submeshes[idx as int],
                );
                assert(out@ =~= seq![MAGIC_NUMBER, CURRENT_VERSION] + le_bytes_u64(
                    wire.submeshes.len() as u64,
                ) + enc_submeshes(wire.submeshes.take(idx + 1)));
            }
            idx = idx + 1;
        }
        proof {
            assert(wire.submeshes.take(n as int) =~= wire.submeshes);
        }
        Ok(out)
    }
}

/// The wire-to-logical conversion of one submesh: empty optional arrays
/// become absent fields; positions are carried through unconditionally.
fn to_cpu_mesh(s: RawSubMesh) -> (m: CPUMesh)
    ensures
        m@ == logical_of_sub(s@),
{
    let RawSubMesh { indices, positions, normals, uvs } = s;
    CPUMesh {
        indices: if indices.len() > 0 {
            Some(indices)
        } else {
            None
        },
        positions,
        normals: if normals.len() > 0 {
            Some(normals)
        } else {
            None
        },
        uvs: if uvs.len() > 0 {
            Some(uvs)
        } else {
            None
        },
    }
}

/// Append a length-prefixed sequence of 32-bit words.
fn write_seq(out: &mut Vec<u8>, v: &Vec<u32>)
    ensures
        final(out)@ == old(out)@ + enc_seq_u32(v@),
{
    push_u64(out, v.len() as u64);
    let ghost base = out@;
    let n = v.len();
    let mut idx: usize = 0;
    while idx < n
        invariant
            n == v@.len(),
            idx <= n,
            out@ == base + enc_words(v@.take(idx as int)),
        decreases n - idx,
    {
        push_u32(out, v[idx]);
        proof {
            assert(v@.take(idx + 1) =~= v@.take(idx as int).push(v@[idx as int]));
            lemma_enc_words_snoc(v@.take(idx as int), v@[idx as int]);
            assert(out@ =~= base + enc_words(v@.take(idx + 1)));
        }
        idx = idx + 1;
    }
    proof {
        assert(v@.take(n as int) =~= v@);
        assert(out@ =~= old(out)@ + enc_seq_u32(v@));
    }
}

/// Append a length-prefixed empty sequence: a zero count and no elements.
fn write_empty_seq(out: &mut Vec<u8>)
    ensures
        final(out)@ == old(out)@ + enc_seq_u32(Seq::<u32>::empty()),
{
    push_u64(out, 0);
    proof {
        assert(out@ =~= old(out)@ + enc_seq_u32(Seq::<u32>::empty()));
    }
}

/// Append one submesh record: its four attribute arrays in field order,
/// absent ones as empty sequences.
fn write_submesh(out: &mut Vec<u8>, m: &CPUMesh)
    ensures
        final(out)@ == old(out)@ + enc_submesh(sub_of_mesh(m@)),
{
    match &m.indices {
        Some(v) => write_seq(out, v),
        None => write_empty_seq(out),
    }
    write_seq(out, &m.positions);
    match &m.normals {
        Some(v) => write_seq(out, v),
        None => write_empty_seq(out),
    }
    match &m.uvs {
        Some(v) => write_seq(out, v),
        None => write_empty_seq(out),
    }
    proof {
        assert(out@ =~= old(out)@ + enc_submesh(sub_of_mesh(m@)));
    }
}

} // verus!

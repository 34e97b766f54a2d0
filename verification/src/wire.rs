//! The wire model: what each revision of the format physically encodes, as
//! specification-level byte sequences, together with the byte-level grammar
//! (encoding and parsing functions) that the executable codec is proved
//! against.
//!
//! Primitive encoding rules (shared by both revisions): a `u8` is one byte;
//! a `u32` is four bytes, little endian; a sequence is a `u64` element count
//! (eight bytes, little endian) followed by its elements. Parsing accepts
//! trailing bytes after a complete record.

use crate::mesh::{MeshView, ThreeDError};
use vstd::prelude::*;

verus! {

/// The sentinel byte that every valid file of either revision must carry.
pub const MAGIC_NUMBER: u8 = 61;

/// The version byte that the current revision writes.
pub const CURRENT_VERSION: u8 = 2;

/// One submesh record of the current wire revision. All four sequences are
/// concrete (possibly empty); presence/absence exists only in the logical
/// layer.
pub ghost struct WireSubMesh {
    pub indices: Seq<u32>,
    pub positions: Seq<u32>,
    pub normals: Seq<u32>,
    pub uvs: Seq<u32>,
}

/// The current wire revision: a tagged list of submeshes.
pub ghost struct WireMesh {
    pub magic_number: u8,
    pub version: u8,
    pub submeshes: Seq<WireSubMesh>,
}

/// The legacy wire revision: a single unwrapped mesh, with no submesh
/// nesting and no texture-coordinate field at all.
pub ghost struct WireMeshV1 {
    pub magic_number: u8,
    pub version: u8,
    pub indices: Seq<u32>,
    pub positions: Seq<u32>,
    pub normals: Seq<u32>,
}

// ---------------------------------------------------------------------------
// Primitive byte encoding
// ---------------------------------------------------------------------------

/// The four little-endian bytes of a 32-bit word.
pub open spec fn le_bytes_u32(x: u32) -> Seq<u8> {
    seq![
        (x & 0xff) as u8,
        ((x >> 8) & 0xff) as u8,
        ((x >> 16) & 0xff) as u8,
        ((x >> 24) & 0xff) as u8,
    ]
}

/// The eight little-endian bytes of a 64-bit word.
pub open spec fn le_bytes_u64(x: u64) -> Seq<u8> {
    seq![
        (x & 0xff) as u8,
        ((x >> 8) & 0xff) as u8,
        ((x >> 16) & 0xff) as u8,
        ((x >> 24) & 0xff) as u8,
        ((x >> 32) & 0xff) as u8,
        ((x >> 40) & 0xff) as u8,
        ((x >> 48) & 0xff) as u8,
        ((x >> 56) & 0xff) as u8,
    ]
}

/// The 32-bit word whose little-endian bytes are `b0 b1 b2 b3`.
pub open spec fn word32_of(b0: u8, b1: u8, b2: u8, b3: u8) -> u32 {
    (b0 as u32) | ((b1 as u32) << 8) | ((b2 as u32) << 16) | ((b3 as u32) << 24)
}

/// The 64-bit word whose little-endian bytes are `b0 .. b7`.
pub open spec fn word64_of(b0: u8, b1: u8, b2: u8, b3: u8, b4: u8, b5: u8, b6: u8, b7: u8) -> u64 {
    (b0 as u64) | ((b1 as u64) << 8) | ((b2 as u64) << 16) | ((b3 as u64) << 24)
        | ((b4 as u64) << 32) | ((b5 as u64) << 40) | ((b6 as u64) << 48) | ((b7 as u64) << 56)
}

/// The 32-bit word read from `b` at offset `i`.
pub open spec fn word32_at(b: Seq<u8>, i: int) -> u32 {
    word32_of(b[i], b[i + 1], b[i + 2], b[i + 3])
}

/// The 64-bit word read from `b` at offset `i`.
pub open spec fn word64_at(b: Seq<u8>, i: int) -> u64 {
    word64_of(b[i], b[i + 1], b[i + 2], b[i + 3], b[i + 4], b[i + 5], b[i + 6], b[i + 7])
}

// ---------------------------------------------------------------------------
// Encoding of compound values
// ---------------------------------------------------------------------------

/// The flat bytes of a run of 32-bit words, without a length prefix.
pub open spec fn enc_words(v: Seq<u32>) -> Seq<u8>
    decreases v.len(),
{
    if v.len() == 0 {
        Seq::empty()
    } else {
        le_bytes_u32(v[0]) + enc_words(v.drop_first())
    }
}

/// The bytes of a length-prefixed sequence of 32-bit words.
pub open spec fn enc_seq_u32(v: Seq<u32>) -> Seq<u8> {
    le_bytes_u64(v.len() as u64) + enc_words(v)
}

/// The bytes of one submesh record: its four sequences, in field order.
pub open spec fn enc_submesh(s: WireSubMesh) -> Seq<u8> {
    enc_seq_u32(s.indices) + enc_seq_u32(s.positions) + enc_seq_u32(s.normals)
        + enc_seq_u32(s.uvs)
}

/// The flat bytes of a run of submesh records.
pub open spec fn enc_submeshes(subs: Seq<WireSubMesh>) -> Seq<u8>
    decreases subs.len(),
{
    if subs.len() == 0 {
        Seq::empty()
    } else {
        enc_submesh(subs[0]) + enc_submeshes(subs.drop_first())
    }
}

/// The complete byte image of a current-revision record.
pub open spec fn enc_mesh(w: WireMesh) -> Seq<u8> {
    seq![w.magic_number, w.version] + le_bytes_u64(w.submeshes.len() as u64)
        + enc_submeshes(w.submeshes)
}

/// Whether every sequence length in one submesh fits in the 64-bit count
/// that the wire format stores (true of anything an in-memory vector can
/// hold).
pub open spec fn sub_fits(s: WireSubMesh) -> bool {
    &&& s.indices.len() <= u64::MAX
    &&& s.positions.len() <= u64::MAX
    &&& s.normals.len() <= u64::MAX
    &&& s.uvs.len() <= u64::MAX
}

/// Whether every sequence length in `w` fits in the 64-bit count that the
/// wire format stores.
pub open spec fn wire_fits(w: WireMesh) -> bool {
    &&& w.submeshes.len() <= u64::MAX
    &&& forall|i: int| 0 <= i < w.submeshes.len() ==> sub_fits(#[trigger] w.submeshes[i])
}

// ---------------------------------------------------------------------------
// Parsing
// ---------------------------------------------------------------------------

/// The `n` 32-bit words read from `b` starting at offset `i`.
pub open spec fn parse_words(b: Seq<u8>, i: int, n: nat) -> Seq<u32>
    decreases n,
{
    if n == 0 {
        Seq::empty()
    } else {
        seq![word32_at(b, i)] + parse_words(b, i + 4, (n - 1) as nat)
    }
}

/// Parse a length-prefixed sequence of 32-bit words at offset `i`; on
/// success, the words and the offset just past them.
pub open spec fn parse_vec(b: Seq<u8>, i: int) -> Option<(Seq<u32>, int)> {
    if i + 8 <= b.len() {
        let n = word64_at(b, i) as int;
        if i + 8 + 4 * n <= b.len() {
            Some((parse_words(b, i + 8, n as nat), i + 8 + 4 * n))
        } else {
            None
        }
    } else {
        None
    }
}

/// Parse one submesh record at offset `i`: four sequences in field order.
pub open spec fn parse_submesh(b: Seq<u8>, i: int) -> Option<(WireSubMesh, int)> {
    match parse_vec(b, i) {
        Some((indices, i1)) => match parse_vec(b, i1) {
            Some((positions, i2)) => match parse_vec(b, i2) {
                Some((normals, i3)) => match parse_vec(b, i3) {
                    Some((uvs, i4)) => Some(
                        (WireSubMesh { indices, positions, normals, uvs }, i4),
                    ),
                    None => None,
                },
                None => None,
            },
            None => None,
        },
        None => None,
    }
}

/// Parse `n` consecutive submesh records starting at offset `i`.
pub open spec fn parse_submeshes(b: Seq<u8>, i: int, n: nat) -> Option<(Seq<WireSubMesh>, int)>
    decreases n,
{
    if n == 0 {
        Some((Seq::empty(), i))
    } else {
        match parse_submesh(b, i) {
            Some((s, j)) => match parse_submeshes(b, j, (n - 1) as nat) {
                Some((rest, end)) => Some((seq![s] + rest, end)),
                None => None,
            },
            None => None,
        }
    }
}

/// Interpret `b` as a current-revision record. Trailing bytes are allowed;
/// a buffer too short for the header, or one whose submesh list runs past
/// the end, does not match.
pub open spec fn parse_current(b: Seq<u8>) -> Option<WireMesh> {
    if b.len() >= 10 {
        match parse_submeshes(b, 10, word64_at(b, 2) as nat) {
            Some((submeshes, _end)) => Some(
                WireMesh { magic_number: b[0], version: b[1], submeshes },
            ),
            None => None,
        }
    } else {
        None
    }
}

/// Interpret `b` as a legacy-revision record. Trailing bytes are allowed.
pub open spec fn parse_legacy(b: Seq<u8>) -> Option<WireMeshV1> {
    if b.len() >= 2 {
        match parse_vec(b, 2) {
            Some((indices, i1)) => match parse_vec(b, i1) {
                Some((positions, i2)) => match parse_vec(b, i2) {
                    Some((normals, _i3)) => Some(
                        WireMeshV1 {
                            magic_number: b[0],
                            version: b[1],
                            indices,
                            positions,
                            normals,
                        },
                    ),
                    None => None,
                },
                None => None,
            },
            None => None,
        }
    } else {
        None
    }
}

// ---------------------------------------------------------------------------
// The wire/logical boundary and the decode relation
// ---------------------------------------------------------------------------

/// Upgrade a legacy record to the current in-memory shape: its single mesh
/// becomes a one-element submesh list, the version is normalized to the
/// current revision, and the texture coordinates (absent from the legacy
/// layout) become the empty sequence.
pub open spec fn upgrade_v1(m: WireMeshV1) -> WireMesh {
    WireMesh {
        magic_number: m.magic_number,
        version: CURRENT_VERSION,
        submeshes: seq![
            WireSubMesh {
                indices: m.indices,
                positions: m.positions,
                normals: m.normals,
                uvs: Seq::empty(),
            },
        ],
    }
}

/// The shared wire-to-logical conversion: an empty optional attribute array
/// becomes absent; positions are carried through unconditionally.
pub open spec fn logical_of_sub(s: WireSubMesh) -> MeshView {
    MeshView {
        indices: if s.indices.len() > 0 {
            Some(s.indices)
        } else {
            None
        },
        positions: s.positions,
        normals: if s.normals.len() > 0 {
            Some(s.normals)
        } else {
            None
        },
        uvs: if s.uvs.len() > 0 {
            Some(s.uvs)
        } else {
            None
        },
    }
}

/// The logical-to-wire conversion used by the encoder: an absent optional
/// attribute array is written as an empty sequence.
pub open spec fn sub_of_mesh(m: MeshView) -> WireSubMesh {
    WireSubMesh {
        indices: match m.indices {
            Some(v) => v,
            None => Seq::empty(),
        },
        positions: m.positions,
        normals: match m.normals {
            Some(v) => v,
            None => Seq::empty(),
        },
        uvs: match m.uvs {
            Some(v) => v,
            None => Seq::empty(),
        },
    }
}

/// The current-revision record that encodes a logical mesh sequence.
pub open spec fn wire_of_meshes(ms: Seq<MeshView>) -> WireMesh {
    WireMesh {
        magic_number: MAGIC_NUMBER,
        version: CURRENT_VERSION,
        submeshes: ms.map_values(|m: MeshView| sub_of_mesh(m)),
    }
}

/// Validation and conversion of a shape-resolved record: the magic number
/// is checked only after shape resolution, then each wire submesh becomes
/// one logical mesh, in order.
pub open spec fn validate(w: WireMesh) -> Result<Seq<MeshView>, ThreeDError> {
    if w.magic_number != MAGIC_NUMBER {
        Err(ThreeDError::CorruptMagicNumber)
    } else {
        Ok(w.submeshes.map_values(|s: WireSubMesh| logical_of_sub(s)))
    }
}

/// What decoding a byte buffer yields, for every possible buffer.
///
/// The order of attempts is fixed: the current revision is tried first; if
/// its shape does not match, or matches with an empty submesh list, the
/// legacy revision is tried and upgraded. A buffer that matches neither
/// shape is a structural error; a well-shaped but empty current record
/// whose bytes are not also a legacy record is an empty-data error; a
/// non-empty record with the wrong magic number is a corruption error.
pub open spec fn decode_spec(b: Seq<u8>) -> Result<Seq<MeshView>, ThreeDError> {
    match parse_current(b) {
        Some(w) => if w.submeshes.len() > 0 {
            validate(w)
        } else {
            match parse_legacy(b) {
                Some(m) => validate(upgrade_v1(m)),
                None => Err(ThreeDError::EmptyMeshData),
            }
        },
        None => match parse_legacy(b) {
            Some(m) => validate(upgrade_v1(m)),
            None => Err(ThreeDError::StructuralDecodeError),
        },
    }
}

/// What encoding a logical mesh sequence yields: always the current
/// revision, with the fixed magic number.
pub open spec fn encode_spec(ms: Seq<MeshView>) -> Seq<u8> {
    enc_mesh(wire_of_meshes(ms))
}

// ---------------------------------------------------------------------------
// Facts about the grammar
// ---------------------------------------------------------------------------

/// Reassembling the four little-endian bytes of a 32-bit word gives the
/// word back.
pub proof fn lemma_word32_le_round(x: u32)
    ensures
        word32_of(
            (x & 0xff) as u8,
            ((x >> 8) & 0xff) as u8,
            ((x >> 16) & 0xff) as u8,
            ((x >> 24) & 0xff) as u8,
        ) == x,
{
    assert(((x & 0xff) as u8 as u32) | ((((x >> 8) & 0xff) as u8 as u32) << 8)
        | ((((x >> 16) & 0xff) as u8 as u32) << 16) | ((((x >> 24) & 0xff) as u8 as u32) << 24)
        == x) by (bit_vector);
}

/// Reassembling the eight little-endian bytes of a 64-bit word gives the
/// word back.
pub proof fn lemma_word64_le_round(x: u64)
    ensures
        word64_of(
            (x & 0xff) as u8,
            ((x >> 8) & 0xff) as u8,
            ((x >> 16) & 0xff) as u8,
            ((x >> 24) & 0xff) as u8,
            ((x >> 32) & 0xff) as u8,
            ((x >> 40) & 0xff) as u8,
            ((x >> 48) & 0xff) as u8,
            ((x >> 56) & 0xff) as u8,
        ) == x,
{
    assert(((x & 0xff) as u8 as u64) | ((((x >> 8) & 0xff) as u8 as u64) << 8)
        | ((((x >> 16) & 0xff) as u8 as u64) << 16) | ((((x >> 24) & 0xff) as u8 as u64) << 24)
        | ((((x >> 32) & 0xff) as u8 as u64) << 32) | ((((x >> 40) & 0xff) as u8 as u64) << 40)
        | ((((x >> 48) & 0xff) as u8 as u64) << 48) | ((((x >> 56) & 0xff) as u8 as u64) << 56)
        == x) by (bit_vector);
}

/// A run of `n` words occupies exactly `4 n` bytes.
pub proof fn lemma_enc_words_len(v: Seq<u32>)
    ensures
        enc_words(v).len() == 4 * v.len(),
    decreases v.len(),
{
    if v.len() > 0 {
        lemma_enc_words_len(v.drop_first());
    }
}

/// What `parse_words` yields, element by element.
pub proof fn lemma_parse_words_index(b: Seq<u8>, i: int, n: nat)
    ensures
        parse_words(b, i, n).len() == n,
        forall|k: int| 0 <= k < n ==> parse_words(b, i, n)[k] == word32_at(b, i + 4 * k),
    decreases n,
{
    if n > 0 {
        lemma_parse_words_index(b, i + 4, (n - 1) as nat);
        assert forall|k: int| 0 <= k < n implies parse_words(b, i, n)[k] == word32_at(
            b,
            i + 4 * k,
        ) by {
            if k > 0 {
                assert(parse_words(b, i, n)[k] == parse_words(b, i + 4, (n - 1) as nat)[k - 1]);
            }
        }
    }
}

/// Appending a word to a run appends its four bytes to the run's encoding.
pub proof fn lemma_enc_words_snoc(v: Seq<u32>, x: u32)
    ensures
        enc_words(v.push(x)) == enc_words(v) + le_bytes_u32(x),
    decreases v.len(),
{
    if v.len() == 0 {
        assert(v.push(x) =~= seq![x]);
        assert(seq![x].drop_first() =~= Seq::<u32>::empty());
        assert(enc_words(v) + le_bytes_u32(x) =~= le_bytes_u32(x) + enc_words(Seq::empty()));
    } else {
        lemma_enc_words_snoc(v.drop_first(), x);
        assert(v.push(x).drop_first() =~= v.drop_first().push(x));
        assert(le_bytes_u32(v[0]) + (enc_words(v.drop_first()) + le_bytes_u32(x)) =~= (le_bytes_u32(
            v[0],
        ) + enc_words(v.drop_first())) + le_bytes_u32(x));
    }
}

/// Appending a submesh to a list appends its bytes to the list's encoding.
pub proof fn lemma_enc_submeshes_snoc(subs: Seq<WireSubMesh>, s: WireSubMesh)
    ensures
        enc_submeshes(subs.push(s)) == enc_submeshes(subs) + enc_submesh(s),
    decreases subs.len(),
{
    if subs.len() == 0 {
        assert(subs.push(s) =~= seq![s]);
        assert(seq![s].drop_first() =~= Seq::<WireSubMesh>::empty());
        assert(enc_submeshes(subs) + enc_submesh(s) =~= enc_submesh(s) + enc_submeshes(
            Seq::empty(),
        ));
    } else {
        lemma_enc_submeshes_snoc(subs.drop_first(), s);
        assert(subs.push(s).drop_first() =~= subs.drop_first().push(s));
        assert(enc_submesh(subs[0]) + (enc_submeshes(subs.drop_first()) + enc_submesh(s))
            =~= (enc_submesh(subs[0]) + enc_submeshes(subs.drop_first())) + enc_submesh(s));
    }
}

} // verus!

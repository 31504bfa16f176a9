//! Visibility-buffer entry layout and GPU byte images of meshed quads.
//!
//! Bit layout of a 64-bit entry:
//! `[0:15]` voxel_pos, `[15:19]` block_id, `[19:27]` ao_corners (4 x 2 bits),
//! `[27:44]` quad_id (17 bits), `[44:47]` normal, `[47:64]` depth (17 bits,
//! reversed-Z; the cleared/far value is all depth bits set).

use vstd::prelude::*;
use crate::meshing::packed_quad::{PackedQuad, unpack_ao_spec, max4};
use crate::meshing::greedy::{MeshData, VoxelAabb};

verus! {

/// `voxel_pos` occupies the low 15 bits.
pub const VOXEL_POS_MASK: u64 = 0x7FFF;
/// `block_id`: 4 bits at bit 15.
pub const BLOCK_ID_MASK: u64 = 0xF;
/// `ao_corners`: 8 bits at bit 19.
pub const AO_CORNERS_MASK: u64 = 0xFF;
/// `quad_id`: 17 bits at bit 27.
pub const QUAD_ID_MASK: u64 = 0x1_FFFF;
/// `normal`: 3 bits at bit 44.
pub const NORMAL_MASK: u64 = 0x7;
/// `depth`: 17 bits at bit 47.
pub const DEPTH_MASK: u64 = 0x1_FFFF;

pub const BLOCK_ID_SHIFT: u64 = 15;
pub const AO_CORNERS_SHIFT: u64 = 19;
pub const QUAD_ID_SHIFT: u64 = 27;
pub const NORMAL_SHIFT: u64 = 44;
pub const DEPTH_SHIFT: u64 = 47;

/// The raw entry for the given fields, each masked to its width.
pub open spec fn visbuf_pack_spec(voxel_pos: u32, block_id: u32, ao_corners: u8, quad_id: u32, normal: u8, depth: u32) -> u64 {
    ((voxel_pos as u64) & 0x7FFF) | (((block_id as u64) & 0xF) << 15u64) | (((ao_corners as u64) & 0xFF) << 19u64)
        | (((quad_id as u64) & 0x1_FFFF) << 27u64) | (((normal as u64) & 0x7) << 44u64) | (((depth as u64) & 0x1_FFFF)
        << 47u64)
}

/// One visibility-buffer entry stored as a raw `u64`.
#[derive(Clone, Copy, Debug, Default, PartialEq, Eq, Structural)]
pub struct VisBufEntry(pub u64);

impl VisBufEntry {
    pub open spec fn spec_voxel_pos(self) -> u32 {
        (self.0 & 0x7FFF) as u32
    }

    pub open spec fn spec_block_id(self) -> u32 {
        ((self.0 >> 15u64) & 0xF) as u32
    }

    pub open spec fn spec_ao_byte(self) -> u8 {
        ((self.0 >> 19u64) & 0xFF) as u8
    }

    pub open spec fn spec_quad_id(self) -> u32 {
        ((self.0 >> 27u64) & 0x1_FFFF) as u32
    }

    pub open spec fn spec_normal(self) -> u8 {
        ((self.0 >> 44u64) & 0x7) as u8
    }

    pub open spec fn spec_depth(self) -> u32 {
        ((self.0 >> 47u64) & 0x1_FFFF) as u32
    }

    /// Pack fields into one entry; over-wide inputs are truncated to their
    /// field width, so every field reads back as its masked input.
    pub fn pack(voxel_pos: u32, block_id: u32, ao_corners: u8, quad_id: u32, normal: u8, depth: u32) -> (r: Self)
        ensures
            r.0 == visbuf_pack_spec(voxel_pos, block_id, ao_corners, quad_id, normal, depth),
            r.spec_voxel_pos() == voxel_pos & 0x7FFF,
            r.spec_block_id() == block_id & 0xF,
            r.spec_ao_byte() == ao_corners,
            r.spec_quad_id() == quad_id & 0x1_FFFF,
            r.spec_normal() == normal & 7u8,
            r.spec_depth() == depth & 0x1_FFFF,
    {
        let v = ((voxel_pos as u64) & VOXEL_POS_MASK) | (((block_id as u64) & BLOCK_ID_MASK) << BLOCK_ID_SHIFT)
            | (((ao_corners as u64) & AO_CORNERS_MASK) << AO_CORNERS_SHIFT) | (((quad_id as u64) & QUAD_ID_MASK)
            << QUAD_ID_SHIFT) | (((normal as u64) & NORMAL_MASK) << NORMAL_SHIFT) | (((depth as u64) & DEPTH_MASK)
            << DEPTH_SHIFT);
        proof {
            lemma_visbuf_round_trip(voxel_pos, block_id, ao_corners, quad_id, normal, depth);
        }
        VisBufEntry(v)
    }

    /// The cleared/far entry: depth all ones, every other field zero.
    pub fn empty() -> (r: Self)
        ensures
            r.0 == 0x1_FFFFu64 << 47u64,
            r.spec_depth() == 0x1_FFFF,
            r.spec_voxel_pos() == 0,
            r.spec_block_id() == 0,
            r.spec_ao_byte() == 0,
            r.spec_quad_id() == 0,
            r.spec_normal() == 0,
    {
        let v: u64 = DEPTH_MASK << DEPTH_SHIFT;
        assert({
            let v: u64 = 0x1_FFFFu64 << 47u64;
            &&& ((v >> 47u64) & 0x1_FFFF) == 0x1_FFFF
            &&& v & 0x7FFF == 0
            &&& (v >> 15u64) & 0xF == 0
            &&& (v >> 19u64) & 0xFF == 0
            &&& (v >> 27u64) & 0x1_FFFF == 0
            &&& (v >> 44u64) & 0x7 == 0
        }) by (bit_vector);
        VisBufEntry(v)
    }

    pub fn raw(&self) -> (r: u64)
        ensures
            r == self.0,
    {
        self.0
    }

    pub fn voxel_pos(&self) -> (r: u32)
        ensures
            r == self.spec_voxel_pos(),
    {
        (self.0 & VOXEL_POS_MASK) as u32
    }

    pub fn block_id(&self) -> (r: u32)
        ensures
            r == self.spec_block_id(),
    {
        ((self.0 >> BLOCK_ID_SHIFT) & BLOCK_ID_MASK) as u32
    }

    /// The four corner AO values (0 = occluded .. 3 = open), c0 .. c3.
    pub fn ao_corners(&self) -> (r: [u8; 4])
        ensures
            r == unpack_ao_spec(self.spec_ao_byte()),
            r[0] < 4 && r[1] < 4 && r[2] < 4 && r[3] < 4,
    {
        let a = ((self.0 >> AO_CORNERS_SHIFT) & AO_CORNERS_MASK) as u8;
        assert((a & 3u8) < 4 && ((a >> 2u8) & 3u8) < 4 && ((a >> 4u8) & 3u8) < 4 && ((a >> 6u8) & 3u8) < 4)
            by (bit_vector);
        [a & 0x3, (a >> 2u8) & 0x3, (a >> 4u8) & 0x3, (a >> 6u8) & 0x3]
    }

    /// Largest of the four corner AO values.
    pub fn ao_max(&self) -> (r: u8)
        ensures
            r == max4(
                unpack_ao_spec(self.spec_ao_byte())[0],
                unpack_ao_spec(self.spec_ao_byte())[1],
                unpack_ao_spec(self.spec_ao_byte())[2],
                unpack_ao_spec(self.spec_ao_byte())[3],
            ),
    {
        let c = self.ao_corners();
        let ab = if c[0] >= c[1] { c[0] } else { c[1] };
        let cd = if c[2] >= c[3] { c[2] } else { c[3] };
        if ab >= cd { ab } else { cd }
    }

    pub fn quad_id(&self) -> (r: u32)
        ensures
            r == self.spec_quad_id(),
    {
        ((self.0 >> QUAD_ID_SHIFT) & QUAD_ID_MASK) as u32
    }

    pub fn normal(&self) -> (r: u8)
        ensures
            r == self.spec_normal(),
    {
        ((self.0 >> NORMAL_SHIFT) & NORMAL_MASK) as u8
    }

    pub fn depth(&self) -> (r: u32)
        ensures
            r == self.spec_depth(),
    {
        ((self.0 >> DEPTH_SHIFT) & DEPTH_MASK) as u32
    }
}

proof fn lemma_visbuf_round_trip(vp: u32, bid: u32, ao: u8, qid: u32, n: u8, d: u32)
    ensures
        ({
            let v = visbuf_pack_spec(vp, bid, ao, qid, n, d);
            &&& (v & 0x7FFF) as u32 == vp & 0x7FFF
            &&& ((v >> 15u64) & 0xF) as u32 == bid & 0xF
            &&& ((v >> 19u64) & 0xFF) as u8 == ao
            &&& ((v >> 27u64) & 0x1_FFFF) as u32 == qid & 0x1_FFFF
            &&& ((v >> 44u64) & 0x7) as u8 == n & 7u8
            &&& ((v >> 47u64) & 0x1_FFFF) as u32 == d & 0x1_FFFF
        }),
{
    let v = visbuf_pack_spec(vp, bid, ao, qid, n, d);
    assert(v == ((vp as u64) & 0x7FFF) | (((bid as u64) & 0xF) << 15u64) | (((ao as u64) & 0xFF) << 19u64)
        | (((qid as u64) & 0x1_FFFF) << 27u64) | (((n as u64) & 0x7) << 44u64) | (((d as u64) & 0x1_FFFF)
        << 47u64));
    assert({
        let v = ((vp as u64) & 0x7FFF) | (((bid as u64) & 0xF) << 15u64) | (((ao as u64) & 0xFF) << 19u64)
            | (((qid as u64) & 0x1_FFFF) << 27u64) | (((n as u64) & 0x7) << 44u64) | (((d as u64) & 0x1_FFFF)
            << 47u64);
        &&& (v & 0x7FFF) as u32 == vp & 0x7FFF
        &&& ((v >> 15u64) & 0xF) as u32 == bid & 0xF
        &&& ((v >> 19u64) & 0xFF) as u8 == ao
        &&& ((v >> 27u64) & 0x1_FFFF) as u32 == qid & 0x1_FFFF
        &&& ((v >> 44u64) & 0x7) as u8 == n & 7u8
        &&& ((v >> 47u64) & 0x1_FFFF) as u32 == d & 0x1_FFFF
    }) by (bit_vector);
}

/// The six fields of an entry occupy disjoint bit ranges: the bits an entry
/// sets for one field never overlap the bits another field sets, and the
/// full entry is the union of its per-field entries.
pub proof fn lemma_visbuf_fields_disjoint(vp: u32, bid: u32, ao: u8, qid: u32, n: u8, d: u32)
    ensures
        ({
            let a = visbuf_pack_spec(vp, 0, 0, 0, 0, 0);
            let b = visbuf_pack_spec(0, bid, 0, 0, 0, 0);
            let c = visbuf_pack_spec(0, 0, ao, 0, 0, 0);
            let e = visbuf_pack_spec(0, 0, 0, qid, 0, 0);
            let f = visbuf_pack_spec(0, 0, 0, 0, n, 0);
            let g = visbuf_pack_spec(0, 0, 0, 0, 0, d);
            &&& a & b == 0 && a & c == 0 && a & e == 0 && a & f == 0 && a & g == 0
            &&& b & c == 0 && b & e == 0 && b & f == 0 && b & g == 0
            &&& c & e == 0 && c & f == 0 && c & g == 0
            &&& e & f == 0 && e & g == 0
            &&& f & g == 0
            &&& visbuf_pack_spec(vp, bid, ao, qid, n, d) == a | b | c | e | f | g
        }),
{
    assert({
        let a = visbuf_pack_spec(vp, 0, 0, 0, 0, 0);
        let b = visbuf_pack_spec(0, bid, 0, 0, 0, 0);
        let c = visbuf_pack_spec(0, 0, ao, 0, 0, 0);
        let e = visbuf_pack_spec(0, 0, 0, qid, 0, 0);
        let f = visbuf_pack_spec(0, 0, 0, 0, n, 0);
        let g = visbuf_pack_spec(0, 0, 0, 0, 0, d);
        &&& a & b == 0 && a & c == 0 && a & e == 0 && a & f == 0 && a & g == 0
        &&& b & c == 0 && b & e == 0 && b & f == 0 && b & g == 0
        &&& c & e == 0 && c & f == 0 && c & g == 0
        &&& e & f == 0 && e & g == 0
        &&& f & g == 0
        &&& visbuf_pack_spec(vp, bid, ao, qid, n, d) == a | b | c | e | f | g
    }) by (bit_vector);
}

/// GPU-ready mirror of a [`PackedQuad`] (identical 8-byte layout).
#[derive(Clone, Copy, Debug, Default, PartialEq, Eq)]
pub struct PackedQuadGpu {
    pub data: [u8; 8],
}

impl PackedQuadGpu {
    pub fn from_packed_quad(q: &PackedQuad) -> (r: Self)
        ensures
            r.data == q.data,
    {
        PackedQuadGpu { data: q.data }
    }
}

/// The byte image of a quad batch: each quad's 8 bytes in order.
pub open spec fn quad_bytes(qs: Seq<PackedQuad>) -> Seq<u8>
    decreases qs.len(),
{
    if qs.len() == 0 {
        Seq::empty()
    } else {
        quad_bytes(qs.drop_last()) + qs.last().data@
    }
}

pub proof fn lemma_quad_bytes_len(qs: Seq<PackedQuad>)
    ensures
        quad_bytes(qs).len() == 8 * qs.len(),
    decreases qs.len(),
{
    if qs.len() > 0 {
        lemma_quad_bytes_len(qs.drop_last());
    }
}

/// Flatten a quad batch to its byte image.
pub fn pack_batch(batch: &[PackedQuad]) -> (r: Vec<u8>)
    ensures
        r@ == quad_bytes(batch@),
{
    let mut out: Vec<u8> = Vec::new();
    let mut k: usize = 0;
    while k < batch.len()
        invariant
            k <= batch@.len(),
            out@ == quad_bytes(batch@.take(k as int)),
        decreases batch@.len() - k,
    {
        let g = PackedQuadGpu::from_packed_quad(&batch[k]);
        let mut b: usize = 0;
        let ghost prev = out@;
        while b < 8
            invariant
                b <= 8,
                out@ == prev + g.data@.take(b as int),
            decreases 8 - b,
        {
            out.push(g.data[b]);
            b += 1;
            assert(out@ =~= prev + g.data@.take(b as int));
        }
        assert(batch@.take(k + 1).drop_last() =~= batch@.take(k as int));
        assert(g.data@.take(8) =~= g.data@);
        k += 1;
    }
    assert(batch@.take(batch@.len() as int) =~= batch@);
    out
}

/// Byte images of a mesh's opaque and transparent batches.
pub fn meshdata_to_gpu_bytes(mesh: &MeshData) -> (r: (Vec<u8>, Vec<u8>))
    ensures
        r.0@ == quad_bytes(mesh.opaque@),
        r.1@ == quad_bytes(mesh.transparent@),
{
    let opaque = pack_batch(mesh.opaque.as_slice());
    let transparent = pack_batch(mesh.transparent.as_slice());
    (opaque, transparent)
}

/// Bytes uploaded for the depth pre-pass: the opaque image followed by the
/// transparent image.
pub fn mesh_prepass_bytes(mesh: &MeshData) -> (r: Vec<u8>)
    ensures
        r@ == mesh.opaque_gpu@ + mesh.transparent_gpu@,
{
    let mut out: Vec<u8> = Vec::new();
    let mut k: usize = 0;
    while k < mesh.opaque_gpu.len()
        invariant
            k <= mesh.opaque_gpu@.len(),
            out@ == mesh.opaque_gpu@.take(k as int),
        decreases mesh.opaque_gpu@.len() - k,
    {
        out.push(mesh.opaque_gpu[k]);
        k += 1;
        assert(out@ =~= mesh.opaque_gpu@.take(k as int));
    }
    let mut t: usize = 0;
    while t < mesh.transparent_gpu.len()
        invariant
            t <= mesh.transparent_gpu@.len(),
            out@ == mesh.opaque_gpu@ + mesh.transparent_gpu@.take(t as int),
        decreases mesh.transparent_gpu@.len() - t,
    {
        out.push(mesh.transparent_gpu[t]);
        t += 1;
        assert(out@ =~= mesh.opaque_gpu@ + mesh.transparent_gpu@.take(t as int));
    }
    assert(mesh.opaque_gpu@.take(mesh.opaque_gpu@.len() as int) =~= mesh.opaque_gpu@);
    assert(mesh.transparent_gpu@.take(mesh.transparent_gpu@.len() as int) =~= mesh.transparent_gpu@);
    out
}

} // verus!

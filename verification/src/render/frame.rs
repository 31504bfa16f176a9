//! Frame assembly: which sector meshes a frame draws, and the flattened
//! per-quad upload the visibility pre-pass reads (quad records, the sector
//! each quad belongs to, and its sector-local quad id).

use vstd::prelude::*;

use crate::meshing::greedy::MeshData;

verus! {

/// The meshes to draw: the visible ones, or every mesh when culling left
/// none (a defensive fallback).
pub fn render_set(visible: Vec<usize>, mesh_count: usize) -> (r: Vec<usize>)
    ensures
        visible@.len() > 0 ==> r@ == visible@,
        visible@.len() == 0 ==> r@ == Seq::new(mesh_count as nat, |i: int| i as usize),
{
    if visible.len() > 0 {
        return visible;
    }
    let mut all: Vec<usize> = Vec::new();
    let mut i: usize = 0;
    while i < mesh_count
        invariant
            i <= mesh_count,
            all@ == Seq::new(i as nat, |k: int| k as usize),
        decreases mesh_count - i,
    {
        all.push(i);
        assert(all@ =~= Seq::new((i + 1) as nat, |k: int| k as usize));
        i = i + 1;
    }
    all
}

/// Opaque quads of a mesh: whole 8-byte records of its GPU image.
pub open spec fn quads_of(m: MeshData) -> nat {
    m.opaque_gpu@.len() / 8
}

/// Quads drawn for the meshes in `order`.
pub open spec fn frame_quad_count(meshes: Seq<MeshData>, order: Seq<usize>) -> nat
    decreases order.len(),
{
    if order.len() == 0 {
        0
    } else {
        frame_quad_count(meshes, order.drop_last()) + quads_of(meshes[order.last() as int])
    }
}

/// The quad buffer: the opaque GPU images of the meshes in `order`, end to end.
pub open spec fn frame_bytes(meshes: Seq<MeshData>, order: Seq<usize>) -> Seq<u8>
    decreases order.len(),
{
    if order.len() == 0 {
        Seq::empty()
    } else {
        frame_bytes(meshes, order.drop_last()) + meshes[order.last() as int].opaque_gpu@
    }
}

/// Per quad, its sector id: the mesh's position in `order` (after culling).
pub open spec fn frame_sector_ids(meshes: Seq<MeshData>, order: Seq<usize>) -> Seq<u32>
    decreases order.len(),
{
    if order.len() == 0 {
        Seq::empty()
    } else {
        frame_sector_ids(meshes, order.drop_last()) + Seq::new(
            quads_of(meshes[order.last() as int]),
            |i: int| (order.len() - 1) as u32,
        )
    }
}

/// Per quad, the index of the mesh it came from (whose origin it takes).
pub open spec fn frame_mesh_of_quad(meshes: Seq<MeshData>, order: Seq<usize>) -> Seq<usize>
    decreases order.len(),
{
    if order.len() == 0 {
        Seq::empty()
    } else {
        frame_mesh_of_quad(meshes, order.drop_last()) + Seq::new(
            quads_of(meshes[order.last() as int]),
            |i: int| order.last(),
        )
    }
}

/// The flattened pre-pass upload of one frame.
pub struct FrameUpload {
    /// Quad records, 8 bytes each.
    pub bytes: Vec<u8>,
    /// Per quad, the index of its mesh (for its world origin).
    pub mesh_of_quad: Vec<usize>,
    /// Per quad, its mesh's position in the draw order.
    pub sector_ids: Vec<u32>,
    /// Per quad, its running quad id: `0, 1, 2, ...`.
    pub quad_ids: Vec<u32>,
}

proof fn lemma_prefix_count(meshes: Seq<MeshData>, order: Seq<usize>, k: int)
    requires
        0 <= k <= order.len(),
    ensures
        frame_quad_count(meshes, order.subrange(0, k)) <= frame_quad_count(meshes, order),
    decreases order.len(),
{
    if k < order.len() {
        lemma_prefix_count(meshes, order.drop_last(), k);
        assert(order.drop_last().subrange(0, k) =~= order.subrange(0, k));
    } else {
        assert(order.subrange(0, k) =~= order);
    }
}

/// Flatten the meshes in draw order `order` into the pre-pass upload.
pub fn flatten_frame(meshes: &[MeshData], order: &[usize]) -> (r: FrameUpload)
    requires
        forall|k: int| 0 <= k < order@.len() ==> order@[k] < meshes@.len(),
        order@.len() <= u32::MAX,
        frame_quad_count(meshes@, order@) <= u32::MAX,
    ensures
        r.bytes@ == frame_bytes(meshes@, order@),
        r.sector_ids@ == frame_sector_ids(meshes@, order@),
        r.mesh_of_quad@ == frame_mesh_of_quad(meshes@, order@),
        r.quad_ids@ == Seq::new(frame_quad_count(meshes@, order@), |i: int| i as u32),
{
    let mut bytes: Vec<u8> = Vec::new();
    let mut mesh_of_quad: Vec<usize> = Vec::new();
    let mut sector_ids: Vec<u32> = Vec::new();
    let mut quad_ids: Vec<u32> = Vec::new();
    let mut next: u32 = 0;
    let mut k: usize = 0;
    while k < order.len()
        invariant
            forall|j: int| 0 <= j < order@.len() ==> order@[j] < meshes@.len(),
            order@.len() <= u32::MAX,
            frame_quad_count(meshes@, order@) <= u32::MAX,
            k <= order@.len(),
            next == frame_quad_count(meshes@, order@.subrange(0, k as int)),
            bytes@ == frame_bytes(meshes@, order@.subrange(0, k as int)),
            sector_ids@ == frame_sector_ids(meshes@, order@.subrange(0, k as int)),
            mesh_of_quad@ == frame_mesh_of_quad(meshes@, order@.subrange(0, k as int)),
            quad_ids@ == Seq::new(next as nat, |i: int| i as u32),
        decreases order@.len() - k,
    {
        let ghost pre = order@.subrange(0, k as int);
        let ghost cur = order@.subrange(0, k + 1);
        proof {
            assert(cur.drop_last() =~= pre);
            assert(cur.last() == order@[k as int]);
            lemma_prefix_count(meshes@, order@, k + 1);
        }
        let mi = order[k];
        let m = &meshes[mi];
        let n = m.opaque_gpu.len() / 8;
        bytes.extend_from_slice(m.opaque_gpu.as_slice());
        let ghost s0 = sector_ids@;
        let ghost m0 = mesh_of_quad@;
        let ghost q0 = quad_ids@;
        let mut i: usize = 0;
        while i < n
            invariant
                n == quads_of(meshes@[mi as int]),
                i <= n,
                next as int + n <= u32::MAX,
                k <= u32::MAX,
                sector_ids@ == s0 + Seq::new(i as nat, |t: int| k as u32),
                mesh_of_quad@ == m0 + Seq::new(i as nat, |t: int| mi),
                quad_ids@ == q0 + Seq::new(i as nat, |t: int| (next + t) as u32),
            decreases n - i,
        {
            sector_ids.push(k as u32);
            mesh_of_quad.push(mi);
            quad_ids.push(next + i as u32);
            assert(sector_ids@ =~= s0 + Seq::new((i + 1) as nat, |t: int| k as u32));
            assert(mesh_of_quad@ =~= m0 + Seq::new((i + 1) as nat, |t: int| mi));
            assert(quad_ids@ =~= q0 + Seq::new((i + 1) as nat, |t: int| (next + t) as u32));
            i = i + 1;
        }
        proof {
            assert(sector_ids@ =~= frame_sector_ids(meshes@, cur));
            assert(mesh_of_quad@ =~= frame_mesh_of_quad(meshes@, cur));
            assert(quad_ids@ =~= Seq::new((next + n) as nat, |t: int| t as u32));
        }
        next = next + n as u32;
        k = k + 1;
    }
    assert(order@.subrange(0, order@.len() as int) =~= order@);
    FrameUpload { bytes, mesh_of_quad, sector_ids, quad_ids }
}

} // verus!

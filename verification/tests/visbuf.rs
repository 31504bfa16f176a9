use strata::meshing::greedy::MeshData;
use strata::meshing::packed_quad::PackedQuad;
use strata::meshing::visbuf::{
    meshdata_to_gpu_bytes, mesh_prepass_bytes, PackedQuadGpu, VisBufEntry, AO_CORNERS_MASK,
    AO_CORNERS_SHIFT, BLOCK_ID_MASK, BLOCK_ID_SHIFT, DEPTH_MASK, DEPTH_SHIFT, NORMAL_MASK,
    NORMAL_SHIFT, QUAD_ID_MASK, QUAD_ID_SHIFT, VOXEL_POS_MASK,
};

const MAX_VOXEL_POS: u32 = (1u32 << 15) - 1;
const MAX_BLOCK_ID: u32 = (1u32 << 4) - 1;
const MAX_AO_CORNERS: u8 = 0xFF;
const MAX_QUAD_ID: u32 = (1u32 << 17) - 1;
const MAX_NORMAL: u8 = 0x7;
const MAX_DEPTH: u32 = (1u32 << 17) - 1;

fn pack_max_all() -> VisBufEntry {
    VisBufEntry::pack(
        MAX_VOXEL_POS,
        MAX_BLOCK_ID,
        MAX_AO_CORNERS,
        MAX_QUAD_ID,
        MAX_NORMAL,
        MAX_DEPTH,
    )
}

#[test]
fn test_visbuf_round_trip_max_values() {
    let e = pack_max_all();
    assert_eq!(e.voxel_pos(), MAX_VOXEL_POS);
    assert_eq!(e.block_id(), MAX_BLOCK_ID);
    let ao = e.ao_corners();
    assert_eq!(ao, [3, 3, 3, 3]);
    assert_eq!(e.ao_max(), 3);
    assert_eq!(e.quad_id(), MAX_QUAD_ID);
    assert_eq!(e.normal(), MAX_NORMAL);
    assert_eq!(e.depth(), MAX_DEPTH);
}

#[test]
fn test_visbuf_round_trip_zero() {
    let e = VisBufEntry::pack(0, 0, 0, 0, 0, 0);
    assert_eq!(e.voxel_pos(), 0);
    assert_eq!(e.block_id(), 0);
    assert_eq!(e.ao_corners(), [0, 0, 0, 0]);
    assert_eq!(e.ao_max(), 0);
    assert_eq!(e.quad_id(), 0);
    assert_eq!(e.normal(), 0);
    assert_eq!(e.depth(), 0);
    assert_eq!(e.raw(), 0);
}

#[test]
fn test_visbuf_round_trip_scattered() {
    let cases: [(u32, u32, u8, u32, u8, u32); 8] = [
        (0x3BCD, 0x5, 0xFF, 0x1234, 0x3, 0x1FFFF),
        (1, 1, 0x5A, 1, 1, 1),
        (MAX_VOXEL_POS, 0, 0, 0, 0, 0),
        (0, MAX_BLOCK_ID, 0, 0, 0, 0),
        (0, 0, MAX_AO_CORNERS, 0, 0, 0),
        (0, 0, 0, MAX_QUAD_ID, 0, 0),
        (0, 0, 0, 0, MAX_NORMAL, 0),
        (0, 0, 0, 0, 0, MAX_DEPTH),
    ];
    for (vp, bid, ao, qid, n, d) in cases {
        let e = VisBufEntry::pack(vp, bid, ao, qid, n, d);
        assert_eq!(e.voxel_pos(), vp, "voxel_pos round-trip");
        assert_eq!(e.block_id(), bid, "block_id round-trip");
        assert_eq!(e.ao_corners(), {
            let a = ao;
            [a & 0x3, (a >> 2) & 0x3, (a >> 4) & 0x3, (a >> 6) & 0x3]
        });
        assert_eq!(e.quad_id(), qid, "quad_id round-trip");
        assert_eq!(e.normal(), n, "normal round-trip");
        assert_eq!(e.depth(), d, "depth round-trip");
    }
}

#[test]
fn test_visbuf_field_boundaries_no_bleed() {
    let vp = VisBufEntry::pack(MAX_VOXEL_POS, 0, 0, 0, 0, 0).raw();
    let bid = VisBufEntry::pack(0, MAX_BLOCK_ID, 0, 0, 0, 0).raw();
    let ao = VisBufEntry::pack(0, 0, MAX_AO_CORNERS, 0, 0, 0).raw();
    let qid = VisBufEntry::pack(0, 0, 0, MAX_QUAD_ID, 0, 0).raw();
    let n = VisBufEntry::pack(0, 0, 0, 0, MAX_NORMAL, 0).raw();
    let d = VisBufEntry::pack(0, 0, 0, 0, 0, MAX_DEPTH).raw();
    assert_eq!(vp & bid, 0, "voxel_pos/block_id overlap");
    assert_eq!(vp & ao, 0, "voxel_pos/ao_corners overlap");
    assert_eq!(vp & qid, 0, "voxel_pos/quad_id overlap");
    assert_eq!(vp & n, 0, "voxel_pos/normal overlap");
    assert_eq!(vp & d, 0, "voxel_pos/depth overlap");
    assert_eq!(bid & ao, 0, "block_id/ao_corners overlap");
    assert_eq!(bid & qid, 0, "block_id/quad_id overlap");
    assert_eq!(bid & n, 0, "block_id/normal overlap");
    assert_eq!(bid & d, 0, "block_id/depth overlap");
    assert_eq!(ao & qid, 0, "ao_corners/quad_id overlap");
    assert_eq!(ao & n, 0, "ao_corners/normal overlap");
    assert_eq!(ao & d, 0, "ao_corners/depth overlap");
    assert_eq!(qid & n, 0, "quad_id/normal overlap");
    assert_eq!(qid & d, 0, "quad_id/depth overlap");
    assert_eq!(n & d, 0, "normal/depth overlap");
}

#[test]
fn test_visbuf_empty_is_far_depth() {
    let e = VisBufEntry::empty();
    assert_eq!(e.depth(), MAX_DEPTH);
    assert_eq!(e.voxel_pos(), 0);
    assert_eq!(e.block_id(), 0);
    assert_eq!(e.ao_corners(), [0, 0, 0, 0]);
    assert_eq!(e.quad_id(), 0);
    assert_eq!(e.normal(), 0);
}

#[test]
fn test_visbuf_masks_overwide_inputs() {
    let e = VisBufEntry::pack(u32::MAX, u32::MAX, 0xFF, u32::MAX, 0xFF, u32::MAX);
    assert_eq!(e.voxel_pos(), MAX_VOXEL_POS);
    assert_eq!(e.block_id(), MAX_BLOCK_ID);
    assert_eq!(e.quad_id(), MAX_QUAD_ID);
    assert_eq!(e.normal(), MAX_NORMAL);
    assert_eq!(e.depth(), MAX_DEPTH);
}

#[test]
fn test_visbuf_quad_id_past_64k_round_trips() {
    for qid in [65_536u32, 100_000, 118_259, MAX_QUAD_ID] {
        let e = VisBufEntry::pack(0x1234, 0xC, 0x5A, qid, 5, 0x1FFFF);
        assert_eq!(e.quad_id(), qid, "quad_id={qid} must not truncate");
        assert_eq!(e.voxel_pos(), 0x1234);
        assert_eq!(e.block_id(), 0xC);
        assert_eq!(e.depth(), 0x1FFFF);
    }
}

fn gpu_records(bytes: &[u8]) -> Vec<[u8; 8]> {
    bytes
        .chunks(8)
        .map(|c| {
            let mut a = [0u8; 8];
            a.copy_from_slice(c);
            a
        })
        .collect()
}

#[test]
fn test_meshdata_to_gpu_bytes() {
    let mut mesh = MeshData::default();
    let q1 = PackedQuad::new(0, 0, 0, 1, 1, 0, 1, 0, 0, 0);
    let q2 = PackedQuad::new(5, 5, 5, 2, 2, 1, 2, 0, 0, 0);
    let qt = PackedQuad::new(1, 1, 1, 1, 1, 2, 3, 0, 0, 0);
    mesh.opaque.push(q1);
    mesh.opaque.push(q2);
    mesh.transparent.push(qt);

    let (opaque, transparent) = meshdata_to_gpu_bytes(&mesh);
    assert_eq!(opaque.len(), 2 * 8);
    assert_eq!(transparent.len(), 8);

    let cast = gpu_records(&opaque);
    assert_eq!(cast[0], q1.data);
    assert_eq!(cast[1], q2.data);
    let cast_t = gpu_records(&transparent);
    assert_eq!(cast_t[0], qt.data);
    assert_eq!(PackedQuadGpu::from_packed_quad(&q2).data, q2.data);
}

#[test]
fn prepass_bytes_include_transparent_batch() {
    let mut mesh = MeshData::default();
    let qo = PackedQuad::new(0, 0, 0, 1, 1, 0, 1, 0, 0, 0);
    let qt = PackedQuad::new(1, 1, 1, 1, 1, 2, 3, 0, 0, 0);
    mesh.opaque.push(qo);
    mesh.transparent.push(qt);
    let (opaque_gpu, transparent_gpu) = meshdata_to_gpu_bytes(&mesh);
    mesh.opaque_gpu = opaque_gpu;
    mesh.transparent_gpu = transparent_gpu;

    let upload = mesh_prepass_bytes(&mesh);
    assert_eq!(
        upload.len(),
        mesh.opaque_gpu.len() + mesh.transparent_gpu.len(),
        "transparent quads must reach the prepass upload"
    );

    let mut transparent_only = MeshData::default();
    transparent_only.transparent_gpu = mesh.transparent_gpu.clone();
    assert_eq!(
        mesh_prepass_bytes(&transparent_only).len(),
        8,
        "transparent-only sector (e.g. leaf/water) must not upload empty"
    );
}

#[test]
fn test_visbuf_17bit_depth_precision() {
    assert_eq!(DEPTH_SHIFT, 47, "depth shift must start at bit 47");
    assert_eq!(QUAD_ID_MASK, (1 << 17) - 1, "17-bit quad_id mask");
    let entry = VisBufEntry::pack(0, 0, 0, 0, 0, 131_071);
    assert_eq!(entry.depth(), 131_071);
}

#[test]
fn test_visbuf_cpu_gpu_layout_consistency() {
    assert_eq!(BLOCK_ID_SHIFT, 15, "block_id shift must be 15 (GPU << 15u)");
    assert_eq!(AO_CORNERS_SHIFT, 19, "ao_corners shift must be 19 (GPU << 19u)");
    assert_eq!(QUAD_ID_SHIFT, 27, "quad_id shift must be 27 (GPU << 27u)");
    assert_eq!(NORMAL_SHIFT, 44, "normal shift must be 44 (GPU << 44u)");
    assert_eq!(DEPTH_SHIFT, 47, "depth shift must be 47 (GPU << 47u)");

    assert_eq!(VOXEL_POS_MASK, 0x7FFF, "voxel_pos mask must be 0x7FFF (GPU)");
    assert_eq!(BLOCK_ID_MASK, 0xF, "block_id mask must be 0xF (GPU)");
    assert_eq!(AO_CORNERS_MASK, 0xFF, "ao_corners mask must be 0xFF (GPU)");
    assert_eq!(QUAD_ID_MASK, 0x1_FFFF, "quad_id mask must be 0x1FFFF (GPU)");
    assert_eq!(NORMAL_MASK, 0x7, "normal mask must be 0x7 (GPU)");
    assert_eq!(DEPTH_MASK, 0x1_FFFF, "depth mask must be 0x1FFFF (GPU)");

    let e = VisBufEntry::pack(0x3BCD, 0xC, 0x5A, 0x1_4242, 5, 0x1FFFF);
    let raw = e.raw();
    assert_eq!(raw & 0x7FFF, 0x3BCD, "voxel_pos at bit[0:15]");
    assert_eq!((raw >> 15) & 0xF, 0xC, "block_id at bit[15:19]");
    assert_eq!((raw >> 19) & 0xFF, 0x5A, "ao_corners at bit[19:27]");
    assert_eq!((raw >> 27) & 0x1_FFFF, 0x1_4242, "quad_id at bit[27:43]");
    assert_eq!((raw >> 44) & 0x7, 5, "normal at bit[44:46]");
    assert_eq!((raw >> 47) & 0x1_FFFF, 0x1FFFF, "depth at bit[47:63]");
}

#[test]
fn visbuf_ao_max_picks_largest_corner() {
    let e = VisBufEntry::pack(0, 0, 0b00_10_01_00, 0, 0, 0);
    assert_eq!(e.ao_corners(), [0, 1, 2, 0]);
    assert_eq!(e.ao_max(), 2);
}

use strata::meshing::block::{BlockId, VoxelCoord};
use strata::meshing::greedy::{MeshData, SectorLightView};
use strata::meshing::plane::{boundary_plane, neighbor_offsets};
use strata::storage::coord::SectorCoord;
use strata::render::frame::{flatten_frame, render_set};

fn mesh_with_quads(n: usize, tag: u8) -> MeshData {
    let mut m = MeshData::default();
    m.opaque_gpu = vec![tag; 8 * n];
    m
}

#[test]
fn render_set_falls_back_to_every_mesh() {
    assert_eq!(render_set(vec![2, 0], 3), vec![2, 0]);
    assert_eq!(render_set(vec![], 3), vec![0, 1, 2]);
    assert_eq!(render_set(vec![], 0), Vec::<usize>::new());
}

#[test]
fn sector_ids_use_the_post_cull_index() {
    let meshes = vec![mesh_with_quads(2, 0xA), mesh_with_quads(0, 0xB), mesh_with_quads(3, 0xC)];
    // culling kept meshes 2 and 0, in that order
    let up = flatten_frame(&meshes, &[2, 0]);
    assert_eq!(up.bytes.len(), 5 * 8);
    assert!(up.bytes[..24].iter().all(|b| *b == 0xC));
    assert!(up.bytes[24..].iter().all(|b| *b == 0xA));
    assert_eq!(up.sector_ids, vec![0, 0, 0, 1, 1]);
    assert_eq!(up.mesh_of_quad, vec![2, 2, 2, 0, 0]);
    assert_eq!(up.quad_ids, vec![0, 1, 2, 3, 4]);
    let empty = flatten_frame(&meshes, &[1]);
    assert!(empty.bytes.is_empty() && empty.quad_ids.is_empty());
}

#[test]
fn boundary_plane_takes_the_facing_slab() {
    let mut snap = vec![BlockId(0); 32768];
    snap[0 + 3 * 32 + 4 * 1024] = BlockId(7); // x = 0, y = 3, z = 4
    snap[31 + 5 * 32 + 6 * 1024] = BlockId(8); // x = 31, y = 5, z = 6
    let pos_x = boundary_plane(&snap, 0);
    assert_eq!(pos_x.len(), 1024);
    assert_eq!(pos_x[3 * 32 + 4], BlockId(7));
    let neg_x = boundary_plane(&snap, 1);
    assert_eq!(neg_x[5 * 32 + 6], BlockId(8));
    assert_eq!(neg_x.iter().filter(|b| **b != BlockId(0)).count(), 1);
    let pos_z = boundary_plane(&snap, 4);
    assert!(pos_z.iter().all(|b| *b == BlockId(0)));
}

#[test]
fn neighbor_offsets_follow_plane_direction_order() {
    let n = neighbor_offsets(SectorCoord(5, -1, 0));
    assert_eq!(n[0], SectorCoord(6, -1, 0));
    assert_eq!(n[1], SectorCoord(4, -1, 0));
    assert_eq!(n[2], SectorCoord(5, 0, 0));
    assert_eq!(n[3], SectorCoord(5, -2, 0));
    assert_eq!(n[4], SectorCoord(5, -1, 1));
    assert_eq!(n[5], SectorCoord(5, -1, -1));
}

#[test]
fn light_view_reads_sky_and_block_nibbles() {
    let mut data = vec![0u16; 32768];
    data[(2 * 32 + 3) * 32 + 1] = 0x00A7;
    let view = SectorLightView::from_light_data(&data);
    let s = view.get(VoxelCoord::new(1, 2, 3));
    assert_eq!((s.sky, s.block), (7, 10));
    let s0 = SectorLightView::new(&data).get(VoxelCoord::new(0, 0, 0));
    assert_eq!((s0.sky, s0.block), (0, 0));
}

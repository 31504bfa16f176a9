use strata::meshing::block::{BlockId, BlockRegistry};
use strata::meshing::greedy::{GreedyMesher, MeshData};
use strata::meshing::merge::greedy_merge;
use strata::meshing::occupancy::{fill_scratch, OccupancyScratch, SECTOR_DIM, WORDS};
use strata::meshing::packed_quad::{FaceDir, PackedQuad, PackedVertex4};
use strata::meshing::schedule::{
    frame_mesh_budget, max_inflight, select_mesh_work, skip_neighbor_planes, FULL_SHELL_SECTORS, MESH_BUDGET,
};

const STONE: BlockId = BlockId(1);
const GLASS: BlockId = BlockId(2);

fn registry() -> BlockRegistry {
    // air, stone, glass, then five more opaque blocks
    BlockRegistry::new(vec![true, false, true, false, false, false, false, false])
}

fn empty_sector() -> Vec<BlockId> {
    vec![BlockId(0); 32 * 32 * 32]
}

fn set(v: &mut [BlockId], x: usize, y: usize, z: usize, b: BlockId) {
    v[x + y * 32 + z * 1024] = b;
}

fn mesh(vox: &[BlockId], neighbors: &[Option<&[BlockId]>]) -> MeshData {
    let reg = registry();
    let mesher = GreedyMesher::new(&reg);
    mesher.mesh_sector_planes(vox, neighbors, &reg, None)
}

fn unloaded() -> Vec<Option<&'static [BlockId]>> {
    vec![None; 6]
}

#[test]
fn packed_quad_round_trips() {
    let q = PackedQuad::new(3, 17, 25, 8, 4, 4, 11, PackedQuad::pack_ao([0, 1, 2, 3]), 0xAB, 0x7);
    assert_eq!(q.repack(), q, "pack -> unpack -> pack must be identical");
    assert_eq!(q.x(), 3);
    assert_eq!(q.y(), 17);
    assert_eq!(q.z(), 25);
    assert_eq!(q.width(), 8);
    assert_eq!(q.height(), 4);
    assert_eq!(q.face() as u8, 4);
    assert_eq!(q.block_type(), 11);
    assert_eq!(q.ao(), [0, 1, 2, 3]);
    assert_eq!(q.light(), 0xAB);
    assert_eq!(q.flags(), 0x7);
}

#[test]
fn packed_vertex4_round_trips() {
    let v = PackedVertex4::pack([10, 20, 30], 2, [1, 0], 3, 5);
    let (pos, normal, uv, ao, color) = v.unpack();
    assert_eq!(pos, [10, 20, 30]);
    assert_eq!(normal, 2);
    assert_eq!(uv, [1, 0]);
    assert_eq!(ao, 3);
    assert_eq!(color, 5);
    let q = PackedQuad::new(1, 2, 3, 4, 5, 0, 7, 0, 0, 0);
    for c in 0..4u8 {
        let vtx = q.vertex(c);
        let (p, _, _, _, _) = vtx.unpack();
        assert_eq!(p, q.corner_pos(c));
    }
}

#[test]
fn single_block_emits_six_quads() {
    let mut vox = empty_sector();
    set(&mut vox, 5, 5, 5, STONE);
    let mesh = mesh(&vox, &unloaded());
    assert_eq!(mesh.total_quads(), 6, "a lone block has exactly 6 faces");
    assert_eq!(mesh.opaque.len(), 6);
    assert!(mesh.transparent.is_empty());
    for q in &mesh.opaque {
        assert_eq!(q.ao(), [3, 3, 3, 3]);
    }
}

#[test]
fn loaded_solid_neighbor_culls_the_shared_face() {
    // A full sector beside a full +X neighbour: the shared face is culled and
    // the five faces toward unloaded neighbours remain. Their cells along the
    // shared edge read the neighbour's plane for corner occlusion, so each of
    // the four faces that touch that edge splits into two AO-uniform quads.
    let vox = vec![STONE; 32 * 32 * 32];
    let plane = vec![STONE; 1024];
    let mut neighbors: Vec<Option<&[BlockId]>> = vec![None; 6];
    neighbors[0] = Some(&plane);
    let mesh = mesh(&vox, &neighbors);
    assert!(mesh.opaque.iter().all(|q| q.face() as u8 != 0), "+X face is culled");
    assert_eq!(mesh.opaque.iter().filter(|q| q.face() as u8 == 1).count(), 1);
    assert_eq!(mesh.total_quads(), 9);
}

#[test]
fn face_quad_sits_on_correct_boundary() {
    let mut vox = empty_sector();
    set(&mut vox, 5, 5, 5, STONE);
    let mesh = mesh(&vox, &unloaded());
    let get = |face: u8| -> PackedQuad {
        *mesh
            .opaque
            .iter()
            .find(|q| q.face() as u8 == face)
            .unwrap_or_else(|| panic!("missing face {face}"))
    };
    assert_eq!(get(2).y(), 5, "+Y owns voxel y=5 (shader places plane at 6)");
    assert_eq!(get(2).x(), 5);
    assert_eq!(get(2).z(), 5);
    assert_eq!(get(3).y(), 5, "-Y owns voxel y=5 (plane at 5)");
    assert_eq!(get(0).x(), 5, "+X owns voxel x=5 (shader places plane at 6)");
    assert_eq!(get(1).x(), 5, "-X owns voxel x=5");
    assert_eq!(get(4).z(), 5, "+Z owns voxel z=5 (shader places plane at 6)");
    assert_eq!(get(5).z(), 5, "-Z owns voxel z=5");
}

#[test]
fn fully_filled_sector_emits_no_quads() {
    let vox = vec![STONE; 32 * 32 * 32];
    let mesh = mesh(&vox, &unloaded());
    assert_eq!(mesh.total_quads(), 6, "a full sector exposes only its 6 boundary faces");
}

#[test]
fn greedy_merges_far_below_naive() {
    let mut vox = empty_sector();
    for x in 0..32 {
        for z in 0..32 {
            set(&mut vox, x, 0, z, STONE);
        }
    }
    let mesh = mesh(&vox, &unloaded());
    let top = mesh.opaque.iter().filter(|q| q.face() as u8 == 2).count();
    assert_eq!(top, 1, "flat top surface must merge to one quad");
    assert_eq!(mesh.total_quads(), 6, "layer exposes top+bottom+4 sides");
    let naive = 6 * 32 * 32;
    assert!(mesh.total_quads() * 1000 < naive, "greedy must be far below naive");
}

#[test]
fn transparent_block_goes_to_transparent_batch() {
    let mut vox = empty_sector();
    set(&mut vox, 5, 5, 5, GLASS);
    let mesh = mesh(&vox, &unloaded());
    assert_eq!(mesh.transparent.len(), 6);
    assert!(mesh.opaque.is_empty());
}

#[test]
fn random_fill_stays_below_naive() {
    let reg = registry();
    let mut vox = empty_sector();
    for x in 0..32u32 {
        for y in 0..32u32 {
            for z in 0..32u32 {
                if (x ^ y ^ z) % 3 == 0 {
                    let id = BlockId((((x + y + z) % (reg.count() as u32)) as u16).max(1));
                    set(&mut vox, x as usize, y as usize, z as usize, id);
                }
            }
        }
    }
    let mesh = mesh(&vox, &unloaded());
    let naive = 6 * 32 * 32 * 32;
    assert!(mesh.total_quads() < naive / 2, "greedy must beat naive substantially");
}

#[test]
fn bit_index_unique_and_in_range() {
    let mut seen = [0u64; WORDS];
    for x in 0..SECTOR_DIM {
        for y in 0..SECTOR_DIM {
            for z in 0..SECTOR_DIM {
                let i = OccupancyScratch::bit_index(x, y, z);
                assert!(i < WORDS * 64, "bit index {i} out of range");
                assert_eq!(seen[i >> 6] & (1u64 << (i & 63)), 0, "collision at {x},{y},{z}");
                seen[i >> 6] |= 1u64 << (i & 63);
            }
        }
    }
}

#[test]
fn set_and_query_round_trip() {
    let mut s = OccupancyScratch::new();
    assert!(!s.is_occupied(5, 6, 7));
    s.set(5, 6, 7);
    assert!(s.is_occupied(5, 6, 7));
    s.clear_bit(5, 6, 7);
    assert!(!s.is_occupied(5, 6, 7));
}

#[test]
fn fill_scratch_marks_exactly_the_solid_voxels() {
    let mut vox = empty_sector();
    set(&mut vox, 0, 0, 0, STONE);
    set(&mut vox, 31, 31, 31, GLASS);
    let mut s = OccupancyScratch::new();
    s.set(4, 4, 4);
    fill_scratch(&mut s, &vox);
    assert!(s.is_occupied(0, 0, 0));
    assert!(s.is_occupied(31, 31, 31));
    assert!(!s.is_occupied(4, 4, 4));
    assert!(!s.is_occupied(1, 0, 0));
}

#[test]
fn needs_flip_matches_0fps_rule() {
    let cases: [([u8; 4], bool); 4] = [
        ([2, 2, 2, 2], false),
        ([3, 1, 1, 3], true),
        ([1, 3, 3, 1], false),
        ([3, 3, 0, 0], false),
    ];
    for (corners, expected) in cases {
        assert_eq!(PackedQuad::needs_flip(corners), expected, "needs_flip mismatch for {corners:?}");
    }
    assert!(!PackedQuad::needs_flip([0u8, 0, 3, 3]));
}

#[test]
fn face_dir_index_round_trip() {
    for i in 0..6u8 {
        let f = FaceDir::from_index(i);
        assert_eq!(f.index(), i);
        assert_eq!(f as u8, i);
    }
    assert_eq!(FaceDir::PosY.axis(), 1);
    assert_eq!(FaceDir::NegZ.sign(), -1);
    assert_eq!(FaceDir::PosX.sign(), 1);
}

#[test]
fn greedy_merge_covers_two_blocks_of_different_kind() {
    // 32x32 plane: a 2x3 stone patch at (0,0) and a single glass cell at (5,7).
    let mut mask: Vec<Option<BlockId>> = vec![None; 1024];
    let sig = vec![0u8; 1024];
    for i in 0..2 {
        for j in 0..3 {
            mask[i + j * 32] = Some(STONE);
        }
    }
    mask[5 + 7 * 32] = Some(GLASS);
    let rects = greedy_merge(&mask, &sig);
    assert_eq!(rects.len(), 2);
    assert_eq!((rects[0].i, rects[0].j, rects[0].w, rects[0].h), (0, 0, 2, 3));
    assert_eq!(rects[0].block, STONE);
    assert_eq!((rects[1].i, rects[1].j, rects[1].w, rects[1].h), (5, 7, 1, 1));
}

#[test]
fn repack_keeps_the_reserved_geometry_bits() {
    let mut q = PackedQuad::new(1, 2, 3, 4, 5, 0, 6, 7, 8, 9);
    q.data[3] |= 0xC0;
    assert_eq!(q.repack(), q, "re-packing returns an identical byte array");
}

#[test]
fn new_reads_back_the_face_it_was_packed_with() {
    for f in 0u8..6 {
        let q = PackedQuad::new(0, 0, 0, 1, 1, f, 1, 0, 0, 0);
        assert_eq!(q.face() as u8, f);
        assert_eq!(q.face(), FaceDir::from_index(f));
    }
    // only the low three bits are kept
    let q = PackedQuad::new(0, 0, 0, 1, 1, 8 + 3, 1, 0, 0, 0);
    assert_eq!(q.face(), FaceDir::NegY);
}

#[test]
fn mesh_tasks_in_flight_limit() {
    assert_eq!(max_inflight(0), MESH_BUDGET);
    assert_eq!(max_inflight(1), 2);
    assert_eq!(max_inflight(7), 8);
    assert_eq!(max_inflight(usize::MAX), usize::MAX);
}

#[test]
fn mesh_budget_drops_to_one_while_the_world_is_busy() {
    assert_eq!(frame_mesh_budget(false, false, false, None), MESH_BUDGET);
    assert_eq!(frame_mesh_budget(false, false, false, Some(FULL_SHELL_SECTORS)), MESH_BUDGET);
    assert_eq!(frame_mesh_budget(true, false, false, None), 1);
    assert_eq!(frame_mesh_budget(false, true, false, None), 1);
    assert_eq!(frame_mesh_budget(false, false, true, None), 1);
    assert_eq!(frame_mesh_budget(false, false, false, Some(FULL_SHELL_SECTORS - 1)), 1);
}

#[test]
fn neighbor_planes_skipped_while_filling_or_busy() {
    assert!(!skip_neighbor_planes(None, false));
    assert!(skip_neighbor_planes(None, true));
    assert!(skip_neighbor_planes(Some(10), false));
    assert!(!skip_neighbor_planes(Some(343), false));
}

#[test]
fn mesh_work_takes_the_first_sectors_without_a_task() {
    let in_flight = [true, false, false, true, false];
    assert_eq!(select_mesh_work(&in_flight, 2), vec![1, 2]);
    assert_eq!(select_mesh_work(&in_flight, 5), vec![1, 2, 4]);
    assert_eq!(select_mesh_work(&in_flight, 0), Vec::<usize>::new());
    assert_eq!(select_mesh_work(&[], 3), Vec::<usize>::new());
}

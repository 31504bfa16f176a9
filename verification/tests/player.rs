use strata::meshing::block::{BlockId, VoxelCoord};
use strata::player::interaction::{
    boundary_neighbors, facing_voxel, place_target, resolve_place_target, FaceNormal, RayHit,
};
use strata::player::inventory::{Inventory, ItemStack};
use strata::storage::coord::SectorCoord;

#[test]
fn default_active_is_slot_zero() {
    let inv = Inventory::default();
    assert_eq!(inv.active, 0);
    assert_eq!(inv.active_block(), BlockId(1));
    assert_eq!(inv.active_slot(), ItemStack { block: BlockId(1), count: 64 });
}

#[test]
fn scroll_next_cycles_through_all_slots_and_wraps() {
    let mut inv = Inventory::default();
    for i in 1..9 {
        inv.scroll_next();
        assert_eq!(inv.active, i, "slot after {i} scrolls");
    }
    inv.scroll_next();
    assert_eq!(inv.active, 0, "wraps to 0 after last slot");
}

#[test]
fn select_sets_active_slot() {
    let mut inv = Inventory::default();
    inv.select(4);
    assert_eq!(inv.active, 4);
    inv.select(99);
    assert_eq!(inv.active, 4);
}

#[test]
fn scroll_prev_undoes_scroll_next() {
    let mut inv = Inventory::default();
    inv.scroll_prev();
    assert_eq!(inv.active, 8);
    inv.scroll_next();
    assert_eq!(inv.active, 0);
}

#[test]
fn face_normal_delta_and_from_step() {
    assert_eq!(FaceNormal::PosX.delta(), (1, 0, 0));
    assert_eq!(FaceNormal::NegZ.delta(), (0, 0, -1));
    assert_eq!(FaceNormal::from_step(0, 1), FaceNormal::NegX);
    assert_eq!(FaceNormal::from_step(1, -1), FaceNormal::PosY);
    assert_eq!(FaceNormal::from_step(2, 1), FaceNormal::NegZ);
    assert_eq!(FaceNormal::from_step(5, 1), FaceNormal::NegX);
}

#[test]
fn place_target_stays_in_sector_or_refuses() {
    let hit = RayHit { voxel: VoxelCoord::new(4, 5, 6), normal: FaceNormal::PosY, sector_coord: SectorCoord(0, 0, 0) };
    assert_eq!(place_target(&hit), Some(VoxelCoord::new(4, 6, 6)));
    let edge = RayHit { voxel: VoxelCoord::new(31, 5, 6), normal: FaceNormal::PosX, sector_coord: SectorCoord(0, 0, 0) };
    assert_eq!(place_target(&edge), None);
}

#[test]
fn resolve_place_target_crosses_sector_boundaries() {
    let (s, v) = resolve_place_target(SectorCoord(0, 0, 0), VoxelCoord::new(31, 5, 6), FaceNormal::PosX);
    assert_eq!(s, SectorCoord(1, 0, 0));
    assert_eq!(v, VoxelCoord::new(0, 5, 6));
    let (s, v) = resolve_place_target(SectorCoord(2, -3, 4), VoxelCoord::new(0, 0, 0), FaceNormal::NegY);
    assert_eq!(s, SectorCoord(2, -4, 4));
    assert_eq!(v, VoxelCoord::new(0, 31, 0));
    let (s, v) = resolve_place_target(SectorCoord(0, 0, 0), VoxelCoord::new(3, 3, 3), FaceNormal::NegZ);
    assert_eq!(s, SectorCoord(0, 0, 0));
    assert_eq!(v, VoxelCoord::new(3, 3, 2));
}

#[test]
fn edits_on_sector_faces_remesh_the_bordering_neighbours() {
    let sc = SectorCoord(4, -2, 7);
    assert_eq!(boundary_neighbors(sc, VoxelCoord::new(5, 6, 7)), Vec::<SectorCoord>::new());
    assert_eq!(boundary_neighbors(sc, VoxelCoord::new(0, 6, 7)), vec![SectorCoord(3, -2, 7)]);
    assert_eq!(
        boundary_neighbors(sc, VoxelCoord::new(31, 0, 31)),
        vec![SectorCoord(5, -2, 7), SectorCoord(4, -3, 7), SectorCoord(4, -2, 8)]
    );
}

#[test]
fn facing_voxel_is_on_the_shared_face() {
    let sc = SectorCoord(4, -2, 7);
    let v = VoxelCoord::new(0, 12, 31);
    assert_eq!(facing_voxel(sc, SectorCoord(3, -2, 7), v), VoxelCoord::new(31, 12, 31));
    assert_eq!(facing_voxel(sc, SectorCoord(4, -2, 8), v), VoxelCoord::new(0, 12, 0));
}

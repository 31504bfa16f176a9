//! Targeting for block placement: the voxel on the far side of the hit face,
//! within the hit sector or carried across into its neighbour; and, after an
//! edit on a sector face, which neighbours to remesh and which of their
//! voxels touches the edit.

use vstd::prelude::*;

use crate::meshing::block::VoxelCoord;
use crate::storage::coord::SectorCoord;

verus! {

/// Sector edge length in voxels.
pub const SECTOR_EDGE: i32 = 32;

/// The face of a voxel a ray entered through.
#[derive(Clone, Copy, Debug, PartialEq, Eq, Structural)]
pub enum FaceNormal {
    PosX,
    NegX,
    PosY,
    NegY,
    PosZ,
    NegZ,
}

impl FaceNormal {
    pub open spec fn spec_delta(self) -> (i32, i32, i32) {
        match self {
            FaceNormal::PosX => (1i32, 0i32, 0i32),
            FaceNormal::NegX => (-1i32, 0i32, 0i32),
            FaceNormal::PosY => (0i32, 1i32, 0i32),
            FaceNormal::NegY => (0i32, -1i32, 0i32),
            FaceNormal::PosZ => (0i32, 0i32, 1i32),
            FaceNormal::NegZ => (0i32, 0i32, -1i32),
        }
    }

    /// Voxel offset to the neighbour across this face.
    pub fn delta(&self) -> (r: (i32, i32, i32))
        ensures
            r == self.spec_delta(),
    {
        match self {
            FaceNormal::PosX => (1, 0, 0),
            FaceNormal::NegX => (-1, 0, 0),
            FaceNormal::PosY => (0, 1, 0),
            FaceNormal::NegY => (0, -1, 0),
            FaceNormal::PosZ => (0, 0, 1),
            FaceNormal::NegZ => (0, 0, -1),
        }
    }

    pub open spec fn spec_from_step(axis: u8, step: i32) -> FaceNormal {
        if axis == 0 && step == 1 {
            FaceNormal::NegX
        } else if axis == 0 && step == -1 {
            FaceNormal::PosX
        } else if axis == 1 && step == 1 {
            FaceNormal::NegY
        } else if axis == 1 && step == -1 {
            FaceNormal::PosY
        } else if axis == 2 && step == 1 {
            FaceNormal::NegZ
        } else if axis == 2 && step == -1 {
            FaceNormal::PosZ
        } else {
            FaceNormal::NegX
        }
    }

    /// The face opposite to a traversal step along `axis` (0 x, 1 y, 2 z) in
    /// direction `step`; an unknown step gives `NegX`.
    pub fn from_step(axis: u8, step: i32) -> (r: FaceNormal)
        ensures
            r == FaceNormal::spec_from_step(axis, step),
    {
        if axis == 0 && step == 1 {
            FaceNormal::NegX
        } else if axis == 0 && step == -1 {
            FaceNormal::PosX
        } else if axis == 1 && step == 1 {
            FaceNormal::NegY
        } else if axis == 1 && step == -1 {
            FaceNormal::PosY
        } else if axis == 2 && step == 1 {
            FaceNormal::NegZ
        } else if axis == 2 && step == -1 {
            FaceNormal::PosZ
        } else {
            FaceNormal::NegX
        }
    }
}

/// The face entered by a step points back against the step.
pub proof fn lemma_from_step_opposes(axis: u8, step: i32)
    requires
        axis < 3,
        step == 1 || step == -1,
    ensures
        ({
            let d = FaceNormal::spec_from_step(axis, step).spec_delta();
            &&& (axis == 0 ==> d.0 == -step && d.1 == 0 && d.2 == 0)
            &&& (axis == 1 ==> d.0 == 0 && d.1 == -step && d.2 == 0)
            &&& (axis == 2 ==> d.0 == 0 && d.1 == 0 && d.2 == -step)
        }),
{
}

/// A raycast hit: the sector-local voxel, the face, and the sector.
#[derive(Clone, Copy, Debug)]
pub struct RayHit {
    pub voxel: VoxelCoord,
    pub normal: FaceNormal,
    pub sector_coord: SectorCoord,
}

/// World voxel coordinate of sector-local `v` in sector `s`, along one axis.
pub open spec fn world_axis(s: i32, v: int) -> int {
    32 * (s as int) + v
}

/// The place target inside the hit sector: the neighbour across the hit
/// face, or `None` when it lies outside the sector.
pub fn place_target(hit: &RayHit) -> (r: Option<VoxelCoord>)
    requires
        hit.voxel.x < 32,
        hit.voxel.y < 32,
        hit.voxel.z < 32,
    ensures
        ({
            let (dx, dy, dz) = hit.normal.spec_delta();
            let tx = hit.voxel.x + dx;
            let ty = hit.voxel.y + dy;
            let tz = hit.voxel.z + dz;
            if 0 <= tx < 32 && 0 <= ty < 32 && 0 <= tz < 32 {
                r == Some(VoxelCoord { x: tx as u32, y: ty as u32, z: tz as u32 })
            } else {
                r is None
            }
        }),
{
    let (dx, dy, dz) = hit.normal.delta();
    let tx = hit.voxel.x as i32 + dx;
    let ty = hit.voxel.y as i32 + dy;
    let tz = hit.voxel.z as i32 + dz;
    if !(0 <= tx && tx < 32) || !(0 <= ty && ty < 32) || !(0 <= tz && tz < 32) {
        return None;
    }
    Some(VoxelCoord::new(tx as u32, ty as u32, tz as u32))
}

/// The sector and sector-local voxel of the neighbour across the hit face,
/// carried into the adjacent sector when it falls outside the hit one.
pub fn resolve_place_target(hit_coord: SectorCoord, hit_voxel: VoxelCoord, normal: FaceNormal) -> (r: (
    SectorCoord,
    VoxelCoord,
))
    requires
        hit_voxel.x < 32,
        hit_voxel.y < 32,
        hit_voxel.z < 32,
        i32::MIN < hit_coord.0 < i32::MAX,
        i32::MIN < hit_coord.1 < i32::MAX,
        i32::MIN < hit_coord.2 < i32::MAX,
    ensures
        r.1.x < 32 && r.1.y < 32 && r.1.z < 32,
        world_axis(r.0.0, r.1.x as int) == world_axis(hit_coord.0, hit_voxel.x as int)
            + normal.spec_delta().0,
        world_axis(r.0.1, r.1.y as int) == world_axis(hit_coord.1, hit_voxel.y as int)
            + normal.spec_delta().1,
        world_axis(r.0.2, r.1.z as int) == world_axis(hit_coord.2, hit_voxel.z as int)
            + normal.spec_delta().2,
{
    let (dx, dy, dz) = normal.delta();
    let mut sx = hit_coord.0;
    let mut sy = hit_coord.1;
    let mut sz = hit_coord.2;
    let mut tx = hit_voxel.x as i32 + dx;
    let mut ty = hit_voxel.y as i32 + dy;
    let mut tz = hit_voxel.z as i32 + dz;
    if tx < 0 {
        sx = sx - 1;
        tx = tx + 32;
    } else if tx >= 32 {
        sx = sx + 1;
        tx = tx - 32;
    }
    if ty < 0 {
        sy = sy - 1;
        ty = ty + 32;
    } else if ty >= 32 {
        sy = sy + 1;
        ty = ty - 32;
    }
    if tz < 0 {
        sz = sz - 1;
        tz = tz + 32;
    } else if tz >= 32 {
        sz = sz + 1;
        tz = tz - 32;
    }
    (SectorCoord(sx, sy, sz), VoxelCoord::new(tx as u32, ty as u32, tz as u32))
}

/// Where the same-sector target exists, it agrees with the resolved target.
pub proof fn lemma_place_target_agrees(hit_coord: SectorCoord, hit_voxel: VoxelCoord, normal: FaceNormal, target: VoxelCoord, resolved: (SectorCoord, VoxelCoord))
    requires
        hit_voxel.x < 32 && hit_voxel.y < 32 && hit_voxel.z < 32,
        target.x as int == hit_voxel.x + normal.spec_delta().0,
        target.y as int == hit_voxel.y + normal.spec_delta().1,
        target.z as int == hit_voxel.z + normal.spec_delta().2,
        target.x < 32 && target.y < 32 && target.z < 32,
        resolved.1.x < 32 && resolved.1.y < 32 && resolved.1.z < 32,
        world_axis(resolved.0.0, resolved.1.x as int) == world_axis(hit_coord.0, hit_voxel.x as int) + normal.spec_delta().0,
        world_axis(resolved.0.1, resolved.1.y as int) == world_axis(hit_coord.1, hit_voxel.y as int) + normal.spec_delta().1,
        world_axis(resolved.0.2, resolved.1.z as int) == world_axis(hit_coord.2, hit_voxel.z as int) + normal.spec_delta().2,
    ensures
        resolved.0 == hit_coord,
        resolved.1 == target,
{
}

/// Along one axis: the step to the neighbour sector that a voxel at local
/// coordinate `v` borders (-1 at the low face, +1 at the high face), if any.
pub open spec fn border_step(v: u32) -> Option<i32> {
    if v == 0 {
        Some(-1i32)
    } else if v == 31 {
        Some(1i32)
    } else {
        None
    }
}

/// The neighbour across one axis, as a one- or zero-element sequence.
pub open spec fn axis_neighbors(sc: SectorCoord, axis: int, v: u32) -> Seq<SectorCoord> {
    match border_step(v) {
        None => Seq::empty(),
        Some(d) => seq![
            if axis == 0 {
                SectorCoord((sc.0 + d) as i32, sc.1, sc.2)
            } else if axis == 1 {
                SectorCoord(sc.0, (sc.1 + d) as i32, sc.2)
            } else {
                SectorCoord(sc.0, sc.1, (sc.2 + d) as i32)
            },
        ],
    }
}

/// The neighbour sectors whose meshes border voxel `v` of sector `sc`, in
/// x, y, z order.
pub open spec fn spec_boundary_neighbors(sc: SectorCoord, v: VoxelCoord) -> Seq<SectorCoord> {
    axis_neighbors(sc, 0, v.x) + axis_neighbors(sc, 1, v.y) + axis_neighbors(sc, 2, v.z)
}

/// The neighbour sectors to remesh after an edit of voxel `v` in sector `sc`:
/// across each axis where `v` lies on the low (0) or high (31) face.
pub fn boundary_neighbors(sc: SectorCoord, v: VoxelCoord) -> (r: Vec<SectorCoord>)
    requires
        v.x == 0 ==> sc.0 > i32::MIN,
        v.x == 31 ==> sc.0 < i32::MAX,
        v.y == 0 ==> sc.1 > i32::MIN,
        v.y == 31 ==> sc.1 < i32::MAX,
        v.z == 0 ==> sc.2 > i32::MIN,
        v.z == 31 ==> sc.2 < i32::MAX,
    ensures
        r@ == spec_boundary_neighbors(sc, v),
{
    let mut out: Vec<SectorCoord> = Vec::new();
    if v.x == 0 {
        out.push(SectorCoord(sc.0 - 1, sc.1, sc.2));
    } else if v.x == 31 {
        out.push(SectorCoord(sc.0 + 1, sc.1, sc.2));
    }
    let ghost xs = out@;
    if v.y == 0 {
        out.push(SectorCoord(sc.0, sc.1 - 1, sc.2));
    } else if v.y == 31 {
        out.push(SectorCoord(sc.0, sc.1 + 1, sc.2));
    }
    let ghost xys = out@;
    if v.z == 0 {
        out.push(SectorCoord(sc.0, sc.1, sc.2 - 1));
    } else if v.z == 31 {
        out.push(SectorCoord(sc.0, sc.1, sc.2 + 1));
    }
    proof {
        assert(xs =~= axis_neighbors(sc, 0, v.x));
        assert(xys =~= xs + axis_neighbors(sc, 1, v.y));
        assert(out@ =~= xys + axis_neighbors(sc, 2, v.z));
    }
    out
}

/// The sectors to remesh after an edit of voxel `v` (each axis `0..32`) in
/// sector `sc` are exactly the face neighbours whose shared face `v` lies on:
/// the sector below along an axis when `v` is 0 there, the one above when it
/// is 31; nothing else, and none twice.
pub proof fn lemma_boundary_neighbors_exact(sc: SectorCoord, v: VoxelCoord)
    requires
        v.x < 32 && v.y < 32 && v.z < 32,
        sc.0 > i32::MIN && sc.0 < i32::MAX,
        sc.1 > i32::MIN && sc.1 < i32::MAX,
        sc.2 > i32::MIN && sc.2 < i32::MAX,
    ensures
        ({
            let r = spec_boundary_neighbors(sc, v);
            &&& r.contains(SectorCoord((sc.0 - 1) as i32, sc.1, sc.2)) <==> v.x == 0
            &&& r.contains(SectorCoord((sc.0 + 1) as i32, sc.1, sc.2)) <==> v.x == 31
            &&& r.contains(SectorCoord(sc.0, (sc.1 - 1) as i32, sc.2)) <==> v.y == 0
            &&& r.contains(SectorCoord(sc.0, (sc.1 + 1) as i32, sc.2)) <==> v.y == 31
            &&& r.contains(SectorCoord(sc.0, sc.1, (sc.2 - 1) as i32)) <==> v.z == 0
            &&& r.contains(SectorCoord(sc.0, sc.1, (sc.2 + 1) as i32)) <==> v.z == 31
            &&& forall|i: int| 0 <= i < r.len() ==> {
                let n = #[trigger] r[i];
                ||| n == SectorCoord((sc.0 - 1) as i32, sc.1, sc.2)
                ||| n == SectorCoord((sc.0 + 1) as i32, sc.1, sc.2)
                ||| n == SectorCoord(sc.0, (sc.1 - 1) as i32, sc.2)
                ||| n == SectorCoord(sc.0, (sc.1 + 1) as i32, sc.2)
                ||| n == SectorCoord(sc.0, sc.1, (sc.2 - 1) as i32)
                ||| n == SectorCoord(sc.0, sc.1, (sc.2 + 1) as i32)
            }
            &&& forall|i: int, j: int| 0 <= i < j < r.len() ==> r[i] != r[j]
        }),
{
    let xs = axis_neighbors(sc, 0, v.x);
    let ys = axis_neighbors(sc, 1, v.y);
    let zs = axis_neighbors(sc, 2, v.z);
    let r = spec_boundary_neighbors(sc, v);
    assert(r == xs + ys + zs);
    assert(xs.len() <= 1 && ys.len() <= 1 && zs.len() <= 1);
    assert forall|i: int| 0 <= i < r.len() implies (i < xs.len() && r[i] == xs[i]) || (xs.len() <= i
        < xs.len() + ys.len() && r[i] == ys[i - xs.len()]) || (xs.len() + ys.len() <= i && r[i] == zs[i
        - xs.len() - ys.len()]) by {
        if i < xs.len() {
            assert(r[i] == (xs + ys)[i]);
        } else if i < xs.len() + ys.len() {
            assert(r[i] == (xs + ys)[i]);
        }
    }
    let cands = seq![
        SectorCoord((sc.0 - 1) as i32, sc.1, sc.2),
        SectorCoord((sc.0 + 1) as i32, sc.1, sc.2),
        SectorCoord(sc.0, (sc.1 - 1) as i32, sc.2),
        SectorCoord(sc.0, (sc.1 + 1) as i32, sc.2),
        SectorCoord(sc.0, sc.1, (sc.2 - 1) as i32),
        SectorCoord(sc.0, sc.1, (sc.2 + 1) as i32),
    ];
    if v.x == 0 {
        assert(r[0] == cands[0]);
    }
    if v.x == 31 {
        assert(r[0] == cands[1]);
    }
    if v.y == 0 {
        assert(r[xs.len() as int] == cands[2]);
    }
    if v.y == 31 {
        assert(r[xs.len() as int] == cands[3]);
    }
    if v.z == 0 {
        assert(r[(xs.len() + ys.len()) as int] == cands[4]);
    }
    if v.z == 31 {
        assert(r[(xs.len() + ys.len()) as int] == cands[5]);
    }
}

/// Along one axis: the local coordinate, in a neighbour at sector coordinate
/// `n` of the edited sector at `s`, of the voxel that touches the edit at `t`.
pub open spec fn facing_coord(n: i32, s: i32, t: u32) -> u32 {
    if n < s {
        31
    } else if n > s {
        0
    } else {
        t
    }
}

/// The voxel of neighbour sector `neighbor` that touches the edited voxel `v`
/// of sector `sc`: the far face (31) on axes where the neighbour lies below,
/// the near face (0) where it lies above, `v`'s own coordinate otherwise.
pub fn facing_voxel(sc: SectorCoord, neighbor: SectorCoord, v: VoxelCoord) -> (r: VoxelCoord)
    ensures
        r == (VoxelCoord {
            x: facing_coord(neighbor.0, sc.0, v.x),
            y: facing_coord(neighbor.1, sc.1, v.y),
            z: facing_coord(neighbor.2, sc.2, v.z),
        }),
{
    let x = if neighbor.0 < sc.0 { 31 } else if neighbor.0 > sc.0 { 0 } else { v.x };
    let y = if neighbor.1 < sc.1 { 31 } else if neighbor.1 > sc.1 { 0 } else { v.y };
    let z = if neighbor.2 < sc.2 { 31 } else if neighbor.2 > sc.2 { 0 } else { v.z };
    VoxelCoord::new(x, y, z)
}

} // verus!

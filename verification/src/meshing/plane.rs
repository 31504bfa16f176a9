//! The boundary plane a neighbor sector presents to the mesher: the 32x32
//! slab of its voxels that touches our sector.

use vstd::prelude::*;

use crate::meshing::block::BlockId;
use crate::storage::coord::SectorCoord;

verus! {

/// Snapshot index, in the neighbor in direction `idx` (0 = +X, 1 = -X,
/// 2 = +Y, 3 = -Y, 4 = +Z, 5 = -Z), of plane cell `(a, b)`: the neighbor's
/// voxel on the slab facing us, `a` and `b` its two remaining axes in order.
pub open spec fn plane_source(idx: int, a: int, b: int) -> int {
    if idx == 0 {
        0 + a * 32 + b * 1024
    } else if idx == 1 {
        31 + a * 32 + b * 1024
    } else if idx == 2 {
        a + 0 * 32 + b * 1024
    } else if idx == 3 {
        a + 31 * 32 + b * 1024
    } else if idx == 4 {
        a + b * 32 + 0 * 1024
    } else {
        a + b * 32 + 31 * 1024
    }
}

/// Local coordinate, along axis `axis`, of the voxel at plane cell `(a, b)`
/// on our own face toward direction `idx` (even `idx` the + side, odd the -
/// side; `a`, `b` the two remaining axes in order).
pub open spec fn own_face_coord(idx: int, a: int, b: int, axis: int) -> int {
    let d = idx / 2;
    if axis == d {
        if idx % 2 == 0 { 31 } else { 0 }
    } else if (d == 0 && axis == 1) || (d != 0 && axis == 0) {
        a
    } else {
        b
    }
}

/// Each plane cell holds the neighbour's voxel that touches our face: take
/// our voxel at that cell on the face toward direction `idx`, step one voxel
/// across the face (one along the face's axis, + or -), and express the
/// position in the neighbour's own coordinates (which start 32 further along
/// that axis on the + side, 32 back on the - side); the plane reads the
/// neighbour's snapshot there. So the +Y plane holds the neighbour's y = 0
/// slab and the -Y plane its y = 31 slab.
pub proof fn lemma_plane_cell_is_adjacent(idx: int, a: int, b: int)
    requires
        0 <= idx < 6,
        0 <= a < 32,
        0 <= b < 32,
    ensures
        ({
            let d = idx / 2;
            let sgn: int = if idx % 2 == 0 { 1 } else { -1 };
            let n = |axis: int| own_face_coord(idx, a, b, axis) + (if axis == d { sgn - 32 * sgn } else { 0 });
            &&& 0 <= n(0) < 32 && 0 <= n(1) < 32 && 0 <= n(2) < 32
            &&& plane_source(idx, a, b) == n(0) + n(1) * 32 + n(2) * 1024
        }),
{
}

/// The boundary plane of the neighbor whose voxel snapshot
/// (`x + y * 32 + z * 1024`) is `snapshot`, for direction `idx`: cell
/// `a * 32 + b` holds the slab voxel with remaining axes `(a, b)`.
pub fn boundary_plane(snapshot: &[BlockId], idx: usize) -> (r: Vec<BlockId>)
    requires
        snapshot@.len() == 32768,
        idx < 6,
    ensures
        r@.len() == 1024,
        forall|a: int, b: int|
            0 <= a < 32 && 0 <= b < 32 ==> #[trigger] r@[a * 32 + b] == snapshot@[plane_source(
                idx as int,
                a,
                b,
            )],
{
    let mut out: Vec<BlockId> = Vec::new();
    let mut a: usize = 0;
    while a < 32
        invariant
            snapshot@.len() == 32768,
            idx < 6,
            a <= 32,
            out@.len() == a * 32,
            forall|a2: int, b2: int|
                0 <= a2 < a && 0 <= b2 < 32 ==> #[trigger] out@[a2 * 32 + b2] == snapshot@[plane_source(
                    idx as int,
                    a2,
                    b2,
                )],
        decreases 32 - a,
    {
        let mut b: usize = 0;
        while b < 32
            invariant
                snapshot@.len() == 32768,
                idx < 6,
                a < 32,
                b <= 32,
                out@.len() == a * 32 + b,
                forall|a2: int, b2: int|
                    0 <= a2 < a && 0 <= b2 < 32 ==> #[trigger] out@[a2 * 32 + b2] == snapshot@[plane_source(
                        idx as int,
                        a2,
                        b2,
                    )],
                forall|b2: int| 0 <= b2 < b ==> #[trigger] out@[a * 32 + b2] == snapshot@[plane_source(
                    idx as int,
                    a as int,
                    b2,
                )],
            decreases 32 - b,
        {
            let src: usize = if idx == 0 {
                a * 32 + b * 1024
            } else if idx == 1 {
                31 + a * 32 + b * 1024
            } else if idx == 2 {
                a + b * 1024
            } else if idx == 3 {
                a + 31 * 32 + b * 1024
            } else if idx == 4 {
                a + b * 32
            } else {
                a + b * 32 + 31 * 1024
            };
            out.push(snapshot[src]);
            b = b + 1;
        }
        a = a + 1;
    }
    out
}

/// The six neighbor sectors of `coord`, in direction order (0 = +X, 1 = -X,
/// 2 = +Y, 3 = -Y, 4 = +Z, 5 = -Z), matching the boundary planes.
pub fn neighbor_offsets(coord: SectorCoord) -> (r: [SectorCoord; 6])
    requires
        i32::MIN < coord.0 < i32::MAX,
        i32::MIN < coord.1 < i32::MAX,
        i32::MIN < coord.2 < i32::MAX,
    ensures
        r[0] == SectorCoord((coord.0 + 1) as i32, coord.1, coord.2),
        r[1] == SectorCoord((coord.0 - 1) as i32, coord.1, coord.2),
        r[2] == SectorCoord(coord.0, (coord.1 + 1) as i32, coord.2),
        r[3] == SectorCoord(coord.0, (coord.1 - 1) as i32, coord.2),
        r[4] == SectorCoord(coord.0, coord.1, (coord.2 + 1) as i32),
        r[5] == SectorCoord(coord.0, coord.1, (coord.2 - 1) as i32),
{
    [
        SectorCoord(coord.0 + 1, coord.1, coord.2),
        SectorCoord(coord.0 - 1, coord.1, coord.2),
        SectorCoord(coord.0, coord.1 + 1, coord.2),
        SectorCoord(coord.0, coord.1 - 1, coord.2),
        SectorCoord(coord.0, coord.1, coord.2 + 1),
        SectorCoord(coord.0, coord.1, coord.2 - 1),
    ]
}

} // verus!

//! World-space sector coordinates.

use vstd::prelude::*;

verus! {

/// A sector's coordinate in sector units, one `i32` per axis (unbounded Y).
#[derive(Clone, Copy, Debug, PartialEq, Eq, Hash, Structural)]
pub struct SectorCoord(pub i32, pub i32, pub i32);

impl SectorCoord {
    pub fn new(x: i32, y: i32, z: i32) -> (r: SectorCoord)
        ensures
            r == SectorCoord(x, y, z),
    {
        SectorCoord(x, y, z)
    }
}

} // verus!

//! Block ids and the block properties the mesher reads.

use vstd::prelude::*;

verus! {

/// Registry id of a block type; `0` is air.
#[derive(Clone, Copy, Debug, PartialEq, Eq, Hash, Default, Structural)]
pub struct BlockId(pub u16);

impl BlockId {
    /// The empty (air) block.
    pub fn air() -> (r: BlockId)
        ensures
            r == BlockId(0),
    {
        BlockId(0)
    }
}

/// Sector-local voxel coordinate (each axis `0..32`).
#[derive(Clone, Copy, Debug, PartialEq, Eq, Hash, Default, Structural)]
pub struct VoxelCoord {
    pub x: u32,
    pub y: u32,
    pub z: u32,
}

impl VoxelCoord {
    pub fn new(x: u32, y: u32, z: u32) -> (r: VoxelCoord)
        ensures
            r == (VoxelCoord { x, y, z }),
    {
        VoxelCoord { x, y, z }
    }
}

/// The per-block properties the mesher consults: whether each registered id
/// is transparent. Ids past the end of the table are treated as opaque.
#[derive(Clone, Debug)]
pub struct BlockRegistry {
    pub transparent: Vec<bool>,
}

impl BlockRegistry {
    pub open spec fn spec_is_transparent(&self, id: BlockId) -> bool {
        (id.0 as int) < self.transparent@.len() && self.transparent@[id.0 as int]
    }

    /// Build a registry from the transparency flag of each id.
    pub fn new(transparent: Vec<bool>) -> (r: Self)
        ensures
            r.transparent@ == transparent@,
    {
        BlockRegistry { transparent }
    }

    /// Number of registered ids (including air).
    pub fn count(&self) -> (r: usize)
        ensures
            r == self.transparent@.len(),
    {
        self.transparent.len()
    }

    /// Whether `id` is transparent.
    pub fn is_transparent(&self, id: BlockId) -> (r: bool)
        ensures
            r == self.spec_is_transparent(id),
    {
        let k = id.0 as usize;
        if k < self.transparent.len() {
            self.transparent[k]
        } else {
            false
        }
    }
}

} // verus!

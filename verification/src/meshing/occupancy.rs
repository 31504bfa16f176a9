//! One-bit-per-voxel occupancy mask of a 32^3 sector (`[u64; 512]`).

use vstd::prelude::*;
use crate::meshing::block::BlockId;
use crate::meshing::greedy::snap_index_spec;

verus! {

/// Voxels per sector axis.
pub const SECTOR_DIM: u32 = 32;
/// Words covering 32^3 bits.
pub const WORDS: usize = 512;

/// Bit index of `(x, y, z)`: `x * 1024 + z * 32 + y`.
pub open spec fn bit_index_spec(x: int, y: int, z: int) -> int {
    x * 1024 + z * 32 + y
}

pub open spec fn word_bit(w: u64, b: int) -> bool {
    (w >> (b as u64)) & 1 == 1
}

/// Solid/air bitmask over the 32^3 sector.
#[derive(Clone)]
pub struct OccupancyScratch {
    pub mask: [u64; 512],
}

proof fn lemma_bit_set(m: u64, b: u64, c: u64)
    requires
        b < 64,
        c < 64,
    ensures
        ((m | (1u64 << b)) >> c) & 1 == 1 <==> (c == b || (m >> c) & 1 == 1),
        ((m & !(1u64 << b)) >> c) & 1 == 1 <==> (c != b && (m >> c) & 1 == 1),
{
    assert(((m | (1u64 << b)) >> c) & 1 == 1 <==> (c == b || (m >> c) & 1 == 1)) by (bit_vector)
        requires
            b < 64,
            c < 64,
    ;
    assert(((m & !(1u64 << b)) >> c) & 1 == 1 <==> (c != b && (m >> c) & 1 == 1)) by (bit_vector)
        requires
            b < 64,
            c < 64,
    ;
}

proof fn lemma_zero_bits(c: u64)
    requires
        c < 64,
    ensures
        (0u64 >> c) & 1 != 1,
{
    assert((0u64 >> c) & 1 != 1) by (bit_vector);
}

proof fn lemma_bit_index_injective(x1: int, y1: int, z1: int, x2: int, y2: int, z2: int)
    requires
        0 <= x1 < 32 && 0 <= y1 < 32 && 0 <= z1 < 32,
        0 <= x2 < 32 && 0 <= y2 < 32 && 0 <= z2 < 32,
        bit_index_spec(x1, y1, z1) == bit_index_spec(x2, y2, z2),
    ensures
        x1 == x2 && y1 == y2 && z1 == z2,
{
    let k = bit_index_spec(x1, y1, z1);
    vstd::arithmetic::div_mod::lemma_fundamental_div_mod_converse(k, 1024, x1, z1 * 32 + y1);
    vstd::arithmetic::div_mod::lemma_fundamental_div_mod_converse(k, 1024, x2, z2 * 32 + y2);
    vstd::arithmetic::div_mod::lemma_fundamental_div_mod_converse(z1 * 32 + y1, 32, z1, y1);
    vstd::arithmetic::div_mod::lemma_fundamental_div_mod_converse(z2 * 32 + y2, 32, z2, y2);
}

impl OccupancyScratch {
    /// Whether bit `i` (`0..32768`) is set.
    pub open spec fn bit(&self, i: int) -> bool {
        word_bit(self.mask[i / 64], i % 64)
    }

    /// Whether voxel `(x, y, z)` is occupied.
    pub open spec fn spec_occupied(&self, x: int, y: int, z: int) -> bool {
        self.bit(bit_index_spec(x, y, z))
    }

    /// An empty mask.
    pub fn new() -> (r: Self)
        ensures
            forall|i: int| 0 <= i < 32768 ==> !#[trigger] r.bit(i),
    {
        let r = OccupancyScratch { mask: [0u64; 512] };
        proof {
            assert forall|i: int| 0 <= i < 32768 implies !#[trigger] r.bit(i) by {
                assert(r.mask[i / 64] == 0);
                lemma_zero_bits((i % 64) as u64);
            }
        }
        r
    }

    /// Bit index of a local voxel coordinate (X-major: `x << 10 | z << 5 | y`).
    pub fn bit_index(x: u32, y: u32, z: u32) -> (r: usize)
        requires
            x < 32 && y < 32 && z < 32,
        ensures
            r == bit_index_spec(x as int, y as int, z as int),
            r < 32768,
    {
        assert(x < 32 && y < 32 && z < 32 ==> ((x << 10u32) | (z << 5u32) | y) == x * 1024 + z * 32 + y)
            by (bit_vector);
        ((x << 10u32) | (z << 5u32) | y) as usize
    }

    /// Mark `(x, y, z)` occupied; every other voxel keeps its state.
    pub fn set(&mut self, x: u32, y: u32, z: u32)
        requires
            x < 32 && y < 32 && z < 32,
        ensures
            forall|i: int| 0 <= i < 32768 ==> #[trigger] final(self).bit(i) == (i == bit_index_spec(x as int, y as int, z as int) || old(self).bit(i)),
    {
        let i = Self::bit_index(x, y, z);
        let w = i / 64;
        let b = (i % 64) as u64;
        let ghost old_self = *self;
        self.mask[w] = self.mask[w] | (1u64 << b);
        proof {
            assert forall|k: int| 0 <= k < 32768 implies #[trigger] self.bit(k) == (k == i || old_self.bit(k)) by {
                if k / 64 == w as int {
                    lemma_bit_set(old_self.mask[w as int], b, (k % 64) as u64);
                } else {
                    assert(self.mask[k / 64] == old_self.mask[k / 64]);
                }
            }
        }
    }

    /// Mark `(x, y, z)` empty; every other voxel keeps its state.
    pub fn clear_bit(&mut self, x: u32, y: u32, z: u32)
        requires
            x < 32 && y < 32 && z < 32,
        ensures
            forall|i: int| 0 <= i < 32768 ==> #[trigger] final(self).bit(i) == (i != bit_index_spec(x as int, y as int, z as int) && old(self).bit(i)),
    {
        let i = Self::bit_index(x, y, z);
        let w = i / 64;
        let b = (i % 64) as u64;
        let ghost old_self = *self;
        self.mask[w] = self.mask[w] & !(1u64 << b);
        proof {
            assert forall|k: int| 0 <= k < 32768 implies #[trigger] self.bit(k) == (k != i && old_self.bit(k)) by {
                if k / 64 == w as int {
                    lemma_bit_set(old_self.mask[w as int], b, (k % 64) as u64);
                } else {
                    assert(self.mask[k / 64] == old_self.mask[k / 64]);
                }
            }
        }
    }

    /// Whether `(x, y, z)` is occupied.
    pub fn is_occupied(&self, x: u32, y: u32, z: u32) -> (r: bool)
        requires
            x < 32 && y < 32 && z < 32,
        ensures
            r == self.spec_occupied(x as int, y as int, z as int),
    {
        let i = Self::bit_index(x, y, z);
        let m = self.mask[i / 64];
        let c = (i % 64) as u64;
        assert((m >> c) & 1 != 0 <==> (m >> c) & 1 == 1) by (bit_vector);
        (m >> c) & 1 != 0
    }

    /// Mark every voxel empty.
    pub fn clear(&mut self)
        ensures
            forall|i: int| 0 <= i < 32768 ==> !#[trigger] final(self).bit(i),
    {
        let mut w: usize = 0;
        while w < WORDS
            invariant
                w <= 512,
                forall|k: int| 0 <= k < w ==> self.mask[k] == 0,
            decreases 512 - w,
        {
            self.mask[w] = 0;
            w += 1;
        }
        proof {
            assert forall|i: int| 0 <= i < 32768 implies !#[trigger] self.bit(i) by {
                assert(self.mask[i / 64] == 0);
                lemma_zero_bits((i % 64) as u64);
            }
        }
    }
}

/// Fill `scratch` from a sector's voxel snapshot (`x + y * 32 + z * 1024`):
/// a voxel is occupied exactly when it is not air.
pub fn fill_scratch(scratch: &mut OccupancyScratch, snapshot: &[BlockId])
    requires
        snapshot@.len() == 32768,
    ensures
        forall|x: int, y: int, z: int| 0 <= x < 32 && 0 <= y < 32 && 0 <= z < 32 ==> #[trigger] final(scratch).spec_occupied(x, y, z) == (snapshot@[snap_index_spec(x, y, z)] != BlockId(0)),
{
    scratch.clear();
    let mut x: u32 = 0;
    while x < SECTOR_DIM
        invariant
            x <= 32,
            snapshot@.len() == 32768,
            forall|x2: int, y2: int, z2: int| 0 <= x2 < 32 && 0 <= y2 < 32 && 0 <= z2 < 32 ==> #[trigger] scratch.spec_occupied(x2, y2, z2) == (x2 < x && snapshot@[snap_index_spec(x2, y2, z2)] != BlockId(0)),
        decreases 32 - x,
    {
        let mut y: u32 = 0;
        while y < SECTOR_DIM
            invariant
                x < 32,
                y <= 32,
                snapshot@.len() == 32768,
                forall|x2: int, y2: int, z2: int| 0 <= x2 < 32 && 0 <= y2 < 32 && 0 <= z2 < 32 ==> #[trigger] scratch.spec_occupied(x2, y2, z2) == ((x2 < x || (x2 == x && y2 < y)) && snapshot@[snap_index_spec(x2, y2, z2)] != BlockId(0)),
            decreases 32 - y,
        {
            let mut z: u32 = 0;
            while z < SECTOR_DIM
                invariant
                    x < 32,
                    y < 32,
                    z <= 32,
                    snapshot@.len() == 32768,
                    forall|x2: int, y2: int, z2: int| 0 <= x2 < 32 && 0 <= y2 < 32 && 0 <= z2 < 32 ==> #[trigger] scratch.spec_occupied(x2, y2, z2) == ((x2 < x || (x2 == x && y2 < y) || (x2 == x && y2 == y && z2 < z)) && snapshot@[snap_index_spec(x2, y2, z2)] != BlockId(0)),
                decreases 32 - z,
            {
                let id = snapshot[(x + y * 32 + z * 1024) as usize];
                let ghost old_s = *scratch;
                if id != BlockId::air() {
                    scratch.set(x, y, z);
                }
                proof {
                    assert forall|x2: int, y2: int, z2: int| 0 <= x2 < 32 && 0 <= y2 < 32 && 0 <= z2 < 32 implies #[trigger] scratch.spec_occupied(x2, y2, z2) == ((x2 < x || (x2 == x && y2 < y) || (x2 == x && y2 == y && z2 < z + 1)) && snapshot@[snap_index_spec(x2, y2, z2)] != BlockId(0)) by {
                        if bit_index_spec(x2, y2, z2) == bit_index_spec(x as int, y as int, z as int) {
                            lemma_bit_index_injective(x2, y2, z2, x as int, y as int, z as int);
                        }
                        assert(old_s.spec_occupied(x2, y2, z2) == ((x2 < x || (x2 == x && y2 < y) || (x2 == x && y2 == y && z2 < z)) && snapshot@[snap_index_spec(x2, y2, z2)] != BlockId(0)));
                        let k = bit_index_spec(x2, y2, z2);
                        assert(0 <= k < 32768);
                        assert(scratch.bit(k) == (if id != BlockId(0) { k == bit_index_spec(x as int, y as int, z as int) || old_s.bit(k) } else { old_s.bit(k) }));
                    }
                }
                z += 1;
            }
            y += 1;
        }
        x += 1;
    }
}

} // verus!

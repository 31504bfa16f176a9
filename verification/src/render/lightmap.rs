//! One-byte per-quad lightmap entries: `sky << 4 | block`.

use vstd::prelude::*;

verus! {

/// Lightmap entries per sector (one byte per quad id); a power of two so the
/// shader can mask a quad id with `SECTOR_LIGHTMAP_QUADS - 1`.
pub const SECTOR_LIGHTMAP_QUADS: usize = 32768;

/// A one-byte lightmap entry: high nibble = sky light, low nibble = block light.
#[derive(Clone, Copy, Debug, Default, PartialEq, Eq, Structural)]
pub struct LightmapEntry(pub u8);

impl LightmapEntry {
    pub open spec fn spec_sky(self) -> u8 {
        (self.0 >> 4u8) & 0xFu8
    }

    pub open spec fn spec_block(self) -> u8 {
        self.0 & 0xFu8
    }

    /// Pack `(sky, block)`, each masked to 4 bits; both read back masked.
    pub fn pack(sky: u8, block: u8) -> (r: Self)
        ensures
            r.0 == ((sky & 0xFu8) << 4u8) | (block & 0xFu8),
            r.spec_sky() == sky & 0xFu8,
            r.spec_block() == block & 0xFu8,
    {
        assert((((((sky & 0xFu8) << 4u8) | (block & 0xFu8)) >> 4u8) & 0xFu8) == sky & 0xFu8) by (bit_vector);
        assert(((((sky & 0xFu8) << 4u8) | (block & 0xFu8)) & 0xFu8) == block & 0xFu8) by (bit_vector);
        LightmapEntry(((sky & 0xF) << 4u8) | (block & 0xF))
    }

    pub fn sky(self) -> (r: u8)
        ensures
            r == self.spec_sky(),
            r < 16,
    {
        let v = self.0;
        assert((v >> 4u8) & 0xFu8 < 16) by (bit_vector);
        (v >> 4u8) & 0xF
    }

    pub fn block(self) -> (r: u8)
        ensures
            r == self.spec_block(),
            r < 16,
    {
        let v = self.0;
        assert(v & 0xFu8 < 16) by (bit_vector);
        v & 0xF
    }
}

} // verus!

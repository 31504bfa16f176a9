//! CPU side of the renderer's GPU uploads: the quad staging buffer with its
//! dirty-range tracking and capacity growth, the per-frame flattening of
//! visible meshes into quad / sector-id / quad-id streams, and small sizing
//! and packing helpers of the bloom and resolve passes.

use vstd::prelude::*;

verus! {

/// Size of the smallest bloom mip: each dimension shifted right by
/// `mip_count - 1` (0 when `mip_count` is 0), clamped to at least 1. A shift
/// of 32 or more overflows, so `mip_count` is at most 32.
pub fn smallest_mip_dim(width: u32, height: u32, mip_count: u32) -> (r: (u32, u32))
    requires
        mip_count <= 32,
    ensures
        ({
            let last: u32 = if mip_count == 0 { 0 } else { (mip_count - 1) as u32 };
            let w = width >> last;
            let h = height >> last;
            r == (if w == 0 { 1u32 } else { w }, if h == 0 { 1u32 } else { h })
        }),
{
    let last = mip_count.saturating_sub(1);
    let w = width >> last;
    let h = height >> last;
    (if w == 0 { 1 } else { w }, if h == 0 { 1 } else { h })
}

/// Four AO curve bytes packed little-endian into one word.
pub fn pack_ao_curve(curve: [u8; 4]) -> (r: u32)
    ensures
        r == (curve[0] as u32) | ((curve[1] as u32) << 8u32) | ((curve[2] as u32) << 16u32) | ((curve[3] as u32)
            << 24u32),
        r & 0xFF == curve[0] as u32,
        (r >> 8u32) & 0xFF == curve[1] as u32,
        (r >> 16u32) & 0xFF == curve[2] as u32,
        (r >> 24u32) & 0xFF == curve[3] as u32,
{
    let (a, b, c, d) = (curve[0], curve[1], curve[2], curve[3]);
    assert({
        let r = (a as u32) | ((b as u32) << 8u32) | ((c as u32) << 16u32) | ((d as u32) << 24u32);
        &&& r & 0xFF == a as u32
        &&& (r >> 8u32) & 0xFF == b as u32
        &&& (r >> 16u32) & 0xFF == c as u32
        &&& (r >> 24u32) & 0xFF == d as u32
    }) by (bit_vector);
    (a as u32) | ((b as u32) << 8u32) | ((c as u32) << 16u32) | ((d as u32) << 24u32)
}

/// The default AO curve: 0.75 / 0.825 / 0.9 / 1.0 as bytes.
pub fn ao_curve_default() -> (r: [u8; 4])
    ensures
        r == [191u8, 210, 230, 255],
{
    [191, 210, 230, 255]
}

/// New quad capacity when `needed` quads must fit in a buffer of `old_cap`
/// quads: `None` when it already fits, else the largest of `needed`, twice
/// the old capacity, and 1.
pub open spec fn grown_capacity_spec(needed: int, old_cap: int) -> Option<int> {
    if needed <= old_cap {
        None
    } else {
        let a = if needed >= 2 * old_cap { needed } else { 2 * old_cap };
        Some(if a >= 1 { a } else { 1 })
    }
}

pub fn grown_capacity(needed: usize, old_cap: usize) -> (r: Option<usize>)
    requires
        old_cap <= usize::MAX / 2,
    ensures
        r matches Some(c) ==> Some(c as int) == grown_capacity_spec(needed as int, old_cap as int),
        r is None <==> grown_capacity_spec(needed as int, old_cap as int) is None,
{
    if needed <= old_cap {
        return None;
    }
    let a = if needed >= 2 * old_cap { needed } else { 2 * old_cap };
    Some(if a >= 1 { a } else { 1 })
}

/// Merge a written byte range into the tracked dirty range.
pub open spec fn merged_range(prev: Option<(usize, usize)>, start: usize, end: usize) -> (usize, usize) {
    match prev {
        None => (start, end),
        Some((s, e)) => (if s <= start { s } else { start }, if e >= end { e } else { end }),
    }
}

/// The dirty range after a write of bytes `[start, end)` is the smallest
/// range holding both that write and the earlier range: it covers every byte
/// written since the last flush, and each end is an end of one of the two.
pub proof fn lemma_merged_range_covers(prev: Option<(usize, usize)>, start: usize, end: usize)
    requires
        start <= end,
        prev matches Some((s, e)) ==> s <= e,
    ensures
        ({
            let (lo, hi) = merged_range(prev, start, end);
            &&& lo <= start && end <= hi
            &&& prev matches Some((s, e)) ==> lo <= s && e <= hi
            &&& lo == start || (prev matches Some((s, e)) && lo == s)
            &&& hi == end || (prev matches Some((s, e)) && hi == e)
        }),
{
}

/// CPU staging for the quad storage buffer: one 8-byte slot per quad id, the
/// smallest byte range written since the last flush, and whether a flush is
/// pending.
pub struct QuadStaging {
    pub bytes: Vec<u8>,
    pub range: Option<(usize, usize)>,
    pub pending: bool,
}

impl QuadStaging {
    /// Slots held: the byte length is a multiple of 8.
    pub open spec fn wf(&self) -> bool {
        &&& self.bytes@.len() % 8 == 0
        &&& (self.range matches Some((s, e)) ==> s <= e <= self.bytes@.len())
    }

    pub open spec fn spec_capacity(&self) -> nat {
        self.bytes@.len() / 8
    }

    pub fn new() -> (r: Self)
        ensures
            r.wf(),
            r.bytes@.len() == 0,
            r.range is None,
            !r.pending,
    {
        QuadStaging { bytes: Vec::new(), range: None, pending: false }
    }

    /// Capacity in quads.
    pub fn capacity(&self) -> (r: usize)
        ensures
            r == self.spec_capacity(),
    {
        self.bytes.len() / 8
    }

    /// Grow to hold at least `needed` quads (see [`grown_capacity_spec`]);
    /// existing bytes are kept and new slots are zero. Returns whether it grew.
    pub fn ensure_quad_capacity(&mut self, needed: u32) -> (grew: bool)
        requires
            old(self).wf(),
            old(self).bytes@.len() <= usize::MAX / 4,
            (needed as int) * 8 <= usize::MAX,
        ensures
            final(self).wf(),
            grew == (grown_capacity_spec(needed as int, old(self).spec_capacity() as int) is Some),
            grew ==> final(self).spec_capacity() == grown_capacity_spec(needed as int, old(self).spec_capacity() as int)->0,
            !grew ==> final(self).bytes@ == old(self).bytes@,
            final(self).bytes@.subrange(0, old(self).bytes@.len() as int) == old(self).bytes@,
            forall|i: int| old(self).bytes@.len() <= i < final(self).bytes@.len() ==> final(self).bytes@[i] == 0,
            final(self).range == old(self).range,
            final(self).pending == old(self).pending,
    {
        let old_cap = self.bytes.len() / 8;
        match grown_capacity(needed as usize, old_cap) {
            None => {
                assert(self.bytes@.subrange(0, self.bytes@.len() as int) =~= self.bytes@);
                false
            },
            Some(new_cap) => {
                let target = new_cap * 8;
                let ghost old_bytes = self.bytes@;
                while self.bytes.len() < target
                    invariant
                        target == new_cap * 8,
                        old_bytes.len() <= self.bytes@.len() <= target,
                        self.bytes@.subrange(0, old_bytes.len() as int) == old_bytes,
                        forall|i: int| old_bytes.len() <= i < self.bytes@.len() ==> self.bytes@[i] == 0,
                        self.range matches Some((s, e)) ==> s <= e <= old_bytes.len(),
                        self.range == old(self).range,
                        self.pending == old(self).pending,
                        old_bytes == old(self).bytes@,
                        old_bytes.len() % 8 == 0,
                    decreases target - self.bytes@.len(),
                {
                    let ghost before = self.bytes@;
                    self.bytes.push(0);
                    assert(self.bytes@.subrange(0, old_bytes.len() as int) =~= before.subrange(0, old_bytes.len() as int));
                }
                true
            },
        }
    }

    /// Stage one sector's quads (`bytes`, 8 per quad; a trailing partial quad
    /// is ignored) at quad slot `base`, growing the staging to hold
    /// `base + max(quads, origins_len)` quads first, and widen the dirty range.
    pub fn upload_quad_region(&mut self, base: u32, bytes: &[u8], origins_len: usize)
        requires
            old(self).wf(),
            old(self).bytes@.len() <= usize::MAX / 4,
            base as int + (if bytes@.len() / 8 >= origins_len { (bytes@.len() / 8) as int } else { origins_len as int }) <= u32::MAX,
            (base as int + (if bytes@.len() / 8 >= origins_len { (bytes@.len() / 8) as int } else { origins_len as int })) * 8 <= usize::MAX,
        ensures
            final(self).wf(),
            bytes@.len() / 8 == 0 ==> *final(self) == *old(self),
            bytes@.len() / 8 > 0 ==> {
                let n = (bytes@.len() / 8) as int;
                let off = base * 8;
                &&& final(self).pending
                &&& final(self).spec_capacity() >= base + n
                &&& final(self).bytes@.subrange(off as int, off + n * 8) == bytes@.subrange(0, n * 8)
                &&& forall|i: int| 0 <= i < final(self).bytes@.len() && !(off <= i < off + n * 8) ==> final(self).bytes@[i] == (if i < old(self).bytes@.len() { old(self).bytes@[i] } else { 0u8 })
                &&& final(self).range == Some(merged_range(old(self).range, off as usize, (off + n * 8) as usize))
            },
    {
        let blen = bytes.len();
        let n = blen / 8;
        if n == 0 {
            return;
        }
        let count = if n >= origins_len { n } else { origins_len };
        let needed = base + count as u32;
        let ghost old_bytes = self.bytes@;
        self.ensure_quad_capacity(needed);
        let ghost grown = self.bytes@;
        let glen = self.bytes.len();
        let off = (base as usize) * 8;
        let mut k: usize = 0;
        assert(n * 8 <= bytes@.len()) by (nonlinear_arith)
            requires
                n == bytes@.len() / 8,
        ;
        while k < n * 8
            invariant
                n == bytes@.len() / 8,
                blen == bytes@.len(),
                n * 8 <= bytes@.len(),
                off == base * 8,
                off + n * 8 <= self.bytes@.len(),
                self.bytes@.len() == grown.len(),
                glen == grown.len(),
                k <= n * 8,
                forall|i: int| 0 <= i < self.bytes@.len() ==> #[trigger] self.bytes@[i] == (if off <= i < off + k { bytes@[i - off] } else { grown[i] }),
                self.range == old(self).range,
                self.range matches Some((s, e)) ==> s <= e <= self.bytes@.len(),
                self.bytes@.len() % 8 == 0,
            decreases n * 8 - k,
        {
            self.bytes.set(off + k, bytes[k]);
            k += 1;
        }
        let q_end = off + n * 8;
        self.range = Some(match self.range {
            Some((s, e)) => (if s <= off { s } else { off }, if e >= q_end { e } else { q_end }),
            None => (off, q_end),
        });
        self.pending = true;
        proof {
            assert(self.bytes@.subrange(off as int, off + n * 8) =~= bytes@.subrange(0, n * 8));
            assert forall|i: int| 0 <= i < self.bytes@.len() && !(off <= i < off + n * 8) implies self.bytes@[i] == (if i < old_bytes.len() { old_bytes[i] } else { 0u8 }) by {
                if i < old_bytes.len() {
                    assert(grown.subrange(0, old_bytes.len() as int)[i] == old_bytes[i]);
                }
            }
        }
    }

    /// Take the pending dirty range (for one buffer write) and clear it.
    pub fn flush_quad_uploads(&mut self) -> (r: Option<(usize, usize)>)
        requires
            old(self).wf(),
        ensures
            final(self).wf(),
            r == (if old(self).pending { old(self).range } else { None }),
            !final(self).pending,
            old(self).pending ==> final(self).range is None,
            !old(self).pending ==> final(self).range == old(self).range,
            final(self).bytes@ == old(self).bytes@,
    {
        if !self.pending {
            return None;
        }
        let r = self.range;
        self.pending = false;
        self.range = None;
        r
    }
}

/// `r` is a power of two.
pub open spec fn is_pow2(r: nat) -> bool
    decreases r,
{
    if r == 1 {
        true
    } else if r == 0 || r % 2 != 0 {
        false
    } else {
        is_pow2(r / 2)
    }
}

/// Entries of the block palette for a registry of `count` ids: the smallest
/// power of two holding them all, and at least two, so the shader can mask a
/// block id with `capacity - 1` and never read past the array.
pub fn palette_capacity(count: usize) -> (r: usize)
    requires
        count <= usize::MAX / 2,
    ensures
        is_pow2(r as nat),
        r >= count,
        r >= 2,
        r == 2 || r / 2 < count,
{
    let n = if count == 0 {
        1
    } else {
        count
    };
    let mut c: usize = 1;
    while c < n
        invariant
            1 <= n <= usize::MAX / 2 + 1,
            n == (if count == 0 { 1 } else { count }),
            1 <= c,
            is_pow2(c as nat),
            c == 1 || c / 2 < n,
            c <= 2 * n,
        decreases 2 * n - c,
    {
        assert(is_pow2((c * 2) as nat)) by {
            assert((c * 2) as nat / 2 == c as nat);
        }
        c = c * 2;
    }
    if c < 2 {
        assert(is_pow2(2));
        2
    } else {
        c
    }
}

} // verus!

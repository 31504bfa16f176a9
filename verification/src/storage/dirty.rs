//! Dirty tracking for write-back.
//!
//! A sticky dirty flag per sector, packed 64 to a word, plus a FIFO queue of
//! the coordinates waiting to be flushed. The flag is a signal, not the
//! recovery authority (the metadata store's dirty column is). The queue holds
//! only coordinates, each at most once. Consuming a batch removes
//! coordinates from the queue but leaves their flags set; only `clear`,
//! called after a durable commit, drops a flag, and it leaves it set while
//! the coordinate, or another queued one sharing its flag, is queued again.

use vstd::prelude::*;
use vstd::wrapping::u64_specs::{wrapping_add, wrapping_mul};

use crate::storage::coord::SectorCoord;

verus! {

/// One mixing round of the coordinate hash.
pub open spec fn mix_round(h: u64, axis: u64) -> u64 {
    let a = h ^ wrapping_add(axis, 0x9e37_79b9_7f4a_7c15);
    let r = (a << 13u64) | (a >> 51u64);
    wrapping_mul(r, 0xbf58_476d_1ce4_e5b9)
}

/// The 64-bit hash of a coordinate that selects its flag word and bit.
#[verifier::opaque]
pub open spec fn spec_hash_coord(c: SectorCoord) -> u64 {
    let h = mix_round(
        mix_round(mix_round(0xcbf2_9ce4_8422_2325, c.0 as u64), c.1 as u64),
        c.2 as u64,
    );
    let h2 = h ^ (h >> 29u64);
    wrapping_mul(h2, 0xbf58_476d_1ce4_e5b9)
}

fn hash_coord(coord: SectorCoord) -> (r: u64)
    ensures
        r == spec_hash_coord(coord),
{
    let mut h: u64 = 0xcbf2_9ce4_8422_2325;
    let axes: [u64; 3] = [coord.0 as u64, coord.1 as u64, coord.2 as u64];
    let mut i: usize = 0;
    while i < 3
        invariant
            i <= 3,
            axes@ == seq![coord.0 as u64, coord.1 as u64, coord.2 as u64],
            i == 0 ==> h == 0xcbf2_9ce4_8422_2325u64,
            i == 1 ==> h == mix_round(0xcbf2_9ce4_8422_2325, coord.0 as u64),
            i == 2 ==> h == mix_round(mix_round(0xcbf2_9ce4_8422_2325, coord.0 as u64), coord.1 as u64),
            i == 3 ==> h == mix_round(
                mix_round(mix_round(0xcbf2_9ce4_8422_2325, coord.0 as u64), coord.1 as u64),
                coord.2 as u64,
            ),
        decreases 3 - i,
    {
        let axis = axes[i];
        let a = h ^ axis.wrapping_add(0x9e37_79b9_7f4a_7c15);
        let r = (a << 13u64) | (a >> 51u64);
        h = r.wrapping_mul(0xbf58_476d_1ce4_e5b9);
        i = i + 1;
    }
    let h2 = h ^ (h >> 29u64);
    proof {
        reveal(spec_hash_coord);
    }
    h2.wrapping_mul(0xbf58_476d_1ce4_e5b9)
}

proof fn lemma_flag_bits(x: u64, k: u64, j: u64, y: u64)
    by (bit_vector)
    requires
        k < 64,
        j < 64,
    ensures
        (x | (1u64 << k)) & (1u64 << k) != 0,
        x & (1u64 << j) != 0 ==> (x | (1u64 << k)) & (1u64 << j) != 0,
        (x & !(1u64 << k)) & (1u64 << k) == 0,
        k != j && x & (1u64 << j) != 0 ==> (x & !(1u64 << k)) & (1u64 << j) != 0,
        k != j ==> (1u64 << k) != (1u64 << j),
        y & 63 < 64,
{
}

proof fn lemma_word_in_range(t: DirtyTracker, c: SectorCoord)
    requires
        1 <= t.words().len() <= usize::MAX,
    ensures
        0 <= t.word_of(c) < t.words().len(),
{
    let h = spec_hash_coord(c);
    let n = t.words().len() as u64;
    vstd::arithmetic::div_mod::lemma_mod_bound(h as int, n as int);
    assert((h % n) as int == (h as int) % (n as int));
}

proof fn lemma_bit_of_bound(c: SectorCoord)
    ensures
        DirtyTracker::bit_of(c) < 64,
{
    lemma_flag_bits(0, 0, 0, spec_hash_coord(c) >> 6u64);
}

/// Sticky dirty flags and the queue of coordinates awaiting flush.
pub struct DirtyTracker {
    shards: Vec<u64>,
    queue: Vec<SectorCoord>,
    shard_bits: u64,
}

impl DirtyTracker {
    /// The flag words.
    pub closed spec fn words(self) -> Seq<u64> {
        self.shards@
    }

    /// The coordinates awaiting flush, oldest first.
    pub closed spec fn queued(self) -> Seq<SectorCoord> {
        self.queue@
    }

    /// Index of the flag word of `c`.
    pub open spec fn word_of(self, c: SectorCoord) -> int {
        (spec_hash_coord(c) % (self.words().len() as u64)) as int
    }

    /// Bit position of `c`'s flag within its word.
    pub open spec fn bit_of(c: SectorCoord) -> u64 {
        (spec_hash_coord(c) >> 6u64) & 63
    }

    /// The mask of `c`'s flag within its word.
    pub open spec fn mask_of(c: SectorCoord) -> u64 {
        1u64 << DirtyTracker::bit_of(c)
    }

    /// `c`'s flag is set.
    pub open spec fn flagged(self, c: SectorCoord) -> bool {
        self.words()[self.word_of(c)] & DirtyTracker::mask_of(c) != 0
    }

    /// `a` and `b` share a flag.
    pub open spec fn same_flag(self, a: SectorCoord, b: SectorCoord) -> bool {
        self.word_of(a) == self.word_of(b) && DirtyTracker::mask_of(a) == DirtyTracker::mask_of(b)
    }

    /// At least one flag word, no coordinate queued twice, and every queued
    /// coordinate flagged.
    pub open spec fn wf(self) -> bool {
        &&& 1 <= self.words().len() <= usize::MAX
        &&& self.spec_shard_bits() == 6
        &&& self.queued().no_duplicates()
        &&& forall|i: int| 0 <= i < self.queued().len() ==> self.flagged(#[trigger] self.queued()[i])
    }

    pub closed spec fn spec_shard_bits(self) -> u64 {
        self.shard_bits
    }

    /// A tracker for `capacity_sectors` flags: that many rounded up to whole
    /// 64-flag words, at least one.
    pub fn new(capacity_sectors: usize) -> (r: DirtyTracker)
        ensures
            r.wf(),
            r.queued() == Seq::<SectorCoord>::empty(),
            r.words() == Seq::new(
                (if capacity_sectors == 0 {
                    1
                } else {
                    (capacity_sectors + 63) / 64
                }) as nat,
                |i: int| 0u64,
            ),
    {
        let words: usize = if capacity_sectors % 64 == 0 {
            capacity_sectors / 64
        } else {
            capacity_sectors / 64 + 1
        };
        let words: usize = if words == 0 {
            1
        } else {
            words
        };
        let mut shards: Vec<u64> = Vec::new();
        let mut k: usize = 0;
        while k < words
            invariant
                k <= words,
                shards@ == Seq::new(k as nat, |i: int| 0u64),
            decreases words - k,
        {
            shards.push(0u64);
            assert(shards@ =~= Seq::new((k + 1) as nat, |i: int| 0u64));
            k = k + 1;
        }
        let r = DirtyTracker { shards, queue: Vec::new(), shard_bits: 6 };
        assert(r.queued().no_duplicates());
        r
    }

    /// The flag word and bit mask of `coord`.
    pub fn locate(&self, coord: SectorCoord) -> (r: (usize, u64))
        requires
            self.wf(),
        ensures
            r.0 as int == self.word_of(coord),
            r.0 < self.words().len(),
            r.1 == DirtyTracker::mask_of(coord),
    {
        let h = hash_coord(coord);
        let shard = (h % (self.shards.len() as u64)) as usize;
        let bit = (h >> self.shard_bits) & 63;
        proof {
            lemma_bit_of_bound(coord);
        }
        (shard, 1u64 << bit)
    }

    fn queue_contains(&self, coord: SectorCoord) -> (r: bool)
        ensures
            r == self.queued().contains(coord),
    {
        let mut i: usize = 0;
        while i < self.queue.len()
            invariant
                i <= self.queue@.len(),
                forall|j: int| 0 <= j < i ==> self.queue@[j] != coord,
            decreases self.queue@.len() - i,
        {
            if self.queue[i] == coord {
                assert(self.queue@[i as int] == coord);
                return true;
            }
            i = i + 1;
        }
        false
    }

    /// Set `coord`'s flag and queue it, unless it is queued already.
    pub fn mark_dirty(&mut self, coord: SectorCoord)
        requires
            old(self).wf(),
        ensures
            final(self).wf(),
            final(self).words() == old(self).words().update(
                old(self).word_of(coord),
                old(self).words()[old(self).word_of(coord)] | DirtyTracker::mask_of(coord),
            ),
            final(self).queued() == (if old(self).queued().contains(coord) {
                old(self).queued()
            } else {
                old(self).queued().push(coord)
            }),
            final(self).flagged(coord),
    {
        let (shard, bit) = self.locate(coord);
        let cur = self.shards[shard];
        self.shards.set(shard, cur | bit);
        let present = self.queue_contains(coord);
        if !present {
            self.queue.push(coord);
        }
        proof {
            let k = DirtyTracker::bit_of(coord);
            lemma_bit_of_bound(coord);
            lemma_flag_bits(cur, k, 0, 0);
            assert(self.words().len() == old(self).words().len());
            assert forall|i: int| 0 <= i < self.queued().len() implies self.flagged(
                #[trigger] self.queued()[i],
            ) by {
                let q = self.queued()[i];
                if i < old(self).queued().len() {
                    assert(q == old(self).queued()[i]);
                    assert(old(self).flagged(old(self).queued()[i]));
                    assert(self.word_of(q) == old(self).word_of(q));
                    lemma_word_in_range(*old(self), q);
                    if self.word_of(q) == shard as int {
                        lemma_bit_of_bound(q);
                        lemma_flag_bits(cur, k, DirtyTracker::bit_of(q), 0);
                    } else {
                        assert(self.words()[self.word_of(q)] == old(self).words()[self.word_of(q)]);
                    }
                } else {
                    assert(q == coord);
                }
            }
            if !present {
                assert forall|a: int, b: int|
                    0 <= a < self.queued().len() && 0 <= b < self.queued().len() && a != b implies self.queued()[a]
                    != self.queued()[b] by {
                    if a < old(self).queued().len() && b < old(self).queued().len() {
                    } else if a < old(self).queued().len() {
                        assert(old(self).queued()[a] != coord);
                    } else {
                        assert(old(self).queued()[b] != coord);
                    }
                }
            }
        }
    }

    /// Take up to `n` coordinates from the front of the queue. Their flags
    /// stay set until `clear`.
    pub fn consume_dirty_batch(&mut self, n: usize) -> (r: Vec<SectorCoord>)
        requires
            old(self).wf(),
        ensures
            final(self).wf(),
            final(self).words() == old(self).words(),
            r@ == old(self).queued().take(
                if n < old(self).queued().len() {
                    n as int
                } else {
                    old(self).queued().len() as int
                },
            ),
            final(self).queued() == old(self).queued().skip(
                if n < old(self).queued().len() {
                    n as int
                } else {
                    old(self).queued().len() as int
                },
            ),
    {
        let m = if n < self.queue.len() {
            n
        } else {
            self.queue.len()
        };
        let ghost q = self.queue@;
        let mut out: Vec<SectorCoord> = Vec::new();
        let mut rest: Vec<SectorCoord> = Vec::new();
        let mut i: usize = 0;
        while i < self.queue.len()
            invariant
                q == self.queue@,
                m <= q.len(),
                i <= q.len(),
                out@ == q.take(if i < m { i as int } else { m as int }),
                rest@ == (if i < m { Seq::empty() } else { q.subrange(m as int, i as int) }),
            decreases q.len() - i,
        {
            let c = self.queue[i];
            if i < m {
                out.push(c);
                assert(out@ =~= q.take(if i + 1 < m { (i + 1) as int } else { m as int }));
            } else {
                rest.push(c);
                assert(rest@ =~= q.subrange(m as int, (i + 1) as int));
            }
            i = i + 1;
        }
        assert(rest@ =~= q.skip(m as int));
        self.queue = rest;
        proof {
            assert forall|i: int| 0 <= i < self.queued().len() implies self.flagged(
                #[trigger] self.queued()[i],
            ) by {
                assert(self.queued()[i] == q[i + m]);
                assert(old(self).flagged(q[i + m]));
            }
        }
        out
    }

    /// Drop `coord`'s flag after a durable commit, unless `coord` was queued
    /// again meanwhile or a queued coordinate shares its flag.
    pub fn clear(&mut self, coord: SectorCoord)
        requires
            old(self).wf(),
        ensures
            final(self).wf(),
            final(self).queued() == old(self).queued(),
            final(self).words() == (if exists|i: int|
                0 <= i < old(self).queued().len() && old(self).same_flag(
                    #[trigger] old(self).queued()[i],
                    coord,
                ) {
                old(self).words()
            } else {
                old(self).words().update(
                    old(self).word_of(coord),
                    old(self).words()[old(self).word_of(coord)] & !DirtyTracker::mask_of(coord),
                )
            }),
    {
        if self.queue_contains(coord) {
            proof {
                let i = choose|i: int| 0 <= i < self.queued().len() && self.queued()[i] == coord;
                assert(self.same_flag(self.queued()[i], coord));
            }
            return;
        }
        let (shard, bit) = self.locate(coord);
        let mut i: usize = 0;
        while i < self.queue.len()
            invariant
                self.wf(),
                *self == *old(self),
                shard as int == self.word_of(coord),
                bit == DirtyTracker::mask_of(coord),
                i <= self.queue@.len(),
                forall|j: int| 0 <= j < i ==> !self.same_flag(#[trigger] self.queued()[j], coord),
            decreases self.queue@.len() - i,
        {
            let (s2, b2) = self.locate(self.queue[i]);
            if s2 == shard && b2 == bit {
                assert(self.same_flag(self.queued()[i as int], coord));
                return;
            }
            i = i + 1;
        }
        let cur = self.shards[shard];
        self.shards.set(shard, cur & !bit);
        proof {
            let k = DirtyTracker::bit_of(coord);
            lemma_bit_of_bound(coord);
            assert(self.words().len() == old(self).words().len());
            assert forall|i: int| 0 <= i < self.queued().len() implies self.flagged(
                #[trigger] self.queued()[i],
            ) by {
                let q = self.queued()[i];
                assert(old(self).flagged(old(self).queued()[i]));
                assert(!old(self).same_flag(old(self).queued()[i], coord));
                assert(self.word_of(q) == old(self).word_of(q));
                lemma_word_in_range(*old(self), q);
                if self.word_of(q) == shard as int {
                    lemma_bit_of_bound(q);
                    let j = DirtyTracker::bit_of(q);
                    if k == j {
                        assert(DirtyTracker::mask_of(q) == DirtyTracker::mask_of(coord));
                    }
                    lemma_flag_bits(cur, k, j, 0);
                } else {
                    assert(self.words()[self.word_of(q)] == old(self).words()[self.word_of(q)]);
                }
            }
        }
    }

    /// Whether `coord`'s flag is set (queued, or flushed and awaiting `clear`).
    pub fn is_dirty(&self, coord: SectorCoord) -> (r: bool)
        requires
            self.wf(),
        ensures
            r == self.flagged(coord),
    {
        let (shard, bit) = self.locate(coord);
        self.shards[shard] & bit != 0
    }

    /// Number of coordinates waiting in the queue.
    pub fn pending(&self) -> (r: usize)
        ensures
            r == self.queued().len(),
    {
        self.queue.len()
    }
}

/// A coordinate that was just marked is flagged, and stays flagged through
/// any batch consumption until it is cleared.
pub proof fn lemma_marked_stays_dirty(before: DirtyTracker, after: DirtyTracker, c: SectorCoord)
    requires
        before.flagged(c),
        after.words() == before.words(),
    ensures
        after.flagged(c),
{
}

/// After a clear that found neither `c` nor a coordinate sharing its flag
/// in the queue, `c` is no longer flagged.
pub proof fn lemma_cleared_not_dirty(before: DirtyTracker, after: DirtyTracker, c: SectorCoord)
    requires
        before.wf(),
        after.words() == before.words().update(
            before.word_of(c),
            before.words()[before.word_of(c)] & !DirtyTracker::mask_of(c),
        ),
    ensures
        !after.flagged(c),
{
    lemma_bit_of_bound(c);
    let w = before.word_of(c);
    lemma_word_in_range(before, c);
    assert(after.words().len() == before.words().len());
    assert(after.word_of(c) == w);
    assert(0 <= w < before.words().len());
    lemma_flag_bits(before.words()[w], DirtyTracker::bit_of(c), 0, 0);
    assert(after.words()[w] == before.words()[w] & !DirtyTracker::mask_of(c));
}

} // verus!

//! Content-addressed deduplication.
//!
//! The key is BLAKE3 over the compressed payload, so identical sectors (all-air
//! ones above all) collapse to a single stored blob. The table is a fast
//! session cache of `hash -> (region offset, size)`; the durable reference
//! counts live in the metadata store.

use vstd::prelude::*;

use crate::storage::envelope::{blake3_digest, compute_hash};
use crate::storage::error::StorageError;

verus! {

/// One cached blob location.
#[derive(Clone, Copy, Debug)]
pub struct DedupEntry {
    pub hash: [u8; 32],
    pub offset: u64,
    pub size: u32,
}

/// In-memory dedup index: `hash -> (region offset, size)`, one entry per hash.
pub struct DedupTable {
    entries: Vec<DedupEntry>,
}

impl View for DedupTable {
    type V = Map<Seq<u8>, (u64, u32)>;

    closed spec fn view(&self) -> Map<Seq<u8>, (u64, u32)> {
        Map::new(
            |k: Seq<u8>| exists|i: int| 0 <= i < self.entries@.len() && self.entries@[i].hash@ == k,
            |k: Seq<u8>|
                {
                    let i = choose|i: int|
                        0 <= i < self.entries@.len() && self.entries@[i].hash@ == k;
                    (self.entries@[i].offset, self.entries@[i].size)
                },
        )
    }
}

impl DedupTable {
    /// No hash occurs twice.
    pub closed spec fn wf(self) -> bool {
        forall|i: int, j: int|
            0 <= i < self.entries@.len() && 0 <= j < self.entries@.len() && i != j
                ==> self.entries@[i].hash@ != self.entries@[j].hash@
    }

    proof fn lemma_view_at(&self, i: int)
        requires
            self.wf(),
            0 <= i < self.entries@.len(),
        ensures
            self@.contains_key(self.entries@[i].hash@),
            self@[self.entries@[i].hash@] == (self.entries@[i].offset, self.entries@[i].size),
    {
        let k = self.entries@[i].hash@;
        assert(exists|j: int| 0 <= j < self.entries@.len() && self.entries@[j].hash@ == k);
        let j = choose|j: int| 0 <= j < self.entries@.len() && self.entries@[j].hash@ == k;
        assert(j == i);
    }

    fn find(&self, hash: &[u8; 32]) -> (r: Option<usize>)
        ensures
            r matches Some(i) ==> i < self.entries@.len() && self.entries@[i as int].hash@
                == hash@,
            r is None ==> forall|i: int|
                0 <= i < self.entries@.len() ==> self.entries@[i].hash@ != hash@,
    {
        let mut k: usize = 0;
        while k < self.entries.len()
            invariant
                k <= self.entries@.len(),
                forall|i: int| 0 <= i < k ==> self.entries@[i].hash@ != hash@,
            decreases self.entries@.len() - k,
        {
            let mut same = true;
            let mut b: usize = 0;
            while b < 32
                invariant
                    k < self.entries@.len(),
                    b <= 32,
                    same <==> forall|j: int| 0 <= j < b ==> self.entries@[k as int].hash@[j]
                        == hash@[j],
                decreases 32 - b,
            {
                if self.entries[k].hash[b] != hash[b] {
                    same = false;
                }
                b = b + 1;
            }
            if same {
                assert(self.entries@[k as int].hash@ =~= hash@);
                return Some(k);
            }
            assert(self.entries@[k as int].hash@ != hash@) by {
                if self.entries@[k as int].hash@ == hash@ {
                    assert(forall|j: int| 0 <= j < 32 ==> self.entries@[k as int].hash@[j] == hash@[j]);
                }
            }
            k = k + 1;
        }
        None
    }

    /// An empty table.
    pub fn new() -> (r: DedupTable)
        ensures
            r.wf(),
            r@ == Map::<Seq<u8>, (u64, u32)>::empty(),
    {
        let r = DedupTable { entries: Vec::new() };
        assert(r@ =~= Map::<Seq<u8>, (u64, u32)>::empty());
        r
    }

    /// Record that the blob hashed `hash` lives at `offset`, `size` bytes long.
    pub fn insert(&mut self, hash: [u8; 32], offset: u64, size: u32)
        requires
            old(self).wf(),
        ensures
            final(self).wf(),
            final(self)@ == old(self)@.insert(hash@, (offset, size)),
    {
        let entry = DedupEntry { hash, offset, size };
        match self.find(&hash) {
            Some(i) => {
                let ghost before = self.entries@;
                self.entries.set(i, entry);
                proof {
                    assert forall|k: Seq<u8>| #[trigger]
                        final(self)@.contains_key(k) == old(self)@.insert(hash@, (offset, size)).contains_key(k) by {
                        if k != hash@ && old(self)@.contains_key(k) {
                            let j = choose|j: int| 0 <= j < before.len() && before[j].hash@ == k;
                            assert(self.entries@[j].hash@ == k);
                        }
                        if k != hash@ && final(self)@.contains_key(k) {
                            let j = choose|j: int| 0 <= j < self.entries@.len() && self.entries@[j].hash@ == k;
                            assert(j != i);
                            assert(before[j].hash@ == k);
                        }
                        if k == hash@ {
                            assert(self.entries@[i as int].hash@ == k);
                        }
                    }
                    assert forall|k: Seq<u8>| #[trigger] final(self)@.contains_key(k) implies final(self)@[k]
                        == old(self)@.insert(hash@, (offset, size))[k] by {
                        let j = choose|j: int| 0 <= j < self.entries@.len() && self.entries@[j].hash@ == k;
                        self.lemma_view_at(j);
                        if j != i {
                            old(self).lemma_view_at(j);
                        }
                    }
                    assert(final(self)@ =~= old(self)@.insert(hash@, (offset, size)));
                }
            },
            None => {
                let ghost before = self.entries@;
                self.entries.push(entry);
                proof {
                    let n = before.len() as int;
                    assert forall|k: Seq<u8>| #[trigger]
                        final(self)@.contains_key(k) == old(self)@.insert(hash@, (offset, size)).contains_key(k) by {
                        if k != hash@ && old(self)@.contains_key(k) {
                            let j = choose|j: int| 0 <= j < before.len() && before[j].hash@ == k;
                            assert(self.entries@[j].hash@ == k);
                        }
                        if k != hash@ && final(self)@.contains_key(k) {
                            let j = choose|j: int| 0 <= j < self.entries@.len() && self.entries@[j].hash@ == k;
                            assert(before[j].hash@ == k);
                        }
                        if k == hash@ {
                            assert(self.entries@[n].hash@ == k);
                        }
                    }
                    assert forall|k: Seq<u8>| #[trigger] final(self)@.contains_key(k) implies final(self)@[k]
                        == old(self)@.insert(hash@, (offset, size))[k] by {
                        let j = choose|j: int| 0 <= j < self.entries@.len() && self.entries@[j].hash@ == k;
                        self.lemma_view_at(j);
                        if j != n {
                            old(self).lemma_view_at(j);
                        }
                    }
                    assert(final(self)@ =~= old(self)@.insert(hash@, (offset, size)));
                }
            },
        }
    }

    /// Look up a stored blob: `(offset, size)` if `hash` is known.
    pub fn get(&self, hash: &[u8; 32]) -> (r: Option<(u64, u32)>)
        requires
            self.wf(),
        ensures
            r == (if self@.contains_key(hash@) {
                Some(self@[hash@])
            } else {
                None
            }),
    {
        match self.find(hash) {
            Some(i) => {
                proof {
                    self.lemma_view_at(i as int);
                }
                Some((self.entries[i].offset, self.entries[i].size))
            },
            None => None,
        }
    }

    /// Whether a blob hashed `hash` is known.
    pub fn contains(&self, hash: &[u8; 32]) -> (r: bool)
        requires
            self.wf(),
        ensures
            r == self@.contains_key(hash@),
    {
        match self.find(hash) {
            Some(i) => {
                proof {
                    self.lemma_view_at(i as int);
                }
                true
            },
            None => false,
        }
    }

    /// The dedup key of a compressed payload.
    pub fn hash_of(payload: &[u8]) -> (r: [u8; 32])
        ensures
            r@ == blake3_digest(payload@),
    {
        compute_hash(payload)
    }
}

/// The dedup key of a sector's compressed payload.
pub fn dedup_hash(payload: &[u8]) -> (r: [u8; 32])
    ensures
        r@ == blake3_digest(payload@),
{
    DedupTable::hash_of(payload)
}

/// Drop the cached entries whose location no longer matches `live`, the
/// authoritative locations after a store reconcile pass.
pub fn reconcile(table: &mut DedupTable, live: &DedupTable) -> (r: Result<(), StorageError>)
    requires
        old(table).wf(),
        live.wf(),
    ensures
        r is Ok,
        final(table).wf(),
        final(table)@ == old(table)@.restrict(
            Set::new(|k: Seq<u8>| live@.contains_key(k) && live@[k] == old(table)@[k]),
        ),
{
    let ghost before = table.entries@;
    let mut kept: Vec<DedupEntry> = Vec::new();
    let mut k: usize = 0;
    while k < table.entries.len()
        invariant
            table.entries@ == before,
            live.wf(),
            k <= before.len(),
            forall|i: int, j: int|
                0 <= i < before.len() && 0 <= j < before.len() && i != j ==> before[i].hash@
                    != before[j].hash@,
            forall|i: int|
                0 <= i < kept@.len() ==> exists|j: int| 0 <= j < k && #[trigger] kept@[i] == before[j],
            forall|j: int|
                0 <= j < k ==> (live@.get(before[j].hash@) == Some((before[j].offset, before[j].size))
                    <==> exists|i: int| 0 <= i < kept@.len() && #[trigger] kept@[i] == before[j]),
            forall|i1: int, i2: int|
                0 <= i1 < kept@.len() && 0 <= i2 < kept@.len() && i1 != i2 ==> kept@[i1].hash@
                    != kept@[i2].hash@,
        decreases before.len() - k,
    {
        let e = table.entries[k];
        let cur = live.get(&e.hash);
        let keep = match cur {
            Some(v) => v.0 == e.offset && v.1 == e.size,
            None => false,
        };
        if keep {
            let ghost kept_before = kept@;
            kept.push(e);
            proof {
                assert(kept@[kept_before.len() as int] == before[k as int]);
                assert forall|i1: int, i2: int|
                    0 <= i1 < kept@.len() && 0 <= i2 < kept@.len() && i1 != i2 implies kept@[i1].hash@
                    != kept@[i2].hash@ by {
                    if i1 < kept_before.len() && i2 < kept_before.len() {
                    } else if i1 < kept_before.len() {
                        let j = choose|j: int| 0 <= j < k && kept_before[i1] == before[j];
                        assert(kept@[i1] == before[j]);
                    } else {
                        let j = choose|j: int| 0 <= j < k && kept_before[i2] == before[j];
                        assert(kept@[i2] == before[j]);
                    }
                }
                assert forall|i: int| 0 <= i < kept@.len() implies exists|j: int|
                    0 <= j < k + 1 && #[trigger] kept@[i] == before[j] by {
                    if i < kept_before.len() {
                        let j = choose|j: int| 0 <= j < k && kept_before[i] == before[j];
                        assert(kept@[i] == before[j]);
                    } else {
                        assert(kept@[i] == before[k as int]);
                    }
                }
                assert forall|j: int| 0 <= j < k + 1 implies (live@.get(before[j].hash@) == Some(
                    (before[j].offset, before[j].size),
                ) <==> exists|i: int| 0 <= i < kept@.len() && #[trigger] kept@[i] == before[j]) by {
                    if j < k {
                        if exists|i: int| 0 <= i < kept_before.len() && kept_before[i] == before[j] {
                            let i = choose|i: int| 0 <= i < kept_before.len() && kept_before[i] == before[j];
                            assert(kept@[i] == before[j]);
                        }
                        if exists|i: int| 0 <= i < kept@.len() && kept@[i] == before[j] {
                            let i = choose|i: int| 0 <= i < kept@.len() && kept@[i] == before[j];
                            if i == kept_before.len() {
                                assert(before[j] == before[k as int]);
                            } else {
                                assert(kept_before[i] == before[j]);
                            }
                        }
                    } else {
                        assert(kept@[kept_before.len() as int] == before[j]);
                    }
                }
            }
        } else {
            proof {
                assert forall|i: int| 0 <= i < kept@.len() implies exists|j: int|
                    0 <= j < k + 1 && #[trigger] kept@[i] == before[j] by {
                    let j = choose|j: int| 0 <= j < k && kept@[i] == before[j];
                }
                assert(!exists|i: int| 0 <= i < kept@.len() && #[trigger] kept@[i] == before[k as int])
                    by {
                    if exists|i: int| 0 <= i < kept@.len() && kept@[i] == before[k as int] {
                        let i = choose|i: int| 0 <= i < kept@.len() && kept@[i] == before[k as int];
                        let j = choose|j: int| 0 <= j < k && kept@[i] == before[j];
                        assert(before[j].hash@ == before[k as int].hash@);
                    }
                }
            }
        }
        k = k + 1;
    }
    table.entries = kept;
    proof {
        let old_map = old(table)@;
        let keep_set = Set::new(|k: Seq<u8>| live@.contains_key(k) && live@[k] == old_map[k]);
        let target = old_map.restrict(keep_set);
        assert forall|key: Seq<u8>| #[trigger] final(table)@.contains_key(key) == target.contains_key(key) by {
            if final(table)@.contains_key(key) {
                let i = choose|i: int| 0 <= i < kept@.len() && kept@[i].hash@ == key;
                let j = choose|j: int| 0 <= j < before.len() && kept@[i] == before[j];
                old(table).lemma_view_at(j);
            }
            if target.contains_key(key) {
                let j = choose|j: int| 0 <= j < before.len() && before[j].hash@ == key;
                old(table).lemma_view_at(j);
                let i = choose|i: int| 0 <= i < kept@.len() && kept@[i] == before[j];
                assert(kept@[i].hash@ == key);
            }
        }
        assert forall|key: Seq<u8>| #[trigger] final(table)@.contains_key(key) implies final(table)@[key]
            == target[key] by {
            let i = choose|i: int| 0 <= i < kept@.len() && kept@[i].hash@ == key;
            table.lemma_view_at(i);
            let j = choose|j: int| 0 <= j < before.len() && kept@[i] == before[j];
            old(table).lemma_view_at(j);
        }
        assert(final(table)@ =~= target);
    }
    Ok(())
}

} // verus!

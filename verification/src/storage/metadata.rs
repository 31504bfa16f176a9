//! Per-sector metadata rows and the in-memory metadata table.
//!
//! The metadata store is the authoritative durable index over the region
//! files. It records, per sector, the payload hash and size, tier, version
//! and the durable dirty flag that decides what must be flushed again after
//! a crash.

use vstd::prelude::*;

use crate::storage::coord::SectorCoord;
use crate::storage::text::{int_decimal, push_signed_decimal, string_of};

verus! {

/// Durable metadata of one sector.
#[derive(Clone, Copy, Debug)]
pub struct SectorMetadata {
    pub coord: SectorCoord,
    /// BLAKE3 of the compressed payload.
    pub hash: [u8; 32],
    /// Compressed payload length in bytes.
    pub size: u64,
    /// Last modification, Unix epoch milliseconds.
    pub mtime: i64,
    /// Tier byte (0 Warm, 1 Distant, 2 Archive).
    pub tier: u8,
    /// Schema version of this row.
    pub version: u32,
    /// The sector has edits that have not reached disk.
    pub dirty: bool,
}

impl SectorMetadata {
    /// The row key of `coord`: `sector:<x>,<y>,<z>`.
    pub fn key(coord: SectorCoord) -> (r: String)
        ensures
            r@ == "sector:"@ + int_decimal(coord.0 as int) + ","@ + int_decimal(coord.1 as int) + ","@
                + int_decimal(coord.2 as int),
    {
        let mut s = string_of("sector:");
        push_signed_decimal(&mut s, coord.0 as i64);
        s.append(",");
        push_signed_decimal(&mut s, coord.1 as i64);
        s.append(",");
        push_signed_decimal(&mut s, coord.2 as i64);
        s
    }
}

/// An in-memory metadata index: one row per sector coordinate.
pub struct MetadataTable {
    rows: Vec<SectorMetadata>,
}

impl View for MetadataTable {
    type V = Map<SectorCoord, SectorMetadata>;

    closed spec fn view(&self) -> Map<SectorCoord, SectorMetadata> {
        Map::new(
            |c: SectorCoord| exists|i: int| 0 <= i < self.rows@.len() && self.rows@[i].coord == c,
            |c: SectorCoord|
                {
                    let i = choose|i: int| 0 <= i < self.rows@.len() && self.rows@[i].coord == c;
                    self.rows@[i]
                },
        )
    }
}

impl MetadataTable {
    /// No coordinate has two rows.
    pub closed spec fn wf(&self) -> bool {
        forall|i: int, j: int|
            0 <= i < self.rows@.len() && 0 <= j < self.rows@.len() && i != j ==> self.rows@[i].coord
                != self.rows@[j].coord
    }

    proof fn lemma_view_at(&self, i: int)
        requires
            self.wf(),
            0 <= i < self.rows@.len(),
        ensures
            self@.contains_key(self.rows@[i].coord),
            self@[self.rows@[i].coord] == self.rows@[i],
    {
        let c = self.rows@[i].coord;
        assert(exists|j: int| 0 <= j < self.rows@.len() && self.rows@[j].coord == c);
        let j = choose|j: int| 0 <= j < self.rows@.len() && self.rows@[j].coord == c;
        assert(j == i);
    }

    fn position(&self, c: SectorCoord) -> (r: Option<usize>)
        ensures
            r matches Some(i) ==> i < self.rows@.len() && self.rows@[i as int].coord == c,
            r is None ==> forall|i: int| 0 <= i < self.rows@.len() ==> self.rows@[i].coord != c,
    {
        let mut k: usize = 0;
        while k < self.rows.len()
            invariant
                k <= self.rows@.len(),
                forall|i: int| 0 <= i < k ==> self.rows@[i].coord != c,
            decreases self.rows@.len() - k,
        {
            if self.rows[k].coord == c {
                return Some(k);
            }
            k = k + 1;
        }
        None
    }

    /// An empty table.
    pub fn new() -> (r: MetadataTable)
        ensures
            r.wf(),
            r@ == Map::<SectorCoord, SectorMetadata>::empty(),
    {
        let r = MetadataTable { rows: Vec::new() };
        assert(r@ =~= Map::<SectorCoord, SectorMetadata>::empty());
        r
    }

    /// The row of `coord`, if it was ever stored.
    pub fn get(&self, coord: SectorCoord) -> (r: Option<SectorMetadata>)
        requires
            self.wf(),
        ensures
            r == (if self@.contains_key(coord) {
                Some(self@[coord])
            } else {
                None
            }),
    {
        match self.position(coord) {
            Some(i) => {
                proof {
                    self.lemma_view_at(i as int);
                }
                Some(self.rows[i])
            },
            None => None,
        }
    }

    /// Insert or replace the row of `meta.coord`.
    pub fn put(&mut self, meta: SectorMetadata)
        requires
            old(self).wf(),
        ensures
            final(self).wf(),
            final(self)@ == old(self)@.insert(meta.coord, meta),
    {
        let c = meta.coord;
        let ghost before = self.rows@;
        let pos = self.position(c);
        match pos {
            Some(i) => {
                self.rows.set(i, meta);
            },
            None => {
                self.rows.push(meta);
            },
        }
        proof {
            let idx: int = match pos {
                Some(i) => i as int,
                None => before.len() as int,
            };
            assert(self.rows@[idx] == meta);
            assert forall|j: int| 0 <= j < self.rows@.len() && j != idx implies self.rows@[j] == before[j] by {}
            assert forall|k: SectorCoord| #[trigger] final(self)@.contains_key(k) == old(self)@.insert(c, meta).contains_key(k) by {
                if k != c && old(self)@.contains_key(k) {
                    let j = choose|j: int| 0 <= j < before.len() && before[j].coord == k;
                    assert(j != idx);
                    assert(self.rows@[j].coord == k);
                }
                if k != c && final(self)@.contains_key(k) {
                    let j = choose|j: int| 0 <= j < self.rows@.len() && self.rows@[j].coord == k;
                    assert(j != idx);
                    assert(before[j].coord == k);
                }
                if k == c {
                    assert(self.rows@[idx].coord == k);
                }
            }
            assert forall|k: SectorCoord| #[trigger] final(self)@.contains_key(k) implies final(self)@[k]
                == old(self)@.insert(c, meta)[k] by {
                let j = choose|j: int| 0 <= j < self.rows@.len() && self.rows@[j].coord == k;
                self.lemma_view_at(j);
                if j != idx {
                    old(self).lemma_view_at(j);
                }
            }
            assert(final(self)@ =~= old(self)@.insert(c, meta));
        }
    }

    /// Remove the row of `coord`.
    pub fn delete(&mut self, coord: SectorCoord)
        requires
            old(self).wf(),
        ensures
            final(self).wf(),
            final(self)@ == old(self)@.remove(coord),
    {
        match self.position(coord) {
            Some(i) => {
                let ghost before = self.rows@;
                self.rows.remove(i);
                proof {
                    let after = self.rows@;
                    assert(after =~= before.remove(i as int));
                    assert forall|k: SectorCoord| #[trigger] final(self)@.contains_key(k) == old(self)@.remove(coord).contains_key(k) by {
                        if k != coord && old(self)@.contains_key(k) {
                            let j = choose|j: int| 0 <= j < before.len() && before[j].coord == k;
                            assert(j != i);
                            if j < i {
                                assert(after[j] == before[j]);
                            } else {
                                assert(after[j - 1] == before[j]);
                            }
                        }
                        if final(self)@.contains_key(k) {
                            let j = choose|j: int| 0 <= j < after.len() && after[j].coord == k;
                            if j < i {
                                assert(after[j] == before[j]);
                            } else {
                                assert(after[j] == before[j + 1]);
                            }
                        }
                    }
                    assert forall|k: SectorCoord| #[trigger] final(self)@.contains_key(k) implies final(self)@[k]
                        == old(self)@.remove(coord)[k] by {
                        let j = choose|j: int| 0 <= j < after.len() && after[j].coord == k;
                        self.lemma_view_at(j);
                        if j < i {
                            assert(after[j] == before[j]);
                            old(self).lemma_view_at(j);
                        } else {
                            assert(after[j] == before[j + 1]);
                            old(self).lemma_view_at(j + 1);
                        }
                    }
                    assert(final(self)@ =~= old(self)@.remove(coord));
                }
            },
            None => {
                proof {
                    assert forall|k: SectorCoord| #[trigger] old(self)@.contains_key(k) implies k != coord by {
                        let j = choose|j: int| 0 <= j < self.rows@.len() && self.rows@[j].coord == k;
                    }
                    assert(final(self)@ =~= old(self)@.remove(coord));
                }
            },
        }
    }

    /// Every row flagged dirty: the set to flush again on startup.
    pub fn list_dirty(&self) -> (r: Vec<SectorMetadata>)
        requires
            self.wf(),
        ensures
            forall|k: int| 0 <= k < r@.len() ==> #[trigger] r@[k].dirty && self@.contains_key(r@[k].coord)
                && self@[r@[k].coord] == r@[k],
            forall|c: SectorCoord| #[trigger] self@.contains_key(c) && self@[c].dirty ==> exists|k: int|
                0 <= k < r@.len() && r@[k] == self@[c],
            forall|k1: int, k2: int| 0 <= k1 < k2 < r@.len() ==> r@[k1].coord != r@[k2].coord,
    {
        let mut out: Vec<SectorMetadata> = Vec::new();
        let ghost mut idx: Seq<int> = Seq::empty();
        let mut k: usize = 0;
        while k < self.rows.len()
            invariant
                self.wf(),
                k <= self.rows@.len(),
                idx.len() == out@.len(),
                forall|m: int| 0 <= m < out@.len() ==> 0 <= #[trigger] idx[m] < k && out@[m] == self.rows@[idx[m]]
                    && self.rows@[idx[m]].dirty,
                forall|m1: int, m2: int| 0 <= m1 < m2 < out@.len() ==> idx[m1] < idx[m2],
                forall|j: int| 0 <= j < k && self.rows@[j].dirty ==> exists|m: int| 0 <= m < out@.len() && #[trigger] idx[m] == j,
            decreases self.rows@.len() - k,
        {
            let row = self.rows[k];
            if row.dirty {
                let ghost before = idx;
                out.push(row);
                proof {
                    idx = idx.push(k as int);
                    assert forall|j: int| 0 <= j < k + 1 && self.rows@[j].dirty implies exists|m: int| 0 <= m < out@.len() && #[trigger] idx[m] == j by {
                        if j < k {
                            let m = choose|m: int| 0 <= m < before.len() && before[m] == j;
                            assert(idx[m] == j);
                        } else {
                            assert(idx[before.len() as int] == j);
                        }
                    }
                }
            }
            k = k + 1;
        }
        proof {
            assert forall|m: int| 0 <= m < out@.len() implies #[trigger] out@[m].dirty && self@.contains_key(out@[m].coord)
                && self@[out@[m].coord] == out@[m] by {
                self.lemma_view_at(idx[m]);
            }
            assert forall|c: SectorCoord| #[trigger] self@.contains_key(c) && self@[c].dirty implies exists|m: int|
                0 <= m < out@.len() && out@[m] == self@[c] by {
                let j = choose|j: int| 0 <= j < self.rows@.len() && self.rows@[j].coord == c;
                self.lemma_view_at(j);
                let m = choose|m: int| 0 <= m < out@.len() && idx[m] == j;
                assert(out@[m] == self.rows@[j]);
            }
            assert forall|m1: int, m2: int| 0 <= m1 < m2 < out@.len() implies out@[m1].coord != out@[m2].coord by {
                assert(idx[m1] < idx[m2]);
            }
        }
        out
    }

    /// Store every row of `metas`, in order (a later row for a coordinate wins).
    pub fn batch_write(&mut self, metas: Vec<SectorMetadata>)
        requires
            old(self).wf(),
        ensures
            final(self).wf(),
            final(self)@ == put_all(old(self)@, metas@),
    {
        let mut k: usize = 0;
        while k < metas.len()
            invariant
                self.wf(),
                k <= metas@.len(),
                self@ == put_all(old(self)@, metas@.subrange(0, k as int)),
            decreases metas@.len() - k,
        {
            let m = metas[k];
            self.put(m);
            proof {
                assert(metas@.subrange(0, k + 1).drop_last() =~= metas@.subrange(0, k as int));
            }
            k = k + 1;
        }
        assert(metas@.subrange(0, metas@.len() as int) =~= metas@);
    }
}

/// `m` after storing each row of `rows` in order.
pub open spec fn put_all(m: Map<SectorCoord, SectorMetadata>, rows: Seq<SectorMetadata>) -> Map<
    SectorCoord,
    SectorMetadata,
>
    decreases rows.len(),
{
    if rows.len() == 0 {
        m
    } else {
        put_all(m, rows.drop_last()).insert(rows.last().coord, rows.last())
    }
}

} // verus!

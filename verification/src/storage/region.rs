//! The region file image format.
//!
//! A region is a 32x32x32 cube of sectors. Its file holds a compact header, a
//! dense slot table with one `(offset, size)` entry per present sector, the
//! payload records (each a `SectorHeader` image followed by the compressed
//! payload), and a trailer: a presence bitmap with one bit per sector of the
//! region, the region magic and version, and the first 8 bytes of BLAKE3 over
//! the payload area, for crash recovery.
//!
//! ```text
//! [ header: 20 bytes ][ slots: 8 bytes each ][ payload ][ bitmap: 4096 ][ footer: 16 ]
//! ```
//!
//! The functions here work on in-memory images; reading and writing files is
//! the caller's.

use vstd::prelude::*;
use vstd::arithmetic::div_mod::lemma_fundamental_div_mod_converse;

use crate::storage::bytes::{
    get_i32, get_u16, get_u32, push_bytes, push_u16, push_u32, push_u64, read_i32, read_u16,
    read_u32, u16_le, u32_le, u64_le,
};
use crate::storage::coord::SectorCoord;
use crate::storage::envelope::{blake3_digest, compute_hash, SectorHeader, SECTOR_HEADER_LEN};
use crate::storage::error::StorageError;
use crate::storage::text::{int_decimal, nat_decimal, push_decimal, push_signed_decimal, string_of};

verus! {

/// Sectors per axis of a region.
pub const REGION_DIM: i32 = 32;

/// Sectors in a region, 32 cubed.
pub const REGION_SECTOR_COUNT: usize = 32768;

/// Current region format version.
pub const REGION_VERSION: u16 = 1;

/// Bytes of the presence bitmap, one bit per sector of the region.
pub const TRAILER_BITMAP_BYTES: usize = 4096;

/// Bytes of the trailer footer: magic, version, padding, payload tail hash.
pub const TRAILER_FOOTER: usize = 16;

/// Bytes of the fixed region header.
pub const HEADER_LEN: usize = 20;

/// Bytes of one slot-table entry.
pub const SLOT_LEN: usize = 8;

/// The region magic, `"STRG"` (distinct from the sector envelope magic).
pub const REGION_MAGIC: [u8; 4] = [0x53, 0x54, 0x52, 0x47];

pub open spec fn region_magic() -> Seq<u8> {
    seq![0x53u8, 0x54u8, 0x52u8, 0x47u8]
}

/// A region's coordinate: each axis is the sector axis floor-divided by 32.
#[derive(Clone, Copy, Debug, PartialEq, Eq, Hash, Structural)]
pub struct RegionCoord {
    pub x: i32,
    pub y: i32,
    pub z: i32,
}

/// Index of a sector inside its region: `(ly * 32 + lz) * 32 + lx`, where
/// each local axis is the sector axis modulo 32 (always in `0..32`).
pub open spec fn spec_local_index(c: SectorCoord) -> int {
    ((c.1 as int % 32) * 32 + (c.2 as int % 32)) * 32 + (c.0 as int % 32)
}

fn floor_div32(v: i32) -> (r: i32)
    ensures
        r as int == v as int / 32,
        v as int % 32 == v as int - 32 * (r as int),
{
    if v >= 0 {
        let q = v / 32;
        proof {
            lemma_fundamental_div_mod_converse(v as int, 32, q as int, v as int - 32 * (q as int));
        }
        q
    } else {
        let t: i32 = -(v + 1);
        let q: i32 = t / 32;
        let r: i32 = -q - 1;
        proof {
            let rem = t as int - 32 * (q as int);
            assert(0 <= rem < 32);
            lemma_fundamental_div_mod_converse(v as int, 32, r as int, 31 - rem);
        }
        r
    }
}

fn rem32(v: i32) -> (r: usize)
    ensures
        r as int == v as int % 32,
        r < 32,
{
    let q = floor_div32(v);
    (v as i64 - 32 * (q as i64)) as usize
}

impl RegionCoord {
    /// The region containing sector `coord`.
    pub fn from_sector(coord: SectorCoord) -> (r: RegionCoord)
        ensures
            r.x as int == coord.0 as int / 32,
            r.y as int == coord.1 as int / 32,
            r.z as int == coord.2 as int / 32,
    {
        RegionCoord { x: floor_div32(coord.0), y: floor_div32(coord.1), z: floor_div32(coord.2) }
    }

    /// Flat index of `coord` within its region, in `0..32768`.
    pub fn local_index(coord: SectorCoord) -> (r: usize)
        ensures
            r as int == spec_local_index(coord),
            r < REGION_SECTOR_COUNT,
    {
        let lx = rem32(coord.0);
        let ly = rem32(coord.1);
        let lz = rem32(coord.2);
        (ly * 32 + lz) * 32 + lx
    }

    /// The region's file name, `r.<x>.<y>.<z>.strata`.
    pub fn file_name(&self) -> (r: String)
        ensures
            r@ == "r."@ + int_decimal(self.x as int) + "."@ + int_decimal(self.y as int) + "."@
                + int_decimal(self.z as int) + ".strata"@,
    {
        let mut s = string_of("r.");
        push_signed_decimal(&mut s, self.x as i64);
        s.append(".");
        push_signed_decimal(&mut s, self.y as i64);
        s.append(".");
        push_signed_decimal(&mut s, self.z as i64);
        s.append(".strata");
        s
    }
}

/// Where one present sector's record lies in the payload area.
#[derive(Clone, Copy, Debug, PartialEq, Eq, Structural)]
pub struct Slot {
    pub offset: u32,
    pub size: u32,
}

/// A present sector and its slot.
#[derive(Clone, Copy, Debug, PartialEq, Eq, Structural)]
pub struct SlotEntry {
    pub coord: SectorCoord,
    pub slot: Slot,
}

/// The slot of `c` in `s`: the last entry for `c` wins.
pub open spec fn slot_lookup(s: Seq<SlotEntry>, c: SectorCoord) -> Option<Slot>
    decreases s.len(),
{
    if s.len() == 0 {
        None
    } else if s.last().coord == c {
        Some(s.last().slot)
    } else {
        slot_lookup(s.drop_last(), c)
    }
}

/// No coordinate occurs twice.
pub open spec fn coords_distinct(s: Seq<SlotEntry>) -> bool {
    forall|i: int, j: int| 0 <= i < s.len() && 0 <= j < s.len() && i != j ==> s[i].coord != s[j].coord
}

/// Insert `e`, replacing the entry with the same coordinate where there is one.
pub open spec fn upsert(s: Seq<SlotEntry>, e: SlotEntry) -> Seq<SlotEntry> {
    if exists|i: int| 0 <= i < s.len() && s[i].coord == e.coord {
        let i = choose|i: int| 0 <= i < s.len() && s[i].coord == e.coord;
        s.update(i, e)
    } else {
        s.push(e)
    }
}

/// With distinct coordinates, the lookup of an entry's coordinate is its slot.
pub proof fn lemma_lookup_at(s: Seq<SlotEntry>, i: int)
    requires
        coords_distinct(s),
        0 <= i < s.len(),
    ensures
        slot_lookup(s, s[i].coord) == Some(s[i].slot),
    decreases s.len(),
{
    if i != s.len() - 1 {
        assert(s.drop_last()[i] == s[i]);
        lemma_lookup_at(s.drop_last(), i);
    }
}

/// A coordinate with no entry has no slot.
pub proof fn lemma_lookup_absent(s: Seq<SlotEntry>, c: SectorCoord)
    requires
        forall|i: int| 0 <= i < s.len() ==> s[i].coord != c,
    ensures
        slot_lookup(s, c) is None,
    decreases s.len(),
{
    if s.len() > 0 {
        lemma_lookup_absent(s.drop_last(), c);
    }
}

/// The lookup of `c` is `Some` exactly when some entry has coordinate `c`,
/// and then it is that entry's slot.
pub proof fn lemma_lookup_cases(s: Seq<SlotEntry>, c: SectorCoord)
    requires
        coords_distinct(s),
    ensures
        slot_lookup(s, c) is Some <==> exists|i: int| 0 <= i < s.len() && s[i].coord == c,
        forall|i: int| 0 <= i < s.len() && s[i].coord == c ==> slot_lookup(s, c) == Some(s[i].slot),
{
    if exists|i: int| 0 <= i < s.len() && s[i].coord == c {
        let i = choose|i: int| 0 <= i < s.len() && s[i].coord == c;
        lemma_lookup_at(s, i);
    } else {
        lemma_lookup_absent(s, c);
    }
    assert forall|i: int| 0 <= i < s.len() && s[i].coord == c implies slot_lookup(s, c) == Some(
        s[i].slot,
    ) by {
        lemma_lookup_at(s, i);
    }
}

/// After an upsert, `e`'s coordinate looks up `e`'s slot and every other
/// coordinate looks up what it did before.
pub proof fn lemma_upsert_lookup(s: Seq<SlotEntry>, e: SlotEntry)
    requires
        coords_distinct(s),
    ensures
        coords_distinct(upsert(s, e)),
        forall|d: SectorCoord| #[trigger] slot_lookup(upsert(s, e), d) == (if d == e.coord {
            Some(e.slot)
        } else {
            slot_lookup(s, d)
        }),
{
    let u = upsert(s, e);
    if exists|i: int| 0 <= i < s.len() && s[i].coord == e.coord {
        let i = choose|i: int| 0 <= i < s.len() && s[i].coord == e.coord;
        assert(u == s.update(i, e));
    } else {
        assert(u == s.push(e));
    }
    assert(coords_distinct(u)) by {
        assert forall|a: int, b: int| 0 <= a < u.len() && 0 <= b < u.len() && a != b implies u[a].coord != u[b].coord by {
            if exists|i: int| 0 <= i < s.len() && s[i].coord == e.coord {
                let i = choose|i: int| 0 <= i < s.len() && s[i].coord == e.coord;
                if a != i && b != i {
                    assert(u[a] == s[a] && u[b] == s[b]);
                } else if a == i {
                    assert(u[b] == s[b]);
                } else {
                    assert(u[a] == s[a]);
                }
            } else {
                if a < s.len() && b < s.len() {
                    assert(u[a] == s[a] && u[b] == s[b]);
                } else if a < s.len() {
                    assert(u[a] == s[a]);
                } else {
                    assert(u[b] == s[b]);
                }
            }
        }
    }
    assert forall|d: SectorCoord| #[trigger] slot_lookup(u, d) == (if d == e.coord {
        Some(e.slot)
    } else {
        slot_lookup(s, d)
    }) by {
        lemma_lookup_cases(s, d);
        lemma_lookup_cases(u, d);
        if exists|i: int| 0 <= i < s.len() && s[i].coord == e.coord {
            let i = choose|i: int| 0 <= i < s.len() && s[i].coord == e.coord;
            if d == e.coord {
                assert(u[i].coord == d);
            } else {
                if exists|k: int| 0 <= k < s.len() && s[k].coord == d {
                    let k = choose|k: int| 0 <= k < s.len() && s[k].coord == d;
                    assert(u[k] == s[k]);
                }
                if exists|k: int| 0 <= k < u.len() && u[k].coord == d {
                    let k = choose|k: int| 0 <= k < u.len() && u[k].coord == d;
                    assert(k != i);
                    assert(u[k] == s[k]);
                }
            }
        } else {
            if d == e.coord {
                assert(u[s.len() as int].coord == d);
            } else {
                if exists|k: int| 0 <= k < s.len() && s[k].coord == d {
                    let k = choose|k: int| 0 <= k < s.len() && s[k].coord == d;
                    assert(u[k] == s[k]);
                }
                if exists|k: int| 0 <= k < u.len() && u[k].coord == d {
                    let k = choose|k: int| 0 <= k < u.len() && u[k].coord == d;
                    assert(k < s.len());
                    assert(u[k] == s[k]);
                }
            }
        }
    }
}

/// The present sectors of one region file and where their records lie.
pub struct SlotTable {
    pub entries: Vec<SlotEntry>,
}

impl SlotTable {
    /// No coordinate occurs twice.
    pub open spec fn wf(&self) -> bool {
        coords_distinct(self.entries@)
    }

    /// The slot recorded for `c`, if any.
    pub open spec fn lookup(&self, c: SectorCoord) -> Option<Slot> {
        slot_lookup(self.entries@, c)
    }

    /// An empty table.
    pub fn new() -> (r: SlotTable)
        ensures
            r.wf(),
            r.entries@ == Seq::<SlotEntry>::empty(),
    {
        SlotTable { entries: Vec::new() }
    }

    /// Number of present sectors.
    pub fn len(&self) -> (r: usize)
        ensures
            r == self.entries@.len(),
    {
        self.entries.len()
    }

    fn position(&self, c: SectorCoord) -> (r: Option<usize>)
        ensures
            r matches Some(i) ==> i < self.entries@.len() && self.entries@[i as int].coord == c,
            r is None ==> forall|i: int| 0 <= i < self.entries@.len() ==> self.entries@[i].coord != c,
    {
        let mut k: usize = 0;
        while k < self.entries.len()
            invariant
                k <= self.entries@.len(),
                forall|i: int| 0 <= i < k ==> self.entries@[i].coord != c,
            decreases self.entries@.len() - k,
        {
            if self.entries[k].coord == c {
                return Some(k);
            }
            k = k + 1;
        }
        None
    }

    /// The slot recorded for `c`, if any.
    pub fn get(&self, c: SectorCoord) -> (r: Option<Slot>)
        requires
            self.wf(),
        ensures
            r == self.lookup(c),
    {
        proof {
            lemma_lookup_cases(self.entries@, c);
        }
        match self.position(c) {
            Some(i) => Some(self.entries[i].slot),
            None => None,
        }
    }

    /// Record `slot` for `c`, replacing an earlier slot of `c`.
    pub fn insert(&mut self, c: SectorCoord, slot: Slot)
        requires
            old(self).wf(),
        ensures
            final(self).wf(),
            final(self).entries@ == upsert(old(self).entries@, SlotEntry { coord: c, slot }),
            forall|d: SectorCoord| #[trigger] final(self).lookup(d) == (if d == c {
                Some(slot)
            } else {
                old(self).lookup(d)
            }),
    {
        proof {
            lemma_upsert_lookup(self.entries@, SlotEntry { coord: c, slot });
        }
        let e = SlotEntry { coord: c, slot };
        match self.position(c) {
            Some(i) => {
                proof {
                    let s = old(self).entries@;
                    assert(exists|j: int| 0 <= j < s.len() && s[j].coord == c);
                    let j = choose|j: int| 0 <= j < s.len() && s[j].coord == c;
                    assert(j == i);
                }
                self.entries.set(i, e);
            },
            None => {
                self.entries.push(e);
            },
        }
    }

    /// Drop the slot of `c`; returns whether there was one.
    pub fn remove(&mut self, c: SectorCoord) -> (r: bool)
        requires
            old(self).wf(),
        ensures
            final(self).wf(),
            r == old(self).lookup(c) is Some,
            final(self).entries@ == without(old(self).entries@, c),
            forall|k: int| 0 <= k < final(self).entries@.len() ==> exists|j: int|
                0 <= j < old(self).entries@.len() && old(self).entries@[j] == #[trigger] final(self).entries@[k],
            forall|d: SectorCoord| #[trigger] final(self).lookup(d) == (if d == c {
                None
            } else {
                old(self).lookup(d)
            }),
    {
        proof {
            lemma_lookup_cases(self.entries@, c);
        }
        match self.position(c) {
            Some(i) => {
                let ghost s = self.entries@;
                self.entries.remove(i);
                proof {
                    let t = self.entries@;
                    assert(t =~= s.remove(i as int));
                    lemma_without_at(s, i as int);
                    assert forall|k: int| 0 <= k < t.len() implies exists|j: int|
                        0 <= j < s.len() && s[j] == #[trigger] t[k] by {
                        if k < i {
                            assert(s[k] == t[k]);
                        } else {
                            assert(s[k + 1] == t[k]);
                        }
                    }
                    assert forall|d: SectorCoord| #[trigger] slot_lookup(t, d) == (if d == c {
                        None
                    } else {
                        slot_lookup(s, d)
                    }) by {
                        lemma_lookup_cases(s, d);
                        lemma_lookup_cases(t, d);
                        if d == c {
                            assert forall|k: int| 0 <= k < t.len() implies t[k].coord != c by {
                                if k < i {
                                    assert(t[k] == s[k]);
                                } else {
                                    assert(t[k] == s[k + 1]);
                                }
                            }
                        } else {
                            if exists|k: int| 0 <= k < s.len() && s[k].coord == d {
                                let k = choose|k: int| 0 <= k < s.len() && s[k].coord == d;
                                assert(k != i);
                                if k < i {
                                    assert(t[k] == s[k]);
                                } else {
                                    assert(t[k - 1] == s[k]);
                                }
                            }
                            if exists|k: int| 0 <= k < t.len() && t[k].coord == d {
                                let k = choose|k: int| 0 <= k < t.len() && t[k].coord == d;
                                if k < i {
                                    assert(t[k] == s[k]);
                                } else {
                                    assert(t[k] == s[k + 1]);
                                }
                            }
                        }
                    }
                }
                true
            },
            None => {
                proof {
                    lemma_without_absent(self.entries@, c);
                }
                false
            },
        }
    }
}

/// The entries of `s` other than those of coordinate `c`, in order.
pub open spec fn without(s: Seq<SlotEntry>, c: SectorCoord) -> Seq<SlotEntry>
    decreases s.len(),
{
    if s.len() == 0 {
        Seq::empty()
    } else if s.last().coord == c {
        without(s.drop_last(), c)
    } else {
        without(s.drop_last(), c).push(s.last())
    }
}

/// With no entry of coordinate `c`, nothing is dropped.
proof fn lemma_without_absent(s: Seq<SlotEntry>, c: SectorCoord)
    requires
        forall|i: int| 0 <= i < s.len() ==> s[i].coord != c,
    ensures
        without(s, c) == s,
    decreases s.len(),
{
    if s.len() > 0 {
        lemma_without_absent(s.drop_last(), c);
        assert(s.drop_last().push(s.last()) =~= s);
    }
}

/// With distinct coordinates, dropping `c` removes its one entry.
proof fn lemma_without_at(s: Seq<SlotEntry>, i: int)
    requires
        coords_distinct(s),
        0 <= i < s.len(),
    ensures
        without(s, s[i].coord) == s.remove(i),
    decreases s.len(),
{
    let c = s[i].coord;
    let d = s.drop_last();
    if i == s.len() - 1 {
        lemma_without_absent(d, c);
        assert(d =~= s.remove(i));
    } else {
        assert(d[i] == s[i]);
        lemma_without_at(d, i);
        assert(s.last().coord != c);
        assert(d.remove(i).push(s.last()) =~= s.remove(i));
    }
}

/// Start of the payload area in an image whose slot table has `count` entries.
pub open spec fn payload_base(count: int) -> int {
    20 + 8 * count
}

/// The `k`-th slot of the table in `b`.
pub open spec fn parsed_slot(b: Seq<u8>, k: int) -> Slot {
    Slot { offset: read_u32(b, 20 + 8 * k), size: read_u32(b, 24 + 8 * k) }
}

/// The coordinate recorded in the header of the `k`-th slot's record.
pub open spec fn parsed_coord(b: Seq<u8>, count: int, k: int) -> SectorCoord {
    let abs = payload_base(count) + parsed_slot(b, k).offset;
    SectorCoord(read_i32(b, abs + 8), read_i32(b, abs + 12), read_i32(b, abs + 16))
}

/// What is wrong with the `k`-th slot of the table in `b`, if anything.
pub open spec fn slot_fault(b: Seq<u8>, count: int, k: int) -> Option<Seq<char>> {
    let slot = parsed_slot(b, k);
    if 20 + 8 * k + 8 > b.len() {
        Some("truncated slot table"@)
    } else if slot.size < SECTOR_HEADER_LEN {
        Some("slot size "@ + nat_decimal(slot.size as nat) + " < sector header (72)"@)
    } else if payload_base(count) + slot.offset + slot.size > b.len() {
        Some("slot points past EOF"@)
    } else {
        None
    }
}

/// The fault of the first faulty slot among slots `k..count`.
pub open spec fn first_fault(b: Seq<u8>, count: int, k: int) -> Option<Seq<char>>
    decreases count - k,
{
    if k >= count {
        None
    } else if slot_fault(b, count, k) is Some {
        slot_fault(b, count, k)
    } else {
        first_fault(b, count, k + 1)
    }
}

/// The table made of the first `k` slots, each keyed by the coordinate in
/// its record's header; a later slot for the same coordinate replaces it.
pub open spec fn parsed_entries(b: Seq<u8>, count: int, k: nat) -> Seq<SlotEntry>
    decreases k,
{
    if k == 0 {
        Seq::empty()
    } else {
        let j = k - 1;
        upsert(
            parsed_entries(b, count, (k - 1) as nat),
            SlotEntry { coord: parsed_coord(b, count, j), slot: parsed_slot(b, j) },
        )
    }
}

/// The slot count stored in a region image.
pub open spec fn stored_count(b: Seq<u8>) -> u32 {
    read_u32(b, 8)
}

/// Why `b` is not a readable region image, if it is not.
pub open spec fn parse_error(b: Seq<u8>) -> Option<Seq<char>> {
    if b.len() < HEADER_LEN {
        Some("file too small to hold header"@)
    } else if b.subrange(0, 4) != region_magic() {
        Some("bad region magic"@)
    } else if read_u16(b, 4) != REGION_VERSION {
        Some("unsupported region version "@ + nat_decimal(read_u16(b, 4) as nat))
    } else if stored_count(b) > REGION_SECTOR_COUNT {
        Some("sector count "@ + nat_decimal(stored_count(b) as nat) + " exceeds region capacity"@)
    } else {
        first_fault(b, stored_count(b) as int, 0)
    }
}

fn region_error(msg: &str) -> (e: StorageError)
    ensures
        e is Region,
        e.message() == msg@,
{
    StorageError::Region(string_of(msg))
}

/// Parse the slot table of a region image, keying each slot by the
/// coordinate in its record's header.
pub fn parse_slots(bytes: &[u8]) -> (r: Result<SlotTable, StorageError>)
    ensures
        r matches Err(e) ==> e is Region && parse_error(bytes@) == Some(e.message()),
        r matches Ok(t) ==> parse_error(bytes@) is None && t.wf() && t.entries@ == parsed_entries(
            bytes@,
            stored_count(bytes@) as int,
            stored_count(bytes@) as nat,
        ),
{
    let len = bytes.len();
    if len < HEADER_LEN {
        return Err(region_error("file too small to hold header"));
    }
    if !(bytes[0] == REGION_MAGIC[0] && bytes[1] == REGION_MAGIC[1] && bytes[2] == REGION_MAGIC[2]
        && bytes[3] == REGION_MAGIC[3]) {
        assert(bytes@.subrange(0, 4) != region_magic()) by {
            if bytes@.subrange(0, 4) == region_magic() {
                assert(bytes@.subrange(0, 4)[0] == bytes@[0]);
                assert(bytes@.subrange(0, 4)[1] == bytes@[1]);
                assert(bytes@.subrange(0, 4)[2] == bytes@[2]);
                assert(bytes@.subrange(0, 4)[3] == bytes@[3]);
            }
        }
        return Err(region_error("bad region magic"));
    }
    assert(bytes@.subrange(0, 4) =~= region_magic());
    let version = get_u16(bytes, 4);
    if version != REGION_VERSION {
        let mut msg = string_of("unsupported region version ");
        push_decimal(&mut msg, version as u64);
        return Err(StorageError::Region(msg));
    }
    let count = get_u32(bytes, 8);
    if count as usize > REGION_SECTOR_COUNT {
        let mut msg = string_of("sector count ");
        push_decimal(&mut msg, count as u64);
        msg.append(" exceeds region capacity");
        return Err(StorageError::Region(msg));
    }
    let ghost b = bytes@;
    let ghost cnt = count as int;
    let base: u64 = 20 + 8 * (count as u64);
    let mut table = SlotTable::new();
    let mut cursor: u64 = 20;
    let mut k: u32 = 0;
    while k < count
        invariant
            b == bytes@,
            len == b.len(),
            cnt == count,
            count <= REGION_SECTOR_COUNT,
            base == payload_base(cnt),
            k <= count,
            cursor == 20 + 8 * k,
            parse_error(b) == first_fault(b, cnt, k as int),
            table.wf(),
            table.entries@ == parsed_entries(b, cnt, k as nat),
        decreases count - k,
    {
        if cursor + 8 > len as u64 {
            return Err(region_error("truncated slot table"));
        }
        let offset = get_u32(bytes, cursor as usize);
        let size = get_u32(bytes, (cursor + 4) as usize);
        cursor = cursor + 8;
        if (size as usize) < SECTOR_HEADER_LEN {
            let mut msg = string_of("slot size ");
            push_decimal(&mut msg, size as u64);
            msg.append(" < sector header (72)");
            return Err(StorageError::Region(msg));
        }
        let abs: u64 = base + offset as u64;
        if abs + size as u64 > len as u64 {
            return Err(region_error("slot points past EOF"));
        }
        let a = abs as usize;
        let coord = SectorCoord(get_i32(bytes, a + 8), get_i32(bytes, a + 12), get_i32(bytes, a + 16));
        let ghost before = table.entries@;
        table.insert(coord, Slot { offset, size });
        proof {
            assert(parsed_slot(b, k as int) == Slot { offset, size });
            assert(parsed_coord(b, cnt, k as int) == coord);
            assert(parsed_entries(b, cnt, (k + 1) as nat) == upsert(
                parsed_entries(b, cnt, k as nat),
                SlotEntry { coord, slot: Slot { offset, size } },
            ));
        }
        k = k + 1;
    }
    Ok(table)
}

/// The fixed 20-byte header of an image whose slot table has `n` entries.
pub open spec fn header_bytes(n: nat) -> Seq<u8> {
    region_magic() + u16_le(REGION_VERSION) + seq![0u8, 0u8] + u32_le(n as u32) + u64_le(
        (20 + 8 * n) as u64,
    )
}

/// The slot table: each slot's offset then size, little-endian.
pub open spec fn slot_table_bytes(s: Seq<SlotEntry>) -> Seq<u8>
    decreases s.len(),
{
    if s.len() == 0 {
        Seq::empty()
    } else {
        slot_table_bytes(s.drop_last()) + u32_le(s.last().slot.offset) + u32_le(s.last().slot.size)
    }
}

/// A presence bitmap with no sector marked.
pub open spec fn empty_bitmap() -> Seq<u8> {
    Seq::new(TRAILER_BITMAP_BYTES as nat, |i: int| 0u8)
}

/// `bm` with the bit of sector index `idx` set.
pub open spec fn set_presence(bm: Seq<u8>, idx: int) -> Seq<u8> {
    bm.update(idx / 8, bm[idx / 8] | (1u8 << ((idx % 8) as u8)))
}

/// The presence bitmap with the bit of each entry's local index set.
pub open spec fn presence_bitmap(s: Seq<SlotEntry>) -> Seq<u8>
    decreases s.len(),
{
    if s.len() == 0 {
        empty_bitmap()
    } else {
        set_presence(presence_bitmap(s.drop_last()), spec_local_index(s.last().coord))
    }
}

/// The trailer footer: magic, version, padding, first 8 bytes of BLAKE3 over the payload.
pub open spec fn footer_bytes(payload: Seq<u8>) -> Seq<u8> {
    region_magic() + u16_le(REGION_VERSION) + seq![0u8, 0u8] + Seq::new(
        8,
        |i: int| blake3_digest(payload)[i],
    )
}

/// The full image of a region holding the slots `s` over the payload area `payload`.
pub open spec fn region_image(s: Seq<SlotEntry>, payload: Seq<u8>) -> Seq<u8> {
    header_bytes(s.len()) + slot_table_bytes(s) + payload + presence_bitmap(s) + footer_bytes(payload)
}

/// The payload area of an existing image: everything after its slot table
/// (empty when the image is too short to hold one).
pub open spec fn existing_payload(e: Seq<u8>) -> Seq<u8> {
    if e.len() < HEADER_LEN {
        Seq::empty()
    } else if payload_base(stored_count(e) as int) <= e.len() {
        e.subrange(payload_base(stored_count(e) as int), e.len() as int)
    } else {
        Seq::empty()
    }
}

/// The slot count of an existing image (zero when it is too short).
pub open spec fn existing_count(e: Seq<u8>) -> nat {
    if e.len() < HEADER_LEN {
        0
    } else {
        stored_count(e) as nat
    }
}

/// Sum of the slot sizes.
pub open spec fn total_size(s: Seq<SlotEntry>) -> nat
    decreases s.len(),
{
    if s.len() == 0 {
        0
    } else {
        total_size(s.drop_last()) + s.last().slot.size as nat
    }
}

/// Every slot lies within a payload area of `len` bytes.
pub open spec fn slots_fit(s: Seq<SlotEntry>, len: int) -> bool {
    forall|i: int| 0 <= i < s.len() ==> #[trigger] s[i].slot.offset + s[i].slot.size <= len
}

/// The records of `s`, copied out of `p` in table order and laid end to end.
pub open spec fn repacked_payload(s: Seq<SlotEntry>, p: Seq<u8>) -> Seq<u8>
    decreases s.len(),
{
    if s.len() == 0 {
        Seq::empty()
    } else {
        repacked_payload(s.drop_last(), p) + p.subrange(
            s.last().slot.offset as int,
            s.last().slot.offset + s.last().slot.size,
        )
    }
}

/// The slots of `s` after repacking: same order and sizes, offsets end to end.
pub open spec fn repacked_entries(s: Seq<SlotEntry>) -> Seq<SlotEntry> {
    Seq::new(
        s.len(),
        |i: int|
            SlotEntry {
                coord: s[i].coord,
                slot: Slot { offset: total_size(s.subrange(0, i)) as u32, size: s[i].slot.size },
            },
    )
}

/// The raw record (header image and payload) that slot lookup and the
/// stored count locate for `c` in `img`, if it lies within the image.
pub open spec fn record_of(s: Seq<SlotEntry>, img: Seq<u8>, c: SectorCoord) -> Option<Seq<u8>> {
    match slot_lookup(s, c) {
        None => None,
        Some(slot) => {
            if img.len() < HEADER_LEN {
                None
            } else {
                let start = payload_base(stored_count(img) as int) + slot.offset;
                let end = start + slot.size;
                if end > img.len() {
                    None
                } else {
                    Some(img.subrange(start, end))
                }
            }
        },
    }
}

/// A record whose header has the sector magic and whose stored hash and
/// checksum match the payload that follows the header.
pub open spec fn record_verifies(rec: Seq<u8>) -> bool {
    let payload = rec.subrange(SECTOR_HEADER_LEN as int, rec.len() as int);
    &&& rec.len() >= SECTOR_HEADER_LEN
    &&& rec.subrange(0, 4) == crate::storage::envelope::sector_magic()
    &&& blake3_digest(payload) == rec.subrange(24, 56)
    &&& crate::storage::envelope::xxh64_digest(payload, crate::storage::envelope::XXH_SEED)
        == crate::storage::bytes::read_u64(rec, 64)
}

proof fn lemma_slot_table_len(s: Seq<SlotEntry>)
    ensures
        slot_table_bytes(s).len() == 8 * s.len(),
    decreases s.len(),
{
    if s.len() > 0 {
        lemma_slot_table_len(s.drop_last());
    }
}

proof fn lemma_bitmap_len(s: Seq<SlotEntry>)
    ensures
        presence_bitmap(s).len() == TRAILER_BITMAP_BYTES,
    decreases s.len(),
{
    if s.len() > 0 {
        lemma_bitmap_len(s.drop_last());
        assert(0 <= spec_local_index(s.last().coord) < 32768);
    }
}

proof fn lemma_total_prefix(s: Seq<SlotEntry>, i: int)
    requires
        0 <= i < s.len(),
    ensures
        total_size(s.subrange(0, i + 1)) == total_size(s.subrange(0, i)) + s[i].slot.size,
        total_size(s.subrange(0, i + 1)) <= total_size(s),
    decreases s.len(),
{
    assert(s.subrange(0, i + 1).drop_last() =~= s.subrange(0, i));
    if i + 1 < s.len() {
        lemma_total_prefix(s.drop_last(), i);
        assert(s.drop_last().subrange(0, i + 1) =~= s.subrange(0, i + 1));
        assert(s.drop_last().subrange(0, i) =~= s.subrange(0, i));
    } else {
        assert(s.subrange(0, i + 1) =~= s);
    }
}

pub proof fn lemma_total_prefix_le(s: Seq<SlotEntry>, i: int)
    requires
        0 <= i <= s.len(),
    ensures
        total_size(s.subrange(0, i)) <= total_size(s),
{
    if i < s.len() {
        lemma_total_prefix(s, i);
    } else {
        assert(s.subrange(0, i) =~= s);
    }
}

pub proof fn lemma_repacked_len(s: Seq<SlotEntry>, p: Seq<u8>)
    requires
        slots_fit(s, p.len() as int),
    ensures
        repacked_payload(s, p).len() == total_size(s),
    decreases s.len(),
{
    if s.len() > 0 {
        let t = s.drop_last();
        assert(slots_fit(t, p.len() as int)) by {
            assert forall|i: int| 0 <= i < t.len() implies #[trigger] t[i].slot.offset + t[i].slot.size
                <= p.len() by {
                assert(t[i] == s[i]);
            }
        }
        lemma_repacked_len(t, p);
        assert(s[s.len() - 1].slot.offset + s[s.len() - 1].slot.size <= p.len());
    }
}

pub proof fn lemma_repacked_segment(s: Seq<SlotEntry>, p: Seq<u8>, i: int)
    requires
        slots_fit(s, p.len() as int),
        0 <= i < s.len(),
    ensures
        total_size(s.subrange(0, i)) + s[i].slot.size <= repacked_payload(s, p).len(),
        repacked_payload(s, p).subrange(
            total_size(s.subrange(0, i)) as int,
            total_size(s.subrange(0, i)) + s[i].slot.size,
        ) == p.subrange(s[i].slot.offset as int, s[i].slot.offset + s[i].slot.size),
    decreases s.len(),
{
    let t = s.drop_last();
    assert(slots_fit(t, p.len() as int)) by {
        assert forall|j: int| 0 <= j < t.len() implies #[trigger] t[j].slot.offset + t[j].slot.size
            <= p.len() by {
            assert(t[j] == s[j]);
        }
    }
    lemma_repacked_len(t, p);
    lemma_repacked_len(s, p);
    assert(s[i].slot.offset + s[i].slot.size <= p.len());
    if i == s.len() - 1 {
        assert(s.subrange(0, i) =~= t);
    } else {
        lemma_repacked_segment(t, p, i);
        assert(t.subrange(0, i) =~= s.subrange(0, i));
        assert(t[i] == s[i]);
        let a = total_size(s.subrange(0, i)) as int;
        let b = a + s[i].slot.size;
        assert(repacked_payload(s, p).subrange(a, b) =~= repacked_payload(t, p).subrange(a, b));
    }
}

pub proof fn lemma_repacked_entries_distinct(s: Seq<SlotEntry>)
    requires
        coords_distinct(s),
    ensures
        coords_distinct(repacked_entries(s)),
        repacked_entries(s).len() == s.len(),
{
}

/// Reading the image positions of a region image.
proof fn lemma_image_layout(t: Seq<SlotEntry>, payload: Seq<u8>)
    requires
        t.len() <= REGION_SECTOR_COUNT,
    ensures
        region_image(t, payload).len() == 20 + 8 * t.len() + payload.len() + 4112,
        stored_count(region_image(t, payload)) == t.len(),
        forall|a: int, b: int|
            0 <= a <= b <= payload.len() ==> #[trigger] region_image(t, payload).subrange(
                20 + 8 * t.len() + a,
                20 + 8 * t.len() + b,
            ) == payload.subrange(a, b),
{
    let img = region_image(t, payload);
    lemma_slot_table_len(t);
    lemma_bitmap_len(t);
    let h = header_bytes(t.len());
    assert(h.len() == 20);
    assert(img.subrange(8, 12) =~= u32_le(t.len() as u32));
    crate::storage::bytes::lemma_read_u32(img, 8, t.len() as u32);
    let base = 20 + 8 * t.len();
    assert forall|a: int, b: int| 0 <= a <= b <= payload.len() implies #[trigger] img.subrange(
        base + a,
        base + b,
    ) == payload.subrange(a, b) by {
        assert(img.subrange(base + a, base + b) =~= payload.subrange(a, b));
    }
}

#[verifier::spinoff_prover]
#[verifier::rlimit(40)]
/// Every sector readable from the old image reads the same from an image
/// whose table starts with the repacked slots of the old table and whose
/// payload area starts with the repacked records.
proof fn lemma_repacked_record(
    s: Seq<SlotEntry>,
    existing: Seq<u8>,
    t: Seq<SlotEntry>,
    extra: Seq<u8>,
    c: SectorCoord,
)
    requires
        coords_distinct(s),
        coords_distinct(t),
        s.len() <= t.len() <= REGION_SECTOR_COUNT,
        t.subrange(0, s.len() as int) == repacked_entries(s),
        forall|j: int| s.len() <= j < t.len() ==> t[j].coord != c,
        slots_fit(s, existing_payload(existing).len() as int),
        total_size(s) <= u32::MAX,
        record_of(s, existing, c) is Some,
    ensures
        record_of(
            t,
            region_image(t, repacked_payload(s, existing_payload(existing)) + extra),
            c,
        ) == record_of(s, existing, c),
{
    let p = existing_payload(existing);
    let big = repacked_payload(s, p) + extra;
    let img = region_image(t, big);
    lemma_lookup_cases(s, c);
    let i = choose|i: int| 0 <= i < s.len() && s[i].coord == c;
    assert(t[i] == t.subrange(0, s.len() as int)[i]);
    assert(t[i].coord == c);
    lemma_lookup_at(t, i);
    lemma_total_prefix_le(s, i);
    assert(t[i].slot.offset == total_size(s.subrange(0, i)));
    assert(t[i].slot.size == s[i].slot.size);
    lemma_repacked_segment(s, p, i);
    lemma_image_layout(t, big);
    let a = total_size(s.subrange(0, i)) as int;
    let b = a + s[i].slot.size;
    assert(big.subrange(a, b) =~= repacked_payload(s, p).subrange(a, b));
    assert(img.subrange(20 + 8 * t.len() + a, 20 + 8 * t.len() + b) == big.subrange(a, b));
    // the old record lies inside the old payload area
    let base_old = payload_base(stored_count(existing) as int);
    assert(existing.len() >= HEADER_LEN);
    assert(base_old + s[i].slot.offset + s[i].slot.size <= existing.len());
    assert(p =~= existing.subrange(base_old, existing.len() as int));
    assert(p.subrange(s[i].slot.offset as int, s[i].slot.offset + s[i].slot.size) =~= existing.subrange(
        base_old + s[i].slot.offset,
        base_old + s[i].slot.offset + s[i].slot.size,
    ));
}

/// Serialize the slot table and payload area, appending the trailer.
pub fn serialize_slots(slots: &SlotTable, payload: &[u8]) -> (r: Vec<u8>)
    requires
        slots.entries@.len() <= REGION_SECTOR_COUNT,
    ensures
        r@ == region_image(slots.entries@, payload@),
{
    let ghost s = slots.entries@;
    let n = slots.entries.len();
    let mut out: Vec<u8> = Vec::new();
    push_bytes(&mut out, REGION_MAGIC.as_slice());
    push_u16(&mut out, REGION_VERSION);
    out.push(0u8);
    out.push(0u8);
    push_u32(&mut out, n as u32);
    push_u64(&mut out, (20 + 8 * n) as u64);
    assert(REGION_MAGIC@ =~= region_magic());
    assert(out@ =~= header_bytes(n as nat));
    let mut k: usize = 0;
    while k < n
        invariant
            s == slots.entries@,
            n == s.len(),
            k <= n,
            out@ == header_bytes(n as nat) + slot_table_bytes(s.subrange(0, k as int)),
        decreases n - k,
    {
        let e = slots.entries[k];
        push_u32(&mut out, e.slot.offset);
        push_u32(&mut out, e.slot.size);
        proof {
            assert(s.subrange(0, k + 1).drop_last() =~= s.subrange(0, k as int));
            assert(out@ =~= header_bytes(n as nat) + slot_table_bytes(s.subrange(0, k + 1)));
        }
        k = k + 1;
    }
    assert(s.subrange(0, n as int) =~= s);
    push_bytes(&mut out, payload);
    let mut bm: Vec<u8> = Vec::new();
    let mut j: usize = 0;
    while j < TRAILER_BITMAP_BYTES
        invariant
            j <= TRAILER_BITMAP_BYTES,
            bm@ == Seq::new(j as nat, |i: int| 0u8),
        decreases TRAILER_BITMAP_BYTES - j,
    {
        bm.push(0u8);
        assert(bm@ =~= Seq::new((j + 1) as nat, |i: int| 0u8));
        j = j + 1;
    }
    let mut k: usize = 0;
    while k < n
        invariant
            s == slots.entries@,
            n == s.len(),
            k <= n,
            bm@ == presence_bitmap(s.subrange(0, k as int)),
        decreases n - k,
    {
        proof {
            lemma_bitmap_len(s.subrange(0, k as int));
        }
        let idx = RegionCoord::local_index(slots.entries[k].coord);
        let w = idx / 8;
        let bit: u8 = 1u8 << ((idx % 8) as u8);
        let cur = bm[w];
        bm.set(w, cur | bit);
        proof {
            assert(s.subrange(0, k + 1).drop_last() =~= s.subrange(0, k as int));
            assert(s.subrange(0, k + 1).last() == s[k as int]);
            assert(bm@ =~= presence_bitmap(s.subrange(0, k + 1)));
        }
        k = k + 1;
    }
    push_bytes(&mut out, bm.as_slice());
    push_bytes(&mut out, REGION_MAGIC.as_slice());
    push_u16(&mut out, REGION_VERSION);
    out.push(0u8);
    out.push(0u8);
    let hash = compute_hash(payload);
    let mut h: usize = 0;
    let ghost before = out@;
    while h < 8
        invariant
            h <= 8,
            hash@ == blake3_digest(payload@),
            out@ == before + Seq::new(h as nat, |i: int| blake3_digest(payload@)[i]),
        decreases 8 - h,
    {
        out.push(hash[h]);
        assert(out@ =~= before + Seq::new((h + 1) as nat, |i: int| blake3_digest(payload@)[i]));
        h = h + 1;
    }
    assert(out@ =~= region_image(s, payload@));
    out
}

/// The slot count and payload area of an existing image; an image too short
/// to hold a header has none.
pub fn read_existing(existing: &[u8]) -> (r: Result<(usize, Vec<u8>), StorageError>)
    ensures
        r matches Ok(v) && v.0 == existing_count(existing@) && v.1@ == existing_payload(
            existing@,
        ),
{
    let len = existing.len();
    if len < HEADER_LEN {
        return Ok((0, Vec::new()));
    }
    let count = get_u32(existing, 8);
    let start: u64 = 20 + 8 * (count as u64);
    let payload = if start <= len as u64 {
        crate::storage::bytes::copy_range(existing, start as usize, len)
    } else {
        Vec::new()
    };
    Ok((count as usize, payload))
}

fn repack(slots: &SlotTable, old: &[u8]) -> (r: Result<(SlotTable, Vec<u8>), StorageError>)
    requires
        slots.wf(),
        total_size(slots.entries@) <= u32::MAX,
    ensures
        r matches Ok(v) ==> slots_fit(slots.entries@, old@.len() as int) && v.0.wf()
            && v.0.entries@ == repacked_entries(slots.entries@) && v.1@ == repacked_payload(
            slots.entries@,
            old@,
        ),
        r matches Err(e) ==> !slots_fit(slots.entries@, old@.len() as int) && e.is_region_msg(
            "slot points past payload"@,
        ),
{
    let ghost s = slots.entries@;
    let n = slots.entries.len();
    let mut entries: Vec<SlotEntry> = Vec::new();
    let mut payload: Vec<u8> = Vec::new();
    let mut k: usize = 0;
    while k < n
        invariant
            s == slots.entries@,
            n == s.len(),
            k <= n,
            coords_distinct(s),
            total_size(s) <= u32::MAX,
            entries@.len() == k,
            forall|i: int| 0 <= i < k ==> entries@[i] == repacked_entries(s)[i],
            slots_fit(s.subrange(0, k as int), old@.len() as int),
            payload@ == repacked_payload(s.subrange(0, k as int), old@),
            payload@.len() == total_size(s.subrange(0, k as int)),
        decreases n - k,
    {
        let e = slots.entries[k];
        let start = e.slot.offset as u64;
        let end = start + e.slot.size as u64;
        if end > old.len() as u64 {
            assert(!slots_fit(s, old@.len() as int)) by {
                assert(s[k as int].slot.offset + s[k as int].slot.size > old@.len());
            }
            return Err(region_error("slot points past payload"));
        }
        proof {
            lemma_total_prefix(s, k as int);
        }
        let offset = payload.len() as u32;
        let piece = crate::storage::bytes::copy_range(old, start as usize, end as usize);
        payload.extend_from_slice(piece.as_slice());
        entries.push(SlotEntry { coord: e.coord, slot: Slot { offset, size: e.slot.size } });
        proof {
            let s1 = s.subrange(0, k + 1);
            assert(s1.drop_last() =~= s.subrange(0, k as int));
            assert(s1.last() == s[k as int]);
            assert(payload@ =~= repacked_payload(s1, old@));
            assert(slots_fit(s1, old@.len() as int)) by {
                assert forall|i: int| 0 <= i < s1.len() implies #[trigger] s1[i].slot.offset
                    + s1[i].slot.size <= old@.len() by {
                    if i < k {
                        assert(s1[i] == s.subrange(0, k as int)[i]);
                    }
                }
            }
        }
        k = k + 1;
    }
    assert(s.subrange(0, n as int) =~= s);
    assert(entries@ =~= repacked_entries(s));
    proof {
        lemma_repacked_entries_distinct(s);
    }
    Ok((SlotTable { entries }, payload))
}

/// Build a new image that appends `coord`'s record (`header` then
/// `payload`) after re-packing the surviving records, and return it with the
/// absolute offset of the new payload in the image (just past the record's
/// header). `slots` must not hold `coord`: a
/// re-save replaces rather than accumulates. On success `slots` becomes the
/// new table.
pub fn build_append(
    existing: &[u8],
    slots: &mut SlotTable,
    coord: SectorCoord,
    header: &SectorHeader,
    payload: &[u8],
) -> (r: Result<(Vec<u8>, u64), StorageError>)
    requires
        old(slots).wf(),
        old(slots).lookup(coord) is None,
        old(slots).entries@.len() < REGION_SECTOR_COUNT,
        total_size(old(slots).entries@) + SECTOR_HEADER_LEN + payload@.len() <= u32::MAX,
    ensures
        r matches Err(e) ==> !slots_fit(old(slots).entries@, existing_payload(existing@).len() as int)
            && e.is_region_msg("slot points past payload"@) && final(slots).entries@ == old(
            slots,
        ).entries@,
        r matches Ok(v) ==> {
            let s = old(slots).entries@;
            let p = existing_payload(existing@);
            &&& slots_fit(s, p.len() as int)
            &&& final(slots).wf()
            &&& final(slots).entries@ == appended_entries(s, coord, payload@.len())
            &&& v.0@ == region_image(
                final(slots).entries@,
                repacked_payload(s, p) + header.image() + payload@,
            )
            &&& v.1 == payload_base(s.len() + 1int) + total_size(s) + SECTOR_HEADER_LEN
            &&& v.0@.subrange(v.1 as int, v.1 + payload@.len()) == payload@
        },
{
    let ghost s = slots.entries@;
    let (_count, old_payload) = match read_existing(existing) {
        Ok(v) => v,
        Err(e) => return Err(e),
    };
    let (mut table, mut new_payload) = match repack(slots, old_payload.as_slice()) {
        Ok(v) => v,
        Err(e) => return Err(e),
    };
    proof {
        lemma_repacked_len(s, old_payload@);
    }
    let hb = header.to_bytes();
    let offset = new_payload.len() as u32;
    new_payload.extend_from_slice(hb.as_slice());
    new_payload.extend_from_slice(payload);
    let size = (SECTOR_HEADER_LEN + payload.len()) as u32;
    proof {
        lemma_lookup_cases(s, coord);
        assert forall|i: int| 0 <= i < table.entries@.len() implies table.entries@[i].coord != coord by {
            assert(table.entries@[i].coord == s[i].coord);
        }
    }
    table.entries.push(SlotEntry { coord, slot: Slot { offset, size } });
    *slots = table;
    assert(slots.entries@ =~= appended_entries(s, coord, payload@.len()));
    assert(new_payload@ =~= repacked_payload(s, old_payload@) + header.image() + payload@);
    let image = serialize_slots(slots, new_payload.as_slice());
    let abs = (20 + 8 * slots.entries.len()) as u64 + offset as u64 + SECTOR_HEADER_LEN as u64;
    proof {
        let big = new_payload@;
        let a = offset + SECTOR_HEADER_LEN;
        lemma_image_layout(slots.entries@, big);
        assert(big.subrange(a as int, a + payload@.len()) =~= payload@);
        let base = 20 + 8 * slots.entries@.len();
        assert(region_image(slots.entries@, big).subrange(base + a, base + a + payload@.len())
            == big.subrange(a as int, a + payload@.len()));
    }
    Ok((image, abs))
}

/// Tables with the same slot sizes, entry by entry, have the same total size.
proof fn lemma_same_sizes_total(a: Seq<SlotEntry>, b: Seq<SlotEntry>)
    requires
        a.len() == b.len(),
        forall|i: int| 0 <= i < a.len() ==> #[trigger] a[i].slot.size == b[i].slot.size,
    ensures
        total_size(a) == total_size(b),
    decreases a.len(),
{
    if a.len() > 0 {
        let (x, y) = (a.drop_last(), b.drop_last());
        assert forall|i: int| 0 <= i < x.len() implies #[trigger] x[i].slot.size == y[i].slot.size by {
            assert(x[i] == a[i] && y[i] == b[i]);
        }
        lemma_same_sizes_total(x, y);
        assert(a.last() == a[a.len() - 1]);
    }
}

/// The size of `c`'s record in `s`, 0 where it has none.
pub open spec fn record_size(s: Seq<SlotEntry>, c: SectorCoord) -> nat {
    match slot_lookup(s, c) {
        Some(slot) => slot.size as nat,
        None => 0,
    }
}

/// Dropping `c` removes exactly its one record, if it has one.
proof fn lemma_without_totals(s: Seq<SlotEntry>, c: SectorCoord)
    requires
        coords_distinct(s),
    ensures
        total_size(without(s, c)) + record_size(s, c) == total_size(s),
        without(s, c).len() + (if slot_lookup(s, c) is Some { 1int } else { 0int }) == s.len(),
    decreases s.len(),
{
    if s.len() > 0 {
        let d = s.drop_last();
        assert(coords_distinct(d)) by {
            assert forall|i: int, j: int| 0 <= i < d.len() && 0 <= j < d.len() && i != j implies d[i].coord
                != d[j].coord by {
                assert(d[i] == s[i] && d[j] == s[j]);
            }
        }
        if s.last().coord == c {
            assert forall|i: int| 0 <= i < d.len() implies d[i].coord != c by {
                assert(d[i] == s[i]);
            }
            lemma_without_absent(d, c);
        } else {
            lemma_without_totals(d, c);
            let w = without(d, c);
            assert(w.push(s.last()).drop_last() =~= w);
            assert(total_size(w.push(s.last())) == total_size(w) + s.last().slot.size);
        }
    }
}

/// Rewriting a sector does not accumulate records: the table after
/// `plan_write_sector` has the same number of entries as before (one more
/// only for a sector not yet present), and its records' total size is the
/// old total less the replaced record plus the new one. So rewriting one
/// sector with records of one size keeps the image the same length.
pub proof fn lemma_rewrite_does_not_accumulate(s: Seq<SlotEntry>, coord: SectorCoord, len: nat)
    requires
        coords_distinct(s),
        SECTOR_HEADER_LEN + len <= u32::MAX,
    ensures
        ({
            let t = appended_entries(without(s, coord), coord, len);
            &&& t.len() == (if slot_lookup(s, coord) is Some { s.len() as int } else { s.len() + 1int })
            &&& total_size(t) + record_size(s, coord) == total_size(s) + SECTOR_HEADER_LEN + len
        }),
{
    let w = without(s, coord);
    let t = appended_entries(w, coord, len);
    lemma_without_totals(s, coord);
    assert(t.drop_last() =~= repacked_entries(w));
    lemma_same_sizes_total(repacked_entries(w), w);
}

fn copy_table(t: &SlotTable) -> (r: SlotTable)
    ensures
        r.entries@ == t.entries@,
{
    let mut entries: Vec<SlotEntry> = Vec::new();
    let mut k: usize = 0;
    while k < t.entries.len()
        invariant
            k <= t.entries@.len(),
            entries@ == t.entries@.subrange(0, k as int),
        decreases t.entries@.len() - k,
    {
        entries.push(t.entries[k]);
        k = k + 1;
        assert(entries@ =~= t.entries@.subrange(0, k as int));
    }
    assert(t.entries@.subrange(0, k as int) =~= t.entries@);
    SlotTable { entries }
}

/// Plan the rewrite of `coord`'s record: drop its earlier slot, check that the
/// rest still fits the region's limits, and append the new record behind
/// `header`. Returns the new table, the new image and the absolute offset of
/// the new payload. Each coordinate keeps one record: the new one for `coord`,
/// the old one, unchanged, for every other sector.
pub fn plan_write_sector(
    existing: &[u8],
    slots: &SlotTable,
    coord: SectorCoord,
    header: &SectorHeader,
    payload: &[u8],
) -> (r: Result<(SlotTable, Vec<u8>, u64), StorageError>)
    requires
        slots.wf(),
    ensures
        ({
            let s = without(slots.entries@, coord);
            let fits = slots_fit(s, existing_payload(existing@).len() as int);
            let room = s.len() < REGION_SECTOR_COUNT;
            let small = total_size(s) + SECTOR_HEADER_LEN + payload@.len() <= u32::MAX;
            &&& r is Ok <==> (room && small && fits)
            &&& r matches Err(e) ==> {
                &&& !room ==> e.is_region_msg("region holds no free slot"@)
                &&& (room && !small) ==> e.is_region_msg("region payload exceeds 32-bit offsets"@)
                &&& (room && small) ==> e.is_region_msg("slot points past payload"@)
            }
            &&& r matches Ok(v) ==> {
                let t = v.0.entries@;
                let img = v.1@;
                &&& v.0.wf()
                &&& t == appended_entries(s, coord, payload@.len())
                &&& img == region_image(
                    t,
                    repacked_payload(s, existing_payload(existing@)) + header.image() + payload@,
                )
                &&& img.len() == payload_base(t.len() as int) + total_size(t) + TRAILER_BITMAP_BYTES
                    + TRAILER_FOOTER
                &&& v.2 == payload_base(t.len() as int) + total_size(s) + SECTOR_HEADER_LEN
                &&& img.subrange(v.2 as int, v.2 + payload@.len()) == payload@
                &&& record_of(t, img, coord) == Some(header.image() + payload@)
                &&& forall|d: SectorCoord| #[trigger] v.0.lookup(d) is Some <==> (d == coord
                    || slots.lookup(d) is Some)
                &&& forall|d: SectorCoord|
                    d != coord && #[trigger] record_of(slots.entries@, existing@, d) is Some
                        ==> record_of(t, img, d) == record_of(slots.entries@, existing@, d)
            }
        }),
{
    let mut rest = copy_table(slots);
    rest.remove(coord);
    let ghost s = rest.entries@;
    proof {
        assert forall|d: SectorCoord| #[trigger] slot_lookup(s, d) == (if d == coord {
            None
        } else {
            slot_lookup(slots.entries@, d)
        }) by {
            assert(rest.lookup(d) == (if d == coord {
                None
            } else {
                slots.lookup(d)
            }));
        }
        assert(coords_distinct(s));
    }
    if rest.entries.len() >= REGION_SECTOR_COUNT {
        return Err(region_error("region holds no free slot"));
    }
    let plen = payload.len() as u64;
    if plen > 0xFFFF_FFFFu64 {
        return Err(region_error("region payload exceeds 32-bit offsets"));
    }
    let used = rest.total_size();
    assert(used < 0x8000_0000_0000u64) by (nonlinear_arith)
        requires
            used <= s.len() * 0x1_0000_0000,
            s.len() < 32768,
    ;
    if used + 72 + plen > 0xFFFF_FFFFu64 {
        return Err(region_error("region payload exceeds 32-bit offsets"));
    }
    let (image, offset) = match build_append(existing, &mut rest, coord, header, payload) {
        Ok(v) => v,
        Err(e) => return Err(e),
    };
    proof {
        let t = rest.entries@;
        let p = existing_payload(existing@);
        let big = repacked_payload(s, p) + header.image() + payload@;
        lemma_image_layout(t, big);
        lemma_repacked_len(s, p);
        assert(t.drop_last() =~= repacked_entries(s));
        lemma_same_sizes_total(repacked_entries(s), s);
        assert forall|d: SectorCoord| #[trigger] rest.lookup(d) is Some <==> (d == coord
            || slots.lookup(d) is Some) by {
            lemma_lookup_cases(t, d);
            lemma_lookup_cases(s, d);
            lemma_lookup_cases(slots.entries@, d);
            if d != coord && slots.lookup(d) is Some {
                let i = choose|i: int| 0 <= i < s.len() && s[i].coord == d;
                assert(t[i].coord == d);
            }
            if d == coord {
                assert(t[s.len() as int].coord == d);
            }
            if rest.lookup(d) is Some && d != coord {
                let i = choose|i: int| 0 <= i < t.len() && t[i].coord == d;
                assert(i < s.len());
                assert(s[i].coord == d);
            }
        }
        assert forall|d: SectorCoord|
            d != coord && #[trigger] record_of(slots.entries@, existing@, d) is Some implies record_of(
                t,
                image@,
                d,
            ) == record_of(slots.entries@, existing@, d) by {
            assert(record_of(s, existing@, d) == record_of(slots.entries@, existing@, d));
            lemma_read_after_append(s, existing@, coord, *header, payload@, d);
        }
        lemma_read_after_append(s, existing@, coord, *header, payload@, coord);
    }
    Ok((rest, image, offset))
}

/// The table after appending `coord`'s record of `len` payload bytes.
pub open spec fn appended_entries(s: Seq<SlotEntry>, coord: SectorCoord, len: nat) -> Seq<SlotEntry> {
    repacked_entries(s).push(
        SlotEntry {
            coord,
            slot: Slot { offset: total_size(s) as u32, size: (SECTOR_HEADER_LEN + len) as u32 },
        },
    )
}

/// Build an image holding only the records of `slots`, re-packed end to end
/// to reclaim the space of dropped sectors.
pub fn build_without(existing: &[u8], slots: &SlotTable) -> (r: Result<Vec<u8>, StorageError>)
    requires
        slots.wf(),
        slots.entries@.len() <= REGION_SECTOR_COUNT,
        total_size(slots.entries@) <= u32::MAX,
    ensures
        r matches Err(e) ==> !slots_fit(slots.entries@, existing_payload(existing@).len() as int)
            && e.is_region_msg("slot points past payload"@),
        r matches Ok(img) ==> slots_fit(slots.entries@, existing_payload(existing@).len() as int)
            && img@ == region_image(
            repacked_entries(slots.entries@),
            repacked_payload(slots.entries@, existing_payload(existing@)),
        ),
{
    let (_count, old_payload) = match read_existing(existing) {
        Ok(v) => v,
        Err(e) => return Err(e),
    };
    let (table, new_payload) = match repack(slots, old_payload.as_slice()) {
        Ok(v) => v,
        Err(e) => return Err(e),
    };
    Ok(serialize_slots(&table, new_payload.as_slice()))
}

/// Read the record of `coord` out of a region image: its header, checked
/// against the payload that follows, and that payload (still compressed).
pub fn read_sector(slots: &SlotTable, image: &[u8], coord: SectorCoord) -> (r: Result<
    (SectorHeader, Vec<u8>),
    StorageError,
>)
    requires
        slots.wf(),
    ensures
        r is Ok <==> (record_of(slots.entries@, image@, coord) matches Some(rec) && record_verifies(
            rec,
        )),
        r matches Ok(v) ==> (record_of(slots.entries@, image@, coord) matches Some(rec)
            && v.0.decoded_from(rec) && v.1@ == rec.subrange(
            SECTOR_HEADER_LEN as int,
            rec.len() as int,
        )),
        r matches Err(e) ==> match record_of(slots.entries@, image@, coord) {
            None => if slots.lookup(coord) is None {
                e == StorageError::NotFound(coord)
            } else {
                e == (StorageError::CorruptPayload { coord })
            },
            Some(rec) => if rec.len() < SECTOR_HEADER_LEN {
                e is Region && e.message() == "sector record size "@ + nat_decimal(rec.len())
                    + " < header (72)"@
            } else if rec.subrange(0, 4) != crate::storage::envelope::sector_magic() {
                e is Envelope && e.message() == "bad sector magic"@
            } else {
                e == (StorageError::CorruptPayload {
                    coord: SectorCoord(read_i32(rec, 8), read_i32(rec, 12), read_i32(rec, 16)),
                })
            },
        },
{
    let slot = match slots.get(coord) {
        Some(s) => s,
        None => return Err(StorageError::NotFound(coord)),
    };
    let len = image.len();
    if len < HEADER_LEN {
        return Err(StorageError::CorruptPayload { coord });
    }
    let count = get_u32(image, 8);
    let start: u64 = 20 + 8 * (count as u64) + slot.offset as u64;
    let end: u64 = start + slot.size as u64;
    if end > len as u64 {
        return Err(StorageError::CorruptPayload { coord });
    }
    let raw = crate::storage::bytes::copy_range(image, start as usize, end as usize);
    let ghost rec = raw@;
    if raw.len() < SECTOR_HEADER_LEN {
        let mut msg = string_of("sector record size ");
        push_decimal(&mut msg, raw.len() as u64);
        msg.append(" < header (72)");
        return Err(StorageError::Region(msg));
    }
    let header = SectorHeader::from_bytes(raw.as_slice());
    let body = crate::storage::bytes::copy_range(raw.as_slice(), SECTOR_HEADER_LEN, raw.len());
    match header.verify(body.as_slice()) {
        Ok(()) => Ok((header, body)),
        Err(e) => Err(e),
    }
}

/// The image `build_append` makes holds the appended record where the new
/// table says, and every sector readable from the old image reads the same
/// from the new one.
pub proof fn lemma_read_after_append(
    s: Seq<SlotEntry>,
    existing: Seq<u8>,
    coord: SectorCoord,
    header: SectorHeader,
    payload: Seq<u8>,
    c: SectorCoord,
)
    requires
        coords_distinct(s),
        slot_lookup(s, coord) is None,
        s.len() < REGION_SECTOR_COUNT,
        slots_fit(s, existing_payload(existing).len() as int),
        total_size(s) + SECTOR_HEADER_LEN + payload.len() <= u32::MAX,
    ensures
        ({
            let t = appended_entries(s, coord, payload.len());
            let img = region_image(
                t,
                repacked_payload(s, existing_payload(existing)) + header.image() + payload,
            );
            &&& record_of(t, img, coord) == Some(header.image() + payload)
            &&& (c != coord && record_of(s, existing, c) is Some) ==> record_of(t, img, c)
                == record_of(s, existing, c)
        }),
{
    let p = existing_payload(existing);
    let t = appended_entries(s, coord, payload.len());
    let rec = header.image() + payload;
    let big = repacked_payload(s, p) + header.image() + payload;
    assert(big =~= repacked_payload(s, p) + rec);
    let img = region_image(t, big);
    lemma_repacked_entries_distinct(s);
    lemma_repacked_len(s, p);
    lemma_lookup_cases(s, coord);
    assert(t.drop_last() =~= repacked_entries(s));
    assert(coords_distinct(t)) by {
        assert forall|i: int, j: int| 0 <= i < t.len() && 0 <= j < t.len() && i != j implies t[i].coord
            != t[j].coord by {
            if i < s.len() && j < s.len() {
            } else if i < s.len() {
                assert(t[i].coord == s[i].coord);
            } else {
                assert(t[j].coord == s[j].coord);
            }
        }
    }
    // the appended record
    lemma_image_layout(t, big);
    let a = total_size(s) as int;
    let b = a + rec.len();
    assert(big.subrange(a, b) =~= rec);
    assert(t.last().slot.offset == total_size(s));
    assert(t.last().slot.size == rec.len());
    assert(record_of(t, img, coord) == Some(img.subrange(20 + 8 * t.len() + a, 20 + 8 * t.len() + b)));
    assert(img.subrange(20 + 8 * t.len() + a, 20 + 8 * t.len() + b) == big.subrange(a, b));
    // other sectors
    if c != coord && record_of(s, existing, c) is Some {
        assert(t.subrange(0, s.len() as int) =~= repacked_entries(s));
        assert(t[s.len() as int].coord == coord);
        lemma_repacked_record(s, existing, t, rec, c);
    }
}

/// The image `build_without` makes reads every remaining sector the same as
/// the old image did.
pub proof fn lemma_read_after_compaction(s: Seq<SlotEntry>, existing: Seq<u8>, c: SectorCoord)
    requires
        coords_distinct(s),
        s.len() <= REGION_SECTOR_COUNT,
        slots_fit(s, existing_payload(existing).len() as int),
        total_size(s) <= u32::MAX,
        record_of(s, existing, c) is Some,
    ensures
        record_of(
            repacked_entries(s),
            region_image(repacked_entries(s), repacked_payload(s, existing_payload(existing))),
            c,
        ) == record_of(s, existing, c),
{
    let p = existing_payload(existing);
    let t = repacked_entries(s);
    lemma_repacked_entries_distinct(s);
    assert(t.subrange(0, s.len() as int) =~= t);
    assert(repacked_payload(s, p) + Seq::<u8>::empty() =~= repacked_payload(s, p));
    lemma_repacked_record(s, existing, t, Seq::empty(), c);
}

/// A record made of a header built for a payload followed by that payload
/// verifies, and reading it gives back that header and that payload.
pub proof fn lemma_fresh_record_reads_back(
    header: SectorHeader,
    coord: SectorCoord,
    tier: crate::storage::envelope::Tier,
    payload: Seq<u8>,
    decoded: SectorHeader,
)
    requires
        header.describes(coord, tier, payload),
    ensures
        record_verifies(header.image() + payload),
        (header.image() + payload).subrange(SECTOR_HEADER_LEN as int, 72 + payload.len() as int)
            == payload,
        decoded.decoded_from(header.image() + payload) ==> decoded == header,
{
    let rec = header.image() + payload;
    assert(header.image().len() == 72);
    assert(rec.subrange(72, rec.len() as int) =~= payload);
    assert(rec.subrange(0, 4) =~= header.magic@);
    assert(rec.subrange(24, 56) =~= header.payload_hash@);
    assert(rec.subrange(64, 72) =~= u64_le(header.frame_checksum));
    crate::storage::bytes::lemma_read_u64(rec, 64, header.frame_checksum);
    if decoded.decoded_from(rec) {
        crate::storage::envelope::lemma_header_image_round_trip(header, payload, decoded);
    }
}

impl SlotTable {
    /// Sum of the slot sizes: the size of the payload area once re-packed.
    pub fn total_size(&self) -> (r: u64)
        requires
            self.entries@.len() <= REGION_SECTOR_COUNT,
        ensures
            r == total_size(self.entries@),
            r <= self.entries@.len() * 0x1_0000_0000,
    {
        let ghost s = self.entries@;
        let mut sum: u64 = 0;
        let mut k: usize = 0;
        while k < self.entries.len()
            invariant
                s == self.entries@,
                s.len() <= REGION_SECTOR_COUNT,
                k <= s.len(),
                sum == total_size(s.subrange(0, k as int)),
                sum <= k * 0x1_0000_0000,
            decreases s.len() - k,
        {
            assert(s.subrange(0, k + 1).drop_last() =~= s.subrange(0, k as int));
            sum = sum + self.entries[k].slot.size as u64;
            k = k + 1;
        }
        assert(s.subrange(0, s.len() as int) =~= s);
        sum
    }
}

/// The layout facts of a region image: its length, stored count, and where
/// the payload area sits.
pub proof fn lemma_image_layout_pub(t: Seq<SlotEntry>, payload: Seq<u8>)
    requires
        t.len() <= REGION_SECTOR_COUNT,
    ensures
        region_image(t, payload).len() == 20 + 8 * t.len() + payload.len() + 4112,
        stored_count(region_image(t, payload)) == t.len(),
        forall|a: int, b: int|
            0 <= a <= b <= payload.len() ==> #[trigger] region_image(t, payload).subrange(
                20 + 8 * t.len() + a,
                20 + 8 * t.len() + b,
            ) == payload.subrange(a, b),
{
    lemma_image_layout(t, payload);
}

} // verus!

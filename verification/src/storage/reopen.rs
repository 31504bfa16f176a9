//! Reopening a region image: the slot table parsed back from an image the
//! library wrote is the table it wrote, so a sector written and then read
//! through a fresh parse comes back as written.

use vstd::prelude::*;

use crate::storage::bytes::{lemma_read_i32, lemma_read_u16, lemma_read_u32, read_i32, u16_le, u32_le};
use crate::storage::coord::SectorCoord;
use crate::storage::envelope::{SectorHeader, SECTOR_HEADER_LEN};
use crate::storage::region::{
    empty_bitmap, presence_bitmap, set_presence, spec_local_index, lemma_repacked_entries_distinct, lemma_repacked_len, lemma_repacked_segment,
    lemma_total_prefix_le, slots_fit, appended_entries, coords_distinct, existing_payload, first_fault, header_bytes, parse_error,
    parsed_coord, parsed_entries, parsed_slot, payload_base, region_image, region_magic,
    repacked_entries, repacked_payload, slot_fault, slot_lookup, slot_table_bytes, stored_count,
    total_size, upsert, SlotEntry, REGION_SECTOR_COUNT,
};

verus! {

/// The coordinate written in the header of the record at `off` in `p`.
pub open spec fn record_coord(p: Seq<u8>, off: int) -> SectorCoord {
    SectorCoord(read_i32(p, off + 8), read_i32(p, off + 12), read_i32(p, off + 16))
}

/// Every slot holds at least a header, lies within `p`, and its record's
/// header names the slot's coordinate.
pub open spec fn records_consistent(t: Seq<SlotEntry>, p: Seq<u8>) -> bool {
    forall|k: int|
        0 <= k < t.len() ==> {
            &&& #[trigger] t[k].slot.size >= SECTOR_HEADER_LEN
            &&& t[k].slot.offset + t[k].slot.size <= p.len()
            &&& record_coord(p, t[k].slot.offset as int) == t[k].coord
        }
}

proof fn lemma_slot_table_read(t: Seq<SlotEntry>, k: int)
    requires
        0 <= k < t.len(),
    ensures
        slot_table_bytes(t).len() == 8 * t.len(),
        slot_table_bytes(t).subrange(8 * k, 8 * k + 4) == u32_le(t[k].slot.offset),
        slot_table_bytes(t).subrange(8 * k + 4, 8 * k + 8) == u32_le(t[k].slot.size),
    decreases t.len(),
{
    let b = slot_table_bytes(t);
    let pre = slot_table_bytes(t.drop_last());
    lemma_table_len(t.drop_last());
    lemma_table_len(t);
    if k == t.len() - 1 {
        assert(b.subrange(8 * k, 8 * k + 4) =~= u32_le(t[k].slot.offset));
        assert(b.subrange(8 * k + 4, 8 * k + 8) =~= u32_le(t[k].slot.size));
    } else {
        lemma_slot_table_read(t.drop_last(), k);
        assert(b.subrange(8 * k, 8 * k + 4) =~= pre.subrange(8 * k, 8 * k + 4));
        assert(b.subrange(8 * k + 4, 8 * k + 8) =~= pre.subrange(8 * k + 4, 8 * k + 8));
    }
}

proof fn lemma_table_len(t: Seq<SlotEntry>)
    ensures
        slot_table_bytes(t).len() == 8 * t.len(),
    decreases t.len(),
{
    if t.len() > 0 {
        lemma_table_len(t.drop_last());
    }
}

proof fn lemma_read_i32_same(a: Seq<u8>, i: int, b: Seq<u8>, j: int)
    requires
        0 <= i,
        i + 4 <= a.len(),
        0 <= j,
        j + 4 <= b.len(),
        a.subrange(i, i + 4) == b.subrange(j, j + 4),
    ensures
        read_i32(a, i) == read_i32(b, j),
{
    assert(a[i] == a.subrange(i, i + 4)[0] && b[j] == b.subrange(j, j + 4)[0]);
    assert(a[i + 1] == a.subrange(i, i + 4)[1] && b[j + 1] == b.subrange(j, j + 4)[1]);
    assert(a[i + 2] == a.subrange(i, i + 4)[2] && b[j + 2] == b.subrange(j, j + 4)[2]);
    assert(a[i + 3] == a.subrange(i, i + 4)[3] && b[j + 3] == b.subrange(j, j + 4)[3]);
}

proof fn lemma_no_fault_from(b: Seq<u8>, n: int, k: int)
    requires
        0 <= k <= n,
        forall|j: int| k <= j < n ==> #[trigger] slot_fault(b, n, j) is None,
    ensures
        first_fault(b, n, k) is None,
    decreases n - k,
{
    if k < n {
        lemma_no_fault_from(b, n, k + 1);
    }
}

proof fn lemma_parsed_prefix(b: Seq<u8>, n: int, t: Seq<SlotEntry>, k: nat)
    requires
        k <= t.len(),
        coords_distinct(t),
        forall|j: int| 0 <= j < t.len() ==> #[trigger] parsed_slot(b, j) == t[j].slot && parsed_coord(b, n, j)
            == t[j].coord,
    ensures
        parsed_entries(b, n, k) == t.subrange(0, k as int),
    decreases k,
{
    if k > 0 {
        lemma_parsed_prefix(b, n, t, (k - 1) as nat);
        let pre = t.subrange(0, k - 1);
        let e = SlotEntry { coord: parsed_coord(b, n, k - 1), slot: parsed_slot(b, k - 1) };
        assert(e == t[k - 1]);
        assert(!exists|i: int| 0 <= i < pre.len() && pre[i].coord == e.coord) by {
            if exists|i: int| 0 <= i < pre.len() && pre[i].coord == e.coord {
                let i = choose|i: int| 0 <= i < pre.len() && pre[i].coord == e.coord;
                assert(t[i].coord == t[k - 1].coord);
            }
        }
        assert(upsert(pre, e) == pre.push(e));
        assert(pre.push(e) =~= t.subrange(0, k as int));
    }
}

proof fn lemma_image_slot(t: Seq<SlotEntry>, p: Seq<u8>, j: int)
    requires
        t.len() <= REGION_SECTOR_COUNT,
        records_consistent(t, p),
        0 <= j < t.len(),
    ensures
        parsed_slot(region_image(t, p), j) == t[j].slot,
        parsed_coord(region_image(t, p), t.len() as int, j) == t[j].coord,
        slot_fault(region_image(t, p), t.len() as int, j) is None,
{
    let img = region_image(t, p);
    let n = t.len() as int;
    lemma_table_len(t);
    crate::storage::region::lemma_image_layout_pub(t, p);
    lemma_slot_table_read(t, j);
    let tb = slot_table_bytes(t);
    assert(img.subrange(20 + 8 * j, 24 + 8 * j) =~= tb.subrange(8 * j, 8 * j + 4));
    assert(img.subrange(24 + 8 * j, 28 + 8 * j) =~= tb.subrange(8 * j + 4, 8 * j + 8));
    lemma_read_u32(img, 20 + 8 * j, t[j].slot.offset);
    lemma_read_u32(img, 24 + 8 * j, t[j].slot.size);
    let base = 20 + 8 * n;
    let off = t[j].slot.offset as int;
    assert(t[j].slot.size >= SECTOR_HEADER_LEN);
    assert(img.subrange(base + off + 8, base + off + 12) == p.subrange(off + 8, off + 12));
    assert(img.subrange(base + off + 12, base + off + 16) == p.subrange(off + 12, off + 16));
    assert(img.subrange(base + off + 16, base + off + 20) == p.subrange(off + 16, off + 20));
    lemma_read_i32_same(img, base + off + 8, p, off + 8);
    lemma_read_i32_same(img, base + off + 12, p, off + 12);
    lemma_read_i32_same(img, base + off + 16, p, off + 16);
}

/// Parsing an image the library serialized gives back its table: the image
/// is well formed, and each slot is keyed by the coordinate in its record.
pub proof fn lemma_parse_serialized(t: Seq<SlotEntry>, p: Seq<u8>)
    requires
        coords_distinct(t),
        t.len() <= REGION_SECTOR_COUNT,
        records_consistent(t, p),
    ensures
        parse_error(region_image(t, p)) is None,
        stored_count(region_image(t, p)) == t.len(),
        parsed_entries(region_image(t, p), t.len() as int, t.len()) == t,
{
    let img = region_image(t, p);
    let n = t.len() as int;
    lemma_table_len(t);
    crate::storage::region::lemma_image_layout_pub(t, p);
    assert(img.subrange(0, 4) =~= region_magic());
    assert(img.subrange(4, 6) =~= u16_le(1));
    lemma_read_u16(img, 4, 1);
    assert forall|j: int| 0 <= j < n implies #[trigger] parsed_slot(img, j) == t[j].slot && parsed_coord(
        img,
        n,
        j,
    ) == t[j].coord by {
        lemma_image_slot(t, p, j);
    }
    assert forall|j: int| 0 <= j < n implies #[trigger] slot_fault(img, n, j) is None by {
        lemma_image_slot(t, p, j);
    }
    lemma_no_fault_from(img, n, 0);
    lemma_parsed_prefix(img, n, t, t.len());
    assert(t.subrange(0, n) =~= t);
}

proof fn lemma_fault_free(b: Seq<u8>, n: int, k: int, j: int)
    requires
        0 <= k <= j < n,
        first_fault(b, n, k) is None,
    ensures
        slot_fault(b, n, j) is None,
    decreases j - k,
{
    if k < j {
        lemma_fault_free(b, n, k + 1, j);
    }
}

proof fn lemma_upsert_props(s: Seq<SlotEntry>, e: SlotEntry)
    requires
        coords_distinct(s),
    ensures
        coords_distinct(upsert(s, e)),
        forall|k: int| 0 <= k < upsert(s, e).len() ==> (#[trigger] upsert(s, e)[k] == e || exists|i: int|
            0 <= i < s.len() && s[i] == upsert(s, e)[k]),
{
    let u = upsert(s, e);
    if exists|i: int| 0 <= i < s.len() && s[i].coord == e.coord {
        let i = choose|i: int| 0 <= i < s.len() && s[i].coord == e.coord;
        assert(u == s.update(i, e));
        assert forall|k: int| 0 <= k < u.len() implies (#[trigger] u[k] == e || exists|i2: int|
            0 <= i2 < s.len() && s[i2] == u[k]) by {
            if k != i {
                assert(s[k] == u[k]);
            }
        }
    } else {
        assert(u == s.push(e));
        assert forall|k: int| 0 <= k < u.len() implies (#[trigger] u[k] == e || exists|i2: int|
            0 <= i2 < s.len() && s[i2] == u[k]) by {
            if k < s.len() {
                assert(s[k] == u[k]);
            }
        }
    }
}

proof fn lemma_parsed_entries_origin(b: Seq<u8>, n: int, k: nat)
    ensures
        coords_distinct(parsed_entries(b, n, k)),
        forall|m: int| 0 <= m < parsed_entries(b, n, k).len() ==> exists|j: int|
            0 <= j < k && #[trigger] parsed_entries(b, n, k)[m] == (SlotEntry {
                coord: parsed_coord(b, n, j),
                slot: parsed_slot(b, j),
            }),
    decreases k,
{
    if k > 0 {
        let pre = parsed_entries(b, n, (k - 1) as nat);
        let e = SlotEntry { coord: parsed_coord(b, n, k - 1), slot: parsed_slot(b, k - 1) };
        lemma_parsed_entries_origin(b, n, (k - 1) as nat);
        lemma_upsert_props(pre, e);
        let cur = parsed_entries(b, n, k);
        assert(cur == upsert(pre, e));
        assert forall|m: int| 0 <= m < cur.len() implies exists|j: int|
            0 <= j < k && #[trigger] cur[m] == (SlotEntry { coord: parsed_coord(b, n, j), slot: parsed_slot(b, j) }) by {
            if cur[m] == e {
                assert(cur[m] == (SlotEntry { coord: parsed_coord(b, n, k - 1), slot: parsed_slot(b, k - 1) }));
            } else {
                let i = choose|i: int| 0 <= i < pre.len() && pre[i] == cur[m];
                let j = choose|j: int| 0 <= j < k - 1 && #[trigger] pre[i] == (SlotEntry { coord: parsed_coord(b, n, j), slot: parsed_slot(b, j) });
                assert(cur[m] == (SlotEntry { coord: parsed_coord(b, n, j), slot: parsed_slot(b, j) }));
            }
        }
    }
}

/// The table parsed from a readable image is consistent with its payload
/// area: every slot holds a header naming the slot's coordinate.
pub proof fn lemma_parsed_consistent(b: Seq<u8>)
    requires
        parse_error(b) is None,
    ensures
        coords_distinct(parsed_entries(b, stored_count(b) as int, stored_count(b) as nat)),
        records_consistent(
            parsed_entries(b, stored_count(b) as int, stored_count(b) as nat),
            existing_payload(b),
        ),
{
    let n = stored_count(b) as int;
    let t = parsed_entries(b, n, n as nat);
    lemma_parsed_entries_origin(b, n, n as nat);
    let base = payload_base(n);
    if n > 0 {
        lemma_fault_free(b, n, 0, n - 1);
        assert(base <= b.len());
    }
    let p = existing_payload(b);
    assert forall|k: int| 0 <= k < t.len() implies {
        &&& #[trigger] t[k].slot.size >= SECTOR_HEADER_LEN
        &&& t[k].slot.offset + t[k].slot.size <= p.len()
        &&& record_coord(p, t[k].slot.offset as int) == t[k].coord
    } by {
        let j = choose|j: int| 0 <= j < n && #[trigger] t[k] == (SlotEntry { coord: parsed_coord(b, n, j), slot: parsed_slot(b, j) });
        lemma_fault_free(b, n, 0, j);
        lemma_fault_free(b, n, 0, n - 1);
        assert(p =~= b.subrange(base, b.len() as int));
        let off = t[k].slot.offset as int;
        assert(p.subrange(off + 8, off + 12) =~= b.subrange(base + off + 8, base + off + 12));
        assert(p.subrange(off + 12, off + 16) =~= b.subrange(base + off + 12, base + off + 16));
        assert(p.subrange(off + 16, off + 20) =~= b.subrange(base + off + 16, base + off + 20));
        lemma_read_i32_same(p, off + 8, b, base + off + 8);
        lemma_read_i32_same(p, off + 12, b, base + off + 12);
        lemma_read_i32_same(p, off + 16, b, base + off + 16);
    }
}

/// Appending a record whose header names its coordinate keeps the table
/// consistent with the new payload area.
pub proof fn lemma_append_consistent(
    s: Seq<SlotEntry>,
    p: Seq<u8>,
    coord: SectorCoord,
    header: SectorHeader,
    payload: Seq<u8>,
)
    requires
        coords_distinct(s),
        records_consistent(s, p),
        slot_lookup(s, coord) is None,
        s.len() < REGION_SECTOR_COUNT,
        total_size(s) + SECTOR_HEADER_LEN + payload.len() <= u32::MAX,
        header.spec_coord() == coord,
    ensures
        coords_distinct(appended_entries(s, coord, payload.len())),
        records_consistent(
            appended_entries(s, coord, payload.len()),
            repacked_payload(s, p) + header.image() + payload,
        ),
{
    let t = appended_entries(s, coord, payload.len());
    let rp = repacked_payload(s, p);
    let big = rp + header.image() + payload;
    let n = s.len() as int;
    assert(slots_fit(s, p.len() as int)) by {
        assert forall|i: int| 0 <= i < s.len() implies #[trigger] s[i].slot.offset + s[i].slot.size <= p.len() by {
            assert(s[i].slot.size >= SECTOR_HEADER_LEN);
        }
    }
    lemma_repacked_len(s, p);
    lemma_repacked_entries_distinct(s);
    crate::storage::region::lemma_lookup_cases(s, coord);
    assert(header.image().len() == 72);
    assert(coords_distinct(t)) by {
        assert forall|i: int, j: int| 0 <= i < t.len() && 0 <= j < t.len() && i != j implies t[i].coord
            != t[j].coord by {
            if i < n && j < n {
            } else if i < n {
                assert(t[i].coord == s[i].coord);
            } else {
                assert(t[j].coord == s[j].coord);
            }
        }
    }
    assert forall|k: int| 0 <= k < t.len() implies {
        &&& #[trigger] t[k].slot.size >= SECTOR_HEADER_LEN
        &&& t[k].slot.offset + t[k].slot.size <= big.len()
        &&& record_coord(big, t[k].slot.offset as int) == t[k].coord
    } by {
        if k < n {
            lemma_total_prefix_le(s, k);
            lemma_repacked_segment(s, p, k);
            let a = total_size(s.subrange(0, k)) as int;
            let off = s[k].slot.offset as int;
            assert(t[k].slot.offset == a);
            assert(t[k].slot.size == s[k].slot.size);
            assert(s[k].slot.size >= SECTOR_HEADER_LEN);
            let seg = rp.subrange(a, a + s[k].slot.size);
            assert(big.subrange(a + 8, a + 12) =~= seg.subrange(8, 12));
            assert(big.subrange(a + 12, a + 16) =~= seg.subrange(12, 16));
            assert(big.subrange(a + 16, a + 20) =~= seg.subrange(16, 20));
            assert(p.subrange(off + 8, off + 12) =~= seg.subrange(8, 12));
            assert(p.subrange(off + 12, off + 16) =~= seg.subrange(12, 16));
            assert(p.subrange(off + 16, off + 20) =~= seg.subrange(16, 20));
            lemma_read_i32_same(big, a + 8, p, off + 8);
            lemma_read_i32_same(big, a + 12, p, off + 12);
            lemma_read_i32_same(big, a + 16, p, off + 16);
        } else {
            let a = total_size(s) as int;
            assert(t[k].slot.offset == a);
            let img = header.image();
            assert(big.subrange(a + 8, a + 12) =~= img.subrange(8, 12));
            assert(big.subrange(a + 12, a + 16) =~= img.subrange(12, 16));
            assert(big.subrange(a + 16, a + 20) =~= img.subrange(16, 20));
            assert(img.subrange(8, 12) =~= crate::storage::bytes::i32_le(header.coord[0]));
            assert(img.subrange(12, 16) =~= crate::storage::bytes::i32_le(header.coord[1]));
            assert(img.subrange(16, 20) =~= crate::storage::bytes::i32_le(header.coord[2]));
            lemma_read_i32(big, a + 8, header.coord[0]);
            lemma_read_i32(big, a + 12, header.coord[1]);
            lemma_read_i32(big, a + 16, header.coord[2]);
        }
    }
}

/// Writing a sector into a region file and parsing the file again gives
/// back the table the write produced; with `lemma_read_after_append` and
/// `lemma_fresh_record_reads_back`, reading the sector from the reopened
/// file yields the header and payload written, and every sector readable
/// before still reads the same.
pub proof fn lemma_reopen_after_append(
    existing: Seq<u8>,
    s: Seq<SlotEntry>,
    coord: SectorCoord,
    header: SectorHeader,
    payload: Seq<u8>,
)
    requires
        coords_distinct(s),
        records_consistent(s, existing_payload(existing)),
        slot_lookup(s, coord) is None,
        s.len() < REGION_SECTOR_COUNT,
        total_size(s) + SECTOR_HEADER_LEN + payload.len() <= u32::MAX,
        header.spec_coord() == coord,
    ensures
        ({
            let t = appended_entries(s, coord, payload.len());
            let img = region_image(t, repacked_payload(s, existing_payload(existing)) + header.image() + payload);
            &&& parse_error(img) is None
            &&& stored_count(img) == t.len()
            &&& parsed_entries(img, t.len() as int, t.len()) == t
        }),
{
    let p = existing_payload(existing);
    lemma_append_consistent(s, p, coord, header, payload);
    let t = appended_entries(s, coord, payload.len());
    lemma_parse_serialized(t, repacked_payload(s, p) + header.image() + payload);
}

/// Dropping slots keeps a table consistent with its payload area.
pub proof fn lemma_consistent_subset(s: Seq<SlotEntry>, t: Seq<SlotEntry>, p: Seq<u8>)
    requires
        records_consistent(s, p),
        forall|k: int| 0 <= k < t.len() ==> exists|j: int| 0 <= j < s.len() && s[j] == #[trigger] t[k],
    ensures
        records_consistent(t, p),
{
    assert forall|k: int| 0 <= k < t.len() implies {
        &&& #[trigger] t[k].slot.size >= SECTOR_HEADER_LEN
        &&& t[k].slot.offset + t[k].slot.size <= p.len()
        &&& record_coord(p, t[k].slot.offset as int) == t[k].coord
    } by {
        let j = choose|j: int| 0 <= j < s.len() && s[j] == t[k];
        assert(s[j].slot.size >= SECTOR_HEADER_LEN);
    }
}

/// The presence bit of sector index `idx` in bitmap `bm`.
pub open spec fn presence_bit(bm: Seq<u8>, idx: int) -> bool {
    (bm[idx / 8] >> ((idx % 8) as u8)) & 1u8 == 1u8
}

proof fn lemma_byte_bits(b: u8, x: u8, y: u8)
    by (bit_vector)
    requires
        x < 8,
        y < 8,
    ensures
        ((b | (1u8 << x)) >> y) & 1u8 == 1u8 <==> (x == y || (b >> y) & 1u8 == 1u8),
        (0u8 >> y) & 1u8 != 1u8,
{
}

/// The trailer's presence bitmap marks exactly the local indices of the
/// sectors in the table.
pub proof fn lemma_presence_bitmap(s: Seq<SlotEntry>, idx: int)
    requires
        0 <= idx < REGION_SECTOR_COUNT,
    ensures
        presence_bitmap(s).len() == 4096,
        presence_bit(presence_bitmap(s), idx) <==> exists|i: int|
            0 <= i < s.len() && #[trigger] spec_local_index(s[i].coord) == idx,
    decreases s.len(),
{
    if s.len() == 0 {
        lemma_byte_bits(0, 0, (idx % 8) as u8);
        assert(empty_bitmap()[idx / 8] == 0u8);
    } else {
        let pre = s.drop_last();
        lemma_presence_bitmap(pre, idx);
        let bm = presence_bitmap(pre);
        let j = spec_local_index(s.last().coord);
        assert(0 <= j < 32768);
        let bm2 = set_presence(bm, j);
        assert(presence_bitmap(s) == bm2);
        if idx / 8 == j / 8 {
            lemma_byte_bits(bm[j / 8], (j % 8) as u8, (idx % 8) as u8);
        } else {
            assert(bm2[idx / 8] == bm[idx / 8]);
        }
        if exists|i: int| 0 <= i < pre.len() && #[trigger] spec_local_index(pre[i].coord) == idx {
            let i = choose|i: int| 0 <= i < pre.len() && #[trigger] spec_local_index(pre[i].coord) == idx;
            assert(s[i] == pre[i]);
        }
        if exists|i: int| 0 <= i < s.len() && #[trigger] spec_local_index(s[i].coord) == idx {
            let i = choose|i: int| 0 <= i < s.len() && #[trigger] spec_local_index(s[i].coord) == idx;
            if i < pre.len() {
                assert(pre[i] == s[i]);
            }
        }
    }
}

/// A sector is determined by its region and its index within the region.
#[verifier::spinoff_prover]
pub proof fn lemma_region_local_injective(a: SectorCoord, b: SectorCoord)
    requires
        a.0 as int / 32 == b.0 as int / 32,
        a.1 as int / 32 == b.1 as int / 32,
        a.2 as int / 32 == b.2 as int / 32,
        spec_local_index(a) == spec_local_index(b),
    ensures
        a == b,
{
    let (ax, ay, az) = (a.0 as int % 32, a.1 as int % 32, a.2 as int % 32);
    let (bx, by, bz) = (b.0 as int % 32, b.1 as int % 32, b.2 as int % 32);
    assert(ax == bx && ay == by && az == bz) by (nonlinear_arith)
        requires
            0 <= ax < 32,
            0 <= ay < 32,
            0 <= az < 32,
            0 <= bx < 32,
            0 <= by < 32,
            0 <= bz < 32,
            ((ay * 32 + az) * 32 + ax) == ((by * 32 + bz) * 32 + bx),
    ;
    assert(a.0 as int == 32 * (a.0 as int / 32) + ax);
    assert(b.0 as int == 32 * (b.0 as int / 32) + bx);
    assert(a.1 as int == 32 * (a.1 as int / 32) + ay);
    assert(b.1 as int == 32 * (b.1 as int / 32) + by);
    assert(a.2 as int == 32 * (a.2 as int / 32) + az);
    assert(b.2 as int == 32 * (b.2 as int / 32) + bz);
}

} // verus!

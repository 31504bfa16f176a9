use strata::storage::backend::{prepare_write, priority_order};
use strata::storage::compress::{
    compress, decode_stored_payload, decompress, decompress_with_limit, is_zstd_frame,
    MAX_DECOMPRESSED_SECTOR_BYTES, ZSTD_MAGIC,
};
use strata::storage::coord::SectorCoord;
use strata::storage::dedup::{dedup_hash, reconcile, DedupTable};
use strata::storage::dirty::DirtyTracker;
use strata::storage::envelope::{compute_frame_checksum, compute_hash, SectorHeader, Tier, SECTOR_HEADER_LEN};
use strata::storage::error::StorageError;
use strata::storage::metadata::{MetadataTable, SectorMetadata};
use strata::storage::region::{
    build_append, build_without, parse_slots, plan_write_sector, read_existing, read_sector,
    serialize_slots, RegionCoord, Slot, SlotEntry, SlotTable, REGION_SECTOR_COUNT,
};

fn sample_payload(seed: u64, len: usize) -> Vec<u8> {
    let mut state = seed.wrapping_add(0x9e3779b97f4a7c15);
    let mut out = Vec::with_capacity(len);
    for _ in 0..len {
        state ^= state << 13;
        state ^= state >> 7;
        state ^= state << 17;
        out.push((state & 0xff) as u8);
    }
    out
}

/// Write `payload` for `coord` into the region image `image` (empty for a new
/// file), replacing an earlier copy, as a region file write does.
fn write(image: &[u8], coord: SectorCoord, payload: &[u8]) -> (Vec<u8>, u64) {
    let slots = if image.is_empty() { SlotTable::new() } else { parse_slots(image).unwrap() };
    let header = SectorHeader::new(coord, Tier::Warm, payload);
    let (_slots, img, offset) = plan_write_sector(image, &slots, coord, &header, payload).unwrap();
    (img, offset)
}

fn read(image: &[u8], coord: SectorCoord) -> Result<(SectorHeader, Vec<u8>), StorageError> {
    let slots = parse_slots(image)?;
    read_sector(&slots, image, coord)
}

#[test]
fn header_round_trip_preserves_bytes() {
    for tier in [Tier::Warm, Tier::Distant, Tier::Archive] {
        for sample in 0..16u64 {
            let payload = sample_payload(sample, 256 + (sample as usize) * 37);
            let compressed = compress(&payload, tier).unwrap();
            let header = SectorHeader::new(
                SectorCoord(sample as i32, (sample * 3) as i32, (sample * 7) as i32),
                tier,
                &compressed,
            );
            header.verify(&compressed).expect("fresh header must verify");

            let bytes = header.to_bytes();
            assert_eq!(bytes.len(), SECTOR_HEADER_LEN);
            let restored = SectorHeader::from_bytes(&bytes);
            assert_eq!(restored.magic, SectorHeader::MAGIC);
            assert_eq!(restored.version, SectorHeader::VERSION);
            assert_eq!(restored.tier, tier.to_u8());
            assert_eq!(restored.payload_size, compressed.len() as u32);
            assert_eq!(restored.coord, [sample as i32, (sample * 3) as i32, (sample * 7) as i32]);
            restored.verify(&compressed).expect("round-tripped header must verify");
        }
    }
}

#[test]
fn compress_three_tiers_distinct() {
    let payload = sample_payload(42, 4096);
    let w = compress(&payload, Tier::Warm).unwrap();
    let d = compress(&payload, Tier::Distant).unwrap();
    let a = compress(&payload, Tier::Archive).unwrap();
    assert!(a.len() <= d.len());
    assert!(d.len() <= w.len());
    assert_eq!(decompress(&w).unwrap(), payload);
    assert_eq!(decompress(&d).unwrap(), payload);
    assert_eq!(decompress(&a).unwrap(), payload);
}

#[test]
fn dedup_identical_payloads_share_hash() {
    let payload = sample_payload(7, 1024);
    let c1 = compress(&payload, Tier::Distant).unwrap();
    let c2 = compress(&payload, Tier::Distant).unwrap();
    assert_eq!(c1, c2, "same input must compress identically");
    assert_eq!(compute_hash(&c1), compute_hash(&c2));

    let mut table = DedupTable::new();
    let h = compute_hash(&c1);
    table.insert(h, 0x1000, c1.len() as u32);
    assert!(table.contains(&h));
    assert_eq!(table.get(&h), Some((0x1000, c1.len() as u32)));
}

#[test]
fn blake3_collision_resistance_smoke() {
    let a = sample_payload(1, 512);
    let b = sample_payload(2, 512);
    assert_ne!(compute_hash(&a), compute_hash(&b), "distinct payloads must hash distinctly");
    let mut flipped = a.clone();
    flipped[0] ^= 0x01;
    assert_ne!(compute_hash(&a), compute_hash(&flipped));
}

#[test]
fn frame_checksum_detects_bitflip() {
    let payload = sample_payload(99, 2048);
    let c = compress(&payload, Tier::Distant).unwrap();
    let sum = compute_frame_checksum(&c);
    let mut corrupted = c.clone();
    let last = corrupted.len() - 1;
    corrupted[last] ^= 0xff;
    assert_ne!(sum, compute_frame_checksum(&corrupted), "bitflip must change xxh64");
}

#[test]
fn empty_sector_round_trip() {
    let payload = [0u8; 8];
    let c = compress(&payload, Tier::Warm).unwrap();
    let header = SectorHeader::new(SectorCoord(0, 0, 0), Tier::Warm, &c);
    header.verify(&c).expect("empty sector header verifies");
    assert_eq!(decompress(&c).unwrap(), payload.to_vec());
}

#[test]
fn compute_hash_matches_the_blake3_digest() {
    // BLAKE3 of the empty input.
    let h = compute_hash(&[]);
    assert_eq!(&h[..4], &[0xaf, 0x13, 0x49, 0xb9]);
    assert_eq!(dedup_hash(b"abc"), DedupTable::hash_of(b"abc"));
    assert_ne!(dedup_hash(b"abc"), [0u8; 32]);
}

#[test]
fn header_verify_reports_each_failure() {
    let payload = sample_payload(5, 300);
    let mut h = SectorHeader::new(SectorCoord(1, -2, 3), Tier::Archive, &payload);
    assert_eq!(h.compression_level, 19);
    assert_eq!(h.tier, 2);
    let mut other = payload.clone();
    other[10] ^= 1;
    match h.verify(&other) {
        Err(StorageError::CorruptPayload { coord }) => assert_eq!(coord, SectorCoord(1, -2, 3)),
        r => panic!("expected CorruptPayload, got {r:?}"),
    }
    h.frame_checksum ^= 1;
    assert!(matches!(h.verify(&payload), Err(StorageError::CorruptPayload { .. })));
    h.magic = *b"XXXX";
    match h.verify(&payload) {
        Err(StorageError::Envelope(msg)) => assert_eq!(msg, "bad sector magic"),
        r => panic!("expected Envelope, got {r:?}"),
    }
}

#[test]
fn tier_byte_and_level() {
    for t in [Tier::Warm, Tier::Distant, Tier::Archive] {
        assert_eq!(Tier::from_u8(t.to_u8()), t);
    }
    assert_eq!(Tier::from_u8(77), Tier::Distant);
    assert_eq!(Tier::Warm.zstd_level(), 1);
    assert_eq!(Tier::Distant.zstd_level(), 3);
    assert_eq!(Tier::Archive.zstd_level(), 19);
}

/// Compression bomb: decompressed size past the sector cap must Error (not OOM).
#[test]
fn decompress_rejects_over_max_decompressed_size() {
    // Highly compressible zeros — tiny on disk, huge when decoded.
    let huge = vec![0u8; 256 * 1024];
    let compressed = strata::storage::envelope::compress(&huge, Tier::Warm).unwrap();
    assert!(compressed.len() < huge.len());

    let tiny_cap = 64 * 1024;
    assert!(tiny_cap < huge.len());
    let err = decompress_with_limit(&compressed, tiny_cap).expect_err("must cap output");
    assert!(matches!(err, StorageError::Decompress(_)), "expected Decompress error, got {err:?}");

    // Default API must accept a normal sector-sized blob under the public cap.
    assert!(huge.len() < MAX_DECOMPRESSED_SECTOR_BYTES);
    assert_eq!(decompress(&compressed).unwrap(), huge);
}

#[test]
fn zstd_magic_detection_and_decode_stored_payload() {
    assert!(!is_zstd_frame(&[]));
    assert!(!is_zstd_frame(&[0x28, 0xB5]));
    assert!(!is_zstd_frame(b"postcard-ish-bytes"));
    assert!(is_zstd_frame(&ZSTD_MAGIC));

    let raw = sample_payload(3, 128);
    assert!(!is_zstd_frame(&raw));
    assert_eq!(decode_stored_payload(&raw).unwrap(), raw);

    let compressed = compress(&raw, Tier::Warm).unwrap();
    assert!(is_zstd_frame(&compressed));
    assert_eq!(decode_stored_payload(&compressed).unwrap(), raw);

    // Magic present but truncated frame → fail closed (not raw truncated bytes).
    let truncated = compressed[..6.min(compressed.len())].to_vec();
    assert!(is_zstd_frame(&truncated));
    let err = decode_stored_payload(&truncated).expect_err("bad frame must error");
    assert!(matches!(err, StorageError::Decompress(_)));
}

#[test]
fn decompress_with_limit_accepts_exactly_the_limit() {
    let payload = sample_payload(8, 1000);
    let c = compress(&payload, Tier::Distant).unwrap();
    assert_eq!(decompress_with_limit(&c, 1000).unwrap(), payload);
    assert!(matches!(decompress_with_limit(&c, 999), Err(StorageError::Decompress(_))));
}

#[test]
fn decompress_rejects_garbage() {
    assert!(matches!(decompress(b"not a zstd frame"), Err(StorageError::Decompress(_))));
}

#[test]
fn region_32_cubed_groups_correctly() {
    let mut rng = 0xABCD_1234u64;
    let next = |r: &mut u64| {
        *r ^= r.wrapping_shl(13);
        *r ^= r.wrapping_shr(7);
        *r ^= r.wrapping_shl(17);
        *r
    };
    for _ in 0..100 {
        let x = (next(&mut rng) as i32 % 1000) - 500;
        let y = (next(&mut rng) as i32 % 1000) - 500;
        let z = (next(&mut rng) as i32 % 1000) - 500;
        let coord = SectorCoord(x, y, z);
        let rc = RegionCoord::from_sector(coord);
        assert_eq!(rc.x, x.div_euclid(32));
        assert_eq!(rc.y, y.div_euclid(32));
        assert_eq!(rc.z, z.div_euclid(32));
        assert!(RegionCoord::local_index(coord) < 32 * 32 * 32);
    }
}

#[test]
fn region_coord_extremes_and_local_index() {
    let c = SectorCoord(i32::MIN, -1, i32::MAX);
    let rc = RegionCoord::from_sector(c);
    assert_eq!(rc, RegionCoord { x: i32::MIN.div_euclid(32), y: -1, z: i32::MAX.div_euclid(32) });
    assert_eq!(RegionCoord::local_index(SectorCoord(-1, 0, 0)), 31);
    assert_eq!(RegionCoord::local_index(SectorCoord(33, 2, 3)), (2 * 32 + 3) * 32 + 1);
}

#[test]
fn region_file_name_format() {
    assert_eq!(RegionCoord { x: 1, y: -1, z: 2 }.file_name(), "r.1.-1.2.strata");
    assert_eq!(RegionCoord { x: 0, y: 0, z: 0 }.file_name(), "r.0.0.0.strata");
    assert_eq!(
        RegionCoord { x: i32::MIN, y: i32::MAX, z: -10 }.file_name(),
        "r.-2147483648.2147483647.-10.strata"
    );
}

#[test]
fn dedup_10_identical_sectors_one_region_entry() {
    let payload = sample_payload(7, 2048);
    let compressed = compress(&payload, Tier::Distant).unwrap();
    let hash = DedupTable::hash_of(&compressed);
    let mut table = DedupTable::new();
    let mut offsets = std::collections::HashSet::new();
    for i in 0..10u64 {
        let h2 = DedupTable::hash_of(&compress(&payload, Tier::Distant).unwrap());
        assert_eq!(h2, hash, "identical input must dedup to one hash");
        if let Some((off, _size)) = table.get(&hash) {
            offsets.insert(off);
        } else {
            let off = i * 4096;
            table.insert(hash, off, compressed.len() as u32);
            offsets.insert(off);
        }
    }
    assert_eq!(offsets.len(), 1, "10 identical sectors must dedup to one entry");
}

#[test]
fn dedup_insert_replaces_and_reconcile_drops_stale() {
    let a = [1u8; 32];
    let b = [2u8; 32];
    let c = [3u8; 32];
    let mut t = DedupTable::new();
    t.insert(a, 10, 1);
    t.insert(b, 20, 2);
    t.insert(a, 30, 3);
    t.insert(c, 40, 4);
    assert_eq!(t.get(&a), Some((30, 3)));
    let mut live = DedupTable::new();
    live.insert(a, 30, 3);
    live.insert(b, 21, 2);
    assert!(reconcile(&mut t, &live).is_ok());
    assert_eq!(t.get(&a), Some((30, 3)));
    assert_eq!(t.get(&b), None);
    assert!(!t.contains(&c));
}

#[test]
fn region_write_read_round_trip() {
    let coord = SectorCoord(35, -10, 70);
    let payload = sample_payload(123, 2048);
    let header = SectorHeader::new(coord, Tier::Warm, &payload);
    let (image, offset) = write(&[], coord, &payload);
    assert!(offset > 0, "payload must not be at the header offset");
    let (read_header, read_payload) = read(&image, coord).unwrap();
    assert_eq!(read_payload, payload, "compressed payload must round-trip byte-equal");
    assert_eq!(read_header.coord, [coord.0, coord.1, coord.2]);
    assert_eq!(read_header.payload_hash, header.payload_hash);
    // the returned offset is where the payload starts, just past its header
    let off = offset as usize;
    assert_eq!(&image[off..off + payload.len()], &payload[..]);
    assert_eq!(&image[off - SECTOR_HEADER_LEN..off - SECTOR_HEADER_LEN + 4], &SectorHeader::MAGIC);
}

#[test]
fn build_append_returns_payload_offset() {
    let coord = SectorCoord(2, 2, 2);
    let payload = sample_payload(9, 300);
    let header = SectorHeader::new(coord, Tier::Warm, &payload);
    let mut slots = SlotTable::new();
    let (image, offset) = build_append(&[], &mut slots, coord, &header, &payload).unwrap();
    // one slot: table ends at 20 + 8, the record starts there, the payload 72 bytes later
    assert_eq!(offset, 28 + SECTOR_HEADER_LEN as u64);
    assert_eq!(&image[offset as usize..offset as usize + payload.len()], &payload[..]);
}

#[test]
fn plan_write_sector_refuses_a_full_region() {
    let mut slots = SlotTable::new();
    for i in 0..REGION_SECTOR_COUNT as i32 {
        slots.entries.push(SlotEntry {
            coord: SectorCoord(i % 32, (i / 32) % 32, i / 1024),
            slot: Slot { offset: 0, size: 72 },
        });
    }
    let coord = SectorCoord(100, 100, 100);
    let payload = sample_payload(4, 10);
    let header = SectorHeader::new(coord, Tier::Warm, &payload);
    match plan_write_sector(&[], &slots, coord, &header, &payload) {
        Err(StorageError::Region(m)) => assert_eq!(m, "region holds no free slot"),
        _ => panic!("a full region must refuse a new sector"),
    }
}

#[test]
fn plan_write_sector_keeps_one_record_per_sector() {
    let a = SectorCoord(1, 1, 1);
    let b = SectorCoord(2, 1, 1);
    let (img, _) = write(&[], a, &sample_payload(1, 100));
    let (img, _) = write(&img, b, &sample_payload(2, 100));
    let (img, _) = write(&img, a, &sample_payload(3, 100));
    let slots = parse_slots(&img).unwrap();
    assert_eq!(slots.len(), 2);
    assert_eq!(read(&img, a).unwrap().1, sample_payload(3, 100));
    assert_eq!(read(&img, b).unwrap().1, sample_payload(2, 100));
}

#[test]
fn region_keeps_other_sectors_and_compacts_on_delete() {
    let c1 = SectorCoord(1, 2, 3);
    let c2 = SectorCoord(4, 5, 6);
    let p1 = sample_payload(1, 500);
    let p2 = sample_payload(2, 700);
    let (img, _) = write(&[], c1, &p1);
    let (img, _) = write(&img, c2, &p2);
    assert_eq!(read(&img, c1).unwrap().1, p1);
    assert_eq!(read(&img, c2).unwrap().1, p2);
    let mut slots = parse_slots(&img).unwrap();
    assert_eq!(slots.len(), 2);
    assert!(slots.remove(c1));
    assert!(!slots.remove(c1));
    let smaller = build_without(&img, &slots).unwrap();
    assert!(smaller.len() < img.len());
    assert_eq!(read(&smaller, c2).unwrap().1, p2);
    assert!(matches!(read(&smaller, c1), Err(StorageError::NotFound(c)) if c == c1));
}

#[test]
fn region_corrupt_payload_detected_via_blake3() {
    let coord = SectorCoord(70, 70, 70);
    let payload = sample_payload(55, 3000);
    let (mut bytes, _) = write(&[], coord, &payload);
    let corrupt_at = 100;
    bytes[corrupt_at] ^= 0xff;
    let err = read(&bytes, coord).expect_err("corrupt payload must be rejected");
    assert!(
        matches!(err, StorageError::CorruptPayload { coord: c } if c == coord),
        "expected CorruptPayload, got {err:?}"
    );
}

#[test]
fn region_rewrite_same_coord_does_not_accumulate() {
    let coord = SectorCoord(3, 4, 5);
    let mut image: Vec<u8> = Vec::new();
    let mut last_payload = Vec::new();
    let mut first_size = 0usize;
    for i in 0..50u64 {
        let payload = sample_payload(i.wrapping_mul(2654435761), 4096);
        image = write(&image, coord, &payload).0;
        last_payload = payload;
        if i == 0 {
            first_size = image.len();
        }
        assert!(image.len() <= first_size * 2, "region image grew unbounded on rewrite");
    }
    let (_h, read_back) = read(&image, coord).unwrap();
    assert_eq!(read_back, last_payload, "latest write must win, not an old copy");
}

#[test]
fn region_malicious_sector_count_no_dos() {
    let mut bytes = Vec::new();
    bytes.extend_from_slice(b"STRG");
    bytes.extend_from_slice(&[1u8, 0]);
    bytes.extend_from_slice(&[0u8; 2]);
    bytes.extend_from_slice(&(REGION_SECTOR_COUNT as u32 + 1).to_le_bytes());
    bytes.extend_from_slice(&[0u8; 8]);
    let start = std::time::Instant::now();
    let result = parse_slots(&bytes);
    assert!(result.is_err(), "sector_count exceeding REGION_SECTOR_COUNT must be rejected");
    assert!(start.elapsed().as_millis() < 1000);
}

#[test]
fn region_undersized_slot_rejected_no_panic() {
    let mut bytes = Vec::new();
    bytes.extend_from_slice(b"STRG");
    bytes.extend_from_slice(&1u16.to_le_bytes());
    bytes.extend_from_slice(&[0u8; 2]);
    bytes.extend_from_slice(&1u32.to_le_bytes());
    bytes.extend_from_slice(&20u64.to_le_bytes());
    bytes.extend_from_slice(&0u32.to_le_bytes());
    bytes.extend_from_slice(&8u32.to_le_bytes());
    bytes.extend_from_slice(&[0u8; 8]);
    match parse_slots(&bytes) {
        Err(StorageError::Region(msg)) => assert_eq!(msg, "slot size 8 < sector header (72)"),
        Err(e) => panic!("unexpected error {e:?}"),
        Ok(_) => panic!("slot size < SectorHeader must be rejected"),
    }
}

#[test]
fn region_read_sector_truncated_file_no_panic() {
    let coord = SectorCoord(1, 2, 3);
    let payload = sample_payload(42, 1024);
    let (image, _) = write(&[], coord, &payload);
    let slots = parse_slots(&image).unwrap();
    let truncated = b"STRG\x00\x01\x00\x00\x00".to_vec();
    let result = read_sector(&slots, &truncated, coord);
    assert!(matches!(result, Err(StorageError::CorruptPayload { .. })), "truncated file must return error");
}

#[test]
fn region_parse_errors_name_the_fault() {
    let msg = |b: &[u8]| match parse_slots(b) {
        Err(StorageError::Region(m)) => m,
        other => panic!("expected a region error, got {:?}", other.map(|t| t.len())),
    };
    assert_eq!(msg(b"STRG"), "file too small to hold header");
    assert_eq!(msg(&[0u8; 20]), "bad region magic");
    let mut v = b"STRG".to_vec();
    v.extend_from_slice(&7u16.to_le_bytes());
    v.extend_from_slice(&[0u8; 14]);
    assert_eq!(msg(&v), "unsupported region version 7");
    let mut t = b"STRG".to_vec();
    t.extend_from_slice(&1u16.to_le_bytes());
    t.extend_from_slice(&[0u8; 2]);
    t.extend_from_slice(&2u32.to_le_bytes());
    t.extend_from_slice(&[0u8; 8]);
    assert_eq!(msg(&t), "truncated slot table");
    let mut p = b"STRG".to_vec();
    p.extend_from_slice(&1u16.to_le_bytes());
    p.extend_from_slice(&[0u8; 2]);
    p.extend_from_slice(&1u32.to_le_bytes());
    p.extend_from_slice(&[0u8; 8]);
    p.extend_from_slice(&0u32.to_le_bytes());
    p.extend_from_slice(&100u32.to_le_bytes());
    assert_eq!(msg(&p), "slot points past EOF");
}

#[test]
fn region_empty_image_and_read_existing() {
    let image = serialize_slots(&SlotTable::new(), &[]);
    assert_eq!(image.len(), 20 + 4096 + 16);
    assert_eq!(parse_slots(&image).unwrap().len(), 0);
    let (count, payload) = read_existing(&image).unwrap();
    assert_eq!(count, 0);
    assert_eq!(payload.len(), 4096 + 16);
    let (count, payload) = read_existing(&[1, 2, 3]).unwrap();
    assert_eq!((count, payload.len()), (0, 0));
    assert!(matches!(read_sector(&SlotTable::new(), &image, SectorCoord(0, 0, 0)), Err(StorageError::NotFound(_))));
}

#[test]
fn region_presence_bitmap_marks_written_sector() {
    let coord = SectorCoord(33, 2, 3);
    let (image, _) = write(&[], coord, &sample_payload(9, 64));
    let idx = RegionCoord::local_index(coord);
    let trailer_start = image.len() - 16 - 4096;
    assert_eq!(image[trailer_start + idx / 8] & (1 << (idx % 8)), 1 << (idx % 8));
    assert_eq!(image[trailer_start..trailer_start + 4096].iter().map(|b| b.count_ones()).sum::<u32>(), 1);
    assert_eq!(&image[image.len() - 16..image.len() - 12], b"STRG");
}

#[test]
fn test_dirty_tracker_hash_collision() {
    let tracker = DirtyTracker::new(1);
    let mut found = None;
    let c1 = SectorCoord(0, 0, 0);
    let loc1 = tracker.locate(c1);
    for x in 0..1000 {
        for y in 0..1000 {
            let c2 = SectorCoord(x, y, 1);
            if tracker.locate(c2) == loc1 && c1 != c2 {
                found = Some(c2);
                break;
            }
        }
        if found.is_some() {
            break;
        }
    }
    let c2 = found.expect("must find a colliding coord");
    assert_eq!(tracker.locate(c1), tracker.locate(c2));
    assert_ne!(c1, c2);
    let mut tracker = tracker;
    tracker.mark_dirty(c1);
    tracker.mark_dirty(c2);
    assert_eq!(tracker.pending(), 2, "colliding coords must both be queued");
    let batch = tracker.consume_dirty_batch(2);
    assert_eq!(batch.len(), 2);
    assert!(batch.contains(&c1));
    assert!(batch.contains(&c2));
    assert!(tracker.is_dirty(c1));
    assert!(tracker.is_dirty(c2));
    tracker.clear(c1);
    tracker.clear(c2);
    assert!(!tracker.is_dirty(c1));
    assert!(!tracker.is_dirty(c2));
}

#[test]
fn consume_does_not_clear_sticky_bit() {
    let mut tracker = DirtyTracker::new(64);
    let coord = SectorCoord(7, 8, 9);
    tracker.mark_dirty(coord);
    assert!(tracker.is_dirty(coord));
    let batch = tracker.consume_dirty_batch(1);
    assert_eq!(batch, vec![coord]);
    assert!(tracker.is_dirty(coord), "consume must not clear sticky bit before durable commit");
    assert_eq!(tracker.pending(), 0);
    tracker.mark_dirty(coord);
    assert_eq!(tracker.pending(), 1);
    tracker.clear(coord);
    assert!(tracker.is_dirty(coord), "clear must no-op when coord was re-dirtied");
    let _ = tracker.consume_dirty_batch(1);
    tracker.clear(coord);
    assert!(!tracker.is_dirty(coord));
}

#[test]
fn dirty_queue_is_fifo_without_duplicates() {
    let mut t = DirtyTracker::new(1 << 10);
    let a = SectorCoord(1, 0, 0);
    let b = SectorCoord(2, 0, 0);
    let c = SectorCoord(3, 0, 0);
    t.mark_dirty(a);
    t.mark_dirty(b);
    t.mark_dirty(a);
    t.mark_dirty(c);
    assert_eq!(t.pending(), 3);
    assert_eq!(t.consume_dirty_batch(2), vec![a, b]);
    assert_eq!(t.consume_dirty_batch(10), vec![c]);
    assert_eq!(t.consume_dirty_batch(10), Vec::<SectorCoord>::new());
}

#[test]
fn priority_order_is_stable_by_priority() {
    assert_eq!(priority_order(&[3, 0, 1, 0, 2, 1]), vec![1, 3, 2, 5, 4, 0]);
    assert_eq!(priority_order(&[]), Vec::<usize>::new());
    assert_eq!(priority_order(&[255, 0]), vec![1, 0]);
}

#[test]
fn stored_payload_passes_raw_bytes_through() {
    let raw = b"raw sector bytes".to_vec();
    assert_eq!(decode_stored_payload(&raw).unwrap(), raw);
    assert_eq!(decode_stored_payload(&[]).unwrap(), Vec::<u8>::new());
}

#[test]
fn prepare_write_compresses_at_warm_tier() {
    let payload = vec![0u8; 4096];
    let (header, compressed) = prepare_write(SectorCoord(1, 1, 1), &payload).unwrap();
    assert!(compressed.len() < payload.len());
    assert_eq!(header.tier, 0);
    assert_eq!(header.compression_level, 1);
    header.verify(&compressed).unwrap();
    assert_eq!(decompress(&compressed).unwrap(), payload);
}

fn meta(coord: SectorCoord, dirty: bool, size: u64) -> SectorMetadata {
    SectorMetadata { coord, hash: [0u8; 32], size, mtime: 0, tier: 1, version: 1, dirty }
}

#[test]
fn metadata_key_format() {
    assert_eq!(SectorMetadata::key(SectorCoord(1, -2, 3)), "sector:1,-2,3");
}

#[test]
fn metadata_table_put_get_delete_and_list_dirty() {
    let mut t = MetadataTable::new();
    let a = SectorCoord(0, 0, 0);
    let b = SectorCoord(1, 0, 0);
    assert!(t.get(a).is_none());
    t.put(meta(a, true, 10));
    t.put(meta(b, false, 20));
    t.batch_write(vec![meta(b, true, 21), meta(a, false, 11), meta(a, true, 12)]);
    assert_eq!(t.get(a).unwrap().size, 12);
    assert_eq!(t.get(b).unwrap().size, 21);
    let mut dirty: Vec<u64> = t.list_dirty().iter().map(|m| m.size).collect();
    dirty.sort();
    assert_eq!(dirty, vec![12, 21]);
    t.delete(a);
    assert!(t.get(a).is_none());
    assert_eq!(t.list_dirty().len(), 1);
}

#[test]
fn local_indices_of_a_region_are_distinct() {
    let mut seen = vec![false; REGION_SECTOR_COUNT];
    for x in -32..0 {
        for y in 64..96 {
            for z in 0..32 {
                let c = SectorCoord(x, y, z);
                assert_eq!(RegionCoord::from_sector(c), RegionCoord { x: -1, y: 2, z: 0 });
                let i = RegionCoord::local_index(c);
                assert!(!seen[i], "two sectors of one region share index {i}");
                seen[i] = true;
            }
        }
    }
    assert!(seen.iter().all(|s| *s));
}

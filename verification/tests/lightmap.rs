use strata::render::lightmap::{LightmapEntry, SECTOR_LIGHTMAP_QUADS};

#[test]
fn lightmap_entry_is_one_byte() {
    assert_eq!(std::mem::size_of::<LightmapEntry>(), 1);
}

#[test]
fn lightmap_pack_and_unpack_round_trip() {
    for (s, b) in [(0u8, 0u8), (15, 0), (0, 15), (12, 7), (15, 15)] {
        let e = LightmapEntry::pack(s, b);
        assert_eq!(e.sky(), s, "sky round-trip for ({s},{b})");
        assert_eq!(e.block(), b, "block round-trip for ({s},{b})");
    }
}

#[test]
fn sector_indexing_round_trip() {
    for qid in [0u32, 1, 7, 255, 1024, 32 * 1024 - 1] {
        let idx = qid as usize;
        assert!(idx < SECTOR_LIGHTMAP_QUADS, "qid in range");
        let uploaded = vec![LightmapEntry(0xA5); SECTOR_LIGHTMAP_QUADS];
        assert_eq!(uploaded[idx].0, 0xA5, "uploads are looked up at quad_id");
    }
}

#[test]
fn out_of_range_quad_id_is_clamped() {
    assert!(SECTOR_LIGHTMAP_QUADS.is_power_of_two());
}

#[test]
fn lightmap_pack_masks_to_nibbles() {
    let e = LightmapEntry::pack(0x1F, 0x2E);
    assert_eq!(e.sky(), 0xF);
    assert_eq!(e.block(), 0xE);
    assert_eq!(e.0, 0xFE);
}

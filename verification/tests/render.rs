use strata::render::textures::{bytes_lt, texture_layer_index, texture_layers};
use strata::render::upload::{
    ao_curve_default, grown_capacity, pack_ao_curve, palette_capacity, smallest_mip_dim, QuadStaging,
};

#[test]
fn smallest_mip_dim_clamps_to_one() {
    assert_eq!(smallest_mip_dim(4, 4, 5), (1, 1));
    assert_eq!(smallest_mip_dim(1920, 1080, 5), (120, 67));
}

#[test]
fn smallest_mip_dim_without_mips_is_the_base_size() {
    assert_eq!(smallest_mip_dim(640, 480, 0), (640, 480));
    assert_eq!(smallest_mip_dim(640, 480, 1), (640, 480));
    assert_eq!(smallest_mip_dim(u32::MAX, 7, 32), (1, 1));
    assert_eq!(smallest_mip_dim(u32::MAX, 7, 31), (3, 1));
}

#[test]
fn ao_curve_packing_round_trip() {
    let default = ao_curve_default();
    assert_eq!(default, [191, 210, 230, 255]);
    let packed = pack_ao_curve(default);
    assert_eq!(packed & 0xFF, default[0] as u32, "byte 0 round-trip");
    assert_eq!((packed >> 8) & 0xFF, default[1] as u32, "byte 1 round-trip");
    assert_eq!((packed >> 16) & 0xFF, default[2] as u32, "byte 2 round-trip");
    assert_eq!((packed >> 24) & 0xFF, default[3] as u32, "byte 3 round-trip");
    assert_eq!(packed, 0xFFE6_D2BF);
}

#[test]
fn grown_capacity_doubles_or_jumps_to_need() {
    assert_eq!(grown_capacity(10, 16), None);
    assert_eq!(grown_capacity(17, 16), Some(32));
    assert_eq!(grown_capacity(100, 16), Some(100));
    assert_eq!(grown_capacity(1, 0), Some(1));
}

#[test]
fn ensure_quad_capacity_preserves_staged_bytes() {
    let mut s = QuadStaging::new();
    s.upload_quad_region(0, &[1, 2, 3, 4, 5, 6, 7, 8], 0);
    assert_eq!(s.capacity(), 1);
    assert!(s.ensure_quad_capacity(5));
    assert_eq!(s.capacity(), 5);
    assert_eq!(&s.bytes[0..8], &[1, 2, 3, 4, 5, 6, 7, 8]);
    assert!(s.bytes[8..].iter().all(|b| *b == 0));
    assert!(!s.ensure_quad_capacity(3));
    assert_eq!(s.capacity(), 5);
}

#[test]
fn upload_quad_region_auto_grows_and_tracks_dirty_range() {
    let mut s = QuadStaging::new();
    let quad = [9u8; 8];
    s.upload_quad_region(3, &quad, 0);
    assert!(s.capacity() >= 4);
    assert_eq!(&s.bytes[24..32], &quad);
    s.upload_quad_region(1, &[7u8; 8], 0);
    assert_eq!(s.flush_quad_uploads(), Some((8, 32)));
    assert_eq!(s.flush_quad_uploads(), None);
    // an empty upload changes nothing
    let before = s.bytes.clone();
    s.upload_quad_region(0, &[], 4);
    assert_eq!(s.bytes, before);
    assert_eq!(s.flush_quad_uploads(), None);
}

#[test]
fn palette_capacity_is_a_power_of_two_of_at_least_two() {
    assert_eq!(palette_capacity(16), 16);
    assert_eq!(palette_capacity(0), 2);
    assert_eq!(palette_capacity(1), 2);
    assert_eq!(palette_capacity(3), 4);
    assert_eq!(palette_capacity(17), 32);
}

#[test]
fn texture_layers_are_the_sorted_distinct_names_but_air() {
    let names: Vec<Vec<u8>> = ["stone", "air", "dirt", "grass_top", "dirt", "stone", "air"]
        .iter()
        .map(|n| n.as_bytes().to_vec())
        .collect();
    let layers = texture_layers(&names);
    let expect: Vec<Vec<u8>> = ["dirt", "grass_top", "stone"].iter().map(|n| n.as_bytes().to_vec()).collect();
    assert_eq!(layers, expect);
    assert_eq!(texture_layer_index(&layers, b"grass_top"), 1);
    assert_eq!(texture_layer_index(&layers, b"stone"), 2);
    // unknown names (and air) sample layer 0
    assert_eq!(texture_layer_index(&layers, b"lava"), 0);
    assert_eq!(texture_layer_index(&layers, b"air"), 0);
}

#[test]
fn byte_order_puts_prefixes_first() {
    assert!(bytes_lt(b"dirt", b"dirty"));
    assert!(!bytes_lt(b"dirty", b"dirt"));
    assert!(bytes_lt(b"a", b"b"));
    assert!(!bytes_lt(b"same", b"same"));
    assert!(bytes_lt(b"", b"x"));
}

#[test]
fn test_upload_quad_region_auto_grows_capacity() {
    let mut staging = QuadStaging::new();
    let bytes = vec![0u8; 16]; // 2 quads
    let origins = 2usize;
    // Base = 100 with initial capacity 0 would panic without auto ensure_quad_capacity
    staging.upload_quad_region(100, &bytes, origins);
    assert!(
        staging.bytes.len() >= 102 * 8,
        "upload_quad_region must auto-grow staging to accommodate base + count"
    );
}

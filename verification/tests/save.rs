use strata::save::envelope::{SaveEnvelope, MAGIC, SAVE_FORMAT_VERSION};
use strata::save::migration::{find_step, no_step_error, CURRENT_SAVE_VERSION};
use strata::save::scheduler::{FlushScheduler, DEFAULT_AUTO_SAVE_INTERVAL_NANOS};
use strata::storage::coord::SectorCoord;
use strata::storage::dirty::DirtyTracker;
use strata::storage::error::StorageError;

fn envelope_error(env: &SaveEnvelope) -> String {
    match env.verify() {
        Err(StorageError::Envelope(m)) => m,
        other => panic!("expected an envelope error, got {other:?}"),
    }
}

#[test]
fn pack_then_verify_for_both_hash_domains() {
    for version in [0u32, 1, SAVE_FORMAT_VERSION, 7] {
        let env = SaveEnvelope::pack(version, 3, b"world bytes").unwrap();
        assert_eq!(env.magic, MAGIC);
        assert_eq!(env.payload_size, 11);
        assert_eq!(env.signature, [0u8; 32]);
        env.verify().unwrap();
    }
    let v1 = SaveEnvelope::pack(1, 3, b"world bytes").unwrap();
    let v2 = SaveEnvelope::pack(2, 3, b"world bytes").unwrap();
    assert_ne!(v1.payload_hash, v2.payload_hash, "the format-2 hash covers the header too");
    assert_eq!(v2.payload_hash, SaveEnvelope::hash_canonical(2, 3, 11, b"world bytes"));
}

#[test]
fn verify_reports_each_failure() {
    let env = SaveEnvelope::pack(2, 1, b"abc").unwrap();
    let mut bad = env.clone();
    bad.magic = *b"NOPE";
    assert_eq!(envelope_error(&bad), "bad save magic");
    let mut bad = env.clone();
    bad.payload_size = 4;
    assert_eq!(envelope_error(&bad), "payload_size mismatch");
    let mut bad = env.clone();
    bad.payload[0] ^= 1;
    assert_eq!(envelope_error(&bad), "payload hash mismatch");
    let mut bad = env.clone();
    bad.generator_version = 2;
    assert_eq!(envelope_error(&bad), "payload hash mismatch");
    let mut signed = env.clone();
    signed.signature = [7u8; 32];
    signed.verify().unwrap();
}

#[test]
fn flush_budget_rises_past_threshold() {
    let s = FlushScheduler::default();
    assert_eq!(s.effective_budget(0), 8);
    assert_eq!(s.effective_budget(256), 8);
    assert_eq!(s.effective_budget(257), 64);
}

#[test]
fn auto_save_waits_for_the_interval_then_drains_a_budget() {
    let mut s = FlushScheduler::default();
    let mut t = DirtyTracker::new(1 << 12);
    for i in 0..10 {
        t.mark_dirty(SectorCoord(i, 0, 0));
    }
    let half = DEFAULT_AUTO_SAVE_INTERVAL_NANOS / 2;
    assert!(s.auto_save_step(&mut t, half, DEFAULT_AUTO_SAVE_INTERVAL_NANOS).is_empty());
    assert_eq!(s.elapsed_nanos, half);
    let batch = s.auto_save_step(&mut t, half, DEFAULT_AUTO_SAVE_INTERVAL_NANOS);
    assert_eq!(batch, (0..8).map(|i| SectorCoord(i, 0, 0)).collect::<Vec<_>>());
    assert_eq!(s.elapsed_nanos, 0);
    assert_eq!(t.pending(), 2);
    assert!(t.is_dirty(SectorCoord(0, 0, 0)), "flags stay set until the commit clears them");
    s.elapsed_nanos = u64::MAX - 1;
    let rest = s.auto_save_step(&mut t, 10, DEFAULT_AUTO_SAVE_INTERVAL_NANOS);
    assert_eq!(rest.len(), 2);
    assert!(s.auto_save_step(&mut t, u64::MAX, 1).is_empty());
}

#[test]
fn migration_step_is_the_first_from_the_version() {
    assert_eq!(CURRENT_SAVE_VERSION, 1);
    assert_eq!(find_step(&[0, 1, 0], 0), Some(0));
    assert_eq!(find_step(&[2, 1, 1], 1), Some(1));
    assert_eq!(find_step(&[2, 3], 0), None);
    assert_eq!(find_step(&[], 0), None);
}

#[test]
fn missing_migration_step_error_names_the_version() {
    match no_step_error(0) {
        StorageError::Envelope(m) => assert_eq!(m, "no migration step from save_version 0"),
        e => panic!("expected an envelope error, got {e:?}"),
    }
    match no_step_error(1234) {
        StorageError::Envelope(m) => assert_eq!(m, "no migration step from save_version 1234"),
        e => panic!("expected an envelope error, got {e:?}"),
    }
}

use runarchive::resume::{
    cache_dir, cache_file_name, cache_name_from_digest, calculate_checkpoint_interval,
    CheckpointGuard, ExitAction, ResumableCursor,
};

#[test]
fn test_calculate_checkpoint_interval() {
    // Small file, should be clamped to 5 MB
    assert_eq!(calculate_checkpoint_interval(1024), 5 * 1024 * 1024);

    // Mid file (1GB), 1% is ~10MB, which is within bounds (5MB - 25MB)
    assert_eq!(calculate_checkpoint_interval(1024 * 1024 * 1024), 10737418);

    // Huge file (10GB), 1% is ~100MB, should be clamped to 25 MB
    assert_eq!(calculate_checkpoint_interval(10u64 * 1024 * 1024 * 1024), 25 * 1024 * 1024);
}

#[test]
fn checkpoint_interval_edges() {
    assert_eq!(calculate_checkpoint_interval(0), 5 * 1024 * 1024);
    assert_eq!(calculate_checkpoint_interval(u64::MAX), 25 * 1024 * 1024);
    assert_eq!(calculate_checkpoint_interval(500 * 1024 * 1024 + 99), 5 * 1024 * 1024);
    assert_eq!(calculate_checkpoint_interval(2500 * 1024 * 1024), 25 * 1024 * 1024);
}

#[test]
fn checkpoint_interval_is_monotone() {
    let mut prev = 0;
    for size in [0u64, 1 << 20, 600 << 20, 1 << 30, 2 << 30, 3 << 30, 1 << 40] {
        let i = calculate_checkpoint_interval(size);
        assert!(i >= prev);
        assert!((5 << 20..=25 << 20).contains(&i));
        prev = i;
    }
}

fn cursor() -> ResumableCursor {
    ResumableCursor {
        compressed_offset: 12345,
        uncompressed_offset: 67890,
        bit_count: 5,
        bits: 12,
        dictionary_window: vec![1, 2, 3, 4, 5],
    }
}

#[test]
fn guard_saves_the_latest_cursor_until_disarmed() {
    let mut guard = CheckpointGuard::new("http://example.com/test.zip", "large_file.bin", None);
    assert_eq!(guard.uri(), "http://example.com/test.zip");
    assert_eq!(guard.filename(), "large_file.bin");
    // Armed with nothing recorded yet: the checkpoint file is left alone.
    assert!(matches!(guard.exit_action(), ExitAction::Keep));

    guard.record(cursor());
    let mut later = cursor();
    later.compressed_offset = 20000;
    guard.record(later);
    match guard.exit_action() {
        ExitAction::Save(c) => {
            assert_eq!(c.compressed_offset, 20000);
            assert_eq!(c.uncompressed_offset, 67890);
            assert_eq!(c.bit_count, 5);
            assert_eq!(c.bits, 12);
            assert_eq!(c.dictionary_window, vec![1, 2, 3, 4, 5]);
        }
        _ => panic!("an armed guard with a cursor must save it"),
    }

    guard.disarm();
    assert!(matches!(guard.exit_action(), ExitAction::Delete));
}

#[test]
fn cache_file_name_is_a_truncated_sha256() {
    assert_eq!(cache_file_name("http://example.com/test.zip", "large_file.bin"), "476aaf50a4");
    assert_eq!(cache_file_name("a", "b"), "0eab8a0a33");
    assert_eq!(cache_dir(), ".runarchive");
}

#[test]
fn cache_name_is_lower_hex_of_the_first_five_bytes() {
    let digest = [0xde, 0xad, 0xbe, 0xef, 0x0a, 0xff, 0xff];
    assert_eq!(cache_name_from_digest(&digest), "deadbeef0a");
}

#[test]
fn guard_armed_with_a_resumed_cursor_saves_it() {
    let guard = CheckpointGuard::new("http://example.com/test.zip", "large_file.bin", Some(cursor()));
    match guard.exit_action() {
        ExitAction::Save(c) => {
            assert_eq!(c.compressed_offset, 12345);
            assert_eq!(c.uncompressed_offset, 67890);
        }
        _ => panic!("an armed guard holding a cursor must save it"),
    }
}

#[test]
fn recording_after_disarm_arms_the_guard_again() {
    let mut guard = CheckpointGuard::new("u", "f", None);
    guard.disarm();
    assert!(matches!(guard.exit_action(), ExitAction::Delete));
    guard.record(cursor());
    assert!(matches!(guard.exit_action(), ExitAction::Save(_)));
}

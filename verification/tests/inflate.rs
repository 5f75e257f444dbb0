use runarchive::deflate::{check_inflate_status, DecompressionOptions, InflateStatus, InflateTracker, WINDOW_SIZE};
use runarchive::resume::ResumableCursor;

fn options(resumable: bool) -> DecompressionOptions<'static> {
    DecompressionOptions {
        uri: "http://example.com/a.zip",
        filename: "big.bin",
        payload_offset: 1000,
        compressed_size: 500,
        uncompressed_size: 2000,
        resumable,
    }
}

#[test]
fn fresh_run_starts_at_the_payload() {
    let t = InflateTracker::start(&options(false), u64::MAX, None);
    assert_eq!(t.resume_offset(), 1000);
    assert_eq!(t.download_position(), 0);
    assert_eq!(t.decompress_position(), 0);
    assert_eq!(t.remaining(), 500);
    assert_eq!(t.next_read_len(65536), 500);
    assert_eq!(t.next_read_len(100), 100);
    assert!(t.dictionary_window().is_empty());
}

#[test]
fn resumed_run_starts_at_the_checkpoint() {
    let cp = ResumableCursor {
        compressed_offset: 1200,
        uncompressed_offset: 777,
        bit_count: 3,
        bits: 5,
        dictionary_window: vec![1, 2, 3],
    };
    let t = InflateTracker::start(&options(true), 10, Some(cp));
    assert_eq!(t.resume_offset(), 1200);
    assert_eq!(t.download_position(), 200);
    assert_eq!(t.decompress_position(), 777);
    assert_eq!(t.remaining(), 300);
    assert_eq!(t.dictionary_window(), &[1, 2, 3]);
    assert!(!t.checkpoint_due());
}

#[test]
fn window_keeps_the_last_32_kib() {
    let mut t = InflateTracker::start(&options(false), u64::MAX, None);
    let out: Vec<u8> = (0..40000u32).map(|i| (i % 251) as u8).collect();
    t.record_output(&out[..1000]);
    assert_eq!(t.dictionary_window(), &out[..1000]);
    t.record_output(&out[1000..]);
    assert_eq!(t.dictionary_window().len(), WINDOW_SIZE);
    assert_eq!(t.dictionary_window(), &out[40000 - WINDOW_SIZE..]);
    assert_eq!(t.decompress_position(), 40000);
}

#[test]
fn input_and_stream_end_bookkeeping() {
    let mut t = InflateTracker::start(&options(false), u64::MAX, None);
    t.record_input(200);
    assert_eq!(t.remaining(), 300);
    t.finish_chunk(200);
    assert_eq!(t.resume_offset(), 1200);
    assert_eq!(t.download_position(), 200);
    t.end_stream();
    assert_eq!(t.remaining(), 0);
    assert_eq!(t.next_read_len(65536), 0);
}

#[test]
fn block_boundaries_make_cursors_only_when_resumable() {
    let mut t = InflateTracker::start(&options(true), 100, None);
    t.record_output(&[7, 8, 9]);
    let chunk = [0b1011_0000u8, 0xff, 0b1110_0001];
    // data_type: boundary bit set, 3 pending bits.
    let c = t.block_boundary_cursor(128 | 3, &chunk, 3).unwrap();
    assert_eq!(c.compressed_offset, 1003);
    assert_eq!(c.uncompressed_offset, 3);
    assert_eq!(c.bit_count, 3);
    assert_eq!(c.bits, 0b111);
    assert_eq!(c.dictionary_window, vec![7, 8, 9]);
    // Inside a block, or at the end of the last one: no cursor.
    assert!(t.block_boundary_cursor(3, &chunk, 3).is_none());
    assert!(t.block_boundary_cursor(128 | 64, &chunk, 3).is_none());
    // No pending bits.
    assert_eq!(t.block_boundary_cursor(128, &chunk, 1).unwrap().bits, 0);

    let plain = InflateTracker::start(&options(false), 100, None);
    assert!(plain.block_boundary_cursor(128 | 3, &chunk, 3).is_none());
}

#[test]
fn checkpoints_fall_due_every_interval() {
    let mut t = InflateTracker::start(&options(true), 100, None);
    t.record_output(&[0u8; 99]);
    assert!(!t.checkpoint_due());
    t.record_output(&[0u8; 1]);
    assert!(t.checkpoint_due());
    t.mark_checkpoint();
    assert!(!t.checkpoint_due());
}

#[test]
fn inflate_statuses() {
    assert_eq!(check_inflate_status(InflateStatus::Success), Ok(false));
    assert_eq!(check_inflate_status(InflateStatus::BufError), Ok(false));
    assert_eq!(check_inflate_status(InflateStatus::StreamEnd), Ok(true));
    assert_eq!(check_inflate_status(InflateStatus::DataError), Err(InflateStatus::DataError));
    assert_eq!(check_inflate_status(InflateStatus::NeedDict), Err(InflateStatus::NeedDict));
}

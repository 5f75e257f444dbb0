use runarchive::buffer::{BufferError, RetentionBuffer};
use runarchive::seeker::{resolve_seek, seek_computable, SeekPosition};

#[test]
fn new_buffer_retains_nothing() {
    let b = RetentionBuffer::new(1000);
    assert_eq!(b.file_size(), 1000);
    assert_eq!(b.buffer_start_offset(), 0);
    assert_eq!(b.current_offset(), 0);
    assert!(b.get_entire_buffer().is_empty());
    assert_eq!(b.get_retained_slice(0, 1), None);
    assert_eq!(b.get_retained_slice(0, 0), Some(&[][..]));
}

#[test]
fn fetch_length_is_clamped_to_the_file() {
    let b = RetentionBuffer::new(1000);
    assert_eq!(b.fetch_length(0, 100), Ok(100));
    assert_eq!(b.fetch_length(950, 100), Ok(50));
    assert_eq!(b.fetch_length(1000, 1), Err(BufferError::FetchPastEof));
    assert_eq!(BufferError::FetchPastEof.message(), "Fetch starts past EOF");
}

#[test]
fn retained_window_serves_what_was_fetched() {
    let mut b = RetentionBuffer::new(1000);
    let data: Vec<u8> = (0..50u8).collect();
    b.retain(900, data.clone());
    assert_eq!(b.buffer_start_offset(), 900);
    assert_eq!(b.current_offset(), 900);
    assert_eq!(b.get_entire_buffer(), &data[..]);
    assert_eq!(b.get_retained_slice(910, 5), Some(&data[10..15]));
    assert_eq!(b.get_retained_slice(945, 5), Some(&data[45..50]));
    assert_eq!(b.get_retained_slice(946, 5), None);
    assert_eq!(b.get_retained_slice(899, 2), None);
    assert_eq!(b.get_retained_slice(u64::MAX, 1), None);
    assert_eq!(b.get_retained_slice(910, usize::MAX), None);
}

#[test]
fn reads_inside_the_window_come_from_memory() {
    let mut b = RetentionBuffer::new(1000);
    let data: Vec<u8> = (0..50u8).collect();
    b.retain(900, data.clone());
    b.seek(SeekPosition::Start(940));
    let mut buf = [0xaau8; 16];
    assert_eq!(b.read_retained(&mut buf), Some(10));
    assert_eq!(&buf[..10], &data[40..50]);
    assert_eq!(&buf[10..], &[0xaa; 6]);
    assert_eq!(b.current_offset(), 950);
    // At the end of the window the caller reads from the source.
    assert_eq!(b.read_retained(&mut buf), None);
    b.advance(16);
    assert_eq!(b.current_offset(), 966);
}

#[test]
fn seek_clamps_to_the_file() {
    assert_eq!(resolve_seek(10, 100, SeekPosition::Start(50)), 50);
    assert_eq!(resolve_seek(10, 100, SeekPosition::Start(500)), 100);
    assert_eq!(resolve_seek(10, 100, SeekPosition::Current(-20)), 0);
    assert_eq!(resolve_seek(10, 100, SeekPosition::Current(5)), 15);
    assert_eq!(resolve_seek(10, 100, SeekPosition::Current(500)), 100);
    assert_eq!(resolve_seek(10, 100, SeekPosition::End(-30)), 70);
    assert_eq!(resolve_seek(10, 100, SeekPosition::End(-300)), 0);
    assert_eq!(resolve_seek(10, 100, SeekPosition::End(3)), 100);
    let mut b = RetentionBuffer::new(100);
    assert_eq!(b.seek(SeekPosition::End(-1)), 99);
    assert_eq!(b.seek(SeekPosition::Current(0)), 99);
}

#[test]
fn seek_overflow_is_detected() {
    assert!(seek_computable(10, 100, SeekPosition::Start(u64::MAX)));
    assert!(seek_computable(10, 100, SeekPosition::Current(-5)));
    assert!(!seek_computable(10, 100, SeekPosition::Current(i64::MIN)));
    assert!(!seek_computable(u64::MAX, 100, SeekPosition::Current(1)));
    assert!(!seek_computable(0, u64::MAX, SeekPosition::End(1)));
    assert!(seek_computable(0, u64::MAX, SeekPosition::End(0)));
}

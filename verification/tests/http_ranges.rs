use runarchive::seeker::SeekPosition;
use runarchive::seeker::http::{
    accept_range_response, content_range_total, is_success_status, parse_u64, plan_range_read,
    range_header_value, resolve_remote_size, RangeCursor, RangeReadError,
};
use runarchive::seeker::wasi_http::WasiHttpSeeker;

#[test]
fn range_header_formats_decimal_bounds() {
    assert_eq!(range_header_value(100, 199), b"bytes=100-199".to_vec());
    assert_eq!(range_header_value(0, 0), b"bytes=0-0".to_vec());
    assert_eq!(
        range_header_value(u64::MAX - 1, u64::MAX),
        b"bytes=18446744073709551614-18446744073709551615".to_vec()
    );
}

#[test]
fn planned_ranges_stay_inside_the_file() {
    assert_eq!(plan_range_read(100, 1000, 100), Some((100, 199)));
    assert_eq!(plan_range_read(935, 1000, 100), Some((935, 999)));
    assert_eq!(plan_range_read(1000, 1000, 100), None);
    assert_eq!(plan_range_read(0, 1000, 0), None);
}

#[test]
fn only_partial_content_within_the_buffer_is_accepted() {
    assert_eq!(accept_range_response(206, 100, 100), Ok(100));
    assert_eq!(accept_range_response(200, 100, 100), Err(RangeReadError::NotPartialContent));
    assert_eq!(accept_range_response(206, 101, 100), Err(RangeReadError::TooManyBytes));
    assert_eq!(RangeReadError::NotPartialContent.message(), "Server did not return 206 Partial Content");
    assert_eq!(RangeReadError::TooManyBytes.message(), "Received more bytes than requested");
    assert!(is_success_status(200));
    assert!(is_success_status(299));
    assert!(!is_success_status(300));
    assert!(!is_success_status(199));
}

#[test]
fn u64_parsing_matches_the_standard_library() {
    for s in ["0", "42", "+7", "18446744073709551615", "18446744073709551616", "", "+", "-1", "1a", " 1", "007"] {
        assert_eq!(parse_u64(s.as_bytes()), s.parse::<u64>().ok(), "input {s:?}");
    }
}

#[test]
fn content_range_gives_the_total() {
    assert_eq!(content_range_total("bytes 0-0/1234"), Some(1234));
    assert_eq!(content_range_total("bytes 0-0/*"), None);
    assert_eq!(content_range_total("bytes 0-0"), None);
    assert_eq!(content_range_total("bytes 0-0/12/34"), None);
}

#[test]
fn remote_size_falls_back_to_the_range_probe() {
    assert_eq!(resolve_remote_size(1000, Some(5)), Some(1000));
    assert_eq!(resolve_remote_size(0, Some(5)), Some(5));
    assert_eq!(resolve_remote_size(0, Some(0)), None);
    assert_eq!(resolve_remote_size(0, None), None);
}

#[test]
fn wasi_seeker_reads_and_seeks() {
    let mut s = WasiHttpSeeker::with_size("http://example.com/a.zip".to_string(), 1000);
    assert_eq!(s.file_size(), 1000);
    assert_eq!(s.url(), "http://example.com/a.zip");
    assert_eq!(s.seek(SeekPosition::Start(100)), 100);
    assert_eq!(s.plan_read(100), Some((100, 199)));
    let mut buf = [0u8; 4];
    assert_eq!(s.complete_read(&mut buf, &[9, 8, 7, 6, 5, 4]), 4);
    assert_eq!(buf, [9, 8, 7, 6]);
    assert_eq!(s.seek(SeekPosition::Current(0)), 104);
    let mut big = [0u8; 8];
    assert_eq!(s.complete_read(&mut big, &[1, 2]), 2);
    assert_eq!(big, [1, 2, 0, 0, 0, 0, 0, 0]);
    assert_eq!(s.seek(SeekPosition::End(0)), 1000);
    assert_eq!(s.plan_read(100), None);
}

#[test]
fn range_cursor_plans_copies_and_seeks() {
    let mut c = RangeCursor::new(50);
    assert_eq!(c.file_size(), 50);
    assert_eq!(c.current_offset(), 0);
    assert_eq!(c.plan_read(100), Some((0, 49)));
    assert_eq!(c.plan_read(0), None);
    let mut buf = [0u8; 3];
    assert_eq!(c.complete_read(&mut buf, &[4, 5, 6]), 3);
    assert_eq!(buf, [4, 5, 6]);
    assert_eq!(c.current_offset(), 3);
    assert_eq!(c.plan_read(10), Some((3, 12)));
    assert_eq!(c.seek(SeekPosition::End(-10)), 40);
    assert_eq!(c.seek(SeekPosition::Current(-100)), 0);
    assert_eq!(c.seek(SeekPosition::Start(70)), 50);
    assert_eq!(c.plan_read(1), None);
}

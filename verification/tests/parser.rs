use runarchive::parser;
use runarchive::parser::{ParseError, Zip64EocdRecord, Zip64Locator};

/// A stored one-member archive holding `test.txt` with `Hello World`,
/// followed by the given end-of-central-directory comment. Without a
/// comment it is 125 bytes: local header at 0, central directory of 54
/// bytes at 49, end record at 103.
fn simple_archive(comment: &[u8]) -> Vec<u8> {
    const NAME: &[u8] = b"test.txt";
    const DATA: &[u8] = b"Hello World";
    let crc: u32 = 0x4a17_b156;

    let mut out = Vec::new();
    out.extend_from_slice(&[0x50, 0x4b, 0x03, 0x04]);
    out.extend_from_slice(&20u16.to_le_bytes());
    out.extend_from_slice(&0u16.to_le_bytes());
    out.extend_from_slice(&0u16.to_le_bytes());
    out.extend_from_slice(&0u16.to_le_bytes());
    out.extend_from_slice(&0u16.to_le_bytes());
    out.extend_from_slice(&crc.to_le_bytes());
    out.extend_from_slice(&(DATA.len() as u32).to_le_bytes());
    out.extend_from_slice(&(DATA.len() as u32).to_le_bytes());
    out.extend_from_slice(&(NAME.len() as u16).to_le_bytes());
    out.extend_from_slice(&0u16.to_le_bytes());
    out.extend_from_slice(NAME);
    out.extend_from_slice(DATA);

    let cd_offset = out.len() as u32;
    out.extend_from_slice(&[0x50, 0x4b, 0x01, 0x02]);
    out.extend_from_slice(&20u16.to_le_bytes());
    out.extend_from_slice(&20u16.to_le_bytes());
    out.extend_from_slice(&0u16.to_le_bytes());
    out.extend_from_slice(&0u16.to_le_bytes());
    out.extend_from_slice(&0u16.to_le_bytes());
    out.extend_from_slice(&0u16.to_le_bytes());
    out.extend_from_slice(&crc.to_le_bytes());
    out.extend_from_slice(&(DATA.len() as u32).to_le_bytes());
    out.extend_from_slice(&(DATA.len() as u32).to_le_bytes());
    out.extend_from_slice(&(NAME.len() as u16).to_le_bytes());
    out.extend_from_slice(&0u16.to_le_bytes());
    out.extend_from_slice(&0u16.to_le_bytes());
    out.extend_from_slice(&0u16.to_le_bytes());
    out.extend_from_slice(&0u16.to_le_bytes());
    out.extend_from_slice(&0u32.to_le_bytes());
    out.extend_from_slice(&0u32.to_le_bytes());
    out.extend_from_slice(NAME);
    let cd_size = out.len() as u32 - cd_offset;

    out.extend_from_slice(&[0x50, 0x4b, 0x05, 0x06]);
    out.extend_from_slice(&0u16.to_le_bytes());
    out.extend_from_slice(&0u16.to_le_bytes());
    out.extend_from_slice(&1u16.to_le_bytes());
    out.extend_from_slice(&1u16.to_le_bytes());
    out.extend_from_slice(&cd_size.to_le_bytes());
    out.extend_from_slice(&cd_offset.to_le_bytes());
    out.extend_from_slice(&(comment.len() as u16).to_le_bytes());
    out.extend_from_slice(comment);
    out
}

fn simple_archive_no_comment() -> Vec<u8> {
    simple_archive(&[])
}

fn archive_with_65535b_comment() -> Vec<u8> {
    simple_archive(&vec![b'A'; 65535])
}

#[test]
fn test_find_eocd_signature_no_comment() {
    let data = simple_archive_no_comment();
    let zip_data: &[u8] = &data;
    let eocd_offset = parser::find_eocd_offset(zip_data).expect("Failed to locate EOCD signature");
    assert_eq!(eocd_offset, zip_data.len() - 22);
}

#[test]
fn test_find_eocd_signature_with_large_comment() {
    let data = archive_with_65535b_comment();
    let zip_data: &[u8] = &data;
    let eocd_offset = parser::find_eocd_offset(zip_data).unwrap();
    assert!(eocd_offset < zip_data.len() - 22);
}

#[test]
fn test_parse_eocd_and_central_directory() {
    let data = simple_archive_no_comment();
    let zip_data: &[u8] = &data;

    let eocd_offset = parser::find_eocd_offset(zip_data).unwrap();
    let eocd = parser::parse_eocd(&zip_data[eocd_offset..]).unwrap();

    assert_eq!(eocd.total_cd_records, 1);

    let cd_offset = eocd.cd_offset as usize;
    let (cdh, bytes_read) = parser::parse_central_directory_header(&zip_data[cd_offset..]).unwrap();

    assert_eq!(cdh.file_name, "test.txt");
    assert!(bytes_read > 46);
}

/// A zip64 extended information block: header id `0x0001`, byte length,
/// then one `u64` per overflowed field.
fn zip64_extra(values: &[u64]) -> Vec<u8> {
    let mut out = vec![0x01, 0x00];
    out.extend_from_slice(&((values.len() * 8) as u16).to_le_bytes());
    for v in values {
        out.extend_from_slice(&v.to_le_bytes());
    }
    out
}

/// A minimal central-directory header for `test.txt`, deflated, with the
/// given sizes, offset and extra field.
fn central_directory_header(
    compressed_size: u32,
    uncompressed_size: u32,
    local_header_offset: u32,
    extra_field: &[u8],
) -> Vec<u8> {
    const NAME: &[u8] = b"test.txt";

    let mut out = Vec::new();
    out.extend_from_slice(&[0x50, 0x4b, 0x01, 0x02]);
    out.extend_from_slice(&45u16.to_le_bytes());
    out.extend_from_slice(&45u16.to_le_bytes());
    out.extend_from_slice(&0u16.to_le_bytes());
    out.extend_from_slice(&8u16.to_le_bytes());
    out.extend_from_slice(&0u16.to_le_bytes());
    out.extend_from_slice(&0u16.to_le_bytes());
    out.extend_from_slice(&0u32.to_le_bytes());
    out.extend_from_slice(&compressed_size.to_le_bytes());
    out.extend_from_slice(&uncompressed_size.to_le_bytes());
    out.extend_from_slice(&(NAME.len() as u16).to_le_bytes());
    out.extend_from_slice(&(extra_field.len() as u16).to_le_bytes());
    out.extend_from_slice(&0u16.to_le_bytes());
    out.extend_from_slice(&0u16.to_le_bytes());
    out.extend_from_slice(&0u16.to_le_bytes());
    out.extend_from_slice(&0u32.to_le_bytes());
    out.extend_from_slice(&local_header_offset.to_le_bytes());
    out.extend_from_slice(NAME);
    out.extend_from_slice(extra_field);
    out
}

#[test]
fn test_zip64_extent_resolves_sentinel_sizes() {
    let cdh = central_directory_header(
        0xFFFF_FFFF,
        0xFFFF_FFFF,
        0,
        &zip64_extra(&[3_829_859_937, 1_082_015_276]),
    );

    let (cdh, _) = parser::parse_central_directory_header(&cdh).unwrap();
    let extent = cdh.extent();

    assert_eq!(extent.uncompressed_size, 3_829_859_937);
    assert_eq!(extent.compressed_size, 1_082_015_276);
    assert_eq!(extent.local_header_offset, 0);
}

#[test]
fn test_zip64_extent_resolves_only_sentinelled_fields() {
    let cdh = central_directory_header(1024, 4096, 0xFFFF_FFFF, &zip64_extra(&[8_000_000_000]));

    let (cdh, _) = parser::parse_central_directory_header(&cdh).unwrap();
    let extent = cdh.extent();

    assert_eq!(extent.uncompressed_size, 4096);
    assert_eq!(extent.compressed_size, 1024);
    assert_eq!(extent.local_header_offset, 8_000_000_000);
}

#[test]
fn test_extent_without_zip64_extra_field() {
    let cdh = central_directory_header(1024, 4096, 512, &[]);

    let (cdh, _) = parser::parse_central_directory_header(&cdh).unwrap();
    let extent = cdh.extent();

    assert_eq!(extent.uncompressed_size, 4096);
    assert_eq!(extent.compressed_size, 1024);
    assert_eq!(extent.local_header_offset, 512);
}

#[test]
fn parser_find_eocd_offset_no_heap() {
    let data = simple_archive_no_comment();
    let result = parser::find_eocd_offset(&data);
    assert!(result.is_ok());
}

#[test]
fn parser_parse_eocd_no_heap() {
    let data = simple_archive_no_comment();
    let eocd_offset = parser::find_eocd_offset(&data).unwrap();
    let result = parser::parse_eocd(&data[eocd_offset..]);
    assert!(result.is_ok());
}

#[test]
fn parser_parse_central_directory_header_no_heap() {
    let data = simple_archive_no_comment();
    let eocd_offset = parser::find_eocd_offset(&data).unwrap();
    let eocd = parser::parse_eocd(&data[eocd_offset..]).unwrap();
    let cd_data = &data[eocd.cd_offset as usize..];

    let (header, _bytes_read) = parser::parse_central_directory_header(cd_data).unwrap();
    assert_eq!(header.file_name, "test.txt");
}

#[test]
fn parser_find_zip64_locator_no_heap() {
    let data = simple_archive_no_comment();
    let result = parser::find_zip64_locator(&data);
    assert!(result.is_err());
}

#[test]
fn eocd_parse_all_fields_zero_copy() {
    let data = simple_archive_no_comment();
    let eocd_offset = parser::find_eocd_offset(&data).unwrap();
    let eocd = parser::parse_eocd(&data[eocd_offset..]).unwrap();

    assert_eq!(eocd.disk_number, 0);
    assert_eq!(eocd.disk_with_cd, 0);
    assert_eq!(eocd.cd_records_on_disk, 1);
    assert_eq!(eocd.total_cd_records, 1);
    assert_eq!(eocd.cd_size, 54);
    assert_eq!(eocd.cd_offset, 49);
    assert_eq!(eocd.comment_length, 0);
}

#[test]
fn eocd_search_too_short_is_invalid_format() {
    assert_eq!(parser::find_eocd_offset(&[0u8; 21]), Err(ParseError::InvalidFormat));
    assert_eq!(parser::find_zip64_locator(&[0u8; 19]), Err(ParseError::InvalidFormat));
}

#[test]
fn eocd_search_without_signature_is_not_found() {
    assert_eq!(parser::find_eocd_offset(&[0u8; 100]), Err(ParseError::SignatureNotFound));
}

#[test]
fn eocd_search_takes_the_last_signature() {
    let mut data = vec![0u8; 60];
    data[0..4].copy_from_slice(&[0x50, 0x4b, 0x05, 0x06]);
    data[30..34].copy_from_slice(&[0x50, 0x4b, 0x05, 0x06]);
    assert_eq!(parser::find_eocd_offset(&data), Ok(30));
    // A signature too close to the end to hold a record is not taken.
    data[50..54].copy_from_slice(&[0x50, 0x4b, 0x05, 0x06]);
    assert_eq!(parser::find_eocd_offset(&data), Ok(30));
}

#[test]
fn eocd_search_stops_at_the_longest_comment() {
    let mut data = vec![0u8; 70000];
    data[0..4].copy_from_slice(&[0x50, 0x4b, 0x05, 0x06]);
    assert_eq!(parser::find_eocd_offset(&data), Err(ParseError::SignatureNotFound));
    let floor = 70000 - 65557;
    data[floor..floor + 4].copy_from_slice(&[0x50, 0x4b, 0x05, 0x06]);
    assert_eq!(parser::find_eocd_offset(&data), Ok(floor));
}

#[test]
fn parse_eocd_reads_little_endian_fields() {
    let mut data = vec![0x50, 0x4b, 0x05, 0x06];
    data.extend_from_slice(&[1, 0, 2, 0, 3, 0, 0x04, 0x01, 0x78, 0x56, 0x34, 0x12, 0xef, 0xbe, 0xad, 0xde, 5, 0]);
    let eocd = parser::parse_eocd(&data).unwrap();
    assert_eq!(eocd.disk_number, 1);
    assert_eq!(eocd.disk_with_cd, 2);
    assert_eq!(eocd.cd_records_on_disk, 3);
    assert_eq!(eocd.total_cd_records, 0x0104);
    assert_eq!(eocd.cd_size, 0x1234_5678);
    assert_eq!(eocd.cd_offset, 0xdead_beef);
    assert_eq!(eocd.comment_length, 5);
    assert_eq!(parser::parse_eocd(&data[..21]), Err(ParseError::InvalidFormat));
}

fn zip64_locator_bytes(offset: u64) -> Vec<u8> {
    let mut out = vec![0x50, 0x4b, 0x06, 0x07];
    out.extend_from_slice(&7u32.to_le_bytes());
    out.extend_from_slice(&offset.to_le_bytes());
    out.extend_from_slice(&9u32.to_le_bytes());
    out
}

#[test]
fn parse_zip64_locator_fields_and_errors() {
    let loc = zip64_locator_bytes(0x0102_0304_0506_0708);
    assert_eq!(
        parser::parse_zip64_locator(&loc),
        Ok(Zip64Locator { disk_with_zip64_eocd: 7, zip64_eocd_offset: 0x0102_0304_0506_0708, total_disks: 9 })
    );
    assert_eq!(parser::parse_zip64_locator(&loc[..19]), Err(ParseError::InvalidFormat));
    let mut bad = loc.clone();
    bad[2] = 0x05;
    assert_eq!(parser::parse_zip64_locator(&bad), Err(ParseError::SignatureNotFound));
}

fn zip64_record_bytes(total: u64, size: u64, offset: u64) -> Vec<u8> {
    let mut out = vec![0x50, 0x4b, 0x06, 0x06];
    out.extend_from_slice(&[0u8; 28]);
    out.extend_from_slice(&total.to_le_bytes());
    out.extend_from_slice(&size.to_le_bytes());
    out.extend_from_slice(&offset.to_le_bytes());
    out
}

#[test]
fn parse_zip64_eocd_fields_and_errors() {
    let rec = zip64_record_bytes(70_000, 5_000_000_000, 6_000_000_000);
    assert_eq!(
        parser::parse_zip64_eocd(&rec),
        Ok(Zip64EocdRecord { total_cd_records: 70_000, cd_size: 5_000_000_000, cd_offset: 6_000_000_000 })
    );
    assert_eq!(parser::parse_zip64_eocd(&rec[..55]), Err(ParseError::InvalidFormat));
    let mut bad = rec.clone();
    bad[3] = 0x07;
    assert_eq!(parser::parse_zip64_eocd(&bad), Err(ParseError::SignatureNotFound));
}

#[test]
fn central_directory_header_errors() {
    let good = central_directory_header(1, 2, 3, &[9, 9]);
    assert_eq!(parser::parse_central_directory_header(&good[..45]).unwrap_err(), ParseError::InvalidFormat);
    let mut bad_sig = good.clone();
    bad_sig[3] = 0x03;
    assert_eq!(parser::parse_central_directory_header(&bad_sig).unwrap_err(), ParseError::SignatureNotFound);
    assert_eq!(
        parser::parse_central_directory_header(&good[..good.len() - 1]).unwrap_err(),
        ParseError::InvalidFormat
    );
    let mut bad_name = good.clone();
    bad_name[46] = 0xff;
    assert_eq!(parser::parse_central_directory_header(&bad_name).unwrap_err(), ParseError::Utf8Error);
}

#[test]
fn central_directory_header_fields_are_borrowed() {
    let mut cdh = central_directory_header(10, 20, 30, &[7, 8, 9]);
    // Give the header a two-byte comment.
    cdh[32] = 2;
    cdh.extend_from_slice(b"hi");
    let (h, n) = parser::parse_central_directory_header(&cdh).unwrap();
    assert_eq!(n, 46 + 8 + 3 + 2);
    assert_eq!(h.version_made_by, 45);
    assert_eq!(h.compression_method, 8);
    assert_eq!(h.compressed_size, 10);
    assert_eq!(h.uncompressed_size, 20);
    assert_eq!(h.local_header_offset, 30);
    assert_eq!(h.file_name, "test.txt");
    assert_eq!(h.extra_field, &[7, 8, 9]);
    assert_eq!(h.file_comment, b"hi");
}

#[test]
fn iterate_reads_consecutive_headers() {
    let mut cd = central_directory_header(1, 2, 3, &[]);
    cd.extend_from_slice(&central_directory_header(4, 5, 6, &[]));
    let hs = parser::iterate_central_directory(&cd, 2).unwrap();
    assert_eq!(hs.len(), 2);
    assert_eq!(hs[0].compressed_size, 1);
    assert_eq!(hs[1].compressed_size, 4);
    // Fewer headers asked for: fewer read.
    assert_eq!(parser::iterate_central_directory(&cd, 1).unwrap().len(), 1);
    // More asked for than the data holds: reading stops at the end.
    assert_eq!(parser::iterate_central_directory(&cd, 5).unwrap().len(), 2);
    // Trailing garbage that is not a header fails the walk.
    cd.extend_from_slice(&[1, 2, 3]);
    assert_eq!(parser::iterate_central_directory(&cd, 5).unwrap_err(), ParseError::InvalidFormat);
}

#[test]
fn extent_with_all_three_sentinels() {
    let cdh = central_directory_header(
        0xFFFF_FFFF,
        0xFFFF_FFFF,
        0xFFFF_FFFF,
        &zip64_extra(&[11_000_000_000, 12_000_000_000, 13_000_000_000]),
    );
    let (h, _) = parser::parse_central_directory_header(&cdh).unwrap();
    let e = h.extent();
    assert_eq!(e.uncompressed_size, 11_000_000_000);
    assert_eq!(e.compressed_size, 12_000_000_000);
    assert_eq!(e.local_header_offset, 13_000_000_000);
}

#[test]
fn extent_skips_other_extra_blocks() {
    let mut extra = vec![0x55, 0x54, 0x05, 0x00, 1, 2, 3, 4, 5];
    extra.extend_from_slice(&zip64_extra(&[9_000_000_000]));
    let cdh = central_directory_header(5, 0xFFFF_FFFF, 7, &extra);
    let (h, _) = parser::parse_central_directory_header(&cdh).unwrap();
    let e = h.extent();
    assert_eq!(e.uncompressed_size, 9_000_000_000);
    assert_eq!(e.compressed_size, 5);
    assert_eq!(e.local_header_offset, 7);
}

#[test]
fn extent_keeps_sentinel_when_block_is_short() {
    // The block announces 8 bytes but none follow: the run of blocks ends.
    let extra = vec![0x01, 0x00, 0x08, 0x00];
    let cdh = central_directory_header(5, 0xFFFF_FFFF, 7, &extra);
    let (h, _) = parser::parse_central_directory_header(&cdh).unwrap();
    assert_eq!(h.extent().uncompressed_size, 0xFFFF_FFFF);
}

//! The fixed-layout records of a ZIP archive: the end-of-central-directory
//! record, the zip64 locator and zip64 end record, and the central-directory
//! file headers. Every parser reads its fields straight out of the input
//! slice; names, extra fields and comments are borrowed from it.
use vstd::prelude::*;
use vstd::utf8::valid_utf8;
use vstd::string::StringSliceAdditionalSpecFns;
use crate::bytes::{le_u16, le_u32, le_u64, read_u16, read_u32, read_u64};

verus! {

broadcast use vstd::slice::group_slice_axioms;

/// Why a record could not be parsed.
#[derive(Debug, Clone, Copy, PartialEq, Eq, Structural)]
pub enum ParseError {
    SignatureNotFound,
    InvalidFormat,
    Utf8Error,
}

/// `PK\x05\x06`, read as a little-endian `u32`.
pub const EOCD_SIGNATURE: u32 = 0x0605_4b50;
/// `PK\x01\x02`, read as a little-endian `u32`.
pub const CDH_SIGNATURE: u32 = 0x0201_4b50;
/// `PK\x06\x07`, read as a little-endian `u32`.
pub const ZIP64_EOCD_LOCATOR_SIGNATURE: u32 = 0x0706_4b50;
/// `PK\x06\x06`, read as a little-endian `u32`.
pub const ZIP64_EOCD_RECORD_SIGNATURE: u32 = 0x0606_4b50;

/// Size of an end-of-central-directory record without its comment.
pub const MIN_EOCD_SIZE: usize = 22;
/// Size of an end-of-central-directory record with the longest comment.
pub const MAX_EOCD_SIZE: usize = 65557;
/// Size of a zip64 end-of-central-directory locator.
pub const ZIP64_LOCATOR_SIZE: usize = 20;
/// Size of the part of a zip64 end-of-central-directory record that is read.
pub const ZIP64_EOCD_SIZE: usize = 56;
/// Size of the fixed part of a central-directory file header.
pub const CDH_FIXED_SIZE: usize = 46;

#[derive(Debug, Clone, Copy, PartialEq, Eq, Structural)]
pub struct EocdRecord {
    pub disk_number: u16,
    pub disk_with_cd: u16,
    pub cd_records_on_disk: u16,
    pub total_cd_records: u16,
    pub cd_size: u32,
    pub cd_offset: u32,
    pub comment_length: u16,
}

#[derive(Debug, Clone, Copy, PartialEq, Eq, Structural)]
pub struct Zip64Locator {
    pub disk_with_zip64_eocd: u32,
    pub zip64_eocd_offset: u64,
    pub total_disks: u32,
}

#[derive(Debug, Clone, Copy, PartialEq, Eq, Structural)]
pub struct Zip64EocdRecord {
    pub total_cd_records: u64,
    pub cd_size: u64,
    pub cd_offset: u64,
}

/// `sig` is stored at `s[i..i + 4]`.
pub open spec fn signature_at(s: Seq<u8>, i: int, sig: u32) -> bool {
    0 <= i && i + 4 <= s.len() && le_u32(s, i) == sig
}

/// The lowest position at which a trailing record is searched for: a record
/// cannot start more than `MAX_EOCD_SIZE` bytes before the end.
pub open spec fn scan_floor(len: int) -> int {
    if len > MAX_EOCD_SIZE {
        len - MAX_EOCD_SIZE
    } else {
        0
    }
}

/// `i` is the last position in `lo..=hi` that holds `sig`.
pub open spec fn is_last_signature(s: Seq<u8>, sig: u32, lo: int, hi: int, i: int) -> bool {
    &&& lo <= i <= hi
    &&& signature_at(s, i, sig)
    &&& forall|j: int| i < j <= hi ==> !#[trigger] signature_at(s, j, sig)
}

/// No position in `lo..=hi` holds `sig`.
pub open spec fn no_signature_in(s: Seq<u8>, sig: u32, lo: int, hi: int) -> bool {
    forall|j: int| lo <= j <= hi ==> !#[trigger] signature_at(s, j, sig)
}

/// What a backward search for a record of `record_size` bytes ending the
/// buffer `s` finds: the position of its last signature, `InvalidFormat` for
/// a buffer shorter than the record, `SignatureNotFound` otherwise.
pub open spec fn trailing_record_search(s: Seq<u8>, sig: u32, record_size: int, r: Result<usize, ParseError>) -> bool {
    if s.len() < record_size {
        r == Err::<usize, ParseError>(ParseError::InvalidFormat)
    } else {
        match r {
            Ok(i) => is_last_signature(s, sig, scan_floor(s.len() as int), s.len() - record_size, i as int),
            Err(e) => e == ParseError::SignatureNotFound
                && no_signature_in(s, sig, scan_floor(s.len() as int), s.len() - record_size),
        }
    }
}

/// Searches `data[lo..=hi]` from the end for `sig`.
fn rfind_signature(data: &[u8], sig: u32, lo: usize, hi: usize) -> (r: Option<usize>)
    requires
        lo <= hi,
        hi + 4 <= data.len(),
    ensures
        match r {
            Some(i) => is_last_signature(data@, sig, lo as int, hi as int, i as int),
            None => no_signature_in(data@, sig, lo as int, hi as int),
        },
{
    let mut i = hi;
    loop
        invariant
            lo <= i <= hi,
            hi + 4 <= data.len(),
            forall|j: int| i < j <= hi ==> !#[trigger] signature_at(data@, j, sig),
        decreases i,
    {
        if read_u32(data, i) == sig {
            return Some(i);
        }
        if i == lo {
            return None;
        }
        i = i - 1;
    }
}

/// Finds the end-of-central-directory record in a buffer that holds the end
/// of an archive: the last `PK\x05\x06` that leaves room for the fixed part
/// of the record, searched no further back than the longest comment allows.
pub fn find_eocd_offset(data: &[u8]) -> (r: Result<usize, ParseError>)
    ensures
        trailing_record_search(data@, EOCD_SIGNATURE, MIN_EOCD_SIZE as int, r),
{
    let len = data.len();
    if len < MIN_EOCD_SIZE {
        return Err(ParseError::InvalidFormat);
    }
    let scan_limit = if len > MAX_EOCD_SIZE { len - MAX_EOCD_SIZE } else { 0 };
    let start_pos = len - MIN_EOCD_SIZE;
    match rfind_signature(data, EOCD_SIGNATURE, scan_limit, start_pos) {
        Some(i) => Ok(i),
        None => Err(ParseError::SignatureNotFound),
    }
}

/// Finds the zip64 end-of-central-directory locator in a buffer that holds
/// the end of an archive, searched the same way as the end record.
pub fn find_zip64_locator(data: &[u8]) -> (r: Result<usize, ParseError>)
    ensures
        trailing_record_search(data@, ZIP64_EOCD_LOCATOR_SIGNATURE, ZIP64_LOCATOR_SIZE as int, r),
{
    let len = data.len();
    if len < ZIP64_LOCATOR_SIZE {
        return Err(ParseError::InvalidFormat);
    }
    let scan_limit = if len > MAX_EOCD_SIZE { len - MAX_EOCD_SIZE } else { 0 };
    let start_pos = len - ZIP64_LOCATOR_SIZE;
    match rfind_signature(data, ZIP64_EOCD_LOCATOR_SIGNATURE, scan_limit, start_pos) {
        Some(i) => Ok(i),
        None => Err(ParseError::SignatureNotFound),
    }
}

/// The end-of-central-directory record whose fixed part starts `s`.
pub open spec fn eocd_describes(r: EocdRecord, s: Seq<u8>) -> bool {
    &&& r.disk_number == le_u16(s, 4)
    &&& r.disk_with_cd == le_u16(s, 6)
    &&& r.cd_records_on_disk == le_u16(s, 8)
    &&& r.total_cd_records == le_u16(s, 10)
    &&& r.cd_size == le_u32(s, 12)
    &&& r.cd_offset == le_u32(s, 16)
    &&& r.comment_length == le_u16(s, 20)
}

/// Reads the fields of the end-of-central-directory record at the start of
/// `data`. The signature is not checked again: callers pass the offset that
/// `find_eocd_offset` found.
pub fn parse_eocd(data: &[u8]) -> (r: Result<EocdRecord, ParseError>)
    ensures
        match r {
            Ok(rec) => data@.len() >= MIN_EOCD_SIZE && eocd_describes(rec, data@),
            Err(e) => data@.len() < MIN_EOCD_SIZE && e == ParseError::InvalidFormat,
        },
{
    if data.len() < MIN_EOCD_SIZE {
        return Err(ParseError::InvalidFormat);
    }
    Ok(EocdRecord {
        disk_number: read_u16(data, 4),
        disk_with_cd: read_u16(data, 6),
        cd_records_on_disk: read_u16(data, 8),
        total_cd_records: read_u16(data, 10),
        cd_size: read_u32(data, 12),
        cd_offset: read_u32(data, 16),
        comment_length: read_u16(data, 20),
    })
}

/// The zip64 locator whose bytes start `s`.
pub open spec fn zip64_locator_describes(r: Zip64Locator, s: Seq<u8>) -> bool {
    &&& r.disk_with_zip64_eocd == le_u32(s, 4)
    &&& r.zip64_eocd_offset == le_u64(s, 8)
    &&& r.total_disks == le_u32(s, 16)
}

/// Parses the zip64 end-of-central-directory locator at the start of `data`.
pub fn parse_zip64_locator(data: &[u8]) -> (r: Result<Zip64Locator, ParseError>)
    ensures
        match r {
            Ok(loc) => data@.len() >= ZIP64_LOCATOR_SIZE
                && le_u32(data@, 0) == ZIP64_EOCD_LOCATOR_SIGNATURE
                && zip64_locator_describes(loc, data@),
            Err(e) => if data@.len() < ZIP64_LOCATOR_SIZE {
                e == ParseError::InvalidFormat
            } else {
                le_u32(data@, 0) != ZIP64_EOCD_LOCATOR_SIGNATURE && e == ParseError::SignatureNotFound
            },
        },
{
    if data.len() < ZIP64_LOCATOR_SIZE {
        return Err(ParseError::InvalidFormat);
    }
    if read_u32(data, 0) != ZIP64_EOCD_LOCATOR_SIGNATURE {
        return Err(ParseError::SignatureNotFound);
    }
    Ok(Zip64Locator {
        disk_with_zip64_eocd: read_u32(data, 4),
        zip64_eocd_offset: read_u64(data, 8),
        total_disks: read_u32(data, 16),
    })
}

/// The zip64 end record whose bytes start `s`.
pub open spec fn zip64_eocd_describes(r: Zip64EocdRecord, s: Seq<u8>) -> bool {
    &&& r.total_cd_records == le_u64(s, 32)
    &&& r.cd_size == le_u64(s, 40)
    &&& r.cd_offset == le_u64(s, 48)
}

/// Parses the zip64 end-of-central-directory record at the start of `data`.
pub fn parse_zip64_eocd(data: &[u8]) -> (r: Result<Zip64EocdRecord, ParseError>)
    ensures
        match r {
            Ok(rec) => data@.len() >= ZIP64_EOCD_SIZE
                && le_u32(data@, 0) == ZIP64_EOCD_RECORD_SIGNATURE
                && zip64_eocd_describes(rec, data@),
            Err(e) => if data@.len() < ZIP64_EOCD_SIZE {
                e == ParseError::InvalidFormat
            } else {
                le_u32(data@, 0) != ZIP64_EOCD_RECORD_SIGNATURE && e == ParseError::SignatureNotFound
            },
        },
{
    if data.len() < ZIP64_EOCD_SIZE {
        return Err(ParseError::InvalidFormat);
    }
    if read_u32(data, 0) != ZIP64_EOCD_RECORD_SIGNATURE {
        return Err(ParseError::SignatureNotFound);
    }
    Ok(Zip64EocdRecord {
        total_cd_records: read_u64(data, 32),
        cd_size: read_u64(data, 40),
        cd_offset: read_u64(data, 48),
    })
}

/// A central-directory file header. The name, extra field and comment are
/// borrowed from the bytes it was parsed from.
#[derive(Debug)]
pub struct CentralDirectoryHeader<'a> {
    pub version_made_by: u16,
    pub version_needed: u16,
    pub flags: u16,
    pub compression_method: u16,
    pub last_mod_time: u16,
    pub last_mod_date: u16,
    pub crc32: u32,
    pub compressed_size: u32,
    pub uncompressed_size: u32,
    pub file_name: &'a str,
    pub extra_field: &'a [u8],
    pub file_comment: &'a [u8],
    pub local_header_offset: u32,
}

/// Length of the file name of the header that starts `s`.
pub open spec fn cdh_name_len(s: Seq<u8>) -> int {
    le_u16(s, 28)
}

/// Length of the extra field of the header that starts `s`.
pub open spec fn cdh_extra_len(s: Seq<u8>) -> int {
    le_u16(s, 30)
}

/// Length of the comment of the header that starts `s`.
pub open spec fn cdh_comment_len(s: Seq<u8>) -> int {
    le_u16(s, 32)
}

/// Bytes taken by the header that starts `s`, variable parts included.
pub open spec fn cdh_total_len(s: Seq<u8>) -> int {
    CDH_FIXED_SIZE + cdh_name_len(s) + cdh_extra_len(s) + cdh_comment_len(s)
}

/// What parsing a central-directory header at the start of `s` gives: its
/// length, or the first check that fails.
pub open spec fn cdh_outcome(s: Seq<u8>) -> Result<int, ParseError> {
    if s.len() < CDH_FIXED_SIZE {
        Err(ParseError::InvalidFormat)
    } else if le_u32(s, 0) != CDH_SIGNATURE {
        Err(ParseError::SignatureNotFound)
    } else if s.len() < cdh_total_len(s) {
        Err(ParseError::InvalidFormat)
    } else if !valid_utf8(s.subrange(CDH_FIXED_SIZE as int, CDH_FIXED_SIZE + cdh_name_len(s))) {
        Err(ParseError::Utf8Error)
    } else {
        Ok(cdh_total_len(s))
    }
}

/// `h` holds the fields of the header that starts `s`.
pub open spec fn cdh_describes(h: CentralDirectoryHeader, s: Seq<u8>) -> bool {
    let name_end = CDH_FIXED_SIZE + cdh_name_len(s);
    let extra_end = name_end + cdh_extra_len(s);
    &&& h.version_made_by == le_u16(s, 4)
    &&& h.version_needed == le_u16(s, 6)
    &&& h.flags == le_u16(s, 8)
    &&& h.compression_method == le_u16(s, 10)
    &&& h.last_mod_time == le_u16(s, 12)
    &&& h.last_mod_date == le_u16(s, 14)
    &&& h.crc32 == le_u32(s, 16)
    &&& h.compressed_size == le_u32(s, 20)
    &&& h.uncompressed_size == le_u32(s, 24)
    &&& h.file_name.spec_bytes() == s.subrange(CDH_FIXED_SIZE as int, name_end)
    &&& h.extra_field@ == s.subrange(name_end, extra_end)
    &&& h.file_comment@ == s.subrange(extra_end, cdh_total_len(s))
    &&& h.local_header_offset == le_u32(s, 42)
}

/// `std::str::from_utf8`: the bytes as a string slice when they are valid
/// UTF-8, as the standard library documents; `None` otherwise.
#[verifier::external_body]
fn str_from_utf8<'a>(bytes: &'a [u8]) -> (r: Option<&'a str>)
    ensures
        r is Some <==> valid_utf8(bytes@),
        r matches Some(s) ==> s.spec_bytes() == bytes@,
{
    std::str::from_utf8(bytes).ok()
}

/// Parses the central-directory file header at the start of `data` and
/// returns it with the number of bytes it takes.
pub fn parse_central_directory_header<'a>(data: &'a [u8]) -> (r: Result<(CentralDirectoryHeader<'a>, usize), ParseError>)
    ensures
        match (r, cdh_outcome(data@)) {
            (Ok((h, n)), Ok(len)) => n == len && cdh_describes(h, data@),
            (Err(e), Err(e2)) => e == e2,
            _ => false,
        },
{
    if data.len() < CDH_FIXED_SIZE {
        return Err(ParseError::InvalidFormat);
    }
    if read_u32(data, 0) != CDH_SIGNATURE {
        return Err(ParseError::SignatureNotFound);
    }
    let file_name_len = read_u16(data, 28) as usize;
    let extra_field_len = read_u16(data, 30) as usize;
    let file_comment_len = read_u16(data, 32) as usize;

    let name_end = CDH_FIXED_SIZE + file_name_len;
    let extra_end = name_end + extra_field_len;
    if data.len() < extra_end || data.len() - extra_end < file_comment_len {
        return Err(ParseError::InvalidFormat);
    }
    let total_len = extra_end + file_comment_len;

    let file_name = match str_from_utf8(&data[CDH_FIXED_SIZE..name_end]) {
        Some(name) => name,
        None => return Err(ParseError::Utf8Error),
    };
    let extra_field = &data[name_end..extra_end];
    let file_comment = &data[extra_end..total_len];

    let header = CentralDirectoryHeader {
        version_made_by: read_u16(data, 4),
        version_needed: read_u16(data, 6),
        flags: read_u16(data, 8),
        compression_method: read_u16(data, 10),
        last_mod_time: read_u16(data, 12),
        last_mod_date: read_u16(data, 14),
        crc32: read_u32(data, 16),
        compressed_size: read_u32(data, 20),
        uncompressed_size: read_u32(data, 24),
        file_name,
        extra_field,
        file_comment,
        local_header_offset: read_u32(data, 42),
    };
    Ok((header, total_len))
}

/// Where the successive headers of a central directory start, when at most
/// `k` of them are read: reading stops after `k` headers or at the end of the
/// data, and the first header that fails to parse fails the whole walk.
pub open spec fn cd_walk(s: Seq<u8>, k: nat) -> Result<Seq<int>, ParseError>
    decreases k,
{
    if k == 0 || s.len() == 0 {
        Ok(Seq::<int>::empty())
    } else {
        match cdh_outcome(s) {
            Err(e) => Err(e),
            Ok(n) => match cd_walk(s.skip(n), (k - 1) as nat) {
                Err(e) => Err(e),
                Ok(rest) => Ok(seq![0int] + rest.map_values(|o: int| o + n)),
            },
        }
    }
}

/// Parses up to `total_records` consecutive central-directory headers from
/// `cd_data`, stopping early when the data runs out.
pub fn iterate_central_directory<'a>(cd_data: &'a [u8], total_records: u16) -> (r: Result<Vec<CentralDirectoryHeader<'a>>, ParseError>)
    ensures
        match (r, cd_walk(cd_data@, total_records as nat)) {
            (Ok(hs), Ok(offsets)) => hs@.len() == offsets.len() && forall|i: int|
                0 <= i < offsets.len() ==> 0 <= #[trigger] offsets[i] <= cd_data@.len()
                    && cdh_describes(hs@[i], cd_data@.skip(offsets[i])),
            (Err(e), Err(e2)) => e == e2,
            _ => false,
        },
{
    let mut headers: Vec<CentralDirectoryHeader<'a>> = Vec::new();
    let mut pos: usize = 0;
    let mut count: u16 = 0;
    let ghost mut offsets: Seq<int> = Seq::empty();
    proof {
        assert(cd_data@.skip(0) =~= cd_data@);
        match cd_walk(cd_data@, total_records as nat) {
            Ok(all) => {
                assert(offsets + all.map_values(|o: int| o + 0) =~= all);
            },
            Err(_) => {},
        }
    }
    while count < total_records
        invariant
            count <= total_records,
            pos <= cd_data@.len(),
            headers@.len() == offsets.len(),
            forall|i: int|
                0 <= i < offsets.len() ==> 0 <= #[trigger] offsets[i] <= cd_data@.len()
                    && cdh_describes(headers@[i], cd_data@.skip(offsets[i])),
            cd_walk(cd_data@, total_records as nat) == match cd_walk(cd_data@.skip(pos as int), (total_records - count) as nat) {
                Err(e) => Err(e),
                Ok(rest) => Ok(offsets + rest.map_values(|o: int| o + pos)),
            },
        ensures
            pos <= cd_data@.len(),
            headers@.len() == offsets.len(),
            forall|i: int|
                0 <= i < offsets.len() ==> 0 <= #[trigger] offsets[i] <= cd_data@.len()
                    && cdh_describes(headers@[i], cd_data@.skip(offsets[i])),
            cd_walk(cd_data@, total_records as nat) == match cd_walk(cd_data@.skip(pos as int), (total_records - count) as nat) {
                Err(e) => Err(e),
                Ok(rest) => Ok(offsets + rest.map_values(|o: int| o + pos)),
            },
            cd_walk(cd_data@.skip(pos as int), (total_records - count) as nat) == Ok::<Seq<int>, ParseError>(Seq::<int>::empty()),
        decreases total_records - count,
    {
        let rest = &cd_data[pos..cd_data.len()];
        assert(rest@ == cd_data@.skip(pos as int));
        if rest.len() == 0 {
            break;
        }
        let (header, bytes_read) = parse_central_directory_header(rest)?;
        proof {
            let k = (total_records - count) as nat;
            let tail = cd_walk(cd_data@.skip(pos + bytes_read), (k - 1) as nat);
            assert(cd_data@.skip(pos as int).skip(bytes_read as int) =~= cd_data@.skip(pos + bytes_read));
            match tail {
                Ok(r2) => {
                    assert((seq![0int] + r2.map_values(|o: int| o + bytes_read)).map_values(|o: int| o + pos)
                        =~= seq![pos as int] + r2.map_values(|o: int| o + (pos + bytes_read)));
                    assert(offsets + (seq![0int] + r2.map_values(|o: int| o + bytes_read)).map_values(|o: int| o + pos)
                        =~= offsets.push(pos as int) + r2.map_values(|o: int| o + (pos + bytes_read)));
                },
                Err(_) => {},
            }
            offsets = offsets.push(pos as int);
        }
        headers.push(header);
        pos = pos + bytes_read;
        count = count + 1;
    }
    proof {
        let rest_walk = cd_walk(cd_data@.skip(pos as int), (total_records - count) as nat);
        assert(rest_walk == Ok::<Seq<int>, ParseError>(Seq::<int>::empty()));
        assert(offsets + Seq::<int>::empty().map_values(|o: int| o + pos) =~= offsets);
    }
    Ok(headers)
}

/// The value a central-directory header stores in a 32-bit size or offset
/// field when the real value lives in the zip64 extra field.
pub const ZIP64_SENTINEL: u32 = 0xFFFF_FFFF;
/// Header id of the zip64 extended-information block of an extra field.
pub const ZIP64_EXTRA_ID: u16 = 0x0001;

/// The sizes and offset of an entry once the zip64 extra field is taken
/// into account.
#[derive(Debug, Clone, Copy, PartialEq, Eq, Structural)]
pub struct Extent {
    pub uncompressed_size: u64,
    pub compressed_size: u64,
    pub local_header_offset: u64,
}

/// The data of the first zip64 extended-information block of an extra
/// field. The field is a run of blocks, each a 16-bit id, a 16-bit length
/// and that many bytes; a block that claims more bytes than remain ends the
/// run.
pub open spec fn zip64_block(extra: Seq<u8>) -> Option<Seq<u8>>
    decreases extra.len(),
{
    if extra.len() < 4 {
        None
    } else {
        let size = le_u16(extra, 2);
        if 4 + size > extra.len() {
            None
        } else if le_u16(extra, 0) == ZIP64_EXTRA_ID {
            Some(extra.subrange(4, 4 + size))
        } else {
            zip64_block(extra.skip(4 + size))
        }
    }
}

/// One field of the extent: a sentinel header value is replaced by the
/// next 64-bit value of the zip64 block when the block still holds one,
/// which consumes those eight bytes. Returns the value and the next position.
pub open spec fn resolve_field(header_value: int, block: Seq<u8>, pos: int) -> (int, int) {
    if header_value == ZIP64_SENTINEL && pos + 8 <= block.len() {
        (le_u64(block, pos), pos + 8)
    } else {
        (header_value, pos)
    }
}

/// The extent of an entry whose header holds the given 32-bit fields and
/// extra field. The zip64 block lists only the overflowed fields, in the
/// order uncompressed size, compressed size, local header offset.
pub open spec fn extent_of(uncompressed: int, compressed: int, offset: int, extra: Seq<u8>) -> (int, int, int) {
    match zip64_block(extra) {
        None => (uncompressed, compressed, offset),
        Some(block) => {
            let (u, p1) = resolve_field(uncompressed, block, 0);
            let (c, p2) = resolve_field(compressed, block, p1);
            let (o, _p3) = resolve_field(offset, block, p2);
            (u, c, o)
        },
    }
}

/// The extent of the entry that `h` describes.
pub open spec fn spec_extent(h: CentralDirectoryHeader) -> (int, int, int) {
    extent_of(h.uncompressed_size as int, h.compressed_size as int, h.local_header_offset as int, h.extra_field@)
}

/// Finds the zip64 block of an extra field.
fn find_zip64_block<'a>(extra: &'a [u8]) -> (r: Option<&'a [u8]>)
    ensures
        match (r, zip64_block(extra@)) {
            (Some(b), Some(sb)) => b@ == sb,
            (None, None) => true,
            _ => false,
        },
{
    let mut pos: usize = 0;
    assert(extra@.skip(0) =~= extra@);
    loop
        invariant
            pos <= extra@.len(),
            zip64_block(extra@) == zip64_block(extra@.skip(pos as int)),
        decreases extra@.len() - pos,
    {
        let ghost rest = extra@.skip(pos as int);
        if extra.len() - pos < 4 {
            return None;
        }
        let id = read_u16(extra, pos);
        let size = read_u16(extra, pos + 2) as usize;
        assert(le_u16(rest, 0) == id && le_u16(rest, 2) == size);
        if extra.len() - pos - 4 < size {
            return None;
        }
        if id == ZIP64_EXTRA_ID {
            let block = &extra[pos + 4..pos + 4 + size];
            assert(block@ =~= rest.subrange(4, 4 + size));
            return Some(block);
        }
        assert(rest.skip(4 + size) =~= extra@.skip(pos + 4 + size));
        pos = pos + 4 + size;
    }
}

/// One step of `spec_extent`, on a real block.
fn resolve_field_exec(header_value: u32, block: &[u8], pos: usize) -> (r: (u64, usize))
    requires
        pos <= block@.len(),
    ensures
        r.0 == resolve_field(header_value as int, block@, pos as int).0,
        r.1 == resolve_field(header_value as int, block@, pos as int).1,
        r.1 <= block@.len(),
{
    if header_value == ZIP64_SENTINEL && block.len() - pos >= 8 {
        (read_u64(block, pos), pos + 8)
    } else {
        (header_value as u64, pos)
    }
}

impl<'a> CentralDirectoryHeader<'a> {
    /// The entry's real sizes and local header offset: each 32-bit field
    /// that holds the sentinel `0xFFFF_FFFF` is read from the zip64 extra
    /// field instead, and the fields that fit keep their header values.
    pub fn extent(&self) -> (r: Extent)
        ensures
            r.uncompressed_size == spec_extent(*self).0,
            r.compressed_size == spec_extent(*self).1,
            r.local_header_offset == spec_extent(*self).2,
    {
        match find_zip64_block(self.extra_field) {
            None => Extent {
                uncompressed_size: self.uncompressed_size as u64,
                compressed_size: self.compressed_size as u64,
                local_header_offset: self.local_header_offset as u64,
            },
            Some(block) => {
                let (uncompressed_size, p1) = resolve_field_exec(self.uncompressed_size, block, 0);
                let (compressed_size, p2) = resolve_field_exec(self.compressed_size, block, p1);
                let (local_header_offset, _p3) = resolve_field_exec(self.local_header_offset, block, p2);
                Extent { uncompressed_size, compressed_size, local_header_offset }
            },
        }
    }
}

/// Law: a size or offset that fits in 32 bits keeps its header value,
/// whatever the extra field holds.
pub proof fn law_extent_keeps_fitting_fields(h: CentralDirectoryHeader)
    ensures
        h.uncompressed_size != ZIP64_SENTINEL ==> spec_extent(h).0 == h.uncompressed_size,
        h.compressed_size != ZIP64_SENTINEL ==> spec_extent(h).1 == h.compressed_size,
        h.local_header_offset != ZIP64_SENTINEL ==> spec_extent(h).2 == h.local_header_offset,
{
}

/// Law: without a zip64 block, the header values are the extent.
pub proof fn law_extent_without_zip64_block(h: CentralDirectoryHeader)
    requires
        zip64_block(h.extra_field@) is None,
    ensures
        spec_extent(h) == (h.uncompressed_size as int, h.compressed_size as int, h.local_header_offset as int),
{
}

/// Law: the zip64 block lists the overflowed fields in order, so the
/// sentinelled fields take its successive 64-bit values whenever the block
/// holds one value for each of them.
pub proof fn law_extent_sentinels_in_order(h: CentralDirectoryHeader, block: Seq<u8>)
    requires
        zip64_block(h.extra_field@) == Some(block),
        block.len() >= 8 * ((if h.uncompressed_size == ZIP64_SENTINEL { 1int } else { 0 })
            + (if h.compressed_size == ZIP64_SENTINEL { 1int } else { 0 })
            + (if h.local_header_offset == ZIP64_SENTINEL { 1int } else { 0 })),
    ensures
        h.uncompressed_size == ZIP64_SENTINEL ==> spec_extent(h).0 == le_u64(block, 0),
        h.compressed_size == ZIP64_SENTINEL ==> spec_extent(h).1 == le_u64(
            block,
            if h.uncompressed_size == ZIP64_SENTINEL { 8 } else { 0 },
        ),
        h.local_header_offset == ZIP64_SENTINEL ==> spec_extent(h).2 == le_u64(
            block,
            (if h.uncompressed_size == ZIP64_SENTINEL { 8int } else { 0 })
                + (if h.compressed_size == ZIP64_SENTINEL { 8int } else { 0 }),
        ),
{
}

/// Law: a central directory walk reads no more headers than it was asked
/// for, and each header starts inside the data, after the one before.
pub proof fn law_cd_walk_bounded(s: Seq<u8>, k: nat)
    ensures
        cd_walk(s, k) matches Ok(offsets) ==> {
            &&& offsets.len() <= k
            &&& forall|i: int| 0 <= i < offsets.len() ==> 0 <= #[trigger] offsets[i] < s.len()
            &&& forall|i: int, j: int| 0 <= i < j < offsets.len() ==> #[trigger] offsets[i] < #[trigger] offsets[j]
        },
    decreases k,
{
    if k > 0 && s.len() > 0 {
        if let Ok(n) = cdh_outcome(s) {
            let rest = s.skip(n);
            law_cd_walk_bounded(rest, (k - 1) as nat);
            if let Ok(r) = cd_walk(rest, (k - 1) as nat) {
                let offsets = seq![0int] + r.map_values(|o: int| o + n);
                assert(n >= CDH_FIXED_SIZE);
                assert forall|i: int| 0 <= i < offsets.len() implies 0 <= #[trigger] offsets[i] < s.len() by {
                    if i > 0 {
                        assert(offsets[i] == r[i - 1] + n);
                    }
                }
                assert forall|i: int, j: int| 0 <= i < j < offsets.len() implies #[trigger] offsets[i] < #[trigger] offsets[j] by {
                    assert(offsets[j] == r[j - 1] + n);
                    if i > 0 {
                        assert(offsets[i] == r[i - 1] + n);
                    }
                }
            }
        }
    }
}

/// The bytes a central-directory header at `o` in `s` takes: the 46 fixed
/// bytes, then its name, extra field and comment, whose lengths sit at
/// bytes 28, 30 and 32 of the header.
pub open spec fn header_span(s: Seq<u8>, o: int) -> int {
    46 + (s[o + 28] + 256 * s[o + 29]) + (s[o + 30] + 256 * s[o + 31]) + (s[o + 32] + 256 * s[o + 33])
}

/// Law: a central directory walk reads consecutive headers. The first
/// starts at the beginning; each starts with the header signature and ends
/// inside the data; the next one starts exactly where it ends, after its
/// name, extra field and comment; and a walk that stops before reading the
/// headers it was asked for has used up the data.
pub proof fn law_cd_walk_contiguous(s: Seq<u8>, k: nat)
    ensures
        cd_walk(s, k) matches Ok(offs) ==> {
            &&& offs.len() > 0 ==> offs[0] == 0
            &&& forall|i: int| #![trigger offs[i]] 0 <= i < offs.len() ==> {
                &&& 0 <= offs[i]
                &&& offs[i] + header_span(s, offs[i]) <= s.len()
                &&& s[offs[i]] == 0x50 && s[offs[i] + 1] == 0x4b && s[offs[i] + 2] == 0x01 && s[offs[i] + 3] == 0x02
            }
            &&& forall|i: int| #![trigger offs[i]] 0 <= i < offs.len() - 1
                ==> offs[i + 1] == offs[i] + header_span(s, offs[i])
            &&& offs.len() < k ==> (if offs.len() == 0 {
                s.len() == 0
            } else {
                offs[offs.len() - 1] + header_span(s, offs[offs.len() - 1]) == s.len()
            })
        },
    decreases k,
{
    if k > 0 && s.len() > 0 {
        if let Ok(n) = cdh_outcome(s) {
            let rest = s.skip(n);
            law_cd_walk_contiguous(rest, (k - 1) as nat);
            if let Ok(r) = cd_walk(rest, (k - 1) as nat) {
                let offs = seq![0int] + r.map_values(|o: int| o + n);
                assert(cd_walk(s, k) == Ok::<Seq<int>, ParseError>(offs));
                assert(n == header_span(s, 0));
                assert(le_u32(s, 0) == CDH_SIGNATURE);
                lemma_signature_bytes(s, 0);
                assert forall|i: int| 1 <= i < offs.len() implies {
                    &&& offs[i] == r[i - 1] + n
                    &&& header_span(s, offs[i]) == header_span(rest, r[i - 1])
                    &&& s[offs[i]] == rest[r[i - 1]]
                    &&& s[offs[i] + 1] == rest[r[i - 1] + 1]
                    &&& s[offs[i] + 2] == rest[r[i - 1] + 2]
                    &&& s[offs[i] + 3] == rest[r[i - 1] + 3]
                } by {
                    let o = r[i - 1];
                    assert(offs[i] == o + n);
                    assert(0 <= o && o + header_span(rest, o) <= rest.len());
                    assert(forall|j: int| 0 <= j < rest.len() ==> rest[j] == s[j + n]);
                    assert(rest[o + 28] == s[o + n + 28]);
                    assert(rest[o + 29] == s[o + n + 29]);
                    assert(rest[o + 30] == s[o + n + 30]);
                    assert(rest[o + 31] == s[o + n + 31]);
                    assert(rest[o + 32] == s[o + n + 32]);
                    assert(rest[o + 33] == s[o + n + 33]);
                }
                assert forall|i: int| #![trigger offs[i]] 0 <= i < offs.len() implies {
                    &&& 0 <= offs[i]
                    &&& offs[i] + header_span(s, offs[i]) <= s.len()
                    &&& s[offs[i]] == 0x50 && s[offs[i] + 1] == 0x4b && s[offs[i] + 2] == 0x01 && s[offs[i] + 3] == 0x02
                } by {
                    if i > 0 {
                        assert(r[i - 1] == r[i - 1]);
                    }
                }
                assert forall|i: int| #![trigger offs[i]] 0 <= i < offs.len() - 1
                    implies offs[i + 1] == offs[i] + header_span(s, offs[i]) by {
                    if i > 0 {
                        assert(r[i] == r[i - 1] + header_span(rest, r[i - 1]));
                    } else {
                        assert(r[0] == 0);
                    }
                }
                if offs.len() < k {
                    if r.len() == 0 {
                        assert(rest.len() == 0);
                    } else {
                        let m = r.len() - 1;
                        assert(offs[offs.len() - 1] == r[m] + n);
                    }
                }
            }
        }
    }
}

/// The header signature `PK\x01\x02`, byte by byte.
proof fn lemma_signature_bytes(s: Seq<u8>, o: int)
    requires
        0 <= o,
        o + 4 <= s.len(),
        le_u32(s, o) == CDH_SIGNATURE,
    ensures
        s[o] == 0x50 && s[o + 1] == 0x4b && s[o + 2] == 0x01 && s[o + 3] == 0x02,
{
    let (a, b, c, d) = (s[o], s[o + 1], s[o + 2], s[o + 3]);
    assert(a + 256 * b + 65536 * (c + 256 * d) == 0x0201_4b50int ==> a == 0x50 && b == 0x4b && c == 0x01 && d == 0x02)
        by (nonlinear_arith)
        requires
            0 <= a < 256, 0 <= b < 256, 0 <= c < 256, 0 <= d < 256,
    ;
}

} // verus!

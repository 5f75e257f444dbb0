//! Opening an archive and planning the extraction of one of its members.
//!
//! Opening takes up to three ranged reads, each planned here from the bytes
//! of the one before: the tail of the archive, which holds the
//! end-of-central-directory record; the zip64 end record, when the 32-bit
//! central-directory offset overflowed; and the central directory itself,
//! which becomes the list of file entries. Extraction reads the member's
//! local header, then streams the payload that follows it.
use vstd::prelude::*;
use vstd::string::StringSliceAdditionalSpecFns;
use crate::bytes::{le_u16, le_u32, le_u64, read_u16, read_u32};
use crate::parser::{
    cd_walk, cdh_comment_len, cdh_extra_len, cdh_name_len, cdh_total_len, extent_of,
    find_eocd_offset, find_zip64_locator, is_last_signature, iterate_central_directory,
    no_signature_in, parse_central_directory_header, parse_eocd, parse_zip64_eocd,
    parse_zip64_locator, scan_floor, signature_at, spec_extent, trailing_record_search,
    CentralDirectoryHeader, ParseError, CDH_FIXED_SIZE, EOCD_SIGNATURE, MAX_EOCD_SIZE,
    MIN_EOCD_SIZE, ZIP64_EOCD_LOCATOR_SIGNATURE, ZIP64_EOCD_SIZE, ZIP64_LOCATOR_SIZE,
    ZIP64_SENTINEL,
};

verus! {

broadcast use vstd::slice::group_slice_axioms;

/// One member of an archive, as its central-directory header describes it.
#[derive(Debug, Clone)]
pub struct FileEntry {
    pub name: String,
    pub size: u64,
    pub compressed_size: u64,
    pub compression_method: u16,
    pub offset: u64,
}

/// A ranged read: `len` bytes from `start`.
#[derive(Debug, Clone, Copy, PartialEq, Eq, Structural)]
pub struct ReadRange {
    pub start: u64,
    pub len: u64,
}

/// Why an archive could not be opened.
#[derive(Debug, Clone, Copy, PartialEq, Eq, Structural)]
pub enum OpenError {
    EocdNotFound,
    EocdInvalid,
    Zip64LocatorNotFound,
    Zip64LocatorInvalid,
    Zip64EocdInvalid,
    CentralDirectoryInvalid,
}

/// Where the central directory is, as the end of the archive tells it.
#[derive(Debug, Clone, Copy, PartialEq, Eq, Structural)]
pub enum CentralDirectoryLocation {
    /// The end record gives the directory's offset and size directly.
    At(ReadRange),
    /// The offset overflowed: the zip64 end record, read from this range,
    /// gives the directory's offset and size.
    Zip64Record(ReadRange),
}

/// What the tail of an archive says about its central directory.
#[derive(Debug, Clone, Copy, PartialEq, Eq, Structural)]
pub struct DirectoryPlan {
    /// The number of headers the end record announces.
    pub total_records: u16,
    pub location: CentralDirectoryLocation,
}

/// The bytes of the last record of `record_size` bytes that starts with
/// `sig` in the search window of `s`, if there is one.
pub open spec fn trailing_position(s: Seq<u8>, sig: u32, record_size: int) -> Option<int> {
    if s.len() >= record_size && exists|i: int|
        #[trigger] is_last_signature(s, sig, scan_floor(s.len() as int), s.len() - record_size, i) {
        Some(choose|i: int| #[trigger] is_last_signature(s, sig, scan_floor(s.len() as int), s.len() - record_size, i))
    } else {
        None
    }
}

/// At most one position is the last one that holds a signature.
proof fn lemma_last_signature_unique(s: Seq<u8>, sig: u32, lo: int, hi: int, i: int, j: int)
    requires
        is_last_signature(s, sig, lo, hi, i),
        is_last_signature(s, sig, lo, hi, j),
    ensures
        i == j,
{
    if i < j {
        assert(signature_at(s, j, sig));
    } else if j < i {
        assert(signature_at(s, i, sig));
    }
}

/// The result of a backward search is the trailing position.
proof fn lemma_search_is_position(s: Seq<u8>, sig: u32, record_size: int, r: Result<usize, ParseError>)
    requires
        record_size >= 4,
        trailing_record_search(s, sig, record_size, r),
    ensures
        match r {
            Ok(i) => trailing_position(s, sig, record_size) == Some(i as int),
            Err(_) => trailing_position(s, sig, record_size) is None,
        },
{
    let lo = scan_floor(s.len() as int);
    let hi = s.len() - record_size;
    match r {
        Ok(i) => {
            assert(is_last_signature(s, sig, lo, hi, i as int));
            let c = choose|k: int| #[trigger] is_last_signature(s, sig, lo, hi, k);
            lemma_last_signature_unique(s, sig, lo, hi, i as int, c);
        },
        Err(_) => {
            if s.len() >= record_size && exists|k: int| #[trigger] is_last_signature(s, sig, lo, hi, k) {
                let k = choose|k: int| #[trigger] is_last_signature(s, sig, lo, hi, k);
                assert(no_signature_in(s, sig, lo, hi));
                assert(signature_at(s, k, sig));
            }
        },
    }
}

/// The range to read first: the end of the archive, long enough to hold an
/// end record with the longest comment.
pub open spec fn spec_tail_range(file_size: u64) -> ReadRange {
    let start = if file_size > MAX_EOCD_SIZE { file_size - MAX_EOCD_SIZE } else { 0 };
    ReadRange { start: start as u64, len: (file_size - start) as u64 }
}

/// What the tail of an archive says about its central directory, or why it
/// cannot be read. The zip64 locator is searched in the same tail.
pub open spec fn spec_locate(tail: Seq<u8>) -> Result<DirectoryPlan, OpenError> {
    match trailing_position(tail, EOCD_SIGNATURE, MIN_EOCD_SIZE as int) {
        None => Err(OpenError::EocdNotFound),
        Some(e) => {
            let total_records = le_u16(tail, e + 10) as u16;
            if le_u32(tail, e + 16) == ZIP64_SENTINEL {
                match trailing_position(tail, ZIP64_EOCD_LOCATOR_SIGNATURE, ZIP64_LOCATOR_SIZE as int) {
                    None => Err(OpenError::Zip64LocatorNotFound),
                    Some(l) => Ok(DirectoryPlan {
                        total_records,
                        location: CentralDirectoryLocation::Zip64Record(
                            ReadRange { start: le_u64(tail, l + 8) as u64, len: ZIP64_EOCD_SIZE as u64 },
                        ),
                    }),
                }
            } else {
                Ok(DirectoryPlan {
                    total_records,
                    location: CentralDirectoryLocation::At(
                        ReadRange { start: le_u32(tail, e + 16) as u64, len: le_u32(tail, e + 12) as u64 },
                    ),
                })
            }
        },
    }
}

/// The entry that the central-directory header at the start of `s`
/// describes.
pub open spec fn entry_describes(e: FileEntry, s: Seq<u8>) -> bool {
    let name_end = CDH_FIXED_SIZE + cdh_name_len(s);
    let ext = extent_of(le_u32(s, 24), le_u32(s, 20), le_u32(s, 42), s.subrange(name_end, name_end + cdh_extra_len(s)));
    &&& vstd::utf8::encode_utf8(e.name@) == s.subrange(CDH_FIXED_SIZE as int, name_end)
    &&& e.size == ext.0
    &&& e.compressed_size == ext.1
    &&& e.compression_method == le_u16(s, 10)
    &&& e.offset == ext.2
}

/// The entries of a central directory of which at most `total_records`
/// headers are read, or `CentralDirectoryInvalid` when a header fails to
/// parse.
pub open spec fn entries_match(entries: Seq<FileEntry>, cd: Seq<u8>, total_records: u16) -> bool {
    match cd_walk(cd, total_records as nat) {
        Ok(offsets) => entries.len() == offsets.len() && forall|i: int|
            0 <= i < offsets.len() ==> 0 <= #[trigger] offsets[i] <= cd.len()
                && entry_describes(entries[i], cd.skip(offsets[i])),
        Err(_) => false,
    }
}

impl OpenError {
    /// The message the error is reported with.
    pub fn message(&self) -> (r: &'static str)
        ensures
            r@ == (match self {
                OpenError::EocdNotFound => "Failed to find EOCD signature."@,
                OpenError::EocdInvalid => "Failed to parse EOCD"@,
                OpenError::Zip64LocatorNotFound => "Failed to find ZIP64 locator"@,
                OpenError::Zip64LocatorInvalid => "Failed to parse ZIP64 locator"@,
                OpenError::Zip64EocdInvalid => "Failed to parse ZIP64 EOCD"@,
                OpenError::CentralDirectoryInvalid => "Failed to parse central directory"@,
            }),
    {
        match self {
            OpenError::EocdNotFound => "Failed to find EOCD signature.",
            OpenError::EocdInvalid => "Failed to parse EOCD",
            OpenError::Zip64LocatorNotFound => "Failed to find ZIP64 locator",
            OpenError::Zip64LocatorInvalid => "Failed to parse ZIP64 locator",
            OpenError::Zip64EocdInvalid => "Failed to parse ZIP64 EOCD",
            OpenError::CentralDirectoryInvalid => "Failed to parse central directory",
        }
    }
}

/// The first range to read when opening an archive of `file_size` bytes:
/// its last 65557 bytes, or all of it when it is shorter.
pub fn tail_range(file_size: u64) -> (r: ReadRange)
    ensures
        r == spec_tail_range(file_size),
        r.start + r.len == file_size,
{
    let start = if file_size > MAX_EOCD_SIZE as u64 { file_size - MAX_EOCD_SIZE as u64 } else { 0 };
    ReadRange { start, len: file_size - start }
}

/// Reads the tail of an archive: finds the end record and says where the
/// central directory is, or where the zip64 end record that says it is.
pub fn locate_central_directory(tail: &[u8]) -> (r: Result<DirectoryPlan, OpenError>)
    ensures
        r == spec_locate(tail@),
{
    let eocd_offset = find_eocd_offset(tail);
    proof {
        lemma_search_is_position(tail@, EOCD_SIGNATURE, MIN_EOCD_SIZE as int, eocd_offset);
    }
    let eocd_offset = match eocd_offset {
        Ok(i) => i,
        Err(_) => return Err(OpenError::EocdNotFound),
    };
    let eocd_bytes = &tail[eocd_offset..tail.len()];
    assert(eocd_bytes@ =~= tail@.skip(eocd_offset as int));
    let eocd = match parse_eocd(eocd_bytes) {
        Ok(rec) => rec,
        Err(_) => return Err(OpenError::EocdInvalid),
    };
    if eocd.cd_offset == ZIP64_SENTINEL {
        let locator_offset = find_zip64_locator(tail);
        proof {
            lemma_search_is_position(tail@, ZIP64_EOCD_LOCATOR_SIGNATURE, ZIP64_LOCATOR_SIZE as int, locator_offset);
        }
        let locator_offset = match locator_offset {
            Ok(i) => i,
            Err(_) => return Err(OpenError::Zip64LocatorNotFound),
        };
        let locator_bytes = &tail[locator_offset..tail.len()];
        assert(locator_bytes@ =~= tail@.skip(locator_offset as int));
        let locator = match parse_zip64_locator(locator_bytes) {
            Ok(loc) => loc,
            Err(_) => return Err(OpenError::Zip64LocatorInvalid),
        };
        Ok(DirectoryPlan {
            total_records: eocd.total_cd_records,
            location: CentralDirectoryLocation::Zip64Record(
                ReadRange { start: locator.zip64_eocd_offset, len: ZIP64_EOCD_SIZE as u64 },
            ),
        })
    } else {
        Ok(DirectoryPlan {
            total_records: eocd.total_cd_records,
            location: CentralDirectoryLocation::At(
                ReadRange { start: eocd.cd_offset as u64, len: eocd.cd_size as u64 },
            ),
        })
    }
}

/// Reads the zip64 end record and says where the central directory is.
pub fn zip64_central_directory(record: &[u8]) -> (r: Result<ReadRange, OpenError>)
    ensures
        match r {
            Ok(range) => record@.len() >= ZIP64_EOCD_SIZE
                && le_u32(record@, 0) == crate::parser::ZIP64_EOCD_RECORD_SIGNATURE
                && range.start == le_u64(record@, 48) && range.len == le_u64(record@, 40),
            Err(e) => e == OpenError::Zip64EocdInvalid && (record@.len() < ZIP64_EOCD_SIZE
                || le_u32(record@, 0) != crate::parser::ZIP64_EOCD_RECORD_SIGNATURE),
        },
{
    match parse_zip64_eocd(record) {
        Ok(rec) => Ok(ReadRange { start: rec.cd_offset, len: rec.cd_size }),
        Err(_) => Err(OpenError::Zip64EocdInvalid),
    }
}

/// The entry that a parsed central-directory header describes, with the
/// zip64 extent in place of the 32-bit fields.
pub fn file_entry(h: &CentralDirectoryHeader) -> (e: FileEntry)
    ensures
        e.name@ == h.file_name@,
        e.size == spec_extent(*h).0,
        e.compressed_size == spec_extent(*h).1,
        e.compression_method == h.compression_method,
        e.offset == spec_extent(*h).2,
{
    let extent = h.extent();
    FileEntry {
        name: h.file_name.to_owned(),
        size: extent.uncompressed_size,
        compressed_size: extent.compressed_size,
        compression_method: h.compression_method,
        offset: extent.local_header_offset,
    }
}

/// An archive's entries, in central-directory order.
pub struct ArchiveIndex {
    entries: Vec<FileEntry>,
}

impl View for ArchiveIndex {
    type V = Seq<FileEntry>;

    closed spec fn view(&self) -> Seq<FileEntry> {
        self.entries@
    }
}

impl ArchiveIndex {
    /// Parses the central directory: at most `total_records` headers, fewer
    /// when the data runs out; any header that fails to parse fails the
    /// whole directory.
    pub fn from_central_directory(cd: &[u8], total_records: u16) -> (r: Result<ArchiveIndex, OpenError>)
        ensures
            match r {
                Ok(index) => entries_match(index@, cd@, total_records),
                Err(e) => e == OpenError::CentralDirectoryInvalid && cd_walk(cd@, total_records as nat) is Err,
            },
    {
        let headers = match iterate_central_directory(cd, total_records) {
            Ok(hs) => hs,
            Err(_) => return Err(OpenError::CentralDirectoryInvalid),
        };
        let ghost offsets = cd_walk(cd@, total_records as nat)->Ok_0;
        let mut entries: Vec<FileEntry> = Vec::new();
        let mut i: usize = 0;
        while i < headers.len()
            invariant
                i <= headers@.len(),
                headers@.len() == offsets.len(),
                cd_walk(cd@, total_records as nat) == Ok::<Seq<int>, ParseError>(offsets),
                forall|k: int|
                    0 <= k < offsets.len() ==> 0 <= #[trigger] offsets[k] <= cd@.len()
                        && crate::parser::cdh_describes(headers@[k], cd@.skip(offsets[k])),
                entries@.len() == i,
                forall|k: int| 0 <= k < i ==> entry_describes(#[trigger] entries@[k], cd@.skip(offsets[k])),
            decreases headers@.len() - i,
        {
            let e = file_entry(&headers[i]);
            proof {
                let s = cd@.skip(offsets[i as int]);
                let h = headers@[i as int];
                assert(offsets[i as int] <= cd@.len());
                assert(crate::parser::cdh_describes(h, s));
                vstd::utf8::encode_utf8_decode_utf8(h.file_name@);
            }
            entries.push(e);
            i = i + 1;
        }
        Ok(ArchiveIndex { entries })
    }

    /// The entries, in central-directory order.
    pub fn list_files(&self) -> (r: &[FileEntry])
        ensures
            r@ == self@,
    {
        self.entries.as_slice()
    }

    /// The first entry named `name`.
    pub fn find_entry(&self, name: &str) -> (r: Option<&FileEntry>)
        ensures
            match r {
                Some(e) => exists|i: int| 0 <= i < self@.len() && self@[i] == *e && e.name@ == name@
                    && forall|j: int| 0 <= j < i ==> (#[trigger] self@[j]).name@ != name@,
                None => forall|j: int| 0 <= j < self@.len() ==> (#[trigger] self@[j]).name@ != name@,
            },
    {
        let wanted = name.to_owned();
        let mut i: usize = 0;
        while i < self.entries.len()
            invariant
                i <= self.entries@.len(),
                wanted@ == name@,
                forall|j: int| 0 <= j < i ==> (#[trigger] self.entries@[j]).name@ != name@,
            decreases self.entries@.len() - i,
        {
            if self.entries[i].name == wanted {
                assert(self@[i as int] == self.entries@[i as int] && self@[i as int].name@ == name@);
                return Some(&self.entries[i]);
            }
            i = i + 1;
        }
        None
    }
}

/// `PK\x03\x04`, read as a little-endian `u32`.
pub const LOCAL_HEADER_SIGNATURE: u32 = 0x0403_4b50;
/// Size of the fixed part of a local file header.
pub const LOCAL_HEADER_FIXED_SIZE: usize = 30;
/// Compression method of a member stored as is.
pub const METHOD_STORED: u16 = 0;
/// Compression method of a DEFLATE-compressed member.
pub const METHOD_DEFLATED: u16 = 8;

/// Why a member could not be extracted.
#[derive(Debug, Clone, Copy, PartialEq, Eq, Structural)]
pub enum ExtractError {
    NotFound,
    InvalidLocalHeader,
    UnsupportedCompression(u16),
}

/// How a member's payload is turned back into its contents.
#[derive(Debug, Clone, Copy, PartialEq, Eq, Structural)]
pub enum Decoder {
    Stored,
    Deflate,
}

impl ExtractError {
    /// The message the error is reported with; for an unsupported method
    /// the caller appends the method number.
    pub fn message(&self) -> (r: &'static str)
        ensures
            r@ == (match self {
                ExtractError::NotFound => "File not found in archive"@,
                ExtractError::InvalidLocalHeader => "Invalid Local File Header signature"@,
                ExtractError::UnsupportedCompression(_) => "Unsupported compression: "@,
            }),
    {
        match self {
            ExtractError::NotFound => "File not found in archive",
            ExtractError::InvalidLocalHeader => "Invalid Local File Header signature",
            ExtractError::UnsupportedCompression(_) => "Unsupported compression: ",
        }
    }
}

/// The range that holds the fixed part of the member's local header.
pub fn local_header_range(entry: &FileEntry) -> (r: ReadRange)
    ensures
        r.start == entry.offset,
        r.len == LOCAL_HEADER_FIXED_SIZE,
{
    ReadRange { start: entry.offset, len: LOCAL_HEADER_FIXED_SIZE as u64 }
}

/// Where the payload of a member starts: after the local header, its file
/// name and its extra field, whose lengths the local header gives.
pub open spec fn payload_start(entry: FileEntry, lfh: Seq<u8>) -> int {
    entry.offset + LOCAL_HEADER_FIXED_SIZE + le_u16(lfh, 26) + le_u16(lfh, 28)
}

/// The payload range of a member fits in 64 bits.
pub open spec fn payload_fits(entry: FileEntry, lfh: Seq<u8>) -> bool {
    payload_start(entry, lfh) + entry.compressed_size <= u64::MAX
}

/// Whether `payload_range` can be called on this local header: either the
/// signature is wrong, which it reports, or the payload range fits in 64
/// bits.
pub fn payload_range_computable(entry: &FileEntry, lfh: &[u8]) -> (r: bool)
    requires
        lfh@.len() >= LOCAL_HEADER_FIXED_SIZE,
    ensures
        r == (le_u32(lfh@, 0) == LOCAL_HEADER_SIGNATURE ==> payload_fits(*entry, lfh@)),
{
    if read_u32(lfh, 0) != LOCAL_HEADER_SIGNATURE {
        return true;
    }
    let name_len = read_u16(lfh, 26) as u64;
    let extra_len = read_u16(lfh, 28) as u64;
    entry.offset <= u64::MAX - LOCAL_HEADER_FIXED_SIZE as u64 - name_len - extra_len
        && entry.compressed_size <= u64::MAX - LOCAL_HEADER_FIXED_SIZE as u64 - name_len - extra_len - entry.offset
}

/// Checks the local header of a member and gives the range of its payload:
/// `compressed_size` bytes after the header's variable parts.
pub fn payload_range(entry: &FileEntry, lfh: &[u8]) -> (r: Result<ReadRange, ExtractError>)
    requires
        lfh@.len() >= LOCAL_HEADER_FIXED_SIZE,
        le_u32(lfh@, 0) == LOCAL_HEADER_SIGNATURE ==> payload_fits(*entry, lfh@),
    ensures
        match r {
            Ok(range) => le_u32(lfh@, 0) == LOCAL_HEADER_SIGNATURE
                && range.start == payload_start(*entry, lfh@)
                && range.len == entry.compressed_size,
            Err(e) => le_u32(lfh@, 0) != LOCAL_HEADER_SIGNATURE && e == ExtractError::InvalidLocalHeader,
        },
{
    if read_u32(lfh, 0) != LOCAL_HEADER_SIGNATURE {
        return Err(ExtractError::InvalidLocalHeader);
    }
    let name_len = read_u16(lfh, 26) as u64;
    let extra_len = read_u16(lfh, 28) as u64;
    let start = entry.offset + LOCAL_HEADER_FIXED_SIZE as u64 + name_len + extra_len;
    Ok(ReadRange { start, len: entry.compressed_size })
}

/// The decoder for a compression method: stored and DEFLATE are supported.
pub fn decoder_for(method: u16) -> (r: Result<Decoder, ExtractError>)
    ensures
        method == METHOD_STORED ==> r == Ok::<Decoder, ExtractError>(Decoder::Stored),
        method == METHOD_DEFLATED ==> r == Ok::<Decoder, ExtractError>(Decoder::Deflate),
        method != METHOD_STORED && method != METHOD_DEFLATED
            ==> r == Err::<Decoder, ExtractError>(ExtractError::UnsupportedCompression(method)),
{
    if method == METHOD_STORED {
        Ok(Decoder::Stored)
    } else if method == METHOD_DEFLATED {
        Ok(Decoder::Deflate)
    } else {
        Err(ExtractError::UnsupportedCompression(method))
    }
}

/// Law: opening never lists more entries than the end record announces.
pub proof fn law_entries_bounded(entries: Seq<FileEntry>, cd: Seq<u8>, total_records: u16)
    requires
        entries_match(entries, cd, total_records),
    ensures
        entries.len() <= total_records,
{
    crate::parser::law_cd_walk_bounded(cd, total_records as nat);
}

/// Law: the first read of an archive ends at its end and is long enough for
/// an end record with the longest comment, or is the whole archive.
pub proof fn law_tail_range_covers_end(file_size: u64)
    ensures
        spec_tail_range(file_size).start + spec_tail_range(file_size).len == file_size,
        spec_tail_range(file_size).len == (if file_size < MAX_EOCD_SIZE { file_size as int } else { MAX_EOCD_SIZE as int }),
{
}

/// Law: a member's payload starts after its local header.
pub proof fn law_payload_after_local_header(entry: FileEntry, lfh: Seq<u8>)
    requires
        lfh.len() >= LOCAL_HEADER_FIXED_SIZE,
    ensures
        payload_start(entry, lfh) >= entry.offset + LOCAL_HEADER_FIXED_SIZE,
{
}

/// Law: an end record whose 32-bit central-directory offset is
/// `0xFFFF_FFFF` sends the reader to the zip64 end record (56 bytes) at the
/// 64-bit offset that the zip64 locator holds, whatever the end record's
/// directory size holds; the record count is the end record's 16-bit total.
pub proof fn law_sentinel_offset_uses_zip64_record(tail: Seq<u8>, e: int, l: int)
    requires
        trailing_position(tail, EOCD_SIGNATURE, MIN_EOCD_SIZE as int) == Some(e),
        trailing_position(tail, ZIP64_EOCD_LOCATOR_SIGNATURE, ZIP64_LOCATOR_SIZE as int) == Some(l),
        tail[e + 16] == 0xFF && tail[e + 17] == 0xFF && tail[e + 18] == 0xFF && tail[e + 19] == 0xFF,
    ensures
        spec_locate(tail) == Ok::<DirectoryPlan, OpenError>(DirectoryPlan {
            total_records: (tail[e + 10] + 256 * tail[e + 11]) as u16,
            location: CentralDirectoryLocation::Zip64Record(ReadRange {
                start: (le_u32(tail, l + 8) + 0x1_0000_0000 * le_u32(tail, l + 12)) as u64,
                len: 56,
            }),
        }),
{
}

/// Law: a directory read straight from the end record never starts at the
/// sentinel offset `0xFFFF_FFFF`, and it starts and ends where the end
/// record's offset (bytes 16..20) and size (bytes 12..16) say.
pub proof fn law_direct_plan_avoids_sentinel(tail: Seq<u8>)
    ensures
        spec_locate(tail) matches Ok(plan) ==> (plan.location matches CentralDirectoryLocation::At(r) ==> {
            let e = trailing_position(tail, EOCD_SIGNATURE, MIN_EOCD_SIZE as int)->0;
            &&& r.start != 0xFFFF_FFFFu64
            &&& r.start == tail[e + 16] + 256 * tail[e + 17] + 65536 * tail[e + 18] + 16777216 * tail[e + 19]
            &&& r.len == tail[e + 12] + 256 * tail[e + 13] + 65536 * tail[e + 14] + 16777216 * tail[e + 15]
        }),
{
}

/// Law: a member's payload follows its local header's 30 fixed bytes, its
/// file name (length at bytes 26..28) and its extra field (length at bytes
/// 28..30), whatever the member's compression method; two members at the
/// same offset behind the same local header start at the same byte.
pub proof fn law_payload_after_name_and_extra(entry: FileEntry, other: FileEntry, lfh: Seq<u8>)
    requires
        lfh.len() >= LOCAL_HEADER_FIXED_SIZE,
        other.offset == entry.offset,
    ensures
        payload_start(entry, lfh) == entry.offset + 30 + (lfh[26] + 256 * lfh[27]) + (lfh[28] + 256 * lfh[29]),
        payload_start(entry, lfh) == payload_start(other, lfh),
{
}

} // verus!

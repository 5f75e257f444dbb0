//! Resuming an interrupted DEFLATE extraction: the checkpoint a resumed run
//! starts from, how often checkpoints are written, the guard that decides
//! what happens to the checkpoint file when an extraction ends, and the name
//! of that file.
use vstd::prelude::*;
use vstd::string::StringSliceAdditionalSpecFns;
use vstd::string::StrSliceExecFns;
use vstd::slice::slice_to_vec;
use sha2::Digest;

verus! {

broadcast use vstd::slice::group_slice_axioms;

/// A point on a DEFLATE block boundary from which decompression can
/// restart: the compressed offset and the bit position inside the byte
/// there, the uncompressed offset reached, and the last 32 KiB of output
/// that the next blocks may refer back to.
#[derive(Debug, Clone)]
pub struct ResumableCursor {
    pub compressed_offset: u64,
    pub uncompressed_offset: u64,
    pub bit_count: u8,
    pub bits: u8,
    pub dictionary_window: Vec<u8>,
}

/// The checkpoint interval: one percent of the uncompressed size, kept
/// between 5 MiB and 25 MiB.
pub open spec fn spec_checkpoint_interval(uncompressed_size: u64) -> int {
    let one_percent = uncompressed_size / 100;
    if one_percent < 5 * 1024 * 1024 {
        5 * 1024 * 1024int
    } else if one_percent > 25 * 1024 * 1024 {
        25 * 1024 * 1024int
    } else {
        one_percent as int
    }
}

/// How many uncompressed bytes pass between two checkpoints.
pub fn calculate_checkpoint_interval(uncompressed_size: u64) -> (r: u64)
    ensures
        r == spec_checkpoint_interval(uncompressed_size),
{
    let one_percent = uncompressed_size / 100;
    let min_interval: u64 = 5 * 1024 * 1024;
    let max_interval: u64 = 25 * 1024 * 1024;
    if one_percent < min_interval {
        min_interval
    } else if one_percent > max_interval {
        max_interval
    } else {
        one_percent
    }
}

/// A copy of a cursor, field for field.
pub fn copy_cursor(c: &ResumableCursor) -> (r: ResumableCursor)
    ensures
        r.compressed_offset == c.compressed_offset,
        r.uncompressed_offset == c.uncompressed_offset,
        r.bit_count == c.bit_count,
        r.bits == c.bits,
        r.dictionary_window@ == c.dictionary_window@,
{
    ResumableCursor {
        compressed_offset: c.compressed_offset,
        uncompressed_offset: c.uncompressed_offset,
        bit_count: c.bit_count,
        bits: c.bits,
        dictionary_window: slice_to_vec(c.dictionary_window.as_slice()),
    }
}

/// What to do with the checkpoint file when an extraction ends.
#[derive(Debug)]
pub enum ExitAction {
    /// The extraction was interrupted: write this cursor.
    Save(ResumableCursor),
    /// The extraction was interrupted before any cursor was held: leave the
    /// checkpoint file as it is.
    Keep,
    /// The extraction finished: remove the checkpoint.
    Delete,
}

/// Watches one extraction. It starts armed, holding the cursor it was
/// given; while armed it holds the latest cursor reached. A clean finish
/// disarms it, and it then holds none.
pub struct CheckpointGuard {
    uri: String,
    filename: String,
    armed: bool,
    latest_cursor: Option<ResumableCursor>,
}

impl CheckpointGuard {
    pub closed spec fn spec_uri(self) -> Seq<char> {
        self.uri@
    }

    pub closed spec fn spec_filename(self) -> Seq<char> {
        self.filename@
    }

    /// A guard holds a cursor only while it is armed.
    #[verifier::type_invariant]
    spec fn held_only_when_armed(self) -> bool {
        self.latest_cursor is Some ==> self.armed
    }

    /// Whether the guard still saves on exit: it has not been disarmed.
    pub closed spec fn is_armed(self) -> bool {
        self.armed
    }

    /// The latest cursor, or `None` when disarmed or before any cursor was
    /// held.
    pub closed spec fn latest(self) -> Option<ResumableCursor> {
        self.latest_cursor
    }

    /// An armed guard for the extraction of `filename` from `uri`, holding
    /// `initial` as its latest cursor.
    pub fn new(uri: &str, filename: &str, initial: Option<ResumableCursor>) -> (r: CheckpointGuard)
        ensures
            r.spec_uri() == uri@,
            r.spec_filename() == filename@,
            r.is_armed(),
            r.latest() == initial,
    {
        CheckpointGuard { uri: uri.to_owned(), filename: filename.to_owned(), armed: true, latest_cursor: initial }
    }

    pub fn uri(&self) -> (r: &str)
        ensures
            r@ == self.spec_uri(),
    {
        self.uri.as_str()
    }

    pub fn filename(&self) -> (r: &str)
        ensures
            r@ == self.spec_filename(),
    {
        self.filename.as_str()
    }

    /// Records the latest block-boundary cursor. A held cursor is always
    /// saved on exit, so recording one arms the guard again.
    pub fn record(&mut self, cursor: ResumableCursor)
        ensures
            final(self).latest() == Some(cursor),
            final(self).is_armed(),
            final(self).spec_uri() == old(self).spec_uri(),
            final(self).spec_filename() == old(self).spec_filename(),
    {
        self.armed = true;
        self.latest_cursor = Some(cursor);
    }

    /// Disarms the guard after a clean finish: on exit it deletes the
    /// checkpoint instead of saving it.
    pub fn disarm(&mut self)
        ensures
            !final(self).is_armed(),
            final(self).latest() is None,
            final(self).spec_uri() == old(self).spec_uri(),
            final(self).spec_filename() == old(self).spec_filename(),
    {
        self.latest_cursor = None;
        self.armed = false;
    }

    /// What the end of the extraction does: delete the checkpoint exactly
    /// when the guard was disarmed; otherwise save the latest cursor, or
    /// keep the file when no cursor is held.
    pub fn exit_action(&self) -> (r: ExitAction)
        ensures
            r is Delete <==> !self.is_armed(),
            self.latest() is Some ==> self.is_armed(),
            r is Save <==> self.latest() is Some,
            match (r, self.latest()) {
                (ExitAction::Save(c), Some(l)) => self.is_armed()
                    && c.compressed_offset == l.compressed_offset
                    && c.uncompressed_offset == l.uncompressed_offset
                    && c.bit_count == l.bit_count
                    && c.bits == l.bits
                    && c.dictionary_window@ == l.dictionary_window@,
                (ExitAction::Keep, None) => self.is_armed(),
                (ExitAction::Delete, _) => !self.is_armed(),
                _ => false,
            },
    {
        proof {
            use_type_invariant(self);
        }
        if !self.armed {
            return ExitAction::Delete;
        }
        match &self.latest_cursor {
            Some(c) => ExitAction::Save(copy_cursor(c)),
            None => ExitAction::Keep,
        }
    }
}

/// The directory that holds checkpoint files.
pub fn cache_dir() -> (r: &'static str)
    ensures
        r@ == ".runarchive"@,
{
    ".runarchive"
}

/// SHA-256 of a byte string, as `sha2` computes it.
pub uninterp spec fn sha256_digest(data: Seq<u8>) -> Seq<u8>;

/// `sha2::Sha256::digest`: the SHA-256 digest of `data`, whose length is
/// the 32 bytes of that hash; the digest itself is only named.
#[verifier::external_body]
fn sha256(data: &[u8]) -> (r: Vec<u8>)
    ensures
        r@ == sha256_digest(data@),
        r@.len() == 32,
{
    sha2::Sha256::digest(data).to_vec()
}

/// The lower-case hexadecimal digit for `v` in `0..16`.
pub open spec fn hex_digit(v: int) -> char {
    if v < 10 {
        (48 + v) as char
    } else {
        (87 + v) as char
    }
}

/// Lower-case hexadecimal, two digits per byte, high nibble first.
pub open spec fn hex_lower(s: Seq<u8>) -> Seq<char>
    decreases s.len(),
{
    if s.len() == 0 {
        Seq::empty()
    } else {
        seq![hex_digit(s[0] as int / 16), hex_digit(s[0] as int % 16)] + hex_lower(s.drop_first())
    }
}

/// `hex::encode`: each byte as two lower-case hexadecimal digits, high
/// nibble first, as the crate's source does it.
#[verifier::external_body]
fn hex_encode(data: &[u8]) -> (r: String)
    ensures
        r@ == hex_lower(data@),
{
    hex::encode(data)
}

/// The name of a checkpoint file: the first ten hexadecimal digits of a
/// digest.
pub fn cache_name_from_digest(digest: &[u8]) -> (r: String)
    requires
        digest@.len() >= 5,
    ensures
        r@ == hex_lower(digest@).take(10),
{
    let hex = hex_encode(digest);
    proof {
        lemma_hex_lower_digits(digest@);
        let h = hex_lower(digest@);
        assert(vstd::utf8::is_ascii_chars(h)) by {
            assert forall|i: int| 0 <= i < h.len() implies '\0' <= #[trigger] h[i] <= '\u{7f}' by {
                let c = h[i];
                assert(('0' <= c <= '9') || ('a' <= c <= 'f'));
            }
        }
    }
    let name = hex.as_str().substring_ascii(0, 10);
    name.to_owned()
}

/// The bytes whose digest names the checkpoint of `filename` in `uri`.
pub open spec fn cache_key(uri: Seq<u8>, filename: Seq<u8>) -> Seq<u8> {
    uri + seq![124u8] + filename
}

/// The name of the checkpoint file of `filename` in the archive at `uri`:
/// the first ten hexadecimal digits of the SHA-256 of `uri|filename`.
pub fn cache_file_name(uri: &str, filename: &str) -> (r: String)
    ensures
        r@ == hex_lower(sha256_digest(cache_key(uri.spec_bytes(), filename.spec_bytes()))).take(10),
{
    let mut key: Vec<u8> = slice_to_vec(uri.as_bytes());
    key.push(124);
    let name_bytes = filename.as_bytes();
    let mut i: usize = 0;
    let ghost prefix = key@;
    while i < name_bytes.len()
        invariant
            i <= name_bytes@.len(),
            key@ == prefix + name_bytes@.take(i as int),
        decreases name_bytes@.len() - i,
    {
        key.push(name_bytes[i]);
        i = i + 1;
        assert(key@ =~= prefix + name_bytes@.take(i as int));
    }
    assert(key@ =~= cache_key(uri.spec_bytes(), filename.spec_bytes()));
    let digest = sha256(key.as_slice());
    cache_name_from_digest(digest.as_slice())
}

/// Law: checkpoints are between 5 MiB and 25 MiB apart.
pub proof fn law_interval_bounds(uncompressed_size: u64)
    ensures
        5 * 1024 * 1024 <= spec_checkpoint_interval(uncompressed_size) <= 25 * 1024 * 1024,
{
}

/// Law: a larger member never checkpoints more often.
pub proof fn law_interval_monotone(a: u64, b: u64)
    requires
        a <= b,
    ensures
        spec_checkpoint_interval(a) <= spec_checkpoint_interval(b),
{
    assert(a / 100 <= b / 100) by (nonlinear_arith)
        requires
            a <= b,
    ;
}

/// Law: a checkpoint name is ten lower-case hexadecimal digits.
pub proof fn law_cache_name_shape(digest: Seq<u8>)
    requires
        digest.len() >= 5,
    ensures
        hex_lower(digest).take(10).len() == 10,
        forall|i: int| 0 <= i < 10 ==> {
            let c = #[trigger] hex_lower(digest).take(10)[i];
            ('0' <= c <= '9') || ('a' <= c <= 'f')
        },
{
    lemma_hex_lower_digits(digest);
}

proof fn lemma_hex_lower_digits(s: Seq<u8>)
    ensures
        hex_lower(s).len() == 2 * s.len(),
        forall|i: int| 0 <= i < hex_lower(s).len() ==> {
            let c = #[trigger] hex_lower(s)[i];
            ('0' <= c <= '9') || ('a' <= c <= 'f')
        },
    decreases s.len(),
{
    if s.len() > 0 {
        lemma_hex_lower_digits(s.drop_first());
        let h = hex_lower(s);
        let t = hex_lower(s.drop_first());
        let hi = s[0] as int / 16;
        let lo = s[0] as int % 16;
        assert(h =~= seq![hex_digit(hi), hex_digit(lo)] + t);
        assert forall|i: int| 0 <= i < h.len() implies {
            let c = #[trigger] h[i];
            ('0' <= c <= '9') || ('a' <= c <= 'f')
        } by {
            if i >= 2 {
                assert(h[i] == t[i - 2]);
            } else if i == 0 {
                assert(0 <= hi < 16);
            } else {
                assert(0 <= lo < 16);
            }
        }
    }
}

} // verus!

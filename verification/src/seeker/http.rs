//! Ranged reads over HTTP: which `Range` to ask for, how to read the total
//! size out of a `Content-Range` header, and which responses to accept.
use vstd::prelude::*;
use vstd::string::StringSliceAdditionalSpecFns;
use crate::seeker::{resolve_seek, seek_in_range, spec_seek, SeekPosition};

verus! {

broadcast use vstd::slice::group_slice_axioms;

/// The ASCII decimal representation of `n`, without leading zeros.
pub open spec fn decimal(n: nat) -> Seq<u8>
    decreases n,
{
    if n < 10 {
        seq![(48 + n) as u8]
    } else {
        decimal(n / 10).push((48 + n % 10) as u8)
    }
}

/// `bytes=`
pub open spec fn range_prefix() -> Seq<u8> {
    seq![98u8, 121, 116, 101, 115, 61]
}

/// The value of a `Range` header that asks for bytes `start..=end`.
pub open spec fn range_header(start: u64, end: u64) -> Seq<u8> {
    range_prefix() + decimal(start as nat) + seq![45u8] + decimal(end as nat)
}

/// Appends the decimal representation of `n`.
fn push_decimal(out: &mut Vec<u8>, n: u64)
    ensures
        final(out)@ == old(out)@ + decimal(n as nat),
    decreases n,
{
    if n >= 10 {
        push_decimal(out, n / 10);
    }
    out.push(48 + (n % 10) as u8);
    assert(final(out)@ =~= old(out)@ + decimal(n as nat));
}

/// The `Range` header value `bytes=<start>-<end>`.
pub fn range_header_value(start: u64, end: u64) -> (r: Vec<u8>)
    ensures
        r@ == range_header(start, end),
{
    let mut out: Vec<u8> = Vec::new();
    out.push(98);
    out.push(121);
    out.push(116);
    out.push(101);
    out.push(115);
    out.push(61);
    push_decimal(&mut out, start);
    out.push(45);
    push_decimal(&mut out, end);
    assert(out@ =~= range_header(start, end));
    out
}

/// The inclusive byte range a read of `buf_len` bytes at `current` asks for:
/// nothing for an empty buffer or at the end of the file, otherwise up to
/// the last byte of the file.
pub open spec fn spec_read_range(current: u64, file_size: u64, buf_len: int) -> Option<(u64, u64)> {
    if buf_len == 0 || current >= file_size {
        None
    } else {
        let end = current + buf_len - 1;
        Some((current, (if end < file_size { end } else { file_size - 1 }) as u64))
    }
}

/// Plans a ranged read of up to `buf_len` bytes at `current`.
pub fn plan_range_read(current: u64, file_size: u64, buf_len: usize) -> (r: Option<(u64, u64)>)
    requires
        buf_len > 0 && current < file_size ==> current + buf_len - 1 <= u64::MAX,
    ensures
        r == spec_read_range(current, file_size, buf_len as int),
{
    if buf_len == 0 || current >= file_size {
        return None;
    }
    let mut end = current + (buf_len as u64 - 1);
    if end >= file_size {
        end = file_size - 1;
    }
    Some((current, end))
}

/// The read position and size of a remote file read with ranged
/// requests; the requests themselves are sent by the caller.
pub struct RangeCursor {
    current_offset: u64,
    file_size: u64,
}

impl RangeCursor {
    pub closed spec fn position(self) -> u64 {
        self.current_offset
    }

    pub closed spec fn size(self) -> u64 {
        self.file_size
    }

    /// The start of a remote file of `file_size` bytes.
    pub fn new(file_size: u64) -> (r: RangeCursor)
        ensures
            r.position() == 0,
            r.size() == file_size,
    {
        RangeCursor { current_offset: 0, file_size }
    }

    pub fn file_size(&self) -> (r: u64)
        ensures
            r == self.size(),
    {
        self.file_size
    }

    pub fn current_offset(&self) -> (r: u64)
        ensures
            r == self.position(),
    {
        self.current_offset
    }

    /// The inclusive range to request for a read of `buf_len` bytes.
    pub fn plan_read(&self, buf_len: usize) -> (r: Option<(u64, u64)>)
        requires
            buf_len > 0 && self.position() < self.size() ==> self.position() + buf_len - 1 <= u64::MAX,
        ensures
            r == spec_read_range(self.position(), self.size(), buf_len as int),
    {
        plan_range_read(self.current_offset, self.file_size, buf_len)
    }

    /// Copies as much of a response body as fits in `buf` and advances the
    /// read position by that much.
    pub fn complete_read(&mut self, buf: &mut [u8], contents: &[u8]) -> (n: usize)
        requires
            old(self).position() + (if old(buf)@.len() < contents@.len() {
                old(buf)@.len()
            } else {
                contents@.len()
            }) <= u64::MAX,
        ensures
            n == (if old(buf)@.len() < contents@.len() { old(buf)@.len() } else { contents@.len() }),
            final(buf)@ == contents@.take(n as int) + old(buf)@.skip(n as int),
            final(self).position() == old(self).position() + n,
            final(self).size() == old(self).size(),
    {
        let n = if buf.len() < contents.len() { buf.len() } else { contents.len() };
        let mut i: usize = 0;
        while i < n
            invariant
                i <= n,
                n <= buf@.len(),
                n <= contents@.len(),
                buf@.len() == old(buf)@.len(),
                forall|k: int| 0 <= k < i ==> buf@[k] == contents@[k],
                forall|k: int| i <= k < buf@.len() ==> buf@[k] == old(buf)@[k],
            decreases n - i,
        {
            buf[i] = contents[i];
            i = i + 1;
        }
        assert(buf@ =~= contents@.take(n as int) + old(buf)@.skip(n as int));
        self.current_offset = self.current_offset + n as u64;
        n
    }

    /// Moves the read position; it never passes the end of the file.
    pub fn seek(&mut self, pos: SeekPosition) -> (r: u64)
        requires
            seek_in_range(old(self).position(), old(self).size(), pos),
        ensures
            r == spec_seek(old(self).position(), old(self).size(), pos),
            final(self).position() == r,
            final(self).size() == old(self).size(),
    {
        self.current_offset = resolve_seek(self.current_offset, self.file_size, pos);
        self.current_offset
    }
}

/// Why the answer to a ranged read was refused.
#[derive(Debug, Clone, Copy, PartialEq, Eq, Structural)]
pub enum RangeReadError {
    /// The server ignored the `Range` header.
    NotPartialContent,
    /// The server sent more bytes than were asked for.
    TooManyBytes,
}

impl RangeReadError {
    /// The message the error is reported with.
    pub fn message(&self) -> (r: &'static str)
        ensures
            r@ == (match self {
                RangeReadError::NotPartialContent => "Server did not return 206 Partial Content"@,
                RangeReadError::TooManyBytes => "Received more bytes than requested"@,
            }),
    {
        match self {
            RangeReadError::NotPartialContent => "Server did not return 206 Partial Content",
            RangeReadError::TooManyBytes => "Received more bytes than requested",
        }
    }
}

/// HTTP 206 Partial Content.
pub const PARTIAL_CONTENT: u16 = 206;

/// Checks the answer to a ranged read: it must be `206 Partial Content`
/// with no more bytes than the buffer holds; returns how many bytes to copy.
pub fn accept_range_response(status: u16, body_len: usize, buf_len: usize) -> (r: Result<usize, RangeReadError>)
    ensures
        match r {
            Ok(n) => status == PARTIAL_CONTENT && body_len <= buf_len && n == body_len,
            Err(e) => if status != PARTIAL_CONTENT {
                e == RangeReadError::NotPartialContent
            } else {
                body_len > buf_len && e == RangeReadError::TooManyBytes
            },
        },
{
    if status != PARTIAL_CONTENT {
        return Err(RangeReadError::NotPartialContent);
    }
    if body_len > buf_len {
        return Err(RangeReadError::TooManyBytes);
    }
    Ok(body_len)
}

/// A status in the 2xx class.
pub fn is_success_status(status: u16) -> (r: bool)
    ensures
        r == (200 <= status < 300),
{
    200 <= status && status < 300
}

/// `s` holds only ASCII digits.
pub open spec fn all_digits(s: Seq<u8>) -> bool {
    forall|i: int| 0 <= i < s.len() ==> 48 <= #[trigger] s[i] <= 57
}

/// The number the ASCII digits of `s` spell.
pub open spec fn digits_value(s: Seq<u8>) -> int
    decreases s.len(),
{
    if s.len() == 0 {
        0
    } else {
        digits_value(s.drop_last()) * 10 + (s.last() - 48)
    }
}

/// How the standard library parses a `u64` from text: an optional `+`, then
/// one or more ASCII digits, with a value that fits in 64 bits.
pub open spec fn spec_parse_u64(s: Seq<u8>) -> Option<u64> {
    let d = if s.len() > 0 && s[0] == 43 { s.skip(1) } else { s };
    if d.len() > 0 && all_digits(d) && digits_value(d) <= u64::MAX {
        Some(digits_value(d) as u64)
    } else {
        None
    }
}

/// A longer run of digits spells at least as much as its prefix.
proof fn lemma_digits_prefix(s: Seq<u8>, k: int)
    requires
        0 <= k <= s.len(),
        all_digits(s),
    ensures
        digits_value(s.take(k)) <= digits_value(s),
        digits_value(s) >= 0,
    decreases s.len(),
{
    if s.len() > 0 {
        assert(all_digits(s.drop_last()));
        if k < s.len() {
            lemma_digits_prefix(s.drop_last(), k);
            assert(s.drop_last().take(k) =~= s.take(k));
        } else {
            assert(s.take(k) =~= s);
            lemma_digits_prefix(s.drop_last(), 0);
        }
    } else {
        assert(s.take(k) =~= s);
    }
}

/// Parses a `u64` the way the standard library does.
pub fn parse_u64(s: &[u8]) -> (r: Option<u64>)
    ensures
        r == spec_parse_u64(s@),
{
    let start: usize = if s.len() > 0 && s[0] == 43 { 1 } else { 0 };
    let ghost d = if s@.len() > 0 && s@[0] == 43 { s@.skip(1) } else { s@ };
    assert(d =~= s@.skip(start as int));
    if s.len() == start {
        return None;
    }
    let mut value: u64 = 0;
    let mut i: usize = start;
    assert(d.take(0) =~= Seq::<u8>::empty());
    while i < s.len()
        invariant
            start <= i <= s@.len(),
            d == s@.skip(start as int),
            d == (if s@.len() > 0 && s@[0] == 43 { s@.skip(1) } else { s@ }),
            d.len() > 0,
            all_digits(d.take(i - start)),
            value == digits_value(d.take(i - start)),
        decreases s@.len() - i,
    {
        let c = s[i];
        let ghost k = i - start;
        assert(d[k] == c);
        if c < 48 || c > 57 {
            assert(!all_digits(d)) by {
                assert(!(48 <= d[k] <= 57));
            }
            assert(spec_parse_u64(s@) is None);
            return None;
        }
        assert(d.take(k + 1).drop_last() =~= d.take(k));
        assert(all_digits(d.take(k + 1)));
        let digit = (c - 48) as u64;
        if value > (u64::MAX - digit) / 10 {
            proof {
                assert(value * 10 + digit > u64::MAX) by (nonlinear_arith)
                    requires
                        value > (u64::MAX - digit) / 10,
                        digit <= 9,
                ;
                assert(d.take(k + 1).last() == c);
                assert(digits_value(d.take(k + 1)) == value * 10 + digit);
                if all_digits(d) {
                    lemma_digits_prefix(d, k + 1);
                }
            }
            return None;
        }
        proof {
            assert(value * 10 + digit <= u64::MAX) by (nonlinear_arith)
                requires
                    value <= (u64::MAX - digit) / 10,
                    digit <= 9,
            ;
            assert(d.take(k + 1).last() == c);
        }
        value = value * 10 + digit;
        i = i + 1;
    }
    assert(d.take(i - start) =~= d);
    Some(value)
}

/// The first position of `b` in `s`.
pub open spec fn first_index_of(s: Seq<u8>, b: u8) -> Option<int> {
    if exists|i: int| 0 <= i < s.len() && #[trigger] s[i] == b {
        Some(choose|i: int| 0 <= i < s.len() && #[trigger] s[i] == b && forall|j: int| 0 <= j < i ==> s[j] != b)
    } else {
        None
    }
}

/// The total size a `Content-Range` value such as `bytes 0-0/1234` gives:
/// the number after its first `/`.
pub open spec fn spec_content_range_total(v: Seq<u8>) -> Option<u64> {
    match first_index_of(v, 47) {
        None => None,
        Some(i) => spec_parse_u64(v.skip(i + 1)),
    }
}

/// Reads the total size out of a `Content-Range` header value.
pub fn content_range_total(value: &str) -> (r: Option<u64>)
    ensures
        r == spec_content_range_total(value.spec_bytes()),
{
    let bytes = value.as_bytes();
    let mut i: usize = 0;
    while i < bytes.len()
        invariant
            i <= bytes@.len(),
            bytes@ == value.spec_bytes(),
            forall|j: int| 0 <= j < i ==> bytes@[j] != 47,
        decreases bytes@.len() - i,
    {
        if bytes[i] == 47 {
            proof {
                let w = choose|k: int| 0 <= k < bytes@.len() && #[trigger] bytes@[k] == 47u8
                    && forall|j: int| 0 <= j < k ==> bytes@[j] != 47;
                assert(0 <= i < bytes@.len() && bytes@[i as int] == 47u8);
                if w < i {
                    assert(bytes@[w] != 47);
                } else if w > i {
                    assert(bytes@[i as int] != 47);
                }
            }
            let rest = &bytes[i + 1..bytes.len()];
            assert(rest@ =~= bytes@.skip(i + 1));
            return parse_u64(rest);
        }
        i = i + 1;
    }
    None
}

/// The size of a remote file: the `Content-Length` of a `HEAD` answer when
/// it is not zero, else the total of a one-byte ranged `GET`; a size of zero
/// means the size could not be determined.
pub fn resolve_remote_size(head_length: u64, range_total: Option<u64>) -> (r: Option<u64>)
    ensures
        head_length != 0 ==> r == Some(head_length),
        head_length == 0 ==> r == (match range_total {
            Some(t) => if t != 0 { Some(t) } else { None },
            None => None,
        }),
{
    if head_length != 0 {
        return Some(head_length);
    }
    match range_total {
        Some(t) => if t != 0 { Some(t) } else { None },
        None => None,
    }
}

/// Law: a planned read asks only for bytes inside the file, starting at the
/// read position and no more than the buffer holds.
pub proof fn law_range_within_file(current: u64, file_size: u64, buf_len: int)
    requires
        buf_len >= 0,
    ensures
        spec_read_range(current, file_size, buf_len) matches Some((start, end)) ==> {
            &&& start == current
            &&& start <= end < file_size
            &&& end - start < buf_len
        },
        spec_read_range(current, file_size, buf_len) is None <==> (buf_len == 0 || current >= file_size),
{
}

proof fn lemma_decimal_digits(n: nat)
    ensures
        decimal(n).len() > 0,
        all_digits(decimal(n)),
        digits_value(decimal(n)) == n,
    decreases n,
{
    if n >= 10 {
        lemma_decimal_digits(n / 10);
        let d = decimal(n);
        assert(d.drop_last() =~= decimal(n / 10));
        assert forall|i: int| 0 <= i < d.len() implies 48 <= #[trigger] d[i] <= 57 by {
            if i < d.len() - 1 {
                assert(d[i] == decimal(n / 10)[i]);
            }
        }
        assert(d.last() == 48 + n % 10);
        assert(digits_value(d) == digits_value(d.drop_last()) * 10 + (d.last() - 48));
        assert(digits_value(d.drop_last()) == n / 10);
        assert((n / 10) * 10 + n % 10 == n) by (nonlinear_arith);
    } else {
        let d = decimal(n);
        assert(d.drop_last() =~= Seq::<u8>::empty());
        assert(d.last() == 48 + n);
        assert(digits_value(d) == digits_value(d.drop_last()) * 10 + (d.last() - 48));
    }
}

/// Law: `u64` parsing reads back the decimal text of any number, so a
/// size written into a header is read as itself.
pub proof fn law_decimal_parses_back(n: u64)
    ensures
        spec_parse_u64(decimal(n as nat)) == Some(n),
{
    lemma_decimal_digits(n as nat);
}

/// Law: the total of a `Content-Range` value is the number after its first
/// slash, such as the size `bytes 0-0/<size>` announces.
pub proof fn law_content_range_total(prefix: Seq<u8>, n: u64)
    requires
        forall|i: int| 0 <= i < prefix.len() ==> prefix[i] != 47,
    ensures
        spec_content_range_total(prefix + seq![47u8] + decimal(n as nat)) == Some(n),
{
    let v = prefix + seq![47u8] + decimal(n as nat);
    let k = prefix.len() as int;
    assert(v[k] == 47);
    let i = choose|i: int| 0 <= i < v.len() && #[trigger] v[i] == 47u8 && forall|j: int| 0 <= j < i ==> v[j] != 47;
    assert(forall|j: int| 0 <= j < k ==> v[j] == prefix[j]);
    if i < k {
        assert(v[i] == prefix[i]);
    } else if i > k {
        assert(v[k] != 47);
    }
    assert(v.skip(k + 1) =~= decimal(n as nat));
    law_decimal_parses_back(n);
}

} // verus!

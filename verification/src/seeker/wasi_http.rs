//! The state of a seeker over a remote file read with `wasi:http` ranged
//! requests; the requests themselves are sent by the caller.
use vstd::prelude::*;
use crate::seeker::{seek_in_range, spec_seek, SeekPosition};
use crate::seeker::http::{spec_read_range, RangeCursor};

verus! {

broadcast use vstd::slice::group_slice_axioms;

/// A seeker over a remote file read with `wasi:http` ranged requests: the
/// URL, and the read position and file size. The requests themselves are
/// sent by the caller.
pub struct WasiHttpSeeker {
    url: String,
    cursor: RangeCursor,
}

impl WasiHttpSeeker {
    pub closed spec fn spec_url(self) -> Seq<char> {
        self.url@
    }

    pub closed spec fn position(self) -> u64 {
        self.cursor.position()
    }

    pub closed spec fn size(self) -> u64 {
        self.cursor.size()
    }

    /// A seeker at the start of a remote file of known size.
    pub fn with_size(url: String, file_size: u64) -> (r: WasiHttpSeeker)
        ensures
            r.spec_url() == url@,
            r.position() == 0,
            r.size() == file_size,
    {
        WasiHttpSeeker { url, cursor: RangeCursor::new(file_size) }
    }

    pub fn file_size(&self) -> (r: u64)
        ensures
            r == self.size(),
    {
        self.cursor.file_size()
    }

    pub fn current_offset(&self) -> (r: u64)
        ensures
            r == self.position(),
    {
        self.cursor.current_offset()
    }

    pub fn url(&self) -> (r: &str)
        ensures
            r@ == self.spec_url(),
    {
        self.url.as_str()
    }

    /// The inclusive range to request for a read of `buf_len` bytes.
    pub fn plan_read(&self, buf_len: usize) -> (r: Option<(u64, u64)>)
        requires
            buf_len > 0 && self.position() < self.size() ==> self.position() + buf_len - 1 <= u64::MAX,
        ensures
            r == spec_read_range(self.position(), self.size(), buf_len as int),
    {
        self.cursor.plan_read(buf_len)
    }

    /// Copies as much of a response body as fits in `buf` and advances the
    /// read position by that much.
    pub fn complete_read(&mut self, buf: &mut [u8], contents: &[u8]) -> (n: usize)
        requires
            old(self).position() + (if old(buf)@.len() < contents@.len() {
                old(buf)@.len()
            } else {
                contents@.len()
            }) <= u64::MAX,
        ensures
            n == (if old(buf)@.len() < contents@.len() { old(buf)@.len() } else { contents@.len() }),
            final(buf)@ == contents@.take(n as int) + old(buf)@.skip(n as int),
            final(self).position() == old(self).position() + n,
            final(self).size() == old(self).size(),
            final(self).spec_url() == old(self).spec_url(),
    {
        self.cursor.complete_read(buf, contents)
    }

    /// Moves the read position; it never passes the end of the file.
    pub fn seek(&mut self, pos: SeekPosition) -> (r: u64)
        requires
            seek_in_range(old(self).position(), old(self).size(), pos),
        ensures
            r == spec_seek(old(self).position(), old(self).size(), pos),
            final(self).position() == r,
            final(self).size() == old(self).size(),
            final(self).spec_url() == old(self).spec_url(),
    {
        self.cursor.seek(pos)
    }
}

} // verus!

//! A retention buffer: one window of an archive kept in memory, with a read
//! position over the whole archive. Reads that start inside the window are
//! served from memory; the caller serves the others from the underlying
//! source and reports how far it read.
use vstd::prelude::*;
use crate::seeker::{resolve_seek, seek_in_range, spec_seek, SeekPosition};

verus! {

broadcast use vstd::slice::group_slice_axioms;

/// The bytes of `start..start + length` that a window of `data` retained
/// from `window_start` holds, when it holds all of them.
pub open spec fn retained_span(window_start: u64, data: Seq<u8>, start: int, length: int) -> Option<Seq<u8>> {
    if window_start <= start && start + length <= window_start + data.len() {
        Some(data.subrange(start - window_start, start - window_start + length))
    } else {
        None
    }
}

/// Why a fetch into the retention buffer was refused.
#[derive(Debug, Clone, Copy, PartialEq, Eq, Structural)]
pub enum BufferError {
    FetchPastEof,
}

impl BufferError {
    /// The message the error is reported with.
    pub fn message(&self) -> (r: &'static str)
        ensures
            r@ == "Fetch starts past EOF"@,
    {
        "Fetch starts past EOF"
    }
}

/// A window of an archive kept in memory, and a read position.
pub struct RetentionBuffer {
    buffer: Vec<u8>,
    buffer_start_offset: u64,
    current_offset: u64,
    file_size: u64,
}

impl RetentionBuffer {
    /// The window never reaches past the end of the file.
    #[verifier::type_invariant]
    spec fn window_in_file(self) -> bool {
        self.buffer_start_offset + self.buffer@.len() <= self.file_size
    }

    /// The retained bytes.
    pub closed spec fn retained(self) -> Seq<u8> {
        self.buffer@
    }

    /// The offset in the file of the first retained byte.
    pub closed spec fn window_start(self) -> u64 {
        self.buffer_start_offset
    }

    /// The read position.
    pub closed spec fn position(self) -> u64 {
        self.current_offset
    }

    /// The size of the file.
    pub closed spec fn size(self) -> u64 {
        self.file_size
    }

    /// A buffer over a file of `file_size` bytes, with nothing retained and
    /// the read position at the start.
    pub fn new(file_size: u64) -> (r: RetentionBuffer)
        ensures
            r.retained().len() == 0,
            r.window_start() == 0,
            r.position() == 0,
            r.size() == file_size,
    {
        RetentionBuffer { buffer: Vec::new(), buffer_start_offset: 0, current_offset: 0, file_size }
    }

    pub fn file_size(&self) -> (r: u64)
        ensures
            r == self.size(),
    {
        self.file_size
    }

    pub fn buffer_start_offset(&self) -> (r: u64)
        ensures
            r == self.window_start(),
    {
        self.buffer_start_offset
    }

    pub fn current_offset(&self) -> (r: u64)
        ensures
            r == self.position(),
    {
        self.current_offset
    }

    /// All retained bytes.
    pub fn get_entire_buffer(&self) -> (r: &[u8])
        ensures
            r@ == self.retained(),
    {
        self.buffer.as_slice()
    }

    /// How many bytes a fetch of `length` bytes at `start` reads: no more
    /// than remain in the file. A fetch that starts at or past the end is
    /// refused.
    pub fn fetch_length(&self, start: u64, length: usize) -> (r: Result<usize, BufferError>)
        ensures
            match r {
                Ok(n) => start < self.size() && n == (if length < self.size() - start {
                    length as int
                } else {
                    self.size() - start
                }),
                Err(e) => start >= self.size() && e == BufferError::FetchPastEof,
            },
    {
        if start >= self.file_size {
            return Err(BufferError::FetchPastEof);
        }
        let remaining = self.file_size - start;
        if (length as u64) < remaining {
            Ok(length)
        } else {
            Ok(remaining as usize)
        }
    }

    /// Retains the bytes fetched from `start` and moves the read position
    /// there. The fetch may have come up short; it never reads past the
    /// length `fetch_length` allowed.
    pub fn retain(&mut self, start: u64, data: Vec<u8>)
        requires
            start < old(self).size(),
            data@.len() <= old(self).size() - start,
        ensures
            final(self).retained() == data@,
            final(self).window_start() == start,
            final(self).position() == start,
            final(self).size() == old(self).size(),
    {
        proof {
            use_type_invariant(&*self);
        }
        *self = RetentionBuffer {
            buffer: data,
            buffer_start_offset: start,
            current_offset: start,
            file_size: self.file_size,
        };
    }

    /// The retained bytes of `start..start + length`, when the whole span is
    /// retained; `None` otherwise, also for a span that ends past the last
    /// offset a `u64` can hold.
    pub fn get_retained_slice(&self, start: u64, length: usize) -> (r: Option<&[u8]>)
        ensures
            start + length > u64::MAX ==> r is None,
            self.window_start() + self.retained().len() <= self.size(),
            match r {
                Some(s) => retained_span(self.window_start(), self.retained(), start as int, length as int) == Some(s@),
                None => retained_span(self.window_start(), self.retained(), start as int, length as int) is None,
            },
    {
        proof {
            use_type_invariant(self);
        }
        if start < self.buffer_start_offset {
            return None;
        }
        let rel = start - self.buffer_start_offset;
        let held = self.buffer.len() as u64;
        if rel <= held && (length as u64) <= held - rel {
            let rel_start = rel as usize;
            Some(&self.buffer.as_slice()[rel_start..rel_start + length])
        } else {
            None
        }
    }

    /// Serves a read from the retained window when the read position is
    /// inside it: copies as many bytes as fit in `buf` and remain in the
    /// window, advances the position past them and returns how many. When
    /// the position is outside the window nothing changes and the caller
    /// reads from the underlying source.
    pub fn read_retained(&mut self, buf: &mut [u8]) -> (r: Option<usize>)
        ensures
            final(self).retained() == old(self).retained(),
            final(self).window_start() == old(self).window_start(),
            final(self).size() == old(self).size(),
            match r {
                Some(n) => {
                    let rel = old(self).position() - old(self).window_start();
                    &&& old(self).window_start() <= old(self).position()
                    &&& old(self).position() < old(self).window_start() + old(self).retained().len()
                    &&& n == (if old(buf)@.len() < old(self).retained().len() - rel {
                        old(buf)@.len() as int
                    } else {
                        old(self).retained().len() - rel
                    })
                    &&& final(buf)@ == old(self).retained().subrange(rel, rel + n) + old(buf)@.skip(n as int)
                    &&& final(self).position() == old(self).position() + n
                },
                None => {
                    &&& !(old(self).window_start() <= old(self).position()
                        && old(self).position() < old(self).window_start() + old(self).retained().len())
                    &&& final(buf)@ == old(buf)@
                    &&& final(self).position() == old(self).position()
                },
            },
    {
        proof {
            use_type_invariant(&*self);
        }
        let window_end = self.buffer_start_offset + (self.buffer.len() as u64);
        if self.current_offset >= self.buffer_start_offset && self.current_offset < window_end {
            let rel_start = (self.current_offset - self.buffer_start_offset) as usize;
            let available = self.buffer.len() - rel_start;
            let to_copy = if buf.len() < available { buf.len() } else { available };
            let mut i: usize = 0;
            while i < to_copy
                invariant
                    i <= to_copy,
                    to_copy <= buf@.len(),
                    rel_start + to_copy <= self.buffer.len(),
                    buf@.len() == old(buf)@.len(),
                    forall|k: int| 0 <= k < i ==> buf@[k] == self.buffer@[rel_start + k],
                    forall|k: int| i <= k < buf@.len() ==> buf@[k] == old(buf)@[k],
                decreases to_copy - i,
            {
                buf[i] = self.buffer[rel_start + i];
                i = i + 1;
            }
            assert(buf@ =~= self.buffer@.subrange(rel_start as int, rel_start + to_copy) + old(buf)@.skip(to_copy as int));
            self.current_offset = self.current_offset + to_copy as u64;
            Some(to_copy)
        } else {
            None
        }
    }

    /// Records that `n` bytes were read from the underlying source at the
    /// read position.
    pub fn advance(&mut self, n: usize)
        requires
            old(self).position() + n <= u64::MAX,
        ensures
            final(self).position() == old(self).position() + n,
            final(self).retained() == old(self).retained(),
            final(self).window_start() == old(self).window_start(),
            final(self).size() == old(self).size(),
    {
        proof {
            use_type_invariant(&*self);
        }
        self.current_offset = self.current_offset + n as u64;
    }

    /// Moves the read position; it never passes the end of the file.
    pub fn seek(&mut self, pos: SeekPosition) -> (r: u64)
        requires
            seek_in_range(old(self).position(), old(self).size(), pos),
        ensures
            r == spec_seek(old(self).position(), old(self).size(), pos),
            final(self).position() == r,
            final(self).retained() == old(self).retained(),
            final(self).window_start() == old(self).window_start(),
            final(self).size() == old(self).size(),
    {
        proof {
            use_type_invariant(&*self);
        }
        self.current_offset = resolve_seek(self.current_offset, self.file_size, pos);
        self.current_offset
    }
}

/// Law: a retained window gives back the bytes it was given, at the
/// offsets they were fetched from.
pub proof fn law_read_after_retain(window_start: u64, data: Seq<u8>, k: int, length: int)
    requires
        0 <= k,
        0 <= length,
        k + length <= data.len(),
    ensures
        retained_span(window_start, data, window_start + k, length) == Some(data.subrange(k, k + length)),
{
}

/// Law: a window filled by a fetch serves the file's own bytes. When the
/// bytes retained from `start` are what a read of the file delivered there,
/// however few, any read served from that window at `position` gives the
/// file's bytes at `position`. A refused fetch never changes the window:
/// `fetch_length` takes the buffer by shared reference.
pub proof fn law_fetched_window_serves_file_data(file: Seq<u8>, start: u64, delivered: Seq<u8>, position: int, n: int)
    requires
        start + delivered.len() <= file.len(),
        delivered == file.subrange(start as int, start + delivered.len()),
        start <= position,
        0 <= n,
        position + n <= start + delivered.len(),
    ensures
        delivered.subrange(position - start, position - start + n) == file.subrange(position, position + n),
{
    assert(delivered.subrange(position - start, position - start + n)
        =~= file.subrange(position, position + n));
}

/// Law: nothing before the window, or reaching past its end, is served
/// from it.
pub proof fn law_outside_window_not_retained(window_start: u64, data: Seq<u8>, start: int, length: int)
    requires
        start < window_start || start + length > window_start + data.len(),
    ensures
        retained_span(window_start, data, start, length) is None,
{
}

} // verus!

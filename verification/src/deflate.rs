//! The bookkeeping of a DEFLATE extraction. The caller runs the inflater
//! and moves the bytes; this state decides how much to read next, tracks
//! the compressed and uncompressed positions, keeps the dictionary window
//! a resumed run needs, recognises block boundaries and says when a
//! checkpoint is due.
use vstd::prelude::*;
use crate::resume::ResumableCursor;

verus! {

broadcast use vstd::slice::group_slice_axioms;

/// The DEFLATE history a resumed inflater needs: 32 KiB.
pub const WINDOW_SIZE: usize = 32768;

/// Receives progress reports from an extraction.
pub trait ProgressObserver: Send + Sync {
    fn update_download(&self, bytes: u64);

    fn update_decompress(&self, bytes: u64);

    fn set_download_position(&self, bytes: u64);

    fn set_decompress_position(&self, bytes: u64);

    fn println(&self, msg: String);

    fn finish(&self);
}

/// Which member to decompress, where its payload is, and whether the run
/// may be checkpointed and resumed.
pub struct DecompressionOptions<'a> {
    pub uri: &'a str,
    pub filename: &'a str,
    pub payload_offset: u64,
    pub compressed_size: u64,
    pub uncompressed_size: u64,
    pub resumable: bool,
}

/// One output byte entering the window: at exactly 32 KiB the oldest byte
/// leaves first.
pub open spec fn window_step(w: Seq<u8>, b: u8) -> Seq<u8> {
    if w.len() == WINDOW_SIZE {
        w.drop_first().push(b)
    } else {
        w.push(b)
    }
}

/// The window after the bytes of `out` entered it one by one.
pub open spec fn window_after(w: Seq<u8>, out: Seq<u8>) -> Seq<u8>
    decreases out.len(),
{
    if out.len() == 0 {
        w
    } else {
        window_step(window_after(w, out.drop_last()), out.last())
    }
}

/// The same window in closed form: the last 32 KiB of everything seen when
/// the window started no larger than that; when it started larger, nothing
/// ever leaves it.
pub open spec fn window_closed(w: Seq<u8>, out: Seq<u8>) -> Seq<u8> {
    let all = w + out;
    if w.len() > WINDOW_SIZE || all.len() <= WINDOW_SIZE {
        all
    } else {
        all.skip(all.len() - WINDOW_SIZE)
    }
}

proof fn lemma_window_closed(w: Seq<u8>, out: Seq<u8>)
    ensures
        window_after(w, out) == window_closed(w, out),
    decreases out.len(),
{
    if out.len() > 0 {
        let prev = out.drop_last();
        let b = out.last();
        lemma_window_closed(w, prev);
        let all0 = w + prev;
        let all = w + out;
        assert(all =~= all0.push(b));
        if w.len() > WINDOW_SIZE {
            assert(window_after(w, out) =~= all);
        } else if all0.len() < WINDOW_SIZE {
            assert(window_after(w, out) =~= all);
        } else if all0.len() == WINDOW_SIZE {
            assert(window_after(w, out) =~= all.skip(all.len() - WINDOW_SIZE));
        } else {
            let c = all0.skip(all0.len() - WINDOW_SIZE);
            assert(c.len() == WINDOW_SIZE);
            assert(c.drop_first().push(b) =~= all.skip(all.len() - WINDOW_SIZE));
        }
    }
}

/// Outcome of one inflate call, as the inflater reports it.
#[derive(Debug, Clone, Copy, PartialEq, Eq, Structural)]
pub enum InflateStatus {
    Success,
    StreamEnd,
    NeedDict,
    ErrNo,
    StreamError,
    DataError,
    MemError,
    BufError,
    VersionError,
}

/// Whether an inflate call may be followed by more input: `Success` and
/// `BufError` continue, `StreamEnd` ends the stream (`true`), every other
/// status fails the extraction.
pub fn check_inflate_status(status: InflateStatus) -> (r: Result<bool, InflateStatus>)
    ensures
        match status {
            InflateStatus::Success | InflateStatus::BufError => r == Ok::<bool, InflateStatus>(false),
            InflateStatus::StreamEnd => r == Ok::<bool, InflateStatus>(true),
            _ => r == Err::<bool, InflateStatus>(status),
        },
{
    match status {
        InflateStatus::Success | InflateStatus::BufError => Ok(false),
        InflateStatus::StreamEnd => Ok(true),
        _ => Err(status),
    }
}

/// The inflater's `data_type` says it stopped on a block boundary: bit 7 is
/// set and bit 6 is clear.
pub open spec fn is_block_boundary(data_type: i32) -> bool {
    data_type & 128i32 != 0 && data_type & 64i32 == 0
}

/// The number of bits of the last consumed byte that belong to the next
/// block.
pub open spec fn pending_bits(data_type: i32) -> int {
    (data_type & 63i32) as int
}

/// The state of one extraction.
pub struct InflateTracker {
    start_offset: u64,
    current_payload_offset: u64,
    remaining: u64,
    uncompressed_offset: u64,
    last_checkpoint_uncompressed: u64,
    interval: u64,
    resumable: bool,
    window: Vec<u8>,
}

impl InflateTracker {
    #[verifier::type_invariant]
    spec fn positions_ordered(self) -> bool {
        &&& self.start_offset <= self.current_payload_offset
        &&& self.last_checkpoint_uncompressed <= self.uncompressed_offset
    }

    /// Offset of the payload's first byte.
    pub closed spec fn payload_start(self) -> u64 {
        self.start_offset
    }

    /// Offset of the next compressed byte to read.
    pub closed spec fn compressed_position(self) -> u64 {
        self.current_payload_offset
    }

    /// Compressed bytes still to read.
    pub closed spec fn remaining_input(self) -> u64 {
        self.remaining
    }

    /// Uncompressed bytes produced so far, counting those of a resumed run.
    pub closed spec fn produced(self) -> u64 {
        self.uncompressed_offset
    }

    /// Uncompressed offset of the last checkpoint.
    pub closed spec fn last_checkpoint(self) -> u64 {
        self.last_checkpoint_uncompressed
    }

    pub closed spec fn checkpoint_interval(self) -> u64 {
        self.interval
    }

    pub closed spec fn is_resumable(self) -> bool {
        self.resumable
    }

    /// The dictionary window.
    pub closed spec fn window(self) -> Seq<u8> {
        self.window@
    }

    /// The state at the start of an extraction: at the payload's start, or
    /// at the checkpoint's block boundary for a resumed run, with the
    /// checkpoint's window and uncompressed offset.
    pub fn start(options: &DecompressionOptions, interval: u64, checkpoint: Option<ResumableCursor>) -> (r: InflateTracker)
        requires
            checkpoint matches Some(cp) ==> cp.compressed_offset >= options.payload_offset,
        ensures
            r.payload_start() == options.payload_offset,
            r.checkpoint_interval() == interval,
            r.is_resumable() == options.resumable,
            match checkpoint {
                Some(cp) => {
                    &&& r.compressed_position() == cp.compressed_offset
                    &&& r.produced() == cp.uncompressed_offset
                    &&& r.last_checkpoint() == cp.uncompressed_offset
                    &&& r.window() == cp.dictionary_window@
                    &&& r.remaining_input() == (if options.compressed_size > cp.compressed_offset - options.payload_offset {
                        options.compressed_size - (cp.compressed_offset - options.payload_offset)
                    } else {
                        0
                    })
                },
                None => {
                    &&& r.compressed_position() == options.payload_offset
                    &&& r.produced() == 0
                    &&& r.last_checkpoint() == 0
                    &&& r.window() == Seq::<u8>::empty()
                    &&& r.remaining_input() == options.compressed_size
                },
            },
    {
        match checkpoint {
            Some(cp) => {
                let consumed = cp.compressed_offset - options.payload_offset;
                InflateTracker {
                    start_offset: options.payload_offset,
                    current_payload_offset: cp.compressed_offset,
                    remaining: options.compressed_size.saturating_sub(consumed),
                    uncompressed_offset: cp.uncompressed_offset,
                    last_checkpoint_uncompressed: cp.uncompressed_offset,
                    interval,
                    resumable: options.resumable,
                    window: cp.dictionary_window,
                }
            },
            None => InflateTracker {
                start_offset: options.payload_offset,
                current_payload_offset: options.payload_offset,
                remaining: options.compressed_size,
                uncompressed_offset: 0,
                last_checkpoint_uncompressed: 0,
                interval,
                resumable: options.resumable,
                window: Vec::new(),
            },
        }
    }

    /// Where to seek the source before the first read.
    pub fn resume_offset(&self) -> (r: u64)
        ensures
            r == self.compressed_position(),
    {
        self.current_payload_offset
    }

    /// Compressed bytes already behind the read position.
    pub fn download_position(&self) -> (r: u64)
        ensures
            r == self.compressed_position() - self.payload_start(),
    {
        proof {
            use_type_invariant(self);
        }
        self.current_payload_offset - self.start_offset
    }

    /// Uncompressed bytes produced so far.
    pub fn decompress_position(&self) -> (r: u64)
        ensures
            r == self.produced(),
    {
        self.uncompressed_offset
    }

    /// The dictionary window: the output a resumed inflater needs.
    pub fn dictionary_window(&self) -> (r: &[u8])
        ensures
            r@ == self.window(),
    {
        self.window.as_slice()
    }

    /// Compressed bytes still to read.
    pub fn remaining(&self) -> (r: u64)
        ensures
            r == self.remaining_input(),
    {
        self.remaining
    }

    /// How many bytes the next read asks for: a full chunk, or what remains.
    pub fn next_read_len(&self, chunk_len: usize) -> (r: usize)
        ensures
            r == (if self.remaining_input() < chunk_len { self.remaining_input() as int } else { chunk_len as int }),
    {
        if self.remaining < chunk_len as u64 {
            self.remaining as usize
        } else {
            chunk_len
        }
    }

    /// Records that `n` compressed bytes arrived.
    pub fn record_input(&mut self, n: usize)
        requires
            n <= old(self).remaining_input(),
        ensures
            final(self).remaining_input() == old(self).remaining_input() - n,
            final(self).compressed_position() == old(self).compressed_position(),
            final(self).payload_start() == old(self).payload_start(),
            final(self).produced() == old(self).produced(),
            final(self).last_checkpoint() == old(self).last_checkpoint(),
            final(self).checkpoint_interval() == old(self).checkpoint_interval(),
            final(self).is_resumable() == old(self).is_resumable(),
            final(self).window() == old(self).window(),
    {
        proof {
            use_type_invariant(&*self);
        }
        self.remaining = self.remaining - n as u64;
    }

    /// Records a chunk of uncompressed output: it is counted and enters the
    /// dictionary window.
    pub fn record_output(&mut self, out: &[u8])
        requires
            old(self).produced() + out@.len() <= u64::MAX,
            old(self).window().len() + out@.len() <= usize::MAX,
        ensures
            final(self).produced() == old(self).produced() + out@.len(),
            final(self).window() == window_after(old(self).window(), out@),
            final(self).remaining_input() == old(self).remaining_input(),
            final(self).compressed_position() == old(self).compressed_position(),
            final(self).payload_start() == old(self).payload_start(),
            final(self).last_checkpoint() == old(self).last_checkpoint(),
            final(self).checkpoint_interval() == old(self).checkpoint_interval(),
            final(self).is_resumable() == old(self).is_resumable(),
    {
        proof {
            use_type_invariant(&*self);
            lemma_window_closed(self.window@, out@);
        }
        let w_len = self.window.len();
        let total = w_len + out.len();
        let mut next: Vec<u8> = Vec::new();
        let ghost all = self.window@ + out@;
        let skip: usize = if w_len > WINDOW_SIZE || total <= WINDOW_SIZE { 0 } else { total - WINDOW_SIZE };
        let mut i: usize = skip;
        while i < total
            invariant
                skip <= i <= total,
                total == all.len(),
                w_len == self.window@.len(),
                all == self.window@ + out@,
                next@ == all.subrange(skip as int, i as int),
            decreases total - i,
        {
            let b = if i < w_len { self.window[i] } else { out[i - w_len] };
            next.push(b);
            i = i + 1;
            assert(next@ =~= all.subrange(skip as int, i as int));
        }
        assert(next@ =~= window_closed(self.window@, out@));
        self.uncompressed_offset = self.uncompressed_offset + out.len() as u64;
        self.window = next;
    }

    /// The cursor to remember when the inflater stopped on a block
    /// boundary during a resumable run. `consumed` bytes of the `chunk` that
    /// began at the compressed position have been used; the bits of the last
    /// consumed byte that belong to the next block are kept, high bits
    /// first.
    pub fn block_boundary_cursor(&self, data_type: i32, chunk: &[u8], consumed: usize) -> (r: Option<ResumableCursor>)
        requires
            consumed <= chunk@.len(),
            self.compressed_position() + consumed <= u64::MAX,
            is_block_boundary(data_type) ==> pending_bits(data_type) <= 8,
            is_block_boundary(data_type) && pending_bits(data_type) > 0 ==> consumed > 0,
        ensures
            match r {
                Some(c) => {
                    &&& self.is_resumable() && is_block_boundary(data_type)
                    &&& c.compressed_offset == self.compressed_position() + consumed
                    &&& c.uncompressed_offset == self.produced()
                    &&& c.bit_count == pending_bits(data_type)
                    &&& c.bits == (if pending_bits(data_type) > 0 {
                        (chunk@[consumed - 1] >> ((8 - pending_bits(data_type)) as u8)) as int
                    } else {
                        0
                    })
                    &&& c.dictionary_window@ == self.window()
                },
                None => !(self.is_resumable() && is_block_boundary(data_type)),
            },
    {
        if !(self.resumable && (data_type & 128 != 0 && data_type & 64 == 0)) {
            return None;
        }
        assert(0 <= (data_type & 63i32) <= 63) by (bit_vector);
        let bit_count = (data_type & 63) as u8;
        let bits: u8 = if bit_count > 0 {
            chunk[consumed - 1] >> (8 - bit_count)
        } else {
            0
        };
        Some(ResumableCursor {
            compressed_offset: self.current_payload_offset + consumed as u64,
            uncompressed_offset: self.uncompressed_offset,
            bit_count,
            bits,
            dictionary_window: vstd::slice::slice_to_vec(self.window.as_slice()),
        })
    }

    /// A checkpoint is due once an interval of output has passed since the
    /// last one.
    pub fn checkpoint_due(&self) -> (r: bool)
        ensures
            r == (self.produced() - self.last_checkpoint() >= self.checkpoint_interval()),
    {
        proof {
            use_type_invariant(self);
        }
        self.uncompressed_offset - self.last_checkpoint_uncompressed >= self.interval
    }

    /// Records that a checkpoint was written at the current output offset.
    pub fn mark_checkpoint(&mut self)
        ensures
            final(self).last_checkpoint() == old(self).produced(),
            final(self).produced() == old(self).produced(),
            final(self).remaining_input() == old(self).remaining_input(),
            final(self).compressed_position() == old(self).compressed_position(),
            final(self).payload_start() == old(self).payload_start(),
            final(self).checkpoint_interval() == old(self).checkpoint_interval(),
            final(self).is_resumable() == old(self).is_resumable(),
            final(self).window() == old(self).window(),
    {
        proof {
            use_type_invariant(&*self);
        }
        self.last_checkpoint_uncompressed = self.uncompressed_offset;
    }

    /// Records that the inflater reported the end of the stream: nothing
    /// more is read.
    pub fn end_stream(&mut self)
        ensures
            final(self).remaining_input() == 0,
            final(self).produced() == old(self).produced(),
            final(self).compressed_position() == old(self).compressed_position(),
            final(self).payload_start() == old(self).payload_start(),
            final(self).last_checkpoint() == old(self).last_checkpoint(),
            final(self).checkpoint_interval() == old(self).checkpoint_interval(),
            final(self).is_resumable() == old(self).is_resumable(),
            final(self).window() == old(self).window(),
    {
        proof {
            use_type_invariant(&*self);
        }
        self.remaining = 0;
    }

    /// Moves the compressed position past a chunk of `n` bytes once the
    /// inflater is done with it.
    pub fn finish_chunk(&mut self, n: usize)
        requires
            old(self).compressed_position() + n <= u64::MAX,
        ensures
            final(self).compressed_position() == old(self).compressed_position() + n,
            final(self).remaining_input() == old(self).remaining_input(),
            final(self).produced() == old(self).produced(),
            final(self).payload_start() == old(self).payload_start(),
            final(self).last_checkpoint() == old(self).last_checkpoint(),
            final(self).checkpoint_interval() == old(self).checkpoint_interval(),
            final(self).is_resumable() == old(self).is_resumable(),
            final(self).window() == old(self).window(),
    {
        proof {
            use_type_invariant(&*self);
        }
        self.current_payload_offset = self.current_payload_offset + n as u64;
    }
}

/// Law: starting from nothing, the window holds exactly the last 32 KiB of
/// the output, or all of it while there is less.
pub proof fn law_window_is_recent_output(out: Seq<u8>)
    ensures
        window_after(Seq::empty(), out) == (if out.len() <= WINDOW_SIZE {
            out
        } else {
            out.skip(out.len() - WINDOW_SIZE)
        }),
        window_after(Seq::empty(), out).len() <= WINDOW_SIZE,
{
    lemma_window_closed(Seq::empty(), out);
    assert(Seq::<u8>::empty() + out =~= out);
}

/// Law: a window that starts no larger than 32 KiB stays so.
pub proof fn law_window_bounded(w: Seq<u8>, out: Seq<u8>)
    requires
        w.len() <= WINDOW_SIZE,
    ensures
        window_after(w, out).len() <= WINDOW_SIZE,
{
    lemma_window_closed(w, out);
}

/// Law: feeding output in two chunks leaves the same window as feeding it
/// at once, so the chunk size of the inflater does not matter.
pub proof fn law_window_chunking(w: Seq<u8>, a: Seq<u8>, b: Seq<u8>)
    ensures
        window_after(window_after(w, a), b) == window_after(w, a + b),
{
    lemma_window_closed(w, a);
    lemma_window_closed(window_after(w, a), b);
    lemma_window_closed(w, a + b);
    let all = w + a + b;
    assert(w + (a + b) =~= all);
    if w.len() > WINDOW_SIZE {
        assert((w + a) + b =~= all);
    } else if (w + a).len() <= WINDOW_SIZE {
        assert((w + a) + b =~= all);
    } else {
        let c = (w + a).skip((w + a).len() - WINDOW_SIZE);
        assert(c + b =~= all.skip((w + a).len() - WINDOW_SIZE));
        assert((c + b).skip((c + b).len() - WINDOW_SIZE) =~= all.skip(all.len() - WINDOW_SIZE));
    }
}

/// Law: at a block boundary the cursor keeps the inflater's whole count of
/// unused bits, the low six bits of `data_type` (any value 0..63, so every
/// count 0..7 zlib reports), and the boundary is bit 7 set with bit 6 clear.
pub proof fn law_boundary_bit_count(data_type: i32)
    requires
        0 <= data_type,
    ensures
        pending_bits(data_type) == data_type % 64,
        is_block_boundary(data_type) <==> (data_type / 128) % 2 == 1 && (data_type / 64) % 2 == 0,
{
    assert(0 <= data_type ==> (data_type & 63i32) == data_type % 64) by (bit_vector);
    assert(0 <= data_type ==> ((data_type & 128i32 != 0) <==> (data_type / 128) % 2 == 1)) by (bit_vector);
    assert(0 <= data_type ==> ((data_type & 64i32 == 0) <==> (data_type / 64) % 2 == 0)) by (bit_vector);
}

/// Law: the bits a cursor keeps (`last >> (8 - pending_bits)`, as
/// `block_boundary_cursor` computes them from the last consumed byte) are
/// the top `k = data_type % 64` bits of that byte: shifted back into place
/// they give the byte with its low `8 - k` bits cleared, and they are fewer
/// than `2^k`.
pub proof fn law_cursor_bits_are_top_bits(data_type: i32, last: u8)
    requires
        0 <= data_type,
        1 <= data_type % 64 <= 8,
    ensures
        ({
            let v = (last >> ((8 - pending_bits(data_type)) as u8)) as u16;
            let k = (data_type % 64) as u16;
            &&& v << (8 - k) as u16 <= last as u16
            &&& (last as u16) < ((v + 1) as u16) << (8 - k) as u16
            &&& v < 1u16 << k
        }),
{
    law_boundary_bit_count(data_type);
    let k: u16 = (data_type % 64) as u16;
    let sh: u8 = (8 - k) as u8;
    assert(1 <= k <= 8 && sh == 8 - k ==> {
        let v = (last >> sh) as u16;
        &&& v << (8 - k) as u16 <= last as u16
        &&& (last as u16) < ((v + 1) as u16) << (8 - k) as u16
        &&& v < 1u16 << k
    }) by (bit_vector);
}

} // verus!

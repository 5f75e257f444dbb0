//! Seeking over a file of known size, shared by every source an archive is
//! read from.
use vstd::prelude::*;

pub mod http;
pub mod wasi_http;

verus! {

/// A seek request, relative to the start, the current position or the end.
#[derive(Debug, Clone, Copy, PartialEq, Eq, Structural)]
pub enum SeekPosition {
    Start(u64),
    Current(i64),
    End(i64),
}

/// A seek can be computed without overflow: a backward offset is not
/// `i64::MIN`, and a forward one stays within 64 bits.
pub open spec fn seek_in_range(current: u64, file_size: u64, pos: SeekPosition) -> bool {
    match pos {
        SeekPosition::Start(_) => true,
        SeekPosition::Current(o) => o != i64::MIN && (o >= 0 ==> current + o <= u64::MAX),
        SeekPosition::End(o) => o != i64::MIN && (o >= 0 ==> file_size + o <= u64::MAX),
    }
}

/// `base + o`, stopped at zero.
pub open spec fn offset_by(base: int, o: int) -> int {
    if base + o < 0 {
        0
    } else {
        base + o
    }
}

/// The position a seek moves to: the requested offset, stopped at zero
/// below and at the end of the file above.
pub open spec fn spec_seek(current: u64, file_size: u64, pos: SeekPosition) -> int {
    let target = match pos {
        SeekPosition::Start(o) => o as int,
        SeekPosition::Current(o) => offset_by(current as int, o as int),
        SeekPosition::End(o) => offset_by(file_size as int, o as int),
    };
    if target < file_size {
        target
    } else {
        file_size as int
    }
}

/// Whether `resolve_seek` can be called: the seek does not overflow.
pub fn seek_computable(current: u64, file_size: u64, pos: SeekPosition) -> (r: bool)
    ensures
        r == seek_in_range(current, file_size, pos),
{
    match pos {
        SeekPosition::Start(_) => true,
        SeekPosition::Current(o) => o != i64::MIN && (o < 0 || current <= u64::MAX - o as u64),
        SeekPosition::End(o) => o != i64::MIN && (o < 0 || file_size <= u64::MAX - o as u64),
    }
}

/// `base` moved by the signed offset `o`, stopped at zero.
fn offset_from(base: u64, o: i64) -> (r: u64)
    requires
        o != i64::MIN,
        o >= 0 ==> base + o <= u64::MAX,
    ensures
        r == offset_by(base as int, o as int),
{
    if o < 0 {
        base.saturating_sub((-o) as u64)
    } else {
        base + (o as u64)
    }
}

/// Resolves a seek against the current position and the file size.
pub fn resolve_seek(current: u64, file_size: u64, pos: SeekPosition) -> (r: u64)
    requires
        seek_in_range(current, file_size, pos),
    ensures
        r == spec_seek(current, file_size, pos),
        r <= file_size,
{
    let target = match pos {
        SeekPosition::Start(o) => o,
        SeekPosition::Current(o) => offset_from(current, o),
        SeekPosition::End(o) => offset_from(file_size, o),
    };
    if target < file_size {
        target
    } else {
        file_size
    }
}

/// Law: a seek never moves the position past the end of the file.
pub proof fn law_seek_within_file(current: u64, file_size: u64, pos: SeekPosition)
    ensures
        0 <= spec_seek(current, file_size, pos) <= file_size,
{
}

/// Law: seeking to an offset inside the file reaches exactly that offset,
/// whatever the position was; so a seek back to a saved position undoes
/// any move.
pub proof fn law_seek_start_restores(current: u64, file_size: u64, p: u64)
    requires
        p <= file_size,
    ensures
        spec_seek(current, file_size, SeekPosition::Start(p)) == p,
{
}

/// Law: a relative seek by zero keeps a position that is inside the file.
pub proof fn law_seek_current_zero_keeps(current: u64, file_size: u64)
    requires
        current <= file_size,
    ensures
        spec_seek(current, file_size, SeekPosition::Current(0)) == current,
{
}

/// Law: a backward seek further than the position stops at the start.
pub proof fn law_seek_backward_stops_at_start(current: u64, file_size: u64, o: i64)
    requires
        o < 0,
        current + o < 0,
    ensures
        spec_seek(current, file_size, SeekPosition::Current(o)) == 0,
{
}

/// Law: a relative seek, forward or backward, to a position inside the file
/// lands exactly there; and a seek relative to the end lands where a seek
/// by the same amount from a position at the end lands.
pub proof fn law_seek_relative_lands(current: u64, file_size: u64, o: i64)
    ensures
        0 <= current + o <= file_size ==> spec_seek(current, file_size, SeekPosition::Current(o)) == current + o,
        0 <= file_size + o <= file_size ==> spec_seek(current, file_size, SeekPosition::End(o)) == file_size + o,
        spec_seek(current, file_size, SeekPosition::End(o)) == spec_seek(file_size, file_size, SeekPosition::Current(o)),
{
}

/// Law: two relative seeks that stay inside the file add up: moving by `a`
/// and then by `b` reaches the position that moving by `a + b` reaches.
pub proof fn law_seek_relative_composes(current: u64, file_size: u64, a: i64, b: i64)
    requires
        0 <= current + a <= file_size,
        0 <= current + a + b <= file_size,
        i64::MIN <= a + b <= i64::MAX,
    ensures
        spec_seek(spec_seek(current, file_size, SeekPosition::Current(a)) as u64, file_size, SeekPosition::Current(b))
            == spec_seek(current, file_size, SeekPosition::Current((a + b) as i64)),
{
}

} // verus!

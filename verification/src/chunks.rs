//! The chunks of a MIDI file, as far as they decide whether the file can be
//! handed to the decoder.
//!
//! A Standard MIDI File is a run of chunks: four bytes of name, four bytes
//! of length, most significant first, and that many bytes of data. It may be
//! wrapped in a RIFF file, whose `data` chunk then holds the run. The
//! `midly` crate walks the run from its start. It reads a header out of
//! every chunk called `MThd` that it comes to, and stops at the first chunk
//! it cannot read.
//!
//! Reading a header, `midly` takes the first byte of a division that counts
//! in frames per second as a signed number and negates it. The byte 0x80 is
//! -128, which has no negative in eight bits; where overflow is checked,
//! that stops the program. [`has_unreadable_header`] says of which files the
//! walk comes to such a header, and [`find_unreadable_header`] finds out.
//! Bytes that the walk never takes for a header do not count, whatever they
//! are.

use vstd::prelude::*;

verus! {

/// Whether the four bytes `a b c d` stand at place `p` of `raw`.
pub open spec fn has_tag(raw: Seq<u8>, p: int, a: u8, b: u8, c: u8, d: u8) -> bool {
    raw[p] == a && raw[p + 1] == b && raw[p + 2] == c && raw[p + 3] == d
}

/// Whether `MThd`, the name of a header chunk, stands at place `p`.
pub open spec fn is_mthd(raw: Seq<u8>, p: int) -> bool {
    has_tag(raw, p, 0x4D, 0x54, 0x68, 0x64)
}

/// Whether `MTrk`, the name of a track chunk, stands at place `p`.
pub open spec fn is_mtrk(raw: Seq<u8>, p: int) -> bool {
    has_tag(raw, p, 0x4D, 0x54, 0x72, 0x6B)
}

/// Whether `RIFF` stands at place `p`.
pub open spec fn is_riff(raw: Seq<u8>, p: int) -> bool {
    has_tag(raw, p, 0x52, 0x49, 0x46, 0x46)
}

/// Whether `RMID` stands at place `p`.
pub open spec fn is_rmid(raw: Seq<u8>, p: int) -> bool {
    has_tag(raw, p, 0x52, 0x4D, 0x49, 0x44)
}

/// Whether `data` stands at place `p`.
pub open spec fn is_data(raw: Seq<u8>, p: int) -> bool {
    has_tag(raw, p, 0x64, 0x61, 0x74, 0x61)
}

/// The number that the two bytes at place `p` write, most significant
/// first.
pub open spec fn be16(raw: Seq<u8>, p: int) -> int {
    raw[p] * 0x100 + raw[p + 1]
}

/// The number that the four bytes at place `p` write, most significant
/// first.
pub open spec fn be32(raw: Seq<u8>, p: int) -> int {
    raw[p] * 0x100_0000 + raw[p + 1] * 0x1_0000 + raw[p + 2] * 0x100 + raw[p + 3]
}

/// The number that the four bytes at place `p` write, least significant
/// first.
pub open spec fn le32(raw: Seq<u8>, p: int) -> int {
    raw[p] + raw[p + 1] * 0x100 + raw[p + 2] * 0x1_0000 + raw[p + 3] * 0x100_0000
}

/// Where the data of a chunk ends, whose data begins at `body` and is `len`
/// bytes long by its length field, in bytes that end at `hi`: a chunk that
/// is longer than what is left takes all that is left.
pub open spec fn body_end(body: int, len: int, hi: int) -> int {
    if len <= hi - body {
        body + len
    } else {
        hi
    }
}

/// Whether a first byte of a division names one of the four frame rates:
/// 24, 25, 29 or 30 frames per second, written as negative numbers.
pub open spec fn is_frame_rate(byte: u8) -> bool {
    byte == 0xE8 || byte == 0xE7 || byte == 0xE3 || byte == 0xE2
}

/// Whether the decoder gets as far as the division of the header whose
/// data is `raw[lo..hi]`: there are the six bytes of a header, and the
/// format, its first two, is 0, 1 or 2.
pub open spec fn header_has_division(raw: Seq<u8>, lo: int, hi: int) -> bool {
    hi - lo >= 6 && be16(raw, lo) <= 2
}

/// Whether reading the header whose data is `raw[lo..hi]` overflows: the
/// decoder gets as far as the division, and its first byte is 0x80.
pub open spec fn header_overflows(raw: Seq<u8>, lo: int, hi: int) -> bool {
    header_has_division(raw, lo, hi) && raw[lo + 4] == 0x80
}

/// Whether the decoder reads the header whose data is `raw[lo..hi]`: it
/// gets as far as the division, which counts in ticks per beat or in one of
/// the four frame rates.
pub open spec fn header_reads(raw: Seq<u8>, lo: int, hi: int) -> bool {
    header_has_division(raw, lo, hi) && (raw[lo + 4] < 0x80 || is_frame_rate(raw[lo + 4]))
}

/// Whether the walk over the chunks in `raw[lo..hi]` comes to a header
/// whose reading overflows. `first` says that no header and no track was
/// passed yet.
///
/// Fewer than eight bytes are the end of the walk. Of a header chunk the
/// header is read; where that fails the walk ends. A track chunk ends the
/// walk where it comes before the first header, and is passed over after
/// it. A chunk of any other name is passed over.
pub open spec fn walk_overflows(raw: Seq<u8>, lo: int, hi: int, first: bool) -> bool
    decreases hi - lo,
{
    if hi - lo < 8 {
        false
    } else {
        let body = lo + 8;
        let end = body_end(body, be32(raw, lo + 4), hi);
        if is_mthd(raw, lo) {
            if header_overflows(raw, body, end) {
                true
            } else if header_reads(raw, body, end) {
                walk_overflows(raw, end, hi, false)
            } else {
                false
            }
        } else if is_mtrk(raw, lo) {
            if first {
                false
            } else {
                walk_overflows(raw, end, hi, false)
            }
        } else {
            walk_overflows(raw, end, hi, first)
        }
    }
}

/// Where the first chunk after `end` begins in a RIFF file whose bytes end
/// at `hi`, where `end` is the end of the data of a chunk of `len` bytes: a
/// chunk of odd length is followed by one byte of padding, if a byte is
/// left.
pub open spec fn riff_next(end: int, len: int, hi: int) -> int {
    if len % 2 == 1 && end < hi {
        end + 1
    } else {
        end
    }
}

/// The data of the first chunk called `data` among the RIFF chunks in
/// `raw[lo..hi]`, as the places where it begins and ends. The lengths of
/// RIFF chunks are written least significant byte first.
pub open spec fn riff_data(raw: Seq<u8>, lo: int, hi: int) -> Option<(int, int)>
    decreases hi - lo,
{
    if hi - lo < 8 {
        None
    } else {
        let body = lo + 8;
        let len = le32(raw, lo + 4);
        let end = body_end(body, len, hi);
        if is_data(raw, lo) {
            Some((body, end))
        } else {
            riff_data(raw, riff_next(end, len, hi), hi)
        }
    }
}

/// The bytes of `raw` in which the decoder looks for chunks: all of them
/// where they begin with `MThd`; the `data` chunk of the form `RMID` where
/// they begin with `RIFF`; none otherwise, and then nothing is walked.
pub open spec fn smf_range(raw: Seq<u8>) -> Option<(int, int)> {
    if raw.len() < 4 {
        None
    } else if is_mthd(raw, 0) {
        Some((0, raw.len() as int))
    } else if is_riff(raw, 0) && raw.len() >= 8 {
        let end = body_end(8, le32(raw, 4), raw.len() as int);
        if end - 8 >= 4 && is_rmid(raw, 8) {
            riff_data(raw, 12, end)
        } else {
            None
        }
    } else {
        None
    }
}

/// Whether the decoder's walk over `raw` comes to a header that it cannot
/// read without overflow.
pub open spec fn has_unreadable_header(raw: Seq<u8>) -> bool {
    match smf_range(raw) {
        Some((lo, hi)) => walk_overflows(raw, lo, hi, true),
        None => false,
    }
}

/// Whether the four bytes `a b c d` stand at place `p` of `raw`.
fn tag_is(raw: &[u8], p: usize, a: u8, b: u8, c: u8, d: u8) -> (same: bool)
    requires
        p + 4 <= raw.len(),
    ensures
        same == has_tag(raw@, p as int, a, b, c, d),
{
    raw[p] == a && raw[p + 1] == b && raw[p + 2] == c && raw[p + 3] == d
}

/// Reads four bytes, most significant first.
fn read_be32(raw: &[u8], p: usize) -> (n: u64)
    requires
        p + 4 <= raw.len(),
    ensures
        n == be32(raw@, p as int),
        n <= 0xffff_ffff,
{
    (raw[p] as u64) * 0x100_0000 + (raw[p + 1] as u64) * 0x1_0000 + (raw[p + 2] as u64) * 0x100 + (
    raw[p + 3] as u64)
}

/// Reads four bytes, least significant first.
fn read_le32(raw: &[u8], p: usize) -> (n: u64)
    requires
        p + 4 <= raw.len(),
    ensures
        n == le32(raw@, p as int),
        n <= 0xffff_ffff,
{
    (raw[p] as u64) + (raw[p + 1] as u64) * 0x100 + (raw[p + 2] as u64) * 0x1_0000 + (raw[p
        + 3] as u64) * 0x100_0000
}

/// Where the data of a chunk ends.
fn chunk_end(body: usize, len: u64, hi: usize) -> (end: usize)
    requires
        body <= hi,
    ensures
        end == body_end(body as int, len as int, hi as int),
        body <= end <= hi,
{
    if len <= (hi - body) as u64 {
        body + len as usize
    } else {
        hi
    }
}

/// Walks over the chunks in `raw[lo..hi]` as the decoder does.
fn walk(raw: &[u8], lo: usize, hi: usize) -> (found: bool)
    requires
        lo <= hi <= raw.len(),
    ensures
        found == walk_overflows(raw@, lo as int, hi as int, true),
{
    let mut at: usize = lo;
    let mut first: bool = true;
    while hi - at >= 8
        invariant
            at <= hi <= raw.len(),
            walk_overflows(raw@, lo as int, hi as int, true) == walk_overflows(
                raw@,
                at as int,
                hi as int,
                first,
            ),
        decreases hi - at,
    {
        let body: usize = at + 8;
        let end: usize = chunk_end(body, read_be32(raw, at + 4), hi);
        if tag_is(raw, at, 0x4D, 0x54, 0x68, 0x64) {
            let reaches: bool = end - body >= 6 && (raw[body] as u16) * 0x100 + (raw[body
                + 1] as u16) <= 2;
            if !reaches {
                return false;
            }
            let division: u8 = raw[body + 4];
            if division == 0x80 {
                return true;
            }
            if division > 0x80 && division != 0xE8 && division != 0xE7 && division != 0xE3
                && division != 0xE2 {
                return false;
            }
            first = false;
        } else if tag_is(raw, at, 0x4D, 0x54, 0x72, 0x6B) {
            if first {
                return false;
            }
        }
        at = end;
    }
    false
}

/// Finds the data of the first chunk called `data` among the RIFF chunks
/// in `raw[lo..hi]`.
fn find_riff_data(raw: &[u8], lo: usize, hi: usize) -> (found: Option<(usize, usize)>)
    requires
        lo <= hi <= raw.len(),
    ensures
        match found {
            Some((from, to)) => riff_data(raw@, lo as int, hi as int) == Some(
                (from as int, to as int),
            ) && from <= to <= hi,
            None => riff_data(raw@, lo as int, hi as int) is None,
        },
{
    let mut at: usize = lo;
    while hi - at >= 8
        invariant
            at <= hi <= raw.len(),
            riff_data(raw@, lo as int, hi as int) == riff_data(raw@, at as int, hi as int),
        decreases hi - at,
    {
        let body: usize = at + 8;
        let len: u64 = read_le32(raw, at + 4);
        let end: usize = chunk_end(body, len, hi);
        if tag_is(raw, at, 0x64, 0x61, 0x74, 0x61) {
            return Some((body, end));
        }
        at = if len % 2 == 1 && end < hi {
            end + 1
        } else {
            end
        };
    }
    None
}

/// Looks for a header that the decoder cannot read, along the way on which
/// the decoder walks over `raw`.
pub fn find_unreadable_header(raw: &[u8]) -> (found: bool)
    ensures
        found == has_unreadable_header(raw@),
{
    let n: usize = raw.len();
    if n < 4 {
        false
    } else if tag_is(raw, 0, 0x4D, 0x54, 0x68, 0x64) {
        walk(raw, 0, n)
    } else if tag_is(raw, 0, 0x52, 0x49, 0x46, 0x46) && n >= 8 {
        let end: usize = chunk_end(8, read_le32(raw, 4), n);
        if end - 8 >= 4 && tag_is(raw, 8, 0x52, 0x4D, 0x49, 0x44) {
            match find_riff_data(raw, 12, end) {
                Some((from, to)) => walk(raw, from, to),
                None => false,
            }
        } else {
            false
        }
    } else {
        false
    }
}

} // verus!

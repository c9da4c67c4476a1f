//! The frame scanner: finds the first complete frame in a run of bytes.
//!
//! A frame opens with the start marker `FF D8` and closes with the first end
//! marker `FF D9` found at or after that start marker. The bytes in between
//! are not inspected: a marker-like pair inside a frame's data ends the frame
//! early.

use vstd::prelude::*;

verus! {

/// First byte of both markers.
pub const MARKER_LEAD: u8 = 0xFF;

/// Second byte of the start marker.
pub const START_TAG: u8 = 0xD8;

/// Second byte of the end marker.
pub const END_TAG: u8 = 0xD9;

/// The marker with second byte `tag` occupies positions `i` and `i + 1` of `s`.
pub open spec fn marker_at(s: Seq<u8>, tag: u8, i: int) -> bool {
    &&& 0 <= i
    &&& i + 1 < s.len()
    &&& s[i] == MARKER_LEAD
    &&& s[i + 1] == tag
}

/// A start marker begins at position `i` of `s`.
pub open spec fn start_at(s: Seq<u8>, i: int) -> bool {
    marker_at(s, START_TAG, i)
}

/// An end marker begins at position `i` of `s`.
pub open spec fn end_at(s: Seq<u8>, i: int) -> bool {
    marker_at(s, END_TAG, i)
}

/// Position of the first marker with second byte `tag` that begins at or
/// after `from`, if there is one.
pub open spec fn next_marker(s: Seq<u8>, tag: u8, from: int) -> Option<int>
    decreases s.len() - from,
{
    if from + 1 >= s.len() {
        None
    } else if marker_at(s, tag, from) {
        Some(from)
    } else {
        next_marker(s, tag, from + 1)
    }
}

/// What a run of bytes holds, as positions in that run.
pub enum Extent {
    /// No start marker anywhere.
    NoStart,
    /// The first start marker begins at `start`; no end marker begins at or
    /// after it.
    Incomplete { start: int },
    /// The first start marker begins at `start`, and the first end marker at
    /// or after it finishes just before `end`: the frame is the half-open
    /// range from `start` to `end`.
    Frame { start: int, end: int },
}

/// The extent of the first frame of `s`: its first start marker, and the
/// first end marker that begins at or after that start marker.
pub open spec fn extent_of(s: Seq<u8>) -> Extent {
    match next_marker(s, START_TAG, 0) {
        None => Extent::NoStart,
        Some(start) => match next_marker(s, END_TAG, start) {
            None => Extent::Incomplete { start },
            Some(last) => Extent::Frame { start, end: last + 2 },
        },
    }
}

/// `next_marker` returns the least position at or after `from` that holds the
/// marker, and `None` exactly when no such position exists.
pub proof fn lemma_next_marker(s: Seq<u8>, tag: u8, from: int)
    ensures
        match next_marker(s, tag, from) {
            Some(i) => {
                &&& from <= i
                &&& marker_at(s, tag, i)
                &&& forall|k: int| from <= k < i ==> !marker_at(s, tag, k)
            },
            None => forall|k: int| from <= k ==> !marker_at(s, tag, k),
        },
    decreases s.len() - from,
{
    if from + 1 < s.len() && !marker_at(s, tag, from) {
        lemma_next_marker(s, tag, from + 1);
    }
}

/// Any position that holds the marker, with none between `from` and it, is
/// the one `next_marker` returns.
pub proof fn lemma_next_marker_unique(s: Seq<u8>, tag: u8, from: int, i: int)
    requires
        from <= i,
        marker_at(s, tag, i),
        forall|k: int| from <= k < i ==> !marker_at(s, tag, k),
    ensures
        next_marker(s, tag, from) == Some(i),
{
    lemma_next_marker(s, tag, from);
}

/// `extent_of` in terms of marker positions: the start is the least position
/// of a start marker, the end marker is the least one from there on, and the
/// two markers of a frame do not overlap.
pub proof fn lemma_extent_of(s: Seq<u8>)
    ensures
        match extent_of(s) {
            Extent::NoStart => forall|i: int| !start_at(s, i),
            Extent::Incomplete { start } => {
                &&& start_at(s, start)
                &&& forall|k: int| k < start ==> !start_at(s, k)
                &&& forall|j: int| start <= j ==> !end_at(s, j)
            },
            Extent::Frame { start, end } => {
                &&& start_at(s, start)
                &&& forall|k: int| k < start ==> !start_at(s, k)
                &&& start + 4 <= end <= s.len()
                &&& end_at(s, end - 2)
                &&& forall|j: int| start <= j < end - 2 ==> !end_at(s, j)
            },
        },
{
    lemma_next_marker(s, START_TAG, 0);
    if let Some(start) = next_marker(s, START_TAG, 0) {
        lemma_next_marker(s, END_TAG, start);
    }
}

/// Result of scanning a buffer, as indices into it.
#[derive(Clone, Copy, Debug, PartialEq, Eq)]
pub enum Scan {
    /// No start marker: nothing to emit, and every byte has to be kept.
    NoStart,
    /// A frame has begun at `start` and is not finished: everything from
    /// `start` on has to be kept.
    Incomplete { start: usize },
    /// A complete frame occupies `start..end`.
    Frame { start: usize, end: usize },
}

impl View for Scan {
    type V = Extent;

    /// The same finding, with positions as mathematical integers.
    open spec fn view(&self) -> Extent {
        match *self {
            Scan::NoStart => Extent::NoStart,
            Scan::Incomplete { start } => Extent::Incomplete { start: start as int },
            Scan::Frame { start, end } => Extent::Frame { start: start as int, end: end as int },
        }
    }
}

/// Finds the first marker with second byte `tag` that begins at or after
/// `from`.
pub fn find_marker(buf: &[u8], tag: u8, from: usize) -> (found: Option<usize>)
    ensures
        match found {
            Some(i) => next_marker(buf@, tag, from as int) == Some(i as int),
            None => next_marker(buf@, tag, from as int) is None,
        },
{
    let n: usize = buf.len();
    if n < 2 {
        return None;
    }
    let mut i: usize = from;
    while i < n - 1
        invariant
            n == buf.len(),
            n >= 2,
            from <= i,
            next_marker(buf@, tag, from as int) == next_marker(buf@, tag, i as int),
        decreases n - i,
    {
        if buf[i] == MARKER_LEAD && buf[i + 1] == tag {
            return Some(i);
        }
        i = i + 1;
    }
    None
}

/// Scans `buf` for its first frame: reports whether a start marker was
/// found, and if so whether an end marker follows it, with their positions.
pub fn scan(buf: &[u8]) -> (found: Scan)
    ensures
        found@ == extent_of(buf@),
{
    match find_marker(buf, START_TAG, 0) {
        None => Scan::NoStart,
        Some(start) => match find_marker(buf, END_TAG, start) {
            None => Scan::Incomplete { start },
            Some(last) => {
                proof {
                    // The end marker lies within `buf`, so `last + 2` is an
                    // index of at most its length.
                    lemma_next_marker(buf@, END_TAG, start as int);
                    assert(last + 1 < buf.len());
                }
                Scan::Frame { start, end: last + 2 }
            },
        },
    }
}

} // verus!

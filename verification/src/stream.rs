//! What a whole byte stream holds: its frames, in order, and the bytes left
//! over after the last complete frame.
//!
//! The extractor emits a frame as soon as its end marker has arrived and
//! drops the bytes up to there. `frames_of` and `residue` describe the result
//! of doing so until no complete frame is left.

use vstd::prelude::*;
use crate::scanner::{
    end_at, extent_of, lemma_extent_of, lemma_next_marker_unique, marker_at, start_at, Extent,
    END_TAG, START_TAG,
};

verus! {

/// The frames of `s` in stream order: the first frame that the scanner finds,
/// then the frames of what follows it.
pub open spec fn frames_of(s: Seq<u8>) -> Seq<Seq<u8>>
    decreases s.len(),
    via frames_of_terminates
{
    match extent_of(s) {
        Extent::Frame { start, end } => seq![s.subrange(start, end)] + frames_of(s.skip(end)),
        _ => Seq::empty(),
    }
}

#[via_fn]
proof fn frames_of_terminates(s: Seq<u8>) {
    lemma_extent_of(s);
}

/// The bytes of `s` that follow its last complete frame: all of `s` when it
/// holds no complete frame.
pub open spec fn residue(s: Seq<u8>) -> Seq<u8>
    decreases s.len(),
    via residue_terminates
{
    match extent_of(s) {
        Extent::Frame { start, end } => residue(s.skip(end)),
        _ => s,
    }
}

#[via_fn]
proof fn residue_terminates(s: Seq<u8>) {
    lemma_extent_of(s);
}

/// How many bytes of `s` lie before the end of its last complete frame.
pub open spec fn consumed(s: Seq<u8>) -> int
    decreases s.len(),
    via consumed_terminates
{
    match extent_of(s) {
        Extent::Frame { start, end } => end + consumed(s.skip(end)),
        _ => 0,
    }
}

#[via_fn]
proof fn consumed_terminates(s: Seq<u8>) {
    lemma_extent_of(s);
}

/// Bytes leave a stream from its head only: what is left over is the stream
/// without the bytes up to the end of its last complete frame, and all of
/// the stream if it holds no frame.
pub proof fn lemma_residue_is_tail(s: Seq<u8>)
    ensures
        0 <= consumed(s) <= s.len(),
        residue(s) == s.skip(consumed(s)),
        frames_of(s).len() == 0 <==> consumed(s) == 0,
    decreases s.len(),
{
    lemma_extent_of(s);
    if let Extent::Frame { start, end } = extent_of(s) {
        lemma_residue_is_tail(s.skip(end));
    }
}

/// `s` holds no complete frame.
pub open spec fn settled(s: Seq<u8>) -> bool {
    !(extent_of(s) is Frame)
}

/// What is left after the last complete frame holds no complete frame.
pub proof fn lemma_residue_settled(s: Seq<u8>)
    ensures
        settled(residue(s)),
        residue(residue(s)) == residue(s),
    decreases s.len(),
{
    lemma_extent_of(s);
    if let Extent::Frame { start, end } = extent_of(s) {
        lemma_residue_settled(s.skip(end));
    }
}

/// A marker that lies within `a` is a marker of `a + b`, and the other way
/// round.
pub proof fn lemma_marker_in_prefix(a: Seq<u8>, b: Seq<u8>, tag: u8, i: int)
    requires
        i + 1 < a.len(),
    ensures
        marker_at(a + b, tag, i) == marker_at(a, tag, i),
{
}

/// A marker that lies within `b` is a marker of `a + b`, shifted by the
/// length of `a`, and the other way round.
pub proof fn lemma_marker_in_suffix(a: Seq<u8>, b: Seq<u8>, tag: u8, i: int)
    requires
        a.len() <= i,
    ensures
        marker_at(a + b, tag, i) == marker_at(b, tag, i - a.len()),
{
}

/// Bytes that arrive later do not change the first complete frame.
pub proof fn lemma_frame_survives_append(a: Seq<u8>, b: Seq<u8>)
    requires
        extent_of(a) is Frame,
    ensures
        extent_of(a + b) == extent_of(a),
{
    lemma_extent_of(a);
    let start = extent_of(a)->Frame_start;
    let end = extent_of(a)->Frame_end;
    assert forall|k: int| 0 <= k < start implies !marker_at(a + b, START_TAG, k) by {
        lemma_marker_in_prefix(a, b, START_TAG, k);
        assert(!start_at(a, k));
    }
    lemma_marker_in_prefix(a, b, START_TAG, start);
    lemma_next_marker_unique(a + b, START_TAG, 0, start);
    assert forall|j: int| start <= j < end - 2 implies !marker_at(a + b, END_TAG, j) by {
        lemma_marker_in_prefix(a, b, END_TAG, j);
        assert(!end_at(a, j));
    }
    lemma_marker_in_prefix(a, b, END_TAG, end - 2);
    lemma_next_marker_unique(a + b, END_TAG, start, end - 2);
}

/// Frames that are complete stay as they are when more bytes arrive, and the
/// frames that the new bytes complete are found from the residue alone.
pub proof fn lemma_frames_of_append(a: Seq<u8>, b: Seq<u8>)
    ensures
        frames_of(a + b) == frames_of(a) + frames_of(residue(a) + b),
        residue(a + b) == residue(residue(a) + b),
    decreases a.len(),
{
    lemma_extent_of(a);
    if let Extent::Frame { start, end } = extent_of(a) {
        lemma_frame_survives_append(a, b);
        assert((a + b).skip(end) =~= a.skip(end) + b);
        assert((a + b).subrange(start, end) =~= a.subrange(start, end));
        lemma_frames_of_append(a.skip(end), b);
    }
}

/// The frames that come out, in order, when `chunks` are appended one after
/// the other to an accumulator that holds `pending`, each time emitting and
/// dropping every complete frame.
pub open spec fn frames_in_chunks(pending: Seq<u8>, chunks: Seq<Seq<u8>>) -> Seq<Seq<u8>>
    decreases chunks.len(),
{
    if chunks.len() == 0 {
        Seq::empty()
    } else {
        let joined = pending + chunks.first();
        frames_of(joined) + frames_in_chunks(residue(joined), chunks.drop_first())
    }
}

/// What the accumulator holds after `chunks` have been fed to it in turn.
pub open spec fn pending_after_chunks(pending: Seq<u8>, chunks: Seq<Seq<u8>>) -> Seq<u8>
    decreases chunks.len(),
{
    if chunks.len() == 0 {
        pending
    } else {
        pending_after_chunks(residue(pending + chunks.first()), chunks.drop_first())
    }
}

/// Feeding chunk by chunk gives the frames and the residue of the stream
/// that the chunks make up, whatever the accumulator held before as long as
/// that was no complete frame.
pub proof fn lemma_chunks_as_stream(pending: Seq<u8>, chunks: Seq<Seq<u8>>)
    requires
        settled(pending),
    ensures
        frames_in_chunks(pending, chunks) == frames_of(pending + chunks.flatten()),
        pending_after_chunks(pending, chunks) == residue(pending + chunks.flatten()),
    decreases chunks.len(),
{
    if chunks.len() > 0 {
        let joined = pending + chunks.first();
        let later = chunks.drop_first();
        lemma_residue_settled(joined);
        lemma_chunks_as_stream(residue(joined), later);
        lemma_frames_of_append(joined, later.flatten());
        assert(joined + later.flatten() =~= pending + chunks.flatten());
    }
}

/// However a stream is cut into reads, even in the middle of a marker, an
/// extractor that starts empty emits the frames of the whole stream, and
/// keeps what the whole stream leaves over.
pub proof fn lemma_chunking_invariance(chunks: Seq<Seq<u8>>)
    ensures
        frames_in_chunks(Seq::empty(), chunks) == frames_of(chunks.flatten()),
        frames_in_chunks(Seq::empty(), chunks) == frames_in_chunks(
            Seq::empty(),
            seq![chunks.flatten()],
        ),
        pending_after_chunks(Seq::empty(), chunks) == residue(chunks.flatten()),
{
    let empty = Seq::<u8>::empty();
    let whole = seq![chunks.flatten()];
    lemma_chunks_as_stream(empty, chunks);
    lemma_chunks_as_stream(empty, whole);
    whole.lemma_flatten_one_element();
}

/// A start marker that no end marker follows opens no frame: the frames of
/// the stream are those of what precedes that start marker, and the bytes
/// from the marker on are all left over.
pub proof fn lemma_unterminated_start(s: Seq<u8>, i: int)
    requires
        start_at(s, i),
        forall|j: int| i <= j ==> !end_at(s, j),
    ensures
        frames_of(s) == frames_of(s.take(i)),
        residue(s) == residue(s.take(i)) + s.skip(i),
{
    let before = s.take(i);
    let rest = residue(before);
    let tail = s.skip(i);
    let joined = rest + tail;
    assert(s =~= before + tail);
    lemma_frames_of_append(before, tail);
    lemma_residue_settled(before);
    lemma_extent_of(rest);
    lemma_extent_of(joined);
    if let Extent::Frame { start, end } = extent_of(joined) {
        // Its end marker is not in `tail`, which holds none, and does not
        // straddle the joint, since `tail` opens with a lead byte. So the
        // whole frame lies in `rest`, which holds none either.
        if end - 2 >= rest.len() {
            lemma_marker_in_suffix(rest, tail, END_TAG, end - 2);
            assert(end_at(s, i + (end - 2 - rest.len())));
        } else if end - 1 < rest.len() {
            lemma_marker_in_prefix(rest, tail, END_TAG, end - 2);
            lemma_marker_in_prefix(rest, tail, START_TAG, start);
            assert(start_at(rest, start));
            assert(end_at(rest, end - 2));
        }
        assert(false);
    }
}

/// `f` is one whole frame and nothing else: it opens with a start marker,
/// and the first end marker in it is its last two bytes.
pub open spec fn is_frame(f: Seq<u8>) -> bool {
    extent_of(f) == (Extent::Frame { start: 0, end: f.len() as int })
}

/// `g` can stand before or between frames: no start marker begins in it.
pub open spec fn is_filler(g: Seq<u8>) -> bool {
    extent_of(g) is NoStart
}

/// The stream `gaps[0] + frames[0] + gaps[1] + frames[1] + ...`, as far as
/// both sequences go.
pub open spec fn interleaved(gaps: Seq<Seq<u8>>, frames: Seq<Seq<u8>>) -> Seq<u8>
    decreases frames.len(),
{
    if frames.len() == 0 || gaps.len() == 0 {
        Seq::empty()
    } else {
        gaps.first() + frames.first() + interleaved(gaps.drop_first(), frames.drop_first())
    }
}

/// A frame that follows filler is found where it stands.
pub proof fn lemma_frame_after_filler(g: Seq<u8>, f: Seq<u8>)
    requires
        is_filler(g),
        is_frame(f),
    ensures
        extent_of(g + f) == (Extent::Frame {
            start: g.len() as int,
            end: (g.len() + f.len()) as int,
        }),
{
    let s = g + f;
    let n = g.len() as int;
    lemma_extent_of(g);
    lemma_extent_of(f);
    assert forall|k: int| 0 <= k < n implies !marker_at(s, START_TAG, k) by {
        // The last byte of `g` opens no marker either: the next byte is
        // the lead byte of `f`.
        if k + 1 < n {
            lemma_marker_in_prefix(g, f, START_TAG, k);
            assert(!start_at(g, k));
        }
    }
    lemma_marker_in_suffix(g, f, START_TAG, n);
    lemma_next_marker_unique(s, START_TAG, 0, n);
    assert forall|j: int| n <= j < n + f.len() - 2 implies !marker_at(s, END_TAG, j) by {
        lemma_marker_in_suffix(g, f, END_TAG, j);
        assert(!end_at(f, j - n));
    }
    lemma_marker_in_suffix(g, f, END_TAG, n + f.len() - 2);
    lemma_next_marker_unique(s, END_TAG, n, n + f.len() - 2);
}

/// A stream made of whole frames, each preceded by bytes that hold no start
/// marker, and closed by bytes that hold no complete frame, yields exactly
/// those frames, in order and byte for byte; the closing bytes are left over.
pub proof fn lemma_frames_of_interleaved(
    gaps: Seq<Seq<u8>>,
    frames: Seq<Seq<u8>>,
    tail: Seq<u8>,
)
    requires
        gaps.len() == frames.len(),
        forall|k: int| 0 <= k < gaps.len() ==> is_filler(#[trigger] gaps[k]),
        forall|k: int| 0 <= k < frames.len() ==> is_frame(#[trigger] frames[k]),
        settled(tail),
    ensures
        frames_of(interleaved(gaps, frames) + tail) == frames,
        residue(interleaved(gaps, frames) + tail) == tail,
    decreases frames.len(),
{
    let stream = interleaved(gaps, frames) + tail;
    if frames.len() > 0 {
        let g = gaps.first();
        let f = frames.first();
        let later = interleaved(gaps.drop_first(), frames.drop_first()) + tail;
        lemma_frame_after_filler(g, f);
        lemma_frame_survives_append(g + f, later);
        assert(stream =~= (g + f) + later);
        let start = g.len() as int;
        let end = (g.len() + f.len()) as int;
        assert(stream.skip(end) =~= later);
        assert(stream.subrange(start, end) =~= f);
        lemma_frames_of_interleaved(gaps.drop_first(), frames.drop_first(), tail);
    }
}

} // verus!

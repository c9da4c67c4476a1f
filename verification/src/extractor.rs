//! The frame extractor: an accumulator that takes the bytes of each read and
//! gives back the frames that those bytes complete.

use vstd::prelude::*;
use vstd::slice::{slice_subrange, slice_to_vec};
use crate::scanner::{lemma_extent_of, scan, Scan};
use crate::stream::{frames_of, lemma_residue_settled, residue, settled};

verus! {

/// Size of the buffer that one read from the byte source may fill.
pub const CHUNK_SIZE: usize = 40960;

/// Name of the event by which each frame is handed to the sink.
pub const FRAME_EVENT: &'static str = "frame";

/// The accumulator of one session. It holds the bytes that have arrived and
/// belong to no frame emitted so far.
pub struct Extractor {
    buffer: Vec<u8>,
}

/// What one read from the byte source gave.
pub enum ReadOutcome<'a> {
    /// The read succeeded and filled these bytes; none at all means that the
    /// source has ended.
    Bytes(&'a [u8]),
    /// The read failed.
    Failed,
}

/// What the reading task does after a read.
pub enum Progress {
    /// Hand these frames to the sink, in this order, and read again.
    Frames(Vec<Vec<u8>>),
    /// Stop: the source has ended or failed. Nothing is reported to anyone.
    Finished,
}

impl View for Extractor {
    type V = Seq<u8>;

    /// The accumulated bytes.
    closed spec fn view(&self) -> Seq<u8> {
        self.buffer@
    }
}

impl Extractor {
    /// An extractor that has seen no bytes.
    pub fn new() -> (extractor: Extractor)
        ensures
            extractor@ == Seq::<u8>::empty(),
    {
        Extractor { buffer: Vec::new() }
    }

    /// The accumulated bytes.
    pub fn pending(&self) -> (bytes: &[u8])
        ensures
            bytes@ == self@,
    {
        self.buffer.as_slice()
    }

    /// Appends `chunk` to the accumulator and takes out every frame that is
    /// now complete, in stream order. The bytes up to the end of the last
    /// such frame are dropped; all others are kept for the next call.
    pub fn feed(&mut self, chunk: &[u8]) -> (frames: Vec<Vec<u8>>)
        ensures
            frames.deep_view() == frames_of(old(self)@ + chunk@),
            final(self)@ == residue(old(self)@ + chunk@),
            settled(final(self)@),
    {
        let ghost all = old(self)@ + chunk@;
        self.buffer.extend_from_slice(chunk);
        let mut frames: Vec<Vec<u8>> = Vec::new();
        let mut consumed: usize = 0;
        assert(all.skip(0) =~= all);
        loop
            invariant
                self.buffer@ == all,
                consumed <= all.len(),
                frames.deep_view() + frames_of(all.skip(consumed as int)) == frames_of(all),
                residue(all.skip(consumed as int)) == residue(all),
            ensures
                settled(all.skip(consumed as int)),
            decreases all.len() - consumed,
        {
            let rest = slice_subrange(self.buffer.as_slice(), consumed, self.buffer.len());
            match scan(rest) {
                Scan::Frame { start, end } => {
                    proof {
                        lemma_extent_of(rest@);
                    }
                    let frame = slice_to_vec(slice_subrange(rest, start, end));
                    let ghost emitted = frames.deep_view();
                    frames.push(frame);
                    proof {
                        assert(frames.deep_view() =~~= emitted + seq![frame@]);
                        assert(rest@.skip(end as int) =~= all.skip(consumed + end));
                    }
                    consumed = consumed + end;
                },
                _ => {
                    break;
                },
            }
        }
        if consumed > 0 {
            let tail = self.buffer.split_off(consumed);
            self.buffer = tail;
        }
        proof {
            lemma_residue_settled(all);
        }
        frames
    }

    /// One turn of the reading task: stops at the end of the source and on
    /// a failed read, and otherwise feeds the bytes that were read.
    pub fn on_read(&mut self, outcome: ReadOutcome<'_>) -> (next: Progress)
        ensures
            match outcome {
                ReadOutcome::Bytes(bytes) => if bytes@.len() == 0 {
                    next is Finished && final(self)@ == old(self)@
                } else {
                    &&& next matches Progress::Frames(frames)
                    &&& frames.deep_view() == frames_of(old(self)@ + bytes@)
                    &&& final(self)@ == residue(old(self)@ + bytes@)
                },
                ReadOutcome::Failed => next is Finished && final(self)@ == old(self)@,
            },
    {
        match outcome {
            ReadOutcome::Bytes(bytes) => {
                if bytes.len() == 0 {
                    Progress::Finished
                } else {
                    Progress::Frames(self.feed(bytes))
                }
            },
            ReadOutcome::Failed => Progress::Finished,
        }
    }
}

} // verus!

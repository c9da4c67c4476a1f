//! Reassembly of still-image frames from a continuous motion-JPEG byte
//! stream, and the bookkeeping of the one capture pipeline that produces it.
//!
//! * [`scanner`] locates the next complete frame in a run of bytes.
//! * [`stream`] says, for a whole stream, which frames it holds and which
//!   bytes are left over, and proves that this does not depend on how the
//!   stream is cut into reads.
//! * [`extractor`] owns the accumulator that turns reads into frames.
//! * [`command`] builds the command line of the capture pipeline.
//! * [`session`] tracks the pipeline's process handle across start and stop.
//!
//! Spawning the pipeline, reading its output and handing frames on are left
//! to the caller: every function here works on plain values.

pub mod scanner;
pub mod stream;
pub mod extractor;
pub mod command;
pub mod session;


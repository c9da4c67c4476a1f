//! The session: at most one capture pipeline at a time.
//!
//! A session is either idle or tracks the handle of the one running
//! pipeline. Starting while a pipeline runs and stopping while none runs are
//! both answered with success and change nothing. The session never spawns
//! or kills anything itself: it tells its caller what to do, and the caller,
//! who holds the session under a lock for the whole request, does it.

use vstd::prelude::*;
use crate::command::{pipeline_command, pipeline_text};
use crate::extractor::Extractor;
use crate::stream::{frames_in_chunks, frames_of, lemma_chunking_invariance};

verus! {

/// What the caller has to do for a start request.
#[derive(Debug, PartialEq, Eq)]
pub enum StartAction {
    /// A pipeline is running: spawn nothing, and answer with success.
    AlreadyRunning,
    /// Spawn the pipeline by handing `command` to the shell. If that works,
    /// hand the process to `Session::track`; if not, answer with
    /// `spawn_failure`.
    Spawn { command: String },
}

/// Whether a start request to a session that holds `held` asks for a
/// pipeline to be spawned.
pub open spec fn start_spawns<H>(held: Option<H>) -> bool {
    held is None
}

/// What a session that holds `held` holds once a start request is through.
/// `spawned` is the pipeline that was spawned for it, if the request asked
/// for one and the spawn worked.
pub open spec fn after_start<H>(held: Option<H>, spawned: Option<H>) -> Option<H> {
    if start_spawns(held) {
        spawned
    } else {
        held
    }
}

/// The process that a stop request to a session that holds `held` has
/// the caller terminate.
pub open spec fn stop_terminates<H>(held: Option<H>) -> Option<H> {
    held
}

/// What a session holds once a stop request is through: nothing.
pub open spec fn after_stop<H>(held: Option<H>) -> Option<H> {
    None
}

/// The state of one session. `H` is the handle of a running pipeline.
pub struct Session<H> {
    process: Option<H>,
}

impl<H> View for Session<H> {
    type V = Option<H>;

    /// The handle of the running pipeline, if one runs.
    closed spec fn view(&self) -> Option<H> {
        self.process
    }
}

impl<H> Session<H> {
    /// An idle session.
    pub fn new() -> (session: Session<H>)
        ensures
            session@ is None,
    {
        Session { process: None }
    }

    /// Whether a pipeline runs.
    pub fn is_running(&self) -> (running: bool)
        ensures
            running == (self@ is Some),
    {
        self.process.is_some()
    }

    /// Decides a start request for the device at `host` and `port`.
    pub fn request_start(&self, host: &str, port: &str) -> (action: StartAction)
        ensures
            match action {
                StartAction::AlreadyRunning => !start_spawns(self@),
                StartAction::Spawn { command } => {
                    &&& start_spawns(self@)
                    &&& command@ == pipeline_text(host@, port@)
                },
            },
    {
        if self.process.is_some() {
            StartAction::AlreadyRunning
        } else {
            StartAction::Spawn { command: pipeline_command(host, port) }
        }
    }

    /// Takes over the process that was spawned for a start request, and
    /// gives the extractor, still empty, that is to read its output. A
    /// session that tracks a pipeline already keeps that one and hands
    /// `handle` back.
    pub fn track(&mut self, handle: H) -> (launch: Result<Extractor, H>)
        ensures
            final(self)@ == after_start(old(self)@, Some(handle)),
            match launch {
                Ok(extractor) => start_spawns(old(self)@) && extractor@ == Seq::<u8>::empty(),
                Err(refused) => !start_spawns(old(self)@) && refused == handle,
            },
    {
        if self.process.is_some() {
            Err(handle)
        } else {
            self.process = Some(handle);
            Ok(Extractor::new())
        }
    }

    /// Decides a stop request: gives up the process it holds, which the
    /// caller has to kill and wait for. Whatever comes of that, and also
    /// when there was nothing to stop, the request is answered with success.
    pub fn request_stop(&mut self) -> (terminate: Option<H>)
        ensures
            terminate == stop_terminates(old(self)@),
            final(self)@ == after_stop(old(self)@),
    {
        self.process.take()
    }
}

/// A start request to a session that holds a pipeline spawns nothing and
/// leaves that pipeline in place: after two start requests in a row there is
/// the one pipeline of the first.
pub proof fn lemma_second_start_changes_nothing<H>(first: H, second: Option<H>)
    ensures
        after_start(None, Some(first)) == Some(first),
        !start_spawns(after_start(None, Some(first))),
        after_start(after_start(None, Some(first)), second) == Some(first),
{
}

/// A stop request to an idle session has nothing terminated and leaves the
/// session idle.
pub proof fn lemma_stop_when_idle_changes_nothing<H>()
    ensures
        stop_terminates(None::<H>) is None,
        after_stop(None::<H>) is None,
{
}

/// Start, stop, start: the stop has the first pipeline terminated and
/// leaves the session idle, so the second start spawns a new pipeline, which
/// is then the one that runs. The extractor that `track` gives for it starts
/// empty, so the frames it emits from the reads `second_reads` are the frames
/// of what the new pipeline wrote, and of nothing else.
pub proof fn lemma_restart_is_fresh<H>(first: H, second: H, second_reads: Seq<Seq<u8>>)
    ensures
        stop_terminates(after_start(None, Some(first))) == Some(first),
        after_stop(after_start(None, Some(first))) is None,
        start_spawns(after_stop(after_start(None, Some(first)))),
        after_start(after_stop(after_start(None, Some(first))), Some(second)) == Some(second),
        frames_in_chunks(Seq::empty(), second_reads) == frames_of(second_reads.flatten()),
{
    lemma_chunking_invariance(second_reads);
}

} // verus!

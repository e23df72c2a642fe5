//! The vocabulary of a segment worker: its phases, the events that the
//! transport and the disk report to it, and the actions it asks for in return.

use vstd::prelude::*;

verus! {

/// Bytes a worker collects in memory before it writes them out.
pub const BUFFER_CAPACITY: usize = 262144;

/// Pause before a failed fetch is tried again, in milliseconds.
pub const BACKOFF_MS: u64 = 2000;

/// Where a worker stands. Each phase but the two terminal ones waits for the
/// outcome of the action that led into it.
#[derive(Clone, Copy, Debug, PartialEq, Eq, Structural)]
pub enum Phase {
    /// Not started yet.
    Pending,
    /// A ranged request is on its way.
    Requesting,
    /// The response body is being read.
    Streaming,
    /// A full buffer is being written while the stream waits.
    Flushing,
    /// The cursor moved by a flush is being recorded.
    FlushSaving,
    /// The stream has ended and the rest of the buffer is being written.
    Draining,
    /// The cursor moved by the last write is being recorded.
    DrainSaving,
    /// The segment is marked complete and that mark is being recorded.
    Completing,
    /// The worker sleeps before it asks again.
    Backoff,
    /// All bytes of the segment are on disk and recorded. Terminal.
    Complete,
    /// The disk or the caller failed the worker. Terminal, and fatal to the job.
    Failed,
}

/// What happened to the action a worker asked for.
#[derive(Clone, Debug, PartialEq, Eq)]
pub enum Event {
    /// The worker was started.
    Start,
    /// The ranged request was answered and the body can be read.
    Opened,
    /// The ranged request could not be made or was not answered.
    Unreachable,
    /// The body delivered these bytes.
    Chunk(Vec<u8>),
    /// The body ended.
    EndOfStream,
    /// The transport failed while the body was read.
    Broken,
    /// The bytes handed out for writing are on disk.
    Written,
    /// The resume record was replaced.
    Persisted,
    /// The backoff pause is over.
    Awake,
    /// A write to the destination or to the resume record failed.
    StorageFailed,
}

/// An `Event` as a mathematical value.
pub enum EventView {
    Start,
    Opened,
    Unreachable,
    Chunk(Seq<u8>),
    EndOfStream,
    Broken,
    Written,
    Persisted,
    Awake,
    StorageFailed,
}

impl View for Event {
    type V = EventView;

    open spec fn view(&self) -> EventView {
        match self {
            Event::Start => EventView::Start,
            Event::Opened => EventView::Opened,
            Event::Unreachable => EventView::Unreachable,
            Event::Chunk(data) => EventView::Chunk(data@),
            Event::EndOfStream => EventView::EndOfStream,
            Event::Broken => EventView::Broken,
            Event::Written => EventView::Written,
            Event::Persisted => EventView::Persisted,
            Event::Awake => EventView::Awake,
            Event::StorageFailed => EventView::StorageFailed,
        }
    }
}

/// What a worker asks its driver to do next.
#[derive(Clone, Debug, PartialEq, Eq)]
pub enum Action {
    /// Request the bytes from `from` up to `to`, or to the end of the
    /// resource where `to` is `None`; report `Opened` or `Unreachable`.
    Fetch { from: u64, to: Option<u64> },
    /// Read the next piece of the body; report `Chunk`, `EndOfStream` or `Broken`.
    Read,
    /// Position the destination at `offset` and write `data`; report
    /// `Written` or `StorageFailed`.
    Write { offset: u64, data: Vec<u8> },
    /// Replace the resume record with the job's current cursors; report
    /// `Persisted` or `StorageFailed`.
    Persist,
    /// Wait for `millis` milliseconds; report `Awake`.
    Sleep { millis: u64 },
    /// The segment is done: stop.
    Finish,
    /// The job cannot go on: stop every worker.
    Abort,
}

/// An `Action` as a mathematical value.
pub enum ActionView {
    Fetch { from: u64, to: Option<u64> },
    Read,
    Write { offset: u64, data: Seq<u8> },
    Persist,
    Sleep { millis: u64 },
    Finish,
    Abort,
}

impl View for Action {
    type V = ActionView;

    open spec fn view(&self) -> ActionView {
        match self {
            Action::Fetch { from, to } => ActionView::Fetch { from: *from, to: *to },
            Action::Read => ActionView::Read,
            Action::Write { offset, data } => ActionView::Write { offset: *offset, data: data@ },
            Action::Persist => ActionView::Persist,
            Action::Sleep { millis } => ActionView::Sleep { millis: *millis },
            Action::Finish => ActionView::Finish,
            Action::Abort => ActionView::Abort,
        }
    }
}

/// The private state of one worker: its phase, the bytes it has accepted and
/// not yet written, and the piece of the body that waits for a flush to end.
pub struct WorkerState {
    pub phase: Phase,
    pub buffer: Seq<u8>,
    pub pending: Seq<u8>,
}

/// A worker in the given phase that holds no bytes.
pub open spec fn idle(phase: Phase) -> WorkerState {
    WorkerState { phase, buffer: Seq::empty(), pending: Seq::empty() }
}

/// The leading part of a piece of the body that still belongs to a segment
/// with `room` bytes left.
pub open spec fn accepted(data: Seq<u8>, room: int) -> Seq<u8> {
    if data.len() <= room {
        data
    } else if room <= 0 {
        Seq::empty()
    } else {
        data.take(room)
    }
}

} // verus!

//! The download job: the segments with their cursors, the running total of
//! committed bytes, and the state machine of every segment worker.
//!
//! A driver owns the transport and the files. It reports each outcome to
//! `DownloadJob::handle` and carries out the action that comes back. All
//! decisions are taken here: what to request, when to write, where a retry
//! resumes, and when a segment is complete.
//!
//! Two rules keep the job sound against a transport that misbehaves. A worker
//! accepts no more bytes than its segment has left, so it never writes into
//! another segment's range. And a segment is marked complete only once all of
//! its bytes are on disk: a body that ends early is fetched again from the
//! cursor, after the usual pause. A failure of the disk is fatal to the job.

use vstd::prelude::*;
use crate::plan::{
    covered, credit, credit_sum, cursor_in_segment, cursors_fit, cursors_of, lemma_segment_bounds, plan_failure,
    plan_segments, plannable, planned_end, planned_segment, prior_view, starting_cursor, valid_split, PlanError,
    Segment, COMPLETE,
};
use crate::worker::{accepted, idle, Action, ActionView, Event, EventView, Phase, WorkerState, BACKOFF_MS, BUFFER_CAPACITY};

verus! {

/// A job as a mathematical value.
pub struct JobState {
    /// Length of the resource.
    pub total: int,
    /// Where the bytes go.
    pub file_path: Seq<char>,
    /// The cursor of every segment.
    pub cursors: Seq<i64>,
    /// Bytes that are on disk.
    pub committed: int,
    /// The worker of every segment.
    pub workers: Seq<WorkerState>,
}

impl JobState {
    /// Number of segments.
    pub open spec fn t(self) -> int {
        self.cursors.len() as int
    }

    /// Last byte of segment `n`.
    pub open spec fn end(self, n: int) -> int {
        planned_end(self.total, self.t(), n)
    }

    /// Bytes that segment `n` can still take into its buffer.
    pub open spec fn room(self, n: int) -> int {
        self.end(n) + 1 - self.cursors[n] - self.workers[n].buffer.len()
    }

    /// The worker of segment `n` agrees with the segment's cursor.
    pub open spec fn worker_fits(self, n: int) -> bool {
        let w = self.workers[n];
        let c = self.cursors[n] as int;
        match w.phase {
            Phase::Complete | Phase::Completing => c == COMPLETE && w == idle(w.phase),
            Phase::Failed => true,
            Phase::Pending | Phase::Backoff => c != COMPLETE && w == idle(w.phase),
            Phase::Requesting => c != COMPLETE && c <= self.end(n) && w == idle(w.phase),
            Phase::Flushing => c != COMPLETE && c + w.buffer.len() + w.pending.len() <= self.end(n) + 1,
            Phase::Streaming | Phase::FlushSaving | Phase::Draining | Phase::DrainSaving => c != COMPLETE
                && c + w.buffer.len() <= self.end(n) + 1 && w.pending.len() == 0,
        }
    }

    /// The invariant of a job: the segments partition the resource, every
    /// cursor lies in its segment, the committed bytes are those that the
    /// cursors account for, and every worker agrees with its cursor.
    pub open spec fn wf(self) -> bool {
        &&& valid_split(self.total, self.t())
        &&& self.workers.len() == self.t()
        &&& cursors_fit(self.total, self.t(), self.cursors)
        &&& self.committed == credit_sum(self.total, self.t(), self.cursors, self.t())
        &&& forall|n: int| 0 <= n < self.t() ==> #[trigger] self.worker_fits(n)
    }

    /// The job with the worker of segment `n` replaced.
    pub open spec fn with_worker(self, n: int, w: WorkerState) -> JobState {
        JobState { workers: self.workers.update(n, w), ..self }
    }

    /// The job after segment `n` has written the bytes of its buffer: the
    /// cursor and the committed bytes move by their number.
    pub open spec fn flushed(self, n: int, w: WorkerState) -> JobState {
        let len = self.workers[n].buffer.len();
        JobState {
            cursors: self.cursors.update(n, (self.cursors[n] + len) as i64),
            committed: self.committed + len,
            workers: self.workers.update(n, w),
            ..self
        }
    }

    /// The job with segment `n` marked complete.
    pub open spec fn sealed(self, n: int) -> JobState {
        JobState {
            cursors: self.cursors.update(n, COMPLETE),
            workers: self.workers.update(n, idle(Phase::Completing)),
            ..self
        }
    }

    /// The request that segment `n` makes: from its cursor to its last byte,
    /// and without an upper bound for the last segment.
    pub open spec fn fetch(self, n: int) -> ActionView {
        ActionView::Fetch {
            from: self.cursors[n] as u64,
            to: if n + 1 == self.t() {
                None
            } else {
                Some(self.end(n) as u64)
            },
        }
    }

    /// Segment `n` has nothing left to fetch.
    pub open spec fn exhausted(self, n: int) -> bool {
        self.cursors[n] == self.end(n) + 1
    }

    /// A worker that starts, or wakes from its pause: it asks for the bytes
    /// from its cursor on, unless none are left.
    pub open spec fn begin(self, n: int) -> (JobState, ActionView) {
        if self.exhausted(n) {
            (self.sealed(n), ActionView::Persist)
        } else {
            (self.with_worker(n, idle(Phase::Requesting)), self.fetch(n))
        }
    }

    /// A worker whose body has ended and whose buffer is on disk: the segment
    /// is complete if all of it arrived, else the worker pauses and asks again.
    pub open spec fn settle(self, n: int) -> (JobState, ActionView) {
        if self.exhausted(n) {
            (self.sealed(n), ActionView::Persist)
        } else {
            (self.with_worker(n, idle(Phase::Backoff)), ActionView::Sleep { millis: BACKOFF_MS })
        }
    }

    /// An event that the worker's phase does not wait for. A complete worker
    /// stays complete; any other has failed.
    pub open spec fn stray(self, n: int) -> (JobState, ActionView) {
        match self.workers[n].phase {
            Phase::Complete => (self, ActionView::Finish),
            Phase::Failed => (self, ActionView::Abort),
            _ => (self.with_worker(n, idle(Phase::Failed)), ActionView::Abort),
        }
    }

    /// A piece of the body arrives at a streaming worker. Only the bytes that
    /// the segment has room for are taken. If they do not fit the buffer, the
    /// buffer is written first and the piece waits; else it joins the buffer.
    pub open spec fn take_chunk(self, n: int, data: Seq<u8>) -> (JobState, ActionView) {
        let w = self.workers[n];
        let piece = accepted(data, self.room(n));
        if w.buffer.len() + piece.len() > BUFFER_CAPACITY {
            (
                self.with_worker(n, WorkerState { phase: Phase::Flushing, buffer: w.buffer, pending: piece }),
                ActionView::Write { offset: self.cursors[n] as u64, data: w.buffer },
            )
        } else {
            (
                self.with_worker(
                    n,
                    WorkerState { phase: Phase::Streaming, buffer: w.buffer + piece, pending: Seq::empty() },
                ),
                ActionView::Read,
            )
        }
    }

    /// The transition of the worker of segment `n` on an event, and the
    /// action it asks for.
    pub open spec fn step(self, n: int, e: EventView) -> (JobState, ActionView) {
        if !(0 <= n < self.workers.len()) {
            (self, ActionView::Abort)
        } else {
            let w = self.workers[n];
            match e {
                EventView::Start => if w.phase == Phase::Pending {
                    self.begin(n)
                } else {
                    self.stray(n)
                },
                EventView::Awake => if w.phase == Phase::Backoff {
                    self.begin(n)
                } else {
                    self.stray(n)
                },
                EventView::Opened => if w.phase == Phase::Requesting {
                    (self.with_worker(n, idle(Phase::Streaming)), ActionView::Read)
                } else {
                    self.stray(n)
                },
                EventView::Unreachable => if w.phase == Phase::Requesting {
                    (self.with_worker(n, idle(Phase::Backoff)), ActionView::Sleep { millis: BACKOFF_MS })
                } else {
                    self.stray(n)
                },
                EventView::Chunk(data) => if w.phase == Phase::Streaming {
                    self.take_chunk(n, data)
                } else {
                    self.stray(n)
                },
                EventView::EndOfStream => if w.phase == Phase::Streaming {
                    if w.buffer.len() > 0 {
                        (
                            self.with_worker(n, WorkerState { phase: Phase::Draining, ..w }),
                            ActionView::Write { offset: self.cursors[n] as u64, data: w.buffer },
                        )
                    } else {
                        self.settle(n)
                    }
                } else {
                    self.stray(n)
                },
                EventView::Broken => if w.phase == Phase::Streaming {
                    (self.with_worker(n, idle(Phase::Backoff)), ActionView::Sleep { millis: BACKOFF_MS })
                } else {
                    self.stray(n)
                },
                EventView::Written => if w.phase == Phase::Flushing {
                    (
                        self.flushed(
                            n,
                            WorkerState { phase: Phase::FlushSaving, buffer: w.pending, pending: Seq::empty() },
                        ),
                        ActionView::Persist,
                    )
                } else if w.phase == Phase::Draining {
                    (self.flushed(n, idle(Phase::DrainSaving)), ActionView::Persist)
                } else {
                    self.stray(n)
                },
                EventView::Persisted => if w.phase == Phase::FlushSaving {
                    (self.with_worker(n, WorkerState { phase: Phase::Streaming, ..w }), ActionView::Read)
                } else if w.phase == Phase::DrainSaving {
                    self.settle(n)
                } else if w.phase == Phase::Completing {
                    (self.with_worker(n, idle(Phase::Complete)), ActionView::Finish)
                } else {
                    self.stray(n)
                },
                EventView::StorageFailed => self.stray(n),
            }
        }
    }
}

/// The bytes that the cursors account for never exceed what their segments hold.
pub proof fn lemma_credit_sum_bound(total: int, t: int, cursors: Seq<i64>, upto: int)
    requires
        valid_split(total, t),
        cursors.len() == t,
        cursors_fit(total, t, cursors),
        0 <= upto <= t,
    ensures
        0 <= credit_sum(total, t, cursors, upto) <= covered(total, t, upto) <= total,
    decreases upto,
{
    if upto > 0 {
        lemma_credit_sum_bound(total, t, cursors, upto - 1);
        lemma_segment_bounds(total, t, upto - 1);
        assert(cursor_in_segment(total, t, upto - 1, cursors[upto - 1] as int));
        if upto < t {
            lemma_segment_bounds(total, t, upto);
        }
    } else {
        lemma_segment_bounds(total, t, 0);
    }
}

/// Replacing one cursor changes the credited bytes by the change of its credit.
pub proof fn lemma_credit_sum_update(total: int, t: int, cursors: Seq<i64>, n: int, cursor: i64, upto: int)
    requires
        0 <= n < cursors.len(),
        0 <= upto <= cursors.len(),
    ensures
        credit_sum(total, t, cursors.update(n, cursor), upto) == credit_sum(total, t, cursors, upto) + (if n
            < upto {
            credit(total, t, n, cursor as int) - credit(total, t, n, cursors[n] as int)
        } else {
            0
        }),
    decreases upto,
{
    if upto > 0 {
        lemma_credit_sum_update(total, t, cursors, n, cursor, upto - 1);
    }
}

/// When every segment is complete, every byte is committed.
pub proof fn lemma_credit_sum_complete(total: int, t: int, cursors: Seq<i64>, upto: int)
    requires
        valid_split(total, t),
        cursors.len() == t,
        0 <= upto <= t,
        forall|n: int| 0 <= n < upto ==> cursors[n] == COMPLETE,
    ensures
        credit_sum(total, t, cursors, upto) == covered(total, t, upto),
    decreases upto,
{
    if upto > 0 {
        lemma_credit_sum_complete(total, t, cursors, upto - 1);
        lemma_segment_bounds(total, t, upto - 1);
    } else {
        lemma_segment_bounds(total, t, 0);
    }
}

/// Every transition keeps the invariant of the job, never lowers the
/// committed bytes and never lets them pass the length of the resource.
pub proof fn lemma_step_keeps_invariant(j: JobState, n: int, e: EventView)
    requires
        j.wf(),
    ensures
        j.step(n, e).0.wf(),
        j.step(n, e).0.total == j.total,
        j.step(n, e).0.file_path == j.file_path,
        j.step(n, e).0.t() == j.t(),
        0 <= j.committed <= j.step(n, e).0.committed <= j.total,
{
    let t = j.t();
    let next = j.step(n, e).0;
    lemma_credit_sum_bound(j.total, t, j.cursors, t);
    if 0 <= n < t {
        let w = j.workers[n];
        let c = j.cursors[n];
        assert(j.worker_fits(n));
        assert(cursor_in_segment(j.total, t, n, j.cursors[n] as int));
        lemma_segment_bounds(j.total, t, n);
        lemma_credit_sum_update(j.total, t, j.cursors, n, next.cursors[n], t);
        assert(next.cursors =~= j.cursors.update(n, next.cursors[n]));
        assert(next.workers =~= j.workers.update(n, next.workers[n]));
        assert(cursors_fit(next.total, t, next.cursors)) by {
            assert forall|m: int| 0 <= m < t implies cursor_in_segment(
                j.total,
                t,
                m,
                #[trigger] next.cursors[m] as int,
            ) by {
                assert(cursor_in_segment(j.total, t, m, j.cursors[m] as int));
            }
        }
        assert forall|m: int| 0 <= m < t implies #[trigger] next.worker_fits(m) by {
            assert(j.worker_fits(m));
        }
        lemma_credit_sum_bound(j.total, t, next.cursors, t);
    }
}

/// The job that a plan starts with: every segment at its starting cursor,
/// the bytes before the cursors committed, and a worker for every segment,
/// done already where the segment is complete.
pub open spec fn initial_job(total: int, file_path: Seq<char>, t: int, prior: Option<Seq<i64>>) -> JobState {
    let cursors = Seq::new(t as nat, |n: int| starting_cursor(total, t, prior, n));
    JobState {
        total,
        file_path,
        cursors,
        committed: credit_sum(total, t, cursors, t),
        workers: Seq::new(
            t as nat,
            |n: int|
                idle(
                    if cursors[n] == COMPLETE {
                        Phase::Complete
                    } else {
                        Phase::Pending
                    },
                ),
        ),
    }
}

/// The private state of one worker.
struct Worker {
    phase: Phase,
    buffer: Vec<u8>,
    pending: Vec<u8>,
}

impl View for Worker {
    type V = WorkerState;

    closed spec fn view(&self) -> WorkerState {
        WorkerState { phase: self.phase, buffer: self.buffer@, pending: self.pending@ }
    }
}

/// A download in progress.
pub struct DownloadJob {
    total_length: u64,
    file_path: String,
    segments: Vec<Segment>,
    bytes_committed: u64,
    workers: Vec<Worker>,
}

impl View for DownloadJob {
    type V = JobState;

    closed spec fn view(&self) -> JobState {
        JobState {
            total: self.total_length as int,
            file_path: self.file_path@,
            cursors: cursors_of(self.segments@),
            committed: self.bytes_committed as int,
            workers: Seq::new(self.workers@.len(), |i: int| self.workers@[i]@),
        }
    }
}

impl DownloadJob {
    /// The segments are those of the plan and each has its worker.
    closed spec fn shaped(&self) -> bool {
        &&& self.workers@.len() == self.segments@.len()
        &&& forall|n: int|
            0 <= n < self.segments@.len() ==> #[trigger] self.segments@[n] == planned_segment(
                self.total_length as int,
                self.segments@.len() as int,
                n,
                self.segments@[n].cursor,
            )
    }

    /// The invariant of the job. Every job that this module hands out has it.
    pub closed spec fn wf(&self) -> bool {
        self@.wf() && self.shaped()
    }

    /// What the invariant says of the job as a mathematical value.
    pub proof fn lemma_wf(&self)
        requires
            self.wf(),
        ensures
            self@.wf(),
    {
    }

    /// Plans a job for a resource of `total_length` bytes that goes to
    /// `file_path`, cut into `concurrency` segments, which resume at the
    /// cursors of an earlier run where `prior` holds them.
    pub fn new(total_length: u64, file_path: String, concurrency: u64, prior: Option<&Vec<i64>>) -> (r: Result<
        DownloadJob,
        PlanError,
    >)
        ensures
            match r {
                Ok(job) => {
                    &&& plannable(total_length as int, concurrency as int, prior_view(prior))
                    &&& job.wf()
                    &&& job@ == initial_job(
                        total_length as int,
                        file_path@,
                        concurrency as int,
                        prior_view(prior),
                    )
                },
                Err(e) => !plannable(total_length as int, concurrency as int, prior_view(prior)) && plan_failure(
                    total_length as int,
                    concurrency as int,
                    prior_view(prior),
                    e,
                ),
            },
    {
        let ghost total = total_length as int;
        let ghost t = concurrency as int;
        let plan = match plan_segments(total_length, concurrency, prior) {
            Ok(plan) => plan,
            Err(e) => {
                return Err(e);
            },
        };
        let mut workers: Vec<Worker> = Vec::new();
        let mut n: usize = 0;
        while n < plan.segments.len()
            invariant
                n <= plan.segments@.len(),
                workers@.len() == n,
                forall|m: int|
                    0 <= m < n ==> (#[trigger] workers@[m])@ == idle(
                        if plan.segments@[m].cursor == COMPLETE {
                            Phase::Complete
                        } else {
                            Phase::Pending
                        },
                    ),
            decreases plan.segments@.len() - n,
        {
            let phase = if plan.segments[n].cursor == COMPLETE {
                Phase::Complete
            } else {
                Phase::Pending
            };
            workers.push(Worker { phase, buffer: Vec::new(), pending: Vec::new() });
            n = n + 1;
        }
        let job = DownloadJob {
            total_length,
            file_path,
            segments: plan.segments,
            bytes_committed: plan.bytes_committed,
            workers,
        };
        proof {
            let init = initial_job(total, file_path@, t, prior_view(prior));
            assert(job@.cursors =~= init.cursors);
            assert(job@.workers =~= init.workers);
            assert(job@ == init);
            assert forall|m: int| 0 <= m < t implies cursor_in_segment(total, t, m, #[trigger] job@.cursors[m] as int) by {
                lemma_segment_bounds(total, t, m);
                if prior_view(prior) is Some {
                    assert(cursor_in_segment(total, t, m, prior_view(prior)->0[m] as int));
                }
            }
            assert forall|m: int| 0 <= m < t implies #[trigger] job@.worker_fits(m) by {
                assert(cursor_in_segment(total, t, m, job@.cursors[m] as int));
            }
        }
        Ok(job)
    }

    /// Length of the resource.
    pub fn total_length(&self) -> (r: u64)
        ensures
            r == self@.total,
    {
        self.total_length
    }

    /// Bytes that are on disk.
    pub fn bytes_committed(&self) -> (r: u64)
        ensures
            r == self@.committed,
    {
        self.bytes_committed
    }

    /// Where the bytes go.
    pub fn file_path(&self) -> (r: &String)
        ensures
            r@ == self@.file_path,
    {
        &self.file_path
    }

    /// Number of segments.
    pub fn concurrency(&self) -> (r: usize)
        ensures
            r == self@.t(),
    {
        self.segments.len()
    }

    /// Segment `index`, or `None` where the job has no such segment.
    pub fn segment(&self, index: usize) -> (r: Option<Segment>)
        requires
            self.wf(),
        ensures
            index >= self@.t() ==> r is None,
            index < self@.t() ==> r == Some(
                planned_segment(self@.total, self@.t(), index as int, self@.cursors[index as int]),
            ),
    {
        if index < self.segments.len() {
            Some(self.segments[index])
        } else {
            None
        }
    }

    /// The phase of the worker of segment `index`, or `None` where the job has
    /// no such segment.
    pub fn phase(&self, index: usize) -> (r: Option<Phase>)
        requires
            self.wf(),
        ensures
            index >= self@.t() ==> r is None,
            index < self@.t() ==> r == Some(self@.workers[index as int].phase),
    {
        if index < self.workers.len() {
            Some(self.workers[index].phase)
        } else {
            None
        }
    }

    /// The cursor of every segment, in order: what the resume record holds.
    pub fn cursors(&self) -> (r: Vec<i64>)
        ensures
            r@ == self@.cursors,
    {
        let mut r: Vec<i64> = Vec::new();
        let mut n: usize = 0;
        while n < self.segments.len()
            invariant
                n <= self.segments@.len(),
                r@.len() == n,
                forall|m: int| 0 <= m < n ==> r@[m] == self.segments@[m].cursor,
            decreases self.segments@.len() - n,
        {
            r.push(self.segments[n].cursor);
            n = n + 1;
        }
        assert(r@ =~= self@.cursors);
        r
    }
}

impl DownloadJob {
    /// Puts the worker of segment `index` into `phase`, with no bytes held.
    fn rest(&mut self, index: usize, phase: Phase)
        requires
            old(self).shaped(),
            index < old(self)@.t(),
        ensures
            final(self).shaped(),
            final(self)@ == old(self)@.with_worker(index as int, idle(phase)),
    {
        let w = &mut self.workers[index];
        w.phase = phase;
        w.buffer.clear();
        w.pending.clear();
        assert(self@.workers =~= old(self)@.workers.update(index as int, idle(phase)));
    }

    /// Marks segment `index` complete.
    fn seal(&mut self, index: usize)
        requires
            old(self).shaped(),
            index < old(self)@.t(),
        ensures
            final(self).shaped(),
            final(self)@ == old(self)@.sealed(index as int),
    {
        self.rest(index, Phase::Completing);
        let ghost mid = self@;
        self.segments[index].cursor = COMPLETE;
        assert(self@.cursors =~= mid.cursors.update(index as int, COMPLETE));
        assert(self@.workers =~= mid.workers);
    }

    /// Segment `index` has nothing left to fetch.
    fn exhausted(&self, index: usize) -> (r: bool)
        requires
            self.wf(),
            index < self@.t(),
            self@.cursors[index as int] != COMPLETE,
        ensures
            r == self@.exhausted(index as int),
    {
        proof {
            assert(cursor_in_segment(self@.total, self@.t(), index as int, self@.cursors[index as int] as int));
            lemma_segment_bounds(self@.total, self@.t(), index as int);
        }
        let seg = self.segments[index];
        seg.cursor as u64 == seg.range_end + 1
    }

    /// The request of segment `index`.
    fn fetch(&self, index: usize) -> (a: Action)
        requires
            self.wf(),
            index < self@.t(),
            self@.cursors[index as int] != COMPLETE,
        ensures
            a@ == self@.fetch(index as int),
    {
        proof {
            assert(cursor_in_segment(self@.total, self@.t(), index as int, self@.cursors[index as int] as int));
            lemma_segment_bounds(self@.total, self@.t(), index as int);
        }
        let seg = self.segments[index];
        Action::Fetch {
            from: seg.cursor as u64,
            to: if seg.open_ended {
                None
            } else {
                Some(seg.range_end)
            },
        }
    }

    /// A worker starts, or wakes from its pause.
    fn begin(&mut self, index: usize) -> (a: Action)
        requires
            old(self).wf(),
            index < old(self)@.t(),
            old(self)@.cursors[index as int] != COMPLETE,
        ensures
            final(self).shaped(),
            (final(self)@, a@) == old(self)@.begin(index as int),
    {
        if self.exhausted(index) {
            self.seal(index);
            Action::Persist
        } else {
            let a = self.fetch(index);
            self.rest(index, Phase::Requesting);
            a
        }
    }

    /// The body of a worker has ended and its buffer is on disk.
    fn settle(&mut self, index: usize) -> (a: Action)
        requires
            old(self).wf(),
            index < old(self)@.t(),
            old(self)@.cursors[index as int] != COMPLETE,
        ensures
            final(self).shaped(),
            (final(self)@, a@) == old(self)@.settle(index as int),
    {
        if self.exhausted(index) {
            self.seal(index);
            Action::Persist
        } else {
            self.rest(index, Phase::Backoff);
            Action::Sleep { millis: BACKOFF_MS }
        }
    }

    /// An event arrives that the worker does not wait for.
    fn stray(&mut self, index: usize) -> (a: Action)
        requires
            old(self).shaped(),
            index < old(self)@.t(),
        ensures
            final(self).shaped(),
            (final(self)@, a@) == old(self)@.stray(index as int),
    {
        match self.workers[index].phase {
            Phase::Complete => Action::Finish,
            Phase::Failed => Action::Abort,
            _ => {
                self.rest(index, Phase::Failed);
                Action::Abort
            },
        }
    }

    /// Hands out the buffer of segment `index` for writing at its cursor.
    fn write_out(&mut self, index: usize, phase: Phase) -> (a: Action)
        requires
            old(self).wf(),
            index < old(self)@.t(),
            old(self)@.cursors[index as int] != COMPLETE,
        ensures
            final(self).shaped(),
            final(self)@ == old(self)@.with_worker(
                index as int,
                WorkerState { phase, ..old(self)@.workers[index as int] },
            ),
            a@ == (ActionView::Write {
                offset: old(self)@.cursors[index as int] as u64,
                data: old(self)@.workers[index as int].buffer,
            }),
    {
        proof {
            assert(cursor_in_segment(self@.total, self@.t(), index as int, self@.cursors[index as int] as int));
            lemma_segment_bounds(self@.total, self@.t(), index as int);
        }
        let offset = self.segments[index].cursor as u64;
        let w = &mut self.workers[index];
        w.phase = phase;
        let data = w.buffer.clone();
        assert(data@ =~= w.buffer@);
        assert(self@.workers =~= old(self)@.workers.update(
            index as int,
            WorkerState { phase, ..old(self)@.workers[index as int] },
        ));
        Action::Write { offset, data }
    }

    /// A piece of the body arrives at the streaming worker of segment `index`.
    fn take_chunk(&mut self, index: usize, data: Vec<u8>) -> (a: Action)
        requires
            old(self).wf(),
            index < old(self)@.t(),
            old(self)@.workers[index as int].phase == Phase::Streaming,
        ensures
            final(self).shaped(),
            (final(self)@, a@) == old(self)@.take_chunk(index as int, data@),
    {
        let mut data = data;
        let ghost n = index as int;
        let ghost before = self@;
        let ghost piece = accepted(data@, before.room(n));
        proof {
            assert(before.worker_fits(n));
            assert(cursor_in_segment(before.total, before.t(), n, before.cursors[n] as int));
            lemma_segment_bounds(before.total, before.t(), n);
        }
        let seg = self.segments[index];
        let held: u64 = self.workers[index].buffer.len() as u64;
        let room: u64 = seg.range_end + 1 - seg.cursor as u64 - held;
        if data.len() as u64 > room {
            data.truncate(room as usize);
        }
        assert(data@ =~= piece);
        if held + data.len() as u64 > BUFFER_CAPACITY as u64 {
            let a = self.write_out(index, Phase::Flushing);
            let ghost mid = self@;
            self.workers[index].pending = data;
            assert(self.workers@[n]@ == WorkerState { pending: piece, ..mid.workers[n] });
            assert forall|m: int| 0 <= m < before.t() && m != n implies self@.workers[m] == before.workers[m] by {
                assert(mid.workers[m] == before.workers[m]);
            }
            assert(self@.workers =~= before.workers.update(
                n,
                WorkerState { phase: Phase::Flushing, buffer: before.workers[n].buffer, pending: piece },
            ));
            a
        } else {
            self.workers[index].buffer.append(&mut data);
            assert(self.workers@[n].buffer@ == before.workers[n].buffer + piece);
            assert(self.workers@[n].pending@ == before.workers[n].pending);
            assert(before.workers[n].pending =~= Seq::<u8>::empty());
            assert(self.workers@[n].phase == Phase::Streaming);
            assert(self@.workers =~= before.workers.update(
                n,
                WorkerState {
                    phase: Phase::Streaming,
                    buffer: before.workers[n].buffer + piece,
                    pending: Seq::empty(),
                },
            ));
            Action::Read
        }
    }

    /// The buffer of segment `index` is on disk: the cursor and the committed
    /// bytes move past it, and the waiting piece becomes the buffer.
    fn commit(&mut self, index: usize, phase: Phase)
        requires
            old(self).wf(),
            index < old(self)@.t(),
            old(self)@.workers[index as int].phase == Phase::Flushing || old(self)@.workers[index as int].phase
                == Phase::Draining,
        ensures
            final(self).shaped(),
            final(self)@ == old(self)@.flushed(
                index as int,
                WorkerState { phase, buffer: old(self)@.workers[index as int].pending, pending: Seq::empty() },
            ),
    {
        let ghost n = index as int;
        let ghost before = self@;
        proof {
            assert(before.worker_fits(n));
            assert(cursor_in_segment(before.total, before.t(), n, before.cursors[n] as int));
            lemma_segment_bounds(before.total, before.t(), n);
            lemma_credit_sum_bound(before.total, before.t(), before.cursors, before.t());
            let moved = (before.cursors[n] + before.workers[n].buffer.len()) as i64;
            lemma_credit_sum_update(before.total, before.t(), before.cursors, n, moved, before.t());
            assert(cursors_fit(before.total, before.t(), before.cursors.update(n, moved))) by {
                assert forall|m: int| 0 <= m < before.t() implies cursor_in_segment(
                    before.total,
                    before.t(),
                    m,
                    #[trigger] before.cursors.update(n, moved)[m] as int,
                ) by {
                    assert(cursor_in_segment(before.total, before.t(), m, before.cursors[m] as int));
                }
            }
            lemma_credit_sum_bound(before.total, before.t(), before.cursors.update(n, moved), before.t());
        }
        let len: u64 = self.workers[index].buffer.len() as u64;
        let cursor: u64 = self.segments[index].cursor as u64 + len;
        self.segments[index].cursor = cursor as i64;
        self.bytes_committed = self.bytes_committed + len;
        let w = &mut self.workers[index];
        w.phase = phase;
        w.buffer.clear();
        w.buffer.append(&mut w.pending);
        assert(self@.cursors =~= before.cursors.update(n, (before.cursors[n] + before.workers[n].buffer.len()) as i64));
        assert(self@.workers =~= before.workers.update(
            n,
            WorkerState { phase, buffer: before.workers[n].pending, pending: Seq::empty() },
        ));
    }

    /// Reports to the worker of segment `index` what happened to the action
    /// it asked for, and returns the action it asks for next.
    ///
    /// A worker that is started asks for the bytes from its cursor to the end
    /// of its segment. While it reads the body it collects the bytes in its
    /// buffer; a piece that would not fit has the buffer written out first, at
    /// the cursor, and each write that has reached the disk moves the cursor
    /// and the committed bytes by its length and has the resume record
    /// replaced. When the body ends, what is left in the buffer is written
    /// the same way, and the segment is marked complete and recorded as such.
    /// A request that fails, a body that breaks or ends early: the worker
    /// drops what it holds in memory, pauses, and asks again from its cursor.
    /// A failed write, or an event that the worker does not wait for, fails
    /// the worker for good. An index that the job does not have is answered
    /// with `Abort`.
    pub fn handle(&mut self, index: usize, event: Event) -> (action: Action)
        requires
            old(self).wf(),
        ensures
            final(self).wf(),
            (final(self)@, action@) == old(self)@.step(index as int, event@),
            final(self)@.total == old(self)@.total,
            final(self)@.t() == old(self)@.t(),
            old(self)@.committed <= final(self)@.committed <= final(self)@.total,
    {
        let ghost before = self@;
        let ghost n = index as int;
        let ghost ev = event@;
        proof {
            lemma_step_keeps_invariant(before, n, event@);
        }
        if index >= self.workers.len() {
            return Action::Abort;
        }
        proof {
            assert(before.worker_fits(n));
        }
        let phase = self.workers[index].phase;
        let action = match event {
            Event::Start => match phase {
                Phase::Pending => self.begin(index),
                _ => self.stray(index),
            },
            Event::Awake => match phase {
                Phase::Backoff => self.begin(index),
                _ => self.stray(index),
            },
            Event::Opened => match phase {
                Phase::Requesting => {
                    self.rest(index, Phase::Streaming);
                    Action::Read
                },
                _ => self.stray(index),
            },
            Event::Unreachable => match phase {
                Phase::Requesting => {
                    self.rest(index, Phase::Backoff);
                    Action::Sleep { millis: BACKOFF_MS }
                },
                _ => self.stray(index),
            },
            Event::Chunk(data) => match phase {
                Phase::Streaming => self.take_chunk(index, data),
                _ => self.stray(index),
            },
            Event::EndOfStream => match phase {
                Phase::Streaming => {
                    if self.workers[index].buffer.len() > 0 {
                        self.write_out(index, Phase::Draining)
                    } else {
                        self.settle(index)
                    }
                },
                _ => self.stray(index),
            },
            Event::Broken => match phase {
                Phase::Streaming => {
                    self.rest(index, Phase::Backoff);
                    Action::Sleep { millis: BACKOFF_MS }
                },
                _ => self.stray(index),
            },
            Event::Written => match phase {
                Phase::Flushing => {
                    self.commit(index, Phase::FlushSaving);
                    Action::Persist
                },
                Phase::Draining => {
                    assert(before.workers[n].pending =~= Seq::<u8>::empty());
                    self.commit(index, Phase::DrainSaving);
                    Action::Persist
                },
                _ => self.stray(index),
            },
            Event::Persisted => match phase {
                Phase::FlushSaving => {
                    self.workers[index].phase = Phase::Streaming;
                    assert(self@.workers =~= before.workers.update(
                        n,
                        WorkerState { phase: Phase::Streaming, ..before.workers[n] },
                    ));
                    Action::Read
                },
                Phase::DrainSaving => self.settle(index),
                Phase::Completing => {
                    self.rest(index, Phase::Complete);
                    Action::Finish
                },
                _ => self.stray(index),
            },
            Event::StorageFailed => self.stray(index),
        };
        action
    }
}

/// The segments among the first `n` whose workers are yet to be started, in
/// order.
pub open spec fn pending_upto(workers: Seq<WorkerState>, n: int) -> Seq<usize>
    decreases n,
{
    if n <= 0 {
        Seq::empty()
    } else if workers[n - 1].phase == Phase::Pending {
        pending_upto(workers, n - 1).push((n - 1) as usize)
    } else {
        pending_upto(workers, n - 1)
    }
}

/// What the display and the resume record read of a job.
#[derive(Clone, Debug, PartialEq, Eq)]
pub struct ProgressSnapshot {
    pub bytes_committed: u64,
    pub total_length: u64,
    pub cursors: Vec<i64>,
}

impl DownloadJob {
    /// The committed bytes, the length and the cursors at this moment.
    pub fn snapshot(&self) -> (s: ProgressSnapshot)
        ensures
            s.bytes_committed == self@.committed,
            s.total_length == self@.total,
            s.cursors@ == self@.cursors,
    {
        ProgressSnapshot {
            bytes_committed: self.bytes_committed,
            total_length: self.total_length,
            cursors: self.cursors(),
        }
    }

    /// Every byte is on disk.
    pub fn is_finished(&self) -> (r: bool)
        ensures
            r == (self@.committed >= self@.total),
    {
        self.bytes_committed >= self.total_length
    }

    /// The segments whose workers are to be started, in order: those that are
    /// not complete and have not been started yet.
    pub fn pending(&self) -> (r: Vec<usize>)
        requires
            self.wf(),
        ensures
            r@ == pending_upto(self@.workers, self@.t()),
    {
        let mut r: Vec<usize> = Vec::new();
        let mut n: usize = 0;
        while n < self.workers.len()
            invariant
                n <= self.workers@.len(),
                self.workers@.len() == self@.workers.len(),
                r@ == pending_upto(self@.workers, n as int),
            decreases self.workers@.len() - n,
        {
            match self.workers[n].phase {
                Phase::Pending => {
                    r.push(n);
                },
                _ => {},
            }
            n = n + 1;
        }
        r
    }
}

/// The committed bytes of a job never exceed the length of the resource.
pub proof fn lemma_committed_bounded(j: JobState)
    requires
        j.wf(),
    ensures
        0 <= j.committed <= j.total,
{
    lemma_credit_sum_bound(j.total, j.t(), j.cursors, j.t());
}

/// Once every worker is complete, every byte is committed.
pub proof fn lemma_complete_means_finished(j: JobState)
    requires
        j.wf(),
        forall|n: int| 0 <= n < j.t() ==> (#[trigger] j.workers[n]).phase == Phase::Complete,
    ensures
        j.committed == j.total,
{
    assert forall|n: int| 0 <= n < j.t() implies j.cursors[n] == COMPLETE by {
        assert(j.worker_fits(n));
    }
    lemma_credit_sum_complete(j.total, j.t(), j.cursors, j.t());
}

/// Where no worker is left to start among the first `n`, none is listed.
pub proof fn lemma_none_pending(workers: Seq<WorkerState>, n: int)
    requires
        0 <= n <= workers.len(),
        forall|m: int| 0 <= m < n ==> (#[trigger] workers[m]).phase != Phase::Pending,
    ensures
        pending_upto(workers, n) == Seq::<usize>::empty(),
    decreases n,
{
    if n > 0 {
        lemma_none_pending(workers, n - 1);
    }
}

} // verus!

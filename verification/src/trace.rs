//! Runs of a job: what holds after any sequence of reports.

use vstd::prelude::*;
use crate::job::{
    initial_job, lemma_credit_sum_complete, lemma_credit_sum_update, lemma_none_pending, lemma_step_keeps_invariant,
    pending_upto, JobState,
};
use crate::plan::{
    cursor_in_segment, lemma_segment_bounds, plannable, planned_end, planned_len, planned_start, COMPLETE,
};
use crate::worker::{ActionView, EventView, Phase, BACKOFF_MS};

verus! {

/// One report to a job: the segment whose worker is told, and the event.
pub struct Report {
    pub index: int,
    pub event: EventView,
}

/// The job after the reports have been handled in order.
pub open spec fn run(j: JobState, reports: Seq<Report>) -> JobState
    decreases reports.len(),
{
    if reports.len() == 0 {
        j
    } else {
        run(j, reports.drop_last()).step(reports.last().index, reports.last().event).0
    }
}

/// The bytes of segment `n` that the reports have confirmed as written.
pub open spec fn written(j: JobState, reports: Seq<Report>, n: int) -> int
    decreases reports.len(),
{
    if reports.len() == 0 {
        0
    } else {
        let earlier = run(j, reports.drop_last());
        let w = earlier.workers[n];
        written(j, reports.drop_last(), n) + if reports.last().index == n && reports.last().event is Written && (
        w.phase == Phase::Flushing || w.phase == Phase::Draining) {
            w.buffer.len() as int
        } else {
            0
        }
    }
}

/// Whatever is reported to a job, in whatever order, the job keeps its
/// invariant, the committed bytes never decrease from one report to a later
/// one, and they never exceed the length of the resource.
pub proof fn lemma_committed_grows(j: JobState, reports: Seq<Report>, k: int)
    requires
        j.wf(),
        0 <= k <= reports.len(),
    ensures
        run(j, reports).wf(),
        run(j, reports).total == j.total,
        run(j, reports).t() == j.t(),
        0 <= run(j, reports.take(k)).committed <= run(j, reports).committed <= j.total,
    decreases reports.len(),
{
    if reports.len() == 0 {
        assert(reports.take(k) =~= reports);
        lemma_step_keeps_invariant(j, 0, EventView::Start);
    } else {
        let earlier = reports.drop_last();
        if k == reports.len() {
            assert(reports.take(k) =~= reports);
            lemma_committed_grows(j, earlier, 0);
        } else {
            assert(earlier.take(k) =~= reports.take(k));
            lemma_committed_grows(j, earlier, k);
        }
        lemma_step_keeps_invariant(run(j, earlier), reports.last().index, reports.last().event);
    }
}

/// Until a segment is complete, its cursor stands at where it started plus
/// the bytes that have been confirmed as written since.
pub proof fn lemma_cursor_follows_writes(j: JobState, reports: Seq<Report>, n: int)
    requires
        j.wf(),
        0 <= n < j.t(),
        j.cursors[n] != COMPLETE,
    ensures
        run(j, reports).cursors[n] == COMPLETE || run(j, reports).cursors[n] == j.cursors[n] + written(
            j,
            reports,
            n,
        ),
    decreases reports.len(),
{
    if reports.len() > 0 {
        let earlier = run(j, reports.drop_last());
        lemma_cursor_follows_writes(j, reports.drop_last(), n);
        lemma_committed_grows(j, reports.drop_last(), 0);
        lemma_step_keeps_invariant(earlier, reports.last().index, reports.last().event);
        assert(earlier.worker_fits(n));
        assert(cursor_in_segment(earlier.total, earlier.t(), n, earlier.cursors[n] as int));
        lemma_segment_bounds(earlier.total, earlier.t(), n);
    }
}

/// A transport failure while the body is read sends the worker into its
/// pause, and the request that follows the pause starts at the cursor: at the
/// byte after the last one written, not at the start of the segment.
pub proof fn lemma_retry_resumes_at_cursor(j: JobState, n: int)
    requires
        j.wf(),
        0 <= n < j.t(),
        j.workers[n].phase == Phase::Streaming,
        !j.exhausted(n),
    ensures
        j.step(n, EventView::Broken).1 == (ActionView::Sleep { millis: BACKOFF_MS }),
        j.step(n, EventView::Broken).0.cursors == j.cursors,
        j.step(n, EventView::Broken).0.step(n, EventView::Awake).1 == (ActionView::Fetch {
            from: j.cursors[n] as u64,
            to: if n + 1 == j.t() {
                None
            } else {
                Some(planned_end(j.total, j.t(), n) as u64)
            },
        }),
{
    assert(j.worker_fits(n));
}

/// After any reports, a worker whose body breaks asks again, once its pause
/// is over, from the cursor it started with plus the bytes written since.
pub proof fn lemma_retry_after_writes(j: JobState, reports: Seq<Report>, n: int)
    requires
        j.wf(),
        0 <= n < j.t(),
        j.cursors[n] != COMPLETE,
        run(j, reports).workers[n].phase == Phase::Streaming,
        !run(j, reports).exhausted(n),
    ensures
        run(j, reports).step(n, EventView::Broken).0.step(n, EventView::Awake).1 == (ActionView::Fetch {
            from: (j.cursors[n] + written(j, reports, n)) as u64,
            to: if n + 1 == j.t() {
                None
            } else {
                Some(planned_end(j.total, j.t(), n) as u64)
            },
        }),
{
    let now = run(j, reports);
    lemma_committed_grows(j, reports, 0);
    lemma_cursor_follows_writes(j, reports, n);
    lemma_retry_resumes_at_cursor(now, n);
    assert(now.worker_fits(n));
}

/// A job that resumes from cursors that are all at the sentinel has every
/// byte committed from the start, has no worker to start, and answers no
/// report with a request.
pub proof fn lemma_resume_of_complete_run(
    total: int,
    file_path: Seq<char>,
    t: int,
    prior: Seq<i64>,
    n: int,
    e: EventView,
)
    requires
        plannable(total, t, Some(prior)),
        forall|m: int| 0 <= m < t ==> prior[m] == COMPLETE,
    ensures
        initial_job(total, file_path, t, Some(prior)).committed == total,
        forall|m: int| 0 <= m < t ==> (#[trigger] initial_job(total, file_path, t, Some(prior)).workers[m]).phase
            == Phase::Complete,
        pending_upto(initial_job(total, file_path, t, Some(prior)).workers, t) == Seq::<usize>::empty(),
        initial_job(total, file_path, t, Some(prior)).step(n, e).0 == initial_job(total, file_path, t, Some(prior)),
        !(initial_job(total, file_path, t, Some(prior)).step(n, e).1 is Fetch),
{
    let j = initial_job(total, file_path, t, Some(prior));
    lemma_credit_sum_complete(total, t, j.cursors, t);
    lemma_none_pending(j.workers, t);
}

/// A job that resumes with one segment part done and all others complete
/// starts with every byte committed but those from that segment's cursor to
/// its end: the full lengths of the other segments and the bytes before the
/// cursor. The part-done segment is its only worker to start, and that worker
/// asks for the bytes from its cursor to the end of its segment.
pub proof fn lemma_resume_of_one_segment(total: int, file_path: Seq<char>, t: int, prior: Seq<i64>, k: int)
    requires
        plannable(total, t, Some(prior)),
        0 <= k < t,
        forall|m: int| 0 <= m < t && m != k ==> prior[m] == COMPLETE,
        planned_start(total, t, k) < prior[k] <= planned_end(total, t, k),
    ensures
        initial_job(total, file_path, t, Some(prior)).committed == total - planned_len(total, t, k) + (prior[k]
            - planned_start(total, t, k)),
        forall|m: int|
            0 <= m < t ==> ((#[trigger] initial_job(total, file_path, t, Some(prior)).workers[m]).phase
                == Phase::Pending <==> m == k),
        initial_job(total, file_path, t, Some(prior)).step(k, EventView::Start).1 == (ActionView::Fetch {
            from: prior[k] as u64,
            to: if k + 1 == t {
                None
            } else {
                Some(planned_end(total, t, k) as u64)
            },
        }),
{
    let j = initial_job(total, file_path, t, Some(prior));
    let sealed = prior.update(k, COMPLETE);
    lemma_segment_bounds(total, t, k);
    lemma_credit_sum_complete(total, t, sealed, t);
    lemma_credit_sum_update(total, t, sealed, k, prior[k], t);
    assert(sealed.update(k, prior[k]) =~= prior);
    assert(j.cursors =~= prior);
}

} // verus!

//! Segment planning: how the byte space of a resource is divided among the
//! workers, and how the cursors of an earlier run are folded into a new plan.

use vstd::prelude::*;

verus! {

/// Cursor value of a segment whose bytes have all been delivered.
pub const COMPLETE: i64 = -1;

/// One contiguous byte range of the resource, owned by one worker.
#[derive(Clone, Copy, Debug, PartialEq, Eq)]
pub struct Segment {
    /// Position of the segment in the plan.
    pub index: u64,
    /// First byte of the range.
    pub range_start: u64,
    /// Last byte of the range (inclusive).
    pub range_end: u64,
    /// The last segment is fetched without an upper bound.
    pub open_ended: bool,
    /// Next byte to fetch, or `COMPLETE`.
    pub cursor: i64,
}

/// Why a plan could not be made.
#[derive(Clone, Copy, Debug, PartialEq, Eq)]
pub enum PlanError {
    /// The concurrency is zero.
    ZeroConcurrency,
    /// There are more segments than bytes.
    ConcurrencyExceedsLength,
    /// The length does not fit a signed 64-bit cursor.
    LengthTooLarge,
    /// The earlier run used another concurrency than this one.
    ResumeLengthMismatch,
    /// The cursor of this segment lies outside the segment.
    CursorOutOfRange { index: u64 },
}

/// The segments of a job and the bytes that are already on disk.
#[derive(Clone, Debug, PartialEq, Eq)]
pub struct SegmentPlan {
    pub segments: Vec<Segment>,
    pub bytes_committed: u64,
}

/// The pairs of length and concurrency for which a plan exists.
pub open spec fn valid_split(total: int, t: int) -> bool {
    1 <= t <= total <= i64::MAX
}

/// Number of bytes of every segment but the last.
pub open spec fn stride(total: int, t: int) -> int {
    total / t
}

/// First byte of segment `n`.
pub open spec fn planned_start(total: int, t: int, n: int) -> int {
    n * stride(total, t)
}

/// Last byte of segment `n`; the last segment takes the remainder.
pub open spec fn planned_end(total: int, t: int, n: int) -> int {
    if n + 1 < t {
        (n + 1) * stride(total, t) - 1
    } else {
        total - 1
    }
}

/// Number of bytes of segment `n`.
pub open spec fn planned_len(total: int, t: int, n: int) -> int {
    planned_end(total, t, n) - planned_start(total, t, n) + 1
}

/// The segment that holds byte `b`.
pub open spec fn owner(total: int, t: int, b: int) -> int {
    if b / stride(total, t) < t - 1 {
        b / stride(total, t)
    } else {
        t - 1
    }
}

/// Bytes that lie before segment `n`; all of them once `n` reaches `t`.
pub open spec fn covered(total: int, t: int, n: int) -> int {
    if n < t {
        planned_start(total, t, n)
    } else {
        total
    }
}

/// A cursor that segment `n` may carry: the sentinel, or a position from the
/// segment's first byte up to one past its last.
pub open spec fn cursor_in_segment(total: int, t: int, n: int, cursor: int) -> bool {
    cursor == COMPLETE || planned_start(total, t, n) <= cursor <= planned_end(total, t, n) + 1
}

/// Bytes of segment `n` that a cursor accounts for.
pub open spec fn credit(total: int, t: int, n: int, cursor: int) -> int {
    if cursor == COMPLETE {
        planned_len(total, t, n)
    } else {
        cursor - planned_start(total, t, n)
    }
}

/// Bytes that the first `upto` cursors account for.
pub open spec fn credit_sum(total: int, t: int, cursors: Seq<i64>, upto: int) -> int
    decreases upto,
{
    if upto <= 0 {
        0
    } else {
        credit_sum(total, t, cursors, upto - 1) + credit(total, t, upto - 1, cursors[upto - 1] as int)
    }
}

/// The cursor that segment `n` starts a run with.
pub open spec fn starting_cursor(total: int, t: int, prior: Option<Seq<i64>>, n: int) -> i64 {
    match prior {
        Some(p) => p[n],
        None => planned_start(total, t, n) as i64,
    }
}

/// Segment `n` of the plan, carrying the given cursor.
pub open spec fn planned_segment(total: int, t: int, n: int, cursor: i64) -> Segment {
    Segment {
        index: n as u64,
        range_start: planned_start(total, t, n) as u64,
        range_end: planned_end(total, t, n) as u64,
        open_ended: n + 1 == t,
        cursor,
    }
}

/// The cursors of a list of segments, in order.
pub open spec fn cursors_of(segments: Seq<Segment>) -> Seq<i64> {
    Seq::new(segments.len(), |i: int| segments[i].cursor)
}

/// Every cursor of an earlier run lies in its segment.
pub open spec fn cursors_fit(total: int, t: int, cursors: Seq<i64>) -> bool {
    forall|n: int| 0 <= n < cursors.len() ==> cursor_in_segment(total, t, n, #[trigger] cursors[n] as int)
}

/// The first segment whose cursor lies outside it.
pub open spec fn first_misfit(total: int, t: int, cursors: Seq<i64>, n: int) -> bool {
    &&& 0 <= n < cursors.len()
    &&& !cursor_in_segment(total, t, n, cursors[n] as int)
    &&& forall|m: int| 0 <= m < n ==> cursor_in_segment(total, t, m, #[trigger] cursors[m] as int)
}

/// The inputs for which a plan exists: at least one segment, no more
/// segments than bytes, a length that a cursor can hold, and cursors of an
/// earlier run, if any, that number as many as the segments and fit them.
pub open spec fn plannable(total: int, t: int, prior: Option<Seq<i64>>) -> bool {
    &&& valid_split(total, t)
    &&& prior matches Some(p) ==> p.len() == t && cursors_fit(total, t, p)
}

/// The error that inputs without a plan are answered with.
pub open spec fn plan_failure(total: int, t: int, prior: Option<Seq<i64>>, e: PlanError) -> bool {
    if t == 0 {
        e == PlanError::ZeroConcurrency
    } else if t > total {
        e == PlanError::ConcurrencyExceedsLength
    } else if total > i64::MAX {
        e == PlanError::LengthTooLarge
    } else if prior is Some && prior->0.len() != t {
        e == PlanError::ResumeLengthMismatch
    } else {
        &&& prior is Some
        &&& e matches PlanError::CursorOutOfRange { index }
        &&& first_misfit(total, t, prior->0, index as int)
    }
}

/// The cursors of an earlier run as a mathematical value.
pub open spec fn prior_view(prior: Option<&Vec<i64>>) -> Option<Seq<i64>> {
    match prior {
        Some(p) => Some(p@),
        None => None,
    }
}

/// The plan for a length, a concurrency and the cursors of an earlier run.
pub open spec fn is_plan(total: int, t: int, prior: Option<Seq<i64>>, plan: SegmentPlan) -> bool {
    &&& plan.segments@.len() == t
    &&& forall|n: int| 0 <= n < t ==> #[trigger] plan.segments@[n] == planned_segment(
        total, t, n, starting_cursor(total, t, prior, n))
    &&& plan.bytes_committed == credit_sum(total, t, cursors_of(plan.segments@), t)
}

/// The ranges of a plan lie inside the resource and follow one another.
pub proof fn lemma_segment_bounds(total: int, t: int, n: int)
    requires
        valid_split(total, t),
        0 <= n < t,
    ensures
        1 <= stride(total, t),
        0 <= planned_start(total, t, n) <= planned_end(total, t, n) < total,
        planned_start(total, t, n) + stride(total, t) <= planned_end(total, t, n) + 1,
        n + 1 < t ==> planned_end(total, t, n) == planned_start(total, t, n) + stride(total, t) - 1,
        n + 1 < t ==> planned_end(total, t, n) + 1 == planned_start(total, t, n + 1),
        n + 1 == t ==> planned_end(total, t, n) == total - 1,
        n == 0 ==> planned_start(total, t, n) == 0,
{
    let s = total / t;
    assert(s >= 1 && s * t <= total) by (nonlinear_arith)
        requires
            s == total / t,
            1 <= t <= total,
    ;
    assert(0 <= n * s && n * s + s == (n + 1) * s && (n + 1) * s <= t * s) by (nonlinear_arith)
        requires
            0 <= n < t,
            s >= 1,
    ;
    assert(t * s == s * t) by (nonlinear_arith);
}

/// The planned ranges cut the resource into pieces without gaps or overlaps:
/// every byte of the resource lies in the range of exactly one segment, its
/// owner. The first range starts at byte 0 and the last ends at the last byte.
pub proof fn lemma_ranges_partition(total: int, t: int, b: int, n: int)
    requires
        valid_split(total, t),
        0 <= b < total,
        0 <= n < t,
    ensures
        0 <= owner(total, t, b) < t,
        planned_start(total, t, n) <= b <= planned_end(total, t, n) <==> n == owner(total, t, b),
        planned_start(total, t, 0) == 0,
        planned_end(total, t, t - 1) == total - 1,
{
    let s = stride(total, t);
    let q = b / s;
    lemma_segment_bounds(total, t, n);
    lemma_segment_bounds(total, t, 0);
    assert(0 <= q && q * s <= b < q * s + s) by (nonlinear_arith)
        requires
            q == b / s,
            s >= 1,
            b >= 0,
    ;
    assert(n * s + s == (n + 1) * s) by (nonlinear_arith);
    if q < n {
        assert(q * s + s <= n * s) by (nonlinear_arith)
            requires
                q + 1 <= n,
                s >= 1,
        ;
    }
    if q > n {
        assert(n * s + s <= q * s) by (nonlinear_arith)
            requires
                n + 1 <= q,
                s >= 1,
        ;
    }
}

/// Builds the segments of a job.
///
/// The resource is cut into `concurrency` ranges of `total_length / concurrency`
/// bytes, the last of which also takes the remainder. Without `prior`, every
/// segment starts at its first byte. With `prior`, the cursors of an earlier
/// run, a segment at the sentinel stays complete and its whole length counts
/// as committed, and any other segment resumes at its cursor, the bytes before
/// which count as committed.
pub fn plan_segments(total_length: u64, concurrency: u64, prior: Option<&Vec<i64>>) -> (r: Result<
    SegmentPlan,
    PlanError,
>)
    ensures
        match r {
            Ok(plan) => plannable(total_length as int, concurrency as int, prior_view(prior)) && is_plan(
                total_length as int,
                concurrency as int,
                prior_view(prior),
                plan,
            ),
            Err(e) => !plannable(total_length as int, concurrency as int, prior_view(prior)) && plan_failure(
                total_length as int,
                concurrency as int,
                prior_view(prior),
                e,
            ),
        },
{
    let ghost total = total_length as int;
    let ghost t = concurrency as int;
    let ghost prior_seq: Option<Seq<i64>> = prior_view(prior);
    if concurrency == 0 {
        return Err(PlanError::ZeroConcurrency);
    }
    if concurrency > total_length {
        return Err(PlanError::ConcurrencyExceedsLength);
    }
    if total_length > 0x7fff_ffff_ffff_ffff {
        return Err(PlanError::LengthTooLarge);
    }
    if let Some(p) = prior {
        if p.len() as u64 != concurrency {
            return Err(PlanError::ResumeLengthMismatch);
        }
    }
    let step: u64 = total_length / concurrency;
    let mut segments: Vec<Segment> = Vec::new();
    let mut committed: u64 = 0;
    let mut n: u64 = 0;
    while n < concurrency
        invariant
            valid_split(total, t),
            total == total_length,
            t == concurrency,
            step == stride(total, t),
            prior_seq == prior_view(prior),
            prior_seq is Some ==> prior_seq->0.len() == t,
            0 <= n <= concurrency,
            segments@.len() == n,
            forall|m: int| 0 <= m < n ==> #[trigger] segments@[m] == planned_segment(
                total, t, m, starting_cursor(total, t, prior_seq, m)),
            forall|m: int| 0 <= m < n ==> cursor_in_segment(total, t, m, #[trigger] segments@[m].cursor as int),
            committed == credit_sum(total, t, cursors_of(segments@), n as int),
            0 <= committed <= covered(total, t, n as int) <= total,
        decreases concurrency - n,
    {
        proof {
            lemma_segment_bounds(total, t, n as int);
        }
        let start: u64 = n * step;
        let end: u64 = if n + 1 < concurrency {
            start + step - 1
        } else {
            total_length - 1
        };
        let cursor: i64 = match prior {
            Some(p) => p[n as usize],
            None => start as i64,
        };
        if cursor != COMPLETE && (cursor < 0 || (cursor as u64) < start || (cursor as u64) > end + 1) {
            proof {
                let p = prior_seq->0;
                assert(p[n as int] == cursor);
                assert forall|m: int| 0 <= m < n implies cursor_in_segment(total, t, m, #[trigger] p[m] as int) by {
                    assert(segments@[m] == planned_segment(total, t, m, starting_cursor(total, t, prior_seq, m)));
                    assert(cursor_in_segment(total, t, m, segments@[m].cursor as int));
                }
                assert(first_misfit(total, t, p, n as int));
            }
            return Err(PlanError::CursorOutOfRange { index: n });
        }
        let credited: u64 = if cursor == COMPLETE {
            end - start + 1
        } else {
            cursor as u64 - start
        };
        let ghost before = segments@;
        segments.push(
            Segment { index: n, range_start: start, range_end: end, open_ended: n + 1 == concurrency, cursor },
        );
        proof {
            lemma_credit_sum_prefix(total, t, cursors_of(before), cursors_of(segments@), n as int);
            assert(cursors_of(segments@)[n as int] == cursor);
            if n + 1 < concurrency {
                lemma_segment_bounds(total, t, n + 1);
            }
        }
        committed = committed + credited;
        n = n + 1;
    }
    proof {
        if prior_seq is Some {
            let p = prior_seq->0;
            assert forall|m: int| 0 <= m < p.len() implies cursor_in_segment(total, t, m, #[trigger] p[m] as int) by {
                assert(segments@[m] == planned_segment(total, t, m, starting_cursor(total, t, prior_seq, m)));
                assert(cursor_in_segment(total, t, m, segments@[m].cursor as int));
            }
        }
    }
    Ok(SegmentPlan { segments, bytes_committed: committed })
}

/// The bytes credited to a prefix depend on the cursors of that prefix only.
pub proof fn lemma_credit_sum_prefix(total: int, t: int, a: Seq<i64>, b: Seq<i64>, upto: int)
    requires
        0 <= upto <= a.len(),
        upto <= b.len(),
        forall|i: int| 0 <= i < upto ==> a[i] == b[i],
    ensures
        credit_sum(total, t, a, upto) == credit_sum(total, t, b, upto),
    decreases upto,
{
    if upto > 0 {
        lemma_credit_sum_prefix(total, t, a, b, upto - 1);
    }
}

} // verus!

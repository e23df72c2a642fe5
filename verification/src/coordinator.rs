//! The coordinator's decisions: from the probe to the job, what the display
//! shows at each tick, and what the resume record holds.

use vstd::prelude::*;
use crate::config::{Config, ConfigView};
use crate::job::{initial_job, lemma_committed_bounded, DownloadJob};
use crate::plan::{plan_failure, plannable, PlanError};
use crate::probe::{evaluate_probe, probe_result, ProbeError, ProbeResponse};

verus! {

/// Time between two looks at the progress, in milliseconds.
pub const POLL_INTERVAL_MS: u64 = 500;

/// Why a run ends before any byte is fetched.
#[derive(Clone, Copy, Debug, PartialEq, Eq)]
pub enum StartError {
    /// The probe failed.
    Probe(ProbeError),
    /// No plan exists for the length and the configuration.
    Plan(PlanError),
}

/// A run that is ready for its workers.
pub struct Started {
    pub job: DownloadJob,
    /// The server announced that it serves ranges; a warning is due where it
    /// did not.
    pub ranges_announced: bool,
}

/// What the display shows at a tick.
#[derive(Clone, Copy, Debug, PartialEq, Eq)]
pub struct Frame {
    /// Every byte is on disk: the display ends.
    pub finished: bool,
    pub bytes_committed: u64,
    pub total_length: u64,
    /// Bytes committed since the tick before, scaled to one second.
    pub bytes_per_second: u64,
}

/// The rate between two ticks: the bytes committed from one to the next, for
/// each second of the interval between them.
pub open spec fn rate(previous: int, current: int) -> int {
    if previous <= current {
        (current - previous) * 1000 / (POLL_INTERVAL_MS as int)
    } else {
        0
    }
}

/// What `start` returns.
pub open spec fn start_outcome(config: ConfigView, response: Option<ProbeResponse>, r: Result<Started, StartError>) -> bool {
    match probe_result(response) {
        Err(e) => r matches Err(StartError::Probe(f)) && f == e,
        Ok(report) => {
            let total = report.total_length as int;
            let t = config.concurrency as int;
            if plannable(total, t, config.resume_cursors) {
                &&& r matches Ok(s)
                &&& s.job.wf()
                &&& s.job@ == initial_job(total, config.output(), t, config.resume_cursors)
                &&& s.ranges_announced == report.ranges_announced
            } else {
                r matches Err(StartError::Plan(e)) && plan_failure(total, t, config.resume_cursors, e)
            }
        },
    }
}

/// Takes a run from the probe to its job. `response` is the outcome of the
/// metadata request: `None` where it failed. A failed probe, or one that does
/// not tell the length, ends the run; so does a length or a resume record for
/// which no plan exists. No file is to be touched before this returns `Ok`.
pub fn start(config: &Config, response: Option<&ProbeResponse>) -> (r: Result<Started, StartError>)
    ensures
        start_outcome(
            config@,
            match response {
                Some(p) => Some(*p),
                None => None,
            },
            r,
        ),
{
    let report = match evaluate_probe(response) {
        Ok(report) => report,
        Err(e) => {
            return Err(StartError::Probe(e));
        },
    };
    match DownloadJob::new(report.total_length, config.output(), config.concurrency, config.resume_cursors.as_ref()) {
        Ok(job) => Ok(Started { job, ranges_announced: report.ranges_announced }),
        Err(e) => Err(StartError::Plan(e)),
    }
}

/// What the display shows of a job, `previous` being the committed bytes at
/// the tick before.
pub fn frame(job: &DownloadJob, previous: u64) -> (f: Frame)
    requires
        job.wf(),
    ensures
        f.finished == (job@.committed >= job@.total),
        f.bytes_committed == job@.committed,
        f.total_length == job@.total,
        f.bytes_per_second == rate(previous as int, job@.committed),
{
    proof {
        job.lemma_wf();
        lemma_committed_bounded(job@);
    }
    let current = job.bytes_committed();
    let bytes_per_second = if previous <= current {
        (current - previous) * (1000 / POLL_INTERVAL_MS)
    } else {
        0
    };
    Frame {
        finished: job.is_finished(),
        bytes_committed: current,
        total_length: job.total_length(),
        bytes_per_second,
    }
}

/// The resume record of a job: the configuration it started with, holding
/// the cursors as they stand.
pub fn resume_record(config: &Config, job: &DownloadJob) -> (record: Config)
    ensures
        record@ == config@.with_cursors(job@.cursors),
{
    config.with_cursors(job.cursors())
}

} // verus!

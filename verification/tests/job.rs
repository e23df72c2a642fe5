use mget::job::DownloadJob;
use mget::plan::{PlanError, Segment, COMPLETE};
use mget::worker::{Action, Event, Phase, BACKOFF_MS, BUFFER_CAPACITY};

fn job(total: u64, t: u64, prior: Option<Vec<i64>>) -> DownloadJob {
    match DownloadJob::new(total, String::from("out.bin"), t, prior.as_ref()) {
        Ok(job) => job,
        Err(e) => panic!("no plan: {:?}", e),
    }
}

fn bytes(n: usize, seed: u8) -> Vec<u8> {
    (0..n).map(|i| (i as u8).wrapping_mul(31).wrapping_add(seed)).collect()
}

#[test]
fn fresh_job_starts_every_worker() {
    let j = job(1000, 3, None);
    assert_eq!(j.total_length(), 1000);
    assert_eq!(j.bytes_committed(), 0);
    assert_eq!(j.concurrency(), 3);
    assert_eq!(j.file_path(), "out.bin");
    assert_eq!(j.cursors(), vec![0, 333, 666]);
    assert_eq!(j.pending(), vec![0, 1, 2]);
    assert!(!j.is_finished());
    assert_eq!(j.phase(0), Some(Phase::Pending));
    assert_eq!(j.phase(3), None);
    assert_eq!(
        j.segment(1),
        Some(Segment { index: 1, range_start: 333, range_end: 665, open_ended: false, cursor: 333 })
    );
    assert_eq!(j.segment(3), None);
}

#[test]
fn job_for_no_plan_is_refused() {
    assert!(matches!(
        DownloadJob::new(1000, String::from("x"), 0, None),
        Err(PlanError::ZeroConcurrency)
    ));
    let prior = vec![0i64, 0, 0];
    assert!(matches!(
        DownloadJob::new(1000, String::from("x"), 3, Some(&prior)),
        Err(PlanError::CursorOutOfRange { index: 1 })
    ));
}

#[test]
fn interior_segment_asks_for_a_closed_range() {
    let mut j = job(1000, 3, None);
    assert_eq!(j.handle(0, Event::Start), Action::Fetch { from: 0, to: Some(332) });
    assert_eq!(j.handle(1, Event::Start), Action::Fetch { from: 333, to: Some(665) });
    assert_eq!(j.phase(0), Some(Phase::Requesting));
}

#[test]
fn last_segment_asks_for_an_open_range() {
    let mut j = job(10, 3, None);
    assert_eq!(j.handle(2, Event::Start), Action::Fetch { from: 6, to: None });
}

#[test]
fn small_segment_is_drained_and_completed() {
    let mut j = job(1000, 3, None);
    let data = bytes(333, 1);
    assert_eq!(j.handle(0, Event::Start), Action::Fetch { from: 0, to: Some(332) });
    assert_eq!(j.handle(0, Event::Opened), Action::Read);
    assert_eq!(j.handle(0, Event::Chunk(data[..100].to_vec())), Action::Read);
    assert_eq!(j.handle(0, Event::Chunk(data[100..].to_vec())), Action::Read);
    assert_eq!(j.bytes_committed(), 0);
    assert_eq!(j.handle(0, Event::EndOfStream), Action::Write { offset: 0, data: data.clone() });
    assert_eq!(j.phase(0), Some(Phase::Draining));
    assert_eq!(j.bytes_committed(), 0);
    assert_eq!(j.handle(0, Event::Written), Action::Persist);
    assert_eq!(j.bytes_committed(), 333);
    assert_eq!(j.cursors(), vec![333, 333, 666]);
    assert_eq!(j.handle(0, Event::Persisted), Action::Persist);
    assert_eq!(j.phase(0), Some(Phase::Completing));
    assert_eq!(j.cursors(), vec![COMPLETE, 333, 666]);
    assert_eq!(j.bytes_committed(), 333);
    assert_eq!(j.handle(0, Event::Persisted), Action::Finish);
    assert_eq!(j.phase(0), Some(Phase::Complete));
}

#[test]
fn complete_worker_does_no_further_work() {
    let mut j = job(4, 1, None);
    j.handle(0, Event::Start);
    j.handle(0, Event::Opened);
    j.handle(0, Event::Chunk(vec![1, 2, 3, 4]));
    j.handle(0, Event::EndOfStream);
    j.handle(0, Event::Written);
    j.handle(0, Event::Persisted);
    assert_eq!(j.handle(0, Event::Persisted), Action::Finish);
    assert!(j.is_finished());
    for e in [Event::Start, Event::Awake, Event::Broken, Event::Chunk(vec![9]), Event::StorageFailed] {
        assert_eq!(j.handle(0, e), Action::Finish);
        assert_eq!(j.phase(0), Some(Phase::Complete));
        assert_eq!(j.bytes_committed(), 4);
        assert_eq!(j.cursors(), vec![COMPLETE]);
    }
}

#[test]
fn full_buffer_is_flushed_before_the_piece_is_taken() {
    let total = 3 * BUFFER_CAPACITY as u64;
    let mut j = job(total, 1, None);
    j.handle(0, Event::Start);
    j.handle(0, Event::Opened);
    let first = bytes(BUFFER_CAPACITY - 10, 3);
    let second = bytes(11, 5);
    assert_eq!(j.handle(0, Event::Chunk(first.clone())), Action::Read);
    assert_eq!(j.handle(0, Event::Chunk(second.clone())), Action::Write { offset: 0, data: first.clone() });
    assert_eq!(j.phase(0), Some(Phase::Flushing));
    assert_eq!(j.bytes_committed(), 0);
    assert_eq!(j.handle(0, Event::Written), Action::Persist);
    assert_eq!(j.phase(0), Some(Phase::FlushSaving));
    assert_eq!(j.bytes_committed(), first.len() as u64);
    assert_eq!(j.cursors(), vec![first.len() as i64]);
    assert_eq!(j.handle(0, Event::Persisted), Action::Read);
    assert_eq!(j.phase(0), Some(Phase::Streaming));
    // the piece that waited is now the buffer: the next flush writes it
    let third = bytes(BUFFER_CAPACITY, 7);
    assert_eq!(
        j.handle(0, Event::Chunk(third)),
        Action::Write { offset: first.len() as u64, data: second }
    );
}

#[test]
fn piece_that_fills_the_buffer_exactly_is_not_flushed() {
    let total = 2 * BUFFER_CAPACITY as u64;
    let mut j = job(total, 1, None);
    j.handle(0, Event::Start);
    j.handle(0, Event::Opened);
    assert_eq!(j.handle(0, Event::Chunk(bytes(BUFFER_CAPACITY - 1, 0))), Action::Read);
    assert_eq!(j.handle(0, Event::Chunk(vec![7])), Action::Read);
    let full = j.handle(0, Event::Chunk(vec![8]));
    match full {
        Action::Write { offset, data } => {
            assert_eq!(offset, 0);
            assert_eq!(data.len(), BUFFER_CAPACITY);
            assert_eq!(data[BUFFER_CAPACITY - 1], 7);
        },
        other => panic!("expected a write, got {:?}", other),
    }
}

#[test]
fn retry_after_a_flush_starts_at_the_cursor() {
    let total = 4 * BUFFER_CAPACITY as u64;
    let mut j = job(total, 2, None);
    let start = 2 * BUFFER_CAPACITY as u64;
    assert_eq!(j.handle(1, Event::Start), Action::Fetch { from: start, to: None });
    j.handle(1, Event::Opened);
    let n = BUFFER_CAPACITY - 5;
    j.handle(1, Event::Chunk(bytes(n, 1)));
    assert!(matches!(j.handle(1, Event::Chunk(bytes(100, 2))), Action::Write { .. }));
    assert_eq!(j.handle(1, Event::Written), Action::Persist);
    assert_eq!(j.handle(1, Event::Persisted), Action::Read);
    assert_eq!(j.handle(1, Event::Broken), Action::Sleep { millis: BACKOFF_MS });
    assert_eq!(j.phase(1), Some(Phase::Backoff));
    assert_eq!(j.bytes_committed(), n as u64);
    assert_eq!(j.handle(1, Event::Awake), Action::Fetch { from: start + n as u64, to: None });
    // what was in memory is fetched again: the next write starts at the cursor
    j.handle(1, Event::Opened);
    j.handle(1, Event::Chunk(vec![1, 2, 3]));
    assert_eq!(j.handle(1, Event::Broken), Action::Sleep { millis: 2000 });
    assert_eq!(j.handle(1, Event::Awake), Action::Fetch { from: start + n as u64, to: None });
}

#[test]
fn failed_request_is_tried_again() {
    let mut j = job(1000, 3, None);
    j.handle(1, Event::Start);
    assert_eq!(j.handle(1, Event::Unreachable), Action::Sleep { millis: 2000 });
    assert_eq!(j.handle(1, Event::Awake), Action::Fetch { from: 333, to: Some(665) });
    assert_eq!(j.handle(1, Event::Unreachable), Action::Sleep { millis: 2000 });
    assert_eq!(j.handle(1, Event::Awake), Action::Fetch { from: 333, to: Some(665) });
}

#[test]
fn bytes_beyond_the_segment_are_dropped() {
    let mut j = job(10, 3, None);
    j.handle(0, Event::Start);
    j.handle(0, Event::Opened);
    assert_eq!(j.handle(0, Event::Chunk(vec![1, 2, 3, 4, 5, 6, 7, 8, 9, 10])), Action::Read);
    assert_eq!(j.handle(0, Event::Chunk(vec![11, 12])), Action::Read);
    assert_eq!(j.handle(0, Event::EndOfStream), Action::Write { offset: 0, data: vec![1, 2, 3] });
    assert_eq!(j.handle(0, Event::Written), Action::Persist);
    assert_eq!(j.bytes_committed(), 3);
    assert_eq!(j.handle(0, Event::Persisted), Action::Persist);
    assert_eq!(j.handle(0, Event::Persisted), Action::Finish);
    assert_eq!(j.cursors(), vec![COMPLETE, 3, 6]);
}

#[test]
fn body_that_ends_early_is_fetched_again_from_the_cursor() {
    let mut j = job(10, 3, None);
    j.handle(2, Event::Start);
    j.handle(2, Event::Opened);
    j.handle(2, Event::Chunk(vec![1, 2]));
    assert_eq!(j.handle(2, Event::EndOfStream), Action::Write { offset: 6, data: vec![1, 2] });
    assert_eq!(j.handle(2, Event::Written), Action::Persist);
    assert_eq!(j.cursors(), vec![0, 3, 8]);
    assert_eq!(j.handle(2, Event::Persisted), Action::Sleep { millis: 2000 });
    assert_eq!(j.phase(2), Some(Phase::Backoff));
    assert_eq!(j.handle(2, Event::Awake), Action::Fetch { from: 8, to: None });
    j.handle(2, Event::Opened);
    // an empty body: nothing to write, nothing gained
    assert_eq!(j.handle(2, Event::EndOfStream), Action::Sleep { millis: 2000 });
    assert_eq!(j.bytes_committed(), 2);
}

#[test]
fn failed_write_fails_the_worker_for_good() {
    let mut j = job(10, 2, None);
    j.handle(0, Event::Start);
    j.handle(0, Event::Opened);
    j.handle(0, Event::Chunk(vec![1, 2, 3, 4, 5]));
    assert!(matches!(j.handle(0, Event::EndOfStream), Action::Write { .. }));
    assert_eq!(j.handle(0, Event::StorageFailed), Action::Abort);
    assert_eq!(j.phase(0), Some(Phase::Failed));
    assert_eq!(j.bytes_committed(), 0);
    assert_eq!(j.handle(0, Event::Written), Action::Abort);
    assert_eq!(j.handle(0, Event::Start), Action::Abort);
    assert_eq!(j.phase(0), Some(Phase::Failed));
    // the other worker is not touched
    assert_eq!(j.phase(1), Some(Phase::Pending));
}

#[test]
fn event_out_of_turn_fails_the_worker() {
    let mut j = job(10, 2, None);
    assert_eq!(j.handle(0, Event::Chunk(vec![1])), Action::Abort);
    assert_eq!(j.phase(0), Some(Phase::Failed));
    assert_eq!(j.handle(1, Event::Start), Action::Fetch { from: 5, to: None });
    assert_eq!(j.handle(1, Event::Start), Action::Abort);
}

#[test]
fn unknown_segment_is_answered_with_abort() {
    let mut j = job(10, 2, None);
    assert_eq!(j.handle(2, Event::Start), Action::Abort);
    assert_eq!(j.cursors(), vec![0, 5]);
    assert_eq!(j.pending(), vec![0, 1]);
}

#[test]
fn committed_bytes_never_decrease_nor_pass_the_length() {
    let total = 100u64;
    let mut j = job(total, 4, None);
    let mut last = 0u64;
    let script: Vec<(usize, Event)> = vec![
        (0, Event::Start),
        (1, Event::Start),
        (0, Event::Opened),
        (0, Event::Chunk(bytes(200, 1))),
        (1, Event::Unreachable),
        (0, Event::EndOfStream),
        (0, Event::Written),
        (3, Event::Start),
        (3, Event::Opened),
        (3, Event::Chunk(bytes(7, 2))),
        (0, Event::Persisted),
        (3, Event::Broken),
        (0, Event::Persisted),
        (1, Event::Awake),
        (1, Event::Opened),
        (1, Event::Chunk(bytes(25, 3))),
        (1, Event::EndOfStream),
        (1, Event::Written),
        (1, Event::StorageFailed),
        (2, Event::Persisted),
        (3, Event::Awake),
        (3, Event::Opened),
        (3, Event::Chunk(bytes(1000, 4))),
        (3, Event::EndOfStream),
        (3, Event::Written),
        (9, Event::Written),
    ];
    for (index, event) in script {
        j.handle(index, event);
        let now = j.bytes_committed();
        assert!(last <= now);
        assert!(now <= total);
        last = now;
    }
    assert_eq!(last, 75);
}

#[test]
fn resume_of_a_complete_run_fetches_nothing() {
    let mut j = job(1000, 3, Some(vec![COMPLETE, COMPLETE, COMPLETE]));
    assert_eq!(j.bytes_committed(), 1000);
    assert!(j.is_finished());
    assert!(j.pending().is_empty());
    for n in 0..3 {
        assert_eq!(j.phase(n), Some(Phase::Complete));
        assert_eq!(j.handle(n, Event::Start), Action::Finish);
    }
    assert_eq!(j.cursors(), vec![COMPLETE, COMPLETE, COMPLETE]);
}

#[test]
fn resume_of_one_part_done_segment() {
    // segments of 250 bytes; the third stands at byte 600
    let mut j = job(1000, 4, Some(vec![COMPLETE, COMPLETE, 600, COMPLETE]));
    assert_eq!(j.bytes_committed(), 250 + 250 + 250 + 100);
    assert_eq!(j.pending(), vec![2]);
    assert_eq!(j.handle(2, Event::Start), Action::Fetch { from: 600, to: Some(749) });
    assert_eq!(mget::http::range_header(600, Some(749)), "bytes=600-749");
}

#[test]
fn resumed_segment_with_nothing_left_is_completed_without_a_request() {
    let mut j = job(1000, 4, Some(vec![COMPLETE, 500, 500, COMPLETE]));
    assert_eq!(j.bytes_committed(), 750);
    assert_eq!(j.pending(), vec![1, 2]);
    assert_eq!(j.handle(1, Event::Start), Action::Persist);
    assert_eq!(j.cursors(), vec![COMPLETE, COMPLETE, 500, COMPLETE]);
    assert_eq!(j.bytes_committed(), 750);
    assert_eq!(j.handle(1, Event::Persisted), Action::Finish);
    assert_eq!(j.handle(2, Event::Start), Action::Fetch { from: 500, to: Some(749) });
}

#[test]
fn snapshot_shows_the_job_as_it_stands() {
    let mut j = job(10, 2, None);
    j.handle(0, Event::Start);
    j.handle(0, Event::Opened);
    j.handle(0, Event::Chunk(vec![1, 2, 3, 4, 5]));
    j.handle(0, Event::EndOfStream);
    j.handle(0, Event::Written);
    let s = j.snapshot();
    assert_eq!(s.bytes_committed, 5);
    assert_eq!(s.total_length, 10);
    assert_eq!(s.cursors, vec![5, 5]);
}

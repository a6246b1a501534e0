use plc_mirror::circuit::CircuitState;
use plc_mirror::clock::{Span, Timestamp};
use plc_mirror::models::{LogEntry, PlcOperation, ScraperJob};
use plc_mirror::request::RequestError;
use plc_mirror::scraper::Scraper;
use plc_mirror::store::{Partition, StatsChange, Step, Stored};
use plc_mirror::sync::{
    self, AfterBatch, BatchStart, BatchTally, ContinuousSync, EntryStep, FetchError, Fetched,
    SyncEnd, SyncError, SyncRun,
};

fn at(secs: i64) -> Timestamp {
    Timestamp::new(secs, 0).unwrap()
}

fn entry(secs: i64) -> LogEntry {
    LogEntry {
        did: "d".to_string(),
        operation: PlcOperation {
            op_type: "plc_operation".to_string(),
            rotation_keys: None,
            verification_methods: None,
            also_known_as: None,
            services: None,
            prev: None,
            sig: String::new(),
            signing_key: None,
            recovery_key: None,
            handle: None,
            service: None,
        },
        cid: "c".to_string(),
        nullified: false,
        created_at: at(secs),
    }
}

fn entries(n: usize) -> Vec<LogEntry> {
    (0..n).map(|i| entry(1_704_164_645 + i as i64)).collect()
}

fn job_of(step: Step) -> ScraperJob {
    match step {
        Step::Put { partition: Partition::Jobs, value: Stored::Job(job), .. } => job,
        _ => panic!("no job"),
    }
}

fn started() -> SyncRun {
    let (job, step) = sync::start_job();
    assert_eq!(job_of(step).id, job.id);
    SyncRun::new(job, 500, Some(at(77)))
}

#[test]
fn a_synchronisation_starts_with_a_running_job() {
    let (job, step) = sync::start_job();
    assert_eq!(job.status, "running");
    assert_eq!(job.job_type, "export_sync");
    assert_eq!(job_of(step).status, "running");
    let run = SyncRun::new(job, 500, Some(at(77)));
    assert_eq!(run.query().count, Some(500));
    assert_eq!(run.query().after, Some(at(77)));
    assert_eq!(run.total(), 0);
}

#[test]
fn full_batches_go_on_and_a_partial_one_ends_it() {
    let run = started();
    let batch = entries(500);
    let run = match run.fetched(&batch) {
        Fetched::Process(run) => run,
        other => panic!("{:?}", other),
    };
    let done = run.batch_done(&batch, 500);
    assert!(!done.flush);
    let saved = job_of(done.step);
    assert_eq!(saved.records_processed, 500);
    assert_eq!(saved.last_cursor.as_deref(), Some("2024-01-02T03:12:24+00:00"));
    assert_eq!(saved.status, "running");
    let run = match done.next {
        AfterBatch::Pause(run, pause) => {
            assert_eq!(pause.as_secs(), 5);
            run
        }
        other => panic!("{:?}", other),
    };
    assert_eq!(run.query().after, Some(at(1_704_164_645 + 499)));
    assert_eq!(run.query().count, Some(500));
    let batch = entries(500);
    let done = run.batch_done(&batch, 550);
    assert!(done.flush);
    let end = match done.next {
        AfterBatch::Finish(end) => end,
        other => panic!("{:?}", other),
    };
    finished(end, 1000);
}

fn finished(end: SyncEnd, total: usize) {
    assert_eq!(end.total(), total);
    let (synced, step) = end.finish_at(at(1_704_200_000));
    assert!(matches!(synced, Step::Count(StatsChange::Synced(now)) if now == at(1_704_200_000)));
    let job = job_of(step);
    assert_eq!(job.job_type, "export_sync");
    assert_eq!(job.status, "completed");
    assert_eq!(job.records_processed, total as i64);
    assert_eq!(job.completed_at, Some(at(1_704_200_000)));
    assert!(job.error_message.is_none());
}

#[test]
fn the_end_of_a_synchronisation_is_kept_with_its_job() {
    let (job, step) = sync::start_job_at(7, at(100));
    assert_eq!(job_of(step).started_at, at(100));
    let id = job.id;
    let run = SyncRun::new(job, 500, None);
    let end = match run.batch_done(&entries(3), 500).next {
        AfterBatch::Finish(end) => end,
        other => panic!("{:?}", other),
    };
    let (synced, step) = end.finish();
    let job = job_of(step);
    assert_eq!(job.id, id);
    assert_eq!(job.started_at, at(100));
    assert_eq!(job.records_processed, 3);
    let now = job.completed_at.unwrap();
    assert!(matches!(synced, Step::Count(StatsChange::Synced(when)) if when == now));
    assert!((chrono::Utc::now().timestamp() - now.secs()).abs() < 60);
}

#[test]
fn a_synchronisation_that_failed_is_kept_with_its_time() {
    let (step, _) = started().fetch_failed_at(FetchError::Body, at(9));
    assert_eq!(job_of(step).completed_at, Some(at(9)));
    let (step, _) = started().batch_failed_at(SyncError::Unhealthy, at(8));
    assert_eq!(job_of(step).completed_at, Some(at(8)));
    let mut scraper = Scraper::new();
    scraper.set_circuit_breaker_config(1, 10);
    scraper.circuit_breaker.record_failure();
    match scraper.before_batch_after(started(), Span::from_secs(10), at(7)) {
        BatchStart::Abort { step, .. } => assert_eq!(job_of(step).completed_at, Some(at(7))),
        other => panic!("{:?}", other),
    }
    assert_eq!(scraper.before_sync_after(Span::from_secs(10)).unwrap().as_secs(), 60);
    assert!(scraper.before_sync_after(Span::from_secs(11)).is_none());
    assert_eq!(scraper.circuit_breaker.state, CircuitState::HalfOpen);
    assert!(matches!(
        scraper.before_batch_after(started(), Span::from_secs(0), at(7)),
        BatchStart::Fetch(_)
    ));
}

#[test]
fn three_batches_without_entries_end_it() {
    let mut run = started();
    for _ in 0..2 {
        run = match run.fetched(&Vec::new()) {
            Fetched::Pause(run, pause) => {
                assert_eq!(pause.as_secs(), 10);
                run
            }
            other => panic!("{:?}", other),
        };
    }
    run = match run.fetched(&entries(1)) {
        Fetched::Process(run) => run,
        other => panic!("{:?}", other),
    };
    for _ in 0..2 {
        run = match run.fetched(&Vec::new()) {
            Fetched::Pause(run, _) => run,
            other => panic!("{:?}", other),
        };
    }
    match run.fetched(&Vec::new()) {
        Fetched::Finish(end) => finished(end, 0),
        other => panic!("{:?}", other),
    }
}

#[test]
fn an_open_breaker_ends_it_early() {
    let mut scraper = Scraper::new();
    scraper.set_circuit_breaker_config(1, 300);
    let run = match scraper.before_batch(started()) {
        BatchStart::Fetch(run) => run,
        other => panic!("{:?}", other),
    };
    scraper.circuit_breaker.record_failure();
    assert_eq!(scraper.circuit_breaker.state, CircuitState::Open);
    match scraper.before_batch(run) {
        BatchStart::Abort { step, error } => {
            let job = job_of(step);
            assert_eq!(job.status, "failed");
            assert_eq!(job.error_message.as_deref(), Some("Circuit breaker open"));
            assert_eq!(error.message(), "Circuit breaker prevented sync completion");
        }
        other => panic!("{:?}", other),
    }
}

#[test]
fn a_batch_that_cannot_be_fetched_ends_it_early() {
    for (error, told) in [
        (FetchError::Request(RequestError::RateLimited), "Failed to fetch export data"),
        (FetchError::Header("bad header".to_string()), "bad header"),
        (FetchError::Body, "Failed to read response body"),
        (FetchError::Parse, "Failed to parse JSONL response"),
    ] {
        let (step, error) = started().fetch_failed(error);
        let job = job_of(step);
        assert_eq!(job.status, "failed");
        assert_eq!(job.error_message.unwrap(), format!("Failed to fetch export: {}", told));
        assert_eq!(error.message(), told);
    }
}

#[test]
fn a_batch_that_cannot_be_taken_in_ends_it_early() {
    let error = SyncError::Processing { errors: 11, total: 40 };
    let (step, error) = started().batch_failed(error);
    let told = "Too many processing errors (11/40), stopping batch";
    assert_eq!(job_of(step).error_message.as_deref(), Some(told));
    assert_eq!(error.message(), told);
}

/// Gives the number of entries seen before the batch was given up, and the
/// pauses.
fn tally(outcomes: &[bool]) -> (Option<(usize, String)>, usize) {
    let mut tally = BatchTally::new(outcomes.len());
    let mut pauses = 0;
    for (i, taken_in) in outcomes.iter().enumerate() {
        match tally.entry(*taken_in) {
            EntryStep::GoOn { tally: next, pause } => {
                if let Some(pause) = pause {
                    assert_eq!(pause.as_millis(), 10);
                    pauses += 1;
                }
                tally = next;
            }
            EntryStep::Stop(error) => return (Some((i + 1, error.message())), pauses),
        }
    }
    (None, pauses)
}

#[test]
fn a_batch_is_given_up_at_the_eleventh_error() {
    let mut outcomes = vec![true; 30];
    for at in [1, 3, 5, 7, 9, 11, 13, 15, 17, 19] {
        outcomes[at] = false;
    }
    assert!(tally(&outcomes).0.is_none());
    outcomes[25] = false;
    let (stopped, _) = tally(&outcomes);
    assert_eq!(
        stopped,
        Some((26, "Too many processing errors (11/30), stopping batch".to_string()))
    );
}

#[test]
fn there_is_a_pause_after_each_fifty_entries() {
    assert_eq!(tally(&vec![true; 149]).1, 2);
    assert_eq!(tally(&vec![true; 150]).1, 3);
    assert_eq!(tally(&[false, false, true]).1, 2);
}

#[test]
fn an_answer_gives_its_entries_and_moves_the_batch_size() {
    let mut scraper = Scraper::new();
    let answer = Ok(vec![Some(entry(1)), Some(entry(2))]);
    let read = scraper.fetch_export(answer, Span::from_millis(10)).unwrap();
    assert_eq!(read.len(), 2);
    assert_eq!(read[1].created_at, at(2));
    assert_eq!(scraper.batch_size, 550);
    let broken = Ok(vec![Some(entry(1)), None]);
    let error = scraper.fetch_export(broken, Span::from_millis(10)).unwrap_err();
    assert!(matches!(error, FetchError::Parse));
    assert_eq!(scraper.batch_size, 550);
    let error = scraper.fetch_export(Err(FetchError::Body), Span::from_millis(10)).unwrap_err();
    assert!(matches!(error, FetchError::Body));
    assert_eq!(scraper.batch_size, 550);
    let refused = Err(FetchError::Request(RequestError::Client(400)));
    assert!(scraper.fetch_export(refused, Span::from_millis(10)).is_err());
    assert_eq!(scraper.batch_size, 350);
    scraper.set_batch_size(150);
    let refused = Err(FetchError::Request(RequestError::Client(400)));
    assert!(scraper.fetch_export(refused, Span::from_millis(10)).is_err());
    assert_eq!(scraper.batch_size, 100);
}

#[test]
fn failures_in_a_row_lengthen_the_wait() {
    let mut run = ContinuousSync::new(300);
    let waits: Vec<u64> = (0..6).map(|_| run.failed().as_secs()).collect();
    assert_eq!(waits, vec![600, 1200, 2400, 4800, 4800, 4800]);
    assert_eq!(run.consecutive_failures, 6);
    assert_eq!(run.succeeded().as_secs(), 300);
    assert_eq!(run.failed().as_secs(), 600);
    assert_eq!(ContinuousSync::startup_delay().as_secs(), 10);
    assert!(run.can_fail());
}

#[test]
fn a_wait_too_long_cannot_be_waited_for() {
    let mut run = ContinuousSync::new(u64::MAX / 3);
    assert!(run.can_fail());
    run.failed();
    assert!(!run.can_fail());
    assert_eq!(run.succeeded().as_secs(), u64::MAX / 3);
    assert!(run.can_fail());
    let worn = ContinuousSync { base_interval_seconds: 0, consecutive_failures: u32::MAX };
    assert!(!worn.can_fail());
}

#[test]
fn an_open_breaker_holds_a_synchronisation_back() {
    let mut scraper = Scraper::new();
    assert!(scraper.before_sync().is_none());
    scraper.set_circuit_breaker_config(1, 300);
    scraper.circuit_breaker.record_failure();
    assert_eq!(scraper.before_sync().unwrap().as_secs(), 60);
}

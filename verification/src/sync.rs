//! A synchronisation with the directory: batch after batch of its log, and the
//! job that keeps account of it.

use vstd::prelude::*;
use vstd::string::*;
use crate::circuit::CircuitBreaker;
use crate::clock;
use crate::clock::{Span, Timestamp};
use crate::database;
use crate::database::Database;
use crate::holdings;
use crate::ident;
use crate::models::{ExportQuery, LogEntry, ScraperJob};
use crate::request::RequestError;
use crate::scraper;
use crate::scraper::Scraper;
use crate::storage_keys;
use crate::store;
use crate::store::{Partition, StatsChange, Step, StepView, Stored};
use crate::text;

verus! {

/// Why a batch could not be fetched.
#[derive(Debug)]
pub enum FetchError {
    /// The request was given up.
    Request(RequestError),
    /// The answer has a header that is no text; the text says why.
    Header(String),
    /// The answer could not be read.
    Body,
    /// A line of the answer is no entry of the log.
    Parse,
}

impl FetchError {
    /// What the error says.
    pub open spec fn spec_message(self) -> Seq<char> {
        match self {
            FetchError::Request(_) => "Failed to fetch export data"@,
            FetchError::Header(cause) => cause@,
            FetchError::Body => "Failed to read response body"@,
            FetchError::Parse => "Failed to parse JSONL response"@,
        }
    }

    /// What the error says.
    pub fn message(&self) -> (r: String)
        ensures
            r@ == self.spec_message(),
    {
        match self {
            FetchError::Request(_) => "Failed to fetch export data".to_owned(),
            FetchError::Header(cause) => cause.clone(),
            FetchError::Body => "Failed to read response body".to_owned(),
            FetchError::Parse => "Failed to parse JSONL response".to_owned(),
        }
    }
}

/// Why a synchronisation ended early.
#[derive(Debug)]
pub enum SyncError {
    /// The circuit breaker holds requests back.
    CircuitOpen,
    Fetch(FetchError),
    /// Too many entries of a batch could not be taken in.
    Processing { errors: usize, total: usize },
    /// The directory is not well.
    Unhealthy,
}

impl SyncError {
    /// What the error says.
    pub open spec fn spec_message(self) -> Seq<char> {
        match self {
            SyncError::CircuitOpen => "Circuit breaker prevented sync completion"@,
            SyncError::Fetch(error) => error.spec_message(),
            SyncError::Processing { errors, total } => "Too many processing errors ("@
                + text::decimal(errors as int) + "/"@ + text::decimal(total as int)
                + "), stopping batch"@,
            SyncError::Unhealthy => "Server health check failed, skipping sync"@,
        }
    }

    /// What the error says.
    pub fn message(&self) -> (r: String)
        ensures
            r@ == self.spec_message(),
    {
        match self {
            SyncError::CircuitOpen => "Circuit breaker prevented sync completion".to_owned(),
            SyncError::Fetch(error) => error.message(),
            SyncError::Processing { errors, total } => {
                let mut out = "Too many processing errors (".to_owned();
                text::push_decimal(&mut out, *errors as u64);
                let mut out = out.concat("/");
                text::push_decimal(&mut out, *total as u64);
                out.concat("), stopping batch")
            },
            SyncError::Unhealthy => "Server health check failed, skipping sync".to_owned(),
        }
    }
}

/// How many errors a batch may have.
pub const ERROR_THRESHOLD: usize = 10;

/// How many batches without entries end a synchronisation.
pub const MAX_EMPTY_BATCHES: usize = 3;

/// The entries of a batch that were taken in, and those that could not be.
#[derive(Debug)]
pub struct BatchTally {
    total: usize,
    processed: usize,
    errors: usize,
}

/// What a tally says.
pub struct TallyView {
    pub total: int,
    pub processed: int,
    pub errors: int,
}

/// What is to be done after an entry.
#[derive(Debug)]
pub enum EntryStep {
    /// The next entry is taken in, after a short pause or at once.
    GoOn { tally: BatchTally, pause: Option<Span> },
    /// The batch is given up.
    Stop(SyncError),
}

/// The tally after one more entry.
pub open spec fn tallied(tally: TallyView, taken_in: bool) -> TallyView {
    if taken_in {
        TallyView { processed: tally.processed + 1, ..tally }
    } else {
        TallyView { errors: tally.errors + 1, ..tally }
    }
}

impl BatchTally {
    /// What this tally says.
    pub closed spec fn view(&self) -> TallyView {
        TallyView {
            total: self.total as int,
            processed: self.processed as int,
            errors: self.errors as int,
        }
    }

    #[verifier::type_invariant]
    spec fn well_formed(self) -> bool {
        self.errors <= ERROR_THRESHOLD
    }

    /// A batch of `total` entries, none of which was taken in.
    pub fn new(total: usize) -> (r: BatchTally)
        ensures
            r@ == (TallyView { total: total as int, processed: 0, errors: 0 }),
    {
        BatchTally { total, processed: 0, errors: 0 }
    }

    /// Goes on after an entry that was taken in, or could not be. The batch is
    /// given up at the first error above the threshold; whenever the entries
    /// taken in are a multiple of fifty, there is a pause of ten milliseconds.
    pub fn entry(self, taken_in: bool) -> (r: EntryStep)
        requires
            self@.processed < usize::MAX,
        ensures
            ({
                let after = tallied(self@, taken_in);
                match r {
                    EntryStep::GoOn { tally, pause } => {
                        &&& after.errors <= ERROR_THRESHOLD
                        &&& tally@ == after
                        &&& match pause {
                            Some(span) => after.processed % 50 == 0 && span.spec_nanos()
                                == 10_000_000,
                            None => after.processed % 50 != 0,
                        }
                    },
                    EntryStep::Stop(error) => after.errors > ERROR_THRESHOLD && error == (
                    SyncError::Processing {
                        errors: after.errors as usize,
                        total: self@.total as usize,
                    }),
                }
            }),
            r is Stop <==> !taken_in && self@.errors + 1 > 10,
            r matches EntryStep::GoOn { tally, .. } ==> tally@.total == self@.total
                && tally@.processed == self@.processed + if taken_in {
                1int
            } else {
                0
            } && tally@.errors == self@.errors + if taken_in {
                0int
            } else {
                1
            },
    {
        proof {
            use_type_invariant(&self);
        }
        let mut processed: usize = self.processed;
        let mut errors: usize = self.errors;
        if taken_in {
            processed = processed + 1;
        } else {
            errors = errors + 1;
            if errors > ERROR_THRESHOLD {
                return EntryStep::Stop(SyncError::Processing { errors, total: self.total });
            }
        }
        let pause = if processed % 50 == 0 {
            Some(Span::from_millis(10))
        } else {
            None
        };
        EntryStep::GoOn { tally: BatchTally { total: self.total, processed, errors }, pause }
    }
}

/// The tally after entries that were taken in or could not be.
pub open spec fn tallied_all(tally: TallyView, outcomes: Seq<bool>) -> TallyView
    decreases outcomes.len(),
{
    if outcomes.len() == 0 {
        tally
    } else {
        tallied(tallied_all(tally, outcomes.drop_last()), outcomes.last())
    }
}

/// The errors among the outcomes.
pub open spec fn errors_in(outcomes: Seq<bool>) -> int {
    outcomes.filter(|taken_in: bool| !taken_in).len() as int
}

/// A tally counts every entry once, as taken in or as an error: a batch is
/// given up exactly when more than ten of its entries are errors.
pub proof fn law_tally_counts(total: int, outcomes: Seq<bool>)
    ensures
        ({
            let tally = tallied_all(TallyView { total, processed: 0, errors: 0 }, outcomes);
            &&& tally.total == total
            &&& tally.processed + tally.errors == outcomes.len()
            &&& tally.errors == errors_in(outcomes)
        }),
    decreases outcomes.len(),
{
    reveal(Seq::filter);
    if outcomes.len() > 0 {
        law_tally_counts(total, outcomes.drop_last());
    }
}

/// A synchronisation that is under way.
#[derive(Debug)]
pub struct SyncRun {
    job: ScraperJob,
    query: ExportQuery,
    total: usize,
    empty_batches: usize,
}

/// How far a synchronisation has come: what is asked for next, how many entries
/// were taken in, and how many batches in a row had none.
pub struct Progress {
    pub query: ExportQuery,
    pub total: int,
    pub empty_batches: int,
}

/// What a synchronisation holds: the job that keeps account of it, and how far
/// it has come.
pub struct SyncView {
    pub job: ScraperJob,
    pub progress: Progress,
}

/// What a synchronisation that has come to its end holds.
pub struct EndView {
    pub job: ScraperJob,
    pub total: int,
}

/// A synchronisation that has come to its end.
#[derive(Debug)]
pub struct SyncEnd {
    job: ScraperJob,
    total: usize,
}

/// What is to be done before a batch.
#[derive(Debug)]
pub enum BatchStart {
    Fetch(SyncRun),
    /// The synchronisation ends early, and its job is written.
    Abort { step: Step, error: SyncError },
}

/// What is to be done with a batch.
#[derive(Debug)]
pub enum Fetched {
    /// Its entries are taken in.
    Process(SyncRun),
    /// It has none; the next is fetched after a pause.
    Pause(SyncRun, Span),
    /// It has none, as those before it: that was all.
    Finish(SyncEnd),
}

/// What is to be done after a batch.
#[derive(Debug)]
pub enum AfterBatch {
    /// The next one is fetched after a pause.
    Pause(SyncRun, Span),
    /// That was all.
    Finish(SyncEnd),
}

/// What is to be done when a batch was taken in: its job is written, then the
/// store is flushed or not, and then comes what follows.
#[derive(Debug)]
pub struct BatchDone {
    pub step: Step,
    pub flush: bool,
    pub next: AfterBatch,
}

/// `step` writes the job `before` as one that failed at `now` with that message.
pub open spec fn writes_failed(
    step: Step,
    before: ScraperJob,
    now: Timestamp,
    message: Seq<char>,
) -> bool {
    exists|job: ScraperJob| #[trigger]
        job.failed(before, now, message) && step@ == database::job_step(job)
}

/// `job` is `before` after `total` entries, the last of which was created at
/// `at`.
pub open spec fn is_ahead(job: ScraperJob, before: ScraperJob, total: int, at: Timestamp) -> bool {
    &&& job == (ScraperJob {
        records_processed: total as i64,
        last_cursor: job.last_cursor,
        ..before
    })
    &&& job.last_cursor matches Some(text) && text@ == clock::rfc3339(
        at.spec_secs(),
        at.spec_nanos(),
    )
}

/// The synchronisation after a batch; `batch_size` is how many entries are
/// asked for next.
pub open spec fn synced(run: Progress, entries: Seq<LogEntry>, batch_size: usize) -> Progress {
    if entries.len() == 0 {
        Progress { empty_batches: run.empty_batches + 1, ..run }
    } else {
        Progress {
            query: ExportQuery {
                count: Some(batch_size),
                after: Some(entries.last().created_at),
            },
            total: run.total + entries.len(),
            empty_batches: 0,
        }
    }
}

/// The synchronisation ends with that batch: it is the last of some without
/// entries, or it has fewer than are asked for.
pub open spec fn is_last(run: Progress, entries: Seq<LogEntry>, batch_size: usize) -> bool {
    if entries.len() == 0 {
        run.empty_batches + 1 >= MAX_EMPTY_BATCHES
    } else {
        entries.len() < batch_size
    }
}

/// `job` keeps account of a synchronisation that was started at `started` and
/// has not ended.
pub open spec fn under_way(job: ScraperJob, id: u128, started: Timestamp) -> bool {
    &&& job.id == id
    &&& job.job_type@ == "export_sync"@
    &&& job.status@ == "running"@
    &&& job.started_at == started
    &&& job.completed_at is None
    &&& job.error_message is None
}

/// The job of a synchronisation that starts now, and the step that writes it.
pub fn start_job() -> (r: (ScraperJob, Step))
    ensures
        ident::is_random_id(r.0.id),
        clock::is_clock_time(r.0.started_at),
        under_way(r.0, r.0.id, r.0.started_at),
        r.0.records_processed == 0,
        r.0.last_cursor is None,
        r.1@ == database::job_step(r.0),
{
    start_job_at(ident::new_id(), clock::utc_now())
}

/// The job of a synchronisation that starts at `now`, with that identifier, and
/// the step that writes it.
pub fn start_job_at(id: u128, now: Timestamp) -> (r: (ScraperJob, Step))
    ensures
        under_way(r.0, id, now),
        r.0.records_processed == 0,
        r.0.last_cursor is None,
        r.1@ == database::job_step(r.0),
{
    let mut job = ScraperJob::new_at(id, now, "export_sync".to_owned());
    job.start_at(now);
    let step = Database::insert_job(&job);
    (job, step)
}

impl SyncRun {
    /// What this synchronisation holds.
    pub closed spec fn view(&self) -> SyncView {
        SyncView {
            job: self.job,
            progress: Progress {
                query: self.query,
                total: self.total as int,
                empty_batches: self.empty_batches as int,
            },
        }
    }

    #[verifier::type_invariant]
    spec fn well_formed(self) -> bool {
        &&& self.empty_batches < MAX_EMPTY_BATCHES
        &&& self.total <= i64::MAX
    }

    /// A synchronisation that goes on where the last one ended.
    pub fn new(job: ScraperJob, batch_size: usize, last_sync: Option<Timestamp>) -> (r: SyncRun)
        ensures
            r@.job == job,
            r@.progress == (Progress {
                query: ExportQuery { count: Some(batch_size), after: last_sync },
                total: 0,
                empty_batches: 0,
            }),
    {
        SyncRun {
            job,
            query: ExportQuery { count: Some(batch_size), after: last_sync },
            total: 0,
            empty_batches: 0,
        }
    }

    /// What is asked for next.
    pub fn query(&self) -> (r: &ExportQuery)
        ensures
            *r == self@.progress.query,
    {
        &self.query
    }

    /// How many entries were taken in.
    pub fn total(&self) -> (r: usize)
        ensures
            r == self@.progress.total,
    {
        self.total
    }

    /// Ends the synchronisation early: the job has failed at `now`.
    fn give_up_at(self, message: String, now: Timestamp) -> (r: Step)
        ensures
            writes_failed(r, self@.job, now, message@),
    {
        let mut job = self.job;
        job.fail_at(message, now);
        assert(job.failed(self@.job, now, message@));
        Database::update_job(&job)
    }

    /// Ends the synchronisation now, where a batch could not be fetched.
    pub fn fetch_failed(self, error: FetchError) -> (r: (Step, SyncError))
        ensures
            exists|now: Timestamp|
                clock::is_clock_time(now) && #[trigger] writes_failed(
                    r.0,
                    self@.job,
                    now,
                    "Failed to fetch export: "@ + error.spec_message(),
                ),
            r.1 == SyncError::Fetch(error),
    {
        self.fetch_failed_at(error, clock::utc_now())
    }

    /// Ends the synchronisation at `now`, where a batch could not be fetched.
    pub fn fetch_failed_at(self, error: FetchError, now: Timestamp) -> (r: (Step, SyncError))
        ensures
            writes_failed(
                r.0,
                self@.job,
                now,
                "Failed to fetch export: "@ + error.spec_message(),
            ),
            r.1 == SyncError::Fetch(error),
    {
        let message = "Failed to fetch export: ".to_owned().concat(error.message().as_str());
        (self.give_up_at(message, now), SyncError::Fetch(error))
    }

    /// Ends the synchronisation now, where a batch could not be taken in.
    pub fn batch_failed(self, error: SyncError) -> (r: (Step, SyncError))
        ensures
            exists|now: Timestamp|
                clock::is_clock_time(now) && #[trigger] writes_failed(
                    r.0,
                    self@.job,
                    now,
                    error.spec_message(),
                ),
            r.1 == error,
    {
        self.batch_failed_at(error, clock::utc_now())
    }

    /// Ends the synchronisation at `now`, where a batch could not be taken in.
    pub fn batch_failed_at(self, error: SyncError, now: Timestamp) -> (r: (Step, SyncError))
        ensures
            writes_failed(r.0, self@.job, now, error.spec_message()),
            r.1 == error,
    {
        let message = error.message();
        (self.give_up_at(message, now), error)
    }

    /// What is to be done with a batch that was fetched.
    pub fn fetched(self, entries: &Vec<LogEntry>) -> (r: Fetched)
        ensures
            match r {
                Fetched::Process(run) => {
                    &&& entries@.len() > 0
                    &&& run@.progress == (Progress { empty_batches: 0, ..self@.progress })
                    &&& run@.job == self@.job
                },
                Fetched::Pause(run, pause) => {
                    &&& entries@.len() == 0
                    &&& self@.progress.empty_batches + 1 < MAX_EMPTY_BATCHES
                    &&& run@.progress == (Progress { empty_batches: self@.progress.empty_batches + 1, ..self@.progress })
                    &&& run@.job == self@.job
                    &&& pause.spec_nanos() == 10_000_000_000
                },
                Fetched::Finish(end) => {
                    &&& entries@.len() == 0
                    &&& self@.progress.empty_batches + 1 >= MAX_EMPTY_BATCHES
                    &&& end@.total == self@.progress.total
                    &&& end@.job == self@.job
                },
            },
            r is Process <==> entries@.len() > 0,
            entries@.len() == 0 ==> forall|batch_size: usize|
                r is Finish <==> #[trigger] is_last(self@.progress, entries@, batch_size),
            r matches Fetched::Pause(run, _) ==> forall|batch_size: usize|
                run@.progress == #[trigger] synced(self@.progress, entries@, batch_size),
    {
        proof {
            use_type_invariant(&self);
        }
        if entries.len() == 0 {
            let empty_batches: usize = self.empty_batches + 1;
            if empty_batches >= MAX_EMPTY_BATCHES {
                return Fetched::Finish(SyncEnd { job: self.job, total: self.total });
            }
            let run = SyncRun {
                job: self.job,
                query: self.query,
                total: self.total,
                empty_batches,
            };
            return Fetched::Pause(run, Span::from_secs(10));
        }
        Fetched::Process(
            SyncRun { job: self.job, query: self.query, total: self.total, empty_batches: 0 },
        )
    }

    /// What is to be done when the entries of a batch were taken in;
    /// `batch_size` is how many entries are asked for by now.
    pub fn batch_done(self, entries: &Vec<LogEntry>, batch_size: usize) -> (r: BatchDone)
        requires
            entries@.len() > 0,
            self@.progress.total + entries@.len() <= i64::MAX,
            self@.progress.total + entries@.len() <= usize::MAX,
        ensures
            ({
                let after = synced(self@.progress, entries@, batch_size);
                &&& r.flush == (after.total % 1000 == 0)
                &&& match r.next {
                    AfterBatch::Pause(run, pause) => {
                        &&& !is_last(self@.progress, entries@, batch_size)
                        &&& run@.progress == after
                        &&& is_ahead(
                            run@.job,
                            self@.job,
                            after.total,
                            entries@.last().created_at,
                        )
                        &&& r.step@ == database::job_step(run@.job)
                        &&& pause.spec_nanos() == 5_000_000_000
                    },
                    AfterBatch::Finish(end) => {
                        &&& is_last(self@.progress, entries@, batch_size)
                        &&& end@.total == after.total
                        &&& is_ahead(
                            end@.job,
                            self@.job,
                            after.total,
                            entries@.last().created_at,
                        )
                        &&& r.step@ == database::job_step(end@.job)
                    },
                }
            }),
            r.next is Finish <==> entries@.len() < batch_size,
            match r.next {
                AfterBatch::Pause(run, _) => {
                    &&& run@.progress.total == self@.progress.total + entries@.len()
                    &&& run@.progress.query.count == Some(batch_size)
                    &&& run@.progress.query.after == Some(entries@.last().created_at)
                    &&& run@.progress.empty_batches == 0
                },
                AfterBatch::Finish(end) => end@.total == self@.progress.total + entries@.len(),
            },
            r.flush <==> (self@.progress.total + entries@.len()) % 1000 == 0,
    {
        let total: usize = self.total + entries.len();
        let created_at = entries[entries.len() - 1].created_at;
        let mut job = self.job;
        job.update_progress(total as i64, Some(created_at.to_rfc3339()));
        let step = Database::update_job(&job);
        let flush = total % 1000 == 0;
        let next = if entries.len() < batch_size {
            AfterBatch::Finish(SyncEnd { job, total })
        } else {
            let run = SyncRun {
                job,
                query: ExportQuery { count: Some(batch_size), after: Some(created_at) },
                total,
                empty_batches: 0,
            };
            AfterBatch::Pause(run, Span::from_secs(5))
        };
        BatchDone { step, flush, next }
    }
}

impl SyncEnd {
    /// What this synchronisation holds.
    pub closed spec fn view(&self) -> EndView {
        EndView { job: self.job, total: self.total as int }
    }

    #[verifier::type_invariant]
    spec fn well_formed(self) -> bool {
        self.total <= i64::MAX
    }

    /// How many entries were taken in.
    pub fn total(&self) -> (r: usize)
        ensures
            r == self@.total,
    {
        self.total
    }

    /// The synchronisation has ended well now: the step that keeps when it
    /// did, and then the one that writes its job.
    pub fn finish(self) -> (r: (Step, Step))
        ensures
            exists|now: Timestamp, job: ScraperJob|
                clock::is_clock_time(now) && #[trigger] is_completed(
                    job,
                    self@.job,
                    self@.total,
                    now,
                ) && store::step_views(seq![r.0, r.1]) == completion_steps(job, now),
    {
        self.finish_at(clock::utc_now())
    }

    /// The synchronisation has ended well at `now`: the step that keeps when it
    /// did, and then the one that writes its job.
    pub fn finish_at(self, now: Timestamp) -> (r: (Step, Step))
        ensures
            r.0@ == StepView::Count(StatsChange::Synced(now)),
            exists|job: ScraperJob| #[trigger]
                is_completed(job, self@.job, self@.total, now)
                    && store::step_views(seq![r.0, r.1]) == completion_steps(job, now),
    {
        proof {
            use_type_invariant(&self);
        }
        let mut job = self.job;
        job.complete_at(now);
        job.records_processed = self.total as i64;
        assert(is_completed(job, self@.job, self@.total, now));
        let synced = Database::update_last_sync_at(now);
        let step = Database::update_job(&job);
        assert(store::step_views(seq![synced, step]) =~= completion_steps(job, now));
        (synced, step)
    }
}

/// `job` is `before` after it ended well at `now` with `total` entries.
pub open spec fn is_completed(
    job: ScraperJob,
    before: ScraperJob,
    total: int,
    now: Timestamp,
) -> bool {
    job.completed((ScraperJob { records_processed: total as i64, ..before }), now)
}

/// What is written when a synchronisation ended well at `now`: when it did, and
/// its job.
pub open spec fn completion_steps(job: ScraperJob, now: Timestamp) -> Seq<StepView> {
    seq![StepView::Count(StatsChange::Synced(now)), database::job_step(job)]
}

/// After a batch the job holds the total and where the last entry stands; of the
/// rest of it nothing changes.
pub proof fn law_job_holds_the_progress(
    job: ScraperJob,
    before: ScraperJob,
    total: int,
    at: Timestamp,
)
    requires
        is_ahead(job, before, total, at),
        0 <= total <= i64::MAX,
    ensures
        job.records_processed == total,
        job.last_cursor matches Some(cursor) && cursor@ == clock::rfc3339(
            at.spec_secs(),
            at.spec_nanos(),
        ),
        job.id == before.id,
        job.job_type == before.job_type,
        job.status == before.status,
        job.started_at == before.started_at,
        job.completed_at == before.completed_at,
        job.error_message == before.error_message,
{
}

/// A job that is under way is one of those that wait or run, and has neither
/// ended nor failed.
pub proof fn law_job_under_way_is_active(job: ScraperJob, id: u128, started: Timestamp)
    requires
        under_way(job, id, started),
    ensures
        job.id == id,
        job.job_type@ == "export_sync"@,
        job.status@ == "running"@,
        job.started_at == started,
        job.completed_at is None,
        job.error_message is None,
        database::is_active(job),
{
}

/// A synchronisation that is given up leaves its job under its key, failed at
/// that time with that message; of the rest of it nothing changes.
pub proof fn law_given_up_sync_is_kept(
    step: Step,
    before: ScraperJob,
    now: Timestamp,
    message: Seq<char>,
) -> (job: ScraperJob)
    requires
        writes_failed(step, before, now, message),
    ensures
        step@ == (StepView::Put {
            partition: Partition::Jobs,
            key: storage_keys::spec_job_key(before.id),
            value: Stored::Job(job),
        }),
        job.id == before.id,
        job.job_type == before.job_type,
        job.status@ == "failed"@,
        job.started_at == before.started_at,
        job.completed_at == Some(now),
        job.error_message is Some,
        job.error_message->0@ == message,
        job.records_processed == before.records_processed,
        job.last_cursor == before.last_cursor,
        !database::is_active(job),
{
    let job = choose|job: ScraperJob| #[trigger]
        job.failed(before, now, message) && step@ == database::job_step(job);
    reveal_strlit("failed");
    reveal_strlit("running");
    reveal_strlit("pending");
    assert("failed"@.len() == 6);
    assert("running"@.len() == 7);
    assert("pending"@.len() == 7);
    job
}

/// The job keeps account of the same synchronisation from its start to its end:
/// a batch that was taken in leaves it under way.
pub proof fn law_job_stays_under_way(
    job: ScraperJob,
    id: u128,
    started: Timestamp,
    next: ScraperJob,
    total: int,
    at: Timestamp,
)
    requires
        under_way(job, id, started),
        is_ahead(next, job, total, at),
    ensures
        under_way(next, id, started),
{
}

/// A synchronisation that ended well at `now` leaves behind one job that is
/// completed, with all its entries and without an error, and the totals say
/// that the last one ended at `now`. No other job changes, and nothing else of
/// what the store holds.
pub proof fn law_completed_sync_is_kept(
    before: Map<(Partition, Seq<u8>), Stored>,
    last: ScraperJob,
    id: u128,
    started: Timestamp,
    total: int,
    now: Timestamp,
    job: ScraperJob,
    after: Map<(Partition, Seq<u8>), Stored>,
    other: u128,
)
    requires
        under_way(last, id, started),
        0 <= total <= i64::MAX,
        is_completed(job, last, total, now),
        store::steps_done(before, completion_steps(job, now), after),
    ensures
        job.id == id,
        job.job_type@ == "export_sync"@,
        job.status@ == "completed"@,
        job.started_at == started,
        job.completed_at == Some(now),
        job.error_message is None,
        job.records_processed == total,
        job.last_cursor == last.last_cursor,
        after.contains_pair((Partition::Jobs, storage_keys::spec_job_key(id)), Stored::Job(job)),
        other != id ==> ({
            let cell = (Partition::Jobs, storage_keys::spec_job_key(other));
            after.contains_key(cell) == before.contains_key(cell) && after[cell] == before[cell]
        }),
        store::stats_in(after) matches Some(stats) && stats.last_sync == Some(now),
        holdings::only_changes(before, after, set![Partition::Stats, Partition::Jobs]),
{
    let none = Seq::<StepView>::empty();
    let first = StepView::Count(StatsChange::Synced(now));
    let second = database::job_step(job);
    assert(completion_steps(job, now) =~= none.push(first).push(second));
    let one = store::lemma_steps_then(before, none.push(first), second, after);
    let zero = store::lemma_steps_then(before, none, first, one);
    store::lemma_no_steps(before, zero);
    holdings::law_sync_is_kept(before, now, one);
    holdings::law_job_reads_back(one, job, after, other);
    assert(store::stats_in(after) == store::stats_in(one));
}

impl Scraper {
    /// What is to be done before a synchronisation: nothing, or a wait of a
    /// minute, where the circuit breaker holds requests back.
    pub fn before_sync(&mut self) -> (r: Option<Span>)
        ensures
            *final(self) == (Scraper {
                circuit_breaker: final(self).circuit_breaker,
                ..*old(self)
            }),
            exists|elapsed: Span|
                old(self).circuit_breaker.is_since(elapsed) && final(self).circuit_breaker
                    == #[trigger] old(self).circuit_breaker.asked(elapsed) && held_back(old(self).circuit_breaker, elapsed, r),
    {
        let elapsed = self.circuit_breaker.since_failure();
        self.before_sync_after(elapsed)
    }

    /// What is to be done before a synchronisation, `elapsed` after the last
    /// failure.
    pub fn before_sync_after(&mut self, elapsed: Span) -> (r: Option<Span>)
        ensures
            *final(self) == (Scraper {
                circuit_breaker: old(self).circuit_breaker.asked(elapsed),
                ..*old(self)
            }),
            held_back(old(self).circuit_breaker, elapsed, r),
    {
        if self.circuit_breaker.can_execute_after(elapsed) {
            None
        } else {
            Some(Span::from_secs(60))
        }
    }

    /// What is to be done before a batch: where the circuit breaker holds
    /// requests back, the synchronisation ends early.
    pub fn before_batch(&mut self, run: SyncRun) -> (r: BatchStart)
        ensures
            *final(self) == (Scraper {
                circuit_breaker: final(self).circuit_breaker,
                ..*old(self)
            }),
            exists|elapsed: Span, now: Timestamp|
                old(self).circuit_breaker.is_since(elapsed) && clock::is_clock_time(now)
                    && final(self).circuit_breaker == old(self).circuit_breaker.asked(elapsed) && #[trigger] batch_started(
                    old(self).circuit_breaker,
                    elapsed,
                    run,
                    now,
                    r,
                ),
    {
        let elapsed = self.circuit_breaker.since_failure();
        self.before_batch_after(run, elapsed, clock::utc_now())
    }

    /// What is to be done before a batch at `now`, `elapsed` after the last
    /// failure.
    pub fn before_batch_after(&mut self, run: SyncRun, elapsed: Span, now: Timestamp) -> (r:
        BatchStart)
        ensures
            *final(self) == (Scraper {
                circuit_breaker: old(self).circuit_breaker.asked(elapsed),
                ..*old(self)
            }),
            batch_started(old(self).circuit_breaker, elapsed, run, now, r),
    {
        if self.circuit_breaker.can_execute_after(elapsed) {
            BatchStart::Fetch(run)
        } else {
            let step = run.give_up_at("Circuit breaker open".to_owned(), now);
            BatchStart::Abort { step, error: SyncError::CircuitOpen }
        }
    }
}

/// A synchronisation starts, or is put off for a minute where the breaker holds
/// requests back.
pub open spec fn held_back(breaker: CircuitBreaker, elapsed: Span, wait: Option<Span>) -> bool {
    match wait {
        None => breaker.lets_through(elapsed),
        Some(span) => !breaker.lets_through(elapsed) && span.spec_nanos() == 60_000_000_000,
    }
}

/// A batch is fetched, or the synchronisation ends early at `now` where the
/// breaker holds requests back.
pub open spec fn batch_started(
    breaker: CircuitBreaker,
    elapsed: Span,
    run: SyncRun,
    now: Timestamp,
    start: BatchStart,
) -> bool {
    match start {
        BatchStart::Fetch(next) => breaker.lets_through(elapsed) && next == run,
        BatchStart::Abort { step, error } => {
            &&& !breaker.lets_through(elapsed)
            &&& writes_failed(step, run@.job, now, "Circuit breaker open"@)
            &&& error == SyncError::CircuitOpen
        },
    }
}

/// The breaker decides alone whether a synchronisation starts and whether a
/// batch is fetched: it is, as it stands, exactly when requests are let through.
/// Otherwise a synchronisation is put off for sixty seconds, and one that is
/// under way is given up.
pub proof fn law_breaker_decides(
    breaker: CircuitBreaker,
    elapsed: Span,
    wait: Option<Span>,
    run: SyncRun,
    now: Timestamp,
    start: BatchStart,
)
    ensures
        held_back(breaker, elapsed, wait) ==> {
            &&& wait is None <==> breaker.lets_through(elapsed)
            &&& wait matches Some(span) ==> span.spec_nanos() == 60 * 1_000_000_000
        },
        batch_started(breaker, elapsed, run, now, start) ==> {
            &&& start is Fetch <==> breaker.lets_through(elapsed)
            &&& start matches BatchStart::Fetch(next) ==> next == run
            &&& start matches BatchStart::Abort { step, error } ==> error is CircuitOpen
                && writes_failed(step, run@.job, now, "Circuit breaker open"@)
        },
{
}

/// All lines of an answer are entries.
pub open spec fn all_entries_read(lines: Seq<Option<LogEntry>>) -> bool {
    forall|i: int| 0 <= i < lines.len() ==> (#[trigger] lines[i]) is Some
}

/// Whether an answer went well, where the batch size is adapted to it: an
/// answer that could not be read says nothing of the directory.
pub open spec fn adapts(answer: Result<Vec<Option<LogEntry>>, FetchError>) -> Option<bool> {
    match answer {
        Ok(lines) => if all_entries_read(lines@) {
            Some(true)
        } else {
            None
        },
        Err(FetchError::Request(_)) => Some(false),
        Err(_) => None,
    }
}

/// The batch size is adapted to an answer of which every line is an entry, as to
/// one that went well, and to a request that was given up, as to a failure; to
/// nothing else.
pub proof fn law_what_the_batch_size_follows(
    answer: Result<Vec<Option<LogEntry>>, FetchError>,
)
    ensures
        adapts(answer) == Some(true) <==> (answer is Ok && forall|i: int|
            0 <= i < answer->Ok_0@.len() ==> (#[trigger] answer->Ok_0@[i]) is Some),
        adapts(answer) == Some(false) <==> answer is Err && answer->Err_0 is Request,
{
}

impl Scraper {
    /// The entries of a batch, of the answer to the request for it that came
    /// after `response_time`: what its lines were read as, or why there is
    /// none. The batch size is adapted to it.
    pub fn fetch_export(
        &mut self,
        answer: Result<Vec<Option<LogEntry>>, FetchError>,
        response_time: Span,
    ) -> (r: Result<Vec<LogEntry>, FetchError>)
        ensures
            match answer {
                Ok(lines) => if all_entries_read(lines@) {
                    r matches Ok(entries) && entries@ == lines@.map_values(
                        |l: Option<LogEntry>| l->0,
                    )
                } else {
                    r == Err::<Vec<LogEntry>, FetchError>(FetchError::Parse)
                },
                Err(error) => r == Err::<Vec<LogEntry>, FetchError>(error),
            },
            *final(self) == (Scraper { batch_size: final(self).batch_size, ..*old(self) }),
            final(self).batch_size == match adapts(answer) {
                Some(success) => scraper::adapted(
                    *old(self),
                    success,
                    (response_time.spec_nanos() / 1_000_000) as int,
                ),
                None => old(self).batch_size as int,
            },
    {
        match answer {
            Ok(lines) => {
                let ghost all = lines@;
                let mut entries: Vec<LogEntry> = Vec::new();
                for line in it: lines
                    invariant
                        it.seq() == all,
                        *self == *old(self),
                        answer == Ok::<Vec<Option<LogEntry>>, FetchError>(lines),
                        lines@ == all,
                        forall|j: int| 0 <= j < it.index() ==> (#[trigger] all[j]) is Some,
                        entries@.len() == it.index(),
                        forall|j: int|
                            0 <= j < it.index() ==> (#[trigger] entries@[j]) == all[j]->0,
                {
                    match line {
                        Some(entry) => entries.push(entry),
                        None => {
                            assert(all[it.index() as int] is None);
                            return Err(FetchError::Parse);
                        },
                    }
                }
                assert(entries@ =~= all.map_values(|l: Option<LogEntry>| l->0));
                self.adapt_batch_size(true, response_time);
                Ok(entries)
            },
            Err(error) => {
                if let FetchError::Request(_) = &error {
                    self.adapt_batch_size(false, response_time);
                }
                Err(error)
            },
        }
    }

    /// Takes in the answer to a request for the directory's health, as
    /// `check_server_health` does, and says whether a synchronisation follows.
    pub fn run_single_sync_with_health_check(&mut self, status: Option<u16>) -> (r: Result<
        (),
        SyncError,
    >)
        requires
            !scraper::is_well(status) ==> old(self).circuit_breaker.failure_count < u32::MAX,
        ensures
            r == if scraper::is_well(status) {
                Ok::<(), SyncError>(())
            } else {
                Err::<(), SyncError>(SyncError::Unhealthy)
            },
            *final(self) == (Scraper {
                circuit_breaker: final(self).circuit_breaker,
                ..*old(self)
            }),
            r is Ok ==> final(self).circuit_breaker == old(self).circuit_breaker.succeeded(),
            r is Err ==> exists|now: tokio::time::Instant|
                final(self).circuit_breaker == #[trigger] old(self).circuit_breaker.failed(now),
    {
        self.run_single_sync_with_health_check_at(status, clock::instant_now())
    }

    /// Takes in the answer to a request for the directory's health, which came
    /// at `now`, and says whether a synchronisation follows.
    pub fn run_single_sync_with_health_check_at(
        &mut self,
        status: Option<u16>,
        now: tokio::time::Instant,
    ) -> (r: Result<(), SyncError>)
        requires
            !scraper::is_well(status) ==> old(self).circuit_breaker.failure_count < u32::MAX,
        ensures
            r == if scraper::is_well(status) {
                Ok::<(), SyncError>(())
            } else {
                Err::<(), SyncError>(SyncError::Unhealthy)
            },
            *final(self) == (Scraper {
                circuit_breaker: if scraper::is_well(status) {
                    old(self).circuit_breaker.succeeded()
                } else {
                    old(self).circuit_breaker.failed(now)
                },
                ..*old(self)
            }),
    {
        if self.check_server_health_at(status, now) {
            Ok(())
        } else {
            Err(SyncError::Unhealthy)
        }
    }
}

/// The synchronisation after batches, each with how many entries were asked for
/// behind it.
pub open spec fn synced_all(run: Progress, batches: Seq<(Seq<LogEntry>, usize)>) -> Progress
    decreases batches.len(),
{
    if batches.len() == 0 {
        run
    } else {
        synced(
            synced_all(run, batches.drop_last()),
            batches.last().0,
            batches.last().1,
        )
    }
}

/// The entries of all the batches, one after the other.
pub open spec fn all_entries(batches: Seq<(Seq<LogEntry>, usize)>) -> Seq<LogEntry>
    decreases batches.len(),
{
    if batches.len() == 0 {
        seq![]
    } else {
        all_entries(batches.drop_last()) + batches.last().0
    }
}

/// A synchronisation counts every entry of its batches once, and asks for what
/// follows the last entry that it has seen.
pub proof fn law_sync_follows_the_log(run: Progress, batches: Seq<(Seq<LogEntry>, usize)>)
    ensures
        synced_all(run, batches).total == run.total + all_entries(batches).len(),
        all_entries(batches).len() == 0 ==> synced_all(run, batches).query == run.query,
        all_entries(batches).len() > 0 ==> synced_all(run, batches).query.after == Some(
            all_entries(batches).last().created_at,
        ),
    decreases batches.len(),
{
    if batches.len() > 0 {
        law_sync_follows_the_log(run, batches.drop_last());
        let before = all_entries(batches.drop_last());
        let last = batches.last().0;
        if last.len() == 0 {
            assert(before + last =~= before);
        }
    }
}

/// Whatever came before it, a batch with entries ends the synchronisation if and
/// only if it has fewer than are asked for. One without entries ends it if and
/// only if two or more without stand right before it.
pub proof fn law_short_batch_ends_a_sync(
    run: Progress,
    entries: Seq<LogEntry>,
    batch_size: usize,
)
    ensures
        entries.len() > 0 ==> (is_last(run, entries, batch_size) <==> entries.len() < batch_size),
        entries.len() == 0 ==> (is_last(run, entries, batch_size) <==> run.empty_batches >= 2),
{
}

/// A batch with entries adds them to the total and moves the query on to behind
/// its last entry; one without leaves both and is counted among those in a row.
pub proof fn law_batch_moves_a_sync_on(
    run: Progress,
    entries: Seq<LogEntry>,
    batch_size: usize,
)
    ensures
        synced(run, entries, batch_size).total == run.total + entries.len(),
        entries.len() > 0 ==> {
            let after = synced(run, entries, batch_size);
            &&& after.query.count == Some(batch_size)
            &&& after.query.after == Some(entries[entries.len() - 1].created_at)
            &&& after.empty_batches == 0
        },
        entries.len() == 0 ==> {
            let after = synced(run, entries, batch_size);
            &&& after.query == run.query
            &&& after.empty_batches == run.empty_batches + 1
        },
{
}

/// As long as every batch has entries, and as many as are asked for behind it,
/// the synchronisation goes on, from whatever state it starts and however many
/// entries it has taken in.
pub proof fn law_full_batches_never_end_a_sync(
    run: Progress,
    batches: Seq<(Seq<LogEntry>, usize)>,
)
    requires
        forall|i: int|
            0 <= i < batches.len() ==> (#[trigger] batches[i]).0.len() > 0 && batches[i].0.len()
                >= batches[i].1,
    ensures
        forall|i: int|
            0 <= i < batches.len() ==> !is_last(
                synced_all(run, #[trigger] batches.take(i)),
                batches[i].0,
                batches[i].1,
            ),
{
    assert forall|i: int| 0 <= i < batches.len() implies !is_last(
        synced_all(run, #[trigger] batches.take(i)),
        batches[i].0,
        batches[i].1,
    ) by {
        assert(batches[i].0.len() > 0);
        law_short_batch_ends_a_sync(
            synced_all(run, batches.take(i)),
            batches[i].0,
            batches[i].1,
        );
    }
}

/// Three batches in a row without entries end a synchronisation, with the last
/// of them or before.
pub proof fn law_empty_batches_end_a_sync(
    run: Progress,
    batches: Seq<(Seq<LogEntry>, usize)>,
)
    requires
        0 <= run.empty_batches,
        batches.len() >= 3,
        forall|i: int|
            batches.len() - 3 <= i < batches.len() ==> (#[trigger] batches[i]).0.len() == 0,
    ensures
        exists|i: int|
            0 <= i < batches.len() && is_last(
                synced_all(run, #[trigger] batches.take(i)),
                batches[i].0,
                batches[i].1,
            ),
{
    let n = batches.len() as int;
    let base = batches.take(n - 3);
    assert(batches[n - 3].0.len() == 0);
    assert(batches[n - 2].0.len() == 0);
    assert(batches[n - 1].0.len() == 0);
    lemma_empty_batches_nonnegative(run, base);
    assert(batches.take(n - 2).drop_last() =~= base);
    assert(batches.take(n - 1).drop_last() =~= batches.take(n - 2));
    assert(synced_all(run, batches.take(n - 2)).empty_batches >= 1);
    assert(synced_all(run, batches.take(n - 1)).empty_batches >= 2);
    assert(is_last(
        synced_all(run, batches.take(n - 1)),
        batches[n - 1].0,
        batches[n - 1].1,
    ));
}

proof fn lemma_empty_batches_nonnegative(run: Progress, batches: Seq<(Seq<LogEntry>, usize)>)
    requires
        0 <= run.empty_batches,
    ensures
        0 <= synced_all(run, batches).empty_batches,
    decreases batches.len(),
{
    if batches.len() > 0 {
        lemma_empty_batches_nonnegative(run, batches.drop_last());
    }
}

/// The synchronisations that follow each other, with a wait after each.
#[derive(Debug)]
pub struct ContinuousSync {
    /// The seconds between two synchronisations that go well.
    pub base_interval_seconds: u64,
    /// The synchronisations in a row that failed.
    pub consecutive_failures: u32,
}

/// How many times longer the wait is after that many failures in a row: twice
/// as long each time, up to three times, then sixteen times.
pub open spec fn error_multiplier(failures: nat) -> int {
    if failures <= 3 {
        vstd::arithmetic::power2::pow2(failures) as int
    } else {
        16
    }
}

/// How many times longer the wait is after that many failures in a row.
fn multiplier(failures: u32) -> (r: u64)
    ensures
        r == error_multiplier(failures as nat),
{
    proof {
        vstd::arithmetic::power2::lemma2_to64();
    }
    match failures {
        0 => 1,
        1 => 2,
        2 => 4,
        3 => 8,
        _ => 16,
    }
}

impl ContinuousSync {
    /// No synchronisation has run yet.
    pub fn new(base_interval_seconds: u64) -> (r: ContinuousSync)
        ensures
            r == (ContinuousSync { base_interval_seconds, consecutive_failures: 0 }),
    {
        ContinuousSync { base_interval_seconds, consecutive_failures: 0 }
    }

    /// The wait before the first synchronisation.
    pub fn startup_delay() -> (r: Span)
        ensures
            r.spec_nanos() == 10_000_000_000,
    {
        Span::from_secs(10)
    }

    /// The wait after a synchronisation that went well.
    pub fn succeeded(&mut self) -> (r: Span)
        ensures
            *final(self) == (ContinuousSync { consecutive_failures: 0, ..*old(self) }),
            r.spec_nanos() == old(self).base_interval_seconds * 1_000_000_000,
    {
        self.consecutive_failures = 0;
        Span::from_secs(self.base_interval_seconds)
    }

    /// Whether one more failure can be counted and waited for.
    pub fn can_fail(&self) -> (r: bool)
        ensures
            r == (self.consecutive_failures < u32::MAX && self.base_interval_seconds
                * error_multiplier((self.consecutive_failures + 1) as nat) <= u64::MAX),
    {
        if self.consecutive_failures == u32::MAX {
            return false;
        }
        self.base_interval_seconds.checked_mul(multiplier(self.consecutive_failures + 1)).is_some()
    }

    /// The wait after a synchronisation that failed.
    pub fn failed(&mut self) -> (r: Span)
        requires
            old(self).consecutive_failures < u32::MAX,
            old(self).base_interval_seconds * error_multiplier(
                (old(self).consecutive_failures + 1) as nat,
            ) <= u64::MAX,
        ensures
            final(self).base_interval_seconds == old(self).base_interval_seconds,
            final(self).consecutive_failures == old(self).consecutive_failures + 1,
            r.spec_nanos() == old(self).base_interval_seconds * error_multiplier(
                (old(self).consecutive_failures + 1) as nat,
            ) * 1_000_000_000,
    {
        self.consecutive_failures = self.consecutive_failures + 1;
        Span::from_secs(self.base_interval_seconds * multiplier(self.consecutive_failures))
    }
}

/// Without failures the wait is the interval itself. One more failure doubles
/// it, as long as it is less than sixteen times as long; then it stays.
pub proof fn law_error_wait_doubles(failures: nat)
    ensures
        error_multiplier(0) == 1,
        error_multiplier(failures) < 16 ==> error_multiplier(failures + 1) == 2
            * error_multiplier(failures),
        error_multiplier(failures) >= 16 ==> error_multiplier(failures + 1) == error_multiplier(
            failures,
        ) == 16,
{
    vstd::arithmetic::power2::lemma2_to64();
    assert(failures == 0 || failures == 1 || failures == 2 || failures == 3 || failures > 3);
}

/// What a synchronisation says when it ends early names the reason: the message
/// of what could not be fetched, or how many entries of how many were errors.
pub proof fn law_sync_error_names_its_reason(error: SyncError)
    ensures
        error matches SyncError::Fetch(why) ==> error.spec_message() == why.spec_message(),
        error matches SyncError::Fetch(FetchError::Header(cause)) ==> error.spec_message()
            == cause@,
        error matches SyncError::Processing { errors, total } ==> text::has_part(
            error.spec_message(),
            text::decimal(errors as int) + "/"@ + text::decimal(total as int),
        ),
{
    if let SyncError::Processing { errors, total } = error {
        let head = "Too many processing errors ("@;
        let part = text::decimal(errors as int) + "/"@ + text::decimal(total as int);
        let tail = "), stopping batch"@;
        assert(error.spec_message() =~= head + part + tail);
        text::law_part_stands_between(head, part, tail);
    }
}

/// After failures in a row the wait is at least twice and at most sixteen times
/// as long as otherwise, and never gets shorter from one failure to the next.
pub proof fn law_error_wait_grows(a: nat, b: nat)
    requires
        0 < a <= b,
    ensures
        2 <= error_multiplier(a) <= error_multiplier(b) <= 16,
{
    vstd::arithmetic::power2::lemma2_to64();
    assert(a == 1 || a == 2 || a == 3 || a > 3);
    assert(b == 1 || b == 2 || b == 3 || b > 3);
}

} // verus!

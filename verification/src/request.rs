//! One request to the directory: when it is sent, what is made of the answer,
//! and when it is given up.

use vstd::prelude::*;
use vstd::string::*;
use crate::circuit::CircuitBreaker;
use crate::clock;
use crate::clock::Span;
use crate::scraper;
use crate::scraper::Scraper;
use crate::text;

verus! {

/// The reason phrase that belongs to a status code, if there is one.
pub uninterp spec fn reason_phrase(code: u16) -> Option<Seq<char>>;

/// `reqwest::StatusCode::canonical_reason`: the phrase is a function of the
/// code; a number that is no status code has none.
#[verifier::external_body]
fn canonical_reason(code: u16) -> (r: Option<&'static str>)
    ensures
        match reason_phrase(code) {
            Some(phrase) => r matches Some(t) && t@ == phrase,
            None => r is None,
        },
{
    reqwest::StatusCode::from_u16(code).ok().and_then(|status| status.canonical_reason())
}

/// The reason phrase of a status code, or `other`.
pub open spec fn reason_or(code: u16, other: Seq<char>) -> Seq<char> {
    match reason_phrase(code) {
        Some(phrase) => phrase,
        None => other,
    }
}

/// A status code and its reason phrase.
pub open spec fn status_text(code: u16) -> Seq<char> {
    text::decimal(code as int) + " "@ + reason_or(code, "<unknown status code>"@)
}

/// The reason phrase of a status code, or `other`.
fn reason(code: u16, other: &'static str) -> (r: &'static str)
    ensures
        r@ == reason_or(code, other@),
{
    match canonical_reason(code) {
        Some(phrase) => phrase,
        None => other,
    }
}

/// A status code and its reason phrase.
pub fn show_status(code: u16) -> (r: String)
    ensures
        r@ == status_text(code),
{
    let mut out = String::new();
    text::push_decimal(&mut out, code as u64);
    assert(out@ =~= text::decimal(code as int));
    out.concat(" ").concat(reason(code, "<unknown status code>"))
}

/// A status is shown as its number, a space, and its reason phrase, or that it is
/// unknown where it has none.
pub proof fn law_status_is_shown(code: u16)
    ensures
        reason_phrase(code) is Some ==> status_text(code) == text::decimal(code as int) + " "@
            + reason_phrase(code)->0,
        reason_phrase(code) is None ==> status_text(code) == text::decimal(code as int) + " "@
            + "<unknown status code>"@,
{
}

/// What came back for a request that was sent.
#[derive(Debug)]
pub enum Reply {
    /// An answer with that status code.
    Status(u16),
    /// No answer; the text says why.
    Network(String),
}

/// Why a request was given up, or has to be tried again.
#[derive(Debug)]
pub enum RequestError {
    /// The circuit breaker holds requests back.
    CircuitOpen,
    RateLimited,
    Server(u16),
    TooManyServerErrors(u32),
    Client(u16),
    Unexpected(u16),
    Network(String),
    /// It was not tried at all.
    RetriesExceeded,
}

impl RequestError {
    /// What the error says.
    pub open spec fn spec_message(self) -> Seq<char> {
        match self {
            RequestError::CircuitOpen => "Circuit breaker is open, skipping request"@,
            RequestError::RateLimited => "Rate limited: 429"@,
            RequestError::Server(code) => "Server error: "@ + status_text(code),
            RequestError::TooManyServerErrors(n) => "Too many server errors ("@ + text::decimal(
                n as int,
            ) + "), giving up"@,
            RequestError::Client(code) => "Client error ("@ + text::decimal(code as int) + "): "@
                + reason_or(code, "Unknown"@),
            RequestError::Unexpected(code) => "Unexpected status: "@ + status_text(code),
            RequestError::Network(cause) => "Network error: "@ + cause@,
            RequestError::RetriesExceeded => "Max retries exceeded"@,
        }
    }

    /// What the error says.
    pub fn message(&self) -> (r: String)
        ensures
            r@ == self.spec_message(),
    {
        match self {
            RequestError::CircuitOpen => "Circuit breaker is open, skipping request".to_owned(),
            RequestError::RateLimited => "Rate limited: 429".to_owned(),
            RequestError::Server(code) => "Server error: ".to_owned().concat(
                show_status(*code).as_str(),
            ),
            RequestError::TooManyServerErrors(n) => {
                let mut out = "Too many server errors (".to_owned();
                text::push_decimal(&mut out, *n as u64);
                out.concat("), giving up")
            },
            RequestError::Client(code) => {
                let mut out = "Client error (".to_owned();
                text::push_decimal(&mut out, *code as u64);
                out.concat("): ").concat(reason(*code, "Unknown"))
            },
            RequestError::Unexpected(code) => "Unexpected status: ".to_owned().concat(
                show_status(*code).as_str(),
            ),
            RequestError::Network(cause) => "Network error: ".to_owned().concat(cause.as_str()),
            RequestError::RetriesExceeded => "Max retries exceeded".to_owned(),
        }
    }
}

/// What an error says names what went wrong, whatever it is: the status with its
/// reason phrase, the number of errors, or the cause that was given.
pub proof fn law_error_names_its_cause(error: RequestError)
    ensures
        error matches RequestError::Server(code) ==> error.spec_message() == "Server error: "@
            + status_text(code),
        error matches RequestError::Unexpected(code) ==> error.spec_message()
            == "Unexpected status: "@ + status_text(code),
        error matches RequestError::Client(code) ==> {
            &&& text::has_part(error.spec_message(), text::decimal(code as int))
            &&& reason_phrase(code) matches Some(phrase) ==> text::has_part(
                error.spec_message(),
                phrase,
            )
            &&& reason_phrase(code) is None ==> text::has_part(error.spec_message(), "Unknown"@)
        },
        error matches RequestError::TooManyServerErrors(n) ==> text::has_part(
            error.spec_message(),
            text::decimal(n as int),
        ),
        error matches RequestError::Network(cause) ==> error.spec_message() == "Network error: "@
            + cause@,
{
    match error {
        RequestError::Client(code) => {
            let head = "Client error ("@;
            let number = text::decimal(code as int);
            let reason = reason_or(code, "Unknown"@);
            let whole = error.spec_message();
            assert(whole =~= head + number + ("): "@ + reason));
            text::law_part_stands_between(head, number, "): "@ + reason);
            assert(whole =~= (head + number + "): "@) + reason + Seq::<char>::empty());
            text::law_part_stands_between(head + number + "): "@, reason, Seq::empty());
        },
        RequestError::TooManyServerErrors(n) => {
            text::law_part_stands_between(
                "Too many server errors ("@,
                text::decimal(n as int),
                "), giving up"@,
            );
        },
        _ => {},
    }
}

/// How many errors of the server are too many.
pub const MAX_SERVER_ERRORS: u32 = 5;

/// A request that is under way.
#[derive(Debug)]
pub struct RequestRun {
    attempt: u32,
    limit: u32,
    server_errors: u32,
    last_error: Option<RequestError>,
}

/// How far a request has come: how often it was tried, how often it may be, and
/// what went wrong.
pub struct RunView {
    pub attempt: int,
    pub limit: int,
    pub server_errors: int,
    pub last_error: Option<RequestError>,
}

impl RequestRun {
    /// How far this request has come.
    pub closed spec fn view(&self) -> RunView {
        RunView {
            attempt: self.attempt as int,
            limit: self.limit as int,
            server_errors: self.server_errors as int,
            last_error: self.last_error,
        }
    }

    #[verifier::type_invariant]
    spec fn well_formed(self) -> bool {
        &&& self.attempt <= self.limit
        &&& self.server_errors < MAX_SERVER_ERRORS
    }
}

/// A request that is to be sent.
#[derive(Debug)]
pub struct Sending {
    run: RequestRun,
}

impl Sending {
    /// How far the request has come.
    pub closed spec fn view(&self) -> RunView {
        self.run@
    }

    #[verifier::type_invariant]
    spec fn well_formed(self) -> bool {
        &&& self.run.attempt < self.run.limit
        &&& self.run.server_errors < MAX_SERVER_ERRORS
    }
}

/// What is to be done about a request.
#[derive(Debug)]
pub enum Attempt {
    /// It is to be sent, after a wait for a new try and one before any request.
    Send { sending: Sending, backoff: Option<Span>, delay: Span },
    /// It is given up.
    GiveUp(RequestError),
}

/// What is made of an answer.
#[derive(Debug)]
pub enum Verdict {
    /// It is taken.
    Accept,
    /// The request is tried again, after a pause or at once.
    Retry { run: RequestRun, pause: Option<Span> },
    /// The request is given up.
    Fail(RequestError),
}

/// What is made of an answer: the pause is in seconds.
pub enum VerdictView {
    Accept,
    Retry { run: RunView, pause: Option<int> },
    Fail(RequestError),
}

/// The length of time in seconds.
pub open spec fn lasts(span: Option<Span>, secs: Option<int>) -> bool {
    match (span, secs) {
        (Some(s), Some(n)) => s.spec_nanos() == n * 1_000_000_000,
        (None, None) => true,
        _ => false,
    }
}

impl Verdict {
    /// This is that verdict.
    pub open spec fn is_verdict(self, view: VerdictView) -> bool {
        match (self, view) {
            (Verdict::Accept, VerdictView::Accept) => true,
            (
                Verdict::Retry { run, pause },
                VerdictView::Retry { run: next, pause: secs },
            ) => run@ == next && lasts(pause, secs),
            (Verdict::Fail(error), VerdictView::Fail(why)) => error == why,
            _ => false,
        }
    }
}

/// A request that was not tried yet.
pub open spec fn fresh_run(limit: int) -> RunView {
    RunView { attempt: 0, limit, server_errors: 0, last_error: None }
}

/// Why a request that was tried as often as it may be is given up.
pub open spec fn final_error(run: RunView) -> RequestError {
    match run.last_error {
        Some(error) => error,
        None => RequestError::RetriesExceeded,
    }
}

/// The request after a try that failed for that reason.
pub open spec fn tried(run: RunView, error: RequestError) -> RunView {
    RunView { attempt: run.attempt + 1, last_error: Some(error), ..run }
}

/// What is made of an answer to a request. Success is taken; a limit on the
/// rate and an error of the server are waited out, the latter a few times only;
/// an error of the request itself is final; anything else is tried again.
pub open spec fn judged(run: RunView, reply: Reply) -> VerdictView {
    match reply {
        Reply::Status(code) => if 200 <= code <= 299 {
            VerdictView::Accept
        } else if code == 429 {
            VerdictView::Retry {
                run: tried(run, RequestError::RateLimited),
                pause: Some(scraper::backoff_secs((run.attempt + 2) as nat)),
            }
        } else if 500 <= code <= 599 {
            let count = run.server_errors + 1;
            if count >= MAX_SERVER_ERRORS {
                VerdictView::Fail(RequestError::TooManyServerErrors(count as u32))
            } else {
                VerdictView::Retry {
                    run: RunView {
                        server_errors: count,
                        ..tried(run, RequestError::Server(code))
                    },
                    pause: Some(scraper::server_backoff_secs(count as nat)),
                }
            }
        } else if 400 <= code <= 499 {
            VerdictView::Fail(RequestError::Client(code))
        } else {
            VerdictView::Retry {
                run: tried(run, RequestError::Unexpected(code)),
                pause: None,
            }
        },
        Reply::Network(cause) => VerdictView::Retry {
            run: tried(run, RequestError::Network(cause)),
            pause: None,
        },
    }
}

/// An answer ends a request if and only if it is a success, or an error of the
/// request itself that is no limit on the rate, or the fifth error of the server;
/// it is given up for these last. Every other answer leaves it to be tried again:
/// one more try is counted, with its reason, and an error of the server as one.
/// A limit on the rate is waited out as long as two tries later, an error of the
/// server as long as their number asks for, and nothing else is waited for.
pub proof fn law_answers_are_judged(run: RunView, reply: Reply)
    requires
        0 <= run.attempt,
        0 <= run.server_errors < 5,
    ensures
        judged(run, reply) is Accept <==> (reply matches Reply::Status(code) && code / 100 == 2),
        judged(run, reply) is Fail <==> (reply matches Reply::Status(code) && (code / 100 == 4
            && code != 429 || code / 100 == 5 && run.server_errors == 4)),
        judged(run, reply) matches VerdictView::Fail(error) ==> (reply matches Reply::Status(code)
            && if code / 100 == 5 {
            error == RequestError::TooManyServerErrors(5)
        } else {
            error == RequestError::Client(code)
        }),
        judged(run, reply) matches VerdictView::Retry { run: next, pause } ==> {
            &&& next.attempt == run.attempt + 1
            &&& next.limit == run.limit
            &&& match reply {
                Reply::Status(code) => if code == 429 {
                    &&& next.server_errors == run.server_errors
                    &&& next.last_error == Some(RequestError::RateLimited)
                    &&& pause == Some(scraper::backoff_secs((run.attempt + 2) as nat))
                } else if code / 100 == 5 {
                    &&& next.server_errors == run.server_errors + 1
                    &&& next.last_error == Some(RequestError::Server(code))
                    &&& pause == Some(
                        scraper::server_backoff_secs((run.server_errors + 1) as nat),
                    )
                } else {
                    &&& next.server_errors == run.server_errors
                    &&& next.last_error == Some(RequestError::Unexpected(code))
                    &&& pause is None
                },
                Reply::Network(cause) => {
                    &&& next.server_errors == run.server_errors
                    &&& next.last_error == Some(RequestError::Network(cause))
                    &&& pause is None
                },
            }
        },
{
}

/// A verdict is that which the answer asks for, and a pause lasts as many seconds
/// as it does; there is none where it asks for none.
pub proof fn law_verdict_is_passed_on(verdict: Verdict, view: VerdictView)
    requires
        verdict.is_verdict(view),
    ensures
        verdict is Accept <==> view is Accept,
        verdict is Retry <==> view is Retry,
        verdict matches Verdict::Fail(error) ==> view == VerdictView::Fail(error),
        verdict matches Verdict::Retry { run, pause } ==> (view matches VerdictView::Retry {
            run: next,
            pause: secs,
        } && run@ == next && (pause is Some <==> secs is Some) && (pause matches Some(span)
            ==> span.spec_nanos() == secs->0 * 1_000_000_000)),
{
}

/// The answer is a success.
pub open spec fn is_success(reply: Reply) -> bool {
    reply matches Reply::Status(code) && 200 <= code <= 299
}

/// The answer counts as a failure of the server: an error of it, or none at
/// all.
pub open spec fn is_failure(reply: Reply) -> bool {
    match reply {
        Reply::Status(code) => 500 <= code <= 599,
        Reply::Network(_) => true,
    }
}

impl Reply {
    /// Whether the answer counts as a failure of the server.
    pub fn counts_as_failure(&self) -> (r: bool)
        ensures
            r == is_failure(*self),
    {
        match self {
            Reply::Status(code) => 500 <= *code && *code <= 599,
            Reply::Network(_) => true,
        }
    }
}

/// The circuit breaker after an answer that came at `now`.
pub open spec fn noted(
    breaker: CircuitBreaker,
    reply: Reply,
    now: tokio::time::Instant,
) -> CircuitBreaker {
    if is_success(reply) {
        breaker.succeeded()
    } else if is_failure(reply) {
        breaker.failed(now)
    } else {
        breaker
    }
}

/// The breaker is told of a success for every answer that is one, and of a failure
/// for every error of the server and for every request that was not answered; of
/// nothing else.
pub proof fn law_breaker_is_told(
    breaker: CircuitBreaker,
    reply: Reply,
    now: tokio::time::Instant,
)
    ensures
        match reply {
            Reply::Status(code) => if code / 100 == 2 {
                noted(breaker, reply, now) == breaker.succeeded()
            } else if code / 100 == 5 {
                noted(breaker, reply, now) == breaker.failed(now)
            } else {
                noted(breaker, reply, now) == breaker
            },
            Reply::Network(_) => noted(breaker, reply, now) == breaker.failed(now),
        },
        is_failure(reply) <==> (reply is Network || reply->Status_0 / 100 == 5),
{
}

impl Scraper {
    /// Starts a request, where the circuit breaker lets it through.
    pub fn begin_request(&mut self) -> (r: Result<RequestRun, RequestError>)
        ensures
            *final(self) == (Scraper {
                circuit_breaker: final(self).circuit_breaker,
                ..*old(self)
            }),
            exists|elapsed: Span|
                old(self).circuit_breaker.is_since(elapsed) && final(self).circuit_breaker
                    == #[trigger] old(self).circuit_breaker.asked(elapsed) && begun(old(self).max_retries, old(self).circuit_breaker, elapsed, r),
    {
        let elapsed = self.circuit_breaker.since_failure();
        self.begin_request_after(elapsed)
    }

    /// Starts a request, where the circuit breaker lets it through, `elapsed`
    /// after the last failure.
    pub fn begin_request_after(&mut self, elapsed: Span) -> (r: Result<RequestRun, RequestError>)
        ensures
            *final(self) == (Scraper {
                circuit_breaker: old(self).circuit_breaker.asked(elapsed),
                ..*old(self)
            }),
            begun(old(self).max_retries, old(self).circuit_breaker, elapsed, r),
    {
        let limit: u32 = self.max_retries;
        if self.circuit_breaker.can_execute_after(elapsed) {
            Ok(RequestRun { attempt: 0, limit, server_errors: 0, last_error: None })
        } else {
            Err(RequestError::CircuitOpen)
        }
    }

    /// What is to be done about a request that was started, or has to be tried
    /// again.
    pub fn next_attempt(&self, run: RequestRun) -> (r: Attempt)
        requires
            self.requests_per_minute > 0,
        ensures
            match r {
                Attempt::Send { sending, backoff, delay } => {
                    &&& run@.attempt < run@.limit
                    &&& sending@ == run@
                    &&& lasts(
                        backoff,
                        if run@.attempt > 0 {
                            Some(scraper::backoff_secs(run@.attempt as nat))
                        } else {
                            None
                        },
                    )
                    &&& delay.spec_nanos() == scraper::request_delay_nanos(
                        self.requests_per_minute,
                        self.min_delay_between_requests,
                    )
                },
                Attempt::GiveUp(error) => run@.attempt >= run@.limit && error == final_error(run@),
            },
    {
        proof {
            use_type_invariant(&run);
        }
        if run.attempt < run.limit {
            let backoff = if run.attempt > 0 {
                Some(self.calculate_backoff_delay(run.attempt))
            } else {
                None
            };
            let delay = self.calculate_request_delay();
            Attempt::Send { sending: Sending { run }, backoff, delay }
        } else {
            match run.last_error {
                Some(error) => Attempt::GiveUp(error),
                None => Attempt::GiveUp(RequestError::RetriesExceeded),
            }
        }
    }

    /// Takes in the answer to a request that was sent.
    pub fn reply(&mut self, sending: Sending, reply: Reply) -> (r: Verdict)
        requires
            is_failure(reply) ==> old(self).circuit_breaker.failure_count < u32::MAX,
        ensures
            r.is_verdict(judged(sending@, reply)),
            *final(self) == (Scraper {
                circuit_breaker: final(self).circuit_breaker,
                ..*old(self)
            }),
            exists|now: tokio::time::Instant|
                final(self).circuit_breaker == #[trigger] noted(
                    old(self).circuit_breaker,
                    reply,
                    now,
                ),
    {
        let now = clock::instant_now();
        self.reply_at(sending, reply, now)
    }

    /// Takes in the answer to a request that was sent, which came at `now`.
    pub fn reply_at(&mut self, sending: Sending, reply: Reply, now: tokio::time::Instant) -> (r:
        Verdict)
        requires
            is_failure(reply) ==> old(self).circuit_breaker.failure_count < u32::MAX,
        ensures
            r.is_verdict(judged(sending@, reply)),
            *final(self) == (Scraper {
                circuit_breaker: noted(old(self).circuit_breaker, reply, now),
                ..*old(self)
            }),
    {
        proof {
            use_type_invariant(&sending);
        }
        let attempt: u32 = sending.run.attempt;
        let limit: u32 = sending.run.limit;
        let server_errors: u32 = sending.run.server_errors;
        match reply {
            Reply::Status(code) => {
                if 200 <= code && code <= 299 {
                    self.circuit_breaker.record_success();
                    Verdict::Accept
                } else if code == 429 {
                    let pause = self.calculate_extended_delay(attempt);
                    Verdict::Retry {
                        run: RequestRun {
                            attempt: attempt + 1,
                            limit,
                            server_errors,
                            last_error: Some(RequestError::RateLimited),
                        },
                        pause: Some(pause),
                    }
                } else if 500 <= code && code <= 599 {
                    let count: u32 = server_errors + 1;
                    self.circuit_breaker.record_failure_at(now);
                    if count >= MAX_SERVER_ERRORS {
                        return Verdict::Fail(RequestError::TooManyServerErrors(count));
                    }
                    let pause = self.calculate_server_error_backoff(count);
                    Verdict::Retry {
                        run: RequestRun {
                            attempt: attempt + 1,
                            limit,
                            server_errors: count,
                            last_error: Some(RequestError::Server(code)),
                        },
                        pause: Some(pause),
                    }
                } else if 400 <= code && code <= 499 {
                    Verdict::Fail(RequestError::Client(code))
                } else {
                    Verdict::Retry {
                        run: RequestRun {
                            attempt: attempt + 1,
                            limit,
                            server_errors,
                            last_error: Some(RequestError::Unexpected(code)),
                        },
                        pause: None,
                    }
                }
            },
            Reply::Network(cause) => {
                self.circuit_breaker.record_failure_at(now);
                Verdict::Retry {
                    run: RequestRun {
                        attempt: attempt + 1,
                        limit,
                        server_errors,
                        last_error: Some(RequestError::Network(cause)),
                    },
                    pause: None,
                }
            },
        }
    }
}

/// How a request starts: at its first try, or not at all where the breaker
/// holds it back.
pub open spec fn begun(
    max_retries: u32,
    breaker: CircuitBreaker,
    elapsed: Span,
    r: Result<RequestRun, RequestError>,
) -> bool {
    if breaker.lets_through(elapsed) {
        r matches Ok(run) && run@ == fresh_run(max_retries as int)
    } else {
        r == Err::<RequestRun, RequestError>(RequestError::CircuitOpen)
    }
}

/// A request starts, with none of its tries used and nothing gone wrong, if and
/// only if the breaker lets it through.
pub proof fn law_request_starts(
    max_retries: u32,
    breaker: CircuitBreaker,
    elapsed: Span,
    r: Result<RequestRun, RequestError>,
)
    requires
        begun(max_retries, breaker, elapsed, r),
    ensures
        r is Ok <==> breaker.lets_through(elapsed),
        r matches Ok(run) ==> {
            &&& run@.attempt == 0
            &&& run@.limit == max_retries
            &&& run@.server_errors == 0
            &&& run@.last_error is None
        },
        r matches Err(error) ==> error is CircuitOpen,
{
}

/// A request that was sent once for each reply, all of which left it to be
/// tried again; what it has come to.
pub open spec fn run_after(run: RunView, replies: Seq<Reply>) -> Option<RunView>
    decreases replies.len(),
{
    if replies.len() == 0 {
        Some(run)
    } else {
        match run_after(run, replies.drop_last()) {
            Some(before) => if before.attempt < before.limit {
                match judged(before, replies.last()) {
                    VerdictView::Retry { run: next, .. } => Some(next),
                    _ => None,
                }
            } else {
                None
            },
            None => None,
        }
    }
}

/// A request is sent at most as often as it may be. Where that is less often
/// than it takes for too many errors of the server, it is never given up for
/// these.
pub proof fn law_request_is_bounded(limit: int, replies: Seq<Reply>)
    requires
        0 <= limit,
        run_after(fresh_run(limit), replies) is Some,
    ensures
        replies.len() <= limit,
        run_after(fresh_run(limit), replies)->0.attempt == replies.len(),
        run_after(fresh_run(limit), replies)->0.limit == limit,
        run_after(fresh_run(limit), replies)->0.server_errors <= replies.len(),
        limit < MAX_SERVER_ERRORS ==> forall|reply: Reply|
            replies.len() < limit ==> !(#[trigger] judged(
                run_after(fresh_run(limit), replies)->0,
                reply,
            ) matches VerdictView::Fail(RequestError::TooManyServerErrors(_))),
    decreases replies.len(),
{
    if replies.len() > 0 {
        law_request_is_bounded(limit, replies.drop_last());
    }
}

/// An error of the request itself is never tried again, and a success is taken
/// at once, however often it was tried before.
pub proof fn law_final_answers(run: RunView, code: u16)
    ensures
        200 <= code <= 299 ==> judged(run, Reply::Status(code)) is Accept,
        400 <= code <= 499 && code != 429 ==> judged(run, Reply::Status(code)) == VerdictView::Fail(
            RequestError::Client(code),
        ),
        judged(run, Reply::Status(code)) is Accept ==> 200 <= code <= 299,
{
}

/// A request that was tried in vain is given up for the reason of its last try.
pub proof fn law_last_error_is_told(limit: int, replies: Seq<Reply>)
    requires
        0 <= limit,
        run_after(fresh_run(limit), replies) is Some,
    ensures
        final_error(run_after(fresh_run(limit), replies)->0) == if replies.len() == 0 {
            RequestError::RetriesExceeded
        } else {
            match replies.last() {
                Reply::Status(code) => if code == 429 {
                    RequestError::RateLimited
                } else if 500 <= code <= 599 {
                    RequestError::Server(code)
                } else {
                    RequestError::Unexpected(code)
                },
                Reply::Network(cause) => RequestError::Network(cause),
            }
        },
{
}

/// What is said of the directory: the status of its answer, and its server; or
/// why it could not be asked.
pub open spec fn server_info(answer: Result<(u16, Option<String>), RequestError>) -> Result<
    Seq<char>,
    Seq<char>,
> {
    match answer {
        Ok((code, Some(server))) => Ok(
            "Status: "@ + status_text(code) + ", Server: "@ + server@,
        ),
        Ok((code, None)) => Ok("Status: "@ + status_text(code) + ", Server: "@ + "unknown"@),
        Err(error) => Err("Failed to get server info: "@ + error.spec_message()),
    }
}

/// What is said of the directory names the status of its answer and its server,
/// or that this is unknown; where it could not be asked, it names the reason.
pub proof fn law_server_info(answer: Result<(u16, Option<String>), RequestError>)
    ensures
        server_info(answer) is Ok <==> answer is Ok,
        answer matches Ok((code, server)) ==> server_info(answer)->Ok_0 == "Status: "@
            + status_text(code) + ", Server: "@ + match server {
            Some(name) => name@,
            None => "unknown"@,
        },
        answer matches Err(error) ==> server_info(answer)->Err_0 == "Failed to get server info: "@
            + error.spec_message(),
{
}

impl Scraper {
    /// What is said of the directory, of its answer to a request: its status
    /// and the server that it names.
    pub fn get_server_info(answer: Result<(u16, Option<String>), RequestError>) -> (r: Result<
        String,
        String,
    >)
        ensures
            match server_info(answer) {
                Ok(info) => r matches Ok(t) && t@ == info,
                Err(why) => r matches Err(t) && t@ == why,
            },
    {
        match answer {
            Ok((code, server)) => {
                let info = "Status: ".to_owned().concat(show_status(code).as_str()).concat(
                    ", Server: ",
                );
                match server {
                    Some(name) => Ok(info.concat(name.as_str())),
                    None => Ok(info.concat("unknown")),
                }
            },
            Err(error) => Err(
                "Failed to get server info: ".to_owned().concat(error.message().as_str()),
            ),
        }
    }
}

/// How long an answer asks to wait: the seconds that its header names, where it
/// names a number of them.
pub fn retry_after(header: &str) -> (r: Option<Span>)
    ensures
        match text::unsigned_value(header@) {
            Some(secs) => if secs <= u64::MAX {
                r matches Some(span) && span.spec_nanos() == secs * 1_000_000_000
            } else {
                r is None
            },
            None => r is None,
        },
{
    match text::parse_unsigned(header) {
        Some(secs) => Some(Span::from_secs(secs)),
        None => None,
    }
}

} // verus!

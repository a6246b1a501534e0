//! The circuit breaker: it holds requests back from a server that keeps
//! failing.

use vstd::prelude::*;
use crate::clock;
use crate::clock::Span;

verus! {

/// Whether requests are let through.
#[derive(Clone, Copy, Debug, PartialEq, Eq, Structural)]
pub enum CircuitState {
    /// They are.
    Closed,
    /// They are not.
    Open,
    /// They are, to see whether the server has recovered.
    HalfOpen,
}

impl CircuitState {
    /// The name of the state.
    pub open spec fn spec_name(self) -> Seq<char> {
        match self {
            CircuitState::Closed => "Closed"@,
            CircuitState::Open => "Open"@,
            CircuitState::HalfOpen => "HalfOpen"@,
        }
    }

    /// The name of the state.
    pub fn name(self) -> (r: &'static str)
        ensures
            r@ == self.spec_name(),
    {
        match self {
            CircuitState::Closed => "Closed",
            CircuitState::Open => "Open",
            CircuitState::HalfOpen => "HalfOpen",
        }
    }
}

/// A breaker that opens after `failure_threshold` failures in a row, for
/// `timeout`.
#[derive(Debug)]
pub struct CircuitBreaker {
    pub state: CircuitState,
    pub failure_count: u32,
    pub failure_threshold: u32,
    pub timeout: Span,
    pub last_failure_time: Option<tokio::time::Instant>,
}

impl CircuitBreaker {
    /// A breaker that has not seen a failure.
    pub open spec fn initial(failure_threshold: u32, timeout: Span) -> CircuitBreaker {
        CircuitBreaker {
            state: CircuitState::Closed,
            failure_count: 0,
            failure_threshold,
            timeout,
            last_failure_time: None,
        }
    }

    /// The last failure was `elapsed` ago at some reading of the clock; it was no
    /// time ago where there was none.
    pub open spec fn is_since(self, elapsed: Span) -> bool {
        match self.last_failure_time {
            Some(at) => exists|now: tokio::time::Instant|
                elapsed.spec_nanos() == #[trigger] clock::between(at, now),
            None => elapsed.spec_nanos() == 0,
        }
    }

    /// Whether a request is let through, `elapsed` after the last failure.
    pub open spec fn lets_through(self, elapsed: Span) -> bool {
        match self.state {
            CircuitState::Closed => true,
            CircuitState::Open => self.last_failure_time is Some && elapsed.spec_nanos()
                > self.timeout.spec_nanos(),
            CircuitState::HalfOpen => true,
        }
    }

    /// The breaker after it was asked to let a request through, `elapsed`
    /// after the last failure.
    pub open spec fn asked(self, elapsed: Span) -> CircuitBreaker {
        if self.state is Open && self.lets_through(elapsed) {
            CircuitBreaker { state: CircuitState::HalfOpen, ..self }
        } else {
            self
        }
    }

    /// The breaker after a request that went well.
    pub open spec fn succeeded(self) -> CircuitBreaker {
        match self.state {
            CircuitState::HalfOpen => CircuitBreaker {
                state: CircuitState::Closed,
                failure_count: 0,
                last_failure_time: None,
                ..self
            },
            CircuitState::Closed => CircuitBreaker { failure_count: 0, ..self },
            CircuitState::Open => self,
        }
    }

    /// The breaker after a request that failed at `now`.
    pub open spec fn failed(self, now: tokio::time::Instant) -> CircuitBreaker {
        let count = self.failure_count + 1;
        CircuitBreaker {
            state: match self.state {
                CircuitState::Closed => if count >= self.failure_threshold {
                    CircuitState::Open
                } else {
                    CircuitState::Closed
                },
                _ => CircuitState::Open,
            },
            failure_count: count as u32,
            last_failure_time: Some(now),
            ..self
        }
    }

    /// A breaker that does not let all requests through knows when the last
    /// failure was.
    pub open spec fn knows_its_failure(self) -> bool {
        self.state != CircuitState::Closed ==> self.last_failure_time is Some
    }

    /// A breaker that has not seen a failure.
    pub fn new(failure_threshold: u32, timeout: Span) -> (r: CircuitBreaker)
        ensures
            r == CircuitBreaker::initial(failure_threshold, timeout),
    {
        CircuitBreaker {
            state: CircuitState::Closed,
            failure_count: 0,
            failure_threshold,
            timeout,
            last_failure_time: None,
        }
    }

    /// Whether a request is let through now.
    pub fn can_execute(&mut self) -> (r: bool)
        ensures
            exists|elapsed: Span|
                old(self).is_since(elapsed) && r == old(self).lets_through(elapsed)
                    && *final(self) == #[trigger] old(self).asked(elapsed),
    {
        let elapsed = self.since_failure();
        self.can_execute_after(elapsed)
    }

    /// How long ago the last failure was; no time where there was none.
    pub fn since_failure(&self) -> (r: Span)
        ensures
            self.is_since(r),
            self.last_failure_time matches Some(at) ==> exists|now: tokio::time::Instant|
                r.spec_nanos() == #[trigger] clock::between(at, now),
            self.last_failure_time is None ==> r.spec_nanos() == 0,
    {
        match &self.last_failure_time {
            Some(at) => clock::elapsed_since(at),
            None => Span::from_secs(0),
        }
    }

    /// Whether a request is let through, `elapsed` after the last failure.
    pub fn can_execute_after(&mut self, elapsed: Span) -> (r: bool)
        ensures
            r == old(self).lets_through(elapsed),
            *final(self) == old(self).asked(elapsed),
    {
        match self.state {
            CircuitState::Closed => true,
            CircuitState::Open => {
                if self.last_failure_time.is_some() && elapsed.as_nanos()
                    > self.timeout.as_nanos() {
                    self.state = CircuitState::HalfOpen;
                    true
                } else {
                    false
                }
            },
            CircuitState::HalfOpen => true,
        }
    }

    /// A request went well.
    pub fn record_success(&mut self)
        ensures
            *final(self) == old(self).succeeded(),
    {
        match self.state {
            CircuitState::HalfOpen => {
                self.state = CircuitState::Closed;
                self.failure_count = 0;
                self.last_failure_time = None;
            },
            CircuitState::Closed => {
                self.failure_count = 0;
            },
            CircuitState::Open => {},
        }
    }

    /// A request failed now.
    pub fn record_failure(&mut self)
        requires
            old(self).failure_count < u32::MAX,
        ensures
            exists|now: tokio::time::Instant|
                *final(self) == #[trigger] old(self).failed(now),
    {
        self.record_failure_at(clock::instant_now())
    }

    /// A request failed at `now`.
    pub fn record_failure_at(&mut self, now: tokio::time::Instant)
        requires
            old(self).failure_count < u32::MAX,
        ensures
            *final(self) == old(self).failed(now),
    {
        self.failure_count = self.failure_count + 1;
        self.last_failure_time = Some(now);
        match self.state {
            CircuitState::Closed => {
                if self.failure_count >= self.failure_threshold {
                    self.state = CircuitState::Open;
                }
            },
            CircuitState::HalfOpen => {
                self.state = CircuitState::Open;
            },
            CircuitState::Open => {},
        }
    }

    /// Whether requests are let through.
    pub fn get_state(&self) -> (r: &CircuitState)
        ensures
            *r == self.state,
    {
        &self.state
    }

    /// Lets requests through again, as if none had failed.
    pub fn reset(&mut self)
        ensures
            *final(self) == CircuitBreaker::initial(
                old(self).failure_threshold,
                old(self).timeout,
            ),
    {
        self.state = CircuitState::Closed;
        self.failure_count = 0;
        self.last_failure_time = None;
    }

    /// Changes after how many failures the breaker opens, and for how long.
    pub fn configure(&mut self, failure_threshold: u32, timeout: Span)
        ensures
            *final(self) == (CircuitBreaker { failure_threshold, timeout, ..*old(self) }),
    {
        self.failure_threshold = failure_threshold;
        self.timeout = timeout;
    }
}

/// The time since the last failure is the one that lies between it and a reading
/// of the clock; only where there was none it is no time.
pub proof fn law_time_since_the_failure(breaker: CircuitBreaker, elapsed: Span)
    requires
        breaker.is_since(elapsed),
    ensures
        breaker.last_failure_time matches Some(at) ==> exists|now: tokio::time::Instant|
            elapsed.spec_nanos() == #[trigger] clock::between(at, now),
        breaker.last_failure_time is None ==> elapsed.spec_nanos() == 0,
{
}

/// The three states have their own names.
pub proof fn law_state_names()
    ensures
        CircuitState::Closed.spec_name() == "Closed"@,
        CircuitState::Open.spec_name() == "Open"@,
        CircuitState::HalfOpen.spec_name() == "HalfOpen"@,
        "Closed"@ != "Open"@ && "Open"@ != "HalfOpen"@ && "HalfOpen"@ != "Closed"@,
{
    reveal_strlit("Closed");
    reveal_strlit("Open");
    reveal_strlit("HalfOpen");
    assert("Closed"@.len() == 6);
    assert("Open"@.len() == 4);
    assert("HalfOpen"@.len() == 8);
}

/// A breaker that was just made or reset lets everything through and knows of no
/// failure.
pub proof fn law_breaker_starts_closed(threshold: u32, timeout: Span, elapsed: Span)
    ensures
        ({
            let breaker = CircuitBreaker::initial(threshold, timeout);
            &&& breaker.state is Closed
            &&& breaker.failure_count == 0
            &&& breaker.last_failure_time is None
            &&& breaker.failure_threshold == threshold
            &&& breaker.timeout == timeout
            &&& breaker.lets_through(elapsed)
        }),
{
}

/// A breaker that is not open lets everything through and stays as it is; one
/// that is open lets a request through if and only if its last failure is known
/// and longer ago than its timeout, and is then half open with nothing else of it
/// changed.
pub proof fn law_breaker_is_asked(breaker: CircuitBreaker, elapsed: Span)
    ensures
        !(breaker.state is Open) ==> breaker.lets_through(elapsed) && breaker.asked(elapsed)
            == breaker,
        breaker.state is Open ==> (breaker.lets_through(elapsed) <==> breaker.last_failure_time
            is Some && elapsed.spec_nanos() > breaker.timeout.spec_nanos()),
        ({
            let after = breaker.asked(elapsed);
            &&& breaker.state is Open && breaker.lets_through(elapsed) ==> after.state is HalfOpen
            &&& !breaker.lets_through(elapsed) ==> after.state is Open
            &&& after.failure_count == breaker.failure_count
            &&& after.failure_threshold == breaker.failure_threshold
            &&& after.timeout == breaker.timeout
            &&& after.last_failure_time == breaker.last_failure_time
        }),
{
}

/// Every failure counts and is remembered; it leaves a breaker closed if and only
/// if it was closed and has seen fewer failures than its threshold, and else open.
/// A success forgets the failures of a breaker that is closed, closes one that is
/// half open and forgets when it last failed, and changes nothing of one that is
/// open.
pub proof fn law_breaker_follows_the_answers(
    breaker: CircuitBreaker,
    now: tokio::time::Instant,
)
    requires
        breaker.failure_count < u32::MAX,
    ensures
        ({
            let after = breaker.failed(now);
            &&& after.failure_count == breaker.failure_count + 1
            &&& after.last_failure_time == Some(now)
            &&& after.failure_threshold == breaker.failure_threshold
            &&& after.timeout == breaker.timeout
            &&& after.state is Closed <==> breaker.state is Closed && breaker.failure_count + 1
                < breaker.failure_threshold
            &&& !(after.state is Closed) ==> after.state is Open
        }),
        ({
            let after = breaker.succeeded();
            &&& after.failure_threshold == breaker.failure_threshold
            &&& after.timeout == breaker.timeout
            &&& after.state is Open <==> breaker.state is Open
            &&& !(after.state is Open) ==> after.state is Closed && after.failure_count == 0
            &&& breaker.state is Open ==> after == breaker
            &&& breaker.state is Closed ==> after.last_failure_time == breaker.last_failure_time
            &&& breaker.state is HalfOpen ==> after.last_failure_time is None
        }),
{
}

/// The breaker after requests that failed one after the other.
pub open spec fn all_failed(
    breaker: CircuitBreaker,
    times: Seq<tokio::time::Instant>,
) -> CircuitBreaker
    decreases times.len(),
{
    if times.len() == 0 {
        breaker
    } else {
        all_failed(breaker, times.drop_last()).failed(times.last())
    }
}

/// A closed breaker that last saw a success stays closed through fewer
/// failures in a row than its threshold, and the failure that reaches the
/// threshold opens it. A threshold of zero is one of one.
pub proof fn law_breaker_opens_at_threshold(
    breaker: CircuitBreaker,
    times: Seq<tokio::time::Instant>,
)
    requires
        breaker.state is Closed,
        times.len() <= u32::MAX,
    ensures
        ({
            let after = all_failed(breaker.succeeded(), times);
            &&& after.state is Closed <==> times.len() == 0 || times.len()
                < breaker.failure_threshold
            &&& !(after.state is Closed) ==> after.state is Open
            &&& after.failure_count == times.len()
        }),
    decreases times.len(),
{
    if times.len() > 0 {
        law_breaker_opens_at_threshold(breaker, times.drop_last());
        lemma_failures_keep_threshold(breaker.succeeded(), times.drop_last());
    }
}

proof fn lemma_failures_keep_threshold(
    breaker: CircuitBreaker,
    times: Seq<tokio::time::Instant>,
)
    ensures
        all_failed(breaker, times).failure_threshold == breaker.failure_threshold,
    decreases times.len(),
{
    if times.len() > 0 {
        lemma_failures_keep_threshold(breaker, times.drop_last());
    }
}

/// An open breaker lets nothing through until its timeout has passed since the
/// last failure, whatever succeeds meanwhile; then it lets a request through,
/// which closes it where it goes well, with nothing left of the failures, and
/// opens it again where it fails.
pub proof fn law_breaker_recovers(
    breaker: CircuitBreaker,
    elapsed: Span,
    now: tokio::time::Instant,
)
    requires
        breaker.state is Open,
        breaker.knows_its_failure(),
    ensures
        breaker.lets_through(elapsed) <==> elapsed.spec_nanos() > breaker.timeout.spec_nanos(),
        breaker.succeeded() == breaker,
        !breaker.lets_through(elapsed) ==> breaker.asked(elapsed) == breaker,
        breaker.lets_through(elapsed) ==> {
            let tried = breaker.asked(elapsed);
            &&& tried.state is HalfOpen
            &&& tried.succeeded() == CircuitBreaker::initial(
                breaker.failure_threshold,
                breaker.timeout,
            )
            &&& tried.failed(now).state is Open
            &&& tried.failed(now).last_failure_time == Some(now)
        },
{
}

/// Whatever happens to a breaker, it knows when the last failure was while it
/// does not let all requests through.
pub proof fn law_breaker_knows_its_failure(
    breaker: CircuitBreaker,
    threshold: u32,
    timeout: Span,
    elapsed: Span,
    now: tokio::time::Instant,
)
    ensures
        CircuitBreaker::initial(threshold, timeout).knows_its_failure(),
        breaker.knows_its_failure() ==> {
            &&& breaker.asked(elapsed).knows_its_failure()
            &&& breaker.succeeded().knows_its_failure()
            &&& breaker.failed(now).knows_its_failure()
        },
{
}

} // verus!

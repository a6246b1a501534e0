//! The scraper: how it is set up, how long it waits, and how many entries it
//! asks for at a time.

use vstd::prelude::*;
use vstd::string::*;
use crate::circuit::CircuitBreaker;
use crate::clock;
use crate::clock::{Span, Timestamp};
use crate::json;
use crate::json::{Json, JsonObject, JsonView};
use crate::models::ExportQuery;
use crate::text;

verus! {

/// How the directory is asked for its log.
#[derive(Debug)]
pub struct Scraper {
    pub base_url: String,
    pub requests_per_minute: u32,
    /// How many entries are asked for at a time.
    pub batch_size: usize,
    pub max_retries: u32,
    pub user_agent: String,
    pub min_delay_between_requests: Span,
    pub circuit_breaker: CircuitBreaker,
    /// Whether the batch size follows how the directory answers.
    pub adaptive_batch_size: bool,
    pub min_batch_size: usize,
    pub max_batch_size: usize,
}

/// The smaller of two numbers.
pub open spec fn least(a: int, b: int) -> int {
    if a <= b {
        a
    } else {
        b
    }
}

/// The larger of two numbers.
pub open spec fn most(a: int, b: int) -> int {
    if a >= b {
        a
    } else {
        b
    }
}

/// The number between the limits that is closest to `size`; the lower limit
/// where it is above the upper one.
pub open spec fn within(size: int, min: int, max: int) -> int {
    most(least(size, max), min)
}

/// How long to wait before a request is tried again, in seconds: twice as long
/// each time, up to five minutes.
pub open spec fn backoff_secs(attempt: nat) -> int {
    least(vstd::arithmetic::power2::pow2(attempt) as int, 300)
}

/// How long to wait after that many errors of the server, in seconds: from five
/// seconds on twice as long each time, up to ten minutes.
pub open spec fn server_backoff_secs(count: nat) -> int {
    least(5 * vstd::arithmetic::power2::pow2(count) as int, 600)
}

/// How long to wait before any request, in nanoseconds: so long that there are
/// not more in a minute than allowed, and never less than the least delay.
pub open spec fn request_delay_nanos(requests_per_minute: u32, min_delay: Span) -> nat {
    most(
        (60_000_000_000nat / requests_per_minute as nat) as int,
        min_delay.spec_nanos() as int,
    ) as nat
}

/// The batch size after a response that took `millis`, or after a failure: a
/// fast response raises it, up to the upper limit; a slow one and a failure
/// lower it, down to the lower limit.
pub open spec fn adapted(scraper: Scraper, success: bool, millis: int) -> int {
    let size = scraper.batch_size as int;
    let min = scraper.min_batch_size as int;
    let max = scraper.max_batch_size as int;
    if !scraper.adaptive_batch_size {
        size
    } else if success && millis < 1000 && size < max {
        least(size + 50, max)
    } else if success && millis > 5000 && size > min {
        most(size - 100, min)
    } else if !success && size > min {
        most(size - 200, min)
    } else {
        size
    }
}

/// What is asked of the directory for a batch.
pub open spec fn spec_export_url(base_url: Seq<char>, batch_size: usize, query: ExportQuery) -> Seq<
    char,
> {
    let count = match query.count {
        Some(n) => n,
        None => batch_size,
    };
    let url = base_url + "/export"@ + "?count="@ + text::decimal(count as int);
    match query.after {
        Some(at) => url + "&after="@ + clock::to_the_second(at.spec_secs(), at.spec_nanos()),
        None => url,
    }
}

/// The status of an answer says that the directory is well.
pub open spec fn is_well(status: Option<u16>) -> bool {
    status matches Some(code) && 200 <= code <= 299
}

/// Whether the scraper should run at that hour of the day: in the night.
pub open spec fn runs_at_hour(hour: int) -> bool {
    2 <= hour <= 6 || 22 <= hour <= 23
}

/// A JSON object of two integers.
pub open spec fn pair_of_integers(
    name_a: Seq<char>,
    a: u64,
    name_b: Seq<char>,
    b: u64,
) -> JsonView {
    let none = Seq::<(Seq<char>, JsonView)>::empty();
    let first = json::with_member(none, name_a, JsonView::Number(json::number_of(a as int)));
    JsonView::Object(json::with_member(first, name_b, JsonView::Number(json::number_of(b as int))))
}

/// How the scraper is doing.
pub open spec fn health(scraper: Scraper) -> JsonView {
    let none = Seq::<(Seq<char>, JsonView)>::empty();
    let breaker = scraper.circuit_breaker;
    let a = json::with_member(
        none,
        "circuit_breaker_state"@,
        JsonView::Text(breaker.state.spec_name()),
    );
    let b = json::with_member(
        a,
        "current_batch_size"@,
        JsonView::Number(json::number_of(scraper.batch_size as int)),
    );
    let c = json::with_member(
        b,
        "adaptive_batching"@,
        JsonView::Bool(scraper.adaptive_batch_size),
    );
    let d = json::with_member(
        c,
        "batch_size_limits"@,
        pair_of_integers(
            "min"@,
            scraper.min_batch_size as u64,
            "max"@,
            scraper.max_batch_size as u64,
        ),
    );
    let e = json::with_member(
        d,
        "rate_limit"@,
        pair_of_integers(
            "requests_per_minute"@,
            scraper.requests_per_minute as u64,
            "min_delay_ms"@,
            (scraper.min_delay_between_requests.spec_nanos() / 1_000_000) as u64,
        ),
    );
    let counts = pair_of_integers(
        "failure_count"@,
        breaker.failure_count as u64,
        "failure_threshold"@,
        breaker.failure_threshold as u64,
    )->Object_0;
    let limits = json::with_member(
        counts,
        "timeout_seconds"@,
        JsonView::Number(
            json::number_of((breaker.timeout.spec_nanos() / 1_000_000_000) as int),
        ),
    );
    JsonView::Object(json::with_member(e, "circuit_breaker"@, JsonView::Object(limits)))
}

/// A JSON object of two integers.
fn two_integers(name_a: &str, a: u64, name_b: &str, b: u64) -> (r: JsonObject)
    ensures
        JsonView::Object(r@) == pair_of_integers(name_a@, a, name_b@, b),
{
    JsonObject::new().with(name_a, Json::integer(a)).with(name_b, Json::integer(b))
}

impl Scraper {
    /// The scraper as it is set up at first: it asks the public directory, with
    /// at most 30 requests in a minute, two seconds between any two, 500
    /// entries at a time.
    pub fn new() -> (r: Scraper)
        ensures
            r.base_url@ == "https://plc.directory"@,
            r.requests_per_minute == 30,
            r.batch_size == 500,
            r.max_retries == 3,
            r.user_agent@ == "PLC-Mirror/1.0 (Respectful scraper)"@,
            r.min_delay_between_requests.spec_nanos() == 2_000_000_000,
            r.circuit_breaker == CircuitBreaker::initial(3, r.circuit_breaker.timeout),
            r.circuit_breaker.timeout.spec_nanos() == 300_000_000_000,
            r.adaptive_batch_size,
            r.min_batch_size == 100,
            r.max_batch_size == 1000,
    {
        Scraper {
            base_url: "https://plc.directory".to_owned(),
            requests_per_minute: 30,
            batch_size: 500,
            max_retries: 3,
            user_agent: "PLC-Mirror/1.0 (Respectful scraper)".to_owned(),
            min_delay_between_requests: Span::from_millis(2000),
            circuit_breaker: CircuitBreaker::new(3, Span::from_secs(300)),
            adaptive_batch_size: true,
            min_batch_size: 100,
            max_batch_size: 1000,
        }
    }

    /// How long to wait before any request.
    pub fn calculate_request_delay(&self) -> (r: Span)
        requires
            self.requests_per_minute > 0,
        ensures
            r.spec_nanos() == request_delay_nanos(
                self.requests_per_minute,
                self.min_delay_between_requests,
            ),
    {
        Span::from_secs(60).part(self.requests_per_minute).max(self.min_delay_between_requests)
    }

    /// How long to wait before a request is tried again.
    pub fn calculate_backoff_delay(&self, attempt: u32) -> (r: Span)
        ensures
            r.spec_nanos() == backoff_secs(attempt as nat) * 1_000_000_000,
    {
        backoff(attempt)
    }

    /// How long to wait where the server limits the rate: as long as two tries
    /// later.
    pub(crate) fn calculate_extended_delay(&self, attempt: u32) -> (r: Span)
        ensures
            r.spec_nanos() == backoff_secs((attempt + 2) as nat) * 1_000_000_000,
    {
        proof {
            lemma_backoff_is_capped((attempt + 2) as nat);
            lemma_backoff_is_capped(attempt as nat);
        }
        if attempt < 9 {
            backoff(attempt + 2)
        } else {
            backoff(attempt)
        }
    }

    /// How long to wait after that many errors of the server.
    pub fn calculate_server_error_backoff(&self, server_error_count: u32) -> (r: Span)
        ensures
            r.spec_nanos() == server_backoff_secs(server_error_count as nat) * 1_000_000_000,
    {
        server_backoff(server_error_count)
    }

    /// Adapts the batch size to a response that took so long, or to a failure.
    pub fn adapt_batch_size(&mut self, success: bool, response_time: Span)
        ensures
            *final(self) == (Scraper { batch_size: final(self).batch_size, ..*old(self) }),
            final(self).batch_size == adapted(
                *old(self),
                success,
                (response_time.spec_nanos() / 1_000_000) as int,
            ),
    {
        if !self.adaptive_batch_size {
            return;
        }
        let millis: u128 = response_time.as_millis();
        if success && millis < 1000 && self.batch_size < self.max_batch_size {
            self.batch_size = if self.max_batch_size - self.batch_size > 50 {
                self.batch_size + 50
            } else {
                self.max_batch_size
            };
        } else if success && millis > 5000 && self.batch_size > self.min_batch_size {
            self.batch_size = if self.batch_size - self.min_batch_size > 100 {
                self.batch_size - 100
            } else {
                self.min_batch_size
            };
        } else if !success && self.batch_size > self.min_batch_size {
            self.batch_size = if self.batch_size - self.min_batch_size > 200 {
                self.batch_size - 200
            } else {
                self.min_batch_size
            };
        }
    }

    /// What is asked of the directory for a batch.
    pub fn export_url(&self, query: &ExportQuery) -> (r: String)
        ensures
            r@ == spec_export_url(self.base_url@, self.batch_size, *query),
    {
        let count: usize = match query.count {
            Some(n) => n,
            None => self.batch_size,
        };
        let mut url = self.base_url.as_str().to_owned().concat("/export").concat("?count=");
        text::push_decimal(&mut url, count as u64);
        match &query.after {
            Some(at) => url.concat("&after=").concat(at.to_cursor().as_str()),
            None => url,
        }
    }

    /// Where the directory says how it is.
    pub fn health_url(&self) -> (r: String)
        ensures
            r@ == self.base_url@ + "/"@,
    {
        self.base_url.as_str().to_owned().concat("/")
    }

    /// Takes in the answer to a request for the directory's health: its status,
    /// or that there was none. The result says whether it is well.
    pub fn check_server_health(&mut self, status: Option<u16>) -> (r: bool)
        requires
            !is_well(status) ==> old(self).circuit_breaker.failure_count < u32::MAX,
        ensures
            r == is_well(status),
            *final(self) == (Scraper {
                circuit_breaker: final(self).circuit_breaker,
                ..*old(self)
            }),
            r ==> final(self).circuit_breaker == old(self).circuit_breaker.succeeded(),
            !r ==> exists|now: tokio::time::Instant|
                final(self).circuit_breaker == #[trigger] old(self).circuit_breaker.failed(now),
    {
        self.check_server_health_at(status, clock::instant_now())
    }

    /// Takes in the answer to a request for the directory's health, or that
    /// there was none, which came at `now`.
    pub fn check_server_health_at(
        &mut self,
        status: Option<u16>,
        now: tokio::time::Instant,
    ) -> (r: bool)
        requires
            !is_well(status) ==> old(self).circuit_breaker.failure_count < u32::MAX,
        ensures
            r == is_well(status),
            *final(self) == (Scraper {
                circuit_breaker: if is_well(status) {
                    old(self).circuit_breaker.succeeded()
                } else {
                    old(self).circuit_breaker.failed(now)
                },
                ..*old(self)
            }),
    {
        let well = match status {
            Some(code) => 200 <= code && code <= 299,
            None => false,
        };
        if well {
            self.circuit_breaker.record_success();
        } else {
            self.circuit_breaker.record_failure_at(now);
        }
        well
    }

    /// Whether the scraper should run now.
    pub fn should_run_now(&self) -> (r: bool)
        ensures
            exists|now: Timestamp|
                clock::is_clock_time(now) && r == runs_at_hour(#[trigger] now.spec_hour()),
    {
        let now = clock::utc_now();
        self.should_run_at(now)
    }

    /// Whether the scraper should run at that time.
    pub fn should_run_at(&self, now: Timestamp) -> (r: bool)
        ensures
            r == runs_at_hour(now.spec_hour()),
    {
        let hour: u32 = now.hour();
        (2 <= hour && hour <= 6) || (22 <= hour && hour <= 23)
    }

    /// How many requests there may be in a minute, and the least delay between
    /// two.
    pub fn get_rate_limit_info(&self) -> (r: (u32, Span))
        ensures
            r == (self.requests_per_minute, self.min_delay_between_requests),
    {
        (self.requests_per_minute, self.min_delay_between_requests)
    }

    /// Sets the batch size, within its limits.
    pub fn set_batch_size(&mut self, batch_size: usize)
        ensures
            *final(self) == (Scraper { batch_size: final(self).batch_size, ..*old(self) }),
            final(self).batch_size == within(
                batch_size as int,
                old(self).min_batch_size as int,
                old(self).max_batch_size as int,
            ),
    {
        let capped: usize = if batch_size < self.max_batch_size {
            batch_size
        } else {
            self.max_batch_size
        };
        self.batch_size = if capped > self.min_batch_size {
            capped
        } else {
            self.min_batch_size
        };
    }

    /// Sets how many requests there may be in a minute, and the least delay
    /// between two.
    pub fn set_rate_limit(&mut self, requests_per_minute: u32, min_delay_ms: u64)
        ensures
            *final(self) == (Scraper {
                requests_per_minute,
                min_delay_between_requests: final(self).min_delay_between_requests,
                ..*old(self)
            }),
            final(self).min_delay_between_requests.spec_nanos() == min_delay_ms * 1_000_000,
    {
        self.requests_per_minute = requests_per_minute;
        self.min_delay_between_requests = Span::from_millis(min_delay_ms);
    }

    /// Sets whether the batch size follows how the directory answers.
    pub fn set_adaptive_batching(&mut self, enabled: bool)
        ensures
            *final(self) == (Scraper { adaptive_batch_size: enabled, ..*old(self) }),
    {
        self.adaptive_batch_size = enabled;
    }

    /// Sets the limits of the batch size, and puts it within them.
    pub fn set_batch_size_limits(&mut self, min_size: usize, max_size: usize)
        ensures
            *final(self) == (Scraper {
                batch_size: final(self).batch_size,
                min_batch_size: min_size,
                max_batch_size: max_size,
                ..*old(self)
            }),
            final(self).batch_size == within(
                old(self).batch_size as int,
                min_size as int,
                max_size as int,
            ),
    {
        self.min_batch_size = min_size;
        self.max_batch_size = max_size;
        let size: usize = self.batch_size;
        self.set_batch_size(size);
    }

    /// How the scraper is doing.
    pub fn get_health_status(&self) -> (r: Json)
        requires
            self.min_delay_between_requests.spec_nanos() / 1_000_000 <= u64::MAX,
        ensures
            r@ == health(*self),
    {
        let breaker = &self.circuit_breaker;
        let limits = two_integers(
            "failure_count",
            breaker.failure_count as u64,
            "failure_threshold",
            breaker.failure_threshold as u64,
        ).with("timeout_seconds", Json::integer(breaker.timeout.as_secs()));
        Json::Object(
            JsonObject::new().with(
                "circuit_breaker_state",
                Json::text(breaker.get_state().name()),
            ).with("current_batch_size", Json::integer(self.batch_size as u64)).with(
                "adaptive_batching",
                Json::Bool(self.adaptive_batch_size),
            ).with(
                "batch_size_limits",
                Json::Object(
                    two_integers(
                        "min",
                        self.min_batch_size as u64,
                        "max",
                        self.max_batch_size as u64,
                    ),
                ),
            ).with(
                "rate_limit",
                Json::Object(
                    two_integers(
                        "requests_per_minute",
                        self.requests_per_minute as u64,
                        "min_delay_ms",
                        self.min_delay_between_requests.as_millis() as u64,
                    ),
                ),
            ).with("circuit_breaker", Json::Object(limits)),
        )
    }

    /// Lets requests through again, as if none had failed.
    pub fn reset_circuit_breaker(&mut self)
        ensures
            *final(self) == (Scraper {
                circuit_breaker: CircuitBreaker::initial(
                    old(self).circuit_breaker.failure_threshold,
                    old(self).circuit_breaker.timeout,
                ),
                ..*old(self)
            }),
    {
        self.circuit_breaker.reset();
    }

    /// Sets after how many failures requests are held back, and for how long.
    pub fn set_circuit_breaker_config(&mut self, failure_threshold: u32, timeout_seconds: u64)
        ensures
            *final(self) == (Scraper {
                circuit_breaker: CircuitBreaker {
                    failure_threshold,
                    timeout: final(self).circuit_breaker.timeout,
                    ..old(self).circuit_breaker
                },
                ..*old(self)
            }),
            final(self).circuit_breaker.timeout.spec_nanos() == timeout_seconds * 1_000_000_000,
    {
        self.circuit_breaker.configure(failure_threshold, Span::from_secs(timeout_seconds));
    }
}

/// From the ninth try on the wait does not grow.
proof fn lemma_backoff_is_capped(attempt: nat)
    ensures
        attempt >= 9 ==> backoff_secs(attempt) == 300,
{
    vstd::arithmetic::power2::lemma2_to64();
    if attempt > 9 {
        vstd::arithmetic::power2::lemma_pow2_strictly_increases(9, attempt);
    }
}

/// How long to wait before a request is tried again.
pub(crate) fn backoff(attempt: u32) -> (r: Span)
    ensures
        r.spec_nanos() == backoff_secs(attempt as nat) * 1_000_000_000,
{
    proof {
        vstd::arithmetic::power2::lemma2_to64();
        lemma_backoff_is_capped(attempt as nat);
    }
    let secs: u64 = match attempt {
        0 => 1,
        1 => 2,
        2 => 4,
        3 => 8,
        4 => 16,
        5 => 32,
        6 => 64,
        7 => 128,
        8 => 256,
        _ => 300,
    };
    Span::from_secs(secs)
}

/// How long to wait after that many errors of the server.
pub(crate) fn server_backoff(count: u32) -> (r: Span)
    ensures
        r.spec_nanos() == server_backoff_secs(count as nat) * 1_000_000_000,
{
    proof {
        vstd::arithmetic::power2::lemma2_to64();
        if count > 7 {
            vstd::arithmetic::power2::lemma_pow2_strictly_increases(7, count as nat);
        }
    }
    let secs: u64 = match count {
        0 => 5,
        1 => 10,
        2 => 20,
        3 => 40,
        4 => 80,
        5 => 160,
        6 => 320,
        _ => 600,
    };
    Span::from_secs(secs)
}

/// The batch size is within its limits.
pub open spec fn within_limits(scraper: Scraper) -> bool {
    scraper.min_batch_size <= scraper.batch_size <= scraper.max_batch_size
}

/// Where the lower limit is not above the upper one, setting the batch size or
/// its limits puts it within them, and adapting it keeps it there. A fast
/// response never lowers it; a slow one and a failure never raise it.
pub proof fn law_batch_size_stays_within(
    scraper: Scraper,
    size: int,
    min: int,
    max: int,
    success: bool,
    millis: int,
)
    ensures
        min <= max ==> min <= within(size, min, max) <= max,
        min <= size <= max ==> within(size, min, max) == size,
        within_limits(scraper) ==> scraper.min_batch_size <= adapted(scraper, success, millis)
            <= scraper.max_batch_size,
        within_limits(scraper) && success && millis < 1000 ==> adapted(scraper, success, millis)
            >= scraper.batch_size,
        within_limits(scraper) && (!success || millis > 5000) ==> adapted(
            scraper,
            success,
            millis,
        ) <= scraper.batch_size,
{
}

/// The number within limits is `size` itself where that lies between them; it is
/// the upper limit where `size` is above it and that is not below the lower one,
/// and else the lower one.
pub proof fn law_within(size: int, min: int, max: int)
    ensures
        min <= size <= max ==> within(size, min, max) == size,
        min <= max < size ==> within(size, min, max) == max,
        size < min || max < min ==> within(size, min, max) == min,
{
}

/// How the batch size follows the answers, where it does: an answer within a
/// second raises it by fifty, one after more than five seconds lowers it by a
/// hundred, and a failure by two hundred, as far as the limits allow; anything
/// between leaves it, and so does a limit that it has reached.
pub proof fn law_batch_size_follows_the_answers(scraper: Scraper, success: bool, millis: int)
    ensures
        ({
            let size = scraper.batch_size as int;
            let min = scraper.min_batch_size as int;
            let max = scraper.max_batch_size as int;
            let after = adapted(scraper, success, millis);
            &&& !scraper.adaptive_batch_size ==> after == size
            &&& scraper.adaptive_batch_size && success && millis < 1000 ==> {
                &&& size + 50 <= max ==> after == size + 50
                &&& size <= max < size + 50 ==> after == max
                &&& size >= max ==> after == size
            }
            &&& scraper.adaptive_batch_size && success && 1000 <= millis <= 5000 ==> after == size
            &&& scraper.adaptive_batch_size && success && millis > 5000 ==> {
                &&& size - 100 >= min ==> after == size - 100
                &&& size >= min > size - 100 ==> after == min
                &&& size <= min ==> after == size
            }
            &&& scraper.adaptive_batch_size && !success ==> {
                &&& size - 200 >= min ==> after == size - 200
                &&& size >= min > size - 200 ==> after == min
                &&& size <= min ==> after == size
            }
        }),
{
}

/// The wait before a request is tried again is one second at first, five after
/// errors of the server, and twice as long each time, until it reaches five
/// minutes, or ten.
pub proof fn law_backoff_doubles(n: nat)
    ensures
        backoff_secs(0) == 1,
        2 * backoff_secs(n) <= 300 ==> backoff_secs(n + 1) == 2 * backoff_secs(n),
        2 * backoff_secs(n) > 300 ==> backoff_secs(n + 1) == 300,
        server_backoff_secs(0) == 5,
        2 * server_backoff_secs(n) <= 600 ==> server_backoff_secs(n + 1) == 2
            * server_backoff_secs(n),
        2 * server_backoff_secs(n) > 600 ==> server_backoff_secs(n + 1) == 600,
{
    vstd::arithmetic::power2::lemma2_to64();
    vstd::arithmetic::power2::lemma_pow2_unfold(n + 1);
}

/// The wait before any request is no longer than it must be: it is the least
/// delay, or as many of it as there may be requests fit into a minute.
pub proof fn law_rate_limit_is_used(requests_per_minute: u32, min_delay: Span)
    requires
        requests_per_minute > 0,
    ensures
        request_delay_nanos(requests_per_minute, min_delay) == min_delay.spec_nanos()
            || request_delay_nanos(requests_per_minute, min_delay) * requests_per_minute
            <= 60_000_000_000,
{
    let n = requests_per_minute as int;
    let q = 60_000_000_000int / n;
    vstd::arithmetic::div_mod::lemma_fundamental_div_mod(60_000_000_000int, n);
    vstd::arithmetic::div_mod::lemma_mod_bound(60_000_000_000int, n);
    assert(q * n <= 60_000_000_000) by (nonlinear_arith)
        requires
            60_000_000_000 == n * q + 60_000_000_000int % n,
            60_000_000_000int % n >= 0,
    ;
}

/// What is asked of the directory: its export, with the count that the query
/// names or else the batch size, whatever that is; and behind it, where the query
/// names a time, that time to the second.
pub proof fn law_export_url(base_url: Seq<char>, batch_size: usize, query: ExportQuery)
    ensures
        query.count is None ==> spec_export_url(base_url, batch_size, query) == spec_export_url(
            base_url,
            batch_size,
            ExportQuery { count: Some(batch_size), ..query },
        ),
        query.count is Some && query.after is None ==> spec_export_url(base_url, batch_size, query)
            == base_url + "/export?count="@ + text::decimal(query.count->0 as int),
        query.after is Some ==> spec_export_url(base_url, batch_size, query) == spec_export_url(
            base_url,
            batch_size,
            ExportQuery { after: None, ..query },
        ) + "&after="@ + clock::to_the_second(
            query.after->0.spec_secs(),
            query.after->0.spec_nanos(),
        ),
{
    reveal_strlit("/export");
    reveal_strlit("?count=");
    reveal_strlit("/export?count=");
    assert("/export?count="@ =~= "/export"@ + "?count="@);
    if query.count is Some && query.after is None {
        let n = text::decimal(query.count->0 as int);
        assert(base_url + "/export"@ + "?count="@ + n =~= base_url + ("/export"@ + "?count="@)
            + n);
    }
}

/// The directory is well if and only if it answers with a success, and the
/// scraper runs at ten and eleven in the evening and from two to six in the
/// morning.
pub proof fn law_when_the_scraper_runs(status: Option<u16>, hour: int)
    ensures
        is_well(status) <==> (status is Some && status->0 / 100 == 2),
        0 <= hour < 24 ==> (runs_at_hour(hour) <==> (hour + 2) % 24 <= 1 || 4 <= (hour + 2) % 24
            <= 8),
{
}

/// What is said of how the scraper is doing, field by field.
pub proof fn law_health_field_by_field(scraper: Scraper)
    ensures
        ({
            let told = health(scraper);
            let breaker = scraper.circuit_breaker;
            let limits = json::field(told, "batch_size_limits"@);
            let rate = json::field(told, "rate_limit"@);
            let circuit = json::field(told, "circuit_breaker"@);
            &&& json::field(told, "circuit_breaker_state"@) == Some(
                JsonView::Text(breaker.state.spec_name()),
            )
            &&& json::field(told, "current_batch_size"@) == Some(
                JsonView::Number(json::number_of(scraper.batch_size as int)),
            )
            &&& json::field(told, "adaptive_batching"@) == Some(
                JsonView::Bool(scraper.adaptive_batch_size),
            )
            &&& limits is Some && json::field(limits->0, "min"@) == Some(
                JsonView::Number(json::number_of(scraper.min_batch_size as int)),
            )
            &&& json::field(limits->0, "max"@) == Some(
                JsonView::Number(json::number_of(scraper.max_batch_size as int)),
            )
            &&& rate is Some && json::field(rate->0, "requests_per_minute"@) == Some(
                JsonView::Number(json::number_of(scraper.requests_per_minute as int)),
            )
            &&& scraper.min_delay_between_requests.spec_nanos() / 1_000_000 <= u64::MAX
                ==> json::field(rate->0, "min_delay_ms"@) == Some(
                JsonView::Number(
                    json::number_of(
                        (scraper.min_delay_between_requests.spec_nanos() / 1_000_000) as int,
                    ),
                ),
            )
            &&& circuit is Some && json::field(circuit->0, "failure_count"@) == Some(
                JsonView::Number(json::number_of(breaker.failure_count as int)),
            )
            &&& json::field(circuit->0, "failure_threshold"@) == Some(
                JsonView::Number(json::number_of(breaker.failure_threshold as int)),
            )
            &&& json::field(circuit->0, "timeout_seconds"@) == Some(
                JsonView::Number(
                    json::number_of((breaker.timeout.spec_nanos() / 1_000_000_000) as int),
                ),
            )
        }),
{
    reveal_strlit("circuit_breaker_state");
    reveal_strlit("current_batch_size");
    reveal_strlit("adaptive_batching");
    reveal_strlit("batch_size_limits");
    reveal_strlit("rate_limit");
    reveal_strlit("circuit_breaker");
    reveal_strlit("min");
    reveal_strlit("max");
    reveal_strlit("requests_per_minute");
    reveal_strlit("min_delay_ms");
    reveal_strlit("failure_count");
    reveal_strlit("failure_threshold");
    reveal_strlit("timeout_seconds");
    assert("circuit_breaker_state"@.len() == 21);
    assert("current_batch_size"@.len() == 18);
    assert("adaptive_batching"@.len() == 17 && "adaptive_batching"@[0] == 'a');
    assert("batch_size_limits"@.len() == 17 && "batch_size_limits"@[0] == 'b');
    assert("rate_limit"@.len() == 10);
    assert("circuit_breaker"@.len() == 15);
    assert("min"@.len() == 3 && "min"@[1] == 'i');
    assert("max"@.len() == 3 && "max"@[1] == 'a');
    assert("requests_per_minute"@.len() == 19);
    assert("min_delay_ms"@.len() == 12);
    assert("failure_count"@.len() == 13);
    assert("failure_threshold"@.len() == 17);
    assert("timeout_seconds"@.len() == 15);
    assert forall|
        members: Seq<(Seq<char>, JsonView)>,
        name: Seq<char>,
        value: JsonView,
        looked_for: Seq<char>,
    | #[trigger] json::member(json::with_member(members, name, value), looked_for) == if looked_for
        == name {
        Some(value)
    } else {
        json::member(members, looked_for)
    } by {
        json::law_member_reads_back(members, name, value, looked_for);
    }
}

/// The longer a request is in vain, the longer the wait before it is tried
/// again: it never gets shorter, and stays within five minutes, or ten after
/// errors of the server.
pub proof fn law_backoff_grows(a: nat, b: nat)
    requires
        a <= b,
    ensures
        1 <= backoff_secs(a) <= backoff_secs(b) <= 300,
        5 <= server_backoff_secs(a) <= server_backoff_secs(b) <= 600,
{
    vstd::arithmetic::power2::lemma_pow2_pos(a);
    if a < b {
        vstd::arithmetic::power2::lemma_pow2_strictly_increases(a, b);
    }
}

/// The wait before any request is so long that the requests in a minute, one
/// after the other, are not more than allowed: that many waits, and one
/// nanosecond for each, fill a minute.
pub proof fn law_rate_limit_is_kept(requests_per_minute: u32, min_delay: Span)
    requires
        requests_per_minute > 0,
    ensures
        (request_delay_nanos(requests_per_minute, min_delay) + 1) * requests_per_minute
            > 60_000_000_000,
        request_delay_nanos(requests_per_minute, min_delay) >= min_delay.spec_nanos(),
{
    let n = requests_per_minute as int;
    let q = 60_000_000_000int / n;
    let d = request_delay_nanos(requests_per_minute, min_delay) as int;
    vstd::arithmetic::div_mod::lemma_fundamental_div_mod(60_000_000_000int, n);
    vstd::arithmetic::div_mod::lemma_mod_bound(60_000_000_000int, n);
    assert(n * (q + 1) > 60_000_000_000) by (nonlinear_arith)
        requires
            60_000_000_000 == n * q + 60_000_000_000int % n,
            60_000_000_000int % n < n,
    ;
    assert((d + 1) * n >= n * (q + 1)) by (nonlinear_arith)
        requires
            d >= q,
            n >= 0,
    ;
}

} // verus!

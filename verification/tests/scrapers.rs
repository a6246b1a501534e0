use plc_mirror::circuit::{CircuitBreaker, CircuitState};
use plc_mirror::clock::{Span, Timestamp};
use plc_mirror::models::ExportQuery;
use plc_mirror::request::{self, Attempt, Reply, RequestError, Verdict};
use plc_mirror::scraper::Scraper;

fn secs(n: u64) -> Span {
    Span::from_secs(n)
}

#[test]
fn a_breaker_opens_at_its_threshold() {
    let mut breaker = CircuitBreaker::new(3, secs(300));
    assert_eq!(*breaker.get_state(), CircuitState::Closed);
    breaker.record_failure();
    breaker.record_failure();
    breaker.record_success();
    assert_eq!(breaker.failure_count, 0);
    breaker.record_failure();
    breaker.record_failure();
    assert_eq!(*breaker.get_state(), CircuitState::Closed);
    assert!(breaker.can_execute());
    breaker.record_failure();
    assert_eq!(*breaker.get_state(), CircuitState::Open);
    assert!(!breaker.can_execute());
}

#[test]
fn a_breaker_of_no_failures_opens_at_the_first() {
    let mut breaker = CircuitBreaker::new(0, secs(1));
    assert!(breaker.can_execute());
    breaker.record_failure();
    assert_eq!(breaker.state, CircuitState::Open);
}

#[test]
fn an_open_breaker_waits_for_its_timeout() {
    let mut breaker = CircuitBreaker::new(1, secs(10));
    breaker.record_failure();
    breaker.record_success();
    assert_eq!(breaker.state, CircuitState::Open);
    assert!(!breaker.can_execute_after(secs(10)));
    assert!(breaker.can_execute_after(Span::from_millis(10_001)));
    assert_eq!(breaker.state, CircuitState::HalfOpen);
    assert!(breaker.can_execute_after(secs(0)));
    breaker.record_failure();
    assert_eq!(breaker.state, CircuitState::Open);
    assert_eq!(breaker.failure_count, 2);
    assert!(breaker.can_execute_after(secs(11)));
    breaker.record_success();
    assert_eq!(breaker.state, CircuitState::Closed);
    assert_eq!(breaker.failure_count, 0);
    assert!(breaker.last_failure_time.is_none());
}

#[test]
fn a_breaker_without_timeout_lets_a_request_through_after_a_while() {
    let mut breaker = CircuitBreaker::new(1, secs(0));
    breaker.record_failure();
    let start = std::time::Instant::now();
    while start.elapsed().as_millis() < 5 {}
    assert!(breaker.can_execute());
    assert_eq!(breaker.state, CircuitState::HalfOpen);
}

#[test]
fn the_last_failure_is_so_long_ago_as_the_clock_says() {
    let mut breaker = CircuitBreaker::new(1, secs(10));
    assert_eq!(breaker.since_failure().as_nanos(), 0);
    let now = tokio::time::Instant::now();
    if let Some(before) = now.checked_sub(std::time::Duration::from_secs(11)) {
        breaker.record_failure_at(before);
        let ago = breaker.since_failure();
        assert!((11..60).contains(&ago.as_secs()));
        assert!(breaker.can_execute());
        assert_eq!(breaker.state, CircuitState::HalfOpen);
    }
    breaker.record_failure_at(now + std::time::Duration::from_secs(3600));
    assert_eq!(breaker.since_failure().as_nanos(), 0);
    assert!(!breaker.can_execute());
}

#[test]
fn a_breaker_that_failed_long_ago_recovers() {
    let mut breaker = CircuitBreaker::new(1, Span::from_millis(1));
    breaker.record_failure();
    assert_eq!(breaker.state, CircuitState::Open);
    let start = std::time::Instant::now();
    while start.elapsed().as_millis() < 10 {}
    assert!(breaker.since_failure().as_millis() >= 10);
    assert!(breaker.can_execute());
    let mut scraper = Scraper::new();
    scraper.circuit_breaker = CircuitBreaker::new(1, Span::from_millis(1));
    scraper.circuit_breaker.record_failure();
    let start = std::time::Instant::now();
    while start.elapsed().as_millis() < 10 {}
    assert!(scraper.begin_request().is_ok());
}

#[test]
fn the_scraper_starts_respectfully() {
    let scraper = Scraper::new();
    assert_eq!(scraper.base_url, "https://plc.directory");
    assert_eq!(scraper.user_agent, "PLC-Mirror/1.0 (Respectful scraper)");
    assert_eq!(scraper.batch_size, 500);
    assert_eq!(scraper.max_retries, 3);
    let (rate, delay) = scraper.get_rate_limit_info();
    assert_eq!(rate, 30);
    assert_eq!(delay.as_millis(), 2000);
    assert_eq!(scraper.calculate_request_delay().as_millis(), 2000);
    assert_eq!(scraper.circuit_breaker.failure_threshold, 3);
    assert_eq!(scraper.circuit_breaker.timeout.as_secs(), 300);
}

#[test]
fn the_delay_keeps_the_rate_and_the_least_delay() {
    let mut scraper = Scraper::new();
    scraper.set_rate_limit(10, 500);
    assert_eq!(scraper.calculate_request_delay().as_millis(), 6000);
    scraper.set_rate_limit(600, 500);
    assert_eq!(scraper.calculate_request_delay().as_millis(), 500);
    scraper.set_rate_limit(7, 0);
    assert_eq!(scraper.calculate_request_delay().as_nanos(), 8_571_428_571);
}

#[test]
fn waits_double_up_to_their_limits() {
    let scraper = Scraper::new();
    let waits: Vec<u64> = (0..11).map(|n| scraper.calculate_backoff_delay(n).as_secs()).collect();
    assert_eq!(waits, vec![1, 2, 4, 8, 16, 32, 64, 128, 256, 300, 300]);
    let waits: Vec<u64> =
        (0..9).map(|n| scraper.calculate_server_error_backoff(n).as_secs()).collect();
    assert_eq!(waits, vec![5, 10, 20, 40, 80, 160, 320, 600, 600]);
    for n in 0..40u32 {
        let delay = (1.0f64 * 2.0f64.powi(n as i32)).min(300.0);
        assert_eq!(scraper.calculate_backoff_delay(n).as_secs() as f64, delay);
        let delay = (5.0f64 * 2.0f64.powi(n as i32)).min(600.0);
        assert_eq!(scraper.calculate_server_error_backoff(n).as_secs() as f64, delay);
    }
    assert_eq!(scraper.calculate_backoff_delay(i32::MAX as u32).as_secs(), 300);
    assert_eq!(scraper.calculate_backoff_delay(u32::MAX).as_secs(), 300);
    assert_eq!(scraper.calculate_server_error_backoff(u32::MAX).as_secs(), 600);
}

#[test]
fn the_batch_size_follows_how_the_directory_answers() {
    let mut scraper = Scraper::new();
    scraper.adapt_batch_size(true, Span::from_millis(999));
    assert_eq!(scraper.batch_size, 550);
    scraper.adapt_batch_size(true, Span::from_millis(1000));
    assert_eq!(scraper.batch_size, 550);
    scraper.adapt_batch_size(true, Span::from_millis(5000));
    assert_eq!(scraper.batch_size, 550);
    scraper.adapt_batch_size(true, Span::from_millis(5001));
    assert_eq!(scraper.batch_size, 450);
    scraper.adapt_batch_size(false, Span::from_millis(1));
    assert_eq!(scraper.batch_size, 250);
    scraper.adapt_batch_size(false, Span::from_millis(1));
    assert_eq!(scraper.batch_size, 100);
    scraper.adapt_batch_size(false, Span::from_millis(1));
    assert_eq!(scraper.batch_size, 100);
    scraper.set_batch_size(980);
    scraper.adapt_batch_size(true, secs(0));
    assert_eq!(scraper.batch_size, 1000);
    scraper.adapt_batch_size(true, secs(0));
    assert_eq!(scraper.batch_size, 1000);
    scraper.set_adaptive_batching(false);
    scraper.adapt_batch_size(false, secs(0));
    assert_eq!(scraper.batch_size, 1000);
}

#[test]
fn the_batch_size_is_lowered_to_its_minimum_and_raised_to_its_maximum() {
    let mut scraper = Scraper::new();
    scraper.set_batch_size(150);
    scraper.adapt_batch_size(false, Span::from_millis(0));
    assert_eq!(scraper.batch_size, 100);
    scraper.set_batch_size(150);
    scraper.adapt_batch_size(true, secs(6));
    assert_eq!(scraper.batch_size, 100);
    scraper.set_batch_size_limits(10, 1000);
    scraper.set_batch_size(50);
    scraper.adapt_batch_size(true, secs(6));
    assert_eq!(scraper.batch_size, 10);
    scraper.set_batch_size(250);
    scraper.adapt_batch_size(false, secs(0));
    assert_eq!(scraper.batch_size, 50);
    scraper.set_batch_size_limits(0, usize::MAX);
    scraper.set_batch_size(3);
    scraper.adapt_batch_size(false, secs(0));
    assert_eq!(scraper.batch_size, 0);
    scraper.set_batch_size(usize::MAX - 49);
    scraper.adapt_batch_size(true, secs(0));
    assert_eq!(scraper.batch_size, usize::MAX);
}

#[test]
fn the_batch_size_is_put_within_its_limits() {
    let mut scraper = Scraper::new();
    scraper.set_batch_size(5);
    assert_eq!(scraper.batch_size, 100);
    scraper.set_batch_size(5000);
    assert_eq!(scraper.batch_size, 1000);
    scraper.set_batch_size_limits(200, 800);
    assert_eq!(scraper.batch_size, 800);
    scraper.set_batch_size_limits(900, 300);
    assert_eq!(scraper.batch_size, 900);
}

#[test]
fn the_export_is_asked_for_by_count_and_cursor() {
    let scraper = Scraper::new();
    let query = ExportQuery { count: None, after: None };
    assert_eq!(scraper.export_url(&query), "https://plc.directory/export?count=500");
    let query =
        ExportQuery { count: Some(77), after: Timestamp::new(1_704_164_645, 999_000_000) };
    assert_eq!(
        scraper.export_url(&query),
        "https://plc.directory/export?count=77&after=2024-01-02T03:04:05Z"
    );
    assert_eq!(scraper.health_url(), "https://plc.directory/");
}

#[test]
fn the_scraper_runs_in_the_night() {
    let scraper = Scraper::new();
    for hour in 0..24i64 {
        let now = Timestamp::new(1_704_067_200 + hour * 3600 + 1800, 0).unwrap();
        let expected = matches!(hour, 2..=6 | 22..=23);
        assert_eq!(scraper.should_run_at(now), expected);
    }
    let hour = chrono::Timelike::hour(&chrono::Utc::now());
    let now = scraper.should_run_now();
    let later = chrono::Timelike::hour(&chrono::Utc::now());
    assert!(hour != later || now == matches!(hour, 2..=6 | 22..=23));
}

#[test]
fn the_health_of_the_scraper_is_told() {
    let mut scraper = Scraper::new();
    scraper.circuit_breaker.record_failure();
    let expected = r#"{"adaptive_batching":true,"batch_size_limits":{"max":1000,"min":100},"circuit_breaker":{"failure_count":1,"failure_threshold":3,"timeout_seconds":300},"circuit_breaker_state":"Closed","current_batch_size":500,"rate_limit":{"min_delay_ms":2000,"requests_per_minute":30}}"#;
    assert_eq!(scraper.get_health_status().to_text(), expected);
    scraper.set_circuit_breaker_config(1, 60);
    scraper.circuit_breaker.record_failure();
    let text = scraper.get_health_status().to_text();
    assert!(text.contains("\"circuit_breaker_state\":\"Open\""));
    assert!(text.contains("\"timeout_seconds\":60"));
    scraper.reset_circuit_breaker();
    let text = scraper.get_health_status().to_text();
    assert!(text.contains("\"circuit_breaker_state\":\"Closed\""));
    assert!(text.contains("\"failure_count\":0,\"failure_threshold\":1"));
}

#[test]
fn the_health_of_the_directory_moves_the_breaker() {
    let mut scraper = Scraper::new();
    assert!(!scraper.check_server_health(None));
    assert!(!scraper.check_server_health(Some(503)));
    assert!(!scraper.check_server_health(Some(300)));
    assert_eq!(scraper.circuit_breaker.state, CircuitState::Open);
    let mut scraper = Scraper::new();
    assert!(!scraper.check_server_health(Some(199)));
    assert!(scraper.check_server_health(Some(204)));
    assert_eq!(scraper.circuit_breaker.failure_count, 0);
    assert!(scraper.run_single_sync_with_health_check(Some(200)).is_ok());
    let error = scraper.run_single_sync_with_health_check(Some(404)).unwrap_err();
    assert_eq!(error.message(), "Server health check failed, skipping sync");
}

/// Sends a request with these replies; gives what came of it, the waits in
/// milliseconds, and how often it was sent.
fn drive(scraper: &mut Scraper, replies: Vec<Reply>) -> (Result<(), RequestError>, Vec<u128>, usize) {
    let mut waits: Vec<u128> = Vec::new();
    let mut sent = 0;
    let mut replies = replies.into_iter();
    let mut run = match scraper.begin_request() {
        Ok(run) => run,
        Err(error) => return (Err(error), waits, sent),
    };
    loop {
        match scraper.next_attempt(run) {
            Attempt::GiveUp(error) => return (Err(error), waits, sent),
            Attempt::Send { sending, backoff, delay } => {
                if let Some(wait) = backoff {
                    waits.push(wait.as_millis());
                }
                waits.push(delay.as_millis());
                sent += 1;
                match scraper.reply(sending, replies.next().unwrap()) {
                    Verdict::Accept => return (Ok(()), waits, sent),
                    Verdict::Fail(error) => return (Err(error), waits, sent),
                    Verdict::Retry { run: next, pause } => {
                        if let Some(wait) = pause {
                            waits.push(wait.as_millis());
                        }
                        run = next;
                    }
                }
            }
        }
    }
}

#[test]
fn an_open_breaker_lets_a_request_through_after_its_timeout() {
    let mut scraper = Scraper::new();
    scraper.set_circuit_breaker_config(1, 10);
    scraper.circuit_breaker.record_failure();
    assert!(matches!(scraper.begin_request_after(secs(10)), Err(RequestError::CircuitOpen)));
    assert_eq!(scraper.circuit_breaker.state, CircuitState::Open);
    assert!(scraper.begin_request_after(Span::from_millis(10_001)).is_ok());
    assert_eq!(scraper.circuit_breaker.state, CircuitState::HalfOpen);
}

#[test]
fn a_success_is_taken_whatever_was_counted() {
    let mut scraper = Scraper::new();
    scraper.circuit_breaker.failure_count = u32::MAX;
    assert!(scraper.check_server_health(Some(200)));
    assert_eq!(scraper.circuit_breaker.failure_count, 0);
    assert!(!Reply::Status(200).counts_as_failure());
    assert!(!Reply::Status(429).counts_as_failure());
    assert!(Reply::Status(500).counts_as_failure());
    assert!(Reply::Status(599).counts_as_failure());
    assert!(!Reply::Status(600).counts_as_failure());
    assert!(Reply::Network(String::new()).counts_as_failure());
}

#[test]
fn a_failed_health_check_counts_from_its_time() {
    let mut scraper = Scraper::new();
    let now = tokio::time::Instant::now();
    assert!(!scraper.check_server_health_at(Some(500), now));
    assert_eq!(scraper.circuit_breaker.last_failure_time, Some(now));
    assert!(scraper.run_single_sync_with_health_check_at(None, now).is_err());
    assert_eq!(scraper.circuit_breaker.failure_count, 2);
    assert!(scraper.run_single_sync_with_health_check_at(Some(299), now).is_ok());
    assert_eq!(scraper.circuit_breaker.failure_count, 0);
}

#[test]
fn a_request_that_goes_well_is_sent_once() {
    let mut scraper = Scraper::new();
    scraper.circuit_breaker.record_failure();
    let (result, waits, sent) = drive(&mut scraper, vec![Reply::Status(299)]);
    assert!(result.is_ok());
    assert_eq!(waits, vec![2000]);
    assert_eq!(sent, 1);
    assert_eq!(scraper.circuit_breaker.failure_count, 0);
}

#[test]
fn errors_of_the_server_are_waited_out() {
    let mut scraper = Scraper::new();
    scraper.set_circuit_breaker_config(10, 300);
    let replies = vec![Reply::Status(500), Reply::Status(599), Reply::Status(200)];
    let (result, waits, _) = drive(&mut scraper, replies);
    assert!(result.is_ok());
    assert_eq!(waits, vec![2000, 10_000, 2000, 2000, 20_000, 4000, 2000]);
    let replies = vec![Reply::Status(500), Reply::Status(502), Reply::Status(503)];
    let (result, _, sent) = drive(&mut scraper, replies);
    assert_eq!(sent, 3);
    assert_eq!(result.unwrap_err().message(), "Server error: 503 Service Unavailable");
    assert_eq!(scraper.circuit_breaker.failure_count, 3);
}

#[test]
fn too_many_errors_of_the_server_are_too_many() {
    let mut scraper = Scraper::new();
    scraper.max_retries = 9;
    scraper.set_circuit_breaker_config(100, 300);
    let replies: Vec<Reply> = (0..9).map(|_| Reply::Status(500)).collect();
    let (result, waits, sent) = drive(&mut scraper, replies);
    assert_eq!(sent, 5);
    assert_eq!(result.unwrap_err().message(), "Too many server errors (5), giving up");
    assert_eq!(
        waits,
        vec![2000, 10_000, 2000, 2000, 20_000, 4000, 2000, 40_000, 8000, 2000, 80_000, 16_000, 2000]
    );
}

#[test]
fn a_limit_on_the_rate_is_waited_out() {
    let mut scraper = Scraper::new();
    let replies = vec![Reply::Status(429), Reply::Status(429), Reply::Status(429)];
    let (result, waits, sent) = drive(&mut scraper, replies);
    assert_eq!(sent, 3);
    assert_eq!(result.unwrap_err().message(), "Rate limited: 429");
    assert_eq!(waits, vec![2000, 4000, 2000, 2000, 8000, 4000, 2000, 16_000]);
    assert_eq!(scraper.circuit_breaker.failure_count, 0);
}

#[test]
fn a_limit_on_the_rate_is_waited_out_for_five_minutes_at_most() {
    let mut scraper = Scraper::new();
    scraper.max_retries = u32::MAX;
    let replies: Vec<Reply> = (0..12).map(|_| Reply::Status(429)).chain([Reply::Status(200)]).collect();
    let (result, waits, sent) = drive(&mut scraper, replies);
    assert!(result.is_ok());
    assert_eq!(sent, 13);
    let pauses: Vec<u128> = waits.into_iter().filter(|w| *w > 256_000).collect();
    assert_eq!(pauses, vec![300_000; 9]);
}

#[test]
fn an_error_of_the_request_is_final() {
    let mut scraper = Scraper::new();
    let (result, _, sent) = drive(&mut scraper, vec![Reply::Status(404)]);
    assert_eq!(sent, 1);
    assert_eq!(result.unwrap_err().message(), "Client error (404): Not Found");
    let (result, _, _) = drive(&mut scraper, vec![Reply::Status(499)]);
    assert_eq!(result.unwrap_err().message(), "Client error (499): Unknown");
}

#[test]
fn other_answers_and_silence_are_tried_again() {
    let mut scraper = Scraper::new();
    let replies = vec![Reply::Status(302), Reply::Status(199), Reply::Status(777)];
    let (result, waits, _) = drive(&mut scraper, replies);
    assert_eq!(result.unwrap_err().message(), "Unexpected status: 777 <unknown status code>");
    assert_eq!(waits, vec![2000, 2000, 2000, 4000, 2000]);
    assert_eq!(scraper.circuit_breaker.failure_count, 0);
    let silence = || Reply::Network("timed out".to_string());
    let (result, _, _) = drive(&mut scraper, vec![silence(), silence(), silence()]);
    assert_eq!(result.unwrap_err().message(), "Network error: timed out");
    assert_eq!(scraper.circuit_breaker.state, CircuitState::Open);
    let (result, _, sent) = drive(&mut scraper, vec![]);
    assert_eq!(sent, 0);
    assert_eq!(result.unwrap_err().message(), "Circuit breaker is open, skipping request");
}

#[test]
fn a_request_that_may_not_be_tried_is_not() {
    let mut scraper = Scraper::new();
    scraper.max_retries = 0;
    let (result, waits, _) = drive(&mut scraper, vec![]);
    assert!(waits.is_empty());
    assert_eq!(result.unwrap_err().message(), "Max retries exceeded");
}

#[test]
fn a_failing_server_opens_the_breaker_within_one_request() {
    let mut scraper = Scraper::new();
    let replies = vec![Reply::Status(500), Reply::Status(500), Reply::Status(500)];
    let (result, _, _) = drive(&mut scraper, replies);
    assert!(matches!(result, Err(RequestError::Server(500))));
    assert_eq!(scraper.circuit_breaker.state, CircuitState::Open);
}

#[test]
fn a_status_is_shown_with_its_reason() {
    assert_eq!(request::show_status(200), "200 OK");
    assert_eq!(request::show_status(418), "418 I'm a teapot");
    assert_eq!(request::show_status(600), "600 <unknown status code>");
    assert_eq!(request::show_status(5), "5 <unknown status code>");
    for code in 100..1000u16 {
        assert_eq!(request::show_status(code), reqwest::StatusCode::from_u16(code).unwrap().to_string());
    }
}

#[test]
fn the_directory_is_described() {
    assert_eq!(
        Scraper::get_server_info(Ok((200, Some("nginx".to_string())))).unwrap(),
        "Status: 200 OK, Server: nginx"
    );
    assert_eq!(
        Scraper::get_server_info(Ok((204, None))).unwrap(),
        "Status: 204 No Content, Server: unknown"
    );
    assert_eq!(
        Scraper::get_server_info(Err(RequestError::Client(403))).unwrap_err(),
        "Failed to get server info: Client error (403): Forbidden"
    );
}

#[test]
fn an_answer_may_ask_for_a_wait() {
    assert_eq!(request::retry_after("120").unwrap().as_secs(), 120);
    assert!(request::retry_after("Wed, 21 Oct 2015 07:28:00 GMT").is_none());
    assert!(request::retry_after("-1").is_none());
    assert!(request::retry_after("").is_none());
    assert_eq!(request::retry_after("18446744073709551615").unwrap().as_secs(), u64::MAX);
}

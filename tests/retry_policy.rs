use tmdb2seer::status::{get_status_code, nth_word_of, parse_u16_chars, response_outcome};
use tmdb2seer::{Error, RetryConfig, RetryStep};

fn config(max_retries: u32, initial: u64, max: u64) -> RetryConfig {
    RetryConfig { max_retries, initial_delay_ms: initial, max_delay_ms: max }
}

fn api_error(status: u16) -> Error {
    match response_outcome(status, "upstream says no".to_string()) {
        Err(e) => e,
        Ok(_) => panic!("a {} response is a failure", status),
    }
}

#[test]
fn two_transient_failures_then_success() {
    let cfg = config(3, 100, 1000);
    let outcomes: Vec<Result<&str, Error>> =
        vec![Err(api_error(503)), Err(api_error(503)), Ok("payload")];
    let mut delays = Vec::new();
    let mut attempt: u32 = 0;
    let mut outcomes = outcomes.into_iter();
    let result = loop {
        match outcomes.next().expect("no more attempts were made") {
            Ok(v) => break Ok(v),
            Err(e) => match cfg.next_step(attempt, &e) {
                RetryStep::RetryAfter(d) => {
                    delays.push(d);
                    attempt += 1;
                }
                RetryStep::GiveUp => break Err(e),
            },
        }
    };
    assert!(matches!(result, Ok("payload")));
    assert_eq!(delays, vec![100, 200]);
}

#[test]
fn not_found_is_returned_at_once() {
    let cfg = config(3, 100, 1000);
    let err = api_error(404);
    assert_eq!(cfg.next_step(0, &err), RetryStep::GiveUp);
}

#[test]
fn retries_stop_when_exhausted() {
    let cfg = config(2, 100, 1000);
    let err = api_error(502);
    assert_eq!(cfg.next_step(0, &err), RetryStep::RetryAfter(100));
    assert_eq!(cfg.next_step(1, &err), RetryStep::RetryAfter(200));
    assert_eq!(cfg.next_step(2, &err), RetryStep::GiveUp);
}

#[test]
fn failure_without_status_is_not_retried() {
    let cfg = config(3, 100, 1000);
    let err = Error::Parse("Failed to parse response: expected value".to_string());
    assert_eq!(cfg.next_step(0, &err), RetryStep::GiveUp);
    let err = Error::Request("connection refused".to_string());
    assert_eq!(cfg.next_step(0, &err), RetryStep::GiveUp);
}

#[test]
fn backoff_doubles_up_to_the_ceiling() {
    let cfg = RetryConfig::default();
    assert_eq!(cfg.max_retries, 3);
    assert_eq!(cfg.calculate_delay(1), 500);
    assert_eq!(cfg.calculate_delay(2), 1000);
    assert_eq!(cfg.calculate_delay(3), 2000);
    assert_eq!(cfg.calculate_delay(4), 4000);
    assert_eq!(cfg.calculate_delay(5), 5000);
    assert_eq!(cfg.calculate_delay(64), 5000);
    assert_eq!(cfg.calculate_delay(u32::MAX), 5000);
    let huge = config(1, u64::MAX / 2 + 1, u64::MAX);
    assert_eq!(huge.calculate_delay(2), u64::MAX);
    let zero = config(1, 0, 10);
    assert_eq!(zero.calculate_delay(1000), 0);
}

#[test]
fn retryable_statuses() {
    let cfg = RetryConfig::default();
    for s in [408u16, 429, 502, 503, 504] {
        assert!(cfg.should_retry(s));
    }
    for s in [200u16, 400, 401, 404, 500, 501, 505] {
        assert!(!cfg.should_retry(s));
    }
}

#[test]
fn status_read_from_api_errors() {
    assert_eq!(get_status_code(&api_error(503)), Some(503));
    assert_eq!(get_status_code(&api_error(429)), Some(429));
    assert_eq!(
        get_status_code(&Error::Api("Request failed: +504 Gateway Timeout - x".to_string())),
        Some(504)
    );
    assert_eq!(get_status_code(&Error::Api("Request failed: 99 Odd - x".to_string())), None);
    assert_eq!(get_status_code(&Error::Api("Request failed: 70000 - x".to_string())), None);
    assert_eq!(get_status_code(&Error::Api("Request failed:".to_string())), None);
    assert_eq!(get_status_code(&Error::Api("  a\tb\n 408 x".to_string())), Some(408));
    assert_eq!(get_status_code(&Error::Request("Request failed: 503 x".to_string())), None);
}

#[test]
fn response_outcome_by_status() {
    match response_outcome(200, "{\"a\":1}".to_string()) {
        Ok(body) => assert_eq!(body, "{\"a\":1}"),
        Err(_) => panic!("2xx is a success"),
    }
    match response_outcome(404, "nope".to_string()) {
        Err(Error::Api(m)) => assert_eq!(m, "Request failed: 404 Not Found - nope"),
        _ => panic!("404 is a failure"),
    }
    match response_outcome(599, "".to_string()) {
        Err(Error::Api(m)) => assert_eq!(m, "Request failed: 599 <unknown status code> - "),
        _ => panic!("599 is a failure"),
    }
}

#[test]
fn words_and_numbers() {
    let chars: Vec<char> = "  one two\u{3000}three ".chars().collect();
    assert_eq!(nth_word_of(&chars, 0), Some("one".chars().collect()));
    assert_eq!(nth_word_of(&chars, 2), Some("three".chars().collect()));
    assert_eq!(nth_word_of(&chars, 3), None);
    let p = |s: &str| parse_u16_chars(&s.chars().collect());
    assert_eq!(p("65535"), Some(65535));
    assert_eq!(p("65536"), None);
    assert_eq!(p("+7"), Some(7));
    assert_eq!(p("+"), None);
    assert_eq!(p(""), None);
    assert_eq!(p("-1"), None);
    assert_eq!(p("00042"), Some(42));
    assert_eq!(p("4a"), None);
}

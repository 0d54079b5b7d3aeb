use codex_api::error::TransportError;
use codex_api::retry::{
    after_failure, backoff, retry_after_delay, retry_delay, Backoff, RetryOn, RetryPolicy,
    MAX_RETRY_AFTER_SECS,
};
use http::{HeaderMap, HeaderValue, StatusCode};
use std::time::Duration;

fn http_429(retry_after: Option<&str>) -> TransportError {
    http_err(StatusCode::TOO_MANY_REQUESTS, retry_after)
}

fn http_err(status: StatusCode, retry_after: Option<&str>) -> TransportError {
    let mut headers = HeaderMap::new();
    if let Some(value) = retry_after {
        headers.insert("retry-after", HeaderValue::from_str(value).unwrap());
    }
    TransportError::Http {
        status: status.as_u16(),
        url: None,
        headers: Some(headers),
        body: None,
    }
}

fn retry_on(retry_429: bool, retry_5xx: bool, retry_transport: bool) -> RetryOn {
    RetryOn { retry_429, retry_5xx, retry_transport }
}

fn raw(base: Duration, attempt: u64) -> u64 {
    match backoff(base, attempt) {
        Backoff::Jittered { raw_millis } => raw_millis,
        Backoff::Exact(_) => panic!("expected a jittered backoff"),
    }
}

/// Tries until an attempt succeeds or is given up, without waiting.
fn tries(policy: &RetryPolicy, op: impl Fn(u64) -> Result<u64, TransportError>) -> (u64, Result<u64, TransportError>) {
    let mut attempt: u64 = 0;
    loop {
        match op(attempt) {
            Ok(value) => return (attempt + 1, Ok(value)),
            Err(err) => {
                if after_failure(policy, &err, attempt).is_none() {
                    return (attempt + 1, Err(err));
                }
            }
        }
        attempt += 1;
    }
}

#[test]
fn parses_retry_after_seconds_on_429() {
    assert_eq!(
        retry_after_delay(&http_429(Some("5"))),
        Some(Duration::from_secs(5))
    );
}

#[test]
fn caps_retry_after_at_max() {
    assert_eq!(
        retry_after_delay(&http_429(Some("3600"))),
        Some(Duration::from_secs(MAX_RETRY_AFTER_SECS))
    );
    assert_eq!(MAX_RETRY_AFTER_SECS, 60);
}

#[test]
fn missing_retry_after_returns_none() {
    assert_eq!(retry_after_delay(&http_429(None)), None);
}

#[test]
fn no_headers_returns_none() {
    let err = TransportError::Http {
        status: StatusCode::TOO_MANY_REQUESTS.as_u16(),
        url: None,
        headers: None,
        body: None,
    };
    assert_eq!(retry_after_delay(&err), None);
}

#[test]
fn non_429_ignores_retry_after() {
    assert_eq!(
        retry_after_delay(&http_err(StatusCode::INTERNAL_SERVER_ERROR, Some("5"))),
        None
    );
}

#[test]
fn malformed_retry_after_returns_none() {
    assert_eq!(
        retry_after_delay(&http_429(Some("Wed, 21 Oct 2025 07:28:00 GMT"))),
        None
    );
    assert_eq!(retry_after_delay(&http_429(Some("soon"))), None);
}

#[test]
fn retry_delay_takes_max_of_backoff_and_retry_after() {
    let policy = RetryPolicy {
        max_attempts: 4,
        base_delay: Duration::from_millis(100),
        retry_on: RetryOn {
            retry_429: true,
            retry_5xx: false,
            retry_transport: false,
        },
    };
    let err = http_429(Some("2"));
    match after_failure(&policy, &err, 0) {
        Some(Backoff::Jittered { raw_millis }) => {
            assert_eq!(raw_millis, 100);
            assert_eq!(
                retry_delay(&err, Duration::from_millis(raw_millis)),
                Duration::from_secs(2)
            );
        }
        other => panic!("expected a retry, got {other:?}"),
    }
}

#[test]
fn retries_429_then_succeeds() {
    let policy = RetryPolicy {
        max_attempts: 3,
        base_delay: Duration::from_millis(1),
        retry_on: retry_on(true, false, false),
    };
    let (attempts, result) = tries(&policy, |n| {
        if n == 0 {
            Err(http_429(Some("0")))
        } else {
            Ok(42u64)
        }
    });
    let value = result.unwrap();
    assert_eq!(value, 42);
    assert_eq!(attempts, 2);
}

#[test]
fn does_not_retry_429_when_disabled() {
    let policy = RetryPolicy {
        max_attempts: 3,
        base_delay: Duration::from_millis(1),
        retry_on: retry_on(false, false, false),
    };
    let (attempts, result) = tries(&policy, |_| Err(http_429(Some("0"))));
    assert!(matches!(
        result,
        Err(TransportError::Http { status, .. }) if status == StatusCode::TOO_MANY_REQUESTS.as_u16()
    ));
    assert_eq!(attempts, 1);
}

#[test]
fn attempts_are_limited_by_the_policy() {
    for max_attempts in [0u64, 1, 5] {
        let policy = RetryPolicy {
            max_attempts,
            base_delay: Duration::from_millis(1),
            retry_on: retry_on(true, true, true),
        };
        let (attempts, result) = tries(&policy, |_| Err(TransportError::Timeout));
        assert_eq!(attempts, max_attempts + 1);
        assert_eq!(result, Err(TransportError::Timeout));
    }
}

#[test]
fn each_failure_is_retried_by_its_switch() {
    let network = TransportError::Network("down".into());
    for (switches, err, expected) in [
        (retry_on(true, false, false), http_429(None), true),
        (retry_on(false, true, true), http_429(None), false),
        (retry_on(false, true, false), http_err(StatusCode::INTERNAL_SERVER_ERROR, None), true),
        (retry_on(true, false, true), http_err(StatusCode::BAD_GATEWAY, None), false),
        (retry_on(true, true, true), http_err(StatusCode::BAD_REQUEST, None), false),
        (retry_on(false, false, true), TransportError::Timeout, true),
        (retry_on(false, false, true), network.clone(), true),
        (retry_on(true, true, false), network, false),
        (retry_on(true, true, true), TransportError::Build("b".into()), false),
        (retry_on(true, true, true), TransportError::RetryLimit, false),
    ] {
        assert_eq!(switches.should_retry(&err, 0, 1), expected, "{err:?}");
        assert!(!switches.should_retry(&err, 1, 1));
    }
    let edge = |status: u16| TransportError::Http { status, url: None, headers: None, body: None };
    let servers = retry_on(false, true, false);
    assert!(servers.should_retry(&edge(599), 0, 1));
    assert!(!servers.should_retry(&edge(600), 0, 1));
    assert!(!servers.should_retry(&edge(499), 0, 1));
}

#[test]
fn backoff_doubles_and_saturates() {
    let base = Duration::from_millis(100);
    assert!(matches!(backoff(base, 0), Backoff::Exact(d) if d == base));
    assert_eq!(raw(base, 1), 100);
    assert_eq!(raw(base, 2), 200);
    assert_eq!(raw(base, 5), 1600);
    assert_eq!(raw(Duration::from_millis(1), 64), 1 << 63);
    assert_eq!(raw(Duration::from_millis(1), 65), u64::MAX);
    assert_eq!(raw(Duration::from_millis(3), 64), u64::MAX);
    assert_eq!(raw(Duration::from_micros(1999), 1), 1);
    assert_eq!(raw(Duration::from_micros(999), 60), 0);
    assert_eq!(raw(base, (1 << 32) + 2), 200);
    for attempt in 1..70u64 {
        assert!(raw(base, attempt) <= raw(base, attempt + 1));
    }
}

#[test]
fn long_base_delay_wraps_at_64_bits() {
    let base = Duration::from_secs(u64::MAX);
    let expected = ((u64::MAX as u128 * 1000) % (1u128 << 64)) as u64;
    assert_eq!(raw(base, 1), expected);
}

#[test]
fn retry_after_is_trimmed_and_plain() {
    let seconds = |text: &str| retry_after_delay(&http_429(Some(text)));
    assert_eq!(seconds(" 7\t"), Some(Duration::from_secs(7)));
    assert_eq!(seconds("+7"), Some(Duration::from_secs(7)));
    assert_eq!(seconds("0007"), Some(Duration::from_secs(7)));
    assert_eq!(seconds("0"), Some(Duration::ZERO));
    assert_eq!(seconds("60"), Some(Duration::from_secs(60)));
    assert_eq!(seconds("61"), Some(Duration::from_secs(60)));
    assert_eq!(seconds("18446744073709551615"), Some(Duration::from_secs(60)));
    assert_eq!(seconds("18446744073709551616"), None);
    assert_eq!(seconds("-1"), None);
    assert_eq!(seconds("1.5"), None);
    assert_eq!(seconds(""), None);
    assert_eq!(seconds("+"), None);
    assert_eq!(seconds("1 2"), None);
}

#[test]
fn longer_backoff_wins_over_the_server() {
    let backoff = Duration::from_millis(2500);
    assert_eq!(retry_delay(&http_429(Some("2")), backoff), backoff);
    assert_eq!(retry_delay(&http_429(Some("3")), backoff), Duration::from_secs(3));
    assert_eq!(retry_delay(&http_429(None), backoff), backoff);
    assert_eq!(retry_delay(&TransportError::Timeout, backoff), backoff);
}

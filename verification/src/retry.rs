//! When a failed request is sent again, and how long to wait before that.
use crate::error::TransportError;
use crate::headers::{header_lines, header_text, is_lower_header_name, text_header};
use crate::text::{decimal_value, parse_decimal, trim, trimmed};
use std::time::Duration;
use vstd::arithmetic::power2::{lemma_pow2_strictly_increases, lemma_pow2_unfold, pow2};
use vstd::prelude::*;

verus! {

// ── Spans of time ────────────────────────────────────────────────────────────

/// How many nanoseconds a `Duration` is long.
pub uninterp spec fn duration_nanos(duration: Duration) -> nat;

/// `Duration::as_nanos` gives the length in nanoseconds.
pub assume_specification[ Duration::as_nanos ](duration: &Duration) -> (r: u128)
    ensures
        r == duration_nanos(*duration),
;

/// `Duration::from_secs` makes a span of whole seconds.
pub assume_specification[ Duration::from_secs ](secs: u64) -> (r: Duration)
    ensures
        duration_nanos(r) == secs * NANOS_PER_SEC,
;

pub const NANOS_PER_SEC: u64 = 1_000_000_000;

pub const NANOS_PER_MILLI: u128 = 1_000_000;

/// The longest that a server can make a client wait, in seconds.
pub const MAX_RETRY_AFTER_SECS: u64 = 60;

// ── What is sent again ───────────────────────────────────────────────────────

/// How often a request is sent again, and after which delay.
#[derive(Debug, Clone, Copy)]
pub struct RetryPolicy {
    pub max_attempts: u64,
    pub base_delay: Duration,
    pub retry_on: RetryOn,
}

/// After which failures a request is sent again.
#[derive(Debug, Clone, Copy)]
pub struct RetryOn {
    /// After the status "too many requests".
    pub retry_429: bool,
    /// After a server error.
    pub retry_5xx: bool,
    /// After a failure to get any answer.
    pub retry_transport: bool,
}

impl RetryPolicy {
    /// Whether the request is sent again after the failure of an attempt.
    pub open spec fn goes_on(self, err: TransportError, attempt: nat) -> bool {
        attempt < self.max_attempts && self.retry_on.covers(err)
    }
}

impl RetryOn {
    /// Whether a failure is one after which a request is sent again.
    pub open spec fn covers(self, err: TransportError) -> bool {
        match err {
            TransportError::Http { status, .. } => (self.retry_429 && status == 429) || (
            self.retry_5xx && 500 <= status < 600),
            TransportError::Timeout => self.retry_transport,
            TransportError::Network(_) => self.retry_transport,
            _ => false,
        }
    }

    /// Decides whether to send a request again after the failure of an attempt.
    /// Attempts are counted from zero.
    pub fn should_retry(&self, err: &TransportError, attempt: u64, max_attempts: u64) -> (r: bool)
        ensures
            r == (attempt < max_attempts && self.covers(*err)),
    {
        if attempt >= max_attempts {
            return false;
        }
        match err {
            TransportError::Http { status, .. } => (self.retry_429 && *status == 429) || (
            self.retry_5xx && 500 <= *status && *status < 600),
            TransportError::Timeout => self.retry_transport,
            TransportError::Network(_) => self.retry_transport,
            _ => false,
        }
    }
}

// ── How long to wait ─────────────────────────────────────────────────────────

/// How long to back off.
#[derive(Debug, Clone, Copy)]
pub enum Backoff {
    /// For exactly this long.
    Exact(Duration),
    /// For about this many milliseconds, up to chance.
    Jittered { raw_millis: u64 },
}

/// A number as far as 64 bits can hold it.
pub open spec fn saturated(n: nat) -> u64 {
    if n <= u64::MAX {
        n as u64
    } else {
        u64::MAX
    }
}

/// The milliseconds of a base delay, as far as 64 bits go.
pub open spec fn base_millis(base: Duration) -> nat {
    (duration_nanos(base) / NANOS_PER_MILLI as nat) % 0x1_0000_0000_0000_0000
}

/// How often the delay is doubled before an attempt. The count of attempts wraps
/// around at 32 bits.
pub open spec fn doublings(attempt: u64) -> nat {
    ((attempt % 0x1_0000_0000) - 1) as nat
}

/// The delay before an attempt, apart from chance: the base delay for the first one,
/// and twice as long for each one after that, as far as 64 bits go.
pub open spec fn raw_backoff(base: Duration, attempt: u64) -> u64 {
    saturated(base_millis(base) * saturated(pow2(doublings(attempt))) as nat)
}

/// Two to the power of `exponent`, as far as 64 bits go.
fn saturating_power_of_two(exponent: u32) -> (r: u64)
    ensures
        r == saturated(pow2(exponent as nat)),
{
    let mut power: u64 = 1;
    let mut i: u32 = 0;
    proof {
        vstd::arithmetic::power2::lemma2_to64();
    }
    while i < exponent
        invariant
            i <= exponent,
            power == pow2(i as nat),
        decreases exponent - i,
    {
        proof {
            lemma_pow2_unfold((i + 1) as nat);
        }
        match power.checked_mul(2) {
            Some(double) => {
                power = double;
            },
            None => {
                proof {
                    if i + 1 < exponent {
                        lemma_pow2_strictly_increases((i + 1) as nat, exponent as nat);
                    }
                }
                return u64::MAX;
            },
        }
        i = i + 1;
    }
    power
}

/// How long to back off before an attempt, counted from zero.
pub fn backoff(base: Duration, attempt: u64) -> (r: Backoff)
    requires
        attempt == 0 || attempt % 0x1_0000_0000 != 0,
    ensures
        r == (if attempt == 0 {
            Backoff::Exact(base)
        } else {
            Backoff::Jittered { raw_millis: raw_backoff(base, attempt) }
        }),
        r is Exact <==> attempt == 0,
        r matches Backoff::Exact(delay) ==> delay == base,
        attempt == 1 && duration_nanos(base) / 1_000_000 <= u64::MAX ==> (
        r matches Backoff::Jittered { raw_millis } && raw_millis == duration_nanos(base)
            / 1_000_000),
{
    proof {
        backoff_doubles(base, 1);
    }
    if attempt == 0 {
        return Backoff::Exact(base);
    }
    let wrapped: u64 = attempt % 0x1_0000_0000;
    let exp: u64 = saturating_power_of_two((wrapped - 1) as u32);
    let whole: u128 = base.as_nanos() / NANOS_PER_MILLI;
    let millis: u64 = (whole % 0x1_0000_0000_0000_0000) as u64;
    let raw_millis: u64 = match millis.checked_mul(exp) {
        Some(product) => product,
        None => u64::MAX,
    };
    Backoff::Jittered { raw_millis }
}

/// The delay that a server asks for, in seconds: the whole number in the header
/// `retry-after` of an answer with status 429, up to a limit.
pub open spec fn requested_secs(err: TransportError) -> Option<u64> {
    match err {
        TransportError::Http { status, headers: Some(headers), .. } => if status == 429 {
            match header_text(header_lines(headers), "retry-after"@) {
                Some(text) => match decimal_value(trimmed(text)) {
                    Some(secs) => Some(
                        if secs <= MAX_RETRY_AFTER_SECS {
                            secs
                        } else {
                            MAX_RETRY_AFTER_SECS
                        },
                    ),
                    None => None,
                },
                None => None,
            }
        } else {
            None
        },
        _ => None,
    }
}

/// Reads the delay that a server asks for. The form that gives a date is not
/// supported.
pub fn retry_after_delay(err: &TransportError) -> (r: Option<Duration>)
    ensures
        match r {
            Some(delay) => requested_secs(*err) matches Some(secs) && duration_nanos(delay) == secs
                * NANOS_PER_SEC,
            None => requested_secs(*err) is None,
        },
        r matches Some(delay) ==> duration_nanos(delay) <= 60_000_000_000,
        !(*err is Http) ==> r is None,
{
    match err {
        TransportError::Http { status, headers: Some(headers), .. } => {
            if *status != 429 {
                return None;
            }
            proof {
                reveal_strlit("retry-after");
                assert(is_lower_header_name("retry-after"@));
            }
            match text_header(headers, "retry-after") {
                Some(text) => match parse_decimal(trim(text)) {
                    Some(secs) => {
                        let capped: u64 = if secs <= MAX_RETRY_AFTER_SECS {
                            secs
                        } else {
                            MAX_RETRY_AFTER_SECS
                        };
                        Some(Duration::from_secs(capped))
                    },
                    None => None,
                },
                None => None,
            }
        },
        _ => None,
    }
}

/// The delay before the next attempt: the larger of the backoff and what the server
/// asks for.
pub fn retry_delay(err: &TransportError, backoff: Duration) -> (r: Duration)
    ensures
        ({
            let requested = match requested_secs(*err) {
                Some(secs) => (secs * NANOS_PER_SEC) as nat,
                None => 0,
            };
            duration_nanos(r) == if requested > duration_nanos(backoff) {
                requested
            } else {
                duration_nanos(backoff)
            }
        }),
        duration_nanos(r) >= duration_nanos(backoff),
        requested_secs(*err) matches Some(secs) ==> duration_nanos(r) >= secs * 1_000_000_000,
        requested_secs(*err) is None ==> duration_nanos(r) == duration_nanos(backoff),
{
    match retry_after_delay(err) {
        Some(requested) => if requested.as_nanos() > backoff.as_nanos() {
            requested
        } else {
            backoff
        },
        None => backoff,
    }
}

/// Decides what to do after the failure of an attempt, counted from zero: to send the
/// request again after this backoff, or to give up.
pub fn after_failure(policy: &RetryPolicy, err: &TransportError, attempt: u64) -> (r: Option<
    Backoff,
>)
    requires
        policy.goes_on(*err, attempt as nat) ==> (attempt + 1) % 0x1_0000_0000 != 0,
    ensures
        r == (if policy.goes_on(*err, attempt as nat) {
            Some(
                Backoff::Jittered {
                    raw_millis: raw_backoff(policy.base_delay, (attempt + 1) as u64),
                },
            )
        } else {
            None
        }),
        attempt >= policy.max_attempts ==> r is None,
        r is Some ==> !(*err is Build) && !(*err is RetryLimit),
{
    if policy.retry_on.should_retry(err, attempt, policy.max_attempts) {
        Some(backoff(policy.base_delay, attempt + 1))
    } else {
        None
    }
}

// ── Laws ─────────────────────────────────────────────────────────────────────

/// How many attempts are made where the first ones fail like this and the next one
/// would succeed, from an attempt on.
pub open spec fn attempts_made(
    policy: RetryPolicy,
    failures: Seq<TransportError>,
    attempt: nat,
) -> nat
    decreases failures.len() - attempt,
{
    if attempt < failures.len() && policy.goes_on(failures[attempt as int], attempt) {
        attempts_made(policy, failures, attempt + 1)
    } else {
        attempt + 1
    }
}

/// However often it fails, a request is sent at most once more than the policy says it
/// may be sent again.
pub proof fn attempts_are_limited(
    policy: RetryPolicy,
    failures: Seq<TransportError>,
    attempt: nat,
)
    requires
        attempt <= policy.max_attempts,
    ensures
        attempts_made(policy, failures, attempt) <= policy.max_attempts + 1,
    decreases failures.len() - attempt,
{
    if attempt < failures.len() && policy.goes_on(failures[attempt as int], attempt) {
        attempts_are_limited(policy, failures, attempt + 1);
    }
}

/// A server can ask for a minute at most.
pub proof fn requested_delay_is_capped(err: TransportError)
    ensures
        requested_secs(err) matches Some(secs) ==> secs <= 60,
{
}

/// A server is only heard where it says that there are too many requests.
pub proof fn only_too_many_requests_are_heard(err: TransportError)
    ensures
        requested_secs(err) is Some ==> (err matches TransportError::Http { status, .. } && status
            == 429),
{
}

/// Apart from chance, the backoff never gets shorter from one attempt to a later one.
pub proof fn backoff_never_shrinks(base: Duration, earlier: u64, later: u64)
    requires
        1 <= earlier <= later < 0x1_0000_0000,
    ensures
        raw_backoff(base, earlier) <= raw_backoff(base, later),
{
    let e = pow2(doublings(earlier));
    let l = pow2(doublings(later));
    if earlier < later {
        lemma_pow2_strictly_increases(doublings(earlier), doublings(later));
    }
    let millis = base_millis(base);
    assert(millis * saturated(e) as nat <= millis * saturated(l) as nat) by (nonlinear_arith)
        requires
            saturated(e) <= saturated(l),
    ;
}

/// A request is sent again only as often as the policy says, and only after the failures that
/// it names: too many requests, an answer of the server that blames itself, or no answer. It
/// is never sent again where it could not be made, or was given up already.
pub proof fn only_named_failures_are_retried(
    policy: RetryPolicy,
    err: TransportError,
    attempt: nat,
)
    ensures
        policy.goes_on(err, attempt) ==> attempt < policy.max_attempts,
        attempt < policy.max_attempts ==> policy.goes_on(err, attempt) == (match err {
            TransportError::Http { status, .. } => if status == 429 {
                policy.retry_on.retry_429
            } else {
                status / 100 == 5 && policy.retry_on.retry_5xx
            },
            TransportError::Timeout => policy.retry_on.retry_transport,
            TransportError::Network(_) => policy.retry_on.retry_transport,
            TransportError::RetryLimit => false,
            TransportError::Build(_) => false,
        }),
{
}

/// Where every failure is one that is retried, a request is sent until it succeeds or has been
/// sent again as often as the policy says.
pub proof fn covered_failures_are_retried_to_the_limit(
    policy: RetryPolicy,
    failures: Seq<TransportError>,
    attempt: nat,
)
    requires
        forall|i: int|
            0 <= i < failures.len() ==> policy.retry_on.covers(#[trigger] failures[i]),
        attempt <= failures.len(),
        attempt <= policy.max_attempts,
    ensures
        attempts_made(policy, failures, attempt) == 1 + (if failures.len()
            <= policy.max_attempts {
            failures.len() as int
        } else {
            policy.max_attempts as int
        }),
    decreases failures.len() - attempt,
{
    if attempt < failures.len() && attempt < policy.max_attempts {
        covered_failures_are_retried_to_the_limit(policy, failures, attempt + 1);
    }
}

/// Apart from chance, the backoff is the base delay in whole milliseconds before the first
/// retry, and twice as long before each one after that, as far as 64 bits go.
pub proof fn backoff_doubles(base: Duration, attempt: u64)
    requires
        1 <= attempt < 0xffff_ffff,
    ensures
        duration_nanos(base) / 1_000_000 <= u64::MAX ==> raw_backoff(base, 1)
            == duration_nanos(base) / 1_000_000,
        raw_backoff(base, (attempt + 1) as u64) == (if 2 * raw_backoff(base, attempt) <= u64::MAX {
            2 * raw_backoff(base, attempt)
        } else {
            u64::MAX as int
        }),
{
    let k = doublings(attempt);
    let millis = base_millis(base);
    let power = pow2(k);
    vstd::arithmetic::power2::lemma2_to64();
    assert(doublings(1) == 0);
    assert(millis * 1 == millis);
    assert(doublings((attempt + 1) as u64) == k + 1);
    lemma_pow2_unfold((k + 1) as nat);
    assert(pow2((k + 1) as nat) == 2 * power);
    if power <= u64::MAX {
        assert(2 * (millis * power) == millis * (2 * power)) by (nonlinear_arith);
        if 2 * power > u64::MAX && millis > 0 {
            assert(2 * power >= 0x1_0000_0000_0000_0000);
            assert(power >= 0x8000_0000_0000_0000);
            assert(millis * power >= power) by (nonlinear_arith)
                requires
                    millis >= 1,
            ;
            assert(millis * (u64::MAX as nat) >= u64::MAX) by (nonlinear_arith)
                requires
                    millis >= 1,
            ;
        }
    } else if millis > 0 {
        assert(millis * (u64::MAX as nat) >= u64::MAX) by (nonlinear_arith)
            requires
                millis >= 1,
        ;
    }
}

/// A server that has too many requests is heard where it asks for a whole number of seconds,
/// blanks around it aside: for that long, but for a minute at most. Nothing else is heard.
pub proof fn servers_are_heard_to_the_second(err: TransportError)
    ensures
        requested_secs(err) == (match err {
            TransportError::Http { status: 429, headers: Some(headers), .. } => match header_text(
                header_lines(headers),
                "retry-after"@,
            ) {
                Some(text) => match decimal_value(trimmed(text)) {
                    Some(secs) => Some(
                        if secs < 60 {
                            secs
                        } else {
                            60
                        },
                    ),
                    None => None,
                },
                None => None,
            },
            _ => None,
        }),
{
}

} // verus!

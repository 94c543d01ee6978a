//! When a request is tried again, and how long to wait first.
use vstd::prelude::*;
use vstd::string::StringSliceAdditionalSpecFns;
use std::time::Duration;

verus! {

/// What `Duration::as_nanos` returns for `d`: its length in nanoseconds.
pub uninterp spec fn duration_nanos(d: Duration) -> u128;

/// `Duration::as_nanos`. Trusted: the result is named [`duration_nanos`].
#[verifier::external_body]
fn nanos_of(d: Duration) -> (r: u128)
    ensures
        r == duration_nanos(d),
{
    d.as_nanos()
}

/// `Duration::from_secs`. Trusted: std documents it as a duration of `secs`
/// whole seconds, so its length in nanoseconds is `secs * 10^9`.
#[verifier::external_body]
pub(crate) fn duration_from_secs(secs: u64) -> (d: Duration)
    ensures
        duration_nanos(d) == secs as int * 1_000_000_000,
{
    Duration::from_secs(secs)
}

/// `Duration::from_millis`. Trusted: std documents it as a duration of
/// `millis` milliseconds, so its length in nanoseconds is `millis * 10^6`.
#[verifier::external_body]
fn duration_from_millis(millis: u64) -> (d: Duration)
    ensures
        duration_nanos(d) == millis as int * 1_000_000,
{
    Duration::from_millis(millis)
}

/// Whether a response with this status is worth trying again: request
/// timeout (408), rate limiting (429), and server errors (5xx).
pub fn retryable_status(status: u16) -> (r: bool)
    ensures
        r == (status == 408 || status == 429 || (500 <= status && status <= 599)),
{
    status == 408 || status == 429 || (500 <= status && status <= 599)
}

/// Whether a status is a success (2xx).
pub fn is_success(status: u16) -> (r: bool)
    ensures
        r == (200 <= status < 300),
{
    200 <= status && status < 300
}

/// The exponential backoff after `k` failed attempts: 500 ms, doubled `k`
/// times.
pub open spec fn backoff_millis(k: nat) -> nat
    decreases k,
{
    if k == 0 {
        500
    } else {
        2 * backoff_millis((k - 1) as nat)
    }
}

/// The longest the client ever waits before a retry: 30 s.
pub open spec fn max_delay_nanos() -> int {
    30_000_000_000
}

/// The wait that is asked for before retry number `attempt + 1`: the
/// server's `retry-after` when it sent one, else the backoff, which stops
/// growing after six doublings.
pub open spec fn wanted_delay_nanos(attempt: u32, retry_after: Option<Duration>) -> int {
    match retry_after {
        Some(d) => duration_nanos(d) as int,
        None => backoff_millis(if attempt < 6 {
            attempt as nat
        } else {
            6
        }) as int * 1_000_000,
    }
}

/// Server-suggested wait when given, else exponential backoff (0.5s, 1s, 2s,
/// ...), both capped at 30 s so a bad `retry-after` can't stall the caller.
pub fn retry_delay(attempt: u32, retry_after: Option<Duration>) -> (r: Duration)
    ensures
        duration_nanos(r) == if wanted_delay_nanos(attempt, retry_after) <= max_delay_nanos() {
            wanted_delay_nanos(attempt, retry_after)
        } else {
            max_delay_nanos()
        },
        match retry_after {
            Some(d) => wanted_delay_nanos(attempt, retry_after) <= max_delay_nanos() ==> r == d,
            None => true,
        },
{
    let shift: u32 = if attempt < 6 {
        attempt
    } else {
        6
    };
    let mut millis: u64 = 500;
    let mut k: u32 = 0;
    while k < shift
        invariant
            k <= shift <= 6,
            millis == backoff_millis(k as nat),
            millis <= 500 * 64,
        decreases shift - k,
    {
        assert(backoff_millis((k + 1) as nat) == 2 * backoff_millis(k as nat));
        assert(k < 6);
        proof {
            lemma_backoff_bound(k as nat);
        }
        millis = millis * 2;
        k += 1;
    }
    let wanted = match retry_after {
        Some(d) => d,
        None => duration_from_millis(millis),
    };
    if nanos_of(wanted) > 30_000_000_000u128 {
        duration_from_secs(30)
    } else {
        wanted
    }
}

/// The backoff after fewer than six doublings is at most 16 s.
proof fn lemma_backoff_bound(k: nat)
    requires
        k < 6,
    ensures
        backoff_millis(k) <= 500 * 32,
{
    reveal_with_fuel(backoff_millis, 6);
}

/// How one attempt at a request ended.
pub enum AttemptOutcome {
    /// A response arrived with this status and `retry-after`.
    Replied { status: u16, retry_after: Option<Duration> },
    /// The connection failed before a response arrived.
    TransportFailed,
    /// Something else went wrong; it is not retried.
    Failed,
}

/// What to do after an attempt.
pub enum RetryDecision {
    /// Hand the attempt's outcome to the caller as it is.
    Stop,
    /// Wait this long, then try again.
    RetryAfter(Duration),
}

/// The retry policy: connection failures, 408/429 and 5xx are retried
/// with [`retry_delay`] (honoring `retry-after`) until `max_retries`
/// retries have been made; the last attempt's outcome is returned as-is.
/// `attempt` counts the attempts made before this one.
pub fn retry_decision(attempt: u32, max_retries: u32, outcome: &AttemptOutcome) -> (r:
    RetryDecision)
    ensures
        attempt >= max_retries ==> r is Stop,
        match outcome {
            AttemptOutcome::Replied { status, retry_after } => if attempt < max_retries
                && retryable_spec(*status) {
                r matches RetryDecision::RetryAfter(d) && duration_nanos(d) == capped_delay(
                    attempt,
                    *retry_after,
                )
            } else {
                r is Stop
            },
            AttemptOutcome::TransportFailed => if attempt < max_retries {
                r matches RetryDecision::RetryAfter(d) && duration_nanos(d) == capped_delay(
                    attempt,
                    None,
                )
            } else {
                r is Stop
            },
            AttemptOutcome::Failed => r is Stop,
        },
        r is RetryAfter <==> will_retry(attempt as int, max_retries, *outcome),
{
    match outcome {
        AttemptOutcome::Replied { status, retry_after } => {
            if attempt >= max_retries || !retryable_status(*status) {
                RetryDecision::Stop
            } else {
                RetryDecision::RetryAfter(retry_delay(attempt, *retry_after))
            }
        },
        AttemptOutcome::TransportFailed => {
            if attempt < max_retries {
                RetryDecision::RetryAfter(retry_delay(attempt, None))
            } else {
                RetryDecision::Stop
            }
        },
        AttemptOutcome::Failed => RetryDecision::Stop,
    }
}

/// Whether the policy tries again after attempt number `attempt` (from 0)
/// ended with `outcome`: while fewer than `max_retries` retries were made,
/// after a connection failure or a retryable status.
pub open spec fn will_retry(attempt: int, max_retries: u32, outcome: AttemptOutcome) -> bool {
    &&& attempt < max_retries
    &&& match outcome {
        AttemptOutcome::Replied { status, retry_after: _ } => retryable_spec(status),
        AttemptOutcome::TransportFailed => true,
        AttemptOutcome::Failed => false,
    }
}

/// Attempt `k` is the last one made when the attempts end as `outcomes`.
pub open spec fn last_attempt(max_retries: u32, outcomes: Seq<AttemptOutcome>, k: int) -> bool {
    &&& 0 <= k < outcomes.len()
    &&& !will_retry(k, max_retries, outcomes[k])
    &&& forall|j: int| 0 <= j < k ==> #[trigger] will_retry(j, max_retries, outcomes[j])
}

/// The first attempt from `i` on that is not retried, when all before `i` were.
proof fn lemma_last_attempt_from(max_retries: u32, outcomes: Seq<AttemptOutcome>, i: int)
    requires
        0 <= i <= max_retries,
        outcomes.len() > max_retries,
        forall|j: int| 0 <= j < i ==> #[trigger] will_retry(j, max_retries, outcomes[j]),
    ensures
        exists|k: int| i <= k <= max_retries && #[trigger] last_attempt(max_retries, outcomes, k),
    decreases max_retries - i,
{
    if will_retry(i, max_retries, outcomes[i]) {
        assert forall|j: int| 0 <= j < i + 1 implies #[trigger] will_retry(
            j,
            max_retries,
            outcomes[j],
        ) by {}
        lemma_last_attempt_from(max_retries, outcomes, i + 1);
    } else {
        assert(last_attempt(max_retries, outcomes, i));
    }
}

/// However the attempts turn out, the policy makes at most
/// `max_retries + 1` of them: some attempt numbered `max_retries` or less is
/// the last, and each one before it was retried (after the wait
/// [`retry_decision`] gives, [`capped_delay`]).
pub proof fn lemma_at_most_limit_plus_one_attempts(
    max_retries: u32,
    outcomes: Seq<AttemptOutcome>,
)
    requires
        outcomes.len() > max_retries,
    ensures
        exists|k: int| 0 <= k <= max_retries && #[trigger] last_attempt(max_retries, outcomes, k),
{
    lemma_last_attempt_from(max_retries, outcomes, 0);
}

/// [`retryable_status`] as a formula.
pub open spec fn retryable_spec(status: u16) -> bool {
    status == 408 || status == 429 || (500 <= status && status <= 599)
}

/// The wait [`retry_delay`] gives, in nanoseconds.
pub open spec fn capped_delay(attempt: u32, retry_after: Option<Duration>) -> int {
    if wanted_delay_nanos(attempt, retry_after) <= max_delay_nanos() {
        wanted_delay_nanos(attempt, retry_after)
    } else {
        max_delay_nanos()
    }
}

/// No wait is ever longer than 30 s, whatever the server asks for.
pub proof fn lemma_delay_capped(attempt: u32, retry_after: Option<Duration>)
    ensures
        capped_delay(attempt, retry_after) <= max_delay_nanos(),
{
}

/// Without a `retry-after`, each wait is twice the one before, until it
/// reaches 32 s and is capped at 30 s.
pub proof fn lemma_backoff_doubles(attempt: u32)
    requires
        attempt < 6,
    ensures
        wanted_delay_nanos((attempt + 1) as u32, None) == 2 * wanted_delay_nanos(attempt, None),
{
}

/// The first wait without a `retry-after` is half a second, the backoff
/// stops growing after six doublings (at 32 s, so capped to 30 s), and a
/// server's `retry-after` of at most 30 s is waited out exactly.
pub proof fn lemma_backoff_start_and_ceiling(attempt: u32, d: Duration)
    ensures
        capped_delay(0, None) == 500_000_000,
        attempt >= 6 ==> capped_delay(attempt, None) == max_delay_nanos(),
        duration_nanos(d) <= max_delay_nanos() ==> capped_delay(attempt, Some(d)) == duration_nanos(d),
{
    reveal_with_fuel(backoff_millis, 7);
}

/// The statuses retried are exactly 408, 429 and 500 through 599.
pub proof fn lemma_retryable_statuses(status: u16)
    ensures
        retryable_spec(status) <==> (status == 408 || status == 429 || (500 <= status && status
            <= 599)),
        retryable_spec(status) ==> status >= 408,
        !retryable_spec(200) && !retryable_spec(400) && !retryable_spec(404) && !retryable_spec(600),
{
}

/// The value of a run of ASCII digits.
pub open spec fn digits_value(d: Seq<u8>) -> int
    decreases d.len(),
{
    if d.len() == 0 {
        0
    } else {
        digits_value(d.drop_last()) * 10 + (d.last() - 48)
    }
}

/// Every byte is an ASCII digit.
pub open spec fn all_digits(d: Seq<u8>) -> bool {
    forall|i: int| 0 <= i < d.len() ==> 48 <= #[trigger] d[i] <= 57
}

/// What `str::parse::<u64>` gives for text with these bytes: an optional
/// `+`, then one or more ASCII digits whose value fits in a `u64`.
pub open spec fn u64_text(b: Seq<u8>) -> Option<u64> {
    let d = if b.len() > 0 && b[0] == 43u8 {
        b.subrange(1, b.len() as int)
    } else {
        b
    };
    if d.len() > 0 && all_digits(d) && digits_value(d) <= u64::MAX {
        Some(digits_value(d) as u64)
    } else {
        None
    }
}

/// Appending digits never makes the value smaller.
proof fn lemma_digits_grow(d: Seq<u8>, i: int)
    requires
        0 <= i <= d.len(),
        all_digits(d),
    ensures
        digits_value(d.subrange(0, i)) <= digits_value(d),
    decreases d.len() - i,
{
    if i < d.len() {
        lemma_digits_grow(d, i + 1);
        let p = d.subrange(0, i + 1);
        assert(p.drop_last() =~= d.subrange(0, i));
        assert(48 <= p.last() <= 57);
        assert(digits_value(d.subrange(0, i)) >= 0) by {
            lemma_digits_nonneg(d.subrange(0, i));
        }
    } else {
        assert(d.subrange(0, i) =~= d);
    }
}

/// The value of a run of digits is never negative.
proof fn lemma_digits_nonneg(d: Seq<u8>)
    requires
        all_digits(d),
    ensures
        digits_value(d) >= 0,
    decreases d.len(),
{
    if d.len() > 0 {
        assert(all_digits(d.drop_last()));
        lemma_digits_nonneg(d.drop_last());
        assert(48 <= d.last() <= 57);
    }
}

/// Parses a decimal `u64` the way `str::parse::<u64>` does; see
/// [`u64_text`].
pub fn parse_u64(text: &str) -> (r: Option<u64>)
    ensures
        r == u64_text(text.spec_bytes()),
{
    let b = text.as_bytes();
    let ghost bs = b@;
    let mut i: usize = 0;
    if b.len() > 0 && b[0] == 43u8 {
        i = 1;
    }
    let start = i;
    let ghost d = if bs.len() > 0 && bs[0] == 43u8 {
        bs.subrange(1, bs.len() as int)
    } else {
        bs
    };
    assert(d =~= bs.subrange(start as int, bs.len() as int));
    if i >= b.len() {
        return None;
    }
    let mut value: u128 = 0;
    while i < b.len()
        invariant
            start <= i <= b.len(),
            b@ == bs,
            bs == text.spec_bytes(),
            u64_text(bs) == (if d.len() > 0 && all_digits(d) && digits_value(d) <= u64::MAX {
                Some(digits_value(d) as u64)
            } else {
                None
            }),
            d =~= bs.subrange(start as int, bs.len() as int),
            all_digits(bs.subrange(start as int, i as int)),
            value == digits_value(bs.subrange(start as int, i as int)),
            value <= u64::MAX,
        decreases b.len() - i,
    {
        let c = b[i];
        if c < 48u8 || c > 57u8 {
            assert(!all_digits(d)) by {
                assert(d[i - start] == c);
            }
            return None;
        }
        let ghost p = bs.subrange(start as int, i as int + 1);
        assert(p.drop_last() =~= bs.subrange(start as int, i as int));
        value = value * 10 + (c - 48u8) as u128;
        i += 1;
        if value > 0xffff_ffff_ffff_ffffu128 {
            proof {
                if all_digits(d) {
                    lemma_digits_grow(d, i - start);
                    assert(d.subrange(0, i - start) =~= bs.subrange(start as int, i as int));
                }
            }
            return None;
        }
    }
    assert(d =~= bs.subrange(start as int, i as int));
    Some(value as u64)
}

/// The `retry-after` header read as whole seconds, as the server sends it;
/// anything that is not a decimal `u64` is ignored.
pub fn parse_retry_after(value: &str) -> (r: Option<Duration>)
    ensures
        match u64_text(value.spec_bytes()) {
            Some(secs) => r matches Some(d) && duration_nanos(d) == secs as int * 1_000_000_000,
            None => r is None,
        },
{
    match parse_u64(value) {
        Some(secs) => Some(duration_from_secs(secs)),
        None => None,
    }
}

} // verus!

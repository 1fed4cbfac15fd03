//! The fetching decisions of the multi-website scraper: when a URL that
//! failed may be tried again, what a failure records, when a domain is
//! rate limited, and what each answer to a request leads to.
//!
//! Times are milliseconds on one monotonic clock that the caller reads.
use vstd::prelude::*;
use crate::domain::{host_of, url_host};
use crate::text::{concat_str, contains_seq, copy_str, str_contains};

verus! {

/// What the failure cache remembers about a URL.
#[derive(Debug)]
pub struct CacheEntry {
    pub url: String,
    /// When it last failed.
    pub last_failure_ms: u64,
    pub failure_count: u32,
    pub last_error: String,
    /// A wait imposed by the kind of error, if any.
    pub retry_after_ms: Option<u64>,
}

impl Clone for CacheEntry {
    fn clone(&self) -> (r: Self)
        ensures
            r == *self,
    {
        CacheEntry {
            url: self.url.clone(),
            last_failure_ms: self.last_failure_ms,
            failure_count: self.failure_count,
            last_error: self.last_error.clone(),
            retry_after_ms: self.retry_after_ms,
        }
    }
}

/// Time since `then`, zero if the clock reads earlier.
pub open spec fn elapsed(then: u64, now: u64) -> int {
    if now >= then {
        now - then
    } else {
        0
    }
}

/// Two to the power `e`.
pub open spec fn pow2(e: nat) -> nat
    decreases e,
{
    if e == 0 {
        1
    } else {
        2 * pow2((e - 1) as nat)
    }
}

/// The exponential back-off after `count` failures: `2^min(count, 10)`
/// seconds.
pub open spec fn backoff_ms(count: u32) -> int {
    1000 * pow2(if count < 10 {
        count as nat
    } else {
        10
    }) as int
}

/// Whether a URL may be requested: always when it never failed; else only
/// once the wait its last error imposed has passed, or, without such a
/// wait, once the back-off for its failure count has passed.
pub open spec fn should_retry_spec(entry: Option<CacheEntry>, now: u64) -> bool {
    match entry {
        None => true,
        Some(e) => match e.retry_after_ms {
            Some(wait) => elapsed(e.last_failure_ms, now) >= wait,
            None => elapsed(e.last_failure_ms, now) >= backoff_ms(e.failure_count),
        },
    }
}

fn backoff(count: u32) -> (ms: u64)
    ensures
        ms == backoff_ms(count),
{
    let e: u32 = if count < 10 {
        count
    } else {
        10
    };
    let mut p: u64 = 1;
    let mut k: u32 = 0;
    while k < e
        invariant
            k <= e <= 10,
            p == pow2(k as nat),
            p <= 1024,
        decreases e - k,
    {
        proof {
            assert(pow2((k + 1) as nat) == 2 * pow2(k as nat));
            lemma_pow2_bound(k as nat + 1);
        }
        p = p * 2;
        k += 1;
    }
    1000 * p
}

proof fn lemma_pow2_bound(e: nat)
    requires
        e <= 10,
    ensures
        pow2(e) <= 1024,
        pow2(e) >= 1,
{
    lemma_pow2_mono(e, 10);
    reveal_with_fuel(pow2, 11);
    assert(pow2(10) == 1024);
}

proof fn lemma_pow2_mono(a: nat, b: nat)
    requires
        a <= b,
    ensures
        1 <= pow2(a) <= pow2(b),
    decreases b,
{
    if b > a {
        lemma_pow2_mono(a, (b - 1) as nat);
    } else if a > 0 {
        lemma_pow2_mono(0, (a - 1) as nat);
    }
}

/// Whether a URL may be requested, given the entry the failure cache
/// holds for it.
pub fn should_retry(entry: Option<&CacheEntry>, now_ms: u64) -> (b: bool)
    ensures
        b == should_retry_spec(match entry {
            Some(e) => Some(*e),
            None => None,
        }, now_ms),
{
    match entry {
        None => true,
        Some(e) => {
            let since = if now_ms >= e.last_failure_ms {
                now_ms - e.last_failure_ms
            } else {
                0
            };
            match e.retry_after_ms {
                Some(wait) => since >= wait,
                None => since >= backoff(e.failure_count),
            }
        },
    }
}

/// The wait an error imposes, if its text names one: a minute for rate
/// limiting (`429` or `rate limit`), half a minute for an unavailable
/// service (`503` or `service unavailable`).
pub open spec fn imposed_wait(error: Seq<char>) -> Option<u64> {
    if contains_seq(error, "429"@) || contains_seq(error, "rate limit"@) {
        Some(60_000u64)
    } else if contains_seq(error, "503"@) || contains_seq(error, "service unavailable"@) {
        Some(30_000u64)
    } else {
        None
    }
}

/// The failure cache entry after a failure of `url` with `error` at `now`:
/// one more failure, this time and error remembered, and the wait the
/// error imposes (keeping an earlier wait when it imposes none).
pub open spec fn record_failure_spec(entry: Option<CacheEntry>, url: Seq<char>, error: Seq<char>, now: u64, r: CacheEntry) -> bool {
    let (count, url_kept, wait_before) = match entry {
        Some(e) => (e.failure_count as int, e.url@, e.retry_after_ms),
        None => (0int, url, None),
    };
    &&& r.url@ == url_kept
    &&& r.failure_count == count + 1
    &&& r.last_failure_ms == now
    &&& r.last_error@ == error
    &&& r.retry_after_ms == match imposed_wait(error) {
        Some(w) => Some(w),
        None => wait_before,
    }
}

/// The failure cache's new entry for `url` after a failure.
pub fn record_failure(entry: Option<CacheEntry>, url: &str, error: &str, now_ms: u64) -> (r: CacheEntry)
    requires
        entry matches Some(e) ==> e.failure_count < u32::MAX,
    ensures
        record_failure_spec(entry, url@, error@, now_ms, r),
{
    let mut e = match entry {
        Some(e) => e,
        None => CacheEntry {
            url: copy_str(url),
            last_failure_ms: now_ms,
            failure_count: 0,
            last_error: copy_str(error),
            retry_after_ms: None,
        },
    };
    e.failure_count = e.failure_count + 1;
    e.last_failure_ms = now_ms;
    e.last_error = copy_str(error);
    if str_contains(error, "429") || str_contains(error, "rate limit") {
        e.retry_after_ms = Some(60_000);
    } else if str_contains(error, "503") || str_contains(error, "service unavailable") {
        e.retry_after_ms = Some(30_000);
    }
    e
}

/// The host whose requests are spaced out: that of the URL
/// when it parses and has one.
pub fn request_host(url: &str) -> (r: Option<String>)
    ensures
        match r {
            Some(h) => url_host(url@) == Some(h@),
            None => url_host(url@) is None,
        },
{
    host_of(url)
}

/// Whether a domain is rate limited: a domain requested less than
/// `delay_ms` ago is rate limited (and its time is not renewed); otherwise
/// it is not, and the caller records `now` as its last request.
pub fn should_rate_limit(last_request_ms: Option<u64>, now_ms: u64, delay_ms: u64) -> (b: bool)
    ensures
        b == match last_request_ms {
            Some(t) => elapsed(t, now_ms) < delay_ms,
            None => false,
        },
{
    match last_request_ms {
        Some(t) => {
            let since = if now_ms >= t {
                now_ms - t
            } else {
                0
            };
            since < delay_ms
        },
        None => false,
    }
}

/// How many times a request is sent at most.
pub const MAX_ATTEMPTS: u32 = 3;

/// What came back from sending a request.
#[derive(Debug)]
pub enum FetchOutcome {
    /// `200 OK`.
    Found,
    /// `404 Not Found`.
    NotFound,
    /// `429 Too Many Requests`.
    TooManyRequests,
    /// Any other status, with its text (such as `500 Internal Server Error`).
    OtherStatus(String),
    /// The request could not be sent or answered, with the error's text.
    SendFailed(String),
}

/// What to do next.
#[derive(Debug)]
pub enum FetchAction {
    /// Keep the body: cache it, count a success and return it.
    Succeed,
    /// Return no data.
    Missing,
    /// Record `failure` in the failure cache, wait `delay_ms`, send again.
    Retry { failure: String, delay_ms: u64 },
    /// Record `failure` in the failure cache and stop with `error`.
    Fail { failure: String, error: String },
}

/// A model of `FetchAction` over character sequences.
pub enum FetchActionSpec {
    Succeed,
    Missing,
    Retry { failure: Seq<char>, delay_ms: u64 },
    Fail { failure: Seq<char>, error: Seq<char> },
}

impl FetchAction {
    /// The action with its texts as character sequences.
    pub open spec fn model(self) -> FetchActionSpec {
        match self {
            FetchAction::Succeed => FetchActionSpec::Succeed,
            FetchAction::Missing => FetchActionSpec::Missing,
            FetchAction::Retry { failure, delay_ms } => FetchActionSpec::Retry { failure: failure@, delay_ms },
            FetchAction::Fail { failure, error } => FetchActionSpec::Fail { failure: failure@, error: error@ },
        }
    }
}

/// The retry rules of a fetch for the
/// outcome of attempt number `attempt` (counting from zero): success and
/// `404` end the request; rate limiting and send failures are recorded
/// and retried after `1000 * (attempt + 1)` ms while attempts remain,
/// else end in an error; any other status is recorded and ends in an
/// error.
pub open spec fn next_action_spec(url: Seq<char>, attempt: u32, outcome: FetchOutcome) -> FetchActionSpec {
    let more = attempt + 1 < MAX_ATTEMPTS;
    let delay = (1000 * (attempt + 1)) as u64;
    match outcome {
        FetchOutcome::Found => FetchActionSpec::Succeed,
        FetchOutcome::NotFound => FetchActionSpec::Missing,
        FetchOutcome::TooManyRequests => {
            let failure = "Rate limited: "@ + url;
            if more {
                FetchActionSpec::Retry { failure, delay_ms: delay }
            } else {
                FetchActionSpec::Fail { failure, error: "Rate limited after 3 attempts"@ }
            }
        },
        FetchOutcome::OtherStatus(status) => FetchActionSpec::Fail {
            failure: "HTTP "@ + status@ + " for "@ + url,
            error: "HTTP error: "@ + status@,
        },
        FetchOutcome::SendFailed(e) => {
            let failure = "Request failed: "@ + e@;
            if more {
                FetchActionSpec::Retry { failure, delay_ms: delay }
            } else {
                FetchActionSpec::Fail { failure, error: "Request failed after 3 attempts: "@ + e@ }
            }
        },
    }
}

/// The next step of a request after attempt `attempt`.
pub fn next_fetch_action(url: &str, attempt: u32, outcome: FetchOutcome) -> (a: FetchAction)
    requires
        attempt < MAX_ATTEMPTS,
    ensures
        a.model() == next_action_spec(url@, attempt, outcome),
{
    let more = attempt + 1 < MAX_ATTEMPTS;
    let delay: u64 = 1000 * (attempt as u64 + 1);
    match outcome {
        FetchOutcome::Found => FetchAction::Succeed,
        FetchOutcome::NotFound => FetchAction::Missing,
        FetchOutcome::TooManyRequests => {
            let failure = concat_str("Rate limited: ", url);
            if more {
                FetchAction::Retry { failure, delay_ms: delay }
            } else {
                FetchAction::Fail { failure, error: copy_str("Rate limited after 3 attempts") }
            }
        },
        FetchOutcome::OtherStatus(status) => {
            let mut failure = concat_str("HTTP ", status.as_str());
            failure.append(" for ");
            failure.append(url);
            FetchAction::Fail { failure, error: concat_str("HTTP error: ", status.as_str()) }
        },
        FetchOutcome::SendFailed(e) => {
            let failure = concat_str("Request failed: ", e.as_str());
            if more {
                FetchAction::Retry { failure, delay_ms: delay }
            } else {
                FetchAction::Fail { failure, error: concat_str("Request failed after 3 attempts: ", e.as_str()) }
            }
        },
    }
}

/// A request is sent at most `MAX_ATTEMPTS` times: no retry follows the
/// last attempt, every retry waits longer than the one before, and only a
/// `200 OK` keeps a body.
pub proof fn lemma_retries_bounded(url: Seq<char>, attempt: u32, outcome: FetchOutcome)
    requires
        attempt < MAX_ATTEMPTS,
    ensures
        attempt + 1 == MAX_ATTEMPTS ==> !(next_action_spec(url, attempt, outcome) is Retry),
        next_action_spec(url, attempt, outcome) matches FetchActionSpec::Retry { delay_ms, .. } ==> delay_ms == 1000 * (attempt + 1),
        next_action_spec(url, attempt, outcome) is Succeed <==> outcome is Found,
{
}

/// How many requests a fetch sends when the server answers its successive
/// requests with `outcomes` and each next step follows `next_action_spec`,
/// starting at attempt number `attempt`: a retry sends the next request,
/// anything else ends the fetch.
pub open spec fn requests_sent(url: Seq<char>, outcomes: Seq<FetchOutcome>, attempt: u32) -> nat
    decreases outcomes.len(),
{
    if outcomes.len() == 0 {
        0
    } else if next_action_spec(url, attempt, outcomes[0]) is Retry && attempt < u32::MAX {
        1 + requests_sent(url, outcomes.drop_first(), (attempt + 1) as u32)
    } else {
        1
    }
}

proof fn lemma_requests_sent_from(url: Seq<char>, outcomes: Seq<FetchOutcome>, attempt: u32)
    requires
        attempt < MAX_ATTEMPTS,
    ensures
        requests_sent(url, outcomes, attempt) <= MAX_ATTEMPTS - attempt,
    decreases outcomes.len(),
{
    if outcomes.len() > 0 && next_action_spec(url, attempt, outcomes[0]) is Retry {
        lemma_retries_bounded(url, attempt, outcomes[0]);
        lemma_requests_sent_from(url, outcomes.drop_first(), (attempt + 1) as u32);
    }
}

/// The next step of a fetch after attempt `attempt` (from zero, fewer than
/// three): `200` keeps the body and `404` gives no data; `429` records
/// `Rate limited: <url>` and waits `1000·(attempt+1)` ms before trying
/// again, or after the third attempt fails with `Rate limited after 3
/// attempts`; a failed send records `Request failed: <error>` and is
/// retried the same way, or fails with `Request failed after 3 attempts:
/// <error>`; any other status records `HTTP <status> for <url>` and fails
/// with `HTTP error: <status>` at once.
pub proof fn lemma_fetch_steps(url: Seq<char>, attempt: u32, outcome: FetchOutcome)
    requires
        attempt < MAX_ATTEMPTS,
    ensures
        outcome is Found ==> next_action_spec(url, attempt, outcome) is Succeed,
        outcome is NotFound ==> next_action_spec(url, attempt, outcome) is Missing,
        outcome is TooManyRequests && attempt < 2 ==> next_action_spec(url, attempt, outcome) == (FetchActionSpec::Retry {
            failure: "Rate limited: "@ + url,
            delay_ms: (1000 * (attempt + 1)) as u64,
        }),
        outcome is TooManyRequests && attempt == 2 ==> next_action_spec(url, attempt, outcome) == (FetchActionSpec::Fail {
            failure: "Rate limited: "@ + url,
            error: "Rate limited after 3 attempts"@,
        }),
        outcome is SendFailed && attempt < 2 ==> next_action_spec(url, attempt, outcome) == (FetchActionSpec::Retry {
            failure: "Request failed: "@ + outcome->SendFailed_0@,
            delay_ms: (1000 * (attempt + 1)) as u64,
        }),
        outcome is SendFailed && attempt == 2 ==> next_action_spec(url, attempt, outcome) == (FetchActionSpec::Fail {
            failure: "Request failed: "@ + outcome->SendFailed_0@,
            error: "Request failed after 3 attempts: "@ + outcome->SendFailed_0@,
        }),
        outcome is OtherStatus ==> next_action_spec(url, attempt, outcome) == (FetchActionSpec::Fail {
            failure: "HTTP "@ + outcome->OtherStatus_0@ + " for "@ + url,
            error: "HTTP error: "@ + outcome->OtherStatus_0@,
        }),
{
}

/// Whatever the server answers, a fetch that starts at the first attempt
/// and follows the retry rules sends at most `MAX_ATTEMPTS` requests.
pub proof fn lemma_at_most_three_requests(url: Seq<char>, outcomes: Seq<FetchOutcome>)
    ensures
        requests_sent(url, outcomes, 0) <= MAX_ATTEMPTS,
{
    lemma_requests_sent_from(url, outcomes, 0);
}

/// What a recorded failure keeps: the URL it was first recorded for, one
/// more failure, its time and error text; and the wait before the next
/// request: a minute when the error text names rate limiting (`429` or
/// `rate limit`), else half a minute when it names an unavailable service
/// (`503` or `service unavailable`), else the wait already imposed (none
/// for a first failure).
pub proof fn lemma_recorded_failure(entry: Option<CacheEntry>, url: Seq<char>, error: Seq<char>, now: u64, r: CacheEntry)
    requires
        record_failure_spec(entry, url, error, now, r),
    ensures
        r.url@ == (match entry {
            Some(e) => e.url@,
            None => url,
        }),
        r.failure_count == (match entry {
            Some(e) => e.failure_count + 1,
            None => 1,
        }),
        r.last_failure_ms == now,
        r.last_error@ == error,
        contains_seq(error, "429"@) || contains_seq(error, "rate limit"@) ==> r.retry_after_ms == Some(60_000u64),
        !(contains_seq(error, "429"@) || contains_seq(error, "rate limit"@)) && (contains_seq(error, "503"@)
            || contains_seq(error, "service unavailable"@)) ==> r.retry_after_ms == Some(30_000u64),
        !(contains_seq(error, "429"@) || contains_seq(error, "rate limit"@) || contains_seq(error, "503"@)
            || contains_seq(error, "service unavailable"@)) ==> r.retry_after_ms == (match entry {
            Some(e) => e.retry_after_ms,
            None => None,
        }),
{
}

/// Whether a URL may be requested again: always when it never failed;
/// with an imposed wait, exactly once that wait has passed since the last
/// failure; otherwise exactly once `2^n` seconds have passed, `n` the
/// number of failures up to ten (one second after no recorded failure, two
/// after one, doubling up to 1024 seconds). Once allowed, it stays allowed as
/// time goes on.
pub proof fn lemma_retry_rule(e: CacheEntry, now: u64, later: u64)
    ensures
        should_retry_spec(None, now),
        e.retry_after_ms is Some ==> (should_retry_spec(Some(e), now) <==> elapsed(e.last_failure_ms, now)
            >= e.retry_after_ms->0),
        e.retry_after_ms is None ==> (should_retry_spec(Some(e), now) <==> elapsed(e.last_failure_ms, now) >= 1000 * pow2(
            if e.failure_count < 10 {
                e.failure_count as nat
            } else {
                10nat
            },
        )),
        e.retry_after_ms is None && e.failure_count >= 10 ==> (should_retry_spec(Some(e), now) <==> elapsed(
            e.last_failure_ms,
            now,
        ) >= 1_024_000),
        e.retry_after_ms is None && e.failure_count == 0 ==> (should_retry_spec(Some(e), now) <==> elapsed(
            e.last_failure_ms,
            now,
        ) >= 1000),
        now <= later && should_retry_spec(Some(e), now) ==> should_retry_spec(Some(e), later),
{
    reveal_with_fuel(pow2, 11);
    assert(pow2(10) == 1024);
}

/// Each further failure doubles the back-off, up to the tenth.
pub proof fn lemma_backoff_doubles(count: u32)
    requires
        count < 10,
    ensures
        backoff_ms((count + 1) as u32) == 2 * backoff_ms(count),
        backoff_ms(0) == 1000,
{
    assert(pow2((count + 1) as nat) == 2 * pow2(count as nat));
    assert(pow2(0) == 1);
}

/// A URL that has just failed is not requested again at once: the wait is
/// at least a second.
pub proof fn lemma_no_immediate_retry(entry: Option<CacheEntry>, url: Seq<char>, error: Seq<char>, now: u64, r: CacheEntry)
    requires
        record_failure_spec(entry, url, error, now, r),
        r.retry_after_ms matches Some(w) ==> w > 0,
    ensures
        !should_retry_spec(Some(r), now),
{
    let c = r.failure_count;
    let e: nat = if c < 10 {
        c as nat
    } else {
        10
    };
    lemma_pow2_bound(e);
}

} // verus!

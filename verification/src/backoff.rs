//! The scraper's bounded-retry policy with exponential backoff and jitter.
//!
//! A scrape makes at most a fixed number of fetch attempts.  After a failed
//! attempt the scraper waits: the wait has a deterministic floor that
//! doubles with each attempt, plus random jitter below a fixed bound, so
//! that many concurrently probing tasks do not retry in lockstep.

use vstd::prelude::*;
use vstd::string::StringExecFns;

use crate::parse::{metrics_result_of, peer_counts_of, scrape_payload, MetricsResult};
use crate::spawn::{dec_str, u64_to_string};

verus! {

/// The retry bound of one scrape.
pub const MAX_RETRIES: u32 = 5;

/// The backoff floor of the first retry delay, in milliseconds.
pub const INITIAL_BACKOFF_MS: u64 = 100;

/// The exclusive upper bound of the random jitter, in milliseconds.
pub const JITTER_BOUND_MS: u64 = 100;

/// A reusable retry policy: how many attempts a scrape makes, the base
/// delay its backoff starts from, and how much jitter each delay may carry.
#[derive(Clone, Copy, Debug)]
pub struct BackoffPolicy {
    pub max_attempts: u32,
    pub base_delay_ms: u64,
    pub jitter_bound_ms: u64,
}

/// Two to the power `k` (one for non-positive `k`).
pub open spec fn pow2(k: int) -> int
    decreases k,
{
    if k <= 0 {
        1
    } else {
        2 * pow2(k - 1)
    }
}

/// The deterministic part of the delay after attempt `attempt`:
/// the base delay doubled `attempt` times.
pub open spec fn base_backoff(p: BackoffPolicy, attempt: int) -> int {
    p.base_delay_ms * pow2(attempt)
}

impl BackoffPolicy {
    /// A policy is well-formed when it admits at least one attempt, has a
    /// positive base delay and jitter bound, and its largest possible delay
    /// fits in 64 bits.
    pub open spec fn wf(&self) -> bool {
        &&& 1 <= self.max_attempts <= 32
        &&& self.base_delay_ms >= 1
        &&& self.jitter_bound_ms >= 1
        &&& self.base_delay_ms * pow2(self.max_attempts - 1) + self.jitter_bound_ms <= u64::MAX
    }

    /// The scraper's policy: five attempts, backoff from 100 ms, jitter
    /// below 100 ms.
    pub fn scraper_default() -> (p: BackoffPolicy)
        ensures
            p.wf(),
            p.max_attempts == MAX_RETRIES,
            p.base_delay_ms == INITIAL_BACKOFF_MS,
            p.jitter_bound_ms == JITTER_BOUND_MS,
    {
        let p = BackoffPolicy {
            max_attempts: MAX_RETRIES,
            base_delay_ms: INITIAL_BACKOFF_MS,
            jitter_bound_ms: JITTER_BOUND_MS,
        };
        proof {
            reveal_with_fuel(pow2, 5);
            assert(pow2(4) == 16);
        }
        p
    }
}

/// Powers of two are positive.
pub proof fn lemma_pow2_pos(k: int)
    ensures
        pow2(k) >= 1,
    decreases k,
{
    if k > 0 {
        lemma_pow2_pos(k - 1);
    }
}

/// Powers of two never decrease with the exponent.
pub proof fn lemma_pow2_mono(k1: int, k2: int)
    requires
        k1 <= k2,
    ensures
        pow2(k1) <= pow2(k2),
    decreases k2 - k1,
{
    if k1 < k2 {
        lemma_pow2_mono(k1, k2 - 1);
        lemma_pow2_pos(k2 - 1);
    }
}

/// Law: ignoring jitter, the delay floor never decreases with the attempt
/// index.
pub proof fn lemma_backoff_monotone(p: BackoffPolicy, a1: int, a2: int)
    requires
        p.wf(),
        a1 <= a2,
    ensures
        base_backoff(p, a1) <= base_backoff(p, a2),
{
    lemma_pow2_mono(a1, a2);
    assert(p.base_delay_ms * pow2(a1) <= p.base_delay_ms * pow2(a2)) by (nonlinear_arith)
        requires
            pow2(a1) <= pow2(a2),
            p.base_delay_ms >= 1,
    ;
}

/// A well-formed policy's delay floor fits under `u64::MAX` with room for
/// the jitter.
proof fn lemma_backoff_fits(p: BackoffPolicy, attempt: int)
    requires
        p.wf(),
        0 <= attempt < p.max_attempts,
    ensures
        base_backoff(p, attempt) >= 1,
        base_backoff(p, attempt) + p.jitter_bound_ms <= u64::MAX,
{
    lemma_pow2_pos(attempt);
    assert(p.base_delay_ms * pow2(attempt) >= 1) by (nonlinear_arith)
        requires
            p.base_delay_ms >= 1,
            pow2(attempt) >= 1,
    ;
    lemma_backoff_monotone(p, attempt, p.max_attempts - 1);
}

/// The delay before the retry after attempt `attempt`: the backoff floor
/// for that attempt plus the jitter reduced to the policy's bound.
pub fn backoff_delay_ms(p: &BackoffPolicy, attempt: u32, jitter: u64) -> (r: u64)
    requires
        p.wf(),
        attempt < p.max_attempts,
    ensures
        r == base_backoff(*p, attempt as int) + jitter % p.jitter_bound_ms,
        base_backoff(*p, attempt as int) <= r < base_backoff(*p, attempt as int)
            + p.jitter_bound_ms,
{
    proof {
        lemma_backoff_fits(*p, attempt as int);
    }
    let mut pw: u64 = 1;
    let mut k: u32 = 0;
    while k < attempt
        invariant
            0 <= k <= attempt < p.max_attempts,
            p.wf(),
            pw == pow2(k as int),
        decreases attempt - k,
    {
        proof {
            lemma_pow2_pos(k as int);
            lemma_backoff_fits(*p, k + 1 as int);
            assert(2 * pow2(k as int) <= p.base_delay_ms * pow2(k + 1 as int)) by (
            nonlinear_arith)
                requires
                    p.base_delay_ms >= 1,
                    pow2(k + 1 as int) == 2 * pow2(k as int),
                    pow2(k as int) >= 1,
            ;
        }
        pw = pw * 2;
        k += 1;
    }
    proof {
        assert(p.base_delay_ms * pw == base_backoff(*p, attempt as int));
    }
    let floor = p.base_delay_ms * pw;
    floor + jitter % p.jitter_bound_ms
}

/// Relies on `rand::random`: draws a value; nothing is promised of it.
pub assume_specification<T>[ rand::random::<T> ]() -> (r: T)
    where
        rand::distributions::Standard: rand::distributions::Distribution<T>,
;

/// The delay before the retry after attempt `attempt`, with freshly drawn
/// jitter: at least the backoff floor for that attempt, and below the floor
/// plus the jitter bound, whatever the draw returned.
pub fn scrape_delay_ms(p: &BackoffPolicy, attempt: u32) -> (r: u64)
    requires
        p.wf(),
        attempt < p.max_attempts,
    ensures
        base_backoff(*p, attempt as int) <= r < base_backoff(*p, attempt as int)
            + p.jitter_bound_ms,
{
    let jitter = rand::random::<u64>();
    backoff_delay_ms(p, attempt, jitter)
}

/// The identity a scrape error names, so that one probe's failure can be
/// told apart in a fleet of identical-looking probes: operator, network,
/// bootnode address, and both allocated ports.
pub open spec fn target_id_text(
    operator: Seq<char>,
    network: Seq<char>,
    bootnode: Seq<char>,
    prometheus_port: u16,
    p2p_port: u16,
) -> Seq<char> {
    operator + "/"@ + network + " (bootnode: "@ + bootnode + ", ports: prometheus="@ + dec_str(
        prometheus_port as int,
    ) + ", p2p="@ + dec_str(p2p_port as int) + ")"@
}

/// Renders the identity every scrape error carries, as `target_id_text`
/// describes.
pub fn scrape_target_id(
    operator: &str,
    network: &str,
    bootnode: &str,
    prometheus_port: u16,
    p2p_port: u16,
) -> (r: String)
    ensures
        r@ == target_id_text(operator@, network@, bootnode@, prometheus_port, p2p_port),
{
    let mut s = operator.to_owned();
    s.append("/");
    s.append(network);
    s.append(" (bootnode: ");
    s.append(bootnode);
    s.append(", ports: prometheus=");
    let pp = u64_to_string(prometheus_port as u64);
    s.append(pp.as_str());
    s.append(", p2p=");
    let p2 = u64_to_string(p2p_port as u64);
    s.append(p2.as_str());
    s.append(")");
    proof {
        assert(s@ =~= target_id_text(operator@, network@, bootnode@, prometheus_port, p2p_port));
    }
    s
}

/// The scraper's error when the endpoint could not be reached, with the
/// transport detail appended.
pub fn connect_error_message(
    operator: &str,
    network: &str,
    bootnode: &str,
    prometheus_port: u16,
    p2p_port: u16,
    detail: &str,
) -> (r: String)
    ensures
        r@ == "Failed to connect to metrics endpoint for "@ + target_id_text(
            operator@,
            network@,
            bootnode@,
            prometheus_port,
            p2p_port,
        ) + ": "@ + detail@,
{
    let mut s = String::from_str("Failed to connect to metrics endpoint for ");
    let id = scrape_target_id(operator, network, bootnode, prometheus_port, p2p_port);
    s.append(id.as_str());
    s.append(": ");
    s.append(detail);
    proof {
        assert(s@ =~= "Failed to connect to metrics endpoint for "@ + target_id_text(
            operator@,
            network@,
            bootnode@,
            prometheus_port,
            p2p_port,
        ) + ": "@ + detail@);
    }
    s
}

/// The scraper's error when the endpoint answered with a non-success
/// status, whose text comes first.
pub fn status_error_message(
    operator: &str,
    network: &str,
    bootnode: &str,
    prometheus_port: u16,
    p2p_port: u16,
    status: &str,
) -> (r: String)
    ensures
        r@ == "Bad status "@ + status@ + " from metrics endpoint for "@ + target_id_text(
            operator@,
            network@,
            bootnode@,
            prometheus_port,
            p2p_port,
        ),
{
    let mut s = String::from_str("Bad status ");
    s.append(status);
    s.append(" from metrics endpoint for ");
    let id = scrape_target_id(operator, network, bootnode, prometheus_port, p2p_port);
    s.append(id.as_str());
    proof {
        assert(s@ =~= "Bad status "@ + status@ + " from metrics endpoint for "@ + target_id_text(
            operator@,
            network@,
            bootnode@,
            prometheus_port,
            p2p_port,
        ));
    }
    s
}

/// The scraper's error when the response body could not be read, with the
/// transport detail appended.
pub fn read_error_message(
    operator: &str,
    network: &str,
    bootnode: &str,
    prometheus_port: u16,
    p2p_port: u16,
    detail: &str,
) -> (r: String)
    ensures
        r@ == "Failed to read metrics response for "@ + target_id_text(
            operator@,
            network@,
            bootnode@,
            prometheus_port,
            p2p_port,
        ) + ": "@ + detail@,
{
    let mut s = String::from_str("Failed to read metrics response for ");
    let id = scrape_target_id(operator, network, bootnode, prometheus_port, p2p_port);
    s.append(id.as_str());
    s.append(": ");
    s.append(detail);
    proof {
        assert(s@ =~= "Failed to read metrics response for "@ + target_id_text(
            operator@,
            network@,
            bootnode@,
            prometheus_port,
            p2p_port,
        ) + ": "@ + detail@);
    }
    s
}

/// One fetch attempt of a scrape as the application observed it: the
/// payload the endpoint served, or the transport error.
#[derive(Clone, Debug)]
pub enum FetchAttempt {
    Fetched(Vec<u8>),
    FetchFailed(String),
}

/// The index of the first successful fetch at or after `i`, or `bound` if
/// the first `bound` attempts all failed.
pub open spec fn first_fetch(attempts: Seq<FetchAttempt>, i: int, bound: int) -> int
    decreases bound - i,
    when 0 <= i <= bound <= attempts.len()
{
    if i >= bound {
        bound
    } else if attempts[i] is Fetched {
        i
    } else {
        first_fetch(attempts, i + 1, bound)
    }
}

/// An index `r` before which nothing was fetched, and at which either the
/// bound is reached or a fetch succeeded, is what `first_fetch` finds.
pub proof fn lemma_first_fetch_char(attempts: Seq<FetchAttempt>, i: int, r: int, bound: int)
    requires
        0 <= i <= r <= bound <= attempts.len(),
        forall|j: int| i <= j < r ==> !(#[trigger] attempts[j] is Fetched),
        r == bound || attempts[r] is Fetched,
    ensures
        first_fetch(attempts, i, bound) == r,
    decreases r - i,
{
    if i < r {
        lemma_first_fetch_char(attempts, i + 1, r, bound);
    }
}

/// Law: a scrape transcript that fails on every attempt consumes exactly
/// the configured retry bound.
pub proof fn lemma_scraper_exhausts_budget(attempts: Seq<FetchAttempt>, bound: int)
    requires
        0 <= bound <= attempts.len(),
        forall|j: int| 0 <= j < bound ==> !(#[trigger] attempts[j] is Fetched),
    ensures
        first_fetch(attempts, 0, bound) == bound,
{
    lemma_first_fetch_char(attempts, 0, bound, bound);
}

/// What one whole scrape came to: how many fetch attempts it consumed, and
/// either the parsed result of the first payload served, or the error of
/// the last attempt once the retry bound was exhausted.
#[derive(Debug)]
pub struct ScrapeRun {
    pub attempts_used: usize,
    pub result: Result<MetricsResult, String>,
}

/// Folds a transcript of fetch attempts under the retry policy: the first
/// served payload is parsed and returned; if the first `max_attempts`
/// attempts all failed, the last error is returned.  Exactly the consumed
/// attempts are counted.
pub fn check_discovered_peers(attempts: &Vec<FetchAttempt>, p: &BackoffPolicy) -> (r: ScrapeRun)
    requires
        p.wf(),
        attempts@.len() >= p.max_attempts,
    ensures
        ({
            let k = first_fetch(attempts@, 0, p.max_attempts as int);
            &&& (k < p.max_attempts ==> r.attempts_used == k + 1 && attempts@[k] is Fetched
                && r.result == Ok::<MetricsResult, String>(
                metrics_result_of(peer_counts_of(attempts@[k]->Fetched_0@)),
            ))
            &&& (k == p.max_attempts ==> r.attempts_used == p.max_attempts && attempts@[k
                - 1] is FetchFailed && r.result == Err::<MetricsResult, String>(
                attempts@[k - 1]->FetchFailed_0,
            ))
        }),
{
    let bound = p.max_attempts as usize;
    let mut i: usize = 0;
    while i < bound
        invariant
            0 <= i <= bound,
            bound == p.max_attempts,
            attempts@.len() >= bound,
            forall|j: int| 0 <= j < i ==> !(#[trigger] attempts@[j] is Fetched),
        decreases bound - i,
    {
        match &attempts[i] {
            FetchAttempt::Fetched(payload) => {
                proof {
                    lemma_first_fetch_char(attempts@, 0, i as int, bound as int);
                }
                let m = scrape_payload(payload.as_slice());
                return ScrapeRun { attempts_used: i + 1, result: Ok(m) };
            },
            FetchAttempt::FetchFailed(_) => {},
        }
        i += 1;
    }
    proof {
        lemma_scraper_exhausts_budget(attempts@, bound as int);
    }
    match &attempts[bound - 1] {
        FetchAttempt::FetchFailed(e) => ScrapeRun {
            attempts_used: bound,
            result: Err(e.clone()),
        },
        FetchAttempt::Fetched(_) => {
            proof {
                assert(false);
            }
            ScrapeRun { attempts_used: bound, result: Err(String::new()) }
        },
    }
}

} // verus!

//! The per-target polling state machine.
//!
//! A probe polls its node's metrics endpoint until one of four terminal
//! states: the discovered-peer count reached the configured minimum
//! (`Success`), no recognized metric appeared often enough in a row
//! (`NoMetricFound`), the endpoint was unreachable or erroring often enough
//! in a row (`MetricsUnavailable`), or the deadline passed (`Timeout`).
//! A scrape whose count is still below the minimum resets the
//! consecutive-failure counter and polling continues.
//!
//! The machine itself is pure: the surrounding application performs the
//! scrapes and sleeps, and feeds each result to `poll_step`; `run_poller`
//! folds a whole transcript of scrape results, where exhausting the
//! transcript models reaching the deadline.

use vstd::prelude::*;

use crate::outcome::TestStatus;
use crate::parse::{metrics_result_of, peer_counts_of, MetricsResult, MetricsStatus};

verus! {

/// How many consecutive failed polls end a probe early.
pub const MAX_CONSECUTIVE_FAILURES: u32 = 3;

/// One event the poller consumes: a scrape that produced a result, or a
/// scraper that gave up after its retries (with its error text).
#[derive(Clone, Debug)]
pub enum ScrapeEvent {
    Scraped(MetricsResult),
    ScrapeFailed(String),
}

/// The terminal outcome of polling one target.
#[derive(Clone, Debug)]
pub struct PollOutcome {
    pub discovered_peers: u64,
    pub status: TestStatus,
    pub error_details: Option<String>,
}

/// What one poll step decides: keep polling (with the new
/// consecutive-failure count) or stop with a terminal outcome.
#[derive(Clone, Debug)]
pub enum PollStep {
    Continue(u32),
    Done(PollOutcome),
}

/// The transition function of the state machine: from the current
/// consecutive-failure count and one event to the next state.
pub open spec fn step_spec(failures: u32, ev: ScrapeEvent, min_peers: u64) -> PollStep
    recommends
        failures < MAX_CONSECUTIVE_FAILURES,
{
    match ev {
        ScrapeEvent::Scraped(m) => match m.status {
            MetricsStatus::Available => if m.peers >= min_peers {
                PollStep::Done(
                    PollOutcome {
                        discovered_peers: m.peers,
                        status: TestStatus::Success,
                        error_details: None,
                    },
                )
            } else {
                PollStep::Continue(0)
            },
            MetricsStatus::NoMetricFound => if failures + 1 >= MAX_CONSECUTIVE_FAILURES {
                PollStep::Done(
                    PollOutcome {
                        discovered_peers: 0,
                        status: TestStatus::NoMetricFound,
                        error_details: None,
                    },
                )
            } else {
                PollStep::Continue((failures + 1) as u32)
            },
            MetricsStatus::Unavailable(reason) => if failures + 1 >= MAX_CONSECUTIVE_FAILURES {
                PollStep::Done(
                    PollOutcome {
                        discovered_peers: 0,
                        status: TestStatus::MetricsUnavailable,
                        error_details: Some(reason),
                    },
                )
            } else {
                PollStep::Continue((failures + 1) as u32)
            },
        },
        ScrapeEvent::ScrapeFailed(err) => if failures + 1 >= MAX_CONSECUTIVE_FAILURES {
            PollStep::Done(
                PollOutcome {
                    discovered_peers: 0,
                    status: TestStatus::MetricsUnavailable,
                    error_details: Some(err),
                },
            )
        } else {
            PollStep::Continue((failures + 1) as u32)
        },
    }
}

/// Performs one step of the state machine, as `step_spec` describes.
pub fn poll_step(failures: u32, ev: &ScrapeEvent, min_peers: u64) -> (r: PollStep)
    requires
        failures < MAX_CONSECUTIVE_FAILURES,
    ensures
        r == step_spec(failures, *ev, min_peers),
        r is Continue ==> r->Continue_0 < MAX_CONSECUTIVE_FAILURES,
{
    match ev {
        ScrapeEvent::Scraped(m) => match &m.status {
            MetricsStatus::Available => {
                if m.peers >= min_peers {
                    PollStep::Done(
                        PollOutcome {
                            discovered_peers: m.peers,
                            status: TestStatus::Success,
                            error_details: None,
                        },
                    )
                } else {
                    PollStep::Continue(0)
                }
            },
            MetricsStatus::NoMetricFound => {
                if failures + 1 >= MAX_CONSECUTIVE_FAILURES {
                    PollStep::Done(
                        PollOutcome {
                            discovered_peers: 0,
                            status: TestStatus::NoMetricFound,
                            error_details: None,
                        },
                    )
                } else {
                    PollStep::Continue(failures + 1)
                }
            },
            MetricsStatus::Unavailable(reason) => {
                if failures + 1 >= MAX_CONSECUTIVE_FAILURES {
                    PollStep::Done(
                        PollOutcome {
                            discovered_peers: 0,
                            status: TestStatus::MetricsUnavailable,
                            error_details: Some(reason.clone()),
                        },
                    )
                } else {
                    PollStep::Continue(failures + 1)
                }
            },
        },
        ScrapeEvent::ScrapeFailed(err) => {
            if failures + 1 >= MAX_CONSECUTIVE_FAILURES {
                PollStep::Done(
                    PollOutcome {
                        discovered_peers: 0,
                        status: TestStatus::MetricsUnavailable,
                        error_details: Some(err.clone()),
                    },
                )
            } else {
                PollStep::Continue(failures + 1)
            }
        },
    }
}

/// The outcome of folding a transcript of events from a given state.
/// An exhausted transcript means the deadline passed while still polling.
pub open spec fn poll_from(events: Seq<ScrapeEvent>, min_peers: u64, failures: u32) -> PollOutcome
    decreases events.len(),
{
    if events.len() == 0 {
        PollOutcome { discovered_peers: 0, status: TestStatus::Timeout, error_details: None }
    } else {
        match step_spec(failures, events.first(), min_peers) {
            PollStep::Done(o) => o,
            PollStep::Continue(f2) => poll_from(events.drop_first(), min_peers, f2),
        }
    }
}

/// The outcome of a whole poll, started with no failures on record.
pub open spec fn poll_outcome_of(events: Seq<ScrapeEvent>, min_peers: u64) -> PollOutcome {
    poll_from(events, min_peers, 0)
}

/// Folds a transcript of scrape results to the probe's terminal outcome, as
/// `poll_outcome_of` describes.  The transcript holds the scrapes that fit
/// before the deadline; the poller never consumes events past its first
/// terminal state.
pub fn run_poller(events: &Vec<ScrapeEvent>, min_peers: u64) -> (r: PollOutcome)
    ensures
        r == poll_outcome_of(events@, min_peers),
{
    let n = events.len();
    let mut failures: u32 = 0;
    let mut i: usize = 0;
    proof {
        assert(events@.skip(0) =~= events@);
    }
    while i < n
        invariant
            0 <= i <= n,
            n == events@.len(),
            failures < MAX_CONSECUTIVE_FAILURES,
            poll_outcome_of(events@, min_peers) == poll_from(
                events@.skip(i as int),
                min_peers,
                failures,
            ),
        decreases n - i,
    {
        proof {
            assert(events@.skip(i as int).first() == events@[i as int]);
            assert(events@.skip(i as int).drop_first() =~= events@.skip(i + 1 as int));
        }
        match poll_step(failures, &events[i], min_peers) {
            PollStep::Done(o) => {
                return o;
            },
            PollStep::Continue(f2) => {
                failures = f2;
            },
        }
        i += 1;
    }
    proof {
        assert(events@.skip(n as int).len() == 0);
    }
    PollOutcome { discovered_peers: 0, status: TestStatus::Timeout, error_details: None }
}

/// Law: a scrape of a payload whose discovered-peer count `v` is at least
/// `min_peers` drives the poller, whatever its state, straight to `Success`
/// carrying `v`; any events after it are never consumed.
pub proof fn lemma_payload_at_minimum_succeeds(
    events: Seq<ScrapeEvent>,
    payload: Seq<u8>,
    v: u64,
    min_peers: u64,
    failures: u32,
)
    requires
        failures < MAX_CONSECUTIVE_FAILURES,
        events.len() > 0,
        events.first() == ScrapeEvent::Scraped(metrics_result_of(peer_counts_of(payload))),
        peer_counts_of(payload).discovered == Some(v),
        v >= min_peers,
    ensures
        poll_from(events, min_peers, failures) == (PollOutcome {
            discovered_peers: v,
            status: TestStatus::Success,
            error_details: None,
        }),
{
    let m = metrics_result_of(peer_counts_of(payload));
    assert(m.peers == v);
    assert(m.status is Available);
}

/// Whether an event is a scrape that served metrics but contained no
/// recognized metric name.
pub open spec fn is_no_metric_scrape(ev: ScrapeEvent) -> bool {
    match ev {
        ScrapeEvent::Scraped(m) => m.status is NoMetricFound,
        ScrapeEvent::ScrapeFailed(_) => false,
    }
}

/// Law: three consecutive scrapes of payloads with no recognized metric end
/// the poll in `NoMetricFound`, however many further events the deadline
/// would still have allowed.
pub proof fn lemma_no_metric_found_early(events: Seq<ScrapeEvent>, min_peers: u64)
    requires
        events.len() >= 3,
        forall|i: int| 0 <= i < 3 ==> is_no_metric_scrape(#[trigger] events[i]),
    ensures
        poll_outcome_of(events, min_peers) == (PollOutcome {
            discovered_peers: 0,
            status: TestStatus::NoMetricFound,
            error_details: None,
        }),
{
    let e1 = events.drop_first();
    let e2 = e1.drop_first();
    assert(e1[0] == events[1] && e1[1] == events[2]);
    assert(e2[0] == events[2]);
    assert(step_spec(0, events.first(), min_peers) == PollStep::Continue(1u32));
    assert(step_spec(1, e1.first(), min_peers) == PollStep::Continue(2u32));
    assert(step_spec(2, e2.first(), min_peers) == PollStep::Done(
        PollOutcome {
            discovered_peers: 0,
            status: TestStatus::NoMetricFound,
            error_details: None,
        },
    ));
    assert(poll_from(events, min_peers, 0) == poll_from(e1, min_peers, 1));
    assert(poll_from(e1, min_peers, 1) == poll_from(e2, min_peers, 2));
}

} // verus!


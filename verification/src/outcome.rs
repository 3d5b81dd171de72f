//! Durable probe outcomes and per-cycle aggregation.

use vstd::prelude::*;

use crate::poller::PollOutcome;

verus! {

/// How a probe ended.
#[derive(Clone, Copy, Debug, PartialEq, Eq, Structural)]
pub enum TestStatus {
    Success,
    MetricsUnavailable,
    NoMetricFound,
    Timeout,
    NodeStartupFailed,
}

/// The label under which a status appears in the persisted result document.
pub open spec fn status_label(s: TestStatus) -> Seq<char> {
    match s {
        TestStatus::Success => "success"@,
        TestStatus::MetricsUnavailable => "metricsUnavailable"@,
        TestStatus::NoMetricFound => "noMetricFound"@,
        TestStatus::Timeout => "timeout"@,
        TestStatus::NodeStartupFailed => "nodeStartupFailed"@,
    }
}

impl TestStatus {
    /// The status's label in the persisted result document.
    pub fn label(&self) -> (r: &'static str)
        ensures
            r@ == status_label(*self),
    {
        match self {
            TestStatus::Success => "success",
            TestStatus::MetricsUnavailable => "metricsUnavailable",
            TestStatus::NoMetricFound => "noMetricFound",
            TestStatus::Timeout => "timeout",
            TestStatus::NodeStartupFailed => "nodeStartupFailed",
        }
    }
}

/// The durable result of one probe.  `valid` means the probe succeeded and
/// discovered at least the configured minimum of peers.
#[derive(Clone, Debug)]
pub struct TestResult {
    pub id: String,
    pub network: String,
    pub bootnode: String,
    pub valid: bool,
    pub test_duration_ms: u64,
    pub discovered_peers: u64,
    pub status: TestStatus,
    pub error_details: Option<String>,
}

impl TestResult {
    /// A field-for-field copy of the result.
    pub fn clone_record(&self) -> (r: TestResult)
        ensures
            r == *self,
    {
        TestResult {
            id: self.id.clone(),
            network: self.network.clone(),
            bootnode: self.bootnode.clone(),
            valid: self.valid,
            test_duration_ms: self.test_duration_ms,
            discovered_peers: self.discovered_peers,
            status: self.status,
            error_details: match &self.error_details {
                Some(e) => Some(e.clone()),
                None => None,
            },
        }
    }
}

/// The outcome of a probe whose node process failed to start: never valid,
/// no peers, and the startup error captured.
pub fn startup_failure_result(
    operator: &str,
    network: &str,
    bootnode: &str,
    test_duration_ms: u64,
    error: String,
) -> (r: TestResult)
    ensures
        r.id@ == operator@,
        r.network@ == network@,
        r.bootnode@ == bootnode@,
        r.valid == false,
        r.test_duration_ms == test_duration_ms,
        r.discovered_peers == 0,
        r.status == TestStatus::NodeStartupFailed,
        r.error_details == Some(error),
{
    TestResult {
        id: operator.to_owned(),
        network: network.to_owned(),
        bootnode: bootnode.to_owned(),
        valid: false,
        test_duration_ms,
        discovered_peers: 0,
        status: TestStatus::NodeStartupFailed,
        error_details: Some(error),
    }
}

/// The outcome of a probe that ran its polling to a terminal state.  The
/// probe is valid exactly when polling ended in `Success` with at least
/// `min_peers` discovered peers.
pub fn completed_result(
    operator: &str,
    network: &str,
    bootnode: &str,
    outcome: PollOutcome,
    test_duration_ms: u64,
    min_peers: u64,
) -> (r: TestResult)
    ensures
        r.id@ == operator@,
        r.network@ == network@,
        r.bootnode@ == bootnode@,
        r.valid == (outcome.status == TestStatus::Success && outcome.discovered_peers
            >= min_peers),
        r.test_duration_ms == test_duration_ms,
        r.discovered_peers == outcome.discovered_peers,
        r.status == outcome.status,
        r.error_details == outcome.error_details,
{
    let valid = outcome.status == TestStatus::Success && outcome.discovered_peers >= min_peers;
    TestResult {
        id: operator.to_owned(),
        network: network.to_owned(),
        bootnode: bootnode.to_owned(),
        valid,
        test_duration_ms,
        discovered_peers: outcome.discovered_peers,
        status: outcome.status,
        error_details: outcome.error_details,
    }
}

/// The aggregate over one full pass of the target set.
#[derive(Clone, Debug)]
pub struct CycleSummary {
    pub total_tests: usize,
    pub success_count: usize,
    pub failed_tests: Vec<(String, String, String)>,
}

/// How many results of a cycle are valid.
pub open spec fn success_count_of(s: Seq<TestResult>) -> int
    decreases s.len(),
{
    if s.len() == 0 {
        0
    } else {
        success_count_of(s.drop_last()) + if s.last().valid {
            1int
        } else {
            0int
        }
    }
}

/// The (network, operator, bootnode) triples of the invalid results of a
/// cycle, in order.
pub open spec fn failed_triples_of(s: Seq<TestResult>) -> Seq<(String, String, String)>
    decreases s.len(),
{
    if s.len() == 0 {
        Seq::empty()
    } else {
        failed_triples_of(s.drop_last()) + if !s.last().valid {
            seq![(s.last().network, s.last().id, s.last().bootnode)]
        } else {
            Seq::empty()
        }
    }
}

/// The count never exceeds the number of results.
proof fn lemma_success_count_bound(s: Seq<TestResult>)
    ensures
        0 <= success_count_of(s) <= s.len(),
    decreases s.len(),
{
    if s.len() > 0 {
        lemma_success_count_bound(s.drop_last());
    }
}

/// Aggregates a cycle: the number of targets the cycle launched (a unit
/// may die without producing an outcome, so this can exceed the collected
/// results), the number of valid results, and the identifying triple of
/// every invalid one.
pub fn summarize_cycle(total_tests: usize, results: &Vec<TestResult>) -> (r: CycleSummary)
    ensures
        r.total_tests == total_tests,
        r.success_count == success_count_of(results@),
        r.failed_tests@ == failed_triples_of(results@),
{
    let n = results.len();
    let mut success_count: usize = 0;
    let mut failed_tests: Vec<(String, String, String)> = Vec::new();
    let mut i: usize = 0;
    while i < n
        invariant
            0 <= i <= n,
            n == results@.len(),
            success_count == success_count_of(results@.take(i as int)),
            failed_tests@ == failed_triples_of(results@.take(i as int)),
        decreases n - i,
    {
        proof {
            assert(results@.take(i + 1 as int).drop_last() =~= results@.take(i as int));
            assert(results@.take(i + 1 as int).last() == results@[i as int]);
            lemma_success_count_bound(results@.take(i as int));
        }
        let res = &results[i];
        if res.valid {
            success_count += 1;
        } else {
            failed_tests.push((res.network.clone(), res.id.clone(), res.bootnode.clone()));
            proof {
                assert(failed_tests@ =~= failed_triples_of(results@.take(i + 1 as int)));
            }
        }
        i += 1;
    }
    proof {
        assert(results@.take(n as int) =~= results@);
    }
    CycleSummary { total_tests, success_count, failed_tests }
}

} // verus!

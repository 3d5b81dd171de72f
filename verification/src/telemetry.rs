//! What the exported telemetry records about one outcome.
//!
//! The registry and the pull endpoint live in the surrounding application;
//! this module computes the update the exporter applies for one probe: the
//! label classification (relay-chain versus parachain bootnode, websocket
//! versus plain TCP address) and the gauge values.

use vstd::prelude::*;

use crate::outcome::TestResult;

verus! {

/// A network name with a hyphen denotes a parachain; the label of its
/// bootnodes is `parachain`, otherwise `relay`.
pub fn bootnode_type_label(network: &str) -> (r: &'static str)
    ensures
        r@ == if network@.contains('-') {
            "parachain"@
        } else {
            "relay"@
        },
{
    let n = network.unicode_len();
    let mut i: usize = 0;
    while i < n
        invariant
            0 <= i <= n,
            n == network@.len(),
            forall|j: int| 0 <= j < i ==> network@[j] != '-',
        decreases n - i,
    {
        if network.get_char(i) == '-' {
            proof {
                assert(network@.contains('-'));
            }
            return "parachain";
        }
        i += 1;
    }
    proof {
        assert(!network@.contains('-'));
    }
    "relay"
}

/// The websocket marker inside a multiaddress.
pub open spec fn wss_marker() -> Seq<char> {
    "/wss/"@
}

/// Whether an address contains the websocket marker.
pub open spec fn has_wss(s: Seq<char>) -> bool {
    exists|i: int| 0 <= i && i + 5 <= s.len() && #[trigger] s.subrange(i, i + 5) == wss_marker()
}

/// A bootnode address with a `/wss/` segment is labeled `websocket`,
/// otherwise `tcp`.
pub fn protocol_label(bootnode: &str) -> (r: &'static str)
    ensures
        r@ == if has_wss(bootnode@) {
            "websocket"@
        } else {
            "tcp"@
        },
{
    let n = bootnode.unicode_len();
    if n < 5 {
        return "tcp";
    }
    let mut i: usize = 0;
    while i <= n - 5
        invariant
            5 <= n,
            0 <= i <= n - 4,
            n == bootnode@.len(),
            forall|j: int| 0 <= j < i ==> #[trigger] bootnode@.subrange(j, j + 5) != wss_marker(),
        decreases n - i,
    {
        let c0 = bootnode.get_char(i);
        let c1 = bootnode.get_char(i + 1);
        let c2 = bootnode.get_char(i + 2);
        let c3 = bootnode.get_char(i + 3);
        let c4 = bootnode.get_char(i + 4);
        if c0 == '/' && c1 == 'w' && c2 == 's' && c3 == 's' && c4 == '/' {
            proof {
                reveal_strlit("/wss/");
                assert(wss_marker().len() == 5);
                assert(bootnode@.subrange(i as int, i + 5 as int) =~= wss_marker());
                assert(has_wss(bootnode@));
            }
            return "websocket";
        }
        proof {
            reveal_strlit("/wss/");
            let sub = bootnode@.subrange(i as int, i + 5 as int);
            assert(sub[0] == bootnode@[i as int] && sub[1] == bootnode@[i + 1] && sub[2]
                == bootnode@[i + 2] && sub[3] == bootnode@[i + 3] && sub[4] == bootnode@[i + 4]);
            assert(sub != wss_marker());
        }
        i += 1;
    }
    proof {
        assert(!has_wss(bootnode@));
    }
    "tcp"
}

/// The update the exporter applies for one outcome: the identifying
/// labels, the classification labels, the gauge values, and the failure
/// reason to count, if any.
#[derive(Clone, Debug)]
pub struct TelemetryUpdate {
    pub network: String,
    pub provider: String,
    pub bootnode_type: String,
    pub protocol: String,
    pub discovered_peers: u64,
    pub test_duration_ms: u64,
    pub success_flag: u64,
    pub failure_reason: Option<String>,
}

/// Computes the exporter's update for one outcome: gauges carry the
/// discovered-peer count and the duration, the success gauges carry one
/// exactly when the outcome is valid, and an error detail becomes a
/// counted failure reason.
pub fn telemetry_update(
    network: &str,
    provider: &str,
    bootnode: &str,
    result: &TestResult,
) -> (u: TelemetryUpdate)
    ensures
        u.network@ == network@,
        u.provider@ == provider@,
        u.bootnode_type@ == if network@.contains('-') {
            "parachain"@
        } else {
            "relay"@
        },
        u.protocol@ == if has_wss(bootnode@) {
            "websocket"@
        } else {
            "tcp"@
        },
        u.discovered_peers == result.discovered_peers,
        u.test_duration_ms == result.test_duration_ms,
        u.success_flag == if result.valid {
            1int
        } else {
            0int
        },
        u.failure_reason == result.error_details,
{
    TelemetryUpdate {
        network: network.to_owned(),
        provider: provider.to_owned(),
        bootnode_type: bootnode_type_label(network).to_owned(),
        protocol: protocol_label(bootnode).to_owned(),
        discovered_peers: result.discovered_peers,
        test_duration_ms: result.test_duration_ms,
        success_flag: if result.valid {
            1
        } else {
            0
        },
        failure_reason: match &result.error_details {
            Some(e) => Some(e.clone()),
            None => None,
        },
    }
}

} // verus!

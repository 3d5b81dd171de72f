//! The launch plan of one probe's node process.
//!
//! A probe spawns an external node that dials exactly one bootnode.  This
//! module computes everything about that launch that is plain data: the
//! binary choice by command kind, the private working directory and
//! chain-specification paths, the full argument list (hardware benchmarks
//! and local discovery off, metrics exposed on the allocated port), the
//! relay-chain endpoint a parachain target derives from its network name,
//! and the URL the scraper later polls.  The surrounding application
//! creates the directory, checks the chain-specification file exists, and
//! spawns the process.

use vstd::prelude::*;
use vstd::string::StrSliceExecFns;
use vstd::string::StringExecFns;

verus! {

/// The character of a single decimal digit.
pub open spec fn dec_digit(d: int) -> char {
    if d == 0 {
        '0'
    } else if d == 1 {
        '1'
    } else if d == 2 {
        '2'
    } else if d == 3 {
        '3'
    } else if d == 4 {
        '4'
    } else if d == 5 {
        '5'
    } else if d == 6 {
        '6'
    } else if d == 7 {
        '7'
    } else if d == 8 {
        '8'
    } else {
        '9'
    }
}

/// The decimal rendering of a non-negative integer, without leading zeros.
pub open spec fn dec_str(n: int) -> Seq<char>
    decreases n,
{
    if n < 10 {
        seq![dec_digit(n)]
    } else {
        dec_str(n / 10).push(dec_digit(n % 10))
    }
}

fn digit_str(d: u64) -> (r: &'static str)
    requires
        d < 10,
    ensures
        r@ == seq![dec_digit(d as int)],
{
    if d == 0 {
        proof {
            reveal_strlit("0");
            assert("0"@ =~= seq![dec_digit(0)]);
        }
        "0"
    } else if d == 1 {
        proof {
            reveal_strlit("1");
            assert("1"@ =~= seq![dec_digit(1)]);
        }
        "1"
    } else if d == 2 {
        proof {
            reveal_strlit("2");
            assert("2"@ =~= seq![dec_digit(2)]);
        }
        "2"
    } else if d == 3 {
        proof {
            reveal_strlit("3");
            assert("3"@ =~= seq![dec_digit(3)]);
        }
        "3"
    } else if d == 4 {
        proof {
            reveal_strlit("4");
            assert("4"@ =~= seq![dec_digit(4)]);
        }
        "4"
    } else if d == 5 {
        proof {
            reveal_strlit("5");
            assert("5"@ =~= seq![dec_digit(5)]);
        }
        "5"
    } else if d == 6 {
        proof {
            reveal_strlit("6");
            assert("6"@ =~= seq![dec_digit(6)]);
        }
        "6"
    } else if d == 7 {
        proof {
            reveal_strlit("7");
            assert("7"@ =~= seq![dec_digit(7)]);
        }
        "7"
    } else if d == 8 {
        proof {
            reveal_strlit("8");
            assert("8"@ =~= seq![dec_digit(8)]);
        }
        "8"
    } else {
        proof {
            reveal_strlit("9");
            assert("9"@ =~= seq![dec_digit(9)]);
        }
        "9"
    }
}

/// Renders an integer in decimal, as `dec_str` describes.
pub fn u64_to_string(n: u64) -> (r: String)
    ensures
        r@ == dec_str(n as int),
    decreases n,
{
    if n < 10 {
        digit_str(n).to_owned()
    } else {
        let mut s = u64_to_string(n / 10);
        s.append(digit_str(n % 10));
        proof {
            assert(s@ =~= dec_str(n as int));
        }
        s
    }
}

/// The URL of the spawned node's metrics endpoint on the local host.
pub fn metrics_url(port: u16) -> (r: String)
    ensures
        r@ == "http://127.0.0.1:"@ + dec_str(port as int) + "/metrics"@,
{
    let mut s = String::from_str("http://127.0.0.1:");
    let p = u64_to_string(port as u64);
    s.append(p.as_str());
    s.append("/metrics");
    proof {
        assert(s@ =~= "http://127.0.0.1:"@ + dec_str(port as int) + "/metrics"@);
    }
    s
}

/// The probe's private working directory, keyed by operator and network so
/// that no two concurrently live probes share one.
pub fn probe_data_dir(base: &str, operator: &str, network: &str) -> (r: String)
    ensures
        r@ == base@ + "/"@ + operator@ + "_"@ + network@,
{
    let mut s = base.to_owned();
    s.append("/");
    s.append(operator);
    s.append("_");
    s.append(network);
    proof {
        assert(s@ =~= base@ + "/"@ + operator@ + "_"@ + network@);
    }
    s
}

/// The path of the network's chain-specification file.
pub fn chain_spec_path(dir: &str, network: &str) -> (r: String)
    ensures
        r@ == dir@ + "/"@ + network@ + ".json"@,
{
    let mut s = dir.to_owned();
    s.append("/");
    s.append(network);
    s.append(".json");
    proof {
        assert(s@ =~= dir@ + "/"@ + network@ + ".json"@);
    }
    s
}

/// The largest index `<= i` holding a hyphen, or `-1` if there is none.
pub open spec fn last_hyphen(s: Seq<char>, i: int) -> int
    decreases i + 1,
    when -1 <= i < s.len()
{
    if i < 0 {
        -1
    } else if s[i] == '-' {
        i
    } else {
        last_hyphen(s, i - 1)
    }
}

/// An index `r` above which no hyphen occurs, and which is `-1` or holds a
/// hyphen, is what `last_hyphen` finds.
proof fn lemma_last_hyphen_char(s: Seq<char>, i: int, r: int)
    requires
        -1 <= r <= i < s.len(),
        forall|j: int| r < j <= i ==> s[j] != '-',
        r == -1 || s[r] == '-',
    ensures
        last_hyphen(s, i) == r,
    decreases i - r,
{
    if r < i {
        lemma_last_hyphen_char(s, i - 1, r);
    }
}

/// The relay-chain host a parachain's network name derives: the part of
/// the name after its last hyphen, or the whole name if it has none.
pub fn relay_chain_host(network: &str) -> (r: String)
    ensures
        r@ == network@.subrange(
            last_hyphen(network@, network@.len() - 1) + 1,
            network@.len() as int,
        ),
{
    let n = network.unicode_len();
    if n == 0 {
        proof {
            assert(network@.subrange(0, 0) =~= Seq::<char>::empty());
        }
        return String::new();
    }
    let mut i: usize = n;
    while i > 0
        invariant
            0 <= i <= n,
            n == network@.len(),
            forall|j: int| i <= j < n ==> network@[j] != '-',
        decreases i,
    {
        if network.get_char(i - 1) == '-' {
            proof {
                lemma_last_hyphen_char(network@, n - 1, i - 1);
            }
            let host = network.substring_char(i, n);
            return host.to_owned();
        }
        i -= 1;
    }
    proof {
        lemma_last_hyphen_char(network@, n - 1, -1);
        assert(network@.subrange(0, n as int) =~= network@);
    }
    network.to_owned()
}

/// The relay-chain RPC endpoint supplied to a parachain node.
pub fn relay_rpc_url(host: &str) -> (r: String)
    ensures
        r@ == "wss://"@ + host@ + ".dotters.network/"@,
{
    let mut s = String::from_str("wss://");
    s.append(host);
    s.append(".dotters.network/");
    proof {
        assert(s@ =~= "wss://"@ + host@ + ".dotters.network/"@);
    }
    s
}

/// String equality by contents.
pub fn str_eq(a: &str, b: &str) -> (r: bool)
    ensures
        r == (a@ == b@),
{
    let sa = a.to_owned();
    let sb = b.to_owned();
    sa == sb
}

/// Whether a command kind selects the parachain binary.
pub open spec fn is_parachain(command_id: Seq<char>) -> bool {
    command_id == "parachain"@
}

/// Everything the application needs to launch one probe's node process.
#[derive(Clone, Debug)]
pub struct SpawnPlan {
    pub binary: String,
    pub args: Vec<String>,
    pub data_dir: String,
    pub chain_spec: String,
}

/// Computes the launch plan of one probe: the binary for the target's
/// command kind, the private working directory, the chain-specification
/// path, and the full argument list, with the relay-chain endpoint
/// appended for a parachain target.
pub fn spawn_plan(
    cli: &crate::config::Cli,
    operator: &str,
    network: &str,
    bootnode: &str,
    command_id: &str,
    prometheus_port: u16,
    p2p_port: u16,
) -> (plan: SpawnPlan)
    ensures
        plan.binary@ == if is_parachain(command_id@) {
            cli.parachain_binary@
        } else {
            cli.polkadot_binary@
        },
        plan.data_dir@ == cli.data_dir@ + "/"@ + operator@ + "_"@ + network@,
        plan.chain_spec@ == cli.chain_spec_dir@ + "/"@ + network@ + ".json"@,
        plan.args@.len() == if is_parachain(command_id@) {
            13int
        } else {
            11int
        },
        plan.args@[0]@ == "--no-hardware-benchmarks"@,
        plan.args@[1]@ == "--no-mdns"@,
        plan.args@[2]@ == "--prometheus-external"@,
        plan.args@[3]@ == "--prometheus-port="@ + dec_str(prometheus_port as int),
        plan.args@[4]@ == "--port="@ + dec_str(p2p_port as int),
        plan.args@[5]@ == "-d"@,
        plan.args@[6]@ == plan.data_dir@,
        plan.args@[7]@ == "--chain"@,
        plan.args@[8]@ == plan.chain_spec@,
        plan.args@[9]@ == "--bootnodes"@,
        plan.args@[10]@ == bootnode@,
        is_parachain(command_id@) ==> plan.args@[11]@ == "--relay-chain-rpc-urls"@,
        is_parachain(command_id@) ==> plan.args@[12]@ == "wss://"@ + network@.subrange(
            last_hyphen(network@, network@.len() - 1) + 1,
            network@.len() as int,
        ) + ".dotters.network/"@,
{
    let parachain = str_eq(command_id, "parachain");
    let binary = if parachain {
        cli.parachain_binary.clone()
    } else {
        cli.polkadot_binary.clone()
    };
    let data_dir = probe_data_dir(cli.data_dir.as_str(), operator, network);
    let chain_spec = chain_spec_path(cli.chain_spec_dir.as_str(), network);

    let mut prometheus_arg = String::from_str("--prometheus-port=");
    let pp = u64_to_string(prometheus_port as u64);
    prometheus_arg.append(pp.as_str());
    let mut port_arg = String::from_str("--port=");
    let p2 = u64_to_string(p2p_port as u64);
    port_arg.append(p2.as_str());

    let mut args: Vec<String> = Vec::new();
    args.push(String::from_str("--no-hardware-benchmarks"));
    args.push(String::from_str("--no-mdns"));
    args.push(String::from_str("--prometheus-external"));
    args.push(prometheus_arg);
    args.push(port_arg);
    args.push(String::from_str("-d"));
    args.push(data_dir.clone());
    args.push(String::from_str("--chain"));
    args.push(chain_spec.clone());
    args.push(String::from_str("--bootnodes"));
    args.push(bootnode.to_owned());
    if parachain {
        args.push(String::from_str("--relay-chain-rpc-urls"));
        let host = relay_chain_host(network);
        args.push(relay_rpc_url(host.as_str()));
    }
    SpawnPlan { binary, args, data_dir, chain_spec }
}

} // verus!

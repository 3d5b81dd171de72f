//! Configuration and the flattened target list.
//!
//! The surrounding application parses command-line options and an optional
//! TOML file into these plain structures; the merge of the two, the
//! flattening of the network/operator/bootnode tree into probe targets,
//! and the cycle cadence arithmetic are the logic kept here.

use vstd::prelude::*;

verus! {

/// The run options of the daemon.  Paths are carried as plain strings.
#[derive(Clone, Debug)]
pub struct Cli {
    pub polkadot_binary: String,
    pub parachain_binary: String,
    pub encointer_binary: String,
    pub output_dir: String,
    pub data_dir: String,
    pub chain_spec_dir: String,
    pub max_concurrent: usize,
    pub base_port: u16,
    pub prometheus_port: u16,
    pub timeout: u64,
    pub min_peers: u64,
    pub interval: u64,
    pub bootnodes_config: String,
    pub config: Option<String>,
    pub debug: bool,
}

/// The options an optional TOML file may override.
#[derive(Clone, Debug)]
pub struct TomlConfig {
    pub polkadot_binary: Option<String>,
    pub parachain_binary: Option<String>,
    pub output_dir: Option<String>,
    pub data_dir: Option<String>,
    pub chain_spec_dir: Option<String>,
    pub max_concurrent: Option<usize>,
    pub base_port: Option<u16>,
    pub timeout: Option<u64>,
    pub bootnodes_config: Option<String>,
}

impl Cli {
    /// Overrides each option the TOML file sets and keeps the rest.
    pub fn merge_with_toml(&mut self, config: TomlConfig)
        ensures
            final(self).polkadot_binary == (match config.polkadot_binary {
                Some(v) => v,
                None => old(self).polkadot_binary,
            }),
            final(self).parachain_binary == (match config.parachain_binary {
                Some(v) => v,
                None => old(self).parachain_binary,
            }),
            final(self).output_dir == (match config.output_dir {
                Some(v) => v,
                None => old(self).output_dir,
            }),
            final(self).data_dir == (match config.data_dir {
                Some(v) => v,
                None => old(self).data_dir,
            }),
            final(self).chain_spec_dir == (match config.chain_spec_dir {
                Some(v) => v,
                None => old(self).chain_spec_dir,
            }),
            final(self).max_concurrent == (match config.max_concurrent {
                Some(v) => v,
                None => old(self).max_concurrent,
            }),
            final(self).base_port == (match config.base_port {
                Some(v) => v,
                None => old(self).base_port,
            }),
            final(self).timeout == (match config.timeout {
                Some(v) => v,
                None => old(self).timeout,
            }),
            final(self).bootnodes_config == (match config.bootnodes_config {
                Some(v) => v,
                None => old(self).bootnodes_config,
            }),
            final(self).encointer_binary == old(self).encointer_binary,
            final(self).prometheus_port == old(self).prometheus_port,
            final(self).min_peers == old(self).min_peers,
            final(self).interval == old(self).interval,
            final(self).config == old(self).config,
            final(self).debug == old(self).debug,
    {
        if let Some(v) = config.polkadot_binary {
            self.polkadot_binary = v;
        }
        if let Some(v) = config.parachain_binary {
            self.parachain_binary = v;
        }
        if let Some(v) = config.output_dir {
            self.output_dir = v;
        }
        if let Some(v) = config.data_dir {
            self.data_dir = v;
        }
        if let Some(v) = config.chain_spec_dir {
            self.chain_spec_dir = v;
        }
        if let Some(v) = config.max_concurrent {
            self.max_concurrent = v;
        }
        if let Some(v) = config.base_port {
            self.base_port = v;
        }
        if let Some(v) = config.timeout {
            self.timeout = v;
        }
        if let Some(v) = config.bootnodes_config {
            self.bootnodes_config = v;
        }
    }
}

/// One operator's ordered bootnode addresses within a network.
#[derive(Clone, Debug)]
pub struct OperatorBootnodes {
    pub operator: String,
    pub bootnodes: Vec<String>,
}

/// One network's command kind and member operators.
#[derive(Clone, Debug)]
pub struct NetworkConfig {
    pub command_id: String,
    pub members: Vec<OperatorBootnodes>,
}

/// A named network with its configuration.
#[derive(Clone, Debug)]
pub struct NetworkEntry {
    pub network: String,
    pub config: NetworkConfig,
}

/// The loaded target configuration: every network with its operators and
/// their bootnode addresses.
#[derive(Clone, Debug)]
pub struct BootnodesConfig {
    pub networks: Vec<NetworkEntry>,
}

/// One probe target: the immutable (network, operator, bootnode) triple
/// with the network's command kind.
#[derive(Clone, Debug)]
pub struct Target {
    pub network: String,
    pub operator: String,
    pub bootnode: String,
    pub command_id: String,
}

/// The targets one operator's bootnode list flattens to, in order.
pub open spec fn targets_of_bootnodes(
    network: String,
    command_id: String,
    operator: String,
    bs: Seq<String>,
) -> Seq<Target>
    decreases bs.len(),
{
    if bs.len() == 0 {
        Seq::empty()
    } else {
        targets_of_bootnodes(network, command_id, operator, bs.drop_last()).push(
            Target { network, operator, bootnode: bs.last(), command_id },
        )
    }
}

/// The targets one network's member list flattens to, in order.
pub open spec fn targets_of_members(
    network: String,
    command_id: String,
    members: Seq<OperatorBootnodes>,
) -> Seq<Target>
    decreases members.len(),
{
    if members.len() == 0 {
        Seq::empty()
    } else {
        targets_of_members(network, command_id, members.drop_last()) + targets_of_bootnodes(
            network,
            command_id,
            members.last().operator,
            members.last().bootnodes@,
        )
    }
}

/// The targets a whole configuration flattens to, in order.
pub open spec fn targets_of_config(networks: Seq<NetworkEntry>) -> Seq<Target>
    decreases networks.len(),
{
    if networks.len() == 0 {
        Seq::empty()
    } else {
        targets_of_config(networks.drop_last()) + targets_of_members(
            networks.last().network,
            networks.last().config.command_id,
            networks.last().config.members@,
        )
    }
}

/// Flattens the configuration into the cycle's target list, one target per
/// (network, operator, bootnode), in configuration order.
pub fn flatten_targets(cfg: &BootnodesConfig) -> (r: Vec<Target>)
    ensures
        r@ == targets_of_config(cfg.networks@),
{
    let mut r: Vec<Target> = Vec::new();
    let n = cfg.networks.len();
    let mut i: usize = 0;
    while i < n
        invariant
            0 <= i <= n,
            n == cfg.networks@.len(),
            r@ == targets_of_config(cfg.networks@.take(i as int)),
        decreases n - i,
    {
        let entry = &cfg.networks[i];
        let m = entry.config.members.len();
        let mut j: usize = 0;
        while j < m
            invariant
                0 <= j <= m,
                0 <= i < cfg.networks@.len(),
                entry == cfg.networks@[i as int],
                m == entry.config.members@.len(),
                r@ == targets_of_config(cfg.networks@.take(i as int)) + targets_of_members(
                    entry.network,
                    entry.config.command_id,
                    entry.config.members@.take(j as int),
                ),
            decreases m - j,
        {
            let member = &entry.config.members[j];
            let k_max = member.bootnodes.len();
            let mut k: usize = 0;
            while k < k_max
                invariant
                    0 <= k <= k_max,
                    0 <= i < cfg.networks@.len(),
                    0 <= j < entry.config.members@.len(),
                    entry == cfg.networks@[i as int],
                    member == entry.config.members@[j as int],
                    k_max == member.bootnodes@.len(),
                    r@ == targets_of_config(cfg.networks@.take(i as int)) + targets_of_members(
                        entry.network,
                        entry.config.command_id,
                        entry.config.members@.take(j as int),
                    ) + targets_of_bootnodes(
                        entry.network,
                        entry.config.command_id,
                        member.operator,
                        member.bootnodes@.take(k as int),
                    ),
                decreases k_max - k,
            {
                proof {
                    assert(member.bootnodes@.take(k + 1 as int).drop_last()
                        =~= member.bootnodes@.take(k as int));
                    assert(member.bootnodes@.take(k + 1 as int).last()
                        == member.bootnodes@[k as int]);
                }
                r.push(
                    Target {
                        network: entry.network.clone(),
                        operator: member.operator.clone(),
                        bootnode: member.bootnodes[k].clone(),
                        command_id: entry.config.command_id.clone(),
                    },
                );
                k += 1;
            }
            proof {
                assert(member.bootnodes@.take(k_max as int) =~= member.bootnodes@);
                assert(entry.config.members@.take(j + 1 as int).drop_last()
                    =~= entry.config.members@.take(j as int));
                assert(entry.config.members@.take(j + 1 as int).last()
                    == entry.config.members@[j as int]);
            }
            j += 1;
        }
        proof {
            assert(entry.config.members@.take(m as int) =~= entry.config.members@);
            assert(cfg.networks@.take(i + 1 as int).drop_last() =~= cfg.networks@.take(i as int));
            assert(cfg.networks@.take(i + 1 as int).last() == cfg.networks@[i as int]);
        }
        i += 1;
    }
    proof {
        assert(cfg.networks@.take(n as int) =~= cfg.networks@);
    }
    r
}

/// How long to wait after a cycle so that cycles keep a fixed cadence:
/// the remainder of the interval, or nothing if the cycle overran.
pub fn cycle_delay_ms(elapsed_ms: u64, interval_ms: u64) -> (r: u64)
    ensures
        r == if elapsed_ms < interval_ms {
            interval_ms - elapsed_ms
        } else {
            0int
        },
{
    if elapsed_ms < interval_ms {
        interval_ms - elapsed_ms
    } else {
        0
    }
}

} // verus!

//! The bootstrap orchestrator's decisions: resolving the chain, the IPv6
//! advisory, turning a ranking result into the configuration to persist,
//! and the terminal launch branch. The surrounding I/O — reading the
//! system setting, fetching, probing, writing, spawning — is the caller's;
//! every decision between those steps is made here.

use vstd::prelude::*;
use crate::chain::HyperliquidChain;
use crate::gossip::{apply_ranked_peers, HyperliquidSeedPeer, NodeIp, OverrideGossipConfig};
use crate::gossip::spec_adjusted_peer_count;
use crate::report::{ErrorKind, Report};

verus! {

/// Chain resolution: an explicitly configured chain wins; otherwise the
/// one recorded in the visor configuration artifact; absence of both is a
/// fatal configuration error.
pub fn resolve_chain(configured: Option<HyperliquidChain>, visor: Option<HyperliquidChain>) -> (r:
    Result<HyperliquidChain, Report>)
    ensures
        match r {
            Ok(c) => (configured is Some && c == configured->0) || (configured is None
                && visor == Some(c)),
            Err(e) => configured is None && visor is None && e.kind == ErrorKind::Configuration,
        },
{
    match configured {
        Some(c) => Ok(c),
        None => match visor {
            Some(c) => Ok(c),
            None => Err(
                Report::new(
                    ErrorKind::Configuration,
                    "no chain configured and no visor configuration found".to_owned(),
                ),
            ),
        },
    }
}

/// The IPv6 advisory: warn — never abort — exactly when the advisory is
/// not suppressed and the system reports the setting that disables IPv6
/// as being off.
pub fn ipv6_advisory_warns(ignore_advisory: bool, disable_ipv6_value: Option<&str>) -> (r: bool)
    ensures
        r == (!ignore_advisory && match disable_ipv6_value {
            Some(v) => v@ == "0"@,
            None => false,
        }),
{
    if ignore_advisory {
        return false;
    }
    match disable_ipv6_value {
        Some(v) => {
            proof {
                reveal_strlit("0");
            }
            let n = v.unicode_len();
            if n != 1 {
                proof {
                    assert(v@ != "0"@);
                }
                return false;
            }
            let c = v.get_char(0);
            if c == '0' {
                proof {
                    assert(v@ =~= "0"@);
                }
                true
            } else {
                proof {
                    assert(v@[0] != "0"@[0]);
                }
                false
            }
        },
        None => false,
    }
}

/// The configuration a run persists, given how acquisition went: if
/// candidates existed but none passed the latency threshold, the run is
/// aborted with a threshold error; otherwise a fresh configuration
/// carrying exactly the ranked peers (none at all when the source offered
/// none) and the adjusted peer count.
pub fn build_run_config(
    chain: HyperliquidChain,
    candidate_count: usize,
    ranked: Vec<HyperliquidSeedPeer>,
) -> (r: Result<OverrideGossipConfig, Report>)
    ensures
        match r {
            Ok(c) => {
                &&& !(candidate_count > 0 && ranked@.len() == 0)
                &&& c.chain == chain
                &&& c.try_new_peers == true
                &&& c.root_node_ips@ == ranked@.map_values(
                    |p: HyperliquidSeedPeer| NodeIp { ip: p.ip },
                )
                &&& c.n_gossip_peers == (if ranked@.len() > 0 {
                    spec_adjusted_peer_count(ranked@.len() as nat)
                } else {
                    None::<u16>
                })
                &&& c.unknown@.len() == 0
            },
            Err(e) => candidate_count > 0 && ranked@.len() == 0 && e.kind == ErrorKind::Threshold,
        },
{
    if candidate_count > 0 && ranked.len() == 0 {
        return Err(
            Report::new(
                ErrorKind::Threshold,
                "no seed nodes passed the latency threshold; try increasing it".to_owned(),
            ),
        );
    }
    let mut config = OverrideGossipConfig::new(chain);
    let ghost ranked_view = ranked@;
    proof {
        vstd::std_specs::vec::axiom_spec_len(&ranked);
    }
    apply_ranked_peers(&mut config, ranked);
    proof {
        assert(config.root_node_ips@ =~= ranked_view.map_values(
            |p: HyperliquidSeedPeer| NodeIp { ip: p.ip },
        ));
    }
    Ok(config)
}

/// The terminal branch after provisioning.
#[derive(Clone, Copy, Debug, PartialEq, Eq, Structural)]
pub enum LaunchPlan {
    /// No supervised-process arguments were supplied: preparation was the
    /// whole job, exit successfully.
    ExitSuccess,
    /// Arguments but no maintenance interval: replace this process image
    /// with the supervised binary.
    ExecReplace,
    /// Arguments and a maintenance interval: start the detached
    /// maintenance task, spawn the supervised binary as a child, and
    /// propagate its exit status.
    SpawnWithMaintenance,
}

/// Decide the terminal branch from whether pass-through arguments exist
/// and whether a maintenance interval is configured.
pub fn launch_plan(has_args: bool, maintenance_interval: Option<u64>) -> (r: LaunchPlan)
    ensures
        r == (if !has_args {
            LaunchPlan::ExitSuccess
        } else if maintenance_interval is None {
            LaunchPlan::ExecReplace
        } else {
            LaunchPlan::SpawnWithMaintenance
        }),
{
    if !has_args {
        LaunchPlan::ExitSuccess
    } else if maintenance_interval.is_none() {
        LaunchPlan::ExecReplace
    } else {
        LaunchPlan::SpawnWithMaintenance
    }
}

} // verus!

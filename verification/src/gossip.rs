//! The gossip configuration artifact and the seed-peer bookkeeping around
//! it: candidate peers, the operator's ignore set, and the peer-count
//! adjustment applied after ranking.

use vstd::prelude::*;
use crate::chain::HyperliquidChain;
use crate::ip::Ipv4;
use crate::report::{ErrorKind, Report};

verus! {

/// One entry of the configuration's peer list.
#[derive(Clone, Copy, Debug, PartialEq, Eq, Structural)]
pub struct NodeIp {
    pub ip: Ipv4,
}

/// A candidate bootstrap peer offered by a seed source.
#[derive(Debug)]
pub struct HyperliquidSeedPeer {
    pub ip: Ipv4,
    /// A source-given name for the peer, as the source wrote it; only the
    /// scraped document source supplies one.
    pub label: Option<Vec<u8>>,
}

/// A field of the persisted artifact that this system does not model: its
/// key (undecoded, without quotes) and its raw serialized value. Such
/// fields round-trip untouched.
#[derive(Debug)]
pub struct RawField {
    pub key: Vec<u8>,
    pub value: Vec<u8>,
}

/// The persisted gossip configuration artifact.
#[derive(Debug)]
pub struct OverrideGossipConfig {
    pub root_node_ips: Vec<NodeIp>,
    pub try_new_peers: bool,
    pub chain: HyperliquidChain,
    pub n_gossip_peers: Option<u16>,
    /// Fields of the artifact that the bootstrapper does not know about.
    pub unknown: Vec<RawField>,
}

impl From<HyperliquidSeedPeer> for NodeIp {
    fn from(value: HyperliquidSeedPeer) -> (r: NodeIp) {
        NodeIp { ip: value.ip }
    }
}

impl vstd::std_specs::convert::FromSpecImpl<HyperliquidSeedPeer> for NodeIp {
    open spec fn obeys_from_spec() -> bool {
        true
    }

    open spec fn from_spec(value: HyperliquidSeedPeer) -> NodeIp {
        NodeIp { ip: value.ip }
    }
}

impl OverrideGossipConfig {
    /// A fresh configuration for one run: no peers yet, new peers allowed,
    /// no peer-count override, nothing unrecognized.
    pub fn new(chain: HyperliquidChain) -> (r: OverrideGossipConfig)
        ensures
            r.root_node_ips@ == Seq::<NodeIp>::empty(),
            r.try_new_peers == true,
            r.chain == chain,
            r.n_gossip_peers is None,
            r.unknown@ == Seq::<RawField>::empty(),
    {
        OverrideGossipConfig {
            root_node_ips: Vec::new(),
            try_new_peers: true,
            chain,
            n_gossip_peers: None,
            unknown: Vec::new(),
        }
    }
}

/// Whether a candidate survives the ignore set.
pub open spec fn not_ignored(ignored: Seq<Ipv4>) -> spec_fn(HyperliquidSeedPeer) -> bool {
    |p: HyperliquidSeedPeer| !ignored.contains(p.ip)
}

/// Whether `ignored` holds `ip`.
pub fn ignore_set_contains(ignored: &Vec<Ipv4>, ip: Ipv4) -> (r: bool)
    ensures
        r == ignored@.contains(ip),
{
    let n = ignored.len();
    let mut i: usize = 0;
    while i < n
        invariant
            i <= n,
            n == ignored@.len(),
            forall|j: int| 0 <= j < i ==> ignored@[j] != ip,
        decreases n - i,
    {
        if ignored[i] == ip {
            return true;
        }
        i += 1;
    }
    false
}

/// Drop every candidate whose address is a member of the ignore set,
/// keeping the others in their original order.
pub fn filter_ignored_peers(peers: Vec<HyperliquidSeedPeer>, ignored: &Vec<Ipv4>) -> (r: Vec<
    HyperliquidSeedPeer,
>)
    ensures
        r@ == peers@.filter(not_ignored(ignored@)),
{
    let ghost orig = peers@;
    let ghost pred = not_ignored(ignored@);
    let mut rest = peers;
    let mut out: Vec<HyperliquidSeedPeer> = Vec::new();
    let ghost mut k: int = 0;
    proof {
        assert(orig.subrange(0, 0) =~= Seq::<HyperliquidSeedPeer>::empty());
        reveal(Seq::filter);
    }
    while rest.len() > 0
        invariant
            0 <= k <= orig.len(),
            orig.subrange(k, orig.len() as int) == rest@,
            out@ == orig.subrange(0, k).filter(pred),
            pred == not_ignored(ignored@),
        decreases rest@.len(),
    {
        let p = rest.remove(0);
        proof {
            assert(p == orig[k]);
            assert(orig.subrange(k + 1, orig.len() as int) =~= rest@);
            let pre = orig.subrange(0, k);
            let nxt = orig.subrange(0, k + 1);
            assert(nxt.drop_last() =~= pre);
            assert(nxt.last() == orig[k]);
            reveal(Seq::filter);
            assert(nxt.filter(pred) == if pred(orig[k]) {
                pre.filter(pred).push(orig[k])
            } else {
                pre.filter(pred)
            });
        }
        if !ignore_set_contains(ignored, p.ip) {
            out.push(p);
        }
        proof {
            k = k + 1;
        }
    }
    proof {
        assert(orig.subrange(0, orig.len() as int) =~= orig);
    }
    out
}

/// Law: for every ignore set, no candidate whose address is a member
/// appears in a source's filtered output.
pub proof fn lemma_ignored_never_output(peers: Seq<HyperliquidSeedPeer>, ignored: Seq<Ipv4>)
    ensures
        forall|i: int|
            0 <= i < peers.filter(not_ignored(ignored)).len() ==> !ignored.contains(
                #[trigger] peers.filter(not_ignored(ignored))[i].ip,
            ),
{
    assert forall|i: int| 0 <= i < peers.filter(not_ignored(ignored)).len() implies !ignored
        .contains(peers.filter(not_ignored(ignored))[i].ip) by {
        peers.lemma_filter_pred(not_ignored(ignored), i);
    }
}

/// The peer-count override once the final peer count is known: counts
/// above eight are clamped to at most one hundred; smaller counts leave
/// the field unset.
pub open spec fn spec_adjusted_peer_count(k: nat) -> Option<u16> {
    if k > 8 {
        if k < 100 {
            Some(k as u16)
        } else {
            Some(100u16)
        }
    } else {
        None
    }
}

/// Append the ranked peers to the configuration's peer list and apply the
/// peer-count adjustment. Every other field — the unrecognized fields in
/// particular — is left untouched.
pub fn apply_ranked_peers(config: &mut OverrideGossipConfig, peers: Vec<HyperliquidSeedPeer>)
    requires
        old(config).root_node_ips@.len() + peers@.len() <= usize::MAX,
    ensures
        final(config).root_node_ips@ == old(config).root_node_ips@ + peers@.map_values(
            |p: HyperliquidSeedPeer| NodeIp { ip: p.ip },
        ),
        final(config).n_gossip_peers == (if peers@.len() > 0 {
            spec_adjusted_peer_count(final(config).root_node_ips@.len() as nat)
        } else {
            old(config).n_gossip_peers
        }),
        final(config).try_new_peers == old(config).try_new_peers,
        final(config).chain == old(config).chain,
        final(config).unknown@ == old(config).unknown@,
{
    let ghost orig = peers@;
    let was_empty = peers.len() == 0;
    let mut rest = peers;
    let ghost mut k: int = 0;
    proof {
        assert(orig.subrange(0, 0).map_values(|p: HyperliquidSeedPeer| NodeIp { ip: p.ip })
            =~= Seq::<NodeIp>::empty());
    }
    while rest.len() > 0
        invariant
            0 <= k <= orig.len(),
            orig.subrange(k, orig.len() as int) == rest@,
            config.root_node_ips@ == old(config).root_node_ips@ + orig.subrange(0, k).map_values(
                |p: HyperliquidSeedPeer| NodeIp { ip: p.ip },
            ),
            config.try_new_peers == old(config).try_new_peers,
            config.chain == old(config).chain,
            config.n_gossip_peers == old(config).n_gossip_peers,
            config.unknown@ == old(config).unknown@,
            orig.len() <= usize::MAX - old(config).root_node_ips@.len(),
        decreases rest@.len(),
    {
        let p = rest.remove(0);
        proof {
            assert(p == orig[k]);
            assert(orig.subrange(k + 1, orig.len() as int) =~= rest@);
            assert(orig.subrange(0, k + 1).map_values(
                |q: HyperliquidSeedPeer| NodeIp { ip: q.ip },
            ) =~= orig.subrange(0, k).map_values(|q: HyperliquidSeedPeer| NodeIp { ip: q.ip })
                .push(NodeIp { ip: orig[k].ip }));
        }
        config.root_node_ips.push(NodeIp::from(p));
        proof {
            k = k + 1;
        }
    }
    proof {
        assert(orig.subrange(0, orig.len() as int) =~= orig);
    }
    if !was_empty {
        let n = config.root_node_ips.len();
        if n > 8 {
            config.n_gossip_peers = Some(if n < 100 {
                n as u16
            } else {
                100u16
            });
        } else {
            config.n_gossip_peers = None;
        }
    }
}

/// The mainnet source's post-processing: an empty response is a hard
/// error; otherwise the ignore set is applied.
pub fn mainnet_peers_from_response(ips: &Vec<Ipv4>, ignored: &Vec<Ipv4>) -> (r: Result<
    Vec<HyperliquidSeedPeer>,
    Report,
>)
    ensures
        match r {
            Ok(v) => ips@.len() > 0 && v@ == ips@.map_values(
                |ip: Ipv4| HyperliquidSeedPeer { ip, label: None },
            ).filter(not_ignored(ignored@)),
            Err(e) => ips@.len() == 0 && e.kind == ErrorKind::Source,
        },
{
    if ips.len() == 0 {
        return Err(
            Report::new(ErrorKind::Source, "no seed peers were given from the mainnet source".to_owned()),
        );
    }
    Ok(filter_ignored_peers(peers_of_ips(ips), ignored))
}

/// The testnet source's post-processing: the peers of the fetched
/// configuration document, with the ignore set applied. An empty list is
/// not an error here.
pub fn testnet_peers_from_config(config: &OverrideGossipConfig, ignored: &Vec<Ipv4>) -> (r: Vec<
    HyperliquidSeedPeer,
>)
    ensures
        r@ == config.root_node_ips@.map_values(
            |n: NodeIp| HyperliquidSeedPeer { ip: n.ip, label: None },
        ).filter(not_ignored(ignored@)),
{
    let n = config.root_node_ips.len();
    let mut bare: Vec<Ipv4> = Vec::new();
    let mut i: usize = 0;
    while i < n
        invariant
            i <= n,
            n == config.root_node_ips@.len(),
            bare@ == config.root_node_ips@.subrange(0, i as int).map_values(|m: NodeIp| m.ip),
        decreases n - i,
    {
        proof {
            assert(config.root_node_ips@.subrange(0, i + 1).map_values(|m: NodeIp| m.ip)
                =~= config.root_node_ips@.subrange(0, i as int).map_values(|m: NodeIp| m.ip)
                .push(config.root_node_ips@[i as int].ip));
        }
        bare.push(config.root_node_ips[i].ip);
        i += 1;
    }
    proof {
        assert(config.root_node_ips@.subrange(0, n as int) =~= config.root_node_ips@);
        assert(config.root_node_ips@.map_values(|m: NodeIp| m.ip).map_values(
            |ip: Ipv4| HyperliquidSeedPeer { ip, label: None },
        ) =~= config.root_node_ips@.map_values(
            |m: NodeIp| HyperliquidSeedPeer { ip: m.ip, label: None },
        ));
    }
    filter_ignored_peers(peers_of_ips(&bare), ignored)
}

/// Bare addresses as unlabeled candidates.
fn peers_of_ips(ips: &Vec<Ipv4>) -> (r: Vec<HyperliquidSeedPeer>)
    ensures
        r@ == ips@.map_values(|ip: Ipv4| HyperliquidSeedPeer { ip, label: None }),
{
    let n = ips.len();
    let mut out: Vec<HyperliquidSeedPeer> = Vec::new();
    let mut i: usize = 0;
    while i < n
        invariant
            i <= n,
            n == ips@.len(),
            out@ == ips@.subrange(0, i as int).map_values(
                |ip: Ipv4| HyperliquidSeedPeer { ip, label: None },
            ),
        decreases n - i,
    {
        proof {
            assert(ips@.subrange(0, i + 1).map_values(
                |ip: Ipv4| HyperliquidSeedPeer { ip, label: None },
            ) =~= ips@.subrange(0, i as int).map_values(
                |ip: Ipv4| HyperliquidSeedPeer { ip, label: None },
            ).push(HyperliquidSeedPeer { ip: ips@[i as int], label: None }));
        }
        out.push(HyperliquidSeedPeer { ip: ips[i], label: None });
        i += 1;
    }
    proof {
        assert(ips@.subrange(0, n as int) =~= ips@);
    }
    out
}

} // verus!

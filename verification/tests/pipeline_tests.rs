use hl_bootstrap::chain::HyperliquidChain;
use hl_bootstrap::freshness::{check_freshness, ArtifactState, Freshness};
use hl_bootstrap::gossip::{
    filter_ignored_peers, mainnet_peers_from_response, HyperliquidSeedPeer,
    OverrideGossipConfig,
};
use hl_bootstrap::ip::Ipv4;
use hl_bootstrap::orchestrator::{
    build_run_config, ipv6_advisory_warns, launch_plan, resolve_chain, LaunchPlan,
};
use hl_bootstrap::provision::{
    trim_token, LocalTokenRead, ProvisionAction, ProvisionEvent, ProvisionPhase, ProvisionState,
};
use hl_bootstrap::report::ErrorKind;
use hl_bootstrap::scrape::scraped_peers_from_document;
use hl_bootstrap::snapshot::{
    create_file_snapshot_path, create_file_snapshot_payload, default_include_height_in_output,
    FileSnapshotType,
};
use hl_bootstrap::speedtest::rank_outcomes;

fn ip(a: u8, b: u8, c: u8, d: u8) -> Ipv4 {
    Ipv4 { a, b, c, d }
}

fn peer(a: u8, b: u8, c: u8, d: u8) -> HyperliquidSeedPeer {
    HyperliquidSeedPeer { ip: ip(a, b, c, d), label: None }
}

#[test]
fn freshness_gate_scenarios() {
    // A file aged 20 minutes against a 15-minute threshold is stale; aged
    // 10 minutes it is fresh.
    let now = 100_000;
    assert_eq!(
        check_freshness(ArtifactState::ModifiedAt(now - 20 * 60), now, 15 * 60),
        Freshness::Stale
    );
    assert_eq!(
        check_freshness(ArtifactState::ModifiedAt(now - 10 * 60), now, 15 * 60),
        Freshness::Fresh
    );
    // A modification time in the future counts as age zero, not an error.
    assert_eq!(
        check_freshness(ArtifactState::ModifiedAt(now + 500), now, 15 * 60),
        Freshness::Fresh
    );
    assert_eq!(check_freshness(ArtifactState::Missing, now, 15 * 60), Freshness::Stale);
    assert_eq!(check_freshness(ArtifactState::Unreadable, now, 15 * 60), Freshness::Stale);
}

#[test]
fn prober_picks_five_lowest_in_order() {
    let latencies = [5u64, 3, 9, 1, 7, 2, 8, 4, 6, 10, 11, 12];
    let outcomes: Vec<Option<u64>> = latencies.iter().map(|l| Some(*l)).collect();
    let ranked = rank_outcomes(&outcomes, 5);
    let picked: Vec<u64> = ranked.iter().map(|m| m.latency).collect();
    assert_eq!(picked, vec![1, 2, 3, 4, 5]);
    // The indices point back at the candidates that measured those times.
    let idxs: Vec<usize> = ranked.iter().map(|m| m.idx).collect();
    assert_eq!(idxs, vec![3, 5, 1, 7, 0]);
}

#[test]
fn prober_handles_failures_and_short_lists() {
    let outcomes = vec![None, Some(30u64), None, Some(10), None];
    let ranked = rank_outcomes(&outcomes, 5);
    assert_eq!(ranked.len(), 2);
    assert_eq!(ranked[0].idx, 3);
    assert_eq!(ranked[0].latency, 10);
    assert_eq!(ranked[1].idx, 1);
    assert_eq!(ranked[1].latency, 30);

    let ranked = rank_outcomes(&vec![None, None], 3);
    assert!(ranked.is_empty());

    let ranked = rank_outcomes(&vec![Some(7u64), Some(7), Some(7)], 2);
    assert_eq!(ranked.len(), 2);
    // Equal latencies keep candidate order.
    assert_eq!(ranked[0].idx, 0);
    assert_eq!(ranked[1].idx, 1);
}

#[test]
fn ignore_set_is_never_in_output() {
    let peers = vec![peer(1, 1, 1, 1), peer(2, 2, 2, 2), peer(3, 3, 3, 3)];
    let ignored = vec![ip(2, 2, 2, 2)];
    let kept = filter_ignored_peers(peers, &ignored);
    assert_eq!(kept.len(), 2);
    assert_eq!(kept[0].ip, ip(1, 1, 1, 1));
    assert_eq!(kept[1].ip, ip(3, 3, 3, 3));
    for p in &kept {
        assert!(!ignored.contains(&p.ip));
    }
}

#[test]
fn mainnet_empty_response_is_fatal() {
    let err = mainnet_peers_from_response(&Vec::new(), &Vec::new()).unwrap_err();
    assert_eq!(err.kind(), ErrorKind::Source);

    let ips = vec![ip(1, 1, 1, 1), ip(2, 2, 2, 2)];
    let kept = mainnet_peers_from_response(&ips, &vec![ip(1, 1, 1, 1)]).unwrap();
    assert_eq!(kept.len(), 1);
    assert_eq!(kept[0].ip, ip(2, 2, 2, 2));
}

#[test]
fn peer_count_adjustment_boundaries() {
    let nine: Vec<HyperliquidSeedPeer> = (1..=9).map(|i| peer(i, 0, 0, 1)).collect();
    let config = build_run_config(HyperliquidChain::Mainnet, 20, nine).unwrap();
    assert_eq!(config.n_gossip_peers, Some(9));

    let eight: Vec<HyperliquidSeedPeer> = (1..=8).map(|i| peer(i, 0, 0, 1)).collect();
    let config = build_run_config(HyperliquidChain::Mainnet, 20, eight).unwrap();
    assert_eq!(config.n_gossip_peers, None);

    let many: Vec<HyperliquidSeedPeer> = (0..120).map(|i| peer(i, 1, 0, 1)).collect();
    let config = build_run_config(HyperliquidChain::Mainnet, 200, many).unwrap();
    assert_eq!(config.n_gossip_peers, Some(100));
}

#[test]
fn empty_source_writes_peerless_config_but_empty_ranking_is_fatal() {
    // No candidates at all: the run proceeds with a peerless configuration.
    let config = build_run_config(HyperliquidChain::Testnet, 0, Vec::new()).unwrap();
    assert!(config.root_node_ips.is_empty());
    assert_eq!(config.n_gossip_peers, None);
    assert_eq!(config.chain, HyperliquidChain::Testnet);

    // Candidates existed but none passed the threshold: operator error.
    let err = build_run_config(HyperliquidChain::Testnet, 4, Vec::new()).unwrap_err();
    assert_eq!(err.kind(), ErrorKind::Threshold);
}

#[test]
fn chain_resolution_prefers_explicit_setting() {
    assert_eq!(
        resolve_chain(Some(HyperliquidChain::Mainnet), Some(HyperliquidChain::Testnet)).unwrap(),
        HyperliquidChain::Mainnet
    );
    assert_eq!(
        resolve_chain(None, Some(HyperliquidChain::Testnet)).unwrap(),
        HyperliquidChain::Testnet
    );
    let err = resolve_chain(None, None).unwrap_err();
    assert_eq!(err.kind(), ErrorKind::Configuration);
}

#[test]
fn ipv6_advisory_only_on_enabled_setting() {
    assert!(ipv6_advisory_warns(false, Some("0")));
    assert!(!ipv6_advisory_warns(false, Some("1")));
    assert!(!ipv6_advisory_warns(false, None));
    assert!(!ipv6_advisory_warns(true, Some("0")));
}

#[test]
fn launch_plan_branches() {
    assert_eq!(launch_plan(false, None), LaunchPlan::ExitSuccess);
    assert_eq!(launch_plan(false, Some(60)), LaunchPlan::ExitSuccess);
    assert_eq!(launch_plan(true, None), LaunchPlan::ExecReplace);
    assert_eq!(launch_plan(true, Some(60)), LaunchPlan::SpawnWithMaintenance);
}

#[test]
fn provisioner_skips_download_when_token_unchanged() {
    let s = ProvisionState::initial();
    assert_eq!(s.next_action(), Some(ProvisionAction::FetchRemoteToken));
    let s = s.step(ProvisionEvent::RemoteToken(Ok("abc123".to_string())));
    assert_eq!(s.next_action(), Some(ProvisionAction::ReadLocalToken));
    let s = s.step(ProvisionEvent::LocalToken(LocalTokenRead::Found("abc123".to_string())));
    assert_eq!(s.phase, ProvisionPhase::Done);
    assert_eq!(s.next_action(), None);
}

#[test]
fn provisioner_full_download_path() {
    let s = ProvisionState::initial();
    let s = s.step(ProvisionEvent::RemoteToken(Ok("new".to_string())));
    let s = s.step(ProvisionEvent::LocalToken(LocalTokenRead::Found("old".to_string())));
    assert_eq!(s.next_action(), Some(ProvisionAction::StageDownloads));
    let s = s.step(ProvisionEvent::Staged(Ok(())));
    assert_eq!(s.next_action(), Some(ProvisionAction::VerifySignature));
    let s = s.step(ProvisionEvent::Verified(Ok(())));
    assert_eq!(s.next_action(), Some(ProvisionAction::InstallBinary));
    let s = s.step(ProvisionEvent::Installed(Ok(())));
    assert_eq!(s.next_action(), Some(ProvisionAction::PersistToken));
    let s = s.step(ProvisionEvent::TokenPersisted(Ok(())));
    assert_eq!(s.phase, ProvisionPhase::Done);
}

#[test]
fn provisioner_failures_stop_before_durable_writes() {
    // A failed signature check ends the run before any install is asked.
    let s = ProvisionState::initial();
    let s = s.step(ProvisionEvent::RemoteToken(Ok("new".to_string())));
    let s = s.step(ProvisionEvent::LocalToken(LocalTokenRead::Missing));
    let s = s.step(ProvisionEvent::Staged(Ok(())));
    let s = s.step(ProvisionEvent::Verified(Err("bad signature".to_string())));
    assert_eq!(s.phase, ProvisionPhase::Failed(ErrorKind::Verification));
    assert_eq!(s.next_action(), None);

    // A failed download likewise.
    let s = ProvisionState::initial();
    let s = s.step(ProvisionEvent::RemoteToken(Ok("new".to_string())));
    let s = s.step(ProvisionEvent::LocalToken(LocalTokenRead::Unreadable));
    let s = s.step(ProvisionEvent::Staged(Err("connection reset".to_string())));
    assert_eq!(s.phase, ProvisionPhase::Failed(ErrorKind::Source));
    assert_eq!(s.next_action(), None);

    // A missing remote token is fatal up front.
    let s = ProvisionState::initial();
    let s = s.step(ProvisionEvent::RemoteToken(Err("no header".to_string())));
    assert_eq!(s.phase, ProvisionPhase::Failed(ErrorKind::Source));

    // A failed rename or token write is a filesystem error.
    let s = ProvisionState::initial();
    let s = s.step(ProvisionEvent::RemoteToken(Ok("new".to_string())));
    let s = s.step(ProvisionEvent::LocalToken(LocalTokenRead::Missing));
    let s = s.step(ProvisionEvent::Staged(Ok(())));
    let s = s.step(ProvisionEvent::Verified(Ok(())));
    let s = s.step(ProvisionEvent::Installed(Err("disk full".to_string())));
    assert_eq!(s.phase, ProvisionPhase::Failed(ErrorKind::Io));
}

#[test]
fn token_normalization() {
    assert_eq!(trim_token("  abc123\n"), "abc123");
    assert_eq!(trim_token("abc"), "abc");
    assert_eq!(trim_token(" \t\r\n "), "");
    assert_eq!(trim_token(""), "");
}

#[test]
fn scraped_document_yields_labelled_peers() {
    let doc = "intro text\n```\nname,ip\ntokyo,1.2.3.4\n\nosaka,5.6.7.8\n```\ntrailer\n";
    let peers = scraped_peers_from_document(doc.as_bytes(), b"name", &Vec::new()).unwrap();
    assert_eq!(peers.len(), 2);
    assert_eq!(peers[0].ip, ip(1, 2, 3, 4));
    assert_eq!(peers[0].label.as_deref(), Some(&b"tokyo"[..]));
    assert_eq!(peers[1].ip, ip(5, 6, 7, 8));
    assert_eq!(peers[1].label.as_deref(), Some(&b"osaka"[..]));

    let kept = scraped_peers_from_document(doc.as_bytes(), b"name", &vec![ip(1, 2, 3, 4)])
        .unwrap();
    assert_eq!(kept.len(), 1);
    assert_eq!(kept[0].ip, ip(5, 6, 7, 8));
}

#[test]
fn scraped_document_hard_errors() {
    for bad in [
        "no block here\n",
        "```\nname,ip\nunclosed,1.2.3.4\n",
        "```\nwrong header\ntokyo,1.2.3.4\n```\n",
        "```\nname,ip\nmissing-comma-line\n```\n",
        "```\nname,ip\ntokyo,not.an.ip.addr\n```\n",
        "```\nname,ip\n,1.2.3.4\n```\n",
        "```\n```\n",
    ] {
        let err = scraped_peers_from_document(bad.as_bytes(), b"name", &Vec::new()).unwrap_err();
        assert_eq!(err.kind(), ErrorKind::Source);
    }
}

#[test]
fn snapshot_names_and_payload() {
    let t = FileSnapshotType::L4Snapshots { include_users: true, include_trigger_orders: false };
    assert_eq!(t.kind_name(), "l4Snapshots");
    assert_eq!(FileSnapshotType::ReferrerStates.kind_name(), "referrerStates");
    assert!(default_include_height_in_output());

    let path = create_file_snapshot_path("/tmp/snapshots", &t);
    assert!(path.starts_with("/tmp/snapshots/l4Snapshots_"));
    assert!(path.ends_with(".json"));
    assert_eq!(path.len(), "/tmp/snapshots/l4Snapshots_".len() + 36 + ".json".len());

    let payload = create_file_snapshot_payload(&t, true, "/tmp/out.json");
    assert_eq!(
        payload,
        r#"{"type":"fileSnapshot","request":{"type":"l4Snapshots","includeUsers":true,"includeTriggerOrders":false},"includeHeightInOutput":true,"outPath":"/tmp/out.json"}"#
    );
    let payload = create_file_snapshot_payload(&FileSnapshotType::ReferrerStates, false, "x");
    assert_eq!(
        payload,
        r#"{"type":"fileSnapshot","request":{"type":"referrerStates"},"includeHeightInOutput":false,"outPath":"x"}"#
    );
}

#[test]
fn fresh_config_has_expected_defaults() {
    let config = OverrideGossipConfig::new(HyperliquidChain::Mainnet);
    assert!(config.root_node_ips.is_empty());
    assert!(config.try_new_peers);
    assert_eq!(config.chain, HyperliquidChain::Mainnet);
    assert_eq!(config.n_gossip_peers, None);
    assert!(config.unknown.is_empty());
}

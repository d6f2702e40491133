use hl_bootstrap::chain::HyperliquidChain;
use hl_bootstrap::codec::{
    parse_gossip_config, parse_ip_array, parse_visor_config, serialize_gossip_config,
    serialize_visor_config, VisorConfig,
};
use hl_bootstrap::gossip::OverrideGossipConfig;
use hl_bootstrap::ip::{parse_ipv4, Ipv4};
use hl_bootstrap::report::ErrorKind;

#[test]
fn test_parse_override_gossip_config() {
    let config_snippet = r#"
            {
                "root_node_ips": [{"Ip": "1.2.3.4"}],
                "try_new_peers": false,
                "chain": "Mainnet",
                "reserved_peer_ips": ["5.6.7.8"]
            }
        "#;

    let config = parse_gossip_config(config_snippet.as_bytes()).unwrap();
    let serialized = String::from_utf8(serialize_gossip_config(&config)).unwrap();
    println!("{serialized}");
}

#[test]
fn unknown_fields_survive_read_modify_write() {
    let input = r#"{
        "chain": "Testnet",
        "reserved_peer_ips": ["5.6.7.8", "9.10.11.12"],
        "operator_note": {"nested": [1, 2, {"deep": "yes, commas"}]}
    }"#;
    let config = parse_gossip_config(input.as_bytes()).unwrap();
    assert_eq!(config.unknown.len(), 2);
    assert_eq!(config.unknown[0].key, b"reserved_peer_ips".to_vec());
    assert_eq!(
        config.unknown[0].value,
        br#"["5.6.7.8", "9.10.11.12"]"#.to_vec()
    );
    assert_eq!(config.unknown[1].key, b"operator_note".to_vec());

    let first = serialize_gossip_config(&config);
    let reparsed = parse_gossip_config(&first).unwrap();
    assert_eq!(reparsed.unknown.len(), 2);
    assert_eq!(reparsed.unknown[0].key, config.unknown[0].key);
    assert_eq!(reparsed.unknown[0].value, config.unknown[0].value);
    assert_eq!(reparsed.unknown[1].key, config.unknown[1].key);
    assert_eq!(reparsed.unknown[1].value, config.unknown[1].value);
    let second = serialize_gossip_config(&reparsed);
    assert_eq!(first, second);
}

#[test]
fn serializer_output_is_exact() {
    let mut config = OverrideGossipConfig::new(HyperliquidChain::Mainnet);
    config.root_node_ips.push(hl_bootstrap::gossip::NodeIp {
        ip: Ipv4 { a: 1, b: 2, c: 3, d: 4 },
    });
    let out = String::from_utf8(serialize_gossip_config(&config)).unwrap();
    assert_eq!(
        out,
        r#"{"root_node_ips":[{"Ip":"1.2.3.4"}],"try_new_peers":true,"chain":"Mainnet"}"#
    );
}

#[test]
fn parse_accepts_defaults_and_peer_count() {
    let config = parse_gossip_config(br#"{"chain":"mainnet","n_gossip_peers":42}"#).unwrap();
    assert_eq!(config.chain, HyperliquidChain::Mainnet);
    assert!(!config.try_new_peers);
    assert!(config.root_node_ips.is_empty());
    assert_eq!(config.n_gossip_peers, Some(42));

    let config = parse_gossip_config(br#"{"chain":"Testnet","n_gossip_peers":null}"#).unwrap();
    assert_eq!(config.chain, HyperliquidChain::Testnet);
    assert_eq!(config.n_gossip_peers, None);
}

#[test]
fn parse_rejects_malformed_documents() {
    for bad in [
        &b"not json at all"[..],
        br#"{"try_new_peers": true}"#,
        br#"{"chain": "otherchain"}"#,
        br#"{"chain": "Mainnet", "root_node_ips": [{"Ip": "1.2.3"}]}"#,
        br#"{"chain": "Mainnet", "n_gossip_peers": 70000}"#,
        br#"{"chain": "Mainnet", "#,
    ] {
        let err = parse_gossip_config(bad).unwrap_err();
        assert_eq!(err.kind(), ErrorKind::Source);
    }
}

#[test]
fn visor_config_round_trip() {
    let bytes = serialize_visor_config(&VisorConfig { chain: HyperliquidChain::Testnet });
    assert_eq!(String::from_utf8(bytes.clone()).unwrap(), r#"{"chain":"Testnet"}"#);
    let read = parse_visor_config(&bytes).unwrap();
    assert_eq!(read.chain, HyperliquidChain::Testnet);

    let err = parse_visor_config(b"{}").unwrap_err();
    assert_eq!(err.kind(), ErrorKind::Configuration);
}

#[test]
fn mainnet_address_list_parses() {
    let ips = parse_ip_array(br#"["1.2.3.4", "10.20.30.40"]"#).unwrap();
    assert_eq!(ips, vec![
        Ipv4 { a: 1, b: 2, c: 3, d: 4 },
        Ipv4 { a: 10, b: 20, c: 30, d: 40 },
    ]);

    let empty = parse_ip_array(b"[]").unwrap();
    assert!(empty.is_empty());

    let err = parse_ip_array(br#"["1.2.3.4", "oops"]"#).unwrap_err();
    assert_eq!(err.kind(), ErrorKind::Source);
}

#[test]
fn ipv4_text_forms() {
    assert_eq!(parse_ipv4(b"1.2.3.4"), Some(Ipv4 { a: 1, b: 2, c: 3, d: 4 }));
    assert_eq!(parse_ipv4(b"0.0.0.0"), Some(Ipv4 { a: 0, b: 0, c: 0, d: 0 }));
    assert_eq!(
        parse_ipv4(b"255.255.255.255"),
        Some(Ipv4 { a: 255, b: 255, c: 255, d: 255 })
    );
    assert_eq!(parse_ipv4(b"256.1.1.1"), None);
    assert_eq!(parse_ipv4(b"01.2.3.4"), None);
    assert_eq!(parse_ipv4(b"1.2.3"), None);
    assert_eq!(parse_ipv4(b"1.2.3.4.5"), None);
    assert_eq!(parse_ipv4(b"1.2.3.4 "), None);
    assert_eq!(parse_ipv4(b""), None);
}

#[test]
fn chain_names_round_trip() {
    assert_eq!(
        HyperliquidChain::from_str("MainNet").unwrap(),
        HyperliquidChain::Mainnet
    );
    assert_eq!(
        HyperliquidChain::from_str("testnet").unwrap(),
        HyperliquidChain::Testnet
    );
    assert_eq!(HyperliquidChain::Mainnet.to_string(), "Mainnet");
    assert_eq!(HyperliquidChain::Testnet.to_string(), "Testnet");
    let err = HyperliquidChain::from_str("devnet").unwrap_err();
    assert_eq!(err.kind(), ErrorKind::Configuration);
}

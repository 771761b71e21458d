use convergio_mesh::auth::shared_secret_from_conf;
use convergio_mesh::peers_parser::{parse_ini, peer_to_ini, sanitize_ini_value};
use convergio_mesh::peers_registry::PeersRegistry;
use convergio_mesh::peers_types::{canonical_peer_name, PeerConfig, PeersError};

fn make_peer(ssh_alias: &str, capabilities: Vec<String>) -> PeerConfig {
    PeerConfig {
        ssh_alias: ssh_alias.into(),
        user: "u".into(),
        os: "macos".into(),
        tailscale_ip: "100.0.0.1".into(),
        dns_name: "d.ts.net".into(),
        capabilities,
        role: "worker".into(),
        status: "active".into(),
        thunderbolt_ip: None,
        lan_ip: None,
        mac_address: None,
        gh_account: None,
        runners: None,
        runner_paths: None,
        repo_path: None,
        aliases: vec![],
    }
}

#[test]
fn parse_basic_ini() {
    let ini = "[mesh]\nshared_secret=s3cr3t\n\n\
               [node1]\nssh_alias=n1\nuser=bob\nos=linux\n\
               tailscale_ip=100.1.2.3\ndns_name=n1.ts.net\n\
               capabilities=agent\nrole=worker\nstatus=active\n";
    let (secret, peers) = parse_ini(ini).unwrap();
    assert_eq!(secret, "s3cr3t");
    assert_eq!(peers.len(), 1);
    assert_eq!(peers.get("node1").unwrap().user, "bob");
}

#[test]
fn roundtrip_peer_to_ini() {
    let peer = PeerConfig {
        ssh_alias: "a".into(),
        user: "u".into(),
        os: "macos".into(),
        tailscale_ip: "100.0.0.1".into(),
        dns_name: "d.ts.net".into(),
        capabilities: vec!["agent".into(), "assist".into()],
        role: "worker".into(),
        status: "active".into(),
        thunderbolt_ip: None,
        lan_ip: None,
        mac_address: None,
        gh_account: None,
        runners: None,
        runner_paths: None,
        repo_path: None,
        aliases: vec![],
    };
    let ini = peer_to_ini("test", &peer);
    assert!(ini.contains("[test]"));
    assert!(ini.contains("capabilities=agent,assist"));
}

#[test]
fn sanitize_ini_strips_newlines() {
    assert_eq!(sanitize_ini_value("val\nue"), "value");
    assert_eq!(sanitize_ini_value("val\r\nue"), "value");
    assert_eq!(sanitize_ini_value("clean"), "clean");
}

#[test]
fn duplicate_dot_local_collapses_to_canonical_entry() {
    let ini = "[mesh]\nshared_secret=s\n\n\
               [M5Max.local]\nssh_alias=m5\nuser=rob\nos=macos\n\
               tailscale_ip=100.0.0.5\ndns_name=m5.ts.net\n\
               capabilities=agent\nrole=worker\nstatus=active\n\n\
               [M5Max]\nssh_alias=m5\nuser=rob\nos=macos\n\
               tailscale_ip=100.0.0.5\ndns_name=m5.ts.net\n\
               capabilities=agent\nrole=worker\nstatus=active\n";
    let (_, peers) = parse_ini(ini).unwrap();
    assert_eq!(peers.len(), 1, "duplicates must collapse to one entry");
    assert!(peers.contains_key("m5max"));
    let entry = peers.get("m5max").unwrap();
    assert!(entry.aliases.iter().any(|a| a == "M5Max.local"));
    assert!(entry.aliases.iter().any(|a| a == "M5Max"));
}

#[test]
fn case_variants_collapse_to_canonical_entry() {
    let ini = "[mesh]\nshared_secret=s\n\n\
               [m5max.LOCAL]\nssh_alias=m5\nuser=rob\nos=macos\n\
               tailscale_ip=100.0.0.5\ndns_name=m5.ts.net\n\
               capabilities=agent\nrole=worker\nstatus=active\n\n\
               [M5Max]\nssh_alias=m5\nuser=rob\nos=macos\n\
               tailscale_ip=100.0.0.5\ndns_name=m5.ts.net\n\
               capabilities=agent\nrole=worker\nstatus=active\n";
    let (_, peers) = parse_ini(ini).unwrap();
    assert_eq!(peers.len(), 1);
    assert!(peers.contains_key("m5max"));
}

#[test]
fn ini_injection_prevented() {
    let peer = make_peer("a\n[injected]\nmalicious=true", vec![]);
    let ini = peer_to_ini("test", &peer);
    let (_, peers) = parse_ini(&ini).unwrap();
    assert_eq!(peers.len(), 1, "only one peer section should exist");
    assert!(peers.contains_key("test"));
    assert!(!ini.contains("\nmalicious=true\n"));
}

#[test]
fn collapses_dot_local_and_case() {
    assert_eq!(canonical_peer_name("M5Max.local"), "m5max");
    assert_eq!(canonical_peer_name("M5Max"), "m5max");
    assert_eq!(canonical_peer_name("m5max.LOCAL"), "m5max");
    assert_eq!(canonical_peer_name("M5max.Local"), "m5max");
}

#[test]
fn trims_whitespace() {
    assert_eq!(canonical_peer_name("  M5Max.local  "), "m5max");
}

#[test]
fn leaves_non_local_suffix_intact() {
    assert_eq!(canonical_peer_name("node1.ts.net"), "node1.ts.net");
    assert_eq!(canonical_peer_name("Worker-7"), "worker-7");
}

#[test]
fn bare_local_suffix_yields_empty() {
    assert_eq!(canonical_peer_name(".local"), "");
}

const PEERS_INI: &str = "\
[mesh]
shared_secret=test-secret

[node1]
ssh_alias=n1
user=alice
os=macos
tailscale_ip=100.0.0.1
dns_name=n1.ts.net
capabilities=agent,assist
role=coordinator
status=active

[node2]
ssh_alias=n2
user=bob
os=linux
tailscale_ip=100.0.0.2
dns_name=n2.ts.net
capabilities=agent
role=worker
status=active
";

fn load_from_str(s: &str) -> PeersRegistry {
    PeersRegistry::from_ini_text(s).unwrap()
}

#[test]
fn load_and_query() {
    let reg = load_from_str(PEERS_INI);
    assert_eq!(reg.shared_secret, "test-secret");
    assert_eq!(reg.peers.len(), 2);
    assert_eq!(reg.list_active().len(), 2);
}

#[test]
fn find_coordinator() {
    let reg = load_from_str(PEERS_INI);
    let (name, _) = reg.get_coordinator().unwrap();
    assert_eq!(name, "node1");
}

#[test]
fn roundtrip_save_load() {
    let reg = load_from_str(PEERS_INI);
    let text = reg.to_ini_text();
    let reg2 = PeersRegistry::from_ini_text(&text).unwrap();
    assert_eq!(reg2.peers.len(), reg.peers.len());
    assert_eq!(reg2.shared_secret, reg.shared_secret);
}

#[test]
fn add_remove_peer() {
    let mut reg = load_from_str(PEERS_INI);
    let peer = PeerConfig {
        ssh_alias: "n3".into(),
        user: "eve".into(),
        os: "linux".into(),
        tailscale_ip: "100.0.0.3".into(),
        dns_name: "n3.ts.net".into(),
        capabilities: vec!["agent".into()],
        role: "worker".into(),
        status: "active".into(),
        thunderbolt_ip: None,
        lan_ip: None,
        mac_address: None,
        gh_account: None,
        runners: None,
        runner_paths: None,
        repo_path: None,
        aliases: vec![],
    };
    reg.add_peer("node3", peer);
    assert_eq!(reg.peers.len(), 3);
    reg.remove_peer("node3");
    assert_eq!(reg.peers.len(), 2);
}

#[test]
fn get_peer_by_alias() {
    let ini = "[mesh]\nshared_secret=s\n\n\
               [node1]\nssh_alias=n1\nuser=alice\nos=macos\n\
               tailscale_ip=100.0.0.1\ndns_name=n1.ts.net\n\
               capabilities=agent\nrole=worker\nstatus=active\n\
               aliases=n1.local,my-node\n";
    let reg = load_from_str(ini);
    assert!(reg.get_peer("node1").is_some());
    let (name, _) = reg.get_peer("n1.local").unwrap();
    assert_eq!(name, "node1");
    let (name, _) = reg.get_peer("my-node").unwrap();
    assert_eq!(name, "node1");
    assert!(reg.get_peer("nonexistent").is_none());
}

// ---------------------------------------------------------------- own tests

#[test]
fn written_peer_reads_back_with_sanitized_fields() {
    let mut peer = make_peer("  alias\r\n ", vec!["agent".into(), " assist ".into()]);
    peer.lan_ip = Some("192.168.1.9".into());
    peer.runners = Some(4);
    peer.aliases = vec!["n9.local".into()];
    let ini = peer_to_ini("Node9.local", &peer);
    let (secret, peers) = parse_ini(&ini).unwrap();
    assert_eq!(secret, "");
    assert_eq!(peers.len(), 1);
    let got = peers.get("node9").unwrap();
    assert_eq!(got.ssh_alias, "alias");
    assert_eq!(got.capabilities, vec!["agent".to_string(), "assist".to_string()]);
    assert_eq!(got.lan_ip.as_deref(), Some("192.168.1.9"));
    assert_eq!(got.runners, Some(4));
    assert!(got.aliases.iter().any(|a| a == "Node9.local"));
}

#[test]
fn missing_required_field_is_reported() {
    let ini = "[node1]\nssh_alias=n1\nuser=bob\n";
    match parse_ini(ini) {
        Err(PeersError::MissingField { peer, field }) => {
            assert_eq!(peer, "node1");
            assert_eq!(field, "os");
        }
        other => panic!("unexpected: {other:?}"),
    }
}

#[test]
fn stray_line_is_a_parse_error() {
    match parse_ini("[mesh]\nshared_secret=s\ngarbage\n") {
        Err(e @ PeersError::Parse { .. }) => {
            assert_eq!(e.message(), "parse error at line 3: unexpected content: garbage");
        }
        other => panic!("unexpected: {other:?}"),
    }
}

#[test]
fn update_role_of_unknown_peer_is_not_found() {
    let mut reg = load_from_str(PEERS_INI);
    let err = reg.update_role("ghost", "worker").unwrap_err();
    assert_eq!(err.message(), "peer 'ghost' not found");
    reg.update_role("node2", "coordinator").unwrap();
    assert_eq!(reg.get_peer("node2").unwrap().1.role, "coordinator");
}

#[test]
fn added_peer_is_found_and_removed_peer_is_gone() {
    let mut reg = load_from_str(PEERS_INI);
    reg.add_peer("node0", make_peer("n0", vec![]));
    assert_eq!(reg.get_peer("node0").unwrap().1.ssh_alias, "n0");
    assert_eq!(reg.get_peer("node1").unwrap().1.user, "alice");
    let removed = reg.remove_peer("node0").unwrap();
    assert_eq!(removed.ssh_alias, "n0");
    assert!(reg.get_peer("node0").is_none());
    assert!(reg.remove_peer("node0").is_none());
}

#[test]
fn list_active_skips_inactive_peers() {
    let mut reg = load_from_str(PEERS_INI);
    reg.update_role("node2", "worker").unwrap();
    let mut off = make_peer("n4", vec![]);
    off.status = "offline".into();
    reg.add_peer("node4", off);
    let active: Vec<&str> = reg.list_active().iter().map(|(n, _)| *n).collect();
    assert_eq!(active, vec!["node1", "node2"]);
}

#[test]
fn sanitize_strips_leading_brackets() {
    assert_eq!(sanitize_ini_value("[x]"), "x]");
    assert_eq!(sanitize_ini_value("  [ [mesh]\n"), "mesh]");
    assert_eq!(sanitize_ini_value("a[b"), "a[b");
    assert_eq!(sanitize_ini_value("["), "");
}

#[test]
fn non_ascii_names_follow_the_canonical_rule() {
    assert_eq!(canonical_peer_name("x\u{20ac}a\u{20ac}"), "x\u{20ac}a\u{20ac}");
    assert_eq!(canonical_peer_name("\u{e9}aaaaa"), "\u{e9}aaaaa");
    assert_eq!(canonical_peer_name("\u{c9}T\u{c9}.Local"), "\u{c9}t\u{c9}");
    let (_, peers) = parse_ini("[x\u{20ac}a\u{20ac}]\nssh_alias=a\nuser=u\nos=linux\ntailscale_ip=1.2.3.4\ndns_name=d\ncapabilities=\nrole=worker\n").unwrap();
    assert!(peers.get("x\u{20ac}a\u{20ac}").is_some());
    assert!(PeersRegistry::from_ini_text("[mesh]\nshared_secret=s\n").is_ok());
}

#[test]
fn saved_registry_loads_back_unchanged() {
    let mut reg = load_from_str(PEERS_INI);
    let mut p = make_peer("n5", vec!["agent".into(), "assist".into()]);
    p.thunderbolt_ip = Some("10.0.0.5".into());
    p.runners = Some(3);
    p.repo_path = Some("/src/repo".into());
    p.aliases = vec!["n5.local".into(), "five".into()];
    reg.add_peer("node5", p.clone());
    let text = reg.to_ini_text();
    let back = PeersRegistry::from_ini_text(&text).unwrap();
    assert_eq!(back.shared_secret, "test-secret");
    assert_eq!(back.peers.len(), 3);
    assert_eq!(back.get_peer("node5").unwrap().1, &p);
    assert_eq!(back.get_peer("node1").unwrap().1, reg.get_peer("node1").unwrap().1);
    assert_eq!(back.get_peer("node2").unwrap().1, reg.get_peer("node2").unwrap().1);
}

#[test]
fn saved_name_comes_back_canonical() {
    let mut reg = load_from_str(PEERS_INI);
    reg.add_peer("Laptop.local", make_peer("lp", vec![]));
    let back = PeersRegistry::from_ini_text(&reg.to_ini_text()).unwrap();
    assert!(back.get_peer("laptop").is_some());
    assert!(back.get_peer("Laptop.local").is_some());
}

#[test]
fn saved_secret_is_what_signing_loads() {
    let reg = load_from_str(PEERS_INI);
    let text = reg.to_ini_text();
    assert_eq!(
        shared_secret_from_conf(&text).as_deref(),
        Some(b"test-secret".as_slice())
    );
}

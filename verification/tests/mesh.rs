use convergio_mesh::capability_registry::{
    capability_columns, group_capabilities, match_capable_peers, parse_tags, CapabilityRecord, CapabilityRow,
};
use convergio_mesh::capability_types::{CapabilityQuery, CapabilityTag, NodeCapability};
use convergio_mesh::error::MeshError;
use convergio_mesh::mcp_defs::mesh_tools;
use convergio_mesh::peers_registry::PeersRegistry;
use convergio_mesh::peers_types::PeerConfig;
use convergio_mesh::role_config::{available_roles, validate_role};
use convergio_mesh::routes::{
    merge_local_peer, resolve_peer_candidates, unreachable_message, ExportQuery, PeerRow, Readiness,
};
use convergio_mesh::schema::migrations;
use convergio_mesh::sync_loop::heartbeat_headers;
use convergio_mesh::sync_repo::{CommandOutcome, SyncRepo, SyncRepoReply};
use convergio_mesh::transport::{
    address_candidates, bearer_from_token, export_target, import_target, peer_config_to_fields, peer_to_fields,
    tailscale_ip_from, validate_peer_addr,
};
use convergio_mesh::types::MeshStats;

fn make_peer(tailscale_ip: &str) -> PeerConfig {
    PeerConfig {
        ssh_alias: "test".into(),
        user: "user".into(),
        os: "linux".into(),
        tailscale_ip: tailscale_ip.into(),
        dns_name: "test.ts.net".into(),
        capabilities: vec![],
        role: "worker".into(),
        status: "active".into(),
        thunderbolt_ip: None,
        lan_ip: None,
        mac_address: None,
        gh_account: None,
        runners: None,
        runner_paths: None,
        repo_path: None,
        aliases: vec![],
    }
}

#[test]
fn peer_to_fields_includes_tailscale() {
    let peer = make_peer("100.0.0.1");
    let fields = peer_to_fields(&peer);
    assert_eq!(fields.get("tailscale_ip").map(String::as_str), Some("100.0.0.1"));
}

#[test]
fn peer_to_fields_thunderbolt_absent() {
    let peer = make_peer("100.0.0.2");
    let fields = peer_to_fields(&peer);
    assert!(!fields.contains_key("thunderbolt_ip"));
}

#[test]
fn peer_to_fields_with_all_transports() {
    let mut peer = make_peer("100.0.0.3");
    peer.thunderbolt_ip = Some("10.0.0.1".into());
    peer.lan_ip = Some("192.168.1.1".into());
    let fields = peer_to_fields(&peer);
    assert_eq!(fields.len(), 3);
}

#[test]
fn bearer_from_valid_token() {
    let token = format!("{}-{}", "dev", "local");
    let v = bearer_from_token(&token);
    assert_eq!(v.as_deref(), Some("Bearer dev-local"));
}

#[test]
fn bearer_from_empty_token_is_none() {
    assert!(bearer_from_token("").is_none());
}

#[test]
fn resolve_no_candidates_returns_none() {
    let fields = peer_to_fields(&make_peer(""));
    assert!(address_candidates(&fields).is_empty());
}

#[test]
fn validate_peer_addr_rejects_ssrf() {
    assert!(validate_peer_addr("evil.com/admin@127.0.0.1:8420").is_err());
    assert!(validate_peer_addr("127.0.0.1:8420?redirect=evil").is_err());
    assert!(validate_peer_addr("127.0.0.1:8420#frag").is_err());
    assert!(validate_peer_addr("noport").is_err());
    assert!(validate_peer_addr("host:notaport").is_err());
}

#[test]
fn validate_peer_addr_accepts_valid() {
    assert!(validate_peer_addr("192.168.1.1:8420").is_ok());
    assert!(validate_peer_addr("100.0.0.1:8420").is_ok());
    assert!(validate_peer_addr("myhost.local:8420").is_ok());
}

#[test]
fn capability_tag_display_and_parse() {
    let tags = [
        CapabilityTag::Gpu,
        CapabilityTag::Voice,
        CapabilityTag::Compute,
        CapabilityTag::Storage,
        CapabilityTag::HighMemory,
        CapabilityTag::LowLatency,
        CapabilityTag::Inference,
        CapabilityTag::CodeExecution,
    ];
    for tag in &tags {
        let s = tag.to_string();
        let parsed: CapabilityTag = s.parse().unwrap();
        assert_eq!(*tag, parsed);
    }
}

#[test]
fn capability_tag_unknown_fails() {
    let result = "unknown_tag".parse::<CapabilityTag>();
    assert!(result.is_err());
}

#[test]
fn error_display_messages() {
    let e = MeshError::Auth("bad key".into());
    assert!(e.message().contains("bad key"));
}

#[test]
fn from_serde_error() {
    let serde_err = serde_json::from_str::<String>("not json").unwrap_err();
    let mesh_err: MeshError = serde_err.into();
    assert!(matches!(mesh_err, MeshError::Serialization(_)));
}

#[test]
fn migrations_apply_cleanly() {
    let conn = rusqlite::Connection::open_in_memory().unwrap();
    let migs = migrations();
    let mut applied = 0;
    for m in &migs {
        conn.execute_batch(m.up).unwrap();
        applied += 1;
    }
    assert_eq!(applied, migs.len());
}

#[test]
fn heartbeat_upsert() {
    let conn = rusqlite::Connection::open_in_memory().unwrap();
    for m in &migrations() {
        conn.execute_batch(m.up).unwrap();
    }
    conn.execute(
        "INSERT INTO peer_heartbeats (peer_name) VALUES ('M5Max')
         ON CONFLICT(peer_name) DO UPDATE SET last_seen = unixepoch()",
        [],
    )
    .unwrap();
    let count: i64 = conn.query_row("SELECT count(*) FROM peer_heartbeats", [], |r| r.get(0)).unwrap();
    assert_eq!(count, 1);
}

#[test]
fn from_io_error() {
    let io_err = std::io::Error::new(std::io::ErrorKind::NotFound, "gone");
    let mesh_err: MeshError = io_err.into();
    assert!(matches!(mesh_err, MeshError::Io(_)));
}

fn row(peer: &str, cap: &str, tags: &str, version: &str) -> CapabilityRow {
    CapabilityRow {
        peer_name: peer.into(),
        capability_name: cap.into(),
        tags_json: tags.into(),
        version: version.into(),
    }
}

#[test]
fn query_matches() {
    let rows = vec![
        row("darwin-m4", "llm", r#"["gpu","inference"]"#, "1.0.0"),
        row("linux-a100", "training", r#"["gpu","compute"]"#, "1.0.0"),
    ];
    let query = CapabilityQuery {
        required_tags: vec![CapabilityTag::Gpu, CapabilityTag::Inference],
        min_version: None,
    };
    let matches = match_capable_peers(&rows, &query);
    assert_eq!(matches.len(), 2);
    assert!(matches[0].matched > matches[1].matched);
    assert_eq!(matches[0].peer_name, "darwin-m4");
}

fn cap(name: &str, tags: Vec<&str>) -> NodeCapability {
    NodeCapability {
        name: name.into(),
        version: "1.0.0".into(),
        tags: tags.into_iter().map(String::from).collect(),
        metadata: "{}".into(),
    }
}

#[test]
fn remove_and_list() {
    let recs = vec![
        CapabilityRecord { peer_name: "darwin-m4".into(), capability: cap("llm", vec!["gpu"]), updated_at: "1".into() },
        CapabilityRecord { peer_name: "linux-a100".into(), capability: cap("t", vec!["compute"]), updated_at: "1".into() },
    ];
    assert_eq!(group_capabilities(&recs).len(), 2);
    let rest: Vec<CapabilityRecord> = recs.into_iter().filter(|r| r.peer_name != "darwin-m4").collect();
    assert_eq!(group_capabilities(&rest).len(), 1);
}

// ---------------------------------------------------------------- own tests

#[test]
fn query_filters_versions_and_bad_tags() {
    let rows = vec![
        row("old", "llm", r#"["gpu"]"#, "0.9.0"),
        row("new", "llm", r#"["gpu"]"#, "1.2.0"),
        row("broken", "llm", "not json", "2.0.0"),
        row("new", "voice", r#"["voice","gpu"]"#, "1.2.0"),
    ];
    let query = CapabilityQuery { required_tags: vec![CapabilityTag::Gpu], min_version: Some("1.0.0".into()) };
    let m = match_capable_peers(&rows, &query);
    assert_eq!(m.len(), 1);
    assert_eq!(m[0].peer_name, "new");
    assert_eq!(m[0].matched, 2);
    assert_eq!(m[0].matched_capabilities, vec!["llm".to_string(), "voice".to_string()]);
    let none = CapabilityQuery { required_tags: vec![], min_version: None };
    assert!(match_capable_peers(&rows, &none).is_empty());
}

#[test]
fn grouping_keeps_latest_update_time() {
    let recs = vec![
        CapabilityRecord { peer_name: "p".into(), capability: cap("a", vec![]), updated_at: "2026-01-01".into() },
        CapabilityRecord { peer_name: "q".into(), capability: cap("b", vec![]), updated_at: "2026-01-03".into() },
        CapabilityRecord { peer_name: "p".into(), capability: cap("c", vec![]), updated_at: "2026-01-02".into() },
    ];
    let g = group_capabilities(&recs);
    assert_eq!(g[0].peer_name, "p");
    assert_eq!(g[0].capabilities.len(), 2);
    assert_eq!(g[0].last_updated, "2026-01-02");
    assert_eq!(g[1].last_updated, "2026-01-03");
}

#[test]
fn tags_are_stored_as_json() {
    let (_, name, version, tags, meta) = capability_columns("p", &cap("llm", vec!["gpu", "inference"]));
    assert_eq!((name.as_str(), version.as_str(), meta.as_str()), ("llm", "1.0.0", "{}"));
    assert_eq!(tags, r#"["gpu","inference"]"#);
    assert_eq!(parse_tags(&tags), vec!["gpu".to_string(), "inference".to_string()]);
    assert!(parse_tags("{").is_empty());
}

#[test]
fn tag_json_escapes_quotes_and_controls() {
    let (_, _, _, tags, _) = capability_columns("p", &cap("x", vec!["a\"b", "c\\d", "e\nf", "\u{1}", "/"]));
    assert_eq!(tags, "[\"a\\\"b\",\"c\\\\d\",\"e\\nf\",\"\\u0001\",\"/\"]");
    let (_, _, _, none, _) = capability_columns("p", &cap("x", vec![]));
    assert_eq!(none, "[]");
}

#[test]
fn unknown_tag_error_names_it() {
    assert_eq!(CapabilityTag::parse("warp"), Err("unknown capability tag: warp".to_string()));
    assert_eq!(CapabilityTag::HighMemory.as_str(), "high_memory");
}

#[test]
fn error_messages_carry_their_kind() {
    assert_eq!(MeshError::Db("locked".into()).message(), "database error: locked");
    assert_eq!(MeshError::Io("gone".into()).message(), "IO error: gone");
}

#[test]
fn request_targets() {
    let (url, path) = import_target("10.0.0.1:8420").unwrap();
    assert_eq!(url, "http://10.0.0.1:8420/api/sync/import");
    assert_eq!(path, "/api/sync/import");
    let (url, pq) = export_target("10.0.0.1:8420", "plans", Some("2026-04-21 08:00:00")).unwrap();
    assert_eq!(pq, "/api/sync/export?table=plans&since=2026-04-21 08:00:00");
    assert_eq!(url, "http://10.0.0.1:8420/api/sync/export?table=plans&since=2026-04-21 08:00:00");
    assert_eq!(
        export_target("10.0.0.1:8420", "secrets", None).unwrap_err(),
        "table 'secrets' not in sync allowlist"
    );
    assert!(import_target("bad").is_err());
}

#[test]
fn candidates_in_priority_order() {
    let mut peer = make_peer("100.0.0.3");
    peer.thunderbolt_ip = Some("10.0.0.1".into());
    peer.lan_ip = Some("".into());
    let c = address_candidates(&peer_to_fields(&peer));
    assert_eq!(
        c,
        vec![
            ("thunderbolt".to_string(), "10.0.0.1:8420".to_string()),
            ("tailscale".to_string(), "100.0.0.3:8420".to_string()),
        ]
    );
    let f = peer_config_to_fields(&make_peer(""));
    assert_eq!(f.len(), 1);
    assert_eq!(tailscale_ip_from("  100.1.1.1\n").as_deref(), Some("100.1.1.1"));
    assert!(tailscale_ip_from(" \n").is_none());
}

#[test]
fn export_allowlist_and_status() {
    assert!(ExportQuery { table: "tasks".into(), since: None }.is_allowed());
    assert!(!ExportQuery { table: "users".into(), since: None }.is_allowed());
    let s = MeshStats::from_counts(2, 9);
    assert_eq!(s.peers_online, 3);
    assert_eq!(s.total_synced, 9);
}

#[test]
fn readiness_needs_database_and_healthy_sync() {
    let r = Readiness::assess(true, 2, Some(4));
    assert!(r.ready && r.sync_healthy);
    assert_eq!(r.database_label(), "ok");
    let r = Readiness::assess(true, 2, Some(5));
    assert!(!r.ready && !r.sync_healthy);
    let r = Readiness::assess(false, 0, None);
    assert!(!r.ready && r.sync_healthy);
    assert_eq!(r.database_label(), "down");
}

fn prow(peer: &str, status: &str) -> PeerRow {
    PeerRow { peer: peer.into(), last_seen: 10, version: Some("0.1.0".into()), status: status.into(), role: None }
}

#[test]
fn local_node_added_when_missing() {
    let rows = vec![prow("other", "online")];
    let out = merge_local_peer(rows, "m5max", "worker", "0.2.0", 99);
    assert_eq!(out.len(), 2);
    assert_eq!(out[0].peer, "m5max");
    assert_eq!(out[0].status, "online");
    assert_eq!(out[0].role.as_deref(), Some("worker"));
    assert_eq!(out[0].last_seen, 99);
    assert_eq!(out[1], prow("other", "online"));
}

#[test]
fn stale_local_entry_is_refreshed() {
    let rows = vec![prow("m5max.local", "offline"), prow("other", "offline")];
    let out = merge_local_peer(rows, "m5max", "worker", "0.2.0", 99);
    assert_eq!(out.len(), 2);
    assert_eq!(out[0].status, "online");
    assert_eq!(out[0].version.as_deref(), Some("0.2.0"));
    assert_eq!(out[0].last_seen, 99);
    assert_eq!(out[1], prow("other", "offline"));
    let out = merge_local_peer(vec![prow("m5", "offline")], "m5.tail.net", "", "v", 1);
    assert_eq!(out.len(), 1);
    assert_eq!(out[0].status, "online");
}

#[test]
fn proxied_lookup_by_name_or_alias() {
    let ini = "[mesh]\nshared_secret=s\n\n\
               [node1]\nssh_alias=n1\nuser=alice\nos=macos\ntailscale_ip=100.0.0.1\ndns_name=n1\n\
               capabilities=agent\nrole=worker\nstatus=active\naliases=n1.local\n";
    let reg = PeersRegistry::from_ini_text(ini).unwrap();
    let (name, c) = resolve_peer_candidates(&reg, "n1.local").unwrap();
    assert_eq!(name, "node1");
    assert_eq!(c, vec![("tailscale".to_string(), "100.0.0.1:8420".to_string())]);
    assert_eq!(resolve_peer_candidates(&reg, "ghost").unwrap_err(), "peer 'ghost' not found");
    assert_eq!(unreachable_message("node1"), "peer 'node1' unreachable");
}

#[test]
fn role_validation() {
    assert!(validate_role("worker").is_ok());
    assert_eq!(
        validate_role("boss").unwrap_err(),
        "invalid role 'boss'; valid: all, orchestrator, kernel, voice, worker, nightagent"
    );
    let roles = available_roles();
    assert_eq!(roles.len(), 6);
    assert_eq!(roles[5].0, "nightagent");
    for (id, _) in &roles {
        assert!(validate_role(id).is_ok());
    }
}

#[test]
fn heartbeat_falls_back_to_dev_local_token() {
    let d = heartbeat_headers(None, "", 1, b"{}");
    assert_eq!(d[1], ("Authorization".to_string(), "Bearer dev-local".to_string()));
    let ds = heartbeat_headers(None, "s", 1, b"{}");
    assert_eq!(ds.len(), 5);
    assert_eq!(ds[1].1, "Bearer dev-local");
    let h = heartbeat_headers(Some("tok"), "", 1, b"{}");
    assert_eq!(
        h,
        vec![
            ("Content-Type".to_string(), "application/json".to_string()),
            ("Authorization".to_string(), "Bearer tok".to_string()),
        ]
    );
    let signed = heartbeat_headers(Some("tok"), "secret", 1_700_000_000, b"{}");
    assert_eq!(signed.len(), 5);
    assert_eq!(signed[2], ("X-Mesh-Timestamp".to_string(), "1700000000".to_string()));
    assert_eq!(signed[4].0, "X-Mesh-Body-Hash");
    assert_eq!(signed[3].1.len(), 64);
}

#[test]
fn sync_repo_is_off_by_default() {
    match SyncRepo::start(None) {
        SyncRepo::Done(SyncRepoReply::Failed { error }) => assert!(error.contains("CONVERGIO_SYNC_REPO_ENABLED")),
        other => panic!("unexpected: {other:?}"),
    }
    assert!(matches!(SyncRepo::start(Some("1")), SyncRepo::Locating));
}

fn ran(success: bool, stdout: &str, stderr: &str) -> CommandOutcome {
    CommandOutcome::Ran { success, stdout: stdout.into(), stderr: stderr.into() }
}

#[test]
fn sync_repo_steps() {
    let s = SyncRepo::start(Some("1"));
    let c = s.command().unwrap();
    assert_eq!((c.program.as_str(), c.args.clone()), ("git", vec!["rev-parse".to_string(), "--show-toplevel".to_string()]));
    let s = s.step(ran(true, "/repo\n", ""));
    assert!(matches!(&s, SyncRepo::Resetting { root } if root == "/repo"));
    let s = s.step(ran(false, "", "dirty"));
    let s = s.step(ran(true, " Already up to date.\n", ""));
    let c = s.command().unwrap();
    assert_eq!(c.dir.as_deref(), Some("/repo/daemon"));
    let s = s.step(ran(true, "", ""));
    let s = s.step(ran(false, "", "no"));
    match s {
        SyncRepo::Done(SyncRepoReply::Updated { git_pull, build, cli_update }) => {
            assert_eq!(git_pull, "Already up to date.");
            assert_eq!(build, "success");
            assert_eq!(cli_update, "skipped_or_failed");
        }
        other => panic!("unexpected: {other:?}"),
    }
    let failed = SyncRepo::Pulling { root: ".".into() }.step(ran(false, "", "conflict"));
    assert!(matches!(failed, SyncRepo::Done(SyncRepoReply::Failed { ref error }) if error == "git pull failed: conflict"));
    let located = SyncRepo::Locating.step(CommandOutcome::NotStarted { error: "no git".into() });
    assert!(matches!(located, SyncRepo::Resetting { ref root } if root == "."));
}

#[test]
fn mesh_tools_and_migrations() {
    let tools = mesh_tools();
    assert_eq!(tools.len(), 2);
    assert_eq!(tools[0].name, "cvg_mesh_status");
    assert_eq!(tools[1].path, "/api/node/readiness");
    assert_eq!(tools[0].input_schema, r#"{"type":"object","properties":{}}"#);
    let m = migrations();
    let versions: Vec<u32> = m.iter().map(|x| x.version).collect();
    assert_eq!(versions, vec![1, 2, 3, 4, 5]);
    assert_eq!(m[3].up, "ALTER TABLE peer_heartbeats ADD COLUMN role TEXT;");
}

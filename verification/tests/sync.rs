use convergio_mesh::convergence::{checksum_input, state_checksum};
use convergio_mesh::peers_registry::PeersRegistry;
use convergio_mesh::sync::{compare_schema_versions, resolve_interval, sync_targets, RoundTotals, TableRound};
use convergio_mesh::sync_apply::{
    cell_to_field, export_params, export_sql, is_safe_identifier, is_valid_table_name, json_to_sql_string,
    lww_allows, max_updated_at, normalize_timestamp, plan_change, timestamp_column, ApplyReport, Cell,
    FieldValue, RowAction, RowKey, SkipReason, SyncChange,
};
use convergio_mesh::sync_cursor::compute_new_cursor;
use convergio_mesh::types::{SyncMeta, DEFAULT_INTERVAL_SECS};

#[test]
fn cursor_advances_to_exported_max_not_wallclock() {
    let c = compute_new_cursor(None, Some("2026-04-21 08:00:00"), None, "2026-04-21 12:00:00");
    assert_eq!(c.as_deref(), Some("2026-04-21 08:00:00"));
}

#[test]
fn cursor_takes_max_of_exported_and_applied() {
    let c = compute_new_cursor(
        None,
        Some("2026-04-21 08:00:00"),
        Some("2026-04-21 09:00:00"),
        "2026-04-21 12:00:00",
    );
    assert_eq!(c.as_deref(), Some("2026-04-21 09:00:00"));
}

#[test]
fn cursor_capped_at_round_start_for_future_skew() {
    let c = compute_new_cursor(None, Some("2099-01-01 00:00:00"), None, "2026-04-21 12:00:00");
    assert_eq!(c.as_deref(), Some("2026-04-21 12:00:00"));
}

#[test]
fn cursor_stays_put_when_nothing_exchanged() {
    let c = compute_new_cursor(Some("2026-04-21 10:00:00"), None, None, "2026-04-21 12:00:00");
    assert_eq!(c.as_deref(), Some("2026-04-21 10:00:00"));
}

#[test]
fn cursor_never_moves_backwards() {
    let c = compute_new_cursor(
        Some("2026-04-21 11:00:00"),
        Some("2026-04-21 08:00:00"),
        None,
        "2026-04-21 12:00:00",
    );
    assert_eq!(c.as_deref(), Some("2026-04-21 11:00:00"));
}

#[test]
fn cursor_no_previous_no_exchange_returns_none() {
    let c = compute_new_cursor(None, None, None, "2026-04-21 12:00:00");
    assert!(c.is_none());
}

#[test]
fn sync_meta_publicly_constructible() {
    let m = SyncMeta {
        peer: "peer-x".into(),
        table_name: "plans".into(),
        last_synced: "2026-04-21 08:00:00".into(),
    };
    assert_eq!(m.table_name, "plans");
}

#[test]
fn resolve_interval_default() {
    assert_eq!(resolve_interval(None, None), DEFAULT_INTERVAL_SECS);
}

#[test]
fn resolve_interval_override() {
    assert_eq!(resolve_interval(Some(10), None), 10);
}

#[test]
fn resolve_interval_reads_environment_value() {
    assert_eq!(resolve_interval(None, Some("45")), 45);
    assert_eq!(resolve_interval(None, Some("+7")), 7);
    assert_eq!(resolve_interval(None, Some("soon")), DEFAULT_INTERVAL_SECS);
    assert_eq!(resolve_interval(Some(3), Some("45")), 3);
}

fn sections(plans: Vec<(&str, i64)>) -> Vec<(String, Vec<(String, i64)>)> {
    vec![
        ("plans".to_string(), plans.into_iter().map(|(s, c)| (s.to_string(), c)).collect()),
        ("tasks".to_string(), vec![]),
        ("waves".to_string(), vec![]),
    ]
}

#[test]
fn checksum_deterministic() {
    let c1 = state_checksum(&sections(vec![]));
    let c2 = state_checksum(&sections(vec![]));
    assert_eq!(c1, c2);
    assert_eq!(c1.len(), 64);
}

#[test]
fn checksum_changes_with_data() {
    let before = state_checksum(&sections(vec![]));
    let after = state_checksum(&sections(vec![("doing", 1)]));
    assert_ne!(before, after);
}

#[test]
fn checksum_degrades_without_tables() {
    let checksum = state_checksum(&sections(vec![]));
    assert_eq!(checksum.len(), 64);
}

#[test]
fn checksum_text_layout() {
    let t = checksum_input(&sections(vec![("doing", 2), ("done", -1)]));
    assert_eq!(t, "plans:doing=2;done=-1;|tasks:|waves:|");
    let one = vec![("a".to_string(), vec![])];
    assert_eq!(checksum_input(&one), "a:|");
}

fn change(table: &str, fields: Vec<(&str, FieldValue)>) -> SyncChange {
    SyncChange {
        table_name: table.into(),
        pk: RowKey::Int(1),
        data: Some(fields.into_iter().map(|(k, v)| (k.to_string(), v)).collect()),
    }
}

fn text(s: &str) -> FieldValue {
    FieldValue::Text(s.into())
}

fn cols(names: &[&str]) -> Vec<String> {
    names.iter().map(|s| s.to_string()).collect()
}

#[test]
fn export_rejects_invalid_table_name() {
    assert!(!is_valid_table_name("drop;--"));
    assert!(is_valid_table_name("plans"));
}

#[test]
fn apply_empty_returns_zero() {
    let r = ApplyReport::new();
    assert_eq!(r.applied, 0);
    assert_eq!(r.rejected, 0);
    assert!(r.applied_max_updated_at.is_none());
}

#[test]
fn apply_rejects_table_not_in_allowlist() {
    let c = change("evil_table", vec![("id", FieldValue::Json("1".into())), ("data", text("hack"))]);
    assert_eq!(plan_change(&c, &cols(&["id", "data"])).unwrap_err(), SkipReason::NotSyncTable);
}

#[test]
fn apply_drops_unsafe_columns_via_schema_filter() {
    let c = change(
        "plans",
        vec![("id", FieldValue::Json("1".into())), ("name; DROP TABLE plans--", text("x"))],
    );
    let plan = plan_change(&c, &cols(&["id", "name", "updated_at"])).unwrap();
    assert_eq!(plan.sql, "INSERT OR REPLACE INTO \"plans\" (\"id\") VALUES (?1)");
    assert_eq!(plan.params, vec!["1".to_string()]);
}

/// A database with a `plans` table holding one row, or none.
fn plans_db(row: Option<(&str, &str)>) -> rusqlite::Connection {
    let conn = rusqlite::Connection::open_in_memory().unwrap();
    conn.execute_batch("CREATE TABLE plans (id INTEGER PRIMARY KEY, name TEXT, updated_at TEXT);").unwrap();
    if let Some((name, ts)) = row {
        conn.execute("INSERT INTO plans VALUES (1, ?1, ?2)", [name, ts]).unwrap();
    }
    conn
}

fn plan_name(conn: &rusqlite::Connection) -> String {
    conn.query_row("SELECT name FROM plans WHERE id=1", [], |r| r.get(0)).unwrap()
}

/// Applies changes to `conn` by the library's row steps; the rows written.
fn apply_rows(conn: &rusqlite::Connection, changes: &[SyncChange]) -> usize {
    let local: Vec<String> = cols(&["id", "name", "updated_at"]);
    let mut report = ApplyReport::new();
    for c in changes {
        let planned = plan_change(c, &local);
        let mut action = report.on_planned(&planned);
        let Ok(plan) = planned else { continue };
        if action == RowAction::LookUpLocal {
            let local_ts: Option<String> = conn
                .query_row("SELECT updated_at FROM plans WHERE id = 1", [], |r| r.get(0))
                .ok();
            action = report.on_local_updated_at(plan.remote_updated_at.as_deref(), local_ts.as_deref());
        }
        if action == RowAction::Execute {
            let ok = conn.execute(&plan.sql, rusqlite::params_from_iter(plan.params.iter())).is_ok();
            report.on_executed(&plan, ok);
        }
    }
    report.applied
}

/// The `plans` rows as a peer exports them.
fn export_plans(conn: &rusqlite::Connection) -> Vec<SyncChange> {
    let sql = export_sql("plans", false, None);
    let mut stmt = conn.prepare(&sql).unwrap();
    let rows = stmt
        .query_map([], |row| {
            let id: i64 = row.get(1)?;
            let name: String = row.get(2)?;
            let ts: String = row.get(3)?;
            Ok(SyncChange {
                table_name: "plans".into(),
                pk: RowKey::Int(row.get(0)?),
                data: Some(vec![
                    ("id".to_string(), cell_to_field(&Cell::Integer(id))),
                    ("name".to_string(), cell_to_field(&Cell::Text(name))),
                    ("updated_at".to_string(), cell_to_field(&Cell::Text(ts))),
                ]),
            })
        })
        .unwrap();
    rows.map(|r| r.unwrap()).collect()
}

#[test]
fn lww_skips_older_remote() {
    assert!(!lww_allows(Some("2026-04-21 11:00:00"), Some("2026-04-21 12:00:00")));
    let conn = plans_db(Some(("local-newer", "2026-04-21 12:00:00")));
    let c = change(
        "plans",
        vec![("id", FieldValue::Json("1".into())), ("name", text("remote-older")), ("updated_at", text("2026-04-21 11:00:00"))],
    );
    assert_eq!(apply_rows(&conn, &[c]), 0, "older remote should be skipped");
    assert_eq!(plan_name(&conn), "local-newer");
}

#[test]
fn lww_applies_newer_remote() {
    assert!(lww_allows(Some("2026-04-21 12:00:00"), Some("2026-04-21 10:00:00")));
    let conn = plans_db(Some(("local-old", "2026-04-21 10:00:00")));
    let c = change(
        "plans",
        vec![("id", FieldValue::Json("1".into())), ("name", text("remote-newer")), ("updated_at", text("2026-04-21 12:00:00"))],
    );
    assert_eq!(apply_rows(&conn, &[c]), 1);
    assert_eq!(plan_name(&conn), "remote-newer");
}

#[test]
fn schema_tolerance_ignores_unknown_columns() {
    let c = change(
        "plans",
        vec![
            ("id", FieldValue::Json("1".into())),
            ("name", text("alpha")),
            ("updated_at", text("2026-04-21 12:00:00")),
            ("extra_col", text("ignored")),
        ],
    );
    let plan = plan_change(&c, &cols(&["id", "name", "updated_at"])).unwrap();
    assert_eq!(
        plan.sql,
        "INSERT OR REPLACE INTO \"plans\" (\"id\", \"name\", \"updated_at\") VALUES (?1, ?2, ?3)"
    );
    assert_eq!(plan.params, cols(&["1", "alpha", "2026-04-21 12:00:00"]));
    assert_eq!(plan.remote_updated_at.as_deref(), Some("2026-04-21 12:00:00"));
    let conn = plans_db(None);
    assert_eq!(apply_rows(&conn, &[c]), 1, "should insert ignoring unknown columns");
    assert_eq!(plan_name(&conn), "alpha");
}

#[test]
fn bidirectional_lww_roundtrip() {
    let a = "2026-04-21 12:00:00";
    let b = "2026-04-21 11:00:00";
    assert!(lww_allows(Some(a), Some(b)), "A (newer) should win on B");
    assert!(!lww_allows(Some(b), Some(a)), "B (older) should be rejected on A");
    let node_a = plans_db(Some(("a-version", a)));
    let node_b = plans_db(Some(("b-version", b)));
    let a_changes = export_plans(&node_a);
    let b_changes = export_plans(&node_b);
    assert_eq!(apply_rows(&node_b, &a_changes), 1, "A (newer) should win on B");
    assert_eq!(apply_rows(&node_a, &b_changes), 0, "B (older) should be rejected on A");
    assert_eq!(plan_name(&node_a), "a-version", "A keeps its newer version");
    assert_eq!(plan_name(&node_b), "a-version", "B converges to A's newer version");
}

#[test]
fn apply_report_counts_rejects() {
    let garbage = change("not_in_allowlist", vec![("id", FieldValue::Json("1".into()))]);
    let mut report = ApplyReport::new();
    match plan_change(&garbage, &cols(&["id"])) {
        Ok(_) => report.record_applied(None),
        Err(_) => report.record_rejected(),
    }
    assert_eq!(report.applied, 0);
    assert_eq!(report.rejected, 1);
    assert!(report.applied_max_updated_at.is_none());
}

// ---------------------------------------------------------------- own tests

#[test]
fn every_skip_reason_has_an_input() {
    let local = cols(&["id", "name"]);
    let none = SyncChange { table_name: "plans".into(), pk: RowKey::Other, data: None };
    assert_eq!(plan_change(&none, &local).unwrap_err(), SkipReason::NotObject);
    let c = change("tasks", vec![("id", FieldValue::Json("1".into()))]);
    assert_eq!(plan_change(&c, &vec![]).unwrap_err(), SkipReason::NoLocalTable);
    let c = change("waves", vec![("other", text("x"))]);
    assert_eq!(plan_change(&c, &local).unwrap_err(), SkipReason::NoColumns);
    let c = change("waves", vec![("bad col", text("x"))]);
    assert_eq!(plan_change(&c, &cols(&["bad col"])).unwrap_err(), SkipReason::UnsafeColumns);
}

#[test]
fn lww_treats_iso_and_sql_times_alike() {
    assert!(!lww_allows(Some("2026-04-21T12:00:00"), Some("2026-04-21 12:00:00")));
    assert!(lww_allows(Some("2026-04-21T12:00:01"), Some("2026-04-21 12:00:00")));
    assert!(lww_allows(None, Some("2026-04-21 12:00:00")));
    assert!(lww_allows(Some("2026-04-21 12:00:00"), None));
}

#[test]
fn applied_rows_track_the_newest_timestamp() {
    let mut r = ApplyReport::new();
    r.record_applied(Some("2026-04-21T09:00:00"));
    r.record_applied(Some("2026-04-21 08:00:00"));
    r.record_applied(None);
    assert_eq!(r.applied, 3);
    assert_eq!(r.applied_max_updated_at.as_deref(), Some("2026-04-21 09:00:00"));
}

#[test]
fn max_updated_at_over_changes() {
    let cs = vec![
        change("plans", vec![("updated_at", text("2026-04-21 08:00:00"))]),
        change("plans", vec![("updated_at", text("2026-04-21T10:00:00"))]),
        change("plans", vec![("updated_at", FieldValue::Json("5".into()))]),
    ];
    assert_eq!(max_updated_at(&cs).as_deref(), Some("2026-04-21 10:00:00"));
    assert!(max_updated_at(&vec![]).is_none());
}

#[test]
fn identifiers_and_timestamps() {
    assert!(is_safe_identifier("updated_at"));
    assert!(!is_safe_identifier(""));
    assert!(!is_safe_identifier("a-b"));
    assert_eq!(normalize_timestamp("2026-04-21T08:00:00"), "2026-04-21 08:00:00");
    assert_eq!(json_to_sql_string(&FieldValue::Null), "");
    assert_eq!(json_to_sql_string(&FieldValue::Json("true".into())), "true");
}

#[test]
fn export_query_text() {
    assert_eq!(
        export_sql("plans", true, Some("updated_at")),
        "SELECT id, * FROM \"plans\" WHERE REPLACE(\"updated_at\",'T',' ') > ?1 ORDER BY id"
    );
    assert_eq!(export_sql("plans", false, Some("updated_at")), "SELECT id, * FROM \"plans\" ORDER BY id");
    assert_eq!(export_sql("plans", true, None), "SELECT id, * FROM \"plans\" ORDER BY id");
    assert_eq!(timestamp_column(&cols(&["id", "created_at"])).as_deref(), Some("created_at"));
    assert_eq!(timestamp_column(&cols(&["created_at", "updated_at"])).as_deref(), Some("updated_at"));
    assert!(timestamp_column(&cols(&["id"])).is_none());
}

#[test]
fn local_values_travel_as_json() {
    assert_eq!(cell_to_field(&Cell::Integer(-5)), FieldValue::Json("-5".into()));
    assert_eq!(cell_to_field(&Cell::Blob(vec![1, 2, 3])), FieldValue::Text("AQID".into()));
    assert_eq!(cell_to_field(&Cell::Null), FieldValue::Null);
}

#[test]
fn schema_guard_reports_first_mismatch() {
    let local = vec![("mesh".to_string(), 5u32), ("core".to_string(), 2u32)];
    let remote = vec![("core".to_string(), 3u64), ("mesh".to_string(), 5u64)];
    let err = compare_schema_versions(&local, Some(&remote), "10.0.0.2:8420").unwrap_err();
    assert_eq!(err, "schema mismatch for 'core': local=2, peer(10.0.0.2:8420)=3 \u{2014} peer must upgrade");
    assert!(compare_schema_versions(&local, None, "x").is_ok());
    let same = vec![("mesh".to_string(), 5u64 + (1u64 << 32))];
    assert!(compare_schema_versions(&local, Some(&same), "x").is_ok());
}

#[test]
fn table_round_failed_send_records_nothing() {
    let changes = vec![change("plans", vec![("updated_at", text("2026-04-21 08:00:00"))])];
    let r = TableRound::start(Some("2026-04-21 07:00:00".into()), "2026-04-21 12:00:00".into());
    let r = r.on_exported(Some(&changes));
    assert!(matches!(r, TableRound::Sending { sent: 1, .. }));
    let r = r.on_sent(false);
    assert!(matches!(r, TableRound::Finished { cursor: None, sent: 0, received: 0, applied: 0 }));
}

#[test]
fn table_round_happy_path_advances_cursor() {
    let changes = vec![change("plans", vec![("updated_at", text("2026-04-21 08:00:00"))])];
    let r = TableRound::start(None, "2026-04-21 12:00:00".into());
    let r = r.on_exported(Some(&changes)).on_sent(true).on_fetched(Some(2));
    let mut report = ApplyReport::new();
    report.record_applied(Some("2026-04-21 09:00:00"));
    match r.on_applied(Some(&report)) {
        TableRound::Finished { cursor, sent, received, applied } => {
            assert_eq!(cursor.as_deref(), Some("2026-04-21 09:00:00"));
            assert_eq!((sent, received, applied), (1, 2, 1));
        }
        other => panic!("unexpected: {other:?}"),
    }
}

#[test]
fn table_round_with_nothing_local_skips_send() {
    let r = TableRound::start(None, "t".into()).on_exported(Some(&vec![]));
    assert!(matches!(r, TableRound::Fetching { sent: 0, .. }));
    let r = r.on_fetched(None);
    assert!(matches!(r, TableRound::Finished { cursor: None, .. }));
}

#[test]
fn sync_targets_skip_this_node() {
    let ini = "[mesh]\nshared_secret=s\n\n\
               [a]\nssh_alias=a\nuser=u\nos=linux\ntailscale_ip=100.0.0.1\ndns_name=a\ncapabilities=\nrole=worker\nstatus=active\nlan_ip=192.168.0.1\n\n\
               [b]\nssh_alias=b\nuser=u\nos=linux\ntailscale_ip=100.0.0.2\ndns_name=b\ncapabilities=\nrole=worker\nstatus=active\n\n\
               [c]\nssh_alias=c\nuser=u\nos=linux\ntailscale_ip=100.0.0.3\ndns_name=c\ncapabilities=\nrole=worker\nstatus=offline\n";
    let reg = PeersRegistry::from_ini_text(ini).unwrap();
    let t = sync_targets(&reg, &vec!["100.0.0.2".to_string()]);
    assert_eq!(t.len(), 1);
    assert_eq!(t[0].0, "a");
    assert_eq!(t[0].1.get("lan_ip").map(String::as_str), Some("192.168.0.1"));
    assert_eq!(sync_targets(&reg, &vec![]).len(), 2);
}

#[test]
fn a_peer_is_skipped_only_when_all_its_addresses_are_local() {
    let ini = "[a]\nssh_alias=a\nuser=u\nos=linux\ntailscale_ip=100.0.0.1\ndns_name=a\ncapabilities=\nrole=worker\nstatus=active\nlan_ip=192.168.0.1\nthunderbolt_ip=10.0.0.1\n";
    let reg = PeersRegistry::from_ini_text(ini).unwrap();
    let ts_only = vec!["100.0.0.1".to_string()];
    assert_eq!(sync_targets(&reg, &ts_only).len(), 1);
    let two = vec!["100.0.0.1".to_string(), "192.168.0.1".to_string()];
    assert_eq!(sync_targets(&reg, &two).len(), 1);
    let all = vec!["10.0.0.1".to_string(), "100.0.0.1".to_string(), "192.168.0.1".to_string()];
    assert!(sync_targets(&reg, &all).is_empty());
}

#[test]
fn round_totals_add_up() {
    let mut t = RoundTotals::new();
    t.add(1, 2, 3);
    t.add(4, 0, 1);
    assert_eq!(t, RoundTotals { sent: 5, received: 2, applied: 4 });
}

/// One round A -> B over in-memory rows: export rows after the cursor,
/// apply them all, move the cursor by the library's rule.
fn sync_round_fixed(
    rows: &[(i64, &str)],
    cursor: &mut Option<String>,
    applied_on_b: &mut Vec<i64>,
    round_start_at: &str,
) -> (usize, usize) {
    let exported: Vec<SyncChange> = rows
        .iter()
        .filter(|(_, ts)| cursor.as_deref().map_or(true, |c| *ts > c))
        .map(|(id, ts)| SyncChange {
            table_name: "plans".into(),
            pk: RowKey::Int(*id),
            data: Some(vec![("id".to_string(), FieldValue::Json(id.to_string())), ("updated_at".to_string(), text(ts))]),
        })
        .collect();
    let mut report = ApplyReport::new();
    for c in &exported {
        let plan = plan_change(c, &cols(&["id", "name", "updated_at"])).unwrap();
        report.record_applied(plan.remote_updated_at.as_deref());
        if let RowKey::Int(id) = c.pk {
            if !applied_on_b.contains(&id) {
                applied_on_b.push(id);
            }
        }
    }
    let next = compute_new_cursor(
        cursor.as_deref(),
        max_updated_at(&exported).as_deref(),
        report.applied_max_updated_at.as_deref(),
        round_start_at,
    );
    if next.is_some() {
        *cursor = next;
    }
    (exported.len(), report.applied)
}

#[test]
fn fixed_cursor_converges_on_happy_path() {
    let base = "2026-04-21 08:00:00";
    let rows: Vec<(i64, &str)> = (1..=10).map(|i| (i, base)).collect();
    let mut cursor = None;
    let mut b = Vec::new();
    let (sent, applied) = sync_round_fixed(&rows, &mut cursor, &mut b, "2026-04-21 12:00:00");
    assert_eq!(sent, 10);
    assert_eq!(applied, 10);
    assert_eq!(b.len(), 10);
    assert_eq!(cursor.as_deref(), Some(base));
}

#[test]
fn fixed_cursor_catches_midround_insert() {
    let mut rows: Vec<(i64, &str)> = vec![];
    let mut cursor = None;
    let mut b = Vec::new();
    sync_round_fixed(&rows, &mut cursor, &mut b, "2026-04-21 08:00:00");
    assert!(cursor.is_none());
    rows.push((1, "2026-04-21 08:00:30"));
    rows.push((2, "2026-04-21 08:00:45"));
    let (sent, applied) = sync_round_fixed(&rows, &mut cursor, &mut b, "2026-04-21 08:01:00");
    assert_eq!(sent, 2, "mid-round inserts must be exported in round 2");
    assert_eq!(applied, 2);
    assert_eq!(b.len(), 2);
    assert_eq!(cursor.as_deref(), Some("2026-04-21 08:00:45"));
}

#[test]
fn stale_cursor_never_poisons_future_rounds() {
    let mut cursor = Some("2026-04-21 09:00:00".to_string());
    let mut rows: Vec<(i64, &str)> = (1..=5).map(|i| (i, "2026-04-21 08:30:00")).collect();
    let mut b = Vec::new();
    let (sent1, applied1) = sync_round_fixed(&rows, &mut cursor, &mut b, "2026-04-21 09:05:00");
    assert_eq!(sent1, 0);
    assert_eq!(applied1, 0);
    assert_eq!(cursor.as_deref(), Some("2026-04-21 09:00:00"));
    rows.push((10, "2026-04-21 09:30:00"));
    let (sent2, applied2) = sync_round_fixed(&rows, &mut cursor, &mut b, "2026-04-21 10:00:00");
    assert_eq!(sent2, 1);
    assert_eq!(applied2, 1);
    assert_eq!(b.len(), 1, "row after cursor reaches B");
    assert_eq!(cursor.as_deref(), Some("2026-04-21 09:30:00"));
}

#[test]
fn export_binds_the_normalized_cursor_whenever_given() {
    assert_eq!(export_params(Some("2024-01-01T10:00:00")), vec!["2024-01-01 10:00:00".to_string()]);
    assert!(export_params(None).is_empty());
}

#[test]
fn apply_steps_count_written_rows_only() {
    let mut report = ApplyReport::new();
    let refused = plan_change(&change("evil_table", vec![("id", FieldValue::Json("1".into()))]), &cols(&["id"]));
    assert_eq!(report.on_planned(&refused), RowAction::Done);
    assert_eq!((report.applied, report.rejected), (0, 1));

    let stamped = change("plans", vec![("id", FieldValue::Json("1".into())), ("updated_at", text("2024-01-02T00:00:00"))]);
    let plan = plan_change(&stamped, &cols(&["id", "updated_at"]));
    assert_eq!(report.on_planned(&plan), RowAction::LookUpLocal);
    let plan = plan.unwrap();
    let remote = plan.remote_updated_at.as_deref();
    assert_eq!(report.on_local_updated_at(remote, Some("2024-01-03 00:00:00")), RowAction::Done);
    assert_eq!((report.applied, report.rejected), (0, 1));
    assert_eq!(report.on_local_updated_at(remote, Some("2024-01-01 00:00:00")), RowAction::Execute);
    report.on_executed(&plan, true);
    assert_eq!((report.applied, report.rejected), (1, 1));
    assert_eq!(report.applied_max_updated_at.as_deref(), Some("2024-01-02 00:00:00"));
    report.on_executed(&plan, false);
    assert_eq!((report.applied, report.rejected), (1, 2));

    let plain = plan_change(&change("plans", vec![("id", FieldValue::Json("2".into()))]), &cols(&["id"]));
    assert_eq!(report.on_planned(&plain), RowAction::Execute);
}

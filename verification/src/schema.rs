//! The mesh extension's database migrations, in the order they apply.

use vstd::prelude::*;

verus! {

/// Sync stats, peer and host heartbeats, peer state checksums.
pub const CORE_MESH_TABLES: &'static str = "
CREATE TABLE IF NOT EXISTS mesh_sync_stats (
    peer_name           TEXT PRIMARY KEY,
    total_sent          INTEGER NOT NULL DEFAULT 0,
    total_received      INTEGER NOT NULL DEFAULT 0,
    total_applied       INTEGER NOT NULL DEFAULT 0,
    last_sent_at        TEXT,
    last_sync_at        TEXT,
    last_latency_ms     INTEGER,
    last_db_version     INTEGER,
    last_error          TEXT,
    consecutive_failures INTEGER NOT NULL DEFAULT 0,
    status              TEXT NOT NULL DEFAULT 'unknown'
);

CREATE TABLE IF NOT EXISTS peer_heartbeats (
    peer_name       TEXT PRIMARY KEY,
    last_seen       INTEGER NOT NULL DEFAULT (unixepoch()),
    load_json       TEXT,
    capabilities    TEXT,
    version         TEXT,
    rustc_version   TEXT
);

CREATE TABLE IF NOT EXISTS host_heartbeats (
    hostname    TEXT PRIMARY KEY,
    last_seen   INTEGER NOT NULL DEFAULT (unixepoch()),
    status      TEXT NOT NULL DEFAULT 'online',
    metadata    TEXT
);

CREATE TABLE IF NOT EXISTS mesh_peer_state (
    peer_id         TEXT PRIMARY KEY,
    state_version   INTEGER NOT NULL DEFAULT 0,
    state_checksum  TEXT NOT NULL DEFAULT '',
    last_seen       TEXT NOT NULL DEFAULT (datetime('now'))
);
";

/// Coordinator events and delegation progress.
pub const COORDINATION_TABLES: &'static str = "
CREATE TABLE IF NOT EXISTS coordinator_events (
    id          INTEGER PRIMARY KEY,
    event_type  TEXT NOT NULL,
    payload     TEXT,
    source_node TEXT,
    handled_at  TEXT
);
CREATE INDEX IF NOT EXISTS idx_coord_events_type
    ON coordinator_events(event_type);

CREATE TABLE IF NOT EXISTS delegation_progress (
    id              INTEGER PRIMARY KEY,
    delegation_id   TEXT NOT NULL UNIQUE,
    status          TEXT NOT NULL DEFAULT 'running',
    current_task    TEXT,
    output_summary  TEXT,
    updated_at      TEXT NOT NULL DEFAULT (datetime('now'))
);
CREATE INDEX IF NOT EXISTS idx_delegation_id
    ON delegation_progress(delegation_id);
";

/// The node capability registry.
pub const CAPABILITY_TABLES: &'static str = "
CREATE TABLE IF NOT EXISTS node_capabilities (
    id                  INTEGER PRIMARY KEY AUTOINCREMENT,
    peer_name           TEXT NOT NULL,
    capability_name     TEXT NOT NULL,
    capability_version  TEXT NOT NULL DEFAULT '1.0.0',
    tags_json           TEXT NOT NULL DEFAULT '[]',
    metadata_json       TEXT NOT NULL DEFAULT '{}',
    updated_at          TEXT NOT NULL DEFAULT (datetime('now')),
    UNIQUE(peer_name, capability_name)
);
CREATE INDEX IF NOT EXISTS idx_node_cap_peer
    ON node_capabilities(peer_name);
CREATE INDEX IF NOT EXISTS idx_node_cap_name
    ON node_capabilities(capability_name);
";

/// The role a peer reports in its heartbeat.
pub const HEARTBEAT_ROLE_COLUMN: &'static str = "ALTER TABLE peer_heartbeats ADD COLUMN role TEXT;";

/// Role assignments of mesh nodes.
pub const ROLE_ASSIGNMENTS_TABLE: &'static str = "CREATE TABLE IF NOT EXISTS mesh_role_assignments (\
                     peer_name   TEXT PRIMARY KEY,\
                     role        TEXT NOT NULL DEFAULT 'all',\
                     updated_at  TEXT NOT NULL DEFAULT (datetime('now'))\
                 );";

/// One schema migration: applied once, in version order.
#[derive(Debug, Clone, Copy)]
pub struct MeshMigration {
    pub version: u32,
    pub description: &'static str,
    pub up: &'static str,
}

pub open spec fn migration_view(m: MeshMigration) -> (u32, Seq<char>, Seq<char>) {
    (m.version, m.description@, m.up@)
}

/// The migrations: versions 1 to 5, in order.
pub open spec fn migrations_spec() -> Seq<(u32, Seq<char>, Seq<char>)> {
    seq![
        (1u32, "core mesh tables"@, CORE_MESH_TABLES@),
        (2u32, "coordinator events and delegation progress"@, COORDINATION_TABLES@),
        (3u32, "node capability registry"@, CAPABILITY_TABLES@),
        (4u32, "add role column to peer_heartbeats"@, HEARTBEAT_ROLE_COLUMN@),
        (5u32, "mesh role assignments table"@, ROLE_ASSIGNMENTS_TABLE@),
    ]
}

pub fn migrations() -> (r: Vec<MeshMigration>)
    ensures
        r@.map_values(|m: MeshMigration| migration_view(m)) == migrations_spec(),
{
    let mut v: Vec<MeshMigration> = Vec::new();
    v.push(MeshMigration { version: 1, description: "core mesh tables", up: CORE_MESH_TABLES });
    v.push(MeshMigration { version: 2, description: "coordinator events and delegation progress", up: COORDINATION_TABLES });
    v.push(MeshMigration { version: 3, description: "node capability registry", up: CAPABILITY_TABLES });
    v.push(MeshMigration { version: 4, description: "add role column to peer_heartbeats", up: HEARTBEAT_ROLE_COLUMN });
    v.push(MeshMigration { version: 5, description: "mesh role assignments table", up: ROLE_ASSIGNMENTS_TABLE });
    assert(v@.map_values(|m: MeshMigration| migration_view(m)) =~= migrations_spec());
    v
}

} // verus!

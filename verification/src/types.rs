//! Shared mesh types: sync metadata, change records, stats, delegation.

use vstd::prelude::*;
use crate::text::str_eq;

verus! {

/// Metadata tracking the last successful sync point per peer per table.
#[derive(Debug, Clone, PartialEq, Eq)]
pub struct SyncMeta {
    pub peer: String,
    pub table_name: String,
    pub last_synced: String,
}

/// Aggregate mesh stats for health/metrics reporting.
#[derive(Debug, Clone, Default)]
pub struct MeshStats {
    pub peers_online: u64,
    pub total_synced: u64,
    pub last_sync_latency_ms: Option<i64>,
}

/// Status of a delegation to a remote peer.
#[derive(Debug, Clone, Copy, PartialEq, Eq)]
pub enum DelegateStatus {
    Success,
    Failed,
    TimedOut,
    Cancelled,
}

/// `Duration::clone`: `Duration` is `Copy`, so the clone is the value itself.
pub assume_specification[ <std::time::Duration as Clone>::clone ](d: &std::time::Duration) -> (r: std::time::Duration)
    ensures
        r == *d,
;

/// Result of a delegation attempt.
#[derive(Debug, Clone)]
pub struct DelegateResult {
    pub status: DelegateStatus,
    pub output: String,
    pub tokens_used: u64,
    pub duration: std::time::Duration,
    pub peer_name: String,
    pub worktree_path: Option<String>,
}

/// Schema versions a peer reports from its health endpoint.
#[derive(Debug, Clone)]
pub struct PeerSchemaInfo {
    pub peer_name: String,
    pub schema_versions: Vec<(String, u32)>,
}

/// Default sync interval in seconds.
pub const DEFAULT_INTERVAL_SECS: u64 = 30;

/// Sync ticks between peer probes (ten ticks of 30 s: five minutes).
pub const PROBE_EVERY_N_TICKS: u64 = 10;

/// Peer heartbeat timeout in seconds (ten minutes).
pub const HEARTBEAT_TIMEOUT_SECS: i64 = 600;

/// Tables eligible for timestamp-based sync; each has `id INTEGER PRIMARY
/// KEY` and `updated_at TEXT`.
pub const SYNC_TABLES: [&'static str; 5] = ["plans", "tasks", "waves", "knowledge_base", "notifications"];

pub open spec fn sync_table_names() -> Seq<Seq<char>> {
    seq!["plans"@, "tasks"@, "waves"@, "knowledge_base"@, "notifications"@]
}

/// Whether `table` is on the sync allowlist.
pub fn is_sync_table(table: &str) -> (b: bool)
    ensures
        b == sync_table_names().contains(table@),
{
    let r = str_eq(table, "plans") || str_eq(table, "tasks") || str_eq(table, "waves")
        || str_eq(table, "knowledge_base") || str_eq(table, "notifications");
    proof {
        let names = sync_table_names();
        if names.contains(table@) {
            let k = choose|k: int| 0 <= k < names.len() && names[k] == table@;
            assert(k == 0 || k == 1 || k == 2 || k == 3 || k == 4);
        }
        if r {
            if table@ == "plans"@ { assert(names[0] == table@); }
            if table@ == "tasks"@ { assert(names[1] == table@); }
            if table@ == "waves"@ { assert(names[2] == table@); }
            if table@ == "knowledge_base"@ { assert(names[3] == table@); }
            if table@ == "notifications"@ { assert(names[4] == table@); }
        }
    }
    r
}

} // verus!

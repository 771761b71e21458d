//! Decisions behind the mesh HTTP API: the export allowlist, node status
//! and readiness, the peer list with the local node in it, and the lookup
//! behind a proxied request.

use vstd::prelude::*;
use crate::peers_registry::{first_with_alias, PeersRegistry};
use crate::peers_types::{map_get, PeerEntries, PeerInfo};
use crate::text::{chars_of, extend_str, starts_with_chars, str_eq, string_of};
use crate::transport::{
    address_candidates, address_candidates_spec, pairs_view, peer_config_to_fields, route_fields,
};
use crate::types::{is_sync_table, sync_table_names, MeshStats};

verus! {

// ------------------------------------------------------------ requests

/// Query of `GET /api/sync/export`.
#[derive(Debug, Clone)]
pub struct ExportQuery {
    pub table: String,
    pub since: Option<String>,
}

impl ExportQuery {
    /// Only tables on the sync allowlist may be exported.
    pub fn is_allowed(&self) -> (b: bool)
        ensures
            b == sync_table_names().contains(self.table@),
    {
        is_sync_table(self.table.as_str())
    }
}

/// Body of `POST /api/heartbeat`.
#[derive(Debug, Clone)]
pub struct HeartbeatRequest {
    pub peer: String,
    pub version: Option<String>,
    pub capabilities: Option<String>,
    pub role: Option<String>,
}

// ------------------------------------------------------------ status

impl MeshStats {
    /// Status of the mesh: the peers heard from within the heartbeat
    /// window, plus this node, which does not heartbeat itself.
    pub fn from_counts(heartbeats_online: u64, total_synced: u64) -> (r: Self)
        requires
            heartbeats_online < u64::MAX,
        ensures
            r.peers_online == heartbeats_online + 1,
            r.total_synced == total_synced,
            r.last_sync_latency_ms is None,
    {
        MeshStats { peers_online: heartbeats_online + 1, total_synced, last_sync_latency_ms: None }
    }
}

/// Sync stays healthy while no peer has failed this many rounds in a row.
pub const MAX_CONSECUTIVE_FAILURES: i64 = 5;

/// Readiness of this node.
#[derive(Debug, Clone, Copy, PartialEq, Eq, Structural)]
pub struct Readiness {
    pub ready: bool,
    pub database_ok: bool,
    pub mesh_peers: u64,
    pub sync_healthy: bool,
}

impl Readiness {
    /// Ready when the database answers and sync is healthy; sync counts as
    /// healthy when the failure count cannot be read.
    pub fn assess(database_ok: bool, mesh_peers: u64, max_failures: Option<i64>) -> (r: Self)
        ensures
            r.sync_healthy == match max_failures {
                Some(f) => f < MAX_CONSECUTIVE_FAILURES,
                None => true,
            },
            r.ready == (database_ok && r.sync_healthy),
            r.database_ok == database_ok,
            r.mesh_peers == mesh_peers,
    {
        let sync_healthy = match max_failures {
            Some(f) => f < MAX_CONSECUTIVE_FAILURES,
            None => true,
        };
        Readiness { ready: database_ok && sync_healthy, database_ok, mesh_peers, sync_healthy }
    }

    /// The database check as reported: `ok` or `down`.
    pub fn database_label(&self) -> (s: &'static str)
        ensures
            s@ == if self.database_ok { "ok"@ } else { "down"@ },
    {
        proof {
            reveal_strlit("ok");
            reveal_strlit("down");
        }
        if self.database_ok { "ok" } else { "down" }
    }
}

// ------------------------------------------------------------ peer list

/// A row of the peer list.
#[derive(Debug, Clone, PartialEq)]
pub struct PeerRow {
    pub peer: String,
    pub last_seen: i64,
    pub version: Option<String>,
    pub status: String,
    pub role: Option<String>,
}

pub struct PeerRowInfo {
    pub peer: Seq<char>,
    pub last_seen: i64,
    pub version: Option<Seq<char>>,
    pub status: Seq<char>,
    pub role: Option<Seq<char>>,
}

impl View for PeerRow {
    type V = PeerRowInfo;

    open spec fn view(&self) -> PeerRowInfo {
        PeerRowInfo {
            peer: self.peer@,
            last_seen: self.last_seen,
            version: crate::peers_types::opt_view(self.version),
            status: self.status@,
            role: crate::peers_types::opt_view(self.role),
        }
    }
}

pub open spec fn rows_view(v: Seq<PeerRow>) -> Seq<PeerRowInfo> {
    v.map_values(|r: PeerRow| r@)
}

/// `name` denotes this node: the same name, or one of them is the other
/// followed by a `.` and a domain.
pub open spec fn is_local_name(name: Seq<char>, local: Seq<char>) -> bool {
    name == local || (local + "."@).is_prefix_of(name) || (name + "."@).is_prefix_of(local)
}

/// The row this node adds for itself.
pub open spec fn self_row(local: Seq<char>, role: Seq<char>, version: Seq<char>, now: i64) -> PeerRowInfo {
    PeerRowInfo { peer: local, last_seen: now, version: Some(version), status: "online"@, role: Some(role) }
}

/// A listed row of this node, brought up to date.
pub open spec fn refreshed(r: PeerRowInfo, version: Seq<char>, now: i64) -> PeerRowInfo {
    PeerRowInfo { peer: r.peer, last_seen: now, version: Some(version), status: "online"@, role: r.role }
}

pub open spec fn lists_local(rows: Seq<PeerRowInfo>, local: Seq<char>) -> bool {
    exists|i: int| 0 <= i < rows.len() && is_local_name(#[trigger] rows[i].peer, local)
}

/// The peer list with this node in it: always online, with this build's
/// version and the current time; first when it was not listed.
pub open spec fn with_local_node(
    rows: Seq<PeerRowInfo>,
    local: Seq<char>,
    role: Seq<char>,
    version: Seq<char>,
    now: i64,
) -> Seq<PeerRowInfo> {
    if lists_local(rows, local) {
        Seq::new(
            rows.len(),
            |i: int|
                if is_local_name(rows[i].peer, local) {
                    refreshed(rows[i], version, now)
                } else {
                    rows[i]
                },
        )
    } else {
        seq![self_row(local, role, version, now)] + rows
    }
}

fn is_local(name: &str, local: &str) -> (b: bool)
    ensures
        b == is_local_name(name@, local@),
{
    let n = chars_of(name);
    let l = chars_of(local);
    let mut ld: Vec<char> = Vec::new();
    extend_str(&mut ld, local);
    extend_str(&mut ld, ".");
    let mut nd: Vec<char> = Vec::new();
    extend_str(&mut nd, name);
    extend_str(&mut nd, ".");
    str_eq(name, local) || starts_with_chars(&n, &ld) || starts_with_chars(&l, &nd)
}

/// Puts this node into the peer list read from heartbeats: it does not
/// heartbeat itself, so it is added first when missing, and a stale entry
/// for it is shown online with this build's version.
pub fn merge_local_peer(
    rows: Vec<PeerRow>,
    local_name: &str,
    local_role: &str,
    version: &str,
    now: i64,
) -> (r: Vec<PeerRow>)
    ensures
        rows_view(r@) == with_local_node(rows_view(rows@), local_name@, local_role@, version@, now),
{
    let ghost rv = rows_view(rows@);
    let mut listed = false;
    let mut i: usize = 0;
    while i < rows.len()
        invariant
            i <= rows@.len(),
            rv == rows_view(rows@),
            listed == exists|k: int| 0 <= k < i && is_local_name(#[trigger] rv[k].peer, local_name@),
        decreases rows.len() - i,
    {
        assert(rv[i as int] == rows@[i as int]@);
        let here = is_local(rows[i].peer.as_str(), local_name);
        proof {
            if here {
                assert(0 <= i < i + 1 && is_local_name(rv[i as int].peer, local_name@));
            } else {
                assert forall|k: int| 0 <= k < i + 1 && is_local_name(#[trigger] rv[k].peer, local_name@) implies 0
                    <= k < i by {}
            }
        }
        if here {
            listed = true;
        }
        i = i + 1;
    }
    if !listed {
        let mut out: Vec<PeerRow> = Vec::new();
        out.push(
            PeerRow {
                peer: local_name.to_owned(),
                last_seen: now,
                version: Some(version.to_owned()),
                status: "online".to_owned(),
                role: Some(local_role.to_owned()),
            },
        );
        let ghost head = rows_view(out@);
        let mut rows = rows;
        out.append(&mut rows);
        proof {
            reveal_strlit("online");
        }
        assert(rows_view(out@) =~= with_local_node(rv, local_name@, local_role@, version@, now));
        out
    } else {
        let mut out: Vec<PeerRow> = Vec::new();
        let mut j: usize = 0;
        while j < rows.len()
            invariant
                j <= rows@.len(),
                rv == rows_view(rows@),
                out@.len() == j,
                forall|k: int| 0 <= k < j ==> #[trigger] rows_view(out@)[k] == (if is_local_name(rv[k].peer, local_name@) {
                    refreshed(rv[k], version@, now)
                } else {
                    rv[k]
                }),
            decreases rows.len() - j,
        {
            let p = &rows[j];
            let ghost o = out@;
            assert(rv[j as int] == rows@[j as int]@);
            if is_local(p.peer.as_str(), local_name) {
                proof {
                    reveal_strlit("online");
                }
                out.push(
                    PeerRow {
                        peer: p.peer.clone(),
                        last_seen: now,
                        version: Some(version.to_owned()),
                        status: "online".to_owned(),
                        role: p.role.clone(),
                    },
                );
            } else {
                out.push(
                    PeerRow {
                        peer: p.peer.clone(),
                        last_seen: p.last_seen,
                        version: p.version.clone(),
                        status: p.status.clone(),
                        role: p.role.clone(),
                    },
                );
            }
            assert(forall|k: int| 0 <= k < j ==> rows_view(out@)[k] == rows_view(o)[k]);
            assert(rows_view(out@)[j as int] == out@[j as int]@);
            assert(rows_view(out@)[j as int] == (if is_local_name(rv[j as int].peer, local_name@) {
                refreshed(rv[j as int], version@, now)
            } else {
                rv[j as int]
            }));
            assert forall|k: int| 0 <= k < j + 1 implies #[trigger] rows_view(out@)[k] == (if is_local_name(rv[k].peer, local_name@) {
                refreshed(rv[k], version@, now)
            } else {
                rv[k]
            }) by {
                if k < j {
                    assert(rows_view(out@)[k] == rows_view(o)[k]);
                }
            }
            j = j + 1;
        }
        assert(rows_view(out@) =~= with_local_node(rv, local_name@, local_role@, version@, now));
        out
    }
}

// ------------------------------------------------------------ proxied requests

/// The peer a name denotes: the peer of that name, else the first peer
/// (in name order) listing it as an alias.
pub open spec fn peer_lookup(s: PeerEntries, name: Seq<char>) -> Option<(Seq<char>, PeerInfo)> {
    match map_get(s, name) {
        Some(p) => Some((name, p)),
        None => if exists|i: int| first_with_alias(s, name, i) {
            let i = choose|i: int| first_with_alias(s, name, i);
            Some(s[i])
        } else {
            None
        },
    }
}

proof fn lemma_first_alias_unique(s: PeerEntries, name: Seq<char>, i: int, j: int)
    requires
        first_with_alias(s, name, i),
        first_with_alias(s, name, j),
    ensures
        i == j,
{
}

pub open spec fn not_found_message(name: Seq<char>) -> Seq<char> {
    "peer '"@ + name + "' not found"@
}

pub open spec fn unreachable_text(name: Seq<char>) -> Seq<char> {
    "peer '"@ + name + "' unreachable"@
}

fn quoted_message(name: &str, tail: &str) -> (s: String)
    ensures
        s@ == "peer '"@ + name@ + tail@,
{
    let mut out: Vec<char> = Vec::new();
    extend_str(&mut out, "peer '");
    extend_str(&mut out, name);
    extend_str(&mut out, tail);
    string_of(&out)
}

/// Looks a peer up by name or alias for a proxied request: its canonical
/// name and the addresses to probe, in priority order.
pub fn resolve_peer_candidates(registry: &PeersRegistry, name: &str) -> (r: Result<(String, Vec<(String, String)>), String>)
    ensures
        match peer_lookup(registry.peers@, name@) {
            Some((n, p)) => r is Ok && r->Ok_0.0@ == n && pairs_view(r->Ok_0.1@) == address_candidates_spec(
                route_fields(p),
            ),
            None => r is Err && r->Err_0@ == not_found_message(name@),
        },
{
    match registry.get_peer(name) {
        Some((canonical, cfg)) => {
            proof {
                if map_get(registry.peers@, name@) is None {
                    let i = choose|i: int|
                        first_with_alias(registry.peers@, name@, i) && canonical@ == registry.peers@[i].0
                            && cfg@ == registry.peers@[i].1;
                    let j = choose|j: int| first_with_alias(registry.peers@, name@, j);
                    lemma_first_alias_unique(registry.peers@, name@, i, j);
                }
            }
            let fields = peer_config_to_fields(cfg);
            Ok((canonical.to_owned(), address_candidates(&fields)))
        },
        None => {
            proof {
                reveal_strlit("' not found");
            }
            Err(quoted_message(name, "' not found"))
        },
    }
}

/// The error when no address of a peer answers.
pub fn unreachable_message(canonical: &str) -> (s: String)
    ensures
        s@ == unreachable_text(canonical@),
{
    proof {
        reveal_strlit("' unreachable");
    }
    quoted_message(canonical, "' unreachable")
}

} // verus!

//! Timestamp-based replication with a peer: the sync interval, the schema
//! version guard, the steps of one table's sync round, and the choice of
//! peers for a round.

use vstd::prelude::*;
use crate::numtext::{decimal, parse_u64, parse_unsigned, u32_text, u64_text};
use crate::peers_registry::{active_entries, PeersRegistry};
use crate::peers_parser::strings_contain;
use crate::peers_types::{strings_view, PeerInfo};
use crate::sync_apply::{changes_view, max_updated_at, max_updated_spec, ApplyReport, SyncChange};
use crate::sync_cursor::{compute_new_cursor, next_cursor, opt_string_view};
use crate::text::{chars_of, extend_str, str_eq, string_of};
use crate::transport::{peer_to_fields, sync_fields, PeerFields};
use crate::types::DEFAULT_INTERVAL_SECS;

verus! {

// ------------------------------------------------------------ interval

/// The interval an override and the `CONVERGIO_SYNC_INTERVAL_SECS` text give.
pub open spec fn interval_spec(override_secs: Option<u64>, env_value: Option<Seq<char>>) -> u64 {
    match override_secs {
        Some(v) => v,
        None => match env_value {
            Some(s) => match parse_unsigned(s, 0xffff_ffff_ffff_ffff) {
                Some(v) => v as u64,
                None => DEFAULT_INTERVAL_SECS,
            },
            None => DEFAULT_INTERVAL_SECS,
        },
    }
}

/// Resolve the sync interval: explicit value, else the environment's
/// value when it parses, else the default.
pub fn resolve_interval(override_secs: Option<u64>, env_value: Option<&str>) -> (r: u64)
    ensures
        r == interval_spec(override_secs, crate::sync_cursor::opt_str_view(env_value)),
{
    match override_secs {
        Some(v) => v,
        None => match env_value {
            Some(s) => match parse_u64(s) {
                Some(v) => v,
                None => DEFAULT_INTERVAL_SECS,
            },
            None => DEFAULT_INTERVAL_SECS,
        },
    }
}

// ------------------------------------------------------------ schema guard

pub type VersionEntries = Seq<(Seq<char>, u64)>;

pub open spec fn versions_view(v: Seq<(String, u64)>) -> VersionEntries {
    v.map_values(|e: (String, u64)| (e.0@, e.1))
}

pub open spec fn local_versions_view(v: Seq<(String, u32)>) -> Seq<(Seq<char>, u32)> {
    v.map_values(|e: (String, u32)| (e.0@, e.1))
}

/// The version a peer reports for `module`, the first one listed.
pub open spec fn version_get(s: VersionEntries, module: Seq<char>) -> Option<u64>
    decreases s.len(),
{
    if s.len() == 0 {
        None
    } else if s[0].0 == module {
        Some(s[0].1)
    } else {
        version_get(s.drop_first(), module)
    }
}

/// A reported version, read as `u32` (its low 32 bits).
pub open spec fn as_u32(v: u64) -> u32 {
    (v % 0x1_0000_0000) as u32
}

/// Local module `m` at version `l` conflicts with what the peer reports.
pub open spec fn conflicts(remote: VersionEntries, m: Seq<char>, l: u32) -> bool {
    match version_get(remote, m) {
        Some(r) => as_u32(r) != l,
        None => false,
    }
}

pub open spec fn mismatch_message(module: Seq<char>, local: u32, peer_addr: Seq<char>, remote: u64) -> Seq<char> {
    "schema mismatch for '"@ + module + "': local="@ + decimal(local as nat) + ", peer("@ + peer_addr
        + ")="@ + decimal(remote as nat) + " \u{2014} peer must upgrade"@
}

/// The outcome of comparing schema versions: the first local module, in
/// order, whose version the peer reports differently; modules the peer
/// does not report are not compared.
pub open spec fn schema_check_spec(
    local: Seq<(Seq<char>, u32)>,
    remote: VersionEntries,
    peer_addr: Seq<char>,
) -> Result<(), Seq<char>>
    decreases local.len(),
{
    if local.len() == 0 {
        Ok(())
    } else if conflicts(remote, local[0].0, local[0].1) {
        Err(
            mismatch_message(local[0].0, local[0].1, peer_addr, version_get(remote, local[0].0)->Some_0),
        )
    } else {
        schema_check_spec(local.drop_first(), remote, peer_addr)
    }
}

/// The peer's version of a module agrees with the local one: not reported,
/// or equal in its low 32 bits.
pub open spec fn agrees(reported: Option<u64>, local: u32) -> bool {
    reported matches Some(r) ==> r % 0x1_0000_0000 == local as int
}

/// Schemas are compatible exactly when every local module the peer reports
/// has the same version there (compared on the low 32 bits); otherwise the
/// error names a module the peer reports differently, with both versions.
pub proof fn lemma_schema_check_flags_mismatches(
    local: Seq<(Seq<char>, u32)>,
    remote: VersionEntries,
    peer_addr: Seq<char>,
)
    ensures
        schema_check_spec(local, remote, peer_addr) is Ok <==> forall|i: int|
            0 <= i < local.len() ==> agrees(version_get(remote, #[trigger] local[i].0), local[i].1),
        schema_check_spec(local, remote, peer_addr) is Err ==> exists|i: int|
            0 <= i < local.len() && !agrees(version_get(remote, #[trigger] local[i].0), local[i].1)
                && schema_check_spec(local, remote, peer_addr)->Err_0 == mismatch_message(
                local[i].0,
                local[i].1,
                peer_addr,
                version_get(remote, local[i].0)->Some_0,
            ),
    decreases local.len(),
{
    if local.len() > 0 {
        let rest = local.drop_first();
        lemma_schema_check_flags_mismatches(rest, remote, peer_addr);
        let m = local[0].0;
        let l = local[0].1;
        match version_get(remote, m) {
            Some(r) => {
                assert((r % 0x1_0000_0000) as u32 == r % 0x1_0000_0000);
            },
            None => {},
        }
        if conflicts(remote, m, l) {
            assert(!agrees(version_get(remote, local[0].0), local[0].1));
        } else {
            assert(agrees(version_get(remote, local[0].0), local[0].1));
            if schema_check_spec(rest, remote, peer_addr) is Ok {
                assert forall|i: int| 0 <= i < local.len() implies agrees(version_get(remote, #[trigger] local[i].0), local[i].1) by {
                    if i > 0 {
                        assert(local[i] == rest[i - 1]);
                    }
                }
            } else {
                let k = choose|k: int| 0 <= k < rest.len() && !agrees(version_get(remote, #[trigger] rest[k].0), rest[k].1)
                    && schema_check_spec(rest, remote, peer_addr)->Err_0 == mismatch_message(
                    rest[k].0,
                    rest[k].1,
                    peer_addr,
                    version_get(remote, rest[k].0)->Some_0,
                );
                assert(local[k + 1] == rest[k]);
                let j = choose|j: int| 0 <= j < rest.len() && !agrees(version_get(remote, #[trigger] rest[j].0), rest[j].1);
                assert(local[j + 1] == rest[j]);
            }
        }
    }
}

fn remote_version(remote: &Vec<(String, u64)>, module: &str) -> (r: Option<u64>)
    ensures
        r == version_get(versions_view(remote@), module@),
{
    let ghost f = versions_view(remote@);
    let mut i: usize = 0;
    assert(f.skip(0) == f);
    while i < remote.len()
        invariant
            i <= remote@.len(),
            f == versions_view(remote@),
            version_get(f, module@) == version_get(f.skip(i as int), module@),
        decreases remote.len() - i,
    {
        assert(f.skip(i as int).drop_first() == f.skip(i + 1));
        assert(f.skip(i as int)[0] == f[i as int]);
        if str_eq(remote[i].0.as_str(), module) {
            return Some(remote[i].1);
        }
        i = i + 1;
    }
    None
}

fn mismatch_text(module: &str, local: u32, peer_addr: &str, remote: u64) -> (s: String)
    ensures
        s@ == mismatch_message(module@, local, peer_addr@, remote),
{
    let mut out: Vec<char> = Vec::new();
    extend_str(&mut out, "schema mismatch for '");
    extend_str(&mut out, module);
    extend_str(&mut out, "': local=");
    let l = u32_text(local);
    extend_str(&mut out, l.as_str());
    extend_str(&mut out, ", peer(");
    extend_str(&mut out, peer_addr);
    extend_str(&mut out, ")=");
    let r = u64_text(remote);
    extend_str(&mut out, r.as_str());
    extend_str(&mut out, " \u{2014} peer must upgrade");
    string_of(&out)
}

/// Compares local schema versions with the ones a peer reports (`None`
/// when its health reply carries none): compatible unless a module both
/// sides know has another version on the peer.
pub fn compare_schema_versions(
    local: &Vec<(String, u32)>,
    remote: Option<&Vec<(String, u64)>>,
    peer_addr: &str,
) -> (r: Result<(), String>)
    ensures
        match remote {
            None => r is Ok,
            Some(rv) => match (r, schema_check_spec(local_versions_view(local@), versions_view(rv@), peer_addr@)) {
                (Ok(()), Ok(())) => true,
                (Err(m), Err(s)) => m@ == s,
                _ => false,
            },
        },
{
    let rv = match remote {
        Some(rv) => rv,
        None => return Ok(()),
    };
    let ghost lv = local_versions_view(local@);
    let ghost rvv = versions_view(rv@);
    let mut i: usize = 0;
    assert(lv.skip(0) == lv);
    while i < local.len()
        invariant
            i <= local@.len(),
            lv == local_versions_view(local@),
            rvv == versions_view(rv@),
            remote == Some(rv),
            schema_check_spec(lv, rvv, peer_addr@) == schema_check_spec(lv.skip(i as int), rvv, peer_addr@),
        decreases local.len() - i,
    {
        assert(lv.skip(i as int).drop_first() == lv.skip(i + 1));
        assert(lv.skip(i as int)[0] == lv[i as int]);
        let m = local[i].0.as_str();
        let l = local[i].1;
        match remote_version(rv, m) {
            Some(v) => {
                let low = (v % 0x1_0000_0000) as u32;
                if low != l {
                    return Err(mismatch_text(m, l, peer_addr, v));
                }
            },
            None => {},
        }
        i = i + 1;
    }
    Ok(())
}

// ------------------------------------------------------------ one table's round

/// The text of an optional string, borrowed.
pub fn opt_as_str(o: &Option<String>) -> (r: Option<&str>)
    ensures
        crate::sync_cursor::opt_str_view(r) == opt_string_view(*o),
{
    match o {
        Some(s) => Some(s.as_str()),
        None => None,
    }
}

/// The steps of syncing one table with a peer. Each state names the work
/// due next: export local rows, send them, fetch the peer's rows, apply
/// them; `Finished` holds the cursor to record (when `Some`) and the counts
/// (sent, received, applied). A failed step finishes the round with
/// nothing recorded and zero counts, so the rows are exchanged again next
/// round.
#[derive(Debug)]
pub enum TableRound {
    Exporting { since: Option<String>, round_start_at: String },
    Sending { since: Option<String>, round_start_at: String, sent: usize, exported_max: Option<String> },
    Fetching { since: Option<String>, round_start_at: String, sent: usize, exported_max: Option<String> },
    Applying {
        since: Option<String>,
        round_start_at: String,
        sent: usize,
        exported_max: Option<String>,
        received: usize,
    },
    Finished { cursor: Option<String>, sent: usize, received: usize, applied: usize },
}

pub open spec fn aborted(r: TableRound) -> bool {
    r matches TableRound::Finished { cursor: None, sent: 0, received: 0, applied: 0 }
}

impl TableRound {
    /// A round that reads local rows after `since`; `round_start_at` is the
    /// time taken before `since` was read.
    pub fn start(since: Option<String>, round_start_at: String) -> (r: Self)
        ensures
            r == (TableRound::Exporting { since, round_start_at }),
    {
        TableRound::Exporting { since, round_start_at }
    }

    fn abort() -> (r: Self)
        ensures
            aborted(r),
    {
        TableRound::Finished { cursor: None, sent: 0, received: 0, applied: 0 }
    }

    /// The local rows after the cursor (`None`: the export failed). Rows
    /// are sent only when there are some.
    pub fn on_exported(self, exported: Option<&Vec<SyncChange>>) -> (r: Self)
        requires
            self is Exporting,
        ensures
            match (self, exported) {
                (TableRound::Exporting { since, round_start_at }, Some(v)) => match r {
                    TableRound::Sending { since: s2, round_start_at: t2, sent, exported_max } => v@.len() > 0
                        && s2 == since && t2 == round_start_at && sent == v@.len()
                        && opt_string_view(exported_max) == max_updated_spec(changes_view(v@)),
                    TableRound::Fetching { since: s2, round_start_at: t2, sent, exported_max } => v@.len() == 0
                        && s2 == since && t2 == round_start_at && sent == 0
                        && opt_string_view(exported_max) == max_updated_spec(changes_view(v@)),
                    _ => false,
                },
                _ => aborted(r),
            },
    {
        match self {
            TableRound::Exporting { since, round_start_at } => match exported {
                Some(v) => {
                    let exported_max = max_updated_at(v);
                    if v.len() > 0 {
                        TableRound::Sending { since, round_start_at, sent: v.len(), exported_max }
                    } else {
                        TableRound::Fetching { since, round_start_at, sent: 0, exported_max }
                    }
                },
                None => Self::abort(),
            },
            _ => Self::abort(),
        }
    }

    /// Whether the peer took the local rows. A failed send records no cursor,
    /// so the rows are exported again next round.
    pub fn on_sent(self, ok: bool) -> (r: Self)
        requires
            self is Sending,
        ensures
            match self {
                TableRound::Sending { since, round_start_at, sent, exported_max } => if ok {
                    r == (TableRound::Fetching { since, round_start_at, sent, exported_max })
                } else {
                    aborted(r)
                },
                _ => false,
            },
    {
        match self {
            TableRound::Sending { since, round_start_at, sent, exported_max } => if ok {
                TableRound::Fetching { since, round_start_at, sent, exported_max }
            } else {
                Self::abort()
            },
            _ => Self::abort(),
        }
    }

    /// How many rows the peer returned (`None`: the fetch failed).
    pub fn on_fetched(self, received: Option<usize>) -> (r: Self)
        requires
            self is Fetching,
        ensures
            match (self, received) {
                (TableRound::Fetching { since, round_start_at, sent, exported_max }, Some(n)) => r == (
                TableRound::Applying { since, round_start_at, sent, exported_max, received: n }),
                _ => aborted(r),
            },
    {
        match self {
            TableRound::Fetching { since, round_start_at, sent, exported_max } => match received {
                Some(n) => TableRound::Applying { since, round_start_at, sent, exported_max, received: n },
                None => Self::abort(),
            },
            _ => Self::abort(),
        }
    }

    /// What applying the peer's rows gave (`None`: it failed). The cursor
    /// follows the exchanged rows, capped at the round start, never backwards.
    pub fn on_applied(self, report: Option<&ApplyReport>) -> (r: Self)
        requires
            self is Applying,
        ensures
            match (self, report) {
                (TableRound::Applying { since, round_start_at, sent, exported_max, received }, Some(rep)) => match r {
                    TableRound::Finished { cursor, sent: s2, received: r2, applied } => s2 == sent && r2 == received
                        && applied == rep.applied && opt_string_view(cursor) == next_cursor(
                        opt_string_view(since),
                        opt_string_view(exported_max),
                        opt_string_view(rep.applied_max_updated_at),
                        round_start_at@,
                    ),
                    _ => false,
                },
                _ => aborted(r),
            },
    {
        match self {
            TableRound::Applying { since, round_start_at, sent, exported_max, received } => match report {
                Some(rep) => {
                    let cursor = compute_new_cursor(
                        opt_as_str(&since),
                        opt_as_str(&exported_max),
                        opt_as_str(&rep.applied_max_updated_at),
                        round_start_at.as_str(),
                    );
                    TableRound::Finished { cursor, sent, received, applied: rep.applied }
                },
                None => Self::abort(),
            },
            _ => Self::abort(),
        }
    }
}

// ------------------------------------------------------------ the round over peers

/// An address a peer declares (`None` for one it does not) is one of this
/// node's.
pub open spec fn local_or_absent(addr: Option<Seq<char>>, local_ips: Seq<Seq<char>>) -> bool {
    match addr {
        Some(a) => local_ips.contains(a),
        None => true,
    }
}

/// The peer is this node: every address it declares (its Tailscale address
/// when not empty, its LAN and Thunderbolt addresses when given) is one of
/// the local addresses.
pub open spec fn is_this_node(p: PeerInfo, local_ips: Seq<Seq<char>>) -> bool {
    &&& (p.tailscale_ip.len() > 0 ==> local_ips.contains(p.tailscale_ip))
    &&& local_or_absent(p.lan_ip, local_ips)
    &&& local_or_absent(p.thunderbolt_ip, local_ips)
}

/// The peers a round syncs with: the active ones, skipping this node (a
/// peer all of whose addresses are local).
pub open spec fn sync_peers(active: Seq<(Seq<char>, PeerInfo)>, local_ips: Seq<Seq<char>>) -> Seq<(Seq<char>, PeerInfo)>
    decreases active.len(),
{
    if active.len() == 0 {
        active
    } else {
        let rest = sync_peers(active.drop_last(), local_ips);
        if is_this_node(active.last().1, local_ips) {
            rest
        } else {
            rest.push(active.last())
        }
    }
}

/// Whether an optional address is absent or one of the local addresses.
fn local_or_absent_exec(addr: &Option<String>, local_ips: &Vec<String>) -> (b: bool)
    ensures
        b == local_or_absent(opt_string_view(*addr), strings_view(local_ips@)),
{
    match addr {
        Some(a) => strings_contain(local_ips, &chars_of(a.as_str())),
        None => true,
    }
}

/// The peers to sync with, each with the addresses to probe: the active
/// peers but this node, which is a peer all of whose declared addresses are
/// in `local_ips`.
pub fn sync_targets(registry: &PeersRegistry, local_ips: &Vec<String>) -> (r: Vec<(String, PeerFields)>)
    ensures
        r@.len() == sync_peers(active_entries(registry.peers@), strings_view(local_ips@)).len(),
        forall|i: int| 0 <= i < r@.len() ==> {
            let e = #[trigger] sync_peers(active_entries(registry.peers@), strings_view(local_ips@))[i];
            r@[i].0@ == e.0 && r@[i].1@ == sync_fields(e.1)
        },
{
    let active = registry.list_active();
    let ghost av = crate::peers_registry::ref_entries_view(active@);
    let ghost lt = strings_view(local_ips@);
    let mut out: Vec<(String, PeerFields)> = Vec::new();
    let mut i: usize = 0;
    assert(av.take(0) =~= Seq::<(Seq<char>, PeerInfo)>::empty());
    while i < active.len()
        invariant
            i <= active@.len(),
            av == crate::peers_registry::ref_entries_view(active@),
            av == active_entries(registry.peers@),
            lt == strings_view(local_ips@),
            out@.len() == sync_peers(av.take(i as int), lt).len(),
            forall|k: int| 0 <= k < out@.len() ==> {
                let e = #[trigger] sync_peers(av.take(i as int), lt)[k];
                out@[k].0@ == e.0 && out@[k].1@ == sync_fields(e.1)
            },
        decreases active.len() - i,
    {
        assert(av.take(i + 1).drop_last() == av.take(i as int));
        assert(av.take(i + 1).last() == av[i as int]);
        let (name, peer) = active[i];
        let ts_local = peer.tailscale_ip.as_str().is_empty()
            || strings_contain(local_ips, &chars_of(peer.tailscale_ip.as_str()));
        let skip = ts_local && local_or_absent_exec(&peer.lan_ip, local_ips)
            && local_or_absent_exec(&peer.thunderbolt_ip, local_ips);
        if !skip {
            out.push((name.to_owned(), peer_to_fields(peer)));
        }
        i = i + 1;
    }
    assert(av.take(active@.len() as int) == av);
    out
}

/// Counts summed over the tables of one peer's round.
#[derive(Debug, Clone, Copy, PartialEq, Eq, Structural)]
pub struct RoundTotals {
    pub sent: usize,
    pub received: usize,
    pub applied: usize,
}

impl RoundTotals {
    pub fn new() -> (r: Self)
        ensures
            r == (RoundTotals { sent: 0, received: 0, applied: 0 }),
    {
        RoundTotals { sent: 0, received: 0, applied: 0 }
    }

    /// Adds one table's counts.
    pub fn add(&mut self, sent: usize, received: usize, applied: usize)
        requires
            old(self).sent + sent <= usize::MAX,
            old(self).received + received <= usize::MAX,
            old(self).applied + applied <= usize::MAX,
        ensures
            final(self).sent == old(self).sent + sent,
            final(self).received == old(self).received + received,
            final(self).applied == old(self).applied + applied,
    {
        self.sent = self.sent + sent;
        self.received = self.received + received;
        self.applied = self.applied + applied;
    }
}

} // verus!

//! Transport rules for background sync: peer address validation, transport
//! candidates (Thunderbolt > LAN > Tailscale), request targets and the
//! Bearer and HMAC authentication a request carries.

use vstd::prelude::*;
use vstd::utf8::encode_utf8;
use crate::auth::{compute_hmac, hmac_result};
use crate::codec::{hex_encode, hex_lower, sha256, sha256_spec};
use crate::numtext::{i64_text, int_text, parse_u16, parse_unsigned};
use crate::peers_types::{opt_view, PeerConfig, PeerInfo};
use crate::text::{chars_eq, chars_of, contains_char, extend_chars, extend_str, find_last, rfind_char, string_of, sub_chars};
use crate::types::{is_sync_table, sync_table_names};

verus! {

// ------------------------------------------------------------ bearer

/// Bearer header value for a token; none for an empty token.
pub fn bearer_from_token(token: &str) -> (r: Option<String>)
    ensures
        match r {
            Some(s) => token@.len() > 0 && s@ == "Bearer "@ + token@,
            None => token@.len() == 0,
        },
{
    if token.is_empty() {
        None
    } else {
        let mut out: Vec<char> = Vec::new();
        extend_str(&mut out, "Bearer ");
        extend_str(&mut out, token);
        Some(string_of(&out))
    }
}

// ------------------------------------------------------------ peer address

/// What `validate_peer_addr` decides: `host:port` with a numeric port and no
/// `/`, `@`, `?` or `#` in the host; otherwise the error message.
pub open spec fn peer_addr_check(addr: Seq<char>) -> Result<(), Seq<char>> {
    match find_last(addr, ':') {
        None => Err("invalid peer address (missing port): "@ + addr),
        Some(i) => {
            let host = addr.take(i);
            let port = addr.skip(i + 1);
            if parse_unsigned(port, 0xffff) is None {
                Err("invalid port in peer address: "@ + addr)
            } else if host.contains('/') || host.contains('@') || host.contains('?')
                || host.contains('#') {
                Err("invalid chars in peer address host: "@ + addr)
            } else {
                Ok(())
            }
        },
    }
}

fn message_with(prefix: &str, addr: &str) -> (s: String)
    ensures
        s@ == prefix@ + addr@,
{
    let mut out: Vec<char> = Vec::new();
    extend_str(&mut out, prefix);
    extend_str(&mut out, addr);
    string_of(&out)
}

/// Validate that a peer address is a safe `host:port` (no path, no scheme,
/// no query).
pub fn validate_peer_addr(addr: &str) -> (r: Result<(), String>)
    ensures
        match peer_addr_check(addr@) {
            Ok(()) => r is Ok,
            Err(m) => r is Err && r->Err_0@ == m,
        },
{
    let a = chars_of(addr);
    match rfind_char(&a, ':') {
        None => Err(message_with("invalid peer address (missing port): ", addr)),
        Some(i) => {
            assert(i < a@.len());
            let n = a.len();
            assert(i < n);
            let host = sub_chars(&a, 0, i);
            let port = sub_chars(&a, i + 1, n);
            assert(host@ == a@.take(i as int));
            assert(port@ == a@.skip(i + 1));
            let port_s = string_of(&port);
            if parse_u16(port_s.as_str()).is_none() {
                return Err(message_with("invalid port in peer address: ", addr));
            }
            if contains_char(&host, '/') || contains_char(&host, '@') || contains_char(&host, '?')
                || contains_char(&host, '#') {
                return Err(message_with("invalid chars in peer address host: ", addr));
            }
            Ok(())
        },
    }
}

// ------------------------------------------------------------ transport fields

pub type FieldEntries = Seq<(Seq<char>, Seq<char>)>;

/// The value under `k`, the first binding found.
pub open spec fn field_get(s: FieldEntries, k: Seq<char>) -> Option<Seq<char>>
    decreases s.len(),
{
    if s.len() == 0 {
        None
    } else if s[0].0 == k {
        Some(s[0].1)
    } else {
        field_get(s.drop_first(), k)
    }
}

/// A peer's transport addresses by field name (`thunderbolt_ip`, `lan_ip`,
/// `tailscale_ip`).
#[derive(Debug)]
pub struct PeerFields {
    entries: Vec<(String, String)>,
}

impl View for PeerFields {
    type V = FieldEntries;

    closed spec fn view(&self) -> FieldEntries {
        self.entries@.map_values(|e: (String, String)| (e.0@, e.1@))
    }
}

impl PeerFields {
    pub fn new() -> (r: Self)
        ensures
            r@ == Seq::<(Seq<char>, Seq<char>)>::empty(),
    {
        let r = PeerFields { entries: Vec::new() };
        assert(r@ =~= Seq::<(Seq<char>, Seq<char>)>::empty());
        r
    }

    fn push(&mut self, key: &str, value: String)
        ensures
            final(self)@ == old(self)@.push((key@, value@)),
    {
        let ghost o = self@;
        self.entries.push((key.to_owned(), value));
        assert(self@ =~= o.push((key@, value@)));
    }

    pub fn len(&self) -> (n: usize)
        ensures
            n == self@.len(),
    {
        self.entries.len()
    }

    pub fn get(&self, key: &str) -> (r: Option<&String>)
        ensures
            match r {
                Some(v) => field_get(self@, key@) == Some(v@),
                None => field_get(self@, key@) is None,
            },
    {
        let kc = chars_of(key);
        let mut i: usize = 0;
        assert(self@.skip(0) == self@);
        while i < self.entries.len()
            invariant
                i <= self@.len(),
                self@.len() == self.entries@.len(),
                kc@ == key@,
                field_get(self@, key@) == field_get(self@.skip(i as int), key@),
            decreases self.entries.len() - i,
        {
            assert(self@.skip(i as int).drop_first() == self@.skip(i + 1));
            assert(self@.skip(i as int)[0] == self@[i as int]);
            assert(self@[i as int] == (self.entries@[i as int].0@, self.entries@[i as int].1@));
            let k = chars_of(self.entries[i].0.as_str());
            if chars_eq(&k, &kc) {
                return Some(&self.entries[i].1);
            }
            i = i + 1;
        }
        None
    }

    pub fn contains_key(&self, key: &str) -> (b: bool)
        ensures
            b == field_get(self@, key@) is Some,
    {
        self.get(key).is_some()
    }
}

pub open spec fn opt_field(key: Seq<char>, v: Option<Seq<char>>) -> FieldEntries {
    match v {
        Some(x) => seq![(key, x)],
        None => Seq::empty(),
    }
}

/// The fields the sync loop probes: Thunderbolt and LAN addresses when set,
/// the Tailscale address when not empty.
pub open spec fn sync_fields(p: PeerInfo) -> FieldEntries {
    opt_field("thunderbolt_ip"@, p.thunderbolt_ip) + opt_field("lan_ip"@, p.lan_ip) + if p.tailscale_ip.len()
        > 0 {
        seq![("tailscale_ip"@, p.tailscale_ip)]
    } else {
        Seq::empty()
    }
}

/// The fields a proxied request probes: the Tailscale address always, LAN
/// and Thunderbolt addresses when set.
pub open spec fn route_fields(p: PeerInfo) -> FieldEntries {
    seq![("tailscale_ip"@, p.tailscale_ip)] + opt_field("lan_ip"@, p.lan_ip) + opt_field(
        "thunderbolt_ip"@,
        p.thunderbolt_ip,
    )
}

fn push_opt(f: &mut PeerFields, key: &str, v: &Option<String>)
    ensures
        final(f)@ == old(f)@ + opt_field(key@, opt_view(*v)),
{
    match v {
        Some(x) => {
            f.push(key, x.clone());
        },
        None => {
            assert(f@ =~= f@ + Seq::<(Seq<char>, Seq<char>)>::empty());
        },
    }
}

/// The transport addresses the sync loop probes for a peer.
pub fn peer_to_fields(peer: &PeerConfig) -> (f: PeerFields)
    ensures
        f@ == sync_fields(peer@),
{
    let mut map = PeerFields::new();
    push_opt(&mut map, "thunderbolt_ip", &peer.thunderbolt_ip);
    push_opt(&mut map, "lan_ip", &peer.lan_ip);
    let ghost m = map@;
    if !peer.tailscale_ip.as_str().is_empty() {
        map.push("tailscale_ip", peer.tailscale_ip.clone());
    }
    assert(map@ =~= sync_fields(peer@));
    map
}

/// The transport addresses a proxied request probes for a peer.
pub fn peer_config_to_fields(cfg: &PeerConfig) -> (f: PeerFields)
    ensures
        f@ == route_fields(cfg@),
{
    let mut f = PeerFields::new();
    f.push("tailscale_ip", cfg.tailscale_ip.clone());
    push_opt(&mut f, "lan_ip", &cfg.lan_ip);
    push_opt(&mut f, "thunderbolt_ip", &cfg.thunderbolt_ip);
    assert(f@ =~= route_fields(cfg@));
    f
}

/// One transport candidate, `ip:8420`, when the field is set and not empty.
pub open spec fn candidate(transport: Seq<char>, ip: Option<Seq<char>>) -> Seq<(Seq<char>, Seq<char>)> {
    match ip {
        Some(x) => if x.len() > 0 {
            seq![(transport, x + ":8420"@)]
        } else {
            Seq::empty()
        },
        None => Seq::empty(),
    }
}

/// Transport candidates in priority order: Thunderbolt, LAN, Tailscale.
pub open spec fn address_candidates_spec(f: FieldEntries) -> Seq<(Seq<char>, Seq<char>)> {
    candidate("thunderbolt"@, field_get(f, "thunderbolt_ip"@)) + candidate("lan"@, field_get(f, "lan_ip"@))
        + candidate("tailscale"@, field_get(f, "tailscale_ip"@))
}

/// A transport field is set: present and not empty.
pub open spec fn is_set(ip: Option<Seq<char>>) -> bool {
    ip matches Some(x) && x.len() > 0
}

/// Transports are tried fastest first: a set Thunderbolt address is the
/// first candidate, else a set LAN address; no LAN candidate comes before a
/// Thunderbolt one, and no Tailscale candidate before either; every
/// candidate is a set field with the mesh port.
pub proof fn lemma_candidates_fastest_first(f: FieldEntries)
    ensures
        ({
            let c = address_candidates_spec(f);
            let tb = field_get(f, "thunderbolt_ip"@);
            let lan = field_get(f, "lan_ip"@);
            let ts = field_get(f, "tailscale_ip"@);
            &&& is_set(tb) ==> c.len() > 0 && c[0] == ("thunderbolt"@, tb->Some_0 + ":8420"@)
            &&& (!is_set(tb) && is_set(lan)) ==> c.len() > 0 && c[0] == ("lan"@, lan->Some_0 + ":8420"@)
            &&& forall|i: int, j: int|
                0 <= i < c.len() && 0 <= j < c.len() && c[i].0 == "lan"@ && c[j].0 == "thunderbolt"@ ==> j < i
            &&& forall|i: int, j: int|
                0 <= i < c.len() && 0 <= j < c.len() && c[i].0 == "tailscale"@ && c[j].0 != "tailscale"@ ==> j < i
            &&& forall|i: int| 0 <= i < c.len() ==> {
                ||| (c[i].0 == "thunderbolt"@ && is_set(tb) && c[i].1 == tb->Some_0 + ":8420"@)
                ||| (c[i].0 == "lan"@ && is_set(lan) && c[i].1 == lan->Some_0 + ":8420"@)
                ||| (c[i].0 == "tailscale"@ && is_set(ts) && c[i].1 == ts->Some_0 + ":8420"@)
            }
        }),
{
    reveal_strlit("thunderbolt");
    reveal_strlit("lan");
    reveal_strlit("tailscale");
    assert("thunderbolt"@.len() == 11);
    assert("lan"@.len() == 3);
    assert("tailscale"@.len() == 9);
    let a = candidate("thunderbolt"@, field_get(f, "thunderbolt_ip"@));
    let b = candidate("lan"@, field_get(f, "lan_ip"@));
    let d = candidate("tailscale"@, field_get(f, "tailscale_ip"@));
    let c = address_candidates_spec(f);
    assert(c == a + b + d);
    assert forall|i: int| 0 <= i < c.len() implies {
        &&& (i < a.len() ==> c[i] == a[i] && c[i].0 == "thunderbolt"@)
        &&& (a.len() <= i < a.len() + b.len() ==> c[i] == b[i - a.len()] && c[i].0 == "lan"@)
        &&& (a.len() + b.len() <= i ==> c[i] == d[i - a.len() - b.len()] && c[i].0 == "tailscale"@)
    } by {
        if i < a.len() {
            assert(c[i] == (a + b)[i]);
        } else if i < a.len() + b.len() {
            assert(c[i] == (a + b)[i]);
        }
    }
}

pub open spec fn pairs_view(v: Seq<(String, String)>) -> Seq<(Seq<char>, Seq<char>)> {
    v.map_values(|e: (String, String)| (e.0@, e.1@))
}

fn push_candidate(out: &mut Vec<(String, String)>, transport: &str, ip: Option<&String>)
    ensures
        pairs_view(final(out)@) == pairs_view(old(out)@) + candidate(
            transport@,
            match ip {
                Some(x) => Some(x@),
                None => None,
            },
        ),
{
    let ghost o = out@;
    match ip {
        Some(x) => {
            if !x.as_str().is_empty() {
                let mut a: Vec<char> = Vec::new();
                extend_str(&mut a, x.as_str());
                extend_str(&mut a, ":8420");
                out.push((transport.to_owned(), string_of(&a)));
                assert(pairs_view(out@) =~= pairs_view(o).push((transport@, x@ + ":8420"@)));
            } else {
                assert(pairs_view(out@) =~= pairs_view(o) + Seq::<(Seq<char>, Seq<char>)>::empty());
            }
        },
        None => {
            assert(pairs_view(out@) =~= pairs_view(o) + Seq::<(Seq<char>, Seq<char>)>::empty());
        },
    }
}

/// Transport names and `ip:8420` addresses to probe, in priority order:
/// Thunderbolt > LAN > Tailscale, skipping unset or empty fields.
pub fn address_candidates(fields: &PeerFields) -> (r: Vec<(String, String)>)
    ensures
        pairs_view(r@) == address_candidates_spec(fields@),
{
    let mut out: Vec<(String, String)> = Vec::new();
    assert(pairs_view(out@) =~= Seq::<(Seq<char>, Seq<char>)>::empty());
    push_candidate(&mut out, "thunderbolt", fields.get("thunderbolt_ip"));
    push_candidate(&mut out, "lan", fields.get("lan_ip"));
    push_candidate(&mut out, "tailscale", fields.get("tailscale_ip"));
    assert(pairs_view(out@) =~= address_candidates_spec(fields@));
    out
}

/// A Tailscale address from command output or an override: trimmed, and
/// present only when not empty.
pub fn tailscale_ip_from(raw: &str) -> (r: Option<String>)
    ensures
        match r {
            Some(s) => crate::text::trim(raw@).len() > 0 && s@ == crate::text::trim(raw@),
            None => crate::text::trim(raw@).len() == 0,
        },
{
    let t = crate::text::trim_chars(&chars_of(raw));
    if t.len() == 0 {
        None
    } else {
        Some(string_of(&t))
    }
}

// ------------------------------------------------------------ request targets

/// Where local changes are posted: URL and path, for a valid peer address.
pub fn import_target(peer_addr: &str) -> (r: Result<(String, String), String>)
    ensures
        match peer_addr_check(peer_addr@) {
            Ok(()) => r is Ok && r->Ok_0.0@ == "http://"@ + peer_addr@ + "/api/sync/import"@
                && r->Ok_0.1@ == "/api/sync/import"@,
            Err(m) => r is Err && r->Err_0@ == m,
        },
{
    match validate_peer_addr(peer_addr) {
        Err(e) => Err(e),
        Ok(()) => {
            let mut url: Vec<char> = Vec::new();
            extend_str(&mut url, "http://");
            extend_str(&mut url, peer_addr);
            extend_str(&mut url, "/api/sync/import");
            Ok((string_of(&url), "/api/sync/import".to_owned()))
        },
    }
}

/// Path and query of an export request.
pub open spec fn export_path(table: Seq<char>, since: Option<Seq<char>>) -> Seq<char> {
    "/api/sync/export?table="@ + table + match since {
        Some(ts) => "&since="@ + ts,
        None => Seq::empty(),
    }
}

/// Where remote changes are fetched from: URL and signed path-and-query, for
/// a valid peer address and an allow-listed table.
pub fn export_target(peer_addr: &str, table: &str, since: Option<&str>) -> (r: Result<(String, String), String>)
    ensures
        match peer_addr_check(peer_addr@) {
            Err(m) => r is Err && r->Err_0@ == m,
            Ok(()) => if !sync_table_names().contains(table@) {
                r is Err && r->Err_0@ == "table '"@ + table@ + "' not in sync allowlist"@
            } else {
                let pq = export_path(table@, crate::sync_cursor::opt_str_view(since));
                r is Ok && r->Ok_0.0@ == "http://"@ + peer_addr@ + pq && r->Ok_0.1@ == pq
            },
        },
{
    match validate_peer_addr(peer_addr) {
        Err(e) => return Err(e),
        Ok(()) => {},
    }
    if !is_sync_table(table) {
        let mut m: Vec<char> = Vec::new();
        extend_str(&mut m, "table '");
        extend_str(&mut m, table);
        extend_str(&mut m, "' not in sync allowlist");
        return Err(string_of(&m));
    }
    let mut pq: Vec<char> = Vec::new();
    extend_str(&mut pq, "/api/sync/export?table=");
    extend_str(&mut pq, table);
    match since {
        Some(ts) => {
            extend_str(&mut pq, "&since=");
            extend_str(&mut pq, ts);
        },
        None => {},
    }
    assert(pq@ =~= export_path(table@, crate::sync_cursor::opt_str_view(since)));
    let mut url: Vec<char> = Vec::new();
    extend_str(&mut url, "http://");
    extend_str(&mut url, peer_addr);
    extend_chars(&mut url, &pq);
    Ok((string_of(&url), string_of(&pq)))
}

// ------------------------------------------------------------ signing

/// The signed message: `timestamp:method:path`, then `:body_hash` when a
/// body hash is given.
pub open spec fn signed_message(
    timestamp: Seq<char>,
    method: Seq<char>,
    path: Seq<char>,
    body_hash: Option<Seq<char>>,
) -> Seq<char> {
    timestamp + ":"@ + method + ":"@ + path + match body_hash {
        Some(bh) => ":"@ + bh,
        None => Seq::empty(),
    }
}

pub fn build_signed_message(timestamp: &str, method: &str, path: &str, body_hash: Option<&str>) -> (s: String)
    ensures
        s@ == signed_message(timestamp@, method@, path@, crate::sync_cursor::opt_str_view(body_hash)),
{
    let mut m: Vec<char> = Vec::new();
    extend_str(&mut m, timestamp);
    extend_str(&mut m, ":");
    extend_str(&mut m, method);
    extend_str(&mut m, ":");
    extend_str(&mut m, path);
    match body_hash {
        Some(bh) => {
            extend_str(&mut m, ":");
            extend_str(&mut m, bh);
        },
        None => {},
    }
    assert(m@ =~= signed_message(timestamp@, method@, path@, crate::sync_cursor::opt_str_view(body_hash)));
    string_of(&m)
}

/// The timestamp header and hex signature for a request signed at `now`
/// (Unix seconds), or nothing when the secret is empty.
pub fn mesh_signature(
    secret: &[u8],
    now: i64,
    method: &str,
    path_and_query: &str,
    body_hash: Option<&str>,
) -> (r: Option<(String, String)>)
    ensures
        ({
            let msg = signed_message(
                int_text(now as int),
                method@,
                path_and_query@,
                crate::sync_cursor::opt_str_view(body_hash),
            );
            match hmac_result(secret@, encode_utf8(msg)) {
                Ok(t) => r is Some && r->Some_0.0@ == int_text(now as int) && r->Some_0.1@
                    == hex_lower(t),
                Err(_) => r is None,
            }
        }),
{
    let ts = i64_text(now);
    let message = build_signed_message(ts.as_str(), method, path_and_query, body_hash);
    match compute_hmac(secret, message.as_str().as_bytes()) {
        Ok(sig) => Some((ts, hex_encode(sig.as_slice()))),
        Err(_) => None,
    }
}

/// Lowercase hex SHA-256 of a request body.
pub fn body_hash_hex(body: &[u8]) -> (s: String)
    ensures
        s@ == hex_lower(sha256_spec(body@)),
{
    let d = sha256(body);
    hex_encode(d.as_slice())
}

pub open spec fn opt_pair_view(o: Option<(String, String)>) -> Option<(Seq<char>, Seq<char>)> {
    match o {
        Some((a, b)) => Some((a@, b@)),
        None => None,
    }
}

/// The headers `mesh_auth_headers` gives.
pub open spec fn auth_headers_spec(
    bearer: Option<Seq<char>>,
    signature: Option<(Seq<char>, Seq<char>)>,
    body_hash: Option<Seq<char>>,
) -> Seq<(Seq<char>, Seq<char>)> {
    (match bearer {
        Some(b) => seq![("Authorization"@, b)],
        None => Seq::empty(),
    }) + match signature {
        Some((ts, sig)) => seq![("X-Mesh-Timestamp"@, ts), ("X-Mesh-Signature"@, sig)]
            + match body_hash {
            Some(bh) => seq![("X-Mesh-Body-Hash"@, bh)],
            None => Seq::empty(),
        },
        None => Seq::empty(),
    }
}

/// The authentication headers of a mesh request, in order: the Bearer token
/// when there is one; with a signature, its timestamp and value, and the body
/// hash when the request has a body.
pub fn mesh_auth_headers(
    bearer: Option<String>,
    signature: Option<(String, String)>,
    body_hash: Option<String>,
) -> (r: Vec<(String, String)>)
    ensures
        pairs_view(r@) == auth_headers_spec(
            crate::sync_cursor::opt_string_view(bearer),
            opt_pair_view(signature),
            crate::sync_cursor::opt_string_view(body_hash),
        ),
{
    let ghost expected = auth_headers_spec(
        crate::sync_cursor::opt_string_view(bearer),
        opt_pair_view(signature),
        crate::sync_cursor::opt_string_view(body_hash),
    );
    let mut out: Vec<(String, String)> = Vec::new();
    match bearer {
        Some(b) => out.push(("Authorization".to_owned(), b)),
        None => {},
    }
    match signature {
        Some((ts, sig)) => {
            out.push(("X-Mesh-Timestamp".to_owned(), ts));
            out.push(("X-Mesh-Signature".to_owned(), sig));
            match body_hash {
                Some(bh) => out.push(("X-Mesh-Body-Hash".to_owned(), bh)),
                None => {},
            }
        },
        None => {},
    }
    assert(pairs_view(out@) =~= expected);
    out
}

} // verus!

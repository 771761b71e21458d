//! INI parser and serialiser for `peers.conf`: `[section]` headers and
//! `key=value` lines; `[mesh]` holds the shared secret, every other section
//! a peer.

use vstd::prelude::*;
use crate::numtext::{decimal, parse_unsigned, parse_u32, u32_text};
use crate::peers_types::{
    canonical, canonical_peer_name, lemma_upsert_at,
    map_get, map_upsert, strings_view, PeerConfig, PeerEntries, PeerInfo, PeerMap, PeersError,
    PeersFault,
};
use crate::text::{
    chars_eq, chars_eq_str, chars_of, extend_chars, extend_str, find_char, find_first, join,
    lines_of, sanitize, sanitize_chars, seq_lt, seqs_view, split_chars, split_lines, split_on,
    string_of, sub_chars, trim, trim_chars, join_strings, lemma_lt_irreflexive,
};

verus! {

// ------------------------------------------------------------ spec

pub type KeyValues = Seq<(Seq<char>, Seq<char>)>;

/// The value bound to `k`, the last binding winning.
pub open spec fn kv_get(kv: KeyValues, k: Seq<char>) -> Option<Seq<char>>
    decreases kv.len(),
{
    if kv.len() == 0 {
        None
    } else if kv.last().0 == k {
        Some(kv.last().1)
    } else {
        kv_get(kv.drop_last(), k)
    }
}

/// The trimmed, non-empty pieces of the trimmed parts, in order.
pub open spec fn nonempty_trimmed(parts: Seq<Seq<char>>) -> Seq<Seq<char>>
    decreases parts.len(),
{
    if parts.len() == 0 {
        Seq::empty()
    } else {
        let r = nonempty_trimmed(parts.drop_last());
        let t = trim(parts.last());
        if t.len() > 0 {
            r.push(t)
        } else {
            r
        }
    }
}

/// A comma-separated list: pieces trimmed, empty pieces dropped.
pub open spec fn parse_list(raw: Seq<char>) -> Seq<Seq<char>> {
    nonempty_trimmed(split_on(raw, ','))
}

pub open spec fn missing(peer: Seq<char>, field: Seq<char>) -> PeersFault {
    PeersFault::MissingField { peer, field }
}

/// The peer a section describes, or the first required key it lacks.
pub open spec fn build_peer_spec(name: Seq<char>, kv: KeyValues) -> Result<PeerInfo, PeersFault> {
    if kv_get(kv, "ssh_alias"@) is None {
        Err(missing(name, "ssh_alias"@))
    } else if kv_get(kv, "user"@) is None {
        Err(missing(name, "user"@))
    } else if kv_get(kv, "os"@) is None {
        Err(missing(name, "os"@))
    } else if kv_get(kv, "tailscale_ip"@) is None {
        Err(missing(name, "tailscale_ip"@))
    } else if kv_get(kv, "dns_name"@) is None {
        Err(missing(name, "dns_name"@))
    } else if kv_get(kv, "capabilities"@) is None {
        Err(missing(name, "capabilities"@))
    } else if kv_get(kv, "role"@) is None {
        Err(missing(name, "role"@))
    } else {
        Ok(
            PeerInfo {
                ssh_alias: kv_get(kv, "ssh_alias"@).unwrap(),
                user: kv_get(kv, "user"@).unwrap(),
                os: kv_get(kv, "os"@).unwrap(),
                tailscale_ip: kv_get(kv, "tailscale_ip"@).unwrap(),
                dns_name: kv_get(kv, "dns_name"@).unwrap(),
                capabilities: parse_list(kv_get(kv, "capabilities"@).unwrap()),
                role: kv_get(kv, "role"@).unwrap(),
                status: match kv_get(kv, "status"@) {
                    Some(s) => s,
                    None => "active"@,
                },
                thunderbolt_ip: kv_get(kv, "thunderbolt_ip"@),
                lan_ip: kv_get(kv, "lan_ip"@),
                mac_address: kv_get(kv, "mac_address"@),
                gh_account: kv_get(kv, "gh_account"@),
                runners: match kv_get(kv, "runners"@) {
                    Some(v) => match parse_unsigned(v, 0xffff_ffff) {
                        Some(n) => Some(n as u32),
                        None => None,
                    },
                    None => None,
                },
                runner_paths: kv_get(kv, "runner_paths"@),
                repo_path: kv_get(kv, "repo_path"@),
                aliases: match kv_get(kv, "aliases"@) {
                    Some(v) => parse_list(v),
                    None => Seq::empty(),
                },
            },
        )
    }
}

/// A section with every required key is read as a peer whose status is the
/// one it gives, and `active` when it gives none: a peer listed without a
/// status takes part in sync rounds.
pub proof fn lemma_status_defaults_to_active(name: Seq<char>, kv: KeyValues)
    requires
        kv_get(kv, "ssh_alias"@) is Some,
        kv_get(kv, "user"@) is Some,
        kv_get(kv, "os"@) is Some,
        kv_get(kv, "tailscale_ip"@) is Some,
        kv_get(kv, "dns_name"@) is Some,
        kv_get(kv, "capabilities"@) is Some,
        kv_get(kv, "role"@) is Some,
    ensures
        build_peer_spec(name, kv) is Ok,
        kv_get(kv, "status"@) is None ==> build_peer_spec(name, kv)->Ok_0.status == "active"@,
        kv_get(kv, "status"@) is Some ==> build_peer_spec(name, kv)->Ok_0.status == kv_get(kv, "status"@)->Some_0,
{
}

/// `existing` extended, in order, by each incoming alias that differs from
/// `canon` and is not yet present.
pub open spec fn merge_aliases(
    existing: Seq<Seq<char>>,
    incoming: Seq<Seq<char>>,
    canon: Seq<char>,
) -> Seq<Seq<char>>
    decreases incoming.len(),
{
    if incoming.len() == 0 {
        existing
    } else {
        let r = merge_aliases(existing, incoming.drop_last(), canon);
        let a = incoming.last();
        if a != canon && !r.contains(a) {
            r.push(a)
        } else {
            r
        }
    }
}

/// The state of the parser between lines.
pub struct IniState {
    pub secret: Seq<char>,
    pub peers: PeerEntries,
    pub section: Option<Seq<char>>,
    pub kv: KeyValues,
    pub error: Option<PeersFault>,
}

pub open spec fn ini_init() -> IniState {
    IniState {
        secret: Seq::empty(),
        peers: Seq::empty(),
        section: None,
        kv: Seq::empty(),
        error: None,
    }
}

pub open spec fn stuck(st: IniState) -> bool {
    st.error is Some
}

/// A finished section entered into the state.
pub open spec fn flush(st: IniState) -> IniState {
    match st.section {
        None => st,
        Some(name) => if name == "mesh"@ {
            match kv_get(st.kv, "shared_secret"@) {
                Some(s) => IniState { secret: s, ..st },
                None => st,
            }
        } else {
            let canon = canonical(name);
            match build_peer_spec(name, st.kv) {
                Err(e) => IniState { error: Some(e), ..st },
                Ok(cfg) => {
                    let cfg2 = if name != canon && !cfg.aliases.contains(name) {
                        PeerInfo { aliases: cfg.aliases.push(name), ..cfg }
                    } else {
                        cfg
                    };
                    match map_get(st.peers, canon) {
                        Some(existing) => IniState {
                            peers: map_upsert(
                                st.peers,
                                canon,
                                PeerInfo {
                                    aliases: merge_aliases(
                                        existing.aliases,
                                        cfg2.aliases.push(name),
                                        canon,
                                    ),
                                    ..existing
                                },
                            ),
                            ..st
                        },
                        None => IniState { peers: map_upsert(st.peers, canon, cfg2), ..st },
                    }
                },
            }
        },
    }
}

/// One line of input (numbered from zero) read into the state.
pub open spec fn ini_step(st: IniState, raw: Seq<char>, lineno: nat) -> IniState {
    if stuck(st) {
        st
    } else {
        let line = trim(raw);
        if line.len() == 0 || line[0] == '#' {
            st
        } else if line[0] == '[' && line.last() == ']' {
            let f = flush(st);
            if stuck(f) {
                f
            } else {
                IniState { section: Some(line.subrange(1, line.len() - 1)), kv: Seq::empty(), ..f }
            }
        } else {
            match find_first(line, '=') {
                Some(eq) => IniState {
                    kv: st.kv.push((trim(line.take(eq)), trim(line.skip(eq + 1)))),
                    ..st
                },
                None => IniState {
                    error: Some(
                        PeersFault::Parse { line: lineno + 1, msg: "unexpected content: "@ + line },
                    ),
                    ..st
                },
            }
        }
    }
}

pub open spec fn ini_fold(lines: Seq<Seq<char>>) -> IniState
    decreases lines.len(),
{
    if lines.len() == 0 {
        ini_init()
    } else {
        ini_step(ini_fold(lines.drop_last()), lines.last(), (lines.len() - 1) as nat)
    }
}

/// The state after the whole text, the last section entered.
pub open spec fn ini_final(text: Seq<char>) -> IniState {
    let st = ini_fold(lines_of(text));
    if stuck(st) {
        st
    } else {
        flush(st)
    }
}

/// What parsing `text` gives: the shared secret and the peers, or an error.
pub open spec fn parse_ini_spec(text: Seq<char>) -> Result<(Seq<char>, PeerEntries), PeersFault> {
    let st = ini_final(text);
    match st.error {
        Some(e) => Err(e),
        None => Ok((st.secret, st.peers)),
    }
}

proof fn lemma_stuck_stays(lines: Seq<Seq<char>>, j: int)
    requires
        0 <= j <= lines.len(),
        stuck(ini_fold(lines.take(j))),
    ensures
        ini_fold(lines) == ini_fold(lines.take(j)),
    decreases lines.len() - j,
{
    if j < lines.len() {
        assert(lines.drop_last().take(j) == lines.take(j));
        lemma_stuck_stays(lines.drop_last(), j);
    } else {
        assert(lines.take(j) == lines);
    }
}


} // verus!

verus! {

// ------------------------------------------------------------ exec

pub open spec fn kvs_view(v: Seq<(Vec<char>, Vec<char>)>) -> KeyValues {
    v.map_values(|e: (Vec<char>, Vec<char>)| (e.0@, e.1@))
}

pub open spec fn opt_chars(o: Option<Vec<char>>) -> Option<Seq<char>> {
    match o {
        Some(v) => Some(v@),
        None => None,
    }
}

/// The value bound to `key`, the last binding winning.
fn kv_lookup(kv: &Vec<(Vec<char>, Vec<char>)>, key: &str) -> (r: Option<Vec<char>>)
    ensures
        opt_chars(r) == kv_get(kvs_view(kv@), key@),
{
    let ghost v = kvs_view(kv@);
    let kc = chars_of(key);
    let mut i: usize = kv.len();
    assert(v.take(i as int) == v);
    while i > 0
        invariant
            i <= kv@.len(),
            v == kvs_view(kv@),
            kc@ == key@,
            kv_get(v, key@) == kv_get(v.take(i as int), key@),
        decreases i,
    {
        assert(v.take(i as int).drop_last() == v.take(i - 1));
        assert(v.take(i as int).last() == v[i - 1]);
        assert(v[i - 1] == (kv@[i - 1].0@, kv@[i - 1].1@));
        let same = chars_eq(&kv[i - 1].0, &kc);
        assert(kv_get(v.take(i as int), key@) == (if v.take(i as int).last().0 == key@ {
            Some(v.take(i as int).last().1)
        } else {
            kv_get(v.take(i as int).drop_last(), key@)
        }));
        assert(same ==> kv@[i - 1].0@ == key@);
        assert(!same ==> kv@[i - 1].0@ != key@);
        if same {
            let val = &kv[i - 1].1;
            let r = sub_chars(val, 0, val.len());
            assert(r@ == val@);
            return Some(r);
        }
        i = i - 1;
    }
    None
}

/// Splits a comma-separated list, trimming pieces and dropping empty ones.
fn parse_capabilities(raw: &Vec<char>) -> (r: Vec<String>)
    ensures
        strings_view(r@) == parse_list(raw@),
{
    let parts = split_chars(raw, ',');
    let ghost ps = seqs_view(parts@);
    let mut out: Vec<String> = Vec::new();
    let mut i: usize = 0;
    assert(ps.take(0) =~= Seq::<Seq<char>>::empty());
    assert(strings_view(out@) =~= Seq::<Seq<char>>::empty());
    while i < parts.len()
        invariant
            i <= parts@.len(),
            ps == seqs_view(parts@),
            strings_view(out@) == nonempty_trimmed(ps.take(i as int)),
        decreases parts.len() - i,
    {
        assert(ps.take(i + 1).drop_last() == ps.take(i as int));
        assert(ps.take(i + 1).last() == parts@[i as int]@);
        let t = trim_chars(&parts[i]);
        if t.len() > 0 {
            let ghost o = out@;
            out.push(string_of(&t));
            assert(strings_view(out@) =~= strings_view(o).push(t@));
        }
        i = i + 1;
    }
    assert(ps.take(parts@.len() as int) == ps);
    out
}

/// The value under `key`, or the missing-field error for `peer`.
fn require(kv: &Vec<(Vec<char>, Vec<char>)>, key: &str, peer: &Vec<char>) -> (r: Result<String, PeersError>)
    ensures
        match r {
            Ok(s) => kv_get(kvs_view(kv@), key@) == Some(s@),
            Err(e) => kv_get(kvs_view(kv@), key@) is None && e@ == missing(peer@, key@),
        },
{
    match kv_lookup(kv, key) {
        Some(v) => Ok(string_of(&v)),
        None => Err(PeersError::MissingField { peer: string_of(peer), field: key.to_owned() }),
    }
}

fn optional(kv: &Vec<(Vec<char>, Vec<char>)>, key: &str) -> (r: Option<String>)
    ensures
        crate::peers_types::opt_view(r) == kv_get(kvs_view(kv@), key@),
{
    match kv_lookup(kv, key) {
        Some(v) => Some(string_of(&v)),
        None => None,
    }
}

/// The peer described by section `name`.
fn build_peer(name: &Vec<char>, kv: &Vec<(Vec<char>, Vec<char>)>) -> (r: Result<PeerConfig, PeersError>)
    ensures
        match r {
            Ok(p) => build_peer_spec(name@, kvs_view(kv@)) == Ok::<PeerInfo, PeersFault>(p@),
            Err(e) => build_peer_spec(name@, kvs_view(kv@)) == Err::<PeerInfo, PeersFault>(e@),
        },
{
    let ssh_alias = match require(kv, "ssh_alias", name) { Ok(v) => v, Err(e) => return Err(e) };
    let user = match require(kv, "user", name) { Ok(v) => v, Err(e) => return Err(e) };
    let os = match require(kv, "os", name) { Ok(v) => v, Err(e) => return Err(e) };
    let tailscale_ip = match require(kv, "tailscale_ip", name) { Ok(v) => v, Err(e) => return Err(e) };
    let dns_name = match require(kv, "dns_name", name) { Ok(v) => v, Err(e) => return Err(e) };
    let caps_raw = match require(kv, "capabilities", name) { Ok(v) => v, Err(e) => return Err(e) };
    let role = match require(kv, "role", name) { Ok(v) => v, Err(e) => return Err(e) };
    let capabilities = parse_capabilities(&chars_of(caps_raw.as_str()));
    let status = match optional(kv, "status") {
        Some(s) => s,
        None => "active".to_owned(),
    };
    let runners = match optional(kv, "runners") {
        Some(v) => parse_u32(v.as_str()),
        None => None,
    };
    let aliases = match optional(kv, "aliases") {
        Some(v) => parse_capabilities(&chars_of(v.as_str())),
        None => {
            let e: Vec<String> = Vec::new();
            assert(strings_view(e@) =~= Seq::<Seq<char>>::empty());
            e
        },
    };
    let p = PeerConfig {
        ssh_alias,
        user,
        os,
        tailscale_ip,
        dns_name,
        capabilities,
        role,
        status,
        thunderbolt_ip: optional(kv, "thunderbolt_ip"),
        lan_ip: optional(kv, "lan_ip"),
        mac_address: optional(kv, "mac_address"),
        gh_account: optional(kv, "gh_account"),
        runners,
        runner_paths: optional(kv, "runner_paths"),
        repo_path: optional(kv, "repo_path"),
        aliases,
    };
    Ok(p)
}

/// Whether `list` holds a string equal to `s`.
pub fn strings_contain(list: &Vec<String>, s: &Vec<char>) -> (b: bool)
    ensures
        b == strings_view(list@).contains(s@),
{
    let mut i: usize = 0;
    while i < list.len()
        invariant
            i <= list@.len(),
            forall|k: int| 0 <= k < i ==> strings_view(list@)[k] != s@,
        decreases list.len() - i,
    {
        let c = chars_of(list[i].as_str());
        if chars_eq(&c, s) {
            assert(strings_view(list@)[i as int] == s@);
            return true;
        }
        i = i + 1;
    }
    false
}

pub open spec fn parts_state(
    section: Option<Vec<char>>,
    kv: Seq<(Vec<char>, Vec<char>)>,
    secret: Seq<char>,
    peers: PeerEntries,
) -> IniState {
    IniState {
        secret,
        peers,
        section: opt_chars(section),
        kv: kvs_view(kv),
        error: None,
    }
}

/// Enters the finished section into the secret or the peers.
fn flush_section(
    section: &Option<Vec<char>>,
    kv: &Vec<(Vec<char>, Vec<char>)>,
    secret: &mut Vec<char>,
    peers: &mut PeerMap,
) -> (r: Result<(), PeersError>)
    ensures
        ({
            let f = flush(parts_state(*section, kv@, old(secret)@, old(peers)@));
            match r {
                Ok(()) => f.error is None && final(secret)@ == f.secret && final(peers)@ == f.peers,
                Err(e) => f.error == Some(e@),
            }
        }),
{
    let ghost st = parts_state(*section, kv@, secret@, peers@);
    match section {
        None => Ok(()),
        Some(name) => {
            if chars_eq_str(name, "mesh") {
                match kv_lookup(kv, "shared_secret") {
                    Some(s) => {
                        *secret = s;
                    },
                    None => {},
                }
                Ok(())
            } else {
                let name_string = string_of(name);
                let canon = canonical_peer_name(name_string.as_str());
                let canon_chars = chars_of(canon.as_str());
                let mut cfg = match build_peer(name, kv) {
                    Ok(c) => c,
                    Err(e) => return Err(e),
                };
                if !chars_eq(name, &canon_chars) && !strings_contain(&cfg.aliases, name) {
                    let ghost a0 = cfg.aliases@;
                    cfg.aliases.push(string_of(name));
                    assert(strings_view(cfg.aliases@) =~= strings_view(a0).push(name@));
                }
                let ghost cfg2 = cfg@;
                match peers.position(&canon_chars) {
                    Some(i) => {
                        let ghost p0 = peers@;
                        let ghost existing = p0[i as int].1;
                        let mut incoming: Vec<String> = Vec::new();
                        let mut j: usize = 0;
                        while j < cfg.aliases.len()
                            invariant
                                j <= cfg.aliases@.len(),
                                strings_view(incoming@) == strings_view(cfg.aliases@).take(j as int),
                            decreases cfg.aliases.len() - j,
                        {
                            let ghost i0 = incoming@;
                            incoming.push(string_of(&chars_of(cfg.aliases[j].as_str())));
                            assert(strings_view(incoming@) =~= strings_view(i0).push(strings_view(cfg.aliases@)[j as int]));
                            assert(strings_view(cfg.aliases@).take(j + 1) =~= strings_view(cfg.aliases@).take(j as int).push(strings_view(cfg.aliases@)[j as int]));
                            j = j + 1;
                        }
                        assert(strings_view(cfg.aliases@).take(cfg.aliases@.len() as int) == strings_view(cfg.aliases@));
                        let ghost i0 = incoming@;
                        incoming.push(string_of(name));
                        let ghost inc = strings_view(incoming@);
                        assert(inc =~= cfg2.aliases.push(name@));
                        let mut k: usize = 0;
                        assert(inc.take(0) =~= Seq::<Seq<char>>::empty());
                        assert(p0.update(i as int, (canon@, PeerInfo { aliases: merge_aliases(existing.aliases, inc.take(0), canon@), ..existing })) =~= p0);
                        while k < incoming.len()
                            invariant
                                k <= incoming@.len(),
                                inc == strings_view(incoming@),
                                canon_chars@ == canon@,
                                i < p0.len(),
                                p0[i as int].0 == canon@,
                                existing == p0[i as int].1,
                                peers@ == p0.update(i as int, (canon@, PeerInfo { aliases: merge_aliases(existing.aliases, inc.take(k as int), canon@), ..existing })),
                            decreases incoming.len() - k,
                        {
                            let a = chars_of(incoming[k].as_str());
                            let cur = peers.entry(i).1;
                            let ghost merged = merge_aliases(existing.aliases, inc.take(k as int), canon@);
                            assert(cur@.aliases == merged);
                            assert(inc.take(k + 1).drop_last() == inc.take(k as int));
                            assert(inc.take(k + 1).last() == a@);
                            let ghost x = inc.take(k + 1);
                            assert(merge_aliases(existing.aliases, x, canon@) == (if x.last() != canon@ && !merge_aliases(existing.aliases, x.drop_last(), canon@).contains(x.last()) {
                                merge_aliases(existing.aliases, x.drop_last(), canon@).push(x.last())
                            } else {
                                merge_aliases(existing.aliases, x.drop_last(), canon@)
                            }));
                            if !chars_eq(&a, &canon_chars) && !strings_contain(&cur.aliases, &a) {
                                assert(a@ != canon@);
                                assert(!merged.contains(a@));
                                assert(x.last() == a@);
                                assert(x.drop_last() == inc.take(k as int));
                                assert(merge_aliases(existing.aliases, inc.take(k + 1), canon@) == merged.push(a@));
                                let ghost before = peers@;
                                peers.push_alias_at(i, string_of(&a));
                                assert(before[i as int].1.aliases == merged);
                                assert(peers@[i as int].1.aliases == merged.push(a@));
                                assert(peers@ =~= p0.update(i as int, (canon@, PeerInfo { aliases: merge_aliases(existing.aliases, inc.take(k + 1), canon@), ..existing })));
                            } else {
                                assert(merge_aliases(existing.aliases, inc.take(k + 1), canon@) == merged);
                                assert(peers@ =~= p0.update(i as int, (canon@, PeerInfo { aliases: merge_aliases(existing.aliases, inc.take(k + 1), canon@), ..existing })));
                            }
                            k = k + 1;
                        }
                        assert(inc.take(inc.len() as int) == inc);
                        proof {
                            let newv = PeerInfo { aliases: merge_aliases(existing.aliases, inc, canon@), ..existing };
                            assert forall|j2: int| 0 <= j2 < i implies seq_lt(#[trigger] p0[j2].0, canon@) by {
                                assert(seq_lt(p0[j2].0, p0[i as int].0));
                            }
                            lemma_lt_irreflexive(canon@);
                            lemma_upsert_at(p0, canon@, newv, i as int);
                            assert(p0.take(i as int) + seq![(canon@, newv)] + p0.skip(i + 1) =~= p0.update(i as int, (canon@, newv)));
                        }
                        Ok(())
                    },
                    None => {
                        peers.insert(canon, cfg);
                        Ok(())
                    },
                }
            }
        },
    }
}

} // verus!

verus! {

proof fn lemma_fold_take_step(ls: Seq<Seq<char>>, i: int)
    requires
        0 <= i < ls.len(),
    ensures
        ini_fold(ls.take(i + 1)) == ini_step(ini_fold(ls.take(i)), ls[i], i as nat),
{
    assert(ls.take(i + 1).drop_last() == ls.take(i));
    assert(ls.take(i + 1).last() == ls[i]);
}

/// Parses `peers.conf` text into the shared secret and the peers by
/// canonical name.
pub fn parse_ini(text: &str) -> (r: Result<(String, PeerMap), PeersError>)
    ensures
        match r {
            Ok((secret, peers)) => parse_ini_spec(text@) == Ok::<(Seq<char>, PeerEntries), PeersFault>(
                (secret@, peers@),
            ),
            Err(e) => parse_ini_spec(text@) == Err::<(Seq<char>, PeerEntries), PeersFault>(e@),
        },
{
    let chars = chars_of(text);
    let lines = split_lines(&chars);
    let ghost ls = seqs_view(lines@);
    let mut secret: Vec<char> = Vec::new();
    let mut peers = PeerMap::new();
    let mut section: Option<Vec<char>> = None;
    let mut kv: Vec<(Vec<char>, Vec<char>)> = Vec::new();
    let mut i: usize = 0;
    assert(ls.take(0) =~= Seq::<Seq<char>>::empty());
    assert(kvs_view(kv@) =~= Seq::<(Seq<char>, Seq<char>)>::empty());
    while i < lines.len()
        invariant
            i <= lines@.len(),
            ls == seqs_view(lines@),
            ls == lines_of(text@),
            parts_state(section, kv@, secret@, peers@) == ini_fold(ls.take(i as int)),
        decreases lines.len() - i,
    {
        proof {
            lemma_fold_take_step(ls, i as int);
        }
        let ghost st = ini_fold(ls.take(i as int));
        let line = trim_chars(&lines[i]);
        assert(line@ == trim(ls[i as int]));
        let n = line.len();
        if n == 0 || line[0] == '#' {
        } else if line[0] == '[' && line[n - 1] == ']' {
            match flush_section(&section, &kv, &mut secret, &mut peers) {
                Ok(()) => {},
                Err(e) => {
                    proof {
                        lemma_stuck_stays(ls, i + 1);
                    }
                    return Err(e);
                },
            }
            section = Some(sub_chars(&line, 1, n - 1));
            kv = Vec::new();
            assert(kvs_view(kv@) =~= Seq::<(Seq<char>, Seq<char>)>::empty());
        } else {
            match find_char(&line, '=') {
                Some(eq) => {
                    let key = trim_chars(&sub_chars(&line, 0, eq));
                    let value = trim_chars(&sub_chars(&line, eq + 1, n));
                    let ghost kv0 = kv@;
                    kv.push((key, value));
                    assert(line@.take(eq as int) == line@.subrange(0, eq as int));
                    assert(line@.skip(eq + 1) == line@.subrange(eq + 1, n as int));
                    assert(kvs_view(kv@) =~= kvs_view(kv0).push((key@, value@)));
                },
                None => {
                    let mut msg: Vec<char> = Vec::new();
                    extend_str(&mut msg, "unexpected content: ");
                    extend_chars(&mut msg, &line);
                    proof {
                        lemma_stuck_stays(ls, i + 1);
                    }
                    return Err(PeersError::Parse { line: i + 1, msg: string_of(&msg) });
                },
            }
        }
        i = i + 1;
    }
    assert(ls.take(lines@.len() as int) == ls);
    match flush_section(&section, &kv, &mut secret, &mut peers) {
        Ok(()) => Ok((string_of(&secret), peers)),
        Err(e) => Err(e),
    }
}

} // verus!

verus! {

/// A `key=value` line for an optional value, or nothing.
pub open spec fn opt_line(key_eq: Seq<char>, v: Option<Seq<char>>) -> Seq<char> {
    match v {
        Some(x) => kv_line(key_eq, x),
        None => Seq::empty(),
    }
}

/// A `key=value` line, the value sanitized.
pub open spec fn kv_line(key_eq: Seq<char>, v: Seq<char>) -> Seq<char> {
    key_eq + sanitize(v) + "\n"@
}

/// The section header line.
pub open spec fn ini_header(name: Seq<char>) -> Seq<char> {
    "["@ + sanitize(name) + "]\n"@
}

/// The lines of the fields every peer has.
pub open spec fn ini_required(p: PeerInfo) -> Seq<char> {
    kv_line("ssh_alias="@, p.ssh_alias) + kv_line("user="@, p.user) + kv_line("os="@, p.os)
        + kv_line("tailscale_ip="@, p.tailscale_ip) + kv_line("dns_name="@, p.dns_name)
        + kv_line("capabilities="@, join(p.capabilities, ","@)) + kv_line("role="@, p.role)
        + kv_line("status="@, p.status)
}

/// The `runners` line, if any.
pub open spec fn runners_line(r: Option<u32>) -> Seq<char> {
    match r {
        Some(n) => "runners="@ + decimal(n as nat) + "\n"@,
        None => Seq::empty(),
    }
}

/// The `aliases` line, if there are aliases.
pub open spec fn aliases_line(a: Seq<Seq<char>>) -> Seq<char> {
    if a.len() > 0 {
        kv_line("aliases="@, join(a, ","@))
    } else {
        Seq::empty()
    }
}

/// The lines of the optional fields that are set.
pub open spec fn ini_optional(p: PeerInfo) -> Seq<char> {
    opt_line("thunderbolt_ip="@, p.thunderbolt_ip) + opt_line("lan_ip="@, p.lan_ip) + opt_line(
        "mac_address="@,
        p.mac_address,
    ) + opt_line("gh_account="@, p.gh_account) + runners_line(p.runners) + opt_line(
        "runner_paths="@,
        p.runner_paths,
    ) + opt_line("repo_path="@, p.repo_path) + aliases_line(p.aliases)
}

/// The INI section `peer_to_ini` writes for peer `name`.
pub open spec fn peer_ini(name: Seq<char>, p: PeerInfo) -> Seq<char> {
    ini_header(name) + ini_required(p) + ini_optional(p)
}

/// Sanitize a value for INI output: strip newlines, surrounding whitespace
/// and every leading `[` (with the whitespace between them) so no value can
/// open a section or add a key.
pub fn sanitize_ini_value(s: &str) -> (r: String)
    ensures
        r@ == sanitize(s@),
{
    let c = chars_of(s);
    string_of(&sanitize_chars(&c))
}

/// The capabilities joined by commas.
pub fn caps_str(caps: &Vec<String>) -> (r: String)
    ensures
        r@ == join(strings_view(caps@), ","@),
{
    let j = join_strings(caps, ",");
    assert(caps@.map_values(|x: String| x@) == strings_view(caps@));
    string_of(&j)
}

/// Appends `key_eq`, the sanitized value and a newline.
fn push_line(out: &mut Vec<char>, key_eq: &str, value: &Vec<char>)
    ensures
        final(out)@ == old(out)@ + kv_line(key_eq@, value@),
{
    extend_str(out, key_eq);
    let v = sanitize_chars(value);
    extend_chars(out, &v);
    extend_str(out, "\n");
}

fn push_opt_line(out: &mut Vec<char>, key_eq: &str, value: &Option<String>)
    ensures
        final(out)@ == old(out)@ + opt_line(key_eq@, crate::peers_types::opt_view(*value)),
{
    match value {
        Some(v) => {
            push_line(out, key_eq, &chars_of(v.as_str()));
        },
        None => {
            assert(out@ == out@ + Seq::<char>::empty());
        },
    }
}

fn push_required(out: &mut Vec<char>, p: &PeerConfig)
    ensures
        final(out)@ == old(out)@ + ini_required(p@),
{
    let ghost o = out@;
    push_line(out, "ssh_alias=", &chars_of(p.ssh_alias.as_str()));
    push_line(out, "user=", &chars_of(p.user.as_str()));
    push_line(out, "os=", &chars_of(p.os.as_str()));
    push_line(out, "tailscale_ip=", &chars_of(p.tailscale_ip.as_str()));
    push_line(out, "dns_name=", &chars_of(p.dns_name.as_str()));
    let caps = caps_str(&p.capabilities);
    push_line(out, "capabilities=", &chars_of(caps.as_str()));
    push_line(out, "role=", &chars_of(p.role.as_str()));
    push_line(out, "status=", &chars_of(p.status.as_str()));
    assert(out@ =~= o + ini_required(p@));
}

fn push_optional(out: &mut Vec<char>, p: &PeerConfig)
    ensures
        final(out)@ == old(out)@ + ini_optional(p@),
{
    let ghost o = out@;
    push_opt_line(out, "thunderbolt_ip=", &p.thunderbolt_ip);
    push_opt_line(out, "lan_ip=", &p.lan_ip);
    push_opt_line(out, "mac_address=", &p.mac_address);
    push_opt_line(out, "gh_account=", &p.gh_account);
    let ghost o2 = out@;
    match p.runners {
        Some(r) => {
            extend_str(out, "runners=");
            let t = u32_text(r);
            extend_str(out, t.as_str());
            extend_str(out, "\n");
        },
        None => {},
    }
    assert(out@ =~= o2 + runners_line(p.runners));
    push_opt_line(out, "runner_paths=", &p.runner_paths);
    push_opt_line(out, "repo_path=", &p.repo_path);
    let ghost o3 = out@;
    if p.aliases.len() > 0 {
        let joined = caps_str(&p.aliases);
        push_line(out, "aliases=", &chars_of(joined.as_str()));
    }
    assert(out@ =~= o3 + aliases_line(p@.aliases));
    assert(out@ =~= o + ini_optional(p@));
}

/// Renders one peer as an INI section.
pub fn peer_to_ini(name: &str, p: &PeerConfig) -> (r: String)
    ensures
        r@ == peer_ini(name@, p@),
{
    let mut out: Vec<char> = Vec::new();
    extend_str(&mut out, "[");
    let n = sanitize_chars(&chars_of(name));
    extend_chars(&mut out, &n);
    extend_str(&mut out, "]\n");
    assert(out@ =~= ini_header(name@));
    push_required(&mut out, p);
    push_optional(&mut out, p);
    string_of(&out)
}

} // verus!

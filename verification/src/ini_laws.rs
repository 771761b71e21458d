//! What `peer_to_ini` writes reads back: the section of one peer parses as
//! exactly that peer, under its canonical name, with its fields as written.
//! No value can open a section or add a key.

use vstd::prelude::*;
use crate::auth::{lemma_scan_found_stays, secret_scan};
use crate::numtext::{decimal, lemma_decimal_reads_back, lemma_unsigned_roundtrip};
use crate::peers_parser::{
    aliases_line, build_peer_spec, flush, ini_fold, ini_header, ini_init, ini_optional,
    ini_required, ini_step, kv_get, kv_line, merge_aliases, nonempty_trimmed, opt_line, parse_ini_spec,
    parse_list,
    peer_ini, runners_line, stuck, IniState, KeyValues,
};
use crate::peers_registry::{peers_ini, registry_ini};
use crate::peers_types::{
    canonical, keys_sorted, map_get, map_upsert, PeerEntries, PeerInfo,
};
use crate::text::{
    drop_newlines, find_first, first_at, is_trimmed, is_ws, join, lemma_first_unique,
    lemma_lt_asymmetric, lemma_lt_irreflexive, lemma_trim_end_prefix, lemma_trim_is_trimmed,
    lemma_trim_start_suffix, lemma_trim_trimmed, lines_of, lower, not_newline, sanitize, seq_lt, split_acc,
    lemma_strip_open_suffix, starts_open, strip_open,
    split_on, strip_cr, trim, trim_end, trim_start,
};

verus! {

// ------------------------------------------------------------ lines

/// No line-break character in `s`.
pub open spec fn clean(s: Seq<char>) -> bool {
    forall|i: int| 0 <= i < s.len() ==> not_newline(#[trigger] s[i])
}

/// Each line followed by `\n`.
pub open spec fn unlines(ls: Seq<Seq<char>>) -> Seq<char>
    decreases ls.len(),
{
    if ls.len() == 0 {
        Seq::empty()
    } else {
        unlines(ls.drop_last()) + ls.last() + "\n"@
    }
}

proof fn lemma_newline_lit()
    ensures
        "\n"@ == seq!['\n'],
{
    reveal_strlit("\n");
    assert("\n"@ =~= seq!['\n']);
}

proof fn lemma_split_append(s: Seq<char>, t: Seq<char>)
    requires
        clean(t),
    ensures
        split_acc(s + t, '\n') == (split_acc(s, '\n').0, split_acc(s, '\n').1 + t),
    decreases t.len(),
{
    if t.len() == 0 {
        assert(s + t =~= s);
        assert(split_acc(s, '\n').1 + t =~= split_acc(s, '\n').1);
    } else {
        let u = t.drop_last();
        assert(clean(u)) by {
            assert forall|i: int| 0 <= i < u.len() implies not_newline(#[trigger] u[i]) by {
                assert(u[i] == t[i]);
            }
        }
        lemma_split_append(s, u);
        assert((s + t).drop_last() =~= s + u);
        assert((s + t).last() == t.last());
        assert(not_newline(t[t.len() - 1]));
        assert((split_acc(s, '\n').1 + u).push(t.last()) =~= split_acc(s, '\n').1 + t);
    }
}

pub open spec fn all_clean(ls: Seq<Seq<char>>) -> bool {
    forall|i: int| 0 <= i < ls.len() ==> clean(#[trigger] ls[i])
}

proof fn lemma_split_unlines(ls: Seq<Seq<char>>)
    requires
        all_clean(ls),
    ensures
        split_acc(unlines(ls), '\n') == (ls, Seq::<char>::empty()),
    decreases ls.len(),
{
    if ls.len() == 0 {
        assert(split_acc(unlines(ls), '\n').0 =~= ls);
    } else {
        let p = ls.drop_last();
        assert(all_clean(p)) by {
            assert forall|i: int| 0 <= i < p.len() implies clean(#[trigger] p[i]) by {
                assert(p[i] == ls[i]);
            }
        }
        lemma_split_unlines(p);
        let x = unlines(p) + ls.last();
        assert(clean(ls[ls.len() - 1]));
        lemma_split_append(unlines(p), ls.last());
        lemma_newline_lit();
        assert(unlines(ls) =~= x.push('\n'));
        assert(x.push('\n').drop_last() =~= x);
        assert(Seq::<char>::empty() + ls.last() =~= ls.last());
        assert(p.push(ls.last()) =~= ls);
    }
}

/// Lines without line breaks, each written with a `\n`, read back as
/// themselves.
pub proof fn lemma_lines_of_unlines(ls: Seq<Seq<char>>)
    requires
        all_clean(ls),
    ensures
        lines_of(unlines(ls)) == ls,
{
    lemma_split_unlines(ls);
    assert forall|i: int| 0 <= i < ls.len() implies strip_cr(#[trigger] ls[i]) == ls[i] by {
        if ls[i].len() > 0 {
            assert(clean(ls[i]));
            assert(not_newline(ls[i][ls[i].len() - 1]));
        }
    }
    assert(ls.map_values(|l: Seq<char>| strip_cr(l)) =~= ls);
}

proof fn lemma_unlines_concat(a: Seq<Seq<char>>, b: Seq<Seq<char>>)
    ensures
        unlines(a + b) == unlines(a) + unlines(b),
    decreases b.len(),
{
    if b.len() == 0 {
        assert(a + b =~= a);
        assert(unlines(a) + unlines(b) =~= unlines(a));
    } else {
        lemma_unlines_concat(a, b.drop_last());
        assert((a + b).drop_last() =~= a + b.drop_last());
        assert((a + b).last() == b.last());
        assert(unlines(a + b) =~= unlines(a) + unlines(b));
    }
}

proof fn lemma_unlines_one(l: Seq<char>)
    ensures
        unlines(seq![l]) == l + "\n"@,
{
    assert(seq![l].drop_last() =~= Seq::<Seq<char>>::empty());
    assert(seq![l].last() == l);
    assert(unlines(Seq::<Seq<char>>::empty()) == Seq::<char>::empty());
    assert(Seq::<char>::empty() + l =~= l);
    assert(unlines(seq![l]) == unlines(seq![l].drop_last()) + seq![l].last() + "\n"@);
}

// ------------------------------------------------------------ sanitized values

proof fn lemma_drop_newlines_clean(s: Seq<char>)
    ensures
        clean(drop_newlines(s)),
    decreases s.len(),
{
    if s.len() > 0 {
        lemma_drop_newlines_clean(s.drop_last());
    }
}

proof fn lemma_trim_keeps_clean(s: Seq<char>)
    requires
        clean(s),
    ensures
        clean(trim(s)),
{
    lemma_trim_start_suffix(s);
    let k = choose|k: int| 0 <= k <= s.len() && trim_start(s) == s.skip(k);
    let t = trim_start(s);
    lemma_trim_end_prefix(t);
    let j = choose|j: int| 0 <= j <= t.len() && trim_end(t) == t.take(j);
    assert forall|i: int| 0 <= i < trim(s).len() implies not_newline(#[trigger] trim(s)[i]) by {
        assert(trim(s)[i] == s[k + i]);
    }
}

/// A sanitized value has no line break, no surrounding whitespace and does
/// not start with `[`.
pub proof fn lemma_sanitized(v: Seq<char>)
    ensures
        clean(sanitize(v)),
        is_trimmed(sanitize(v)),
        !starts_open(sanitize(v)),
{
    let t = trim(drop_newlines(v));
    lemma_drop_newlines_clean(v);
    lemma_trim_keeps_clean(drop_newlines(v));
    lemma_trim_is_trimmed(drop_newlines(v));
    lemma_strip_open_suffix(t);
    let k = choose|k: int| 0 <= k <= t.len() && strip_open(t) == t.skip(k);
    let r = strip_open(t);
    assert forall|i: int| 0 <= i < r.len() implies not_newline(#[trigger] r[i]) by {
        assert(r[i] == t[k + i]);
    }
    if r.len() > 0 {
        assert(r.last() == t.last());
    }
}

// ------------------------------------------------------------ the written section

pub type Fields = Seq<(Seq<char>, Seq<char>)>;

/// A `key=value` line.
pub open spec fn field_line(key: Seq<char>, value: Seq<char>) -> Seq<char> {
    key + "="@ + value
}

pub open spec fn field_lines(fs: Fields) -> Seq<Seq<char>> {
    fs.map_values(|f: (Seq<char>, Seq<char>)| field_line(f.0, f.1))
}

pub open spec fn opt_written(key: Seq<char>, v: Option<Seq<char>>) -> Fields {
    match v {
        Some(x) => seq![(key, sanitize(x))],
        None => Seq::empty(),
    }
}

/// The fields every peer section has, as written.
pub open spec fn required_written(p: PeerInfo) -> Fields {
    seq![
        ("ssh_alias"@, sanitize(p.ssh_alias)),
        ("user"@, sanitize(p.user)),
        ("os"@, sanitize(p.os)),
        ("tailscale_ip"@, sanitize(p.tailscale_ip)),
        ("dns_name"@, sanitize(p.dns_name)),
        ("capabilities"@, sanitize(join(p.capabilities, ","@))),
        ("role"@, sanitize(p.role)),
        ("status"@, sanitize(p.status)),
    ]
}

pub open spec fn runners_written(r: Option<u32>) -> Fields {
    match r {
        Some(n) => seq![("runners"@, decimal(n as nat))],
        None => Seq::empty(),
    }
}

pub open spec fn aliases_written(a: Seq<Seq<char>>) -> Fields {
    if a.len() > 0 {
        seq![("aliases"@, sanitize(join(a, ","@)))]
    } else {
        Seq::empty()
    }
}

/// The optional fields of a peer section that are set, as written.
pub open spec fn optional_written(p: PeerInfo) -> Fields {
    opt_written("thunderbolt_ip"@, p.thunderbolt_ip) + opt_written("lan_ip"@, p.lan_ip) + opt_written(
        "mac_address"@,
        p.mac_address,
    ) + opt_written("gh_account"@, p.gh_account) + runners_written(p.runners) + opt_written(
        "runner_paths"@,
        p.runner_paths,
    ) + opt_written("repo_path"@, p.repo_path) + aliases_written(p.aliases)
}

pub open spec fn header_line(name: Seq<char>) -> Seq<char> {
    "["@ + sanitize(name) + "]"@
}

/// The lines of the section `peer_to_ini` writes.
pub open spec fn section_lines(name: Seq<char>, p: PeerInfo) -> Seq<Seq<char>> {
    seq![header_line(name)] + field_lines(required_written(p) + optional_written(p))
}

proof fn lemma_field_lines_concat(a: Fields, b: Fields)
    ensures
        field_lines(a + b) == field_lines(a) + field_lines(b),
{
    assert(field_lines(a + b) =~= field_lines(a) + field_lines(b));
}

proof fn lemma_one_field(key: Seq<char>, value: Seq<char>)
    ensures
        unlines(field_lines(seq![(key, value)])) == key + "="@ + value + "\n"@,
{
    assert(field_lines(seq![(key, value)]) =~= seq![field_line(key, value)]);
    lemma_unlines_one(field_line(key, value));
}

proof fn lemma_kv_line(key: Seq<char>, v: Seq<char>)
    ensures
        kv_line(key + "="@, v) == unlines(field_lines(seq![(key, sanitize(v))])),
{
    lemma_one_field(key, sanitize(v));
    assert(kv_line(key + "="@, v) =~= key + "="@ + sanitize(v) + "\n"@);
}

proof fn lemma_opt_line(key: Seq<char>, v: Option<Seq<char>>)
    ensures
        opt_line(key + "="@, v) == unlines(field_lines(opt_written(key, v))),
{
    match v {
        Some(x) => lemma_kv_line(key, x),
        None => {
            assert(field_lines(opt_written(key, v)) =~= Seq::<Seq<char>>::empty());
        },
    }
}

proof fn lemma_eq_lits()
    ensures
        "ssh_alias="@ == "ssh_alias"@ + "="@,
        "user="@ == "user"@ + "="@,
        "os="@ == "os"@ + "="@,
        "tailscale_ip="@ == "tailscale_ip"@ + "="@,
        "dns_name="@ == "dns_name"@ + "="@,
        "capabilities="@ == "capabilities"@ + "="@,
        "role="@ == "role"@ + "="@,
        "status="@ == "status"@ + "="@,
        "thunderbolt_ip="@ == "thunderbolt_ip"@ + "="@,
        "lan_ip="@ == "lan_ip"@ + "="@,
        "mac_address="@ == "mac_address"@ + "="@,
        "gh_account="@ == "gh_account"@ + "="@,
        "runners="@ == "runners"@ + "="@,
        "runner_paths="@ == "runner_paths"@ + "="@,
        "repo_path="@ == "repo_path"@ + "="@,
        "aliases="@ == "aliases"@ + "="@,
        "]\n"@ == "]"@ + "\n"@,
{
    reveal_strlit("=");
    reveal_strlit("\n");
    reveal_strlit("]");
    reveal_strlit("]\n");
    reveal_strlit("ssh_alias=");
    reveal_strlit("ssh_alias");
    reveal_strlit("user=");
    reveal_strlit("user");
    reveal_strlit("os=");
    reveal_strlit("os");
    reveal_strlit("tailscale_ip=");
    reveal_strlit("tailscale_ip");
    reveal_strlit("dns_name=");
    reveal_strlit("dns_name");
    reveal_strlit("capabilities=");
    reveal_strlit("capabilities");
    reveal_strlit("role=");
    reveal_strlit("role");
    reveal_strlit("status=");
    reveal_strlit("status");
    reveal_strlit("thunderbolt_ip=");
    reveal_strlit("thunderbolt_ip");
    reveal_strlit("lan_ip=");
    reveal_strlit("lan_ip");
    reveal_strlit("mac_address=");
    reveal_strlit("mac_address");
    reveal_strlit("gh_account=");
    reveal_strlit("gh_account");
    reveal_strlit("runners=");
    reveal_strlit("runners");
    reveal_strlit("runner_paths=");
    reveal_strlit("runner_paths");
    reveal_strlit("repo_path=");
    reveal_strlit("repo_path");
    reveal_strlit("aliases=");
    reveal_strlit("aliases");
    assert("ssh_alias="@ =~= "ssh_alias"@ + "="@);
    assert("user="@ =~= "user"@ + "="@);
    assert("os="@ =~= "os"@ + "="@);
    assert("tailscale_ip="@ =~= "tailscale_ip"@ + "="@);
    assert("dns_name="@ =~= "dns_name"@ + "="@);
    assert("capabilities="@ =~= "capabilities"@ + "="@);
    assert("role="@ =~= "role"@ + "="@);
    assert("status="@ =~= "status"@ + "="@);
    assert("thunderbolt_ip="@ =~= "thunderbolt_ip"@ + "="@);
    assert("lan_ip="@ =~= "lan_ip"@ + "="@);
    assert("mac_address="@ =~= "mac_address"@ + "="@);
    assert("gh_account="@ =~= "gh_account"@ + "="@);
    assert("runners="@ =~= "runners"@ + "="@);
    assert("runner_paths="@ =~= "runner_paths"@ + "="@);
    assert("repo_path="@ =~= "repo_path"@ + "="@);
    assert("aliases="@ =~= "aliases"@ + "="@);
    assert("]\n"@ =~= "]"@ + "\n"@);
}

proof fn lemma_required_text(p: PeerInfo)
    ensures
        ini_required(p) == unlines(field_lines(required_written(p))),
{
    lemma_eq_lits();
    let r = required_written(p);
    lemma_kv_line("ssh_alias"@, p.ssh_alias);
    lemma_kv_line("user"@, p.user);
    lemma_kv_line("os"@, p.os);
    lemma_kv_line("tailscale_ip"@, p.tailscale_ip);
    lemma_kv_line("dns_name"@, p.dns_name);
    lemma_kv_line("capabilities"@, join(p.capabilities, ","@));
    lemma_kv_line("role"@, p.role);
    lemma_kv_line("status"@, p.status);
    assert(r =~= seq![r[0]] + seq![r[1]] + seq![r[2]] + seq![r[3]] + seq![r[4]] + seq![r[5]] + seq![r[6]] + seq![r[7]]);
    lemma_field_lines_concat(seq![r[0]], seq![r[1]]);
    lemma_unlines_concat(field_lines(seq![r[0]]), field_lines(seq![r[1]]));
    let a2 = seq![r[0]] + seq![r[1]];
    lemma_field_lines_concat(a2, seq![r[2]]);
    lemma_unlines_concat(field_lines(a2), field_lines(seq![r[2]]));
    let a3 = a2 + seq![r[2]];
    lemma_field_lines_concat(a3, seq![r[3]]);
    lemma_unlines_concat(field_lines(a3), field_lines(seq![r[3]]));
    let a4 = a3 + seq![r[3]];
    lemma_field_lines_concat(a4, seq![r[4]]);
    lemma_unlines_concat(field_lines(a4), field_lines(seq![r[4]]));
    let a5 = a4 + seq![r[4]];
    lemma_field_lines_concat(a5, seq![r[5]]);
    lemma_unlines_concat(field_lines(a5), field_lines(seq![r[5]]));
    let a6 = a5 + seq![r[5]];
    lemma_field_lines_concat(a6, seq![r[6]]);
    lemma_unlines_concat(field_lines(a6), field_lines(seq![r[6]]));
    let a7 = a6 + seq![r[6]];
    lemma_field_lines_concat(a7, seq![r[7]]);
    lemma_unlines_concat(field_lines(a7), field_lines(seq![r[7]]));
}

proof fn lemma_runners_line(r: Option<u32>)
    ensures
        runners_line(r) == unlines(field_lines(runners_written(r))),
{
    match r {
        Some(n) => {
            lemma_eq_lits();
            lemma_one_field("runners"@, decimal(n as nat));
        },
        None => {
            assert(field_lines(runners_written(r)) =~= Seq::<Seq<char>>::empty());
        },
    }
}

proof fn lemma_aliases_line(a: Seq<Seq<char>>)
    ensures
        aliases_line(a) == unlines(field_lines(aliases_written(a))),
{
    if a.len() > 0 {
        lemma_eq_lits();
        lemma_kv_line("aliases"@, join(a, ","@));
    } else {
        assert(field_lines(aliases_written(a)) =~= Seq::<Seq<char>>::empty());
    }
}

/// `unlines(field_lines(a + b))` splits at the seam.
proof fn lemma_join_fields(a: Fields, b: Fields)
    ensures
        unlines(field_lines(a + b)) == unlines(field_lines(a)) + unlines(field_lines(b)),
{
    lemma_field_lines_concat(a, b);
    lemma_unlines_concat(field_lines(a), field_lines(b));
}

proof fn lemma_optional_text(p: PeerInfo)
    ensures
        ini_optional(p) == unlines(field_lines(optional_written(p))),
{
    lemma_eq_lits();
    let o1 = opt_written("thunderbolt_ip"@, p.thunderbolt_ip);
    let o2 = opt_written("lan_ip"@, p.lan_ip);
    let o3 = opt_written("mac_address"@, p.mac_address);
    let o4 = opt_written("gh_account"@, p.gh_account);
    let o5 = runners_written(p.runners);
    let o6 = opt_written("runner_paths"@, p.runner_paths);
    let o7 = opt_written("repo_path"@, p.repo_path);
    let o8 = aliases_written(p.aliases);
    lemma_opt_line("thunderbolt_ip"@, p.thunderbolt_ip);
    lemma_opt_line("lan_ip"@, p.lan_ip);
    lemma_opt_line("mac_address"@, p.mac_address);
    lemma_opt_line("gh_account"@, p.gh_account);
    lemma_runners_line(p.runners);
    lemma_opt_line("runner_paths"@, p.runner_paths);
    lemma_opt_line("repo_path"@, p.repo_path);
    lemma_aliases_line(p.aliases);
    lemma_join_fields(o1, o2);
    lemma_join_fields(o1 + o2, o3);
    lemma_join_fields(o1 + o2 + o3, o4);
    lemma_join_fields(o1 + o2 + o3 + o4, o5);
    lemma_join_fields(o1 + o2 + o3 + o4 + o5, o6);
    lemma_join_fields(o1 + o2 + o3 + o4 + o5 + o6, o7);
    lemma_join_fields(o1 + o2 + o3 + o4 + o5 + o6 + o7, o8);
}

/// The text `peer_to_ini` writes is its section's lines, each ended by `\n`.
pub proof fn lemma_peer_ini_lines(name: Seq<char>, p: PeerInfo)
    ensures
        peer_ini(name, p) == unlines(section_lines(name, p)),
{
    lemma_eq_lits();
    lemma_required_text(p);
    lemma_optional_text(p);
    lemma_join_fields(required_written(p), optional_written(p));
    lemma_unlines_one(header_line(name));
    lemma_unlines_concat(seq![header_line(name)], field_lines(required_written(p) + optional_written(p)));
    assert(ini_header(name) =~= header_line(name) + "\n"@);
}

// ------------------------------------------------------------ reading the section

/// A key the parser reads back as itself.
pub open spec fn good_key(k: Seq<char>) -> bool {
    &&& k.len() > 0
    &&& is_trimmed(k)
    &&& clean(k)
    &&& !k.contains('=')
    &&& k[0] != '#'
    &&& k[0] != '['
}

/// A value the parser reads back as itself.
pub open spec fn good_value(v: Seq<char>) -> bool {
    clean(v) && is_trimmed(v)
}

pub open spec fn good_fields(fs: Fields) -> bool {
    forall|i: int| 0 <= i < fs.len() ==> good_key(#[trigger] fs[i].0) && good_value(fs[i].1)
}

proof fn lemma_field_step(st: IniState, k: Seq<char>, v: Seq<char>, n: nat)
    requires
        !stuck(st),
        good_key(k),
        good_value(v),
    ensures
        ini_step(st, field_line(k, v), n) == (IniState { kv: st.kv.push((k, v)), ..st }),
{
    reveal_strlit("=");
    let line = field_line(k, v);
    assert(line =~= k + seq!['='] + v);
    assert(line[0] == k[0]);
    if v.len() > 0 {
        assert(line.last() == v.last());
    } else {
        assert(line.last() == '=');
    }
    lemma_trim_trimmed(line);
    assert(line[k.len() as int] == '=');
    assert forall|i: int| 0 <= i < k.len() implies line[i] != '=' by {
        assert(line[i] == k[i]);
    }
    assert(first_at(line, '=', k.len() as int));
    assert(line.contains('='));
    let x = choose|x: int| first_at(line, '=', x);
    lemma_first_unique(line, '=', x, k.len() as int);
    assert(find_first(line, '=') == Some(k.len() as int));
    assert(line.take(k.len() as int) =~= k);
    assert(line.skip(k.len() as int + 1) =~= v);
    lemma_trim_trimmed(k);
    lemma_trim_trimmed(v);
}

proof fn lemma_header_step(name: Seq<char>)
    ensures
        ini_step(ini_init(), header_line(name), 0) == (IniState {
            section: Some(sanitize(name)),
            kv: Seq::empty(),
            ..ini_init()
        }),
{
    reveal_strlit("[");
    reveal_strlit("]");
    let sn = sanitize(name);
    let line = header_line(name);
    assert(line =~= seq!['['] + sn + seq![']']);
    assert(line[0] == '[');
    assert(line.last() == ']');
    lemma_trim_trimmed(line);
    assert(flush(ini_init()) == ini_init());
    assert(line.subrange(1, line.len() - 1) =~= sn);
}

proof fn lemma_fold_section(name: Seq<char>, fs: Fields, j: int)
    requires
        good_fields(fs),
        0 <= j <= fs.len(),
    ensures
        ini_fold((seq![header_line(name)] + field_lines(fs)).take(j + 1)) == (IniState {
            section: Some(sanitize(name)),
            kv: fs.take(j),
            ..ini_init()
        }),
    decreases j,
{
    let ls = seq![header_line(name)] + field_lines(fs);
    if j == 0 {
        assert(ls.take(1) =~= seq![header_line(name)]);
        assert(ls.take(1).drop_last() =~= Seq::<Seq<char>>::empty());
        assert(ini_fold(Seq::<Seq<char>>::empty()) == ini_init());
        assert(ini_fold(ls.take(1)) == ini_step(ini_fold(ls.take(1).drop_last()), ls.take(1).last(), 0));
        lemma_header_step(name);
        assert(fs.take(0) =~= Seq::<(Seq<char>, Seq<char>)>::empty());
    } else {
        lemma_fold_section(name, fs, j - 1);
        assert(ls.take(j + 1).drop_last() =~= ls.take(j));
        assert(ls.take(j + 1).last() == field_line(fs[j - 1].0, fs[j - 1].1));
        assert(good_key(fs[j - 1].0) && good_value(fs[j - 1].1));
        let st = ini_fold(ls.take(j));
        assert(ini_fold(ls.take(j + 1)) == ini_step(st, ls.take(j + 1).last(), j as nat));
        lemma_field_step(st, fs[j - 1].0, fs[j - 1].1, j as nat);
        assert(fs.take(j - 1).push(fs[j - 1]) =~= fs.take(j));
    }
}

/// A key made of lowercase ASCII letters and `_`.
pub open spec fn plain_key(k: Seq<char>) -> bool {
    k.len() > 0 && forall|i: int| 0 <= i < k.len() ==> ('a' <= #[trigger] k[i] <= 'z' || k[i] == '_')
}

proof fn lemma_plain_key_good(k: Seq<char>)
    requires
        plain_key(k),
    ensures
        good_key(k),
{
    assert(!is_ws(k[0]) && !is_ws(k.last()));
    assert forall|i: int| 0 <= i < k.len() implies not_newline(#[trigger] k[i]) && k[i] != '=' by {}
    assert(!k.contains('='));
}

proof fn lemma_keys_plain()
    ensures
        plain_key("ssh_alias"@),
        plain_key("user"@),
        plain_key("os"@),
        plain_key("tailscale_ip"@),
        plain_key("dns_name"@),
        plain_key("capabilities"@),
        plain_key("role"@),
        plain_key("status"@),
        plain_key("thunderbolt_ip"@),
        plain_key("lan_ip"@),
        plain_key("mac_address"@),
        plain_key("gh_account"@),
        plain_key("runners"@),
        plain_key("runner_paths"@),
        plain_key("repo_path"@),
        plain_key("aliases"@),
{
    reveal_strlit("ssh_alias");
    reveal_strlit("user");
    reveal_strlit("os");
    reveal_strlit("tailscale_ip");
    reveal_strlit("dns_name");
    reveal_strlit("capabilities");
    reveal_strlit("role");
    reveal_strlit("status");
    reveal_strlit("thunderbolt_ip");
    reveal_strlit("lan_ip");
    reveal_strlit("mac_address");
    reveal_strlit("gh_account");
    reveal_strlit("runners");
    reveal_strlit("runner_paths");
    reveal_strlit("repo_path");
    reveal_strlit("aliases");
}

proof fn lemma_good_concat(a: Fields, b: Fields)
    requires
        good_fields(a),
        good_fields(b),
    ensures
        good_fields(a + b),
{
    assert forall|i: int| 0 <= i < (a + b).len() implies good_key(#[trigger] (a + b)[i].0) && good_value((a + b)[i].1) by {
        if i < a.len() {
            assert((a + b)[i] == a[i]);
            assert(good_key(a[i].0) && good_value(a[i].1));
        } else {
            assert((a + b)[i] == b[i - a.len()]);
            assert(good_key(b[i - a.len()].0) && good_value(b[i - a.len()].1));
        }
    }
}

proof fn lemma_good_one(k: Seq<char>, v: Seq<char>)
    requires
        plain_key(k),
        good_value(v),
    ensures
        good_fields(seq![(k, v)]),
{
    lemma_plain_key_good(k);
}

proof fn lemma_good_sanitized(k: Seq<char>, v: Seq<char>)
    requires
        plain_key(k),
    ensures
        good_fields(seq![(k, sanitize(v))]),
{
    lemma_sanitized(v);
    lemma_good_one(k, sanitize(v));
}

proof fn lemma_good_opt(k: Seq<char>, v: Option<Seq<char>>)
    requires
        plain_key(k),
    ensures
        good_fields(opt_written(k, v)),
{
    if let Some(x) = v {
        lemma_good_sanitized(k, x);
    }
}

proof fn lemma_written_good(p: PeerInfo)
    ensures
        good_fields(required_written(p) + optional_written(p)),
{
    lemma_keys_plain();
    let r = required_written(p);
    assert(r =~= seq![r[0]] + seq![r[1]] + seq![r[2]] + seq![r[3]] + seq![r[4]] + seq![r[5]] + seq![r[6]] + seq![r[7]]);
    lemma_good_sanitized("ssh_alias"@, p.ssh_alias);
    lemma_good_sanitized("user"@, p.user);
    lemma_good_sanitized("os"@, p.os);
    lemma_good_sanitized("tailscale_ip"@, p.tailscale_ip);
    lemma_good_sanitized("dns_name"@, p.dns_name);
    lemma_good_sanitized("capabilities"@, join(p.capabilities, ","@));
    lemma_good_sanitized("role"@, p.role);
    lemma_good_sanitized("status"@, p.status);
    lemma_good_concat(seq![r[0]], seq![r[1]]);
    lemma_good_concat(seq![r[0]] + seq![r[1]], seq![r[2]]);
    lemma_good_concat(seq![r[0]] + seq![r[1]] + seq![r[2]], seq![r[3]]);
    lemma_good_concat(seq![r[0]] + seq![r[1]] + seq![r[2]] + seq![r[3]], seq![r[4]]);
    lemma_good_concat(seq![r[0]] + seq![r[1]] + seq![r[2]] + seq![r[3]] + seq![r[4]], seq![r[5]]);
    lemma_good_concat(seq![r[0]] + seq![r[1]] + seq![r[2]] + seq![r[3]] + seq![r[4]] + seq![r[5]], seq![r[6]]);
    lemma_good_concat(
        seq![r[0]] + seq![r[1]] + seq![r[2]] + seq![r[3]] + seq![r[4]] + seq![r[5]] + seq![r[6]],
        seq![r[7]],
    );
    let o1 = opt_written("thunderbolt_ip"@, p.thunderbolt_ip);
    let o2 = opt_written("lan_ip"@, p.lan_ip);
    let o3 = opt_written("mac_address"@, p.mac_address);
    let o4 = opt_written("gh_account"@, p.gh_account);
    let o5 = runners_written(p.runners);
    let o6 = opt_written("runner_paths"@, p.runner_paths);
    let o7 = opt_written("repo_path"@, p.repo_path);
    let o8 = aliases_written(p.aliases);
    lemma_good_opt("thunderbolt_ip"@, p.thunderbolt_ip);
    lemma_good_opt("lan_ip"@, p.lan_ip);
    lemma_good_opt("mac_address"@, p.mac_address);
    lemma_good_opt("gh_account"@, p.gh_account);
    if let Some(n) = p.runners {
        lemma_decimal_reads_back(n as nat);
        let d = decimal(n as nat);
        assert(forall|i: int| 0 <= i < d.len() ==> crate::text::is_ascii_digit(#[trigger] d[i]));
        assert(d[0] == d[0] && crate::text::is_ascii_digit(d[0]));
        assert(crate::text::is_ascii_digit(d[d.len() - 1]));
        lemma_good_one("runners"@, d);
    }
    lemma_good_opt("runner_paths"@, p.runner_paths);
    lemma_good_opt("repo_path"@, p.repo_path);
    if p.aliases.len() > 0 {
        lemma_good_sanitized("aliases"@, join(p.aliases, ","@));
    }
    lemma_good_concat(o1, o2);
    lemma_good_concat(o1 + o2, o3);
    lemma_good_concat(o1 + o2 + o3, o4);
    lemma_good_concat(o1 + o2 + o3 + o4, o5);
    lemma_good_concat(o1 + o2 + o3 + o4 + o5, o6);
    lemma_good_concat(o1 + o2 + o3 + o4 + o5 + o6, o7);
    lemma_good_concat(o1 + o2 + o3 + o4 + o5 + o6 + o7, o8);
    lemma_good_concat(r, optional_written(p));
}

proof fn lemma_kv_get_skip(a: KeyValues, b: KeyValues, k: Seq<char>)
    requires
        forall|i: int| 0 <= i < b.len() ==> (#[trigger] b[i]).0 != k,
    ensures
        kv_get(a + b, k) == kv_get(a, k),
    decreases b.len(),
{
    if b.len() == 0 {
        assert(a + b =~= a);
    } else {
        assert((a + b).drop_last() =~= a + b.drop_last());
        assert((a + b).last() == b[b.len() - 1]);
        lemma_kv_get_skip(a, b.drop_last(), k);
    }
}

/// The keys of optional fields.
pub open spec fn optional_key(k: Seq<char>) -> bool {
    k == "thunderbolt_ip"@ || k == "lan_ip"@ || k == "mac_address"@ || k == "gh_account"@ || k
        == "runners"@ || k == "runner_paths"@ || k == "repo_path"@ || k == "aliases"@
}

proof fn lemma_optional_keys(p: PeerInfo)
    ensures
        forall|i: int| 0 <= i < optional_written(p).len() ==> optional_key(#[trigger] optional_written(p)[i].0),
{
    let o = optional_written(p);
    let o1 = opt_written("thunderbolt_ip"@, p.thunderbolt_ip);
    let o2 = opt_written("lan_ip"@, p.lan_ip);
    let o3 = opt_written("mac_address"@, p.mac_address);
    let o4 = opt_written("gh_account"@, p.gh_account);
    let o5 = runners_written(p.runners);
    let o6 = opt_written("runner_paths"@, p.runner_paths);
    let o7 = opt_written("repo_path"@, p.repo_path);
    let o8 = aliases_written(p.aliases);
    let parts = seq![o1, o2, o3, o4, o5, o6, o7, o8];
    assert forall|i: int| 0 <= i < o.len() implies optional_key(#[trigger] o[i].0) by {
        let n1 = o1.len() as int;
        let n2 = n1 + o2.len();
        let n3 = n2 + o3.len();
        let n4 = n3 + o4.len();
        let n5 = n4 + o5.len();
        let n6 = n5 + o6.len();
        let n7 = n6 + o7.len();
        if i < n1 {
            assert(o[i] == o1[i]);
        } else if i < n2 {
            assert(o[i] == o2[i - n1]);
        } else if i < n3 {
            assert(o[i] == o3[i - n2]);
        } else if i < n4 {
            assert(o[i] == o4[i - n3]);
        } else if i < n5 {
            assert(o[i] == o5[i - n4]);
        } else if i < n6 {
            assert(o[i] == o6[i - n5]);
        } else if i < n7 {
            assert(o[i] == o7[i - n6]);
        } else {
            assert(o[i] == o8[i - n7]);
        }
    }
}

proof fn lemma_key_lengths()
    ensures
        "ssh_alias"@.len() == 9,
        "user"@.len() == 4,
        "os"@.len() == 2,
        "tailscale_ip"@.len() == 12,
        "dns_name"@.len() == 8,
        "capabilities"@.len() == 12,
        "role"@.len() == 4,
        "status"@.len() == 6,
        "thunderbolt_ip"@.len() == 14,
        "lan_ip"@.len() == 6,
        "mac_address"@.len() == 11,
        "gh_account"@.len() == 10,
        "runners"@.len() == 7,
        "runner_paths"@.len() == 12,
        "repo_path"@.len() == 9,
        "aliases"@.len() == 7,
{
    reveal_strlit("ssh_alias");
    reveal_strlit("user");
    reveal_strlit("os");
    reveal_strlit("tailscale_ip");
    reveal_strlit("dns_name");
    reveal_strlit("capabilities");
    reveal_strlit("role");
    reveal_strlit("status");
    reveal_strlit("thunderbolt_ip");
    reveal_strlit("lan_ip");
    reveal_strlit("mac_address");
    reveal_strlit("gh_account");
    reveal_strlit("runners");
    reveal_strlit("runner_paths");
    reveal_strlit("repo_path");
    reveal_strlit("aliases");
}

proof fn lemma_required_not_optional()
    ensures
        !optional_key("ssh_alias"@),
        !optional_key("user"@),
        !optional_key("os"@),
        !optional_key("tailscale_ip"@),
        !optional_key("dns_name"@),
        !optional_key("capabilities"@),
        !optional_key("role"@),
        !optional_key("status"@),
{
    lemma_key_lengths();
    reveal_strlit("ssh_alias");
    reveal_strlit("user");
    reveal_strlit("os");
    reveal_strlit("tailscale_ip");
    reveal_strlit("dns_name");
    reveal_strlit("capabilities");
    reveal_strlit("role");
    reveal_strlit("status");
    reveal_strlit("thunderbolt_ip");
    reveal_strlit("lan_ip");
    reveal_strlit("mac_address");
    reveal_strlit("gh_account");
    reveal_strlit("runners");
    reveal_strlit("runner_paths");
    reveal_strlit("repo_path");
    reveal_strlit("aliases");
    assert("tailscale_ip"@[0] != "runner_paths"@[0]);
    assert("capabilities"@[0] != "runner_paths"@[0]);
    assert("ssh_alias"@[0] != "repo_path"@[0]);
    assert("status"@[0] != "lan_ip"@[0]);
}

proof fn lemma_kv_get_at(a: KeyValues, i: int, k: Seq<char>)
    requires
        0 <= i < a.len(),
        a[i].0 == k,
        forall|j: int| i < j < a.len() ==> (#[trigger] a[j]).0 != k,
    ensures
        kv_get(a, k) == Some(a[i].1),
    decreases a.len(),
{
    if i < a.len() - 1 {
        assert(a[a.len() - 1].0 != k);
        let d = a.drop_last();
        assert forall|j: int| i < j < d.len() implies (#[trigger] d[j]).0 != k by {
            assert(d[j] == a[j]);
        }
        lemma_kv_get_at(d, i, k);
    }
}

proof fn lemma_required_keys_distinct()
    ensures
        "ssh_alias"@ != "user"@, "ssh_alias"@ != "os"@, "ssh_alias"@ != "tailscale_ip"@,
        "ssh_alias"@ != "dns_name"@, "ssh_alias"@ != "capabilities"@, "ssh_alias"@ != "role"@,
        "ssh_alias"@ != "status"@,
        "user"@ != "os"@, "user"@ != "tailscale_ip"@, "user"@ != "dns_name"@,
        "user"@ != "capabilities"@, "user"@ != "role"@, "user"@ != "status"@,
        "os"@ != "tailscale_ip"@, "os"@ != "dns_name"@, "os"@ != "capabilities"@, "os"@ != "role"@,
        "os"@ != "status"@,
        "tailscale_ip"@ != "dns_name"@, "tailscale_ip"@ != "capabilities"@,
        "tailscale_ip"@ != "role"@, "tailscale_ip"@ != "status"@,
        "dns_name"@ != "capabilities"@, "dns_name"@ != "role"@, "dns_name"@ != "status"@,
        "capabilities"@ != "role"@, "capabilities"@ != "status"@,
        "role"@ != "status"@,
{
    lemma_key_lengths();
    reveal_strlit("ssh_alias");
    reveal_strlit("user");
    reveal_strlit("os");
    reveal_strlit("tailscale_ip");
    reveal_strlit("dns_name");
    reveal_strlit("capabilities");
    reveal_strlit("role");
    reveal_strlit("status");
    assert("user"@[0] != "role"@[0]);
    assert("tailscale_ip"@[0] != "capabilities"@[0]);
}

/// The value of the `i`-th required field reads back: no later field has
/// its key.
proof fn lemma_required_value(p: PeerInfo, i: int)
    requires
        0 <= i < 8,
    ensures
        kv_get(required_written(p) + optional_written(p), required_written(p)[i].0) == Some(
            required_written(p)[i].1,
        ),
{
    let r = required_written(p);
    let o = optional_written(p);
    let fs = r + o;
    lemma_optional_keys(p);
    lemma_required_not_optional();
    lemma_required_keys_distinct();
    let k = r[i].0;
    assert forall|j: int| i < j < fs.len() implies (#[trigger] fs[j]).0 != k by {
        if j < 8 {
            assert(fs[j] == r[j]);
        } else {
            assert(fs[j] == o[j - 8]);
            assert(optional_key(o[j - 8].0));
        }
    }
    assert(fs[i] == r[i]);
    lemma_kv_get_at(fs, i, k);
}

proof fn lemma_required_values(p: PeerInfo)
    ensures
        ({
            let kv = required_written(p) + optional_written(p);
            &&& kv_get(kv, "ssh_alias"@) == Some(sanitize(p.ssh_alias))
            &&& kv_get(kv, "user"@) == Some(sanitize(p.user))
            &&& kv_get(kv, "os"@) == Some(sanitize(p.os))
            &&& kv_get(kv, "tailscale_ip"@) == Some(sanitize(p.tailscale_ip))
            &&& kv_get(kv, "dns_name"@) == Some(sanitize(p.dns_name))
            &&& kv_get(kv, "capabilities"@) == Some(sanitize(join(p.capabilities, ","@)))
            &&& kv_get(kv, "role"@) == Some(sanitize(p.role))
            &&& kv_get(kv, "status"@) == Some(sanitize(p.status))
        }),
{
    lemma_required_value(p, 0);
    lemma_required_value(p, 1);
    lemma_required_value(p, 2);
    lemma_required_value(p, 3);
    lemma_required_value(p, 4);
    lemma_required_value(p, 5);
    lemma_required_value(p, 6);
    lemma_required_value(p, 7);
}

proof fn lemma_section_clean(name: Seq<char>, p: PeerInfo)
    ensures
        all_clean(section_lines(name, p)),
{
    let fs = required_written(p) + optional_written(p);
    let ls = section_lines(name, p);
    lemma_written_good(p);
    lemma_sanitized(name);
    reveal_strlit("[");
    reveal_strlit("]");
    reveal_strlit("=");
    assert forall|i: int| 0 <= i < ls.len() implies clean(#[trigger] ls[i]) by {
        if i == 0 {
            assert(ls[0] =~= seq!['['] + sanitize(name) + seq![']']);
            assert forall|j: int| 0 <= j < ls[0].len() implies not_newline(#[trigger] ls[0][j]) by {
                if 0 < j < ls[0].len() - 1 {
                    assert(ls[0][j] == sanitize(name)[j - 1]);
                }
            }
        } else {
            let f = fs[i - 1];
            assert(ls[i] == field_line(f.0, f.1));
            assert(good_key(f.0) && good_value(f.1));
            assert(ls[i] =~= f.0 + seq!['='] + f.1);
            assert forall|j: int| 0 <= j < ls[i].len() implies not_newline(#[trigger] ls[i][j]) by {
                if j < f.0.len() {
                    assert(ls[i][j] == f.0[j]);
                } else if j > f.0.len() {
                    assert(ls[i][j] == f.1[j - f.0.len() - 1]);
                }
            }
        }
    }
}

/// The parser's state at the end of a written section: in the section,
/// with every written field read.
proof fn lemma_section_state(name: Seq<char>, p: PeerInfo)
    ensures
        ini_fold(lines_of(peer_ini(name, p))) == (IniState {
            section: Some(sanitize(name)),
            kv: required_written(p) + optional_written(p),
            ..ini_init()
        }),
{
    let fs = required_written(p) + optional_written(p);
    let ls = section_lines(name, p);
    lemma_peer_ini_lines(name, p);
    lemma_section_clean(name, p);
    lemma_lines_of_unlines(ls);
    lemma_written_good(p);
    lemma_fold_section(name, fs, fs.len() as int);
    assert(ls.take(fs.len() as int + 1) =~= ls);
    assert(fs.take(fs.len() as int) =~= fs);
}

/// A peer section written by `peer_to_ini` parses as exactly one peer,
/// under the canonical form of the (sanitized) section name, its fields the
/// sanitized values written; no value can open a section or add a key.
/// This holds for any section name but one that names the `[mesh]`
/// section.
pub proof fn lemma_peer_ini_reads_back(name: Seq<char>, p: PeerInfo)
    requires
        sanitize(name) != "mesh"@,
    ensures
        parse_ini_spec(peer_ini(name, p)) is Ok,
        ({
            let (secret, peers) = parse_ini_spec(peer_ini(name, p))->Ok_0;
            &&& secret.len() == 0
            &&& peers.len() == 1
            &&& peers[0].0 == canonical(sanitize(name))
            &&& peers[0].1.ssh_alias == sanitize(p.ssh_alias)
            &&& peers[0].1.user == sanitize(p.user)
            &&& peers[0].1.os == sanitize(p.os)
            &&& peers[0].1.tailscale_ip == sanitize(p.tailscale_ip)
            &&& peers[0].1.dns_name == sanitize(p.dns_name)
            &&& peers[0].1.capabilities == parse_list(sanitize(join(p.capabilities, ","@)))
            &&& peers[0].1.role == sanitize(p.role)
            &&& peers[0].1.status == sanitize(p.status)
        }),
{
    let fs = required_written(p) + optional_written(p);
    lemma_section_state(name, p);
    lemma_required_values(p);
    let sn = sanitize(name);
    assert(build_peer_spec(sn, fs) is Ok);
    assert(map_get(Seq::empty(), canonical(sn)) is None);
}

// ------------------------------------------------------------ a whole registry

/// The parser run over `ls` from state `st`, the first line numbered `off`.
pub open spec fn ini_fold_from(st: IniState, ls: Seq<Seq<char>>, off: nat) -> IniState
    decreases ls.len(),
{
    if ls.len() == 0 {
        st
    } else {
        ini_step(ini_fold_from(st, ls.drop_last(), off), ls.last(), (off + ls.len() - 1) as nat)
    }
}

proof fn lemma_fold_concat(a: Seq<Seq<char>>, b: Seq<Seq<char>>)
    ensures
        ini_fold(a + b) == ini_fold_from(ini_fold(a), b, a.len()),
    decreases b.len(),
{
    if b.len() == 0 {
        assert(a + b =~= a);
    } else {
        lemma_fold_concat(a, b.drop_last());
        assert((a + b).drop_last() =~= a + b.drop_last());
        assert((a + b).last() == b.last());
    }
}

proof fn lemma_fold_from_concat(st: IniState, b: Seq<Seq<char>>, c: Seq<Seq<char>>, off: nat)
    ensures
        ini_fold_from(st, b + c, off) == ini_fold_from(ini_fold_from(st, b, off), c, off + b.len()),
    decreases c.len(),
{
    if c.len() == 0 {
        assert(b + c =~= b);
    } else {
        lemma_fold_from_concat(st, b, c.drop_last(), off);
        assert((b + c).drop_last() =~= b + c.drop_last());
        assert((b + c).last() == c.last());
    }
}

proof fn lemma_header_step_from(st: IniState, name: Seq<char>, n: nat)
    requires
        !stuck(st),
        !stuck(flush(st)),
    ensures
        ini_step(st, header_line(name), n) == (IniState {
            section: Some(sanitize(name)),
            kv: Seq::empty(),
            ..flush(st)
        }),
{
    reveal_strlit("[");
    reveal_strlit("]");
    let sn = sanitize(name);
    let line = header_line(name);
    assert(line =~= seq!['['] + sn + seq![']']);
    assert(line[0] == '[');
    assert(line.last() == ']');
    lemma_trim_trimmed(line);
    assert(line.subrange(1, line.len() - 1) =~= sn);
}

proof fn lemma_blank_step(st: IniState, n: nat)
    ensures
        ini_step(st, Seq::empty(), n) == st,
{
    assert(trim(Seq::<char>::empty()) =~= Seq::<char>::empty());
}

/// After the fields of a section, from any state: the section is open with
/// every field read.
proof fn lemma_fields_from(st: IniState, fs: Fields, off: nat, j: int)
    requires
        !stuck(st),
        good_fields(fs),
        0 <= j <= fs.len(),
    ensures
        ini_fold_from(st, field_lines(fs).take(j), off) == (IniState { kv: st.kv + fs.take(j), ..st }),
    decreases j,
{
    let ls = field_lines(fs);
    if j == 0 {
        assert(ls.take(0) =~= Seq::<Seq<char>>::empty());
        assert(st.kv + fs.take(0) =~= st.kv);
    } else {
        lemma_fields_from(st, fs, off, j - 1);
        assert(ls.take(j).drop_last() =~= ls.take(j - 1));
        assert(ls.take(j).last() == field_line(fs[j - 1].0, fs[j - 1].1));
        assert(good_key(fs[j - 1].0) && good_value(fs[j - 1].1));
        let mid = ini_fold_from(st, ls.take(j - 1), off);
        lemma_field_step(mid, fs[j - 1].0, fs[j - 1].1, (off + j - 1) as nat);
        assert(st.kv + fs.take(j - 1) + seq![fs[j - 1]] =~= st.kv + fs.take(j));
        assert((st.kv + fs.take(j - 1)).push(fs[j - 1]) =~= st.kv + fs.take(j));
    }
}

/// A blank line, then a written peer section, read from a state whose
/// pending section enters cleanly.
proof fn lemma_section_from(st: IniState, name: Seq<char>, p: PeerInfo, off: nat)
    requires
        !stuck(st),
        !stuck(flush(st)),
    ensures
        ini_fold_from(st, seq![Seq::<char>::empty()] + section_lines(name, p), off) == (IniState {
            section: Some(sanitize(name)),
            kv: required_written(p) + optional_written(p),
            ..flush(st)
        }),
{
    let fs = required_written(p) + optional_written(p);
    let blank = seq![Seq::<char>::empty()];
    let head = seq![header_line(name)];
    lemma_written_good(p);
    assert(blank + section_lines(name, p) =~= (blank + head) + field_lines(fs));
    lemma_fold_from_concat(st, blank + head, field_lines(fs), off);
    assert((blank + head).drop_last() =~= blank);
    assert(blank.drop_last() =~= Seq::<Seq<char>>::empty());
    lemma_blank_step(st, off);
    assert(ini_fold_from(st, blank.drop_last(), off) == st);
    assert(blank.last() == Seq::<char>::empty());
    assert(ini_fold_from(st, blank, off) == ini_step(st, Seq::<char>::empty(), off));
    assert(ini_fold_from(st, blank, off) == st);
    assert((blank + head).last() == header_line(name));
    lemma_header_step_from(st, name, (off + 1) as nat);
    let st1 = IniState { section: Some(sanitize(name)), kv: Seq::empty(), ..flush(st) };
    assert(ini_fold_from(st, blank + head, off) == st1);
    lemma_fields_from(st1, fs, off + 2, fs.len() as int);
    assert(field_lines(fs).take(fs.len() as int) =~= field_lines(fs));
    assert(fs.take(fs.len() as int) =~= fs);
    assert(st1.kv + fs =~= fs);
}

/// The lines `save` writes for the peers: a blank line, then each section.
pub open spec fn sections_lines(s: PeerEntries) -> Seq<Seq<char>>
    decreases s.len(),
{
    if s.len() == 0 {
        Seq::empty()
    } else {
        sections_lines(s.drop_last()) + seq![Seq::<char>::empty()] + section_lines(s.last().0, s.last().1)
    }
}

pub open spec fn mesh_lines(secret: Seq<char>) -> Seq<Seq<char>> {
    seq!["[mesh]"@, "shared_secret="@ + secret]
}

proof fn lemma_peers_text(s: PeerEntries)
    ensures
        peers_ini(s) == unlines(sections_lines(s)),
    decreases s.len(),
{
    if s.len() > 0 {
        lemma_peers_text(s.drop_last());
        let a = sections_lines(s.drop_last());
        let blank = seq![Seq::<char>::empty()];
        let sec = section_lines(s.last().0, s.last().1);
        lemma_unlines_concat(a + blank, sec);
        lemma_unlines_concat(a, blank);
        lemma_unlines_one(Seq::<char>::empty());
        lemma_peer_ini_lines(s.last().0, s.last().1);
        assert(Seq::<char>::empty() + "\n"@ =~= "\n"@);
    }
}

proof fn lemma_registry_text(secret: Seq<char>, s: PeerEntries)
    ensures
        registry_ini(secret, s) == unlines(mesh_lines(secret) + sections_lines(s)),
{
    reveal_strlit("[mesh]\n");
    reveal_strlit("[mesh]");
    reveal_strlit("\n");
    lemma_peers_text(s);
    lemma_unlines_concat(mesh_lines(secret), sections_lines(s));
    let m = mesh_lines(secret);
    assert(m.drop_last() =~= seq!["[mesh]"@]);
    lemma_unlines_one("[mesh]"@);
    assert("[mesh]\n"@ =~= "[mesh]"@ + "\n"@);
    assert(registry_ini(secret, s) =~= unlines(m) + peers_ini(s));
}

/// A name that reads back as itself: no line break or surrounding space,
/// already canonical, and not the `[mesh]` section.
pub open spec fn stable_name(k: Seq<char>) -> bool {
    sanitize(k) == k && canonical(k) == k && k != "mesh"@
}

/// What a peer written by `save` reads back as.
pub open spec fn reread(name: Seq<char>, p: PeerInfo) -> PeerInfo {
    build_peer_spec(name, required_written(p) + optional_written(p))->Ok_0
}

pub open spec fn reread_entries(s: PeerEntries) -> PeerEntries {
    s.map_values(|e: (Seq<char>, PeerInfo)| (e.0, reread(e.0, e.1)))
}

/// The parser's state after the `[mesh]` lines and the first `j` sections.
pub open spec fn state_after(secret: Seq<char>, s: PeerEntries, j: int) -> IniState {
    if j == 0 {
        IniState { section: Some("mesh"@), kv: seq![("shared_secret"@, secret)], ..ini_init() }
    } else {
        IniState {
            secret,
            peers: reread_entries(s.take(j - 1)),
            section: Some(s[j - 1].0),
            kv: required_written(s[j - 1].1) + optional_written(s[j - 1].1),
            error: None,
        }
    }
}

proof fn lemma_upsert_last(t: PeerEntries, k: Seq<char>, v: PeerInfo)
    requires
        forall|i: int| 0 <= i < t.len() ==> seq_lt(#[trigger] t[i].0, k),
    ensures
        map_upsert(t, k, v) == t.push((k, v)),
        map_get(t, k) is None,
    decreases t.len(),
{
    if t.len() > 0 {
        assert(seq_lt(t[0].0, k));
        lemma_lt_asymmetric(t[0].0, k);
        lemma_lt_irreflexive(k);
        let d = t.drop_first();
        assert forall|i: int| 0 <= i < d.len() implies seq_lt(#[trigger] d[i].0, k) by {
            assert(d[i] == t[i + 1]);
        }
        lemma_upsert_last(d, k, v);
        assert(seq![t[0]] + d.push((k, v)) =~= t.push((k, v)));
    }
}

proof fn lemma_sanitize_stable(x: Seq<char>)
    requires
        clean(x),
        is_trimmed(x),
        !starts_open(x),
    ensures
        sanitize(x) == x,
    decreases x.len(),
{
    lemma_drop_newlines_id(x);
    lemma_trim_trimmed(x);
}

proof fn lemma_drop_newlines_id(x: Seq<char>)
    requires
        clean(x),
    ensures
        drop_newlines(x) == x,
    decreases x.len(),
{
    if x.len() > 0 {
        let d = x.drop_last();
        assert(clean(d)) by {
            assert forall|i: int| 0 <= i < d.len() implies not_newline(#[trigger] d[i]) by {
                assert(d[i] == x[i]);
            }
        }
        lemma_drop_newlines_id(d);
        assert(not_newline(x[x.len() - 1]));
        assert(d.push(x.last()) =~= x);
    }
}

/// The `[mesh]` lines, read.
proof fn lemma_mesh_state(secret: Seq<char>)
    requires
        clean(secret),
        is_trimmed(secret),
    ensures
        ini_fold(mesh_lines(secret)) == state_after(secret, Seq::empty(), 0),
{
    reveal_strlit("[mesh]");
    reveal_strlit("mesh");
    reveal_strlit("[");
    reveal_strlit("]");
    reveal_strlit("shared_secret=");
    reveal_strlit("shared_secret");
    reveal_strlit("=");
    let m = mesh_lines(secret);
    assert("mesh"@ =~= seq!['m', 'e', 's', 'h']);
    assert(clean("mesh"@));
    assert(is_trimmed("mesh"@));
    lemma_sanitize_stable("mesh"@);
    assert("[mesh]"@ =~= header_line("mesh"@));
    assert(m.drop_last() =~= seq!["[mesh]"@]);
    assert(seq!["[mesh]"@].drop_last() =~= Seq::<Seq<char>>::empty());
    lemma_header_step("mesh"@);
    assert(ini_fold(Seq::<Seq<char>>::empty()) == ini_init());
    assert(seq!["[mesh]"@].last() == header_line("mesh"@));
    assert(ini_fold(seq!["[mesh]"@]) == ini_step(ini_init(), header_line("mesh"@), 0));
    let st1 = ini_fold(seq!["[mesh]"@]);
    assert(st1 == IniState { section: Some("mesh"@), kv: Seq::empty(), ..ini_init() });
    assert(plain_key("shared_secret"@));
    lemma_plain_key_good("shared_secret"@);
    assert("shared_secret="@ + secret =~= field_line("shared_secret"@, secret));
    lemma_field_step(st1, "shared_secret"@, secret, 1);
    assert(Seq::<(Seq<char>, Seq<char>)>::empty().push(("shared_secret"@, secret)) =~= seq![("shared_secret"@, secret)]);
}

pub open spec fn registry_ok(secret: Seq<char>, s: PeerEntries) -> bool {
    &&& keys_sorted(s)
    &&& clean(secret)
    &&& is_trimmed(secret)
    &&& forall|i: int| 0 <= i < s.len() ==> stable_name(#[trigger] s[i].0)
}

proof fn lemma_build_ok(k: Seq<char>, p: PeerInfo)
    ensures
        build_peer_spec(k, required_written(p) + optional_written(p)) is Ok,
        reread(k, p).ssh_alias == sanitize(p.ssh_alias),
        reread(k, p).user == sanitize(p.user),
        reread(k, p).os == sanitize(p.os),
        reread(k, p).tailscale_ip == sanitize(p.tailscale_ip),
        reread(k, p).dns_name == sanitize(p.dns_name),
        reread(k, p).capabilities == parse_list(sanitize(join(p.capabilities, ","@))),
        reread(k, p).role == sanitize(p.role),
        reread(k, p).status == sanitize(p.status),
{
    lemma_required_values(p);
}

proof fn lemma_flush_after(secret: Seq<char>, s: PeerEntries, j: int)
    requires
        registry_ok(secret, s),
        0 <= j <= s.len(),
    ensures
        flush(state_after(secret, s, j)) == (IniState {
            secret,
            peers: reread_entries(s.take(j)),
            ..state_after(secret, s, j)
        }),
{
    let st = state_after(secret, s, j);
    if j == 0 {
        assert(kv_get(seq![("shared_secret"@, secret)], "shared_secret"@) == Some(secret)) by {
            assert(seq![("shared_secret"@, secret)].last() == ("shared_secret"@, secret));
        }
        assert(reread_entries(s.take(0)) =~= Seq::<(Seq<char>, PeerInfo)>::empty());
        assert(ini_init().peers =~= Seq::<(Seq<char>, PeerInfo)>::empty());
    } else {
        let k = s[j - 1].0;
        let p = s[j - 1].1;
        assert(stable_name(k));
        lemma_build_ok(k, p);
        let prev = reread_entries(s.take(j - 1));
        assert forall|i: int| 0 <= i < prev.len() implies seq_lt(#[trigger] prev[i].0, k) by {
            assert(prev[i].0 == s[i].0);
        }
        lemma_upsert_last(prev, k, reread(k, p));
        assert(prev.push((k, reread(k, p))) =~= reread_entries(s.take(j)));
    }
}

proof fn lemma_state_after(secret: Seq<char>, s: PeerEntries, j: int)
    requires
        registry_ok(secret, s),
        0 <= j <= s.len(),
    ensures
        ini_fold(mesh_lines(secret) + sections_lines(s.take(j))) == state_after(secret, s, j),
    decreases j,
{
    if j == 0 {
        assert(sections_lines(s.take(0)) =~= Seq::<Seq<char>>::empty()) by {
            assert(s.take(0).len() == 0);
        }
        assert(mesh_lines(secret) + sections_lines(s.take(0)) =~= mesh_lines(secret));
        lemma_mesh_state(secret);
    } else {
        lemma_state_after(secret, s, j - 1);
        let k = s[j - 1].0;
        let p = s[j - 1].1;
        let a = mesh_lines(secret) + sections_lines(s.take(j - 1));
        let b = seq![Seq::<char>::empty()] + section_lines(k, p);
        assert(s.take(j).drop_last() =~= s.take(j - 1));
        assert(s.take(j).last() == s[j - 1]);
        assert(sections_lines(s.take(j)) == sections_lines(s.take(j - 1)) + seq![Seq::<char>::empty()]
            + section_lines(k, p));
        assert(mesh_lines(secret) + sections_lines(s.take(j)) =~= a + b);
        lemma_fold_concat(a, b);
        lemma_flush_after(secret, s, j - 1);
        let st = state_after(secret, s, j - 1);
        assert(!stuck(st));
        lemma_section_from(st, k, p, a.len());
        assert(stable_name(k));
    }
}

proof fn lemma_sections_clean(s: PeerEntries)
    ensures
        all_clean(sections_lines(s)),
    decreases s.len(),
{
    if s.len() > 0 {
        lemma_sections_clean(s.drop_last());
        let a = sections_lines(s.drop_last());
        let b = seq![Seq::<char>::empty()];
        let c = section_lines(s.last().0, s.last().1);
        lemma_section_clean(s.last().0, s.last().1);
        let all = a + b + c;
        assert forall|i: int| 0 <= i < all.len() implies clean(#[trigger] all[i]) by {
            if i < a.len() {
                assert(all[i] == a[i]);
            } else if i == a.len() {
                assert(all[i] == Seq::<char>::empty());
            } else {
                assert(all[i] == c[i - a.len() - 1]);
            }
        }
    }
}

/// The lines of a saved registry.
proof fn lemma_registry_lines(secret: Seq<char>, peers: PeerEntries)
    requires
        clean(secret),
    ensures
        lines_of(registry_ini(secret, peers)) == mesh_lines(secret) + sections_lines(peers),
{
    let lines = mesh_lines(secret) + sections_lines(peers);
    lemma_registry_text(secret, peers);
    lemma_sections_clean(peers);
    reveal_strlit("[mesh]");
    reveal_strlit("shared_secret=");
    let m = mesh_lines(secret);
    assert(all_clean(lines)) by {
        assert forall|i: int| 0 <= i < lines.len() implies clean(#[trigger] lines[i]) by {
            if i == 0 {
                assert(lines[0] == "[mesh]"@);
            } else if i == 1 {
                assert(lines[1] == "shared_secret="@ + secret);
                assert forall|x: int| 0 <= x < lines[1].len() implies not_newline(#[trigger] lines[1][x]) by {
                    if x >= 14 {
                        assert(lines[1][x] == secret[x - 14]);
                    }
                }
            } else {
                assert(lines[i] == sections_lines(peers)[i - 2]);
            }
        }
    }
    lemma_lines_of_unlines(lines);
}

/// Saving a registry and loading the text back gives the same shared secret
/// and the same peers under the same names, in the same order, each read
/// back from its written fields (see [`reread`]). This holds when the
/// secret has no line break or surrounding space and every name reads back
/// as itself ([`stable_name`]); a name such as `Node.local` would come back
/// under its canonical form instead.
pub proof fn lemma_save_then_load(secret: Seq<char>, peers: PeerEntries)
    requires
        registry_ok(secret, peers),
    ensures
        parse_ini_spec(registry_ini(secret, peers)) == Ok::<(Seq<char>, PeerEntries), crate::peers_types::PeersFault>(
            (secret, reread_entries(peers)),
        ),
{
    lemma_registry_lines(secret, peers);
    assert(peers.take(peers.len() as int) =~= peers);
    lemma_state_after(secret, peers, peers.len() as int);
    lemma_flush_after(secret, peers, peers.len() as int);
}

/// A peer that `save` writes reads back with its fields as written: the
/// required text fields sanitized, the capabilities as the list they spell.
pub proof fn lemma_reread_fields(name: Seq<char>, p: PeerInfo)
    ensures
        reread(name, p).ssh_alias == sanitize(p.ssh_alias),
        reread(name, p).user == sanitize(p.user),
        reread(name, p).os == sanitize(p.os),
        reread(name, p).tailscale_ip == sanitize(p.tailscale_ip),
        reread(name, p).dns_name == sanitize(p.dns_name),
        reread(name, p).capabilities == parse_list(sanitize(join(p.capabilities, ","@))),
        reread(name, p).role == sanitize(p.role),
        reread(name, p).status == sanitize(p.status),
{
    lemma_build_ok(name, p);
}

// ------------------------------------------------------------ peers that read back unchanged

/// A list item that survives being joined with commas and split again.
pub open spec fn list_item_ok(x: Seq<char>) -> bool {
    x.len() > 0 && clean(x) && is_trimmed(x) && !starts_open(x) && !x.contains(',')
}

pub open spec fn list_ok(xs: Seq<Seq<char>>) -> bool {
    forall|i: int| 0 <= i < xs.len() ==> list_item_ok(#[trigger] xs[i])
}

/// A value already in the form `save` writes.
pub open spec fn plain_value(v: Seq<char>) -> bool {
    good_value(v) && !starts_open(v)
}

pub open spec fn opt_ok(v: Option<Seq<char>>) -> bool {
    v matches Some(x) ==> plain_value(x)
}

/// A peer whose every field is already in the form `save` writes.
pub open spec fn stable_peer(p: PeerInfo) -> bool {
    &&& plain_value(p.ssh_alias)
    &&& plain_value(p.user)
    &&& plain_value(p.os)
    &&& plain_value(p.tailscale_ip)
    &&& plain_value(p.dns_name)
    &&& plain_value(p.role)
    &&& plain_value(p.status)
    &&& list_ok(p.capabilities)
    &&& list_ok(p.aliases)
    &&& opt_ok(p.thunderbolt_ip)
    &&& opt_ok(p.lan_ip)
    &&& opt_ok(p.mac_address)
    &&& opt_ok(p.gh_account)
    &&& opt_ok(p.runner_paths)
    &&& opt_ok(p.repo_path)
}

proof fn lemma_split_append_sep(s: Seq<char>, t: Seq<char>, sep: char)
    requires
        !t.contains(sep),
    ensures
        split_acc(s + t, sep) == (split_acc(s, sep).0, split_acc(s, sep).1 + t),
    decreases t.len(),
{
    if t.len() == 0 {
        assert(s + t =~= s);
        assert(split_acc(s, sep).1 + t =~= split_acc(s, sep).1);
    } else {
        let u = t.drop_last();
        assert(!u.contains(sep)) by {
            if u.contains(sep) {
                let i = choose|i: int| 0 <= i < u.len() && u[i] == sep;
                assert(t[i] == sep);
            }
        }
        lemma_split_append_sep(s, u, sep);
        assert((s + t).drop_last() =~= s + u);
        assert((s + t).last() == t.last());
        assert(t.last() != sep) by {
            if t.last() == sep {
                assert(t[t.len() - 1] == sep);
            }
        }
        assert((split_acc(s, sep).1 + u).push(t.last()) =~= split_acc(s, sep).1 + t);
    }
}

proof fn lemma_comma_lit()
    ensures
        ","@ == seq![','],
{
    reveal_strlit(",");
    assert(","@ =~= seq![',']);
}

proof fn lemma_split_join(xs: Seq<Seq<char>>)
    requires
        xs.len() > 0,
        list_ok(xs),
    ensures
        split_acc(join(xs, ","@), ',') == (xs.drop_last(), xs.last()),
    decreases xs.len(),
{
    lemma_comma_lit();
    assert(list_item_ok(xs[xs.len() - 1]));
    if xs.len() == 1 {
        assert(join(xs, ","@) == xs[0]);
        lemma_split_append_sep(Seq::empty(), xs[0], ',');
        assert(Seq::<char>::empty() + xs[0] =~= xs[0]);
        assert(xs.drop_last() =~= Seq::<Seq<char>>::empty());
    } else {
        let d = xs.drop_last();
        assert(list_ok(d)) by {
            assert forall|i: int| 0 <= i < d.len() implies list_item_ok(#[trigger] d[i]) by {
                assert(d[i] == xs[i]);
            }
        }
        lemma_split_join(d);
        let jd = join(d, ","@);
        assert((jd + ","@).drop_last() =~= jd);
        assert((jd + ","@).last() == ',');
        assert(split_acc(jd + ","@, ',') == (d.drop_last().push(d.last()), Seq::<char>::empty()));
        assert(d.drop_last().push(d.last()) =~= d);
        lemma_split_append_sep(jd + ","@, xs.last(), ',');
        assert(Seq::<char>::empty() + xs.last() =~= xs.last());
    }
}

proof fn lemma_nonempty_trimmed_id(xs: Seq<Seq<char>>)
    requires
        list_ok(xs),
    ensures
        nonempty_trimmed(xs) == xs,
    decreases xs.len(),
{
    if xs.len() > 0 {
        let d = xs.drop_last();
        assert(list_ok(d)) by {
            assert forall|i: int| 0 <= i < d.len() implies list_item_ok(#[trigger] d[i]) by {
                assert(d[i] == xs[i]);
            }
        }
        lemma_nonempty_trimmed_id(d);
        assert(list_item_ok(xs[xs.len() - 1]));
        lemma_trim_trimmed(xs.last());
        assert(d.push(xs.last()) =~= xs);
    }
}

proof fn lemma_join_clean_trimmed(xs: Seq<Seq<char>>)
    requires
        list_ok(xs),
    ensures
        clean(join(xs, ","@)),
        is_trimmed(join(xs, ","@)),
        xs.len() > 0 ==> join(xs, ","@).len() > 0 && join(xs, ","@)[0] == xs[0][0],
        xs.len() > 0 ==> join(xs, ","@).last() == xs.last().last(),
    decreases xs.len(),
{
    lemma_comma_lit();
    if xs.len() == 1 {
        assert(list_item_ok(xs[0]));
    } else if xs.len() > 1 {
        let d = xs.drop_last();
        assert(list_ok(d)) by {
            assert forall|i: int| 0 <= i < d.len() implies list_item_ok(#[trigger] d[i]) by {
                assert(d[i] == xs[i]);
            }
        }
        lemma_join_clean_trimmed(d);
        let jd = join(d, ","@);
        let x = xs.last();
        assert(list_item_ok(xs[xs.len() - 1]));
        let j = jd + ","@ + x;
        assert(j == join(xs, ","@));
        assert forall|i: int| 0 <= i < j.len() implies not_newline(#[trigger] j[i]) by {
            if i < jd.len() {
                assert(j[i] == jd[i]);
            } else if i == jd.len() {
                assert(j[i] == ',');
            } else {
                assert(j[i] == x[i - jd.len() - 1]);
            }
        }
        assert(j[0] == jd[0]);
        assert(d[0] == xs[0]);
        assert(j.last() == x.last());
    }
}

/// A clean comma list reads back as itself.
proof fn lemma_list_reads_back(xs: Seq<Seq<char>>)
    requires
        list_ok(xs),
    ensures
        parse_list(sanitize(join(xs, ","@))) == xs,
{
    lemma_join_clean_trimmed(xs);
    lemma_sanitize_stable(join(xs, ","@));
    if xs.len() == 0 {
        assert(join(xs, ","@) == Seq::<char>::empty());
        assert(split_acc(Seq::<char>::empty(), ',') == (Seq::<Seq<char>>::empty(), Seq::<char>::empty()));
        assert(split_on(Seq::<char>::empty(), ',') =~= seq![Seq::<char>::empty()]);
        assert(seq![Seq::<char>::empty()].drop_last() =~= Seq::<Seq<char>>::empty());
        assert(trim(Seq::<char>::empty()) =~= Seq::<char>::empty());
        assert(nonempty_trimmed(Seq::<Seq<char>>::empty()) == Seq::<Seq<char>>::empty());
        assert(seq![Seq::<char>::empty()].last() == Seq::<char>::empty());
        assert(nonempty_trimmed(seq![Seq::<char>::empty()]) =~= Seq::<Seq<char>>::empty());
    } else {
        lemma_split_join(xs);
        assert(xs.drop_last().push(xs.last()) =~= xs);
        lemma_nonempty_trimmed_id(xs);
    }
}

proof fn lemma_optional_keys_distinct()
    ensures
        "thunderbolt_ip"@ != "lan_ip"@, "thunderbolt_ip"@ != "mac_address"@,
        "thunderbolt_ip"@ != "gh_account"@, "thunderbolt_ip"@ != "runners"@,
        "thunderbolt_ip"@ != "runner_paths"@, "thunderbolt_ip"@ != "repo_path"@,
        "thunderbolt_ip"@ != "aliases"@,
        "lan_ip"@ != "mac_address"@, "lan_ip"@ != "gh_account"@, "lan_ip"@ != "runners"@,
        "lan_ip"@ != "runner_paths"@, "lan_ip"@ != "repo_path"@, "lan_ip"@ != "aliases"@,
        "mac_address"@ != "gh_account"@, "mac_address"@ != "runners"@,
        "mac_address"@ != "runner_paths"@, "mac_address"@ != "repo_path"@,
        "mac_address"@ != "aliases"@,
        "gh_account"@ != "runners"@, "gh_account"@ != "runner_paths"@, "gh_account"@ != "repo_path"@,
        "gh_account"@ != "aliases"@,
        "runners"@ != "runner_paths"@, "runners"@ != "repo_path"@, "runners"@ != "aliases"@,
        "runner_paths"@ != "repo_path"@, "runner_paths"@ != "aliases"@,
        "repo_path"@ != "aliases"@,
{
    lemma_key_lengths();
    reveal_strlit("runners");
    reveal_strlit("aliases");
    assert("runners"@[0] != "aliases"@[0]);
}

/// The value a key has in a list of fields in which it occurs at most in
/// the piece `mid`.
proof fn lemma_kv_get_piece(pre: KeyValues, mid: KeyValues, post: KeyValues, k: Seq<char>)
    requires
        forall|i: int| 0 <= i < pre.len() ==> (#[trigger] pre[i]).0 != k,
        forall|i: int| 0 <= i < post.len() ==> (#[trigger] post[i]).0 != k,
        mid.len() <= 1,
        mid.len() == 1 ==> mid[0].0 == k,
    ensures
        kv_get(pre + mid + post, k) == if mid.len() == 1 { Some(mid[0].1) } else { None },
{
    lemma_kv_get_skip(pre + mid, post, k);
    if mid.len() == 1 {
        assert((pre + mid).last() == mid[0]);
    } else {
        assert(pre + mid =~= pre);
        lemma_kv_get_skip(Seq::empty(), pre, k);
        assert(Seq::<(Seq<char>, Seq<char>)>::empty() + pre =~= pre);
    }
}

/// Every field of `fs` has key `k`.
pub open spec fn keyed(fs: Fields, k: Seq<char>) -> bool {
    forall|i: int| 0 <= i < fs.len() ==> (#[trigger] fs[i]).0 == k
}

proof fn lemma_keyed_concat(a: Fields, b: Fields, k: Seq<char>)
    requires
        forall|i: int| 0 <= i < a.len() ==> (#[trigger] a[i]).0 != k,
        forall|i: int| 0 <= i < b.len() ==> (#[trigger] b[i]).0 != k,
    ensures
        forall|i: int| 0 <= i < (a + b).len() ==> (#[trigger] (a + b)[i]).0 != k,
{
    assert forall|i: int| 0 <= i < (a + b).len() implies (#[trigger] (a + b)[i]).0 != k by {
        if i < a.len() {
            assert((a + b)[i] == a[i]);
        } else {
            assert((a + b)[i] == b[i - a.len()]);
        }
    }
}

proof fn lemma_required_keys_not(p: PeerInfo, k: Seq<char>)
    requires
        optional_key(k),
    ensures
        forall|i: int| 0 <= i < required_written(p).len() ==> (#[trigger] required_written(p)[i]).0 != k,
{
    lemma_required_not_optional();
    let r = required_written(p);
    assert forall|i: int| 0 <= i < r.len() implies (#[trigger] r[i]).0 != k by {
        assert(!optional_key(r[i].0));
    }
}

proof fn lemma_piece_not(piece: Fields, key: Seq<char>, k: Seq<char>)
    requires
        keyed(piece, key),
        key != k,
    ensures
        forall|i: int| 0 <= i < piece.len() ==> (#[trigger] piece[i]).0 != k,
{
    assert forall|i: int| 0 <= i < piece.len() implies (#[trigger] piece[i]).0 != k by {
        assert(piece[i].0 == key);
    }
}

pub open spec fn optional_pieces(p: PeerInfo) -> Seq<Fields> {
    seq![
        opt_written("thunderbolt_ip"@, p.thunderbolt_ip),
        opt_written("lan_ip"@, p.lan_ip),
        opt_written("mac_address"@, p.mac_address),
        opt_written("gh_account"@, p.gh_account),
        runners_written(p.runners),
        opt_written("runner_paths"@, p.runner_paths),
        opt_written("repo_path"@, p.repo_path),
        aliases_written(p.aliases),
    ]
}

pub open spec fn optional_key_list() -> Seq<Seq<char>> {
    seq![
        "thunderbolt_ip"@,
        "lan_ip"@,
        "mac_address"@,
        "gh_account"@,
        "runners"@,
        "runner_paths"@,
        "repo_path"@,
        "aliases"@,
    ]
}

pub open spec fn piece_value(piece: Fields) -> Option<Seq<char>> {
    if piece.len() == 1 { Some(piece[0].1) } else { None }
}

/// The pieces one after the other.
pub open spec fn concat_all(ps: Seq<Fields>) -> Fields
    decreases ps.len(),
{
    if ps.len() == 0 {
        Seq::empty()
    } else {
        concat_all(ps.drop_last()) + ps.last()
    }
}

pub open spec fn pieces_keyed(ps: Seq<Fields>, ks: Seq<Seq<char>>) -> bool {
    &&& ps.len() == ks.len()
    &&& forall|j: int| 0 <= j < ps.len() ==> keyed(#[trigger] ps[j], ks[j]) && ps[j].len() <= 1
    &&& forall|a: int, b: int| 0 <= a < b < ks.len() ==> #[trigger] ks[a] != #[trigger] ks[b]
}

proof fn lemma_concat_lacks(ps: Seq<Fields>, ks: Seq<Seq<char>>, k: Seq<char>)
    requires
        pieces_keyed(ps, ks),
        forall|j: int| 0 <= j < ks.len() ==> #[trigger] ks[j] != k,
    ensures
        forall|i: int| 0 <= i < concat_all(ps).len() ==> (#[trigger] concat_all(ps)[i]).0 != k,
    decreases ps.len(),
{
    if ps.len() > 0 {
        let pd = ps.drop_last();
        let kd = ks.drop_last();
        assert(pieces_keyed(pd, kd)) by {
            assert forall|j: int| 0 <= j < pd.len() implies keyed(#[trigger] pd[j], kd[j]) && pd[j].len() <= 1 by {
                assert(pd[j] == ps[j]);
                assert(kd[j] == ks[j]);
            }
            assert forall|a: int, b: int| 0 <= a < b < kd.len() implies #[trigger] kd[a] != #[trigger] kd[b] by {
                assert(kd[a] == ks[a]);
                assert(kd[b] == ks[b]);
            }
        }
        assert forall|j: int| 0 <= j < kd.len() implies #[trigger] kd[j] != k by {
            assert(kd[j] == ks[j]);
        }
        lemma_concat_lacks(pd, kd, k);
        let last = ps[ps.len() - 1];
        assert(keyed(last, ks[ks.len() - 1]));
        assert(ks[ks.len() - 1] != k);
        lemma_piece_not(last, ks[ks.len() - 1], k);
        lemma_keyed_concat(concat_all(pd), last, k);
    }
}

proof fn lemma_piece_lookup(r: Fields, ps: Seq<Fields>, ks: Seq<Seq<char>>, i: int)
    requires
        pieces_keyed(ps, ks),
        0 <= i < ps.len(),
        forall|x: int| 0 <= x < r.len() ==> (#[trigger] r[x]).0 != ks[i],
    ensures
        kv_get(r + concat_all(ps), ks[i]) == piece_value(ps[i]),
    decreases ps.len(),
{
    let pd = ps.drop_last();
    let kd = ks.drop_last();
    let last = ps[ps.len() - 1];
    let k = ks[i];
    assert(concat_all(ps) == concat_all(pd) + last);
    assert(r + concat_all(ps) =~= (r + concat_all(pd)) + last);
    assert(pieces_keyed(pd, kd)) by {
        assert forall|j: int| 0 <= j < pd.len() implies keyed(#[trigger] pd[j], kd[j]) && pd[j].len() <= 1 by {
            assert(pd[j] == ps[j]);
            assert(kd[j] == ks[j]);
        }
        assert forall|a: int, b: int| 0 <= a < b < kd.len() implies #[trigger] kd[a] != #[trigger] kd[b] by {
            assert(kd[a] == ks[a]);
            assert(kd[b] == ks[b]);
        }
    }
    if i == ps.len() - 1 {
        assert forall|j: int| 0 <= j < kd.len() implies #[trigger] kd[j] != k by {
            assert(kd[j] == ks[j]);
        }
        lemma_concat_lacks(pd, kd, k);
        lemma_keyed_concat(r, concat_all(pd), k);
        assert(keyed(last, k));
        assert(last.len() <= 1);
        lemma_kv_get_piece(r + concat_all(pd), last, Seq::empty(), k);
        assert(r + concat_all(pd) + last + Seq::<(Seq<char>, Seq<char>)>::empty() =~= r + concat_all(pd) + last);
    } else {
        assert(ks[ks.len() - 1] != k);
        assert(keyed(last, ks[ks.len() - 1]));
        lemma_piece_not(last, ks[ks.len() - 1], k);
        lemma_kv_get_skip(r + concat_all(pd), last, k);
        assert(pd[i] == ps[i]);
        assert(kd[i] == ks[i]);
        lemma_piece_lookup(r, pd, kd, i);
    }
}

proof fn lemma_optional_pieces(p: PeerInfo)
    ensures
        optional_written(p) == concat_all(optional_pieces(p)),
        pieces_keyed(optional_pieces(p), optional_key_list()),
{
    let ps = optional_pieces(p);
    reveal_with_fuel(concat_all, 9);
    assert(ps.drop_last().drop_last().drop_last().drop_last().drop_last().drop_last().drop_last().drop_last() =~= Seq::<Fields>::empty());
    assert(optional_written(p) =~= concat_all(ps));
    lemma_optional_keys_distinct();
    let ks = optional_key_list();
    assert forall|a: int, b: int| 0 <= a < b < ks.len() implies #[trigger] ks[a] != #[trigger] ks[b] by {}
    assert forall|j: int| 0 <= j < ps.len() implies keyed(#[trigger] ps[j], ks[j]) && ps[j].len() <= 1 by {}
}

/// The optional fields of a written peer read back as they were set.
proof fn lemma_optional_value(p: PeerInfo, i: int)
    requires
        0 <= i < 8,
    ensures
        kv_get(required_written(p) + optional_written(p), optional_key_list()[i]) == piece_value(
            optional_pieces(p)[i],
        ),
{
    lemma_optional_pieces(p);
    let ks = optional_key_list();
    assert(optional_key(ks[i]));
    lemma_required_keys_not(p, ks[i]);
    lemma_piece_lookup(required_written(p), optional_pieces(p), ks, i);
}

proof fn lemma_opt_back(k: Seq<char>, v: Option<Seq<char>>)
    requires
        opt_ok(v),
    ensures
        piece_value(opt_written(k, v)) == v,
{
    if let Some(x) = v {
        lemma_sanitize_stable(x);
    }
}

/// A peer already in written form reads back unchanged.
pub proof fn lemma_reread_stable(name: Seq<char>, p: PeerInfo)
    requires
        stable_peer(p),
    ensures
        reread(name, p) == p,
{
    lemma_build_ok(name, p);
    lemma_sanitize_stable(p.ssh_alias);
    lemma_sanitize_stable(p.user);
    lemma_sanitize_stable(p.os);
    lemma_sanitize_stable(p.tailscale_ip);
    lemma_sanitize_stable(p.dns_name);
    lemma_sanitize_stable(p.role);
    lemma_sanitize_stable(p.status);
    lemma_list_reads_back(p.capabilities);
    let ks = optional_key_list();
    let ps = optional_pieces(p);
    let kv = required_written(p) + optional_written(p);
    lemma_optional_value(p, 0);
    lemma_optional_value(p, 1);
    lemma_optional_value(p, 2);
    lemma_optional_value(p, 3);
    lemma_optional_value(p, 4);
    lemma_optional_value(p, 5);
    lemma_optional_value(p, 6);
    lemma_optional_value(p, 7);
    lemma_opt_back("thunderbolt_ip"@, p.thunderbolt_ip);
    lemma_opt_back("lan_ip"@, p.lan_ip);
    lemma_opt_back("mac_address"@, p.mac_address);
    lemma_opt_back("gh_account"@, p.gh_account);
    lemma_opt_back("runner_paths"@, p.runner_paths);
    lemma_opt_back("repo_path"@, p.repo_path);
    assert(kv_get(kv, "thunderbolt_ip"@) == p.thunderbolt_ip);
    assert(kv_get(kv, "lan_ip"@) == p.lan_ip);
    assert(kv_get(kv, "mac_address"@) == p.mac_address);
    assert(kv_get(kv, "gh_account"@) == p.gh_account);
    assert(kv_get(kv, "runner_paths"@) == p.runner_paths);
    assert(kv_get(kv, "repo_path"@) == p.repo_path);
    match p.runners {
        Some(n) => {
            assert(kv_get(kv, "runners"@) == Some(decimal(n as nat)));
            lemma_unsigned_roundtrip(n as nat, 0xffff_ffff);
        },
        None => {
            assert(kv_get(kv, "runners"@) is None);
        },
    }
    if p.aliases.len() > 0 {
        assert(kv_get(kv, "aliases"@) == Some(sanitize(join(p.aliases, ","@))));
        lemma_list_reads_back(p.aliases);
    } else {
        assert(kv_get(kv, "aliases"@) is None);
        assert(p.aliases =~= Seq::<Seq<char>>::empty());
    }
    assert(reread(name, p) =~= p);
}

/// Saving a registry and loading it back gives the registry itself, when
/// its secret, names and fields are already in the form `save` writes
/// ([`registry_ok`], [`stable_peer`]).
pub proof fn lemma_save_then_load_same(secret: Seq<char>, peers: PeerEntries)
    requires
        registry_ok(secret, peers),
        forall|i: int| 0 <= i < peers.len() ==> stable_peer(#[trigger] peers[i].1),
    ensures
        parse_ini_spec(registry_ini(secret, peers)) == Ok::<(Seq<char>, PeerEntries), crate::peers_types::PeersFault>(
            (secret, peers),
        ),
{
    lemma_save_then_load(secret, peers);
    assert forall|i: int| 0 <= i < peers.len() implies #[trigger] reread_entries(peers)[i] == peers[i] by {
        lemma_reread_stable(peers[i].0, peers[i].1);
    }
    assert(reread_entries(peers) =~= peers);
}

/// A single peer written by `peer_to_ini` under a name that reads back as
/// itself, with every field already in written form, parses back as exactly
/// that peer under that name, with no shared secret.
pub proof fn lemma_peer_ini_roundtrip(name: Seq<char>, p: PeerInfo)
    requires
        stable_name(name),
        stable_peer(p),
    ensures
        parse_ini_spec(peer_ini(name, p)) == Ok::<(Seq<char>, PeerEntries), crate::peers_types::PeersFault>(
            (Seq::<char>::empty(), seq![(name, p)]),
        ),
{
    lemma_section_state(name, p);
    lemma_build_ok(name, p);
    lemma_reread_stable(name, p);
    assert(map_get(Seq::<(Seq<char>, PeerInfo)>::empty(), name) is None);
    assert(map_upsert(Seq::<(Seq<char>, PeerInfo)>::empty(), name, p) == seq![(name, p)]);
}

/// The shared secret `save` writes is the one that request signing reads
/// from the file (when there is one: an empty secret means none).
pub proof fn lemma_saved_secret_is_loaded(secret: Seq<char>, peers: PeerEntries)
    requires
        registry_ok(secret, peers),
        secret.len() > 0,
    ensures
        secret_scan(lines_of(registry_ini(secret, peers))).1 == Some(secret),
{
    lemma_registry_lines(secret, peers);
    let ls = mesh_lines(secret) + sections_lines(peers);
    reveal_strlit("[mesh]");
    reveal_strlit("shared_secret=");
    reveal_strlit("shared_secret");
    assert(ls.take(1) =~= seq!["[mesh]"@]);
    assert(ls.take(2) =~= mesh_lines(secret));
    let m = "[mesh]"@;
    assert(is_trimmed(m));
    lemma_trim_trimmed(m);
    assert(lower(m) =~= m);
    assert(seq![m].drop_last() =~= Seq::<Seq<char>>::empty());
    assert(secret_scan(Seq::<Seq<char>>::empty()) == (false, None::<Seq<char>>));
    assert(seq![m].last() == m);
    assert(trim(m) == m);
    assert(lower(trim(m)) == "[mesh]"@);
    assert(secret_scan(seq![m]) == (true, None::<Seq<char>>));
    let line = "shared_secret="@ + secret;
    assert(line[0] == 's');
    assert(line.last() == secret.last());
    assert(is_trimmed(line));
    lemma_trim_trimmed(line);
    assert(lower(line).len() != m.len());
    assert(line[13] == '=');
    assert forall|i: int| 0 <= i < 13 implies line[i] != '=' by {}
    assert(first_at(line, '=', 13));
    let x = choose|x: int| first_at(line, '=', x);
    lemma_first_unique(line, '=', x, 13);
    assert(line.take(13) =~= "shared_secret"@);
    assert(is_trimmed("shared_secret"@));
    lemma_trim_trimmed("shared_secret"@);
    assert(line.skip(14) =~= secret);
    lemma_trim_trimmed(secret);
    assert(mesh_lines(secret).drop_last() =~= seq![m]);
    assert(secret_scan(ls.take(2)).1 == Some(secret));
    lemma_scan_found_stays(ls, 2);
}

// ------------------------------------------------------------ duplicate names collapse

proof fn lemma_merge_keeps(existing: Seq<Seq<char>>, incoming: Seq<Seq<char>>, canon: Seq<char>)
    ensures
        forall|x: Seq<char>| existing.contains(x) ==> merge_aliases(existing, incoming, canon).contains(x),
        forall|x: Seq<char>| incoming.contains(x) && x != canon ==> merge_aliases(existing, incoming, canon).contains(x),
    decreases incoming.len(),
{
    if incoming.len() > 0 {
        let d = incoming.drop_last();
        lemma_merge_keeps(existing, d, canon);
        let r = merge_aliases(existing, d, canon);
        let m = merge_aliases(existing, incoming, canon);
        assert forall|x: Seq<char>| r.contains(x) implies m.contains(x) by {
            if m != r {
                let i = choose|i: int| 0 <= i < r.len() && r[i] == x;
                assert(m[i] == r[i]);
            }
        }
        assert forall|x: Seq<char>| incoming.contains(x) && x != canon implies m.contains(x) by {
            let i = choose|i: int| 0 <= i < incoming.len() && incoming[i] == x;
            if i < d.len() {
                assert(d[i] == x);
                assert(d.contains(x));
            } else {
                assert(x == incoming.last());
                if m == r {
                    assert(r.contains(x));
                } else {
                    assert(m == r.push(x));
                    assert(m[r.len() as int] == x);
                }
            }
        }
    }
}

/// The section of peer `a` read on its own: open, with its fields.
proof fn lemma_first_section(name: Seq<char>, p: PeerInfo)
    ensures
        ini_fold(section_lines(name, p)) == (IniState {
            section: Some(sanitize(name)),
            kv: required_written(p) + optional_written(p),
            ..ini_init()
        }),
{
    let fs = required_written(p) + optional_written(p);
    lemma_written_good(p);
    lemma_fold_section(name, fs, fs.len() as int);
    assert((seq![header_line(name)] + field_lines(fs)).take(fs.len() as int + 1) =~= section_lines(name, p));
    assert(fs.take(fs.len() as int) =~= fs);
}

/// Two sections whose names have one canonical form (`M5Max.local` and
/// `M5Max`, say) collapse into a single peer under that form: the first
/// section's fields are kept, and each name that differs from the
/// canonical form is kept as an alias.
pub proof fn lemma_duplicate_names_collapse(a: Seq<char>, p: PeerInfo, b: Seq<char>, q: PeerInfo)
    requires
        sanitize(a) != "mesh"@,
        sanitize(b) != "mesh"@,
        canonical(sanitize(a)) == canonical(sanitize(b)),
    ensures
        parse_ini_spec(peer_ini(a, p) + "\n"@ + peer_ini(b, q)) is Ok,
        ({
            let peers = parse_ini_spec(peer_ini(a, p) + "\n"@ + peer_ini(b, q))->Ok_0.1;
            let c = canonical(sanitize(a));
            &&& peers.len() == 1
            &&& peers[0].0 == c
            &&& peers[0].1.ssh_alias == sanitize(p.ssh_alias)
            &&& peers[0].1.tailscale_ip == sanitize(p.tailscale_ip)
            &&& peers[0].1.role == sanitize(p.role)
            &&& (sanitize(a) != c ==> peers[0].1.aliases.contains(sanitize(a)))
            &&& (sanitize(b) != c ==> peers[0].1.aliases.contains(sanitize(b)))
        }),
{
    let la = section_lines(a, p);
    let lb = section_lines(b, q);
    let blank = seq![Seq::<char>::empty()];
    let text = peer_ini(a, p) + "\n"@ + peer_ini(b, q);
    let ls = la + (blank + lb);
    lemma_peer_ini_lines(a, p);
    lemma_peer_ini_lines(b, q);
    lemma_unlines_one(Seq::<char>::empty());
    assert(Seq::<char>::empty() + "\n"@ =~= "\n"@);
    lemma_unlines_concat(blank, lb);
    lemma_unlines_concat(la, blank + lb);
    assert(text =~= unlines(ls));
    lemma_section_clean(a, p);
    lemma_section_clean(b, q);
    assert(all_clean(ls)) by {
        assert forall|i: int| 0 <= i < ls.len() implies clean(#[trigger] ls[i]) by {
            if i < la.len() {
                assert(ls[i] == la[i]);
            } else if i == la.len() {
                assert(ls[i] == Seq::<char>::empty());
            } else {
                assert(ls[i] == lb[i - la.len() - 1]);
            }
        }
    }
    lemma_lines_of_unlines(ls);
    lemma_fold_concat(la, blank + lb);
    lemma_first_section(a, p);
    let sa = sanitize(a);
    let sb = sanitize(b);
    let c = canonical(sa);
    let st_a = IniState { section: Some(sa), kv: required_written(p) + optional_written(p), ..ini_init() };
    lemma_build_ok(sa, p);
    lemma_build_ok(sb, q);
    let fa = flush(st_a);
    let cfg_a = build_peer_spec(sa, required_written(p) + optional_written(p))->Ok_0;
    assert(map_get(Seq::<(Seq<char>, PeerInfo)>::empty(), c) is None);
    assert(!stuck(fa));
    lemma_section_from(st_a, b, q, la.len());
    let st_b = IniState { section: Some(sb), kv: required_written(q) + optional_written(q), ..fa };
    assert(ini_fold(lines_of(text)) == st_b);
    let cfg2_a = if sa != c && !cfg_a.aliases.contains(sa) {
        PeerInfo { aliases: cfg_a.aliases.push(sa), ..cfg_a }
    } else {
        cfg_a
    };
    assert(fa.peers == seq![(c, cfg2_a)]);
    assert(map_get(fa.peers, c) == Some(cfg2_a));
    let cfg_b = build_peer_spec(sb, required_written(q) + optional_written(q))->Ok_0;
    let cfg2_b = if sb != c && !cfg_b.aliases.contains(sb) {
        PeerInfo { aliases: cfg_b.aliases.push(sb), ..cfg_b }
    } else {
        cfg_b
    };
    let inc = cfg2_b.aliases.push(sb);
    let merged = PeerInfo { aliases: merge_aliases(cfg2_a.aliases, inc, c), ..cfg2_a };
    assert(map_upsert(fa.peers, c, merged) =~= seq![(c, merged)]) by {
        lemma_lt_irreflexive(c);
        assert(fa.peers[0].0 == c);
        assert(!seq_lt(c, fa.peers[0].0));
        assert(fa.peers.drop_first() =~= Seq::<(Seq<char>, PeerInfo)>::empty());
        assert(seq![(c, merged)] + fa.peers.drop_first() =~= seq![(c, merged)]);
    }
    lemma_merge_keeps(cfg2_a.aliases, inc, c);
    if sa != c {
        assert(cfg2_a.aliases.contains(sa)) by {
            if !cfg_a.aliases.contains(sa) {
                assert(cfg2_a.aliases[cfg_a.aliases.len() as int] == sa);
            }
        }
    }
    if sb != c {
        assert(inc[inc.len() - 1] == sb);
        assert(inc.contains(sb));
    }
}

} // verus!

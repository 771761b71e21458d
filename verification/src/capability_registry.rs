//! Capability registry queries: which peers can serve the required tags,
//! and all capabilities grouped by peer.

use vstd::prelude::*;
use crate::capability_types::{tag_name, CapabilityInfo, CapabilityQuery, NodeCapabilities, NodeCapability};
use crate::peers_types::strings_view;
use crate::codec::hex_digit;
use crate::text::{chars_eq, chars_of, join, seq_lt};
use crate::peers_types::str_below as str_lt_chars;

verus! {

/// What a JSON text holds when it is an array of strings.
pub uninterp spec fn json_string_list_spec(text: Seq<char>) -> Option<Seq<Seq<char>>>;

/// `serde_json::from_str::<Vec<String>>(text)`, its error dropped.
#[verifier::external_body]
fn json_string_list(text: &str) -> (r: Option<Vec<String>>)
    ensures
        match json_string_list_spec(text@) {
            Some(v) => r is Some && strings_view(r->Some_0@) == v,
            None => r is None,
        },
{
    serde_json::from_str::<Vec<String>>(text).ok()
}

/// A character inside a JSON string as serde_json writes it: `"` and `\`
/// escaped with a backslash, the control characters with their short escape
/// (`\b`, `\t`, `\n`, `\f`, `\r`) or as `\u00xx` in lowercase hex,
/// every other character as itself.
pub open spec fn json_escape_char(c: char) -> Seq<char> {
    let u = c as u32;
    if c == '"' {
        seq!['\\', '"']
    } else if c == '\\' {
        seq!['\\', '\\']
    } else if u == 0x08 {
        seq!['\\', 'b']
    } else if u == 0x09 {
        seq!['\\', 't']
    } else if u == 0x0a {
        seq!['\\', 'n']
    } else if u == 0x0c {
        seq!['\\', 'f']
    } else if u == 0x0d {
        seq!['\\', 'r']
    } else if u < 0x20 {
        seq!['\\', 'u', '0', '0', hex_digit((u / 16) as u8), hex_digit((u % 16) as u8)]
    } else {
        seq![c]
    }
}

/// The escaped characters of a JSON string.
pub open spec fn json_escape(s: Seq<char>) -> Seq<char>
    decreases s.len(),
{
    if s.len() == 0 {
        Seq::empty()
    } else {
        json_escape(s.drop_last()) + json_escape_char(s.last())
    }
}

/// A string as a JSON string literal.
pub open spec fn json_string(s: Seq<char>) -> Seq<char> {
    seq!['"'] + json_escape(s) + seq!['"']
}

/// A list of strings as compact JSON: `["a","b"]`.
pub open spec fn json_text_of_strings(v: Seq<Seq<char>>) -> Seq<char> {
    seq!['['] + join(v.map_values(|x: Seq<char>| json_string(x)), seq![',']) + seq![']']
}

/// `serde_json::to_string(tags)`: the compact JSON array of the strings
/// (serialising strings into memory does not fail).
#[verifier::external_body]
fn tags_json(tags: &Vec<String>) -> (r: Result<String, serde_json::Error>)
    ensures
        r is Ok,
        r matches Ok(s) ==> s@ == json_text_of_strings(strings_view(tags@)),
{
    serde_json::to_string(tags)
}

/// The values stored for a capability of a peer: peer, capability name,
/// version, tags as JSON, metadata as JSON.
pub fn capability_columns(peer_name: &str, cap: &NodeCapability) -> (r: (String, String, String, String, String))
    ensures
        r.0@ == peer_name@,
        r.1@ == cap.name@,
        r.2@ == cap.version@,
        r.3@ == json_text_of_strings(strings_view(cap.tags@)),
        r.4@ == cap.metadata@,
{
    let tags = match tags_json(&cap.tags) {
        Ok(t) => t,
        Err(_) => "[]".to_owned(),
    };
    (peer_name.to_owned(), cap.name.clone(), cap.version.clone(), tags, cap.metadata.clone())
}

/// The tags stored as JSON: unreadable text counts as no tags.
pub fn parse_tags(tags_json: &str) -> (r: Vec<String>)
    ensures
        strings_view(r@) == row_tags(tags_json@),
{
    match json_string_list(tags_json) {
        Some(v) => v,
        None => {
            let v: Vec<String> = Vec::new();
            assert(strings_view(v@) =~= Seq::<Seq<char>>::empty());
            v
        },
    }
}

/// One stored capability row: peer, capability, tags as JSON, version.
#[derive(Debug, Clone)]
pub struct CapabilityRow {
    pub peer_name: String,
    pub capability_name: String,
    pub tags_json: String,
    pub version: String,
}

pub struct RowInfo {
    pub peer: Seq<char>,
    pub capability: Seq<char>,
    pub tags_json: Seq<char>,
    pub version: Seq<char>,
}

pub open spec fn row_view(r: CapabilityRow) -> RowInfo {
    RowInfo { peer: r.peer_name@, capability: r.capability_name@, tags_json: r.tags_json@, version: r.version@ }
}

pub open spec fn rows_view(v: Seq<CapabilityRow>) -> Seq<RowInfo> {
    v.map_values(|r: CapabilityRow| row_view(r))
}

/// The tags of a row; unreadable JSON counts as no tags.
pub open spec fn row_tags(tags_json: Seq<char>) -> Seq<Seq<char>> {
    match json_string_list_spec(tags_json) {
        Some(v) => v,
        None => Seq::empty(),
    }
}

/// How many required tags (counted with repetition) a tag list holds.
pub open spec fn count_matched(required: Seq<Seq<char>>, tags: Seq<Seq<char>>) -> nat
    decreases required.len(),
{
    if required.len() == 0 {
        0
    } else {
        count_matched(required.drop_last(), tags) + if tags.contains(required.last()) {
            1nat
        } else {
            0nat
        }
    }
}

/// A row passes the version floor when its version is not below it.
pub open spec fn version_passes(version: Seq<char>, min: Option<Seq<char>>) -> bool {
    match min {
        Some(m) => !seq_lt(version, m),
        None => true,
    }
}

/// Per peer: matched-tag total and the matching capabilities, in order of
/// the peer's first match.
pub type MatchEntries = Seq<(Seq<char>, nat, Seq<Seq<char>>)>;

pub open spec fn first_peer(g: MatchEntries, peer: Seq<char>, i: int) -> bool {
    0 <= i < g.len() && g[i].0 == peer && forall|j: int| 0 <= j < i ==> g[j].0 != peer
}

/// The matched row added to its peer's entry, or to a new entry at the end.
pub open spec fn add_match(g: MatchEntries, peer: Seq<char>, k: nat, cap: Seq<char>) -> MatchEntries {
    if exists|i: int| 0 <= i < g.len() && g[i].0 == peer {
        let i = choose|i: int| first_peer(g, peer, i);
        g.update(i, (peer, g[i].1 + k, g[i].2.push(cap)))
    } else {
        g.push((peer, k, seq![cap]))
    }
}

pub open spec fn aggregate(rows: Seq<RowInfo>, required: Seq<Seq<char>>, min: Option<Seq<char>>) -> MatchEntries
    decreases rows.len(),
{
    if rows.len() == 0 {
        Seq::empty()
    } else {
        let g = aggregate(rows.drop_last(), required, min);
        let r = rows.last();
        let k = count_matched(required, row_tags(r.tags_json));
        if version_passes(r.version, min) && k > 0 {
            add_match(g, r.peer, k, r.capability)
        } else {
            g
        }
    }
}

/// `e` placed after every entry whose total is at least its own.
pub open spec fn insert_by_count(s: MatchEntries, e: (Seq<char>, nat, Seq<Seq<char>>)) -> MatchEntries
    decreases s.len(),
{
    if s.len() == 0 {
        seq![e]
    } else if s.last().1 >= e.1 {
        s.push(e)
    } else {
        insert_by_count(s.drop_last(), e).push(s.last())
    }
}

/// Stable sort by total, highest first.
pub open spec fn sort_by_count(g: MatchEntries) -> MatchEntries
    decreases g.len(),
{
    if g.len() == 0 {
        g
    } else {
        insert_by_count(sort_by_count(g.drop_last()), g.last())
    }
}

pub open spec fn required_names(q: Seq<crate::capability_types::CapabilityTag>) -> Seq<Seq<char>> {
    q.map_values(|t: crate::capability_types::CapabilityTag| tag_name(t))
}

/// The peers matching a query, best first; none when no tag is required.
pub open spec fn match_spec(
    rows: Seq<RowInfo>,
    required: Seq<Seq<char>>,
    min: Option<Seq<char>>,
) -> MatchEntries {
    if required.len() == 0 {
        Seq::empty()
    } else {
        sort_by_count(aggregate(rows, required, min))
    }
}

/// A peer's matched-tag total and matching capabilities. The score of the
/// match is `matched` divided by the number of required tags.
#[derive(Debug)]
pub struct PeerMatch {
    pub peer_name: String,
    pub matched: u128,
    pub matched_capabilities: Vec<String>,
}

pub open spec fn match_view(m: PeerMatch) -> (Seq<char>, nat, Seq<Seq<char>>) {
    (m.peer_name@, m.matched as nat, strings_view(m.matched_capabilities@))
}

pub open spec fn matches_view(v: Seq<PeerMatch>) -> MatchEntries {
    v.map_values(|m: PeerMatch| match_view(m))
}

fn count_tags(required: &Vec<String>, tags: &Vec<String>) -> (n: usize)
    ensures
        n as nat == count_matched(strings_view(required@), strings_view(tags@)),
        n <= required@.len(),
{
    let ghost req = strings_view(required@);
    let mut n: usize = 0;
    let mut i: usize = 0;
    assert(req.take(0) =~= Seq::<Seq<char>>::empty());
    while i < required.len()
        invariant
            i <= required@.len(),
            req == strings_view(required@),
            n <= i,
            n as nat == count_matched(req.take(i as int), strings_view(tags@)),
        decreases required.len() - i,
    {
        assert(req.take(i + 1).drop_last() == req.take(i as int));
        assert(req.take(i + 1).last() == required@[i as int]@);
        let c = chars_of(required[i].as_str());
        if crate::peers_parser::strings_contain(tags, &c) {
            n = n + 1;
        }
        i = i + 1;
    }
    assert(req.take(required@.len() as int) == req);
    n
}

/// Position of `peer` among the entries.
fn find_peer(g: &Vec<PeerMatch>, peer: &str) -> (r: Option<usize>)
    ensures
        match r {
            Some(i) => first_peer(matches_view(g@), peer@, i as int),
            None => !(exists|i: int| 0 <= i < g@.len() && matches_view(g@)[i].0 == peer@),
        },
{
    let pc = chars_of(peer);
    let mut i: usize = 0;
    while i < g.len()
        invariant
            i <= g@.len(),
            pc@ == peer@,
            forall|j: int| 0 <= j < i ==> matches_view(g@)[j].0 != peer@,
        decreases g.len() - i,
    {
        let c = chars_of(g[i].peer_name.as_str());
        if chars_eq(&c, &pc) {
            return Some(i);
        }
        i = i + 1;
    }
    None
}

proof fn lemma_first_peer_unique(g: MatchEntries, peer: Seq<char>, i: int, j: int)
    requires
        first_peer(g, peer, i),
        first_peer(g, peer, j),
    ensures
        i == j,
{
}

/// Where `insert_by_count` places `e`: after the last entry whose total is at
/// least its own.
proof fn lemma_insert_at(s: MatchEntries, e: (Seq<char>, nat, Seq<Seq<char>>), j: int)
    requires
        0 <= j <= s.len(),
        j == 0 || s[j - 1].1 >= e.1,
        forall|k: int| j <= k < s.len() ==> s[k].1 < e.1,
    ensures
        insert_by_count(s, e) == s.insert(j, e),
    decreases s.len(),
{
    if s.len() == 0 {
        assert(s.insert(0, e) =~= seq![e]);
    } else if s.last().1 >= e.1 {
        assert(j == s.len());
        assert(s.insert(j, e) =~= s.push(e));
    } else {
        lemma_insert_at(s.drop_last(), e, j);
        assert(s.drop_last().insert(j, e).push(s.last()) =~= s.insert(j, e));
    }
}

/// The peers whose stored capabilities carry required tags, with their
/// matched-tag totals, highest first (ties in order of first match).
/// Rows whose version is below `min_version` are skipped; tags that are not
/// a JSON array of strings count as none.
pub fn match_capable_peers(rows: &Vec<CapabilityRow>, query: &CapabilityQuery) -> (r: Vec<PeerMatch>)
    ensures
        matches_view(r@) == match_spec(
            rows_view(rows@),
            required_names(query.required_tags@),
            crate::sync_cursor::opt_string_view(query.min_version),
        ),
{
    let mut required: Vec<String> = Vec::new();
    let mut t: usize = 0;
    while t < query.required_tags.len()
        invariant
            t <= query.required_tags@.len(),
            strings_view(required@) == required_names(query.required_tags@).take(t as int),
        decreases query.required_tags.len() - t,
    {
        let ghost o = required@;
        required.push(query.required_tags[t].to_string());
        assert(strings_view(required@) =~= strings_view(o).push(tag_name(query.required_tags@[t as int])));
        assert(required_names(query.required_tags@).take(t + 1) =~= required_names(query.required_tags@).take(t as int).push(tag_name(query.required_tags@[t as int])));
        t = t + 1;
    }
    let ghost req = required_names(query.required_tags@);
    assert(req.take(query.required_tags@.len() as int) == req);
    let ghost min = crate::sync_cursor::opt_string_view(query.min_version);
    let ghost rv = rows_view(rows@);
    if required.len() == 0 {
        let e: Vec<PeerMatch> = Vec::new();
        assert(matches_view(e@) =~= Seq::<(Seq<char>, nat, Seq<Seq<char>>)>::empty());
        return e;
    }
    let mut groups: Vec<PeerMatch> = Vec::new();
    let mut i: usize = 0;
    assert(rv.take(0) =~= Seq::<RowInfo>::empty());
    assert(matches_view(groups@) =~= Seq::<(Seq<char>, nat, Seq<Seq<char>>)>::empty());
    while i < rows.len()
        invariant
            i <= rows@.len(),
            rv == rows_view(rows@),
            min == crate::sync_cursor::opt_string_view(query.min_version),
            strings_view(required@) == req,
            required@.len() > 0,
            matches_view(groups@) == aggregate(rv.take(i as int), req, min),
            forall|j: int| 0 <= j < groups@.len() ==> groups@[j].matched <= i * required@.len(),
        decreases rows.len() - i,
    {
        assert(rv.take(i + 1).drop_last() == rv.take(i as int));
        assert(rv.take(i + 1).last() == row_view(rows@[i as int]));
        let row = &rows[i];
        let passes = match &query.min_version {
            Some(m) => !str_lt_chars(row.version.as_str(), &chars_of(m.as_str())),
            None => true,
        };
        let tags = match json_string_list(row.tags_json.as_str()) {
            Some(v) => v,
            None => {
                let e: Vec<String> = Vec::new();
                assert(strings_view(e@) =~= Seq::<Seq<char>>::empty());
                e
            },
        };
        let k = count_tags(&required, &tags);
        let rlen = required.len();
        proof {
            let rl = rlen as int;
            assert(i * rl + rl == (i + 1) * rl) by (nonlinear_arith);
            assert(i * rl <= (i + 1) * rl) by (nonlinear_arith)
                requires
                    rl >= 0,
            ;
            assert((i + 1) * rl <= 0x1_0000_0000_0000_0000 * 0xffff_ffff_ffff_ffff) by (nonlinear_arith)
                requires
                    i + 1 <= 0x1_0000_0000_0000_0000,
                    0 <= rl <= 0xffff_ffff_ffff_ffff,
            ;
        }
        if passes && k > 0 {
            let ghost g0 = matches_view(groups@);
            match find_peer(&groups, row.peer_name.as_str()) {
                Some(j) => {
                    let ghost gb = groups@;
                    assert(gb[j as int].matched <= i * required@.len());
                    let mut e = groups.remove(j);
                    assert(e == gb[j as int]);
                    let ghost caps0 = e.matched_capabilities@;
                    e.matched = e.matched + k as u128;
                    e.matched_capabilities.push(row.capability_name.clone());
                    assert(strings_view(e.matched_capabilities@) =~= strings_view(caps0).push(row.capability_name@));
                    assert(match_view(e) == (row.peer_name@, g0[j as int].1 + k as nat, g0[j as int].2.push(row.capability_name@)));
                    let ghost e_final = e;
                    groups.insert(j, e);
                    assert(groups@ =~= gb.update(j as int, e_final));
                    proof {
                        let jj = choose|x: int| first_peer(g0, row.peer_name@, x);
                        lemma_first_peer_unique(g0, row.peer_name@, j as int, jj);
                        assert(matches_view(groups@) =~= add_match(g0, row.peer_name@, k as nat, row.capability_name@));
                    }
                },
                None => {
                    let mut caps: Vec<String> = Vec::new();
                    caps.push(row.capability_name.clone());
                    groups.push(PeerMatch { peer_name: row.peer_name.clone(), matched: k as u128, matched_capabilities: caps });
                    proof {
                        assert(strings_view(caps@) =~= seq![row.capability_name@]);
                        assert(matches_view(groups@) =~= add_match(g0, row.peer_name@, k as nat, row.capability_name@));
                    }
                },
            }
        }
        i = i + 1;
    }
    assert(rv.take(rows@.len() as int) == rv);
    // stable insertion sort, highest total first
    let ghost g = matches_view(groups@);
    let mut sorted: Vec<PeerMatch> = Vec::new();
    let mut n: usize = 0;
    assert(g.take(0) =~= Seq::<(Seq<char>, nat, Seq<Seq<char>>)>::empty());
    assert(matches_view(sorted@) =~= Seq::<(Seq<char>, nat, Seq<Seq<char>>)>::empty());
    let total = groups.len();
    while groups.len() > 0
        invariant
            n + groups@.len() == total,
            total == g.len(),
            matches_view(groups@) == g.skip(n as int),
            matches_view(sorted@) == sort_by_count(g.take(n as int)),
        decreases groups.len(),
    {
        let ghost gb = groups@;
        assert(matches_view(gb)[0] == match_view(gb[0]));
        let e = groups.remove(0);
        assert(e == gb[0]);
        assert(match_view(e) == g[n as int]);
        assert(matches_view(groups@) =~= matches_view(gb).skip(1));
        assert(g.skip(n as int).skip(1) =~= g.skip(n + 1));
        assert(g.take(n + 1).drop_last() == g.take(n as int));
        assert(g.take(n + 1).last() == g[n as int]);
        assert(matches_view(groups@) =~= g.skip(n + 1));
        let mut j = sorted.len();
        while j > 0 && sorted[j - 1].matched < e.matched
            invariant
                j <= sorted@.len(),
                forall|k: int| j <= k < sorted@.len() ==> sorted@[k].matched < e.matched,
            decreases j,
        {
            j = j - 1;
        }
        proof {
            let s = matches_view(sorted@);
            lemma_insert_at(s, match_view(e), j as int);
        }
        let ghost s0 = matches_view(sorted@);
        sorted.insert(j, e);
        assert(matches_view(sorted@) =~= s0.insert(j as int, match_view(e)));
        n = n + 1;
    }
    assert(g.take(n as int) == g);
    sorted
}

/// `sort_by_count` leaves totals in non-increasing order.
pub proof fn lemma_sorted_by_count(g: MatchEntries)
    ensures
        forall|a: int, b: int| 0 <= a < b < sort_by_count(g).len() ==> sort_by_count(g)[a].1 >= sort_by_count(g)[b].1,
        sort_by_count(g).len() == g.len(),
    decreases g.len(),
{
    if g.len() > 0 {
        lemma_sorted_by_count(g.drop_last());
        lemma_insert_sorted(sort_by_count(g.drop_last()), g.last());
    }
}

proof fn lemma_insert_sorted(s: MatchEntries, e: (Seq<char>, nat, Seq<Seq<char>>))
    requires
        forall|a: int, b: int| 0 <= a < b < s.len() ==> s[a].1 >= s[b].1,
    ensures
        forall|a: int, b: int| 0 <= a < b < insert_by_count(s, e).len() ==> insert_by_count(s, e)[a].1 >= insert_by_count(s, e)[b].1,
        insert_by_count(s, e).len() == s.len() + 1,
    decreases s.len(),
{
    if s.len() > 0 && s.last().1 < e.1 {
        lemma_insert_sorted(s.drop_last(), e);
        let t = insert_by_count(s.drop_last(), e);
        assert forall|a: int, b: int| 0 <= a < b < t.len() + 1 implies t.push(s.last())[a].1 >= t.push(s.last())[b].1 by {
            if b == t.len() {
                // every element of t is either from s.drop_last() or e, all >= s.last()
                lemma_insert_members(s.drop_last(), e, a);
            }
        }
    }
}

proof fn lemma_insert_members(s: MatchEntries, e: (Seq<char>, nat, Seq<Seq<char>>), a: int)
    requires
        0 <= a < insert_by_count(s, e).len(),
    ensures
        insert_by_count(s, e)[a] == e || exists|k: int| 0 <= k < s.len() && insert_by_count(s, e)[a] == s[k],
    decreases s.len(),
{
    if s.len() > 0 {
        if s.last().1 >= e.1 {
            if a < s.len() {
                assert(insert_by_count(s, e)[a] == s[a]);
            }
        } else {
            let t = insert_by_count(s.drop_last(), e);
            if a < t.len() {
                lemma_insert_members(s.drop_last(), e, a);
                if insert_by_count(s, e)[a] != e {
                    let k = choose|k: int| 0 <= k < s.drop_last().len() && t[a] == s.drop_last()[k];
                    assert(s.drop_last()[k] == s[k]);
                }
            } else {
                assert(insert_by_count(s, e)[a] == s[s.len() - 1]);
            }
        }
    }
}

/// A row that counts for a query: its version is not below the floor, and
/// its tags hold at least one required tag.
pub open spec fn row_qualifies(r: RowInfo, required: Seq<Seq<char>>, min: Option<Seq<char>>) -> bool {
    &&& (min matches Some(m) ==> !seq_lt(r.version, m))
    &&& exists|t: Seq<char>| required.contains(t) && #[trigger] row_tags(r.tags_json).contains(t)
}

/// Every capability an entry lists comes from a qualifying row of its peer.
pub open spec fn entry_sourced(
    e: (Seq<char>, nat, Seq<Seq<char>>),
    rows: Seq<RowInfo>,
    required: Seq<Seq<char>>,
    min: Option<Seq<char>>,
) -> bool {
    forall|j: int| 0 <= j < e.2.len() ==> #[trigger] sourced_at(e.0, e.2[j], rows, required, min)
}

/// Capability `cap` of `peer` comes from a qualifying row.
pub open spec fn sourced_at(
    peer: Seq<char>,
    cap: Seq<char>,
    rows: Seq<RowInfo>,
    required: Seq<Seq<char>>,
    min: Option<Seq<char>>,
) -> bool {
    exists|k: int|
        0 <= k < rows.len() && (#[trigger] rows[k]).peer == peer && rows[k].capability == cap && row_qualifies(
            rows[k],
            required,
            min,
        )
}

proof fn lemma_count_positive(required: Seq<Seq<char>>, tags: Seq<Seq<char>>)
    requires
        count_matched(required, tags) > 0,
    ensures
        exists|t: Seq<char>| required.contains(t) && #[trigger] tags.contains(t),
    decreases required.len(),
{
    let d = required.drop_last();
    if tags.contains(required.last()) {
        assert(required.contains(required.last())) by {
            assert(required[required.len() - 1] == required.last());
        }
    } else {
        lemma_count_positive(d, tags);
        let t = choose|t: Seq<char>| d.contains(t) && #[trigger] tags.contains(t);
        let i = choose|i: int| 0 <= i < d.len() && d[i] == t;
        assert(required[i] == t);
    }
}

proof fn lemma_sourced_more_rows(
    e: (Seq<char>, nat, Seq<Seq<char>>),
    rows: Seq<RowInfo>,
    r: RowInfo,
    required: Seq<Seq<char>>,
    min: Option<Seq<char>>,
)
    requires
        entry_sourced(e, rows, required, min),
    ensures
        entry_sourced(e, rows.push(r), required, min),
{
    let rs = rows.push(r);
    assert forall|j: int| 0 <= j < e.2.len() implies #[trigger] sourced_at(e.0, e.2[j], rs, required, min) by {
        assert(sourced_at(e.0, e.2[j], rows, required, min));
        let k = choose|k: int|
            0 <= k < rows.len() && (#[trigger] rows[k]).peer == e.0 && rows[k].capability == e.2[j] && row_qualifies(
                rows[k],
                required,
                min,
            );
        assert(rs[k] == rows[k]);
    }
}

/// Every entry of the aggregate lists only capabilities of qualifying rows
/// of its peer.
#[verifier::rlimit(40)]
#[verifier::spinoff_prover]
proof fn lemma_aggregate_sourced(rows: Seq<RowInfo>, required: Seq<Seq<char>>, min: Option<Seq<char>>)
    ensures
        forall|i: int| 0 <= i < aggregate(rows, required, min).len() ==> entry_sourced(
            #[trigger] aggregate(rows, required, min)[i],
            rows,
            required,
            min,
        ),
    decreases rows.len(),
{
    if rows.len() > 0 {
        let d = rows.drop_last();
        let r = rows.last();
        lemma_aggregate_sourced(d, required, min);
        let g = aggregate(d, required, min);
        let g2 = aggregate(rows, required, min);
        assert(rows =~= d.push(r));
        let k = count_matched(required, row_tags(r.tags_json));
        assert forall|i: int| 0 <= i < g.len() implies entry_sourced(#[trigger] g[i], rows, required, min) by {
            lemma_sourced_more_rows(g[i], d, r, required, min);
        }
        if version_passes(r.version, min) && k > 0 {
            lemma_count_positive(required, row_tags(r.tags_json));
            assert(row_qualifies(r, required, min));
            let n = d.len() as int;
            assert(rows[n] == r);
            if exists|i: int| 0 <= i < g.len() && g[i].0 == r.peer {
                let w = choose|i: int| first_peer(g, r.peer, i);
                assert(exists|i: int| first_peer(g, r.peer, i)) by {
                    let i0 = choose|i: int| 0 <= i < g.len() && g[i].0 == r.peer;
                    lemma_first_peer_exists(g, r.peer, i0);
                }
                let e2 = (r.peer, g[w].1 + k, g[w].2.push(r.capability));
                assert(g2 == g.update(w, e2));
                assert(entry_sourced(e2, rows, required, min)) by {
                    assert forall|j: int| 0 <= j < e2.2.len() implies #[trigger] sourced_at(e2.0, e2.2[j], rows, required, min) by {
                        if j < g[w].2.len() {
                            assert(e2.2[j] == g[w].2[j]);
                            assert(entry_sourced(g[w], rows, required, min));
                            assert(sourced_at(g[w].0, g[w].2[j], rows, required, min));
                        } else {
                            assert(e2.2[j] == r.capability);
                            assert(rows[n] == r);
                        }
                    }
                }
                assert forall|i: int| 0 <= i < g2.len() implies entry_sourced(#[trigger] g2[i], rows, required, min) by {
                    if i != w {
                        assert(g2[i] == g[i]);
                    }
                }
            } else {
                let e2 = (r.peer, k, seq![r.capability]);
                assert(g2 == g.push(e2));
                assert(entry_sourced(e2, rows, required, min)) by {
                    assert forall|j: int| 0 <= j < e2.2.len() implies #[trigger] sourced_at(e2.0, e2.2[j], rows, required, min) by {
                        assert(e2.2[j] == r.capability);
                        assert(rows[n] == r);
                    }
                }
                assert forall|i: int| 0 <= i < g2.len() implies entry_sourced(#[trigger] g2[i], rows, required, min) by {
                    if i < g.len() {
                        assert(g2[i] == g[i]);
                    }
                }
            }
        }
    }
}

proof fn lemma_first_peer_exists(g: MatchEntries, peer: Seq<char>, i: int)
    requires
        0 <= i < g.len(),
        g[i].0 == peer,
    ensures
        exists|j: int| first_peer(g, peer, j),
    decreases i,
{
    if exists|j: int| 0 <= j < i && g[j].0 == peer {
        let j = choose|j: int| 0 <= j < i && g[j].0 == peer;
        lemma_first_peer_exists(g, peer, j);
    } else {
        assert(first_peer(g, peer, i));
    }
}

/// Sorting keeps only entries that were there.
proof fn lemma_sort_members(g: MatchEntries, a: int)
    requires
        0 <= a < sort_by_count(g).len(),
    ensures
        exists|k: int| 0 <= k < g.len() && sort_by_count(g)[a] == g[k],
    decreases g.len(),
{
    lemma_sorted_by_count(g);
    let d = g.drop_last();
    lemma_sorted_by_count(d);
    lemma_insert_members(sort_by_count(d), g.last(), a);
    if sort_by_count(g)[a] == g.last() {
        assert(g[g.len() - 1] == g.last());
    } else {
        let k = choose|k: int| 0 <= k < sort_by_count(d).len() && sort_by_count(g)[a] == sort_by_count(d)[k];
        lemma_sort_members(d, k);
        let k2 = choose|k2: int| 0 <= k2 < d.len() && sort_by_count(d)[k] == d[k2];
        assert(d[k2] == g[k2]);
    }
}

/// A query reports only capabilities of rows that count for it: each listed
/// capability belongs to a row of that peer whose version is not below the
/// floor and whose tags hold a required tag.
pub proof fn lemma_matches_come_from_qualifying_rows(
    rows: Seq<RowInfo>,
    required: Seq<Seq<char>>,
    min: Option<Seq<char>>,
)
    ensures
        forall|i: int| 0 <= i < match_spec(rows, required, min).len() ==> entry_sourced(
            #[trigger] match_spec(rows, required, min)[i],
            rows,
            required,
            min,
        ),
{
    if required.len() > 0 {
        let g = aggregate(rows, required, min);
        lemma_aggregate_sourced(rows, required, min);
        assert forall|i: int| 0 <= i < sort_by_count(g).len() implies entry_sourced(
            #[trigger] sort_by_count(g)[i],
            rows,
            required,
            min,
        ) by {
            lemma_sort_members(g, i);
            let k = choose|k: int| 0 <= k < g.len() && sort_by_count(g)[i] == g[k];
        }
    }
}

} // verus!

verus! {

/// One stored capability with its peer and update time.
#[derive(Debug)]
pub struct CapabilityRecord {
    pub peer_name: String,
    pub capability: NodeCapability,
    pub updated_at: String,
}

pub struct RecordInfo {
    pub peer: Seq<char>,
    pub capability: CapabilityInfo,
    pub updated_at: Seq<char>,
}

pub open spec fn records_view(v: Seq<CapabilityRecord>) -> Seq<RecordInfo> {
    v.map_values(|r: CapabilityRecord| RecordInfo { peer: r.peer_name@, capability: r.capability@, updated_at: r.updated_at@ })
}

/// Per peer: its capabilities in record order and the latest update time.
pub type GroupEntries = Seq<(Seq<char>, Seq<CapabilityInfo>, Seq<char>)>;

pub open spec fn first_group(g: GroupEntries, peer: Seq<char>, i: int) -> bool {
    0 <= i < g.len() && g[i].0 == peer && forall|j: int| 0 <= j < i ==> g[j].0 != peer
}

pub open spec fn add_record(g: GroupEntries, r: RecordInfo) -> GroupEntries {
    if exists|i: int| 0 <= i < g.len() && g[i].0 == r.peer {
        let i = choose|i: int| first_group(g, r.peer, i);
        g.update(
            i,
            (r.peer, g[i].1.push(r.capability), if seq_lt(g[i].2, r.updated_at) { r.updated_at } else { g[i].2 }),
        )
    } else {
        g.push((r.peer, seq![r.capability], r.updated_at))
    }
}

/// Records grouped by peer, in order of each peer's first record.
pub open spec fn group_records(rs: Seq<RecordInfo>) -> GroupEntries
    decreases rs.len(),
{
    if rs.len() == 0 {
        Seq::empty()
    } else {
        add_record(group_records(rs.drop_last()), rs.last())
    }
}

/// No peer has two groups.
pub open spec fn one_group_per_peer(g: GroupEntries) -> bool {
    forall|i: int, j: int| 0 <= i < j < g.len() ==> #[trigger] g[i].0 != #[trigger] g[j].0
}

/// Every record's peer has a group.
pub open spec fn every_record_grouped(g: GroupEntries, rs: Seq<RecordInfo>) -> bool {
    forall|k: int| 0 <= k < rs.len() ==> exists|i: int| 0 <= i < g.len() && g[i].0 == (#[trigger] rs[k]).peer
}

/// A group's time is not below the update time of any record of its peer.
pub open spec fn groups_latest(g: GroupEntries, rs: Seq<RecordInfo>) -> bool {
    forall|i: int, k: int|
        0 <= i < g.len() && 0 <= k < rs.len() && (#[trigger] g[i]).0 == (#[trigger] rs[k]).peer ==> !seq_lt(
            g[i].2,
            rs[k].updated_at,
        )
}

/// A group's time is the update time of one of its peer's records.
pub open spec fn groups_time_recorded(g: GroupEntries, rs: Seq<RecordInfo>) -> bool {
    forall|i: int| 0 <= i < g.len() ==> exists|k: int|
        0 <= k < rs.len() && rs[k].peer == (#[trigger] g[i]).0 && rs[k].updated_at == g[i].2
}

/// The capabilities of `peer`'s records, in record order.
pub open spec fn caps_of(rs: Seq<RecordInfo>, peer: Seq<char>) -> Seq<CapabilityInfo>
    decreases rs.len(),
{
    if rs.len() == 0 {
        Seq::empty()
    } else if rs.last().peer == peer {
        caps_of(rs.drop_last(), peer).push(rs.last().capability)
    } else {
        caps_of(rs.drop_last(), peer)
    }
}

/// Each group holds exactly its peer's capabilities, in record order.
pub open spec fn groups_hold_caps(g: GroupEntries, rs: Seq<RecordInfo>) -> bool {
    forall|i: int| 0 <= i < g.len() ==> (#[trigger] g[i]).1 == caps_of(rs, g[i].0)
}

proof fn lemma_caps_of_absent(rs: Seq<RecordInfo>, peer: Seq<char>)
    requires
        forall|k: int| 0 <= k < rs.len() ==> (#[trigger] rs[k]).peer != peer,
    ensures
        caps_of(rs, peer) == Seq::<CapabilityInfo>::empty(),
    decreases rs.len(),
{
    if rs.len() > 0 {
        let d = rs.drop_last();
        assert forall|k: int| 0 <= k < d.len() implies (#[trigger] d[k]).peer != peer by {
            assert(d[k] == rs[k]);
        }
        lemma_caps_of_absent(d, peer);
        assert(rs.last() == rs[rs.len() - 1]);
    }
}

/// The grouping facts, for groups `g` of records `rs`.
pub open spec fn grouping_facts(g: GroupEntries, rs: Seq<RecordInfo>) -> bool {
    &&& one_group_per_peer(g)
    &&& every_record_grouped(g, rs)
    &&& groups_latest(g, rs)
    &&& groups_time_recorded(g, rs)
}

/// Adding a record to its peer's group keeps every group's capabilities
/// those of its peer's records.
proof fn lemma_caps_after_update(g: GroupEntries, d: Seq<RecordInfo>, r: RecordInfo, idx: int, t: Seq<char>)
    requires
        groups_hold_caps(g, d),
        one_group_per_peer(g),
        0 <= idx < g.len(),
        g[idx].0 == r.peer,
    ensures
        groups_hold_caps(g.update(idx, (r.peer, g[idx].1.push(r.capability), t)), d.push(r)),
{
    let rs = d.push(r);
    let g2 = g.update(idx, (r.peer, g[idx].1.push(r.capability), t));
    assert(rs.drop_last() =~= d);
    assert forall|i: int| 0 <= i < g2.len() implies (#[trigger] g2[i]).1 == caps_of(rs, g2[i].0) by {
        if i == idx {
            assert(g[idx].1 == caps_of(d, r.peer));
        } else {
            assert(g2[i] == g[i]);
            if i < idx {
                assert(g[i].0 != g[idx].0);
            } else {
                assert(g[idx].0 != g[i].0);
            }
            assert(g[i].1 == caps_of(d, g[i].0));
        }
    }
}

/// A record whose peer already has a group keeps the grouping facts.
#[verifier::rlimit(80)]
#[verifier::spinoff_prover]
proof fn lemma_group_step_existing(g: GroupEntries, d: Seq<RecordInfo>, r: RecordInfo)
    requires
        grouping_facts(g, d),
        exists|i: int| 0 <= i < g.len() && g[i].0 == r.peer,
    ensures
        grouping_facts(add_record(g, r), d.push(r)),
{
    let rs = d.push(r);
    let n = d.len() as int;
    let g2 = add_record(g, r);
    assert forall|k: int| 0 <= k < n implies #[trigger] rs[k] == d[k] by {}
    assert(rs[n] == r);
    let w = choose|i: int| 0 <= i < g.len() && g[i].0 == r.peer;
    assert(first_group(g, r.peer, w)) by {
        assert forall|j: int| 0 <= j < w implies g[j].0 != r.peer by {
            assert(g[j].0 != g[w].0);
        }
    }
    let idx = choose|i: int| first_group(g, r.peer, i);
    assert(idx == w) by {
        if idx < w {
            assert(g[idx].0 != g[w].0);
        } else if w < idx {
            assert(g[w].0 != g[idx].0);
        }
    }
    let old_t = g[idx].2;
    let new_t = if seq_lt(old_t, r.updated_at) { r.updated_at } else { old_t };
    assert(g2 == g.update(idx, (r.peer, g[idx].1.push(r.capability), new_t)));
    assert(!seq_lt(new_t, old_t) && !seq_lt(new_t, r.updated_at)) by {
        crate::text::lemma_lt_irreflexive(old_t);
        crate::text::lemma_lt_irreflexive(r.updated_at);
        crate::text::lemma_lt_total(old_t, r.updated_at);
        if seq_lt(old_t, r.updated_at) {
            crate::text::lemma_lt_asymmetric(old_t, r.updated_at);
        }
    }
    assert forall|i: int| 0 <= i < g2.len() implies #[trigger] g2[i].0 == g[i].0 by {}
    assert(one_group_per_peer(g2)) by {
        assert forall|i: int, j: int| 0 <= i < j < g2.len() implies #[trigger] g2[i].0 != #[trigger] g2[j].0 by {
            assert(g2[i].0 == g[i].0);
            assert(g2[j].0 == g[j].0);
            assert(g[i].0 != g[j].0);
        }
    }
    assert(every_record_grouped(g2, rs)) by {
        assert forall|k: int| 0 <= k < rs.len() implies exists|i: int| 0 <= i < g2.len() && g2[i].0 == (#[trigger] rs[k]).peer by {
            if k < n {
                assert(rs[k] == d[k]);
                let i = choose|i: int| 0 <= i < g.len() && g[i].0 == d[k].peer;
                assert(g2[i].0 == g[i].0);
            } else {
                assert(g2[idx].0 == r.peer);
            }
        }
    }
    assert(groups_latest(g2, rs)) by {
        assert forall|i: int, k: int|
            0 <= i < g2.len() && 0 <= k < rs.len() && (#[trigger] g2[i]).0 == (#[trigger] rs[k]).peer implies !seq_lt(
            g2[i].2,
            rs[k].updated_at,
        ) by {
            if i == idx {
                if k < n {
                    assert(rs[k] == d[k]);
                    assert(g[idx].0 == d[k].peer);
                    assert(!seq_lt(g[idx].2, d[k].updated_at));
                    crate::text::lemma_not_lt_transitive(new_t, old_t, d[k].updated_at);
                }
            } else {
                assert(g2[i] == g[i]);
                if k < n {
                    assert(rs[k] == d[k]);
                    assert(g[i].0 == d[k].peer);
                } else {
                    assert(g[i].0 == r.peer);
                    if i < idx {
                        assert(g[i].0 != g[idx].0);
                    } else {
                        assert(g[idx].0 != g[i].0);
                    }
                }
            }
        }
    }
    assert(groups_time_recorded(g2, rs)) by {
        assert forall|i: int| 0 <= i < g2.len() implies exists|k: int|
            0 <= k < rs.len() && rs[k].peer == (#[trigger] g2[i]).0 && rs[k].updated_at == g2[i].2 by {
            if i == idx && seq_lt(old_t, r.updated_at) {
                assert(rs[n].peer == g2[i].0 && rs[n].updated_at == g2[i].2);
            } else {
                assert(g2[i].0 == g[i].0 && g2[i].2 == g[i].2);
                let k = choose|k: int| 0 <= k < d.len() && d[k].peer == (#[trigger] g[i]).0 && d[k].updated_at == g[i].2;
                assert(rs[k] == d[k]);
            }
        }
    }
}

/// A record whose peer has no group yet keeps the grouping facts.
#[verifier::rlimit(40)]
#[verifier::spinoff_prover]
proof fn lemma_group_step_new(g: GroupEntries, d: Seq<RecordInfo>, r: RecordInfo)
    requires
        grouping_facts(g, d),
        !(exists|i: int| 0 <= i < g.len() && g[i].0 == r.peer),
    ensures
        grouping_facts(add_record(g, r), d.push(r)),
{
    let rs = d.push(r);
    let n = d.len() as int;
    let g2 = add_record(g, r);
    assert forall|k: int| 0 <= k < n implies #[trigger] rs[k] == d[k] by {}
    assert(rs[n] == r);
    let e = (r.peer, seq![r.capability], r.updated_at);
    assert(g2 == g.push(e));
    let m = g.len() as int;
    assert forall|i: int| 0 <= i < m implies #[trigger] g2[i] == g[i] by {}
    assert(one_group_per_peer(g2)) by {
        assert forall|i: int, j: int| 0 <= i < j < g2.len() implies #[trigger] g2[i].0 != #[trigger] g2[j].0 by {
            assert(g2[i] == g[i]);
            if j < m {
                assert(g2[j] == g[j]);
            }
        }
    }
    assert(every_record_grouped(g2, rs)) by {
        assert forall|k: int| 0 <= k < rs.len() implies exists|i: int| 0 <= i < g2.len() && g2[i].0 == (#[trigger] rs[k]).peer by {
            if k < n {
                assert(rs[k] == d[k]);
                let i = choose|i: int| 0 <= i < g.len() && g[i].0 == d[k].peer;
                assert(g2[i] == g[i]);
            } else {
                assert(g2[m].0 == r.peer);
            }
        }
    }
    assert(groups_latest(g2, rs)) by {
        assert forall|i: int, k: int|
            0 <= i < g2.len() && 0 <= k < rs.len() && (#[trigger] g2[i]).0 == (#[trigger] rs[k]).peer implies !seq_lt(
            g2[i].2,
            rs[k].updated_at,
        ) by {
            if i < m {
                assert(g2[i] == g[i]);
                if k < n {
                    assert(rs[k] == d[k]);
                    assert(g[i].0 == d[k].peer);
                }
            } else {
                if k < n {
                    assert(rs[k] == d[k]);
                    let j = choose|j: int| 0 <= j < g.len() && g[j].0 == (#[trigger] d[k]).peer;
                    assert(g[j].0 == r.peer);
                } else {
                    crate::text::lemma_lt_irreflexive(r.updated_at);
                }
            }
        }
    }
    assert(groups_time_recorded(g2, rs)) by {
        assert forall|i: int| 0 <= i < g2.len() implies exists|k: int|
            0 <= k < rs.len() && rs[k].peer == (#[trigger] g2[i]).0 && rs[k].updated_at == g2[i].2 by {
            if i < m {
                assert(g2[i] == g[i]);
                let k = choose|k: int| 0 <= k < d.len() && d[k].peer == (#[trigger] g[i]).0 && d[k].updated_at == g[i].2;
                assert(rs[k] == d[k]);
            } else {
                assert(rs[n].peer == g2[i].0 && rs[n].updated_at == g2[i].2);
            }
        }
    }
}

/// A record whose peer already has a group keeps each group's
/// capabilities those of its peer's records.
proof fn lemma_group_caps_existing(g: GroupEntries, d: Seq<RecordInfo>, r: RecordInfo)
    requires
        groups_hold_caps(g, d),
        one_group_per_peer(g),
        exists|i: int| 0 <= i < g.len() && g[i].0 == r.peer,
    ensures
        groups_hold_caps(add_record(g, r), d.push(r)),
{
    let w = choose|i: int| 0 <= i < g.len() && g[i].0 == r.peer;
    assert(first_group(g, r.peer, w)) by {
        assert forall|j: int| 0 <= j < w implies g[j].0 != r.peer by {
            assert(g[j].0 != g[w].0);
        }
    }
    let idx = choose|i: int| first_group(g, r.peer, i);
    assert(idx == w) by {
        if idx < w {
            assert(g[idx].0 != g[w].0);
        } else if w < idx {
            assert(g[w].0 != g[idx].0);
        }
    }
    let old_t = g[idx].2;
    let new_t = if seq_lt(old_t, r.updated_at) { r.updated_at } else { old_t };
    lemma_caps_after_update(g, d, r, idx, new_t);
}

/// A record whose peer has no group yet starts a group holding its
/// capability alone, and leaves the other groups' capabilities as they were.
proof fn lemma_group_caps_new(g: GroupEntries, d: Seq<RecordInfo>, r: RecordInfo)
    requires
        groups_hold_caps(g, d),
        every_record_grouped(g, d),
        !(exists|i: int| 0 <= i < g.len() && g[i].0 == r.peer),
    ensures
        groups_hold_caps(add_record(g, r), d.push(r)),
{
    let rs = d.push(r);
    let g2 = add_record(g, r);
    let m = g.len() as int;
    assert(g2 == g.push((r.peer, seq![r.capability], r.updated_at)));
    assert forall|i: int| 0 <= i < m implies #[trigger] g2[i] == g[i] by {}
    assert(groups_hold_caps(g2, rs)) by {
        assert(rs.drop_last() =~= d);
        assert forall|i: int| 0 <= i < g2.len() implies (#[trigger] g2[i]).1 == caps_of(rs, g2[i].0) by {
            if i < m {
                assert(g2[i] == g[i]);
                assert(g[i].0 != r.peer);
                assert(g[i].1 == caps_of(d, g[i].0));
            } else {
                assert forall|k: int| 0 <= k < d.len() implies (#[trigger] d[k]).peer != r.peer by {
                    if d[k].peer == r.peer {
                        let j = choose|j: int| 0 <= j < g.len() && g[j].0 == (#[trigger] d[k]).peer;
                        assert(g[j].0 == r.peer);
                    }
                }
                lemma_caps_of_absent(d, r.peer);
                assert(caps_of(rs, r.peer) =~= seq![r.capability]);
            }
        }
    }
}

/// Grouping records by peer gives one group per peer, a group for every
/// record holding exactly that peer's capabilities in record order, and as
/// each group's time the latest update time among its peer's records.
pub proof fn lemma_groups_keep_latest_time(rs: Seq<RecordInfo>)
    ensures
        groups_hold_caps(group_records(rs), rs),
        one_group_per_peer(group_records(rs)),
        every_record_grouped(group_records(rs), rs),
        groups_latest(group_records(rs), rs),
        groups_time_recorded(group_records(rs), rs),
    decreases rs.len(),
{
    if rs.len() > 0 {
        let d = rs.drop_last();
        let r = rs.last();
        lemma_groups_keep_latest_time(d);
        let g = group_records(d);
        assert(rs =~= d.push(r));
        if exists|i: int| 0 <= i < g.len() && g[i].0 == r.peer {
            lemma_group_step_existing(g, d, r);
            lemma_group_caps_existing(g, d, r);
        } else {
            lemma_group_step_new(g, d, r);
            lemma_group_caps_new(g, d, r);
        }
    }
}

pub open spec fn caps_view(v: Seq<NodeCapability>) -> Seq<CapabilityInfo> {
    v.map_values(|c: NodeCapability| c@)
}

pub open spec fn group_view(n: NodeCapabilities) -> (Seq<char>, Seq<CapabilityInfo>, Seq<char>) {
    (n.peer_name@, caps_view(n.capabilities@), n.last_updated@)
}

pub open spec fn groups_view(v: Seq<NodeCapabilities>) -> GroupEntries {
    v.map_values(|n: NodeCapabilities| group_view(n))
}

fn find_group(g: &Vec<NodeCapabilities>, peer: &str) -> (r: Option<usize>)
    ensures
        match r {
            Some(i) => first_group(groups_view(g@), peer@, i as int),
            None => !(exists|i: int| 0 <= i < g@.len() && groups_view(g@)[i].0 == peer@),
        },
{
    let pc = chars_of(peer);
    let mut i: usize = 0;
    while i < g.len()
        invariant
            i <= g@.len(),
            pc@ == peer@,
            forall|j: int| 0 <= j < i ==> groups_view(g@)[j].0 != peer@,
        decreases g.len() - i,
    {
        let c = chars_of(g[i].peer_name.as_str());
        if chars_eq(&c, &pc) {
            return Some(i);
        }
        i = i + 1;
    }
    None
}

/// All capabilities grouped by peer (in order of each peer's first record),
/// each group carrying its latest update time.
pub fn group_capabilities(records: &Vec<CapabilityRecord>) -> (r: Vec<NodeCapabilities>)
    ensures
        groups_view(r@) == group_records(records_view(records@)),
{
    let ghost rv = records_view(records@);
    let mut groups: Vec<NodeCapabilities> = Vec::new();
    let mut i: usize = 0;
    assert(rv.take(0) =~= Seq::<RecordInfo>::empty());
    assert(groups_view(groups@) =~= Seq::<(Seq<char>, Seq<CapabilityInfo>, Seq<char>)>::empty());
    while i < records.len()
        invariant
            i <= records@.len(),
            rv == records_view(records@),
            groups_view(groups@) == group_records(rv.take(i as int)),
        decreases records.len() - i,
    {
        assert(rv.take(i + 1).drop_last() == rv.take(i as int));
        let rec = &records[i];
        let ghost ri = RecordInfo { peer: rec.peer_name@, capability: rec.capability@, updated_at: rec.updated_at@ };
        assert(rv.take(i + 1).last() == ri);
        let ghost g0 = groups_view(groups@);
        let pos = find_group(&groups, rec.peer_name.as_str());
        if pos.is_some() {
            let j = pos.unwrap();
            assert(first_group(g0, rec.peer_name@, j as int));
            let ghost gb = groups@;
            let mut e = groups.remove(j);
            assert(e == gb[j as int]);
            let ghost caps0 = e.capabilities@;
            e.capabilities.push(rec.capability.duplicate());
            assert(caps_view(e.capabilities@) =~= caps_view(caps0).push(rec.capability@));
            let newer = crate::peers_types::str_below(e.last_updated.as_str(), &chars_of(rec.updated_at.as_str()));
            if newer {
                e.last_updated = rec.updated_at.clone();
            }
            let ghost e_final = e;
            groups.insert(j, e);
            assert(groups@ =~= gb.update(j as int, e_final));
            proof {
                let jj = choose|x: int| first_group(g0, rec.peer_name@, x);
                assert(jj == j);
                assert(groups_view(groups@) =~= add_record(g0, ri));
            }
        } else {
            let mut caps: Vec<NodeCapability> = Vec::new();
            caps.push(rec.capability.duplicate());
            groups.push(NodeCapabilities { peer_name: rec.peer_name.clone(), capabilities: caps, last_updated: rec.updated_at.clone() });
            proof {
                assert(caps_view(caps@) =~= seq![rec.capability@]);
                assert(groups_view(groups@) =~= add_record(g0, ri));
            }
        }
        i = i + 1;
    }
    assert(rv.take(records@.len() as int) == rv);
    groups
}

} // verus!

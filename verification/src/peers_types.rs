//! Peer configuration types of the `peers.conf` INI format.

use vstd::prelude::*;
use crate::numtext::{decimal, u64_text};
use crate::text::{
    chars_eq_str, chars_lt, chars_of, extend_str, is_ws, lemma_lt_asymmetric,
    lemma_lt_irreflexive, lemma_lt_total, lemma_lt_transitive, lemma_trim_trimmed, lower,
    lower_chars, seq_lt, string_of, sub_chars, trim, trim_chars, is_trimmed,
};

verus! {

/// `std::io::Error`, carried by the I/O variant of [`PeersError`].
#[verifier::external_type_specification]
#[verifier::external_body]
pub struct ExIoError(std::io::Error);

/// `std::io::Error::to_string`: the platform's wording of the error, which
/// no clause states.
#[verifier::external_body]
pub(crate) fn io_error_text(e: &std::io::Error) -> (s: String) {
    e.to_string()
}

#[derive(Debug)]
pub enum PeersError {
    Io(std::io::Error),
    MissingField { peer: String, field: String },
    NotFound(String),
    Parse { line: usize, msg: String },
}

/// What a [`PeersError`] says, as plain values.
pub enum PeersFault {
    Io,
    MissingField { peer: Seq<char>, field: Seq<char> },
    NotFound(Seq<char>),
    Parse { line: nat, msg: Seq<char> },
}

impl View for PeersError {
    type V = PeersFault;

    open spec fn view(&self) -> PeersFault {
        match self {
            PeersError::Io(_) => PeersFault::Io,
            PeersError::MissingField { peer, field } => PeersFault::MissingField {
                peer: peer@,
                field: field@,
            },
            PeersError::NotFound(n) => PeersFault::NotFound(n@),
            PeersError::Parse { line, msg } => PeersFault::Parse { line: *line as nat, msg: msg@ },
        }
    }
}

impl PeersError {
    /// The error's message, as its `Display` form reads.
    pub fn message(&self) -> (s: String)
        ensures
            match self@ {
                PeersFault::MissingField { peer, field } => s@ == "missing required field '"@
                    + field + "' in peer '"@ + peer + "'"@,
                PeersFault::NotFound(n) => s@ == "peer '"@ + n + "' not found"@,
                PeersFault::Parse { line, msg } => s@ == "parse error at line "@ + decimal(line)
                    + ": "@ + msg,
                PeersFault::Io => "I/O error: "@.is_prefix_of(s@),
            },
    {
        let mut out: Vec<char> = Vec::new();
        match self {
            PeersError::Io(e) => {
                extend_str(&mut out, "I/O error: ");
                let t = io_error_text(e);
                extend_str(&mut out, t.as_str());
            },
            PeersError::MissingField { peer, field } => {
                extend_str(&mut out, "missing required field '");
                extend_str(&mut out, field.as_str());
                extend_str(&mut out, "' in peer '");
                extend_str(&mut out, peer.as_str());
                extend_str(&mut out, "'");
            },
            PeersError::NotFound(n) => {
                extend_str(&mut out, "peer '");
                extend_str(&mut out, n.as_str());
                extend_str(&mut out, "' not found");
            },
            PeersError::Parse { line, msg } => {
                extend_str(&mut out, "parse error at line ");
                let t = u64_text(*line as u64);
                extend_str(&mut out, t.as_str());
                extend_str(&mut out, ": ");
                extend_str(&mut out, msg.as_str());
            },
        }
        string_of(&out)
    }
}

// ------------------------------------------------------------ canonical names

/// The name ends with `.local` in any ASCII case.
pub open spec fn ends_with_local(t: Seq<char>) -> bool {
    t.len() >= 6 && lower(t.subrange(t.len() - 6, t.len() as int)) == ".local"@
}

/// Canonical identity of a peer name: trimmed, one trailing `.local` (any
/// ASCII case) removed, ASCII-lowercased.
pub open spec fn canonical(raw: Seq<char>) -> Seq<char> {
    let t = trim(raw);
    let stripped = if ends_with_local(t) { t.take(t.len() - 6) } else { t };
    lower(stripped)
}

/// Canonicalize a peer/host name so duplicates collapse to a single identity:
/// trim, strip a trailing `.local` in any case, lowercase.
pub fn canonical_peer_name(raw: &str) -> (r: String)
    ensures
        r@ == canonical(raw@),
{
    let rc = chars_of(raw);
    let t = trim_chars(&rc);
    let n = t.len();
    let stripped = if n >= 6 {
        let tail = sub_chars(&t, n - 6, n);
        let tail_lower = lower_chars(&tail);
        if chars_eq_str(&tail_lower, ".local") {
            sub_chars(&t, 0, n - 6)
        } else {
            t
        }
    } else {
        t
    };
    let low = lower_chars(&stripped);
    string_of(&low)
}

/// A trimmed name that does not end in `.local` and the same name with
/// `.local` (in any ASCII case) appended have one canonical identity: the
/// name, lowercased.
pub proof fn lemma_local_suffix_collapses(x: Seq<char>, suffix: Seq<char>)
    requires
        is_trimmed(x),
        !ends_with_local(x),
        lower(suffix) == ".local"@,
    ensures
        canonical(x) == lower(x),
        canonical(x + suffix) == lower(x),
{
    reveal_strlit(".local");
    lemma_trim_trimmed(x);
    let y = x + suffix;
    assert(".local"@.len() == 6);
    assert(lower(suffix).len() == suffix.len());
    assert(suffix.len() == 6);
    assert(!is_ws(suffix[0])) by {
        assert(lower(suffix)[0] == '.');
    }
    assert(!is_ws(suffix[5])) by {
        assert(lower(suffix)[5] == 'l');
    }
    assert(y[y.len() - 1] == suffix[5]);
    if x.len() > 0 {
        assert(y[0] == x[0]);
    } else {
        assert(y[0] == suffix[0]);
    }
    assert(is_trimmed(y));
    lemma_trim_trimmed(y);
    assert(y.subrange(y.len() - 6, y.len() as int) == suffix);
    assert(y.take(y.len() - 6) == x);
}

// ------------------------------------------------------------ peer config

#[derive(Debug, Clone, PartialEq)]
pub struct PeerConfig {
    pub ssh_alias: String,
    pub user: String,
    pub os: String,
    pub tailscale_ip: String,
    pub dns_name: String,
    pub capabilities: Vec<String>,
    pub role: String,
    pub status: String,
    pub thunderbolt_ip: Option<String>,
    pub lan_ip: Option<String>,
    pub mac_address: Option<String>,
    pub gh_account: Option<String>,
    pub runners: Option<u32>,
    pub runner_paths: Option<String>,
    /// Path to the repository checkout on this node.
    pub repo_path: Option<String>,
    pub aliases: Vec<String>,
}

/// A peer's configuration as plain values.
pub struct PeerInfo {
    pub ssh_alias: Seq<char>,
    pub user: Seq<char>,
    pub os: Seq<char>,
    pub tailscale_ip: Seq<char>,
    pub dns_name: Seq<char>,
    pub capabilities: Seq<Seq<char>>,
    pub role: Seq<char>,
    pub status: Seq<char>,
    pub thunderbolt_ip: Option<Seq<char>>,
    pub lan_ip: Option<Seq<char>>,
    pub mac_address: Option<Seq<char>>,
    pub gh_account: Option<Seq<char>>,
    pub runners: Option<u32>,
    pub runner_paths: Option<Seq<char>>,
    pub repo_path: Option<Seq<char>>,
    pub aliases: Seq<Seq<char>>,
}

pub open spec fn opt_view(o: Option<String>) -> Option<Seq<char>> {
    match o {
        Some(s) => Some(s@),
        None => None,
    }
}

pub open spec fn strings_view(v: Seq<String>) -> Seq<Seq<char>> {
    v.map_values(|s: String| s@)
}

impl View for PeerConfig {
    type V = PeerInfo;

    open spec fn view(&self) -> PeerInfo {
        PeerInfo {
            ssh_alias: self.ssh_alias@,
            user: self.user@,
            os: self.os@,
            tailscale_ip: self.tailscale_ip@,
            dns_name: self.dns_name@,
            capabilities: strings_view(self.capabilities@),
            role: self.role@,
            status: self.status@,
            thunderbolt_ip: opt_view(self.thunderbolt_ip),
            lan_ip: opt_view(self.lan_ip),
            mac_address: opt_view(self.mac_address),
            gh_account: opt_view(self.gh_account),
            runners: self.runners,
            runner_paths: opt_view(self.runner_paths),
            repo_path: opt_view(self.repo_path),
            aliases: strings_view(self.aliases@),
        }
    }
}

} // verus!

verus! {

// ------------------------------------------------------------ peer map

/// Entries of a map of peers by name, in ascending name order.
pub type PeerEntries = Seq<(Seq<char>, PeerInfo)>;

pub open spec fn keys_sorted(s: PeerEntries) -> bool {
    forall|i: int, j: int| 0 <= i < j < s.len() ==> seq_lt(#[trigger] s[i].0, #[trigger] s[j].0)
}

/// The value under `k`.
pub open spec fn map_get(s: PeerEntries, k: Seq<char>) -> Option<PeerInfo>
    decreases s.len(),
{
    if s.len() == 0 {
        None
    } else if s[0].0 == k {
        Some(s[0].1)
    } else {
        map_get(s.drop_first(), k)
    }
}

/// `k` bound to `v`, replacing an earlier value, keeping name order.
pub open spec fn map_upsert(s: PeerEntries, k: Seq<char>, v: PeerInfo) -> PeerEntries
    decreases s.len(),
{
    if s.len() == 0 {
        seq![(k, v)]
    } else if seq_lt(k, s[0].0) {
        seq![(k, v)] + s
    } else if s[0].0 == k {
        seq![(k, v)] + s.drop_first()
    } else {
        seq![s[0]] + map_upsert(s.drop_first(), k, v)
    }
}

/// The entry under `k` removed.
pub open spec fn map_remove(s: PeerEntries, k: Seq<char>) -> PeerEntries
    decreases s.len(),
{
    if s.len() == 0 {
        s
    } else if s[0].0 == k {
        s.drop_first()
    } else {
        seq![s[0]] + map_remove(s.drop_first(), k)
    }
}

/// The first entry under `k` is what a lookup of `k` finds.
pub proof fn lemma_get_found(s: PeerEntries, k: Seq<char>, i: int)
    requires
        0 <= i < s.len(),
        s[i].0 == k,
        forall|j: int| 0 <= j < i ==> s[j].0 != k,
    ensures
        map_get(s, k) == Some(s[i].1),
    decreases i,
{
    if i > 0 {
        lemma_get_found(s.drop_first(), k, i - 1);
    }
}

/// A key under no entry is not found.
pub proof fn lemma_get_absent(s: PeerEntries, k: Seq<char>)
    requires
        forall|j: int| 0 <= j < s.len() ==> s[j].0 != k,
    ensures
        map_get(s, k) is None,
    decreases s.len(),
{
    if s.len() > 0 {
        lemma_get_absent(s.drop_first(), k);
    }
}

/// Upsert at the first position whose key is not below `k`.
pub proof fn lemma_upsert_at(s: PeerEntries, k: Seq<char>, v: PeerInfo, i: int)
    requires
        keys_sorted(s),
        0 <= i <= s.len(),
        forall|j: int| 0 <= j < i ==> seq_lt(#[trigger] s[j].0, k),
        i < s.len() ==> !seq_lt(s[i].0, k),
    ensures
        i < s.len() && s[i].0 == k ==> map_upsert(s, k, v) == s.take(i) + seq![(k, v)] + s.skip(i + 1),
        !(i < s.len() && s[i].0 == k) ==> map_upsert(s, k, v) == s.take(i) + seq![(k, v)] + s.skip(i),
    decreases i,
{
    if i == 0 {
        if s.len() > 0 {
            lemma_lt_total(k, s[0].0);
        }
        assert(s.take(0) + seq![(k, v)] + s.skip(0) == seq![(k, v)] + s);
        if s.len() > 0 {
            assert(s.take(0) + seq![(k, v)] + s.skip(1) == seq![(k, v)] + s.drop_first());
        }
    } else {
        lemma_lt_asymmetric(s[0].0, k);
        lemma_lt_irreflexive(k);
        let t = s.drop_first();
        assert forall|a: int, b: int| 0 <= a < b < t.len() implies seq_lt(#[trigger] t[a].0, #[trigger] t[b].0) by {
            assert(t[a] == s[a + 1]);
            assert(t[b] == s[b + 1]);
        }
        assert forall|j: int| 0 <= j < i - 1 implies seq_lt(#[trigger] t[j].0, k) by {
            assert(t[j] == s[j + 1]);
        }
        lemma_upsert_at(t, k, v, i - 1);
        if i < s.len() {
            assert(seq![s[0]] + (t.take(i - 1) + seq![(k, v)] + t.skip(i)) == s.take(i) + seq![(k, v)] + s.skip(i + 1));
        }
        assert(seq![s[0]] + (t.take(i - 1) + seq![(k, v)] + t.skip(i - 1)) == s.take(i) + seq![(k, v)] + s.skip(i));
    }
}

/// Removing the first entry under `k` found at `i`.
pub proof fn lemma_remove_at(s: PeerEntries, k: Seq<char>, i: int)
    requires
        0 <= i < s.len(),
        s[i].0 == k,
        forall|j: int| 0 <= j < i ==> s[j].0 != k,
    ensures
        map_remove(s, k) == s.remove(i),
    decreases i,
{
    if i > 0 {
        lemma_remove_at(s.drop_first(), k, i - 1);
        assert(seq![s[0]] + s.drop_first().remove(i - 1) == s.remove(i));
    }
}

/// Removing a key under no entry changes nothing.
pub proof fn lemma_remove_absent(s: PeerEntries, k: Seq<char>)
    requires
        forall|j: int| 0 <= j < s.len() ==> s[j].0 != k,
    ensures
        map_remove(s, k) == s,
    decreases s.len(),
{
    if s.len() > 0 {
        lemma_remove_absent(s.drop_first(), k);
        assert(seq![s[0]] + s.drop_first() == s);
    }
}

/// `a < b` for a string and a character sequence.
pub fn str_below(a: &str, b: &Vec<char>) -> (r: bool)
    ensures
        r == seq_lt(a@, b@),
{
    let ac = chars_of(a);
    chars_lt(&ac, b)
}

/// Peers by name, kept in ascending name order with one entry per name.
#[derive(Debug)]
pub struct PeerMap {
    entries: Vec<(String, PeerConfig)>,
}

pub open spec fn entry_view(e: (String, PeerConfig)) -> (Seq<char>, PeerInfo) {
    (e.0@, e.1@)
}

impl View for PeerMap {
    type V = PeerEntries;

    closed spec fn view(&self) -> PeerEntries {
        self.entries@.map_values(|e: (String, PeerConfig)| entry_view(e))
    }
}

impl PeerMap {
    #[verifier::type_invariant]
    closed spec fn wf(self) -> bool {
        keys_sorted(self@)
    }

    pub fn new() -> (m: Self)
        ensures
            m@ == Seq::<(Seq<char>, PeerInfo)>::empty(),
    {
        let m = PeerMap { entries: Vec::new() };
        assert(m@ =~= Seq::<(Seq<char>, PeerInfo)>::empty());
        m
    }

    pub fn len(&self) -> (n: usize)
        ensures
            n == self@.len(),
    {
        self.entries.len()
    }

    pub fn is_empty(&self) -> (b: bool)
        ensures
            b == (self@.len() == 0),
    {
        self.entries.len() == 0
    }

    /// The name and configuration at position `i` in name order.
    pub fn entry(&self, i: usize) -> (r: (&str, &PeerConfig))
        requires
            i < self@.len(),
        ensures
            r.0@ == self@[i as int].0,
            r.1@ == self@[i as int].1,
    {
        let e = &self.entries[i];
        (e.0.as_str(), &e.1)
    }

    /// Position of `key`, if present.
    pub fn position(&self, key: &Vec<char>) -> (r: Option<usize>)
        ensures
            keys_sorted(self@),
            match r {
                Some(i) => i < self@.len() && self@[i as int].0 == key@ && map_get(self@, key@) == Some(
                    self@[i as int].1,
                ) && forall|j: int| 0 <= j < i ==> self@[j].0 != key@,
                None => map_get(self@, key@) is None && forall|j: int|
                    0 <= j < self@.len() ==> self@[j].0 != key@,
            },
    {
        proof {
            use_type_invariant(self);
        }
        let mut i: usize = 0;
        while i < self.entries.len()
            invariant
                i <= self@.len(),
                self@.len() == self.entries@.len(),
                keys_sorted(self@),
                forall|j: int| 0 <= j < i ==> self@[j].0 != key@,
            decreases self.entries.len() - i,
        {
            let kc = chars_of(self.entries[i].0.as_str());
            assert(self@[i as int] == entry_view(self.entries@[i as int]));
            if crate::text::chars_eq(&kc, key) {
                proof {
                    lemma_get_found(self@, key@, i as int);
                }
                return Some(i);
            }
            i = i + 1;
        }
        proof {
            lemma_get_absent(self@, key@);
        }
        None
    }

    /// The configuration under `key`.
    pub fn get(&self, key: &str) -> (r: Option<&PeerConfig>)
        ensures
            match r {
                Some(p) => map_get(self@, key@) == Some(p@),
                None => map_get(self@, key@) is None,
            },
    {
        let kc = chars_of(key);
        match self.position(&kc) {
            Some(i) => {
                assert(self@[i as int] == entry_view(self.entries@[i as int]));
                Some(&self.entries[i].1)
            },
            None => None,
        }
    }

    pub fn contains_key(&self, key: &str) -> (b: bool)
        ensures
            b == map_get(self@, key@) is Some,
    {
        self.get(key).is_some()
    }

    /// Binds `key` to `value`, replacing any earlier value.
    pub fn insert(&mut self, key: String, value: PeerConfig)
        ensures
            final(self)@ == map_upsert(old(self)@, key@, value@),
    {
        proof {
            use_type_invariant(&*self);
        }
        let kc = chars_of(key.as_str());
        let mut i: usize = 0;
        let ghost s = self@;
        while i < self.entries.len() && str_below(self.entries[i].0.as_str(), &kc)
            invariant
                i <= s.len(),
                s == self@,
                s.len() == self.entries@.len(),
                keys_sorted(s),
                forall|j: int| 0 <= j < i ==> seq_lt(#[trigger] s[j].0, kc@),
            decreases self.entries.len() - i,
        {
            assert(s[i as int] == entry_view(self.entries@[i as int]));
            i = i + 1;
        }
        assert(i < s.len() ==> s[i as int] == entry_view(self.entries@[i as int]));
        proof {
            lemma_upsert_at(s, kc@, value@, i as int);
        }
        let mut entries = Vec::new();
        std::mem::swap(&mut entries, &mut self.entries);
        let ghost new_entry = (kc@, value@);
        let same = if i < entries.len() {
            let ec = chars_of(entries[i].0.as_str());
            crate::text::chars_eq(&ec, &kc)
        } else {
            false
        };
        if same {
            entries.remove(i);
        }
        entries.insert(i, (key, value));
        proof {
            let r = entries@.map_values(|e: (String, PeerConfig)| entry_view(e));
            if same {
                assert(r =~= s.take(i as int) + seq![new_entry] + s.skip(i + 1));
            } else {
                assert(r =~= s.take(i as int) + seq![new_entry] + s.skip(i as int));
            }
            assert forall|a: int, b: int| 0 <= a < b < r.len() implies seq_lt(#[trigger] r[a].0, #[trigger] r[b].0) by {
                if a < i && b == i {
                } else if a < i && b > i {
                    if !same {
                        assert(!seq_lt(s[i as int].0, kc@));
                    }
                } else if a == i && b > i {
                    let sb = if same { b } else { b - 1 };
                    assert(r[b] == s[sb]);
                    if same {
                        assert(seq_lt(s[i as int].0, s[sb].0));
                    } else {
                        assert(!seq_lt(s[i as int].0, kc@));
                        lemma_lt_total(s[i as int].0, kc@);
                        if sb > i {
                            lemma_lt_transitive(kc@, s[i as int].0, s[sb].0);
                        }
                    }
                } else if a > i {
                    let sa = if same { a } else { a - 1 };
                    let sb = if same { b } else { b - 1 };
                    assert(r[a] == s[sa]);
                    assert(r[b] == s[sb]);
                }
            }
        }
        self.entries = entries;
    }

    /// Removes the entry under `key` and returns its configuration.
    pub fn remove(&mut self, key: &str) -> (r: Option<PeerConfig>)
        ensures
            final(self)@ == map_remove(old(self)@, key@),
            match r {
                Some(p) => map_get(old(self)@, key@) == Some(p@),
                None => map_get(old(self)@, key@) is None,
            },
    {
        proof {
            use_type_invariant(&*self);
        }
        let kc = chars_of(key);
        let ghost s = self@;
        match self.position(&kc) {
            Some(i) => {
                proof {
                    lemma_remove_at(s, key@, i as int);
                }
                let mut entries = Vec::new();
                std::mem::swap(&mut entries, &mut self.entries);
                let e = entries.remove(i);
                proof {
                    let r = entries@.map_values(|e: (String, PeerConfig)| entry_view(e));
                    assert(r =~= s.remove(i as int));
                    assert forall|a: int, b: int| 0 <= a < b < r.len() implies seq_lt(#[trigger] r[a].0, #[trigger] r[b].0) by {
                        let sa = if a < i { a } else { a + 1 };
                        let sb = if b < i { b } else { b + 1 };
                        assert(r[a] == s[sa]);
                        assert(r[b] == s[sb]);
                    }
                    assert(entry_view(e) == s[i as int]);
                }
                self.entries = entries;
                Some(e.1)
            },
            None => {
                proof {
                    lemma_remove_absent(s, key@);
                }
                None
            },
        }
    }

    /// Sets the role of the peer at position `i`.
    pub fn set_role_at(&mut self, i: usize, role: String)
        requires
            i < old(self)@.len(),
        ensures
            final(self)@ == old(self)@.update(
                i as int,
                (old(self)@[i as int].0, PeerInfo { role: role@, ..old(self)@[i as int].1 }),
            ),
    {
        proof {
            use_type_invariant(&*self);
        }
        let ghost s = self@;
        let mut entries = Vec::new();
        std::mem::swap(&mut entries, &mut self.entries);
        let mut e = entries.remove(i);
        e.1.role = role;
        entries.insert(i, e);
        proof {
            let r = entries@.map_values(|e: (String, PeerConfig)| entry_view(e));
            assert(r =~= s.update(i as int, (s[i as int].0, PeerInfo { role: role@, ..s[i as int].1 })));
            assert forall|a: int, b: int| 0 <= a < b < r.len() implies seq_lt(#[trigger] r[a].0, #[trigger] r[b].0) by {
                assert(r[a].0 == s[a].0);
                assert(r[b].0 == s[b].0);
            }
        }
        self.entries = entries;
    }

    /// Appends `alias` to the aliases of the peer at position `i`.
    pub fn push_alias_at(&mut self, i: usize, alias: String)
        requires
            i < old(self)@.len(),
        ensures
            final(self)@ == old(self)@.update(
                i as int,
                (
                    old(self)@[i as int].0,
                    PeerInfo {
                        aliases: old(self)@[i as int].1.aliases.push(alias@),
                        ..old(self)@[i as int].1
                    },
                ),
            ),
    {
        proof {
            use_type_invariant(&*self);
        }
        let ghost s = self@;
        let mut entries = Vec::new();
        std::mem::swap(&mut entries, &mut self.entries);
        let mut e = entries.remove(i);
        let ghost old_aliases = e.1.aliases@;
        e.1.aliases.push(alias);
        proof {
            assert(strings_view(e.1.aliases@) =~= strings_view(old_aliases).push(alias@));
        }
        entries.insert(i, e);
        proof {
            let r = entries@.map_values(|e: (String, PeerConfig)| entry_view(e));
            assert(r =~= s.update(
                i as int,
                (s[i as int].0, PeerInfo { aliases: s[i as int].1.aliases.push(alias@), ..s[i as int].1 }),
            ));
            assert forall|a: int, b: int| 0 <= a < b < r.len() implies seq_lt(#[trigger] r[a].0, #[trigger] r[b].0) by {
                assert(r[a].0 == s[a].0);
                assert(r[b].0 == s[b].0);
            }
        }
        self.entries = entries;
    }
}

} // verus!

verus! {

/// Upserting an existing key replaces its entry in place.
pub proof fn lemma_upsert_existing(s: PeerEntries, k: Seq<char>, v: PeerInfo, i: int)
    requires
        keys_sorted(s),
        0 <= i < s.len(),
        s[i].0 == k,
    ensures
        map_upsert(s, k, v) == s.update(i, (k, v)),
{
    assert forall|j: int| 0 <= j < i implies seq_lt(#[trigger] s[j].0, k) by {
        assert(seq_lt(s[j].0, s[i].0));
    }
    lemma_lt_irreflexive(k);
    lemma_upsert_at(s, k, v, i);
    assert(s.take(i) + seq![(k, v)] + s.skip(i + 1) =~= s.update(i, (k, v)));
}

} // verus!

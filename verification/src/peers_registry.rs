//! The peers registry: the shared secret and the peers, with lookups and
//! edits, and the text it is loaded from and saved as.

use vstd::prelude::*;
use crate::peers_parser::{
    parse_ini, parse_ini_spec, peer_ini, peer_to_ini,
};
use crate::peers_types::{
    keys_sorted, map_get, map_remove, map_upsert, PeerConfig, PeerEntries, PeerInfo, PeerMap,
    PeersError, PeersFault,
};
use crate::text::{chars_of, extend_str, str_eq, string_of};

verus! {

#[derive(Debug)]
pub struct PeersRegistry {
    pub shared_secret: String,
    pub peers: PeerMap,
}

/// The sections written for `peers`, each after an empty line.
pub open spec fn peers_ini(s: PeerEntries) -> Seq<char>
    decreases s.len(),
{
    if s.len() == 0 {
        Seq::empty()
    } else {
        peers_ini(s.drop_last()) + "\n"@ + peer_ini(s.last().0, s.last().1)
    }
}

/// The `peers.conf` text `save` writes.
pub open spec fn registry_ini(secret: Seq<char>, peers: PeerEntries) -> Seq<char> {
    "[mesh]\n"@ + "shared_secret="@ + secret + "\n"@ + peers_ini(peers)
}

/// `i` is the first entry whose role is `role`.
pub open spec fn first_with_role(s: PeerEntries, role: Seq<char>, i: int) -> bool {
    0 <= i < s.len() && s[i].1.role == role && forall|j: int| 0 <= j < i ==> s[j].1.role != role
}

/// `i` is the first entry that lists `alias` among its aliases.
pub open spec fn first_with_alias(s: PeerEntries, alias: Seq<char>, i: int) -> bool {
    0 <= i < s.len() && s[i].1.aliases.contains(alias) && forall|j: int|
        0 <= j < i ==> !s[j].1.aliases.contains(alias)
}

/// The entries whose status is `active`, in order.
pub open spec fn active_entries(s: PeerEntries) -> PeerEntries
    decreases s.len(),
{
    if s.len() == 0 {
        s
    } else if s.last().1.status == "active"@ {
        active_entries(s.drop_last()).push(s.last())
    } else {
        active_entries(s.drop_last())
    }
}

pub open spec fn ref_entries_view(v: Seq<(&str, &PeerConfig)>) -> PeerEntries {
    v.map_values(|e: (&str, &PeerConfig)| (e.0@, e.1@))
}

impl PeersRegistry {
    /// Reads registry text, as `load` reads it from `peers.conf`.
    pub fn from_ini_text(text: &str) -> (r: Result<Self, PeersError>)
        ensures
            match r {
                Ok(reg) => parse_ini_spec(text@) == Ok::<(Seq<char>, PeerEntries), PeersFault>(
                    (reg.shared_secret@, reg.peers@),
                ),
                Err(e) => parse_ini_spec(text@) == Err::<(Seq<char>, PeerEntries), PeersFault>(e@),
            },
    {
        match parse_ini(text) {
            Ok((shared_secret, peers)) => Ok(PeersRegistry { shared_secret, peers }),
            Err(e) => Err(e),
        }
    }

    /// The text `save` writes to `peers.conf`.
    pub fn to_ini_text(&self) -> (r: String)
        ensures
            r@ == registry_ini(self.shared_secret@, self.peers@),
    {
        let mut out: Vec<char> = Vec::new();
        extend_str(&mut out, "[mesh]\n");
        extend_str(&mut out, "shared_secret=");
        extend_str(&mut out, self.shared_secret.as_str());
        extend_str(&mut out, "\n");
        let ghost head = out@;
        let mut i: usize = 0;
        assert(self.peers@.take(0) =~= Seq::<(Seq<char>, PeerInfo)>::empty());
        while i < self.peers.len()
            invariant
                i <= self.peers@.len(),
                head == "[mesh]\n"@ + "shared_secret="@ + self.shared_secret@ + "\n"@,
                out@ == head + peers_ini(self.peers@.take(i as int)),
            decreases self.peers@.len() - i,
        {
            let (name, cfg) = self.peers.entry(i);
            extend_str(&mut out, "\n");
            let section = peer_to_ini(name, cfg);
            extend_str(&mut out, section.as_str());
            assert(self.peers@.take(i + 1).drop_last() == self.peers@.take(i as int));
            assert(self.peers@.take(i + 1).last() == self.peers@[i as int]);
            i = i + 1;
        }
        assert(self.peers@.take(self.peers@.len() as int) == self.peers@);
        string_of(&out)
    }

    pub fn add_peer(&mut self, name: &str, config: PeerConfig)
        ensures
            final(self).peers@ == map_upsert(old(self).peers@, name@, config@),
            final(self).shared_secret == old(self).shared_secret,
    {
        self.peers.insert(name.to_owned(), config);
    }

    pub fn remove_peer(&mut self, name: &str) -> (r: Option<PeerConfig>)
        ensures
            final(self).peers@ == map_remove(old(self).peers@, name@),
            final(self).shared_secret == old(self).shared_secret,
            match r {
                Some(p) => map_get(old(self).peers@, name@) == Some(p@),
                None => map_get(old(self).peers@, name@) is None,
            },
    {
        self.peers.remove(name)
    }

    /// Sets the role of peer `name`; `NotFound` when there is no such peer.
    pub fn update_role(&mut self, name: &str, role: &str) -> (r: Result<(), PeersError>)
        ensures
            final(self).shared_secret == old(self).shared_secret,
            match map_get(old(self).peers@, name@) {
                Some(p) => r is Ok && final(self).peers@ == map_upsert(
                    old(self).peers@,
                    name@,
                    PeerInfo { role: role@, ..p },
                ),
                None => r is Err && r->Err_0@ == PeersFault::NotFound(name@) && final(self).peers@
                    == old(self).peers@,
            },
    {
        let kc = chars_of(name);
        match self.peers.position(&kc) {
            Some(i) => {
                let ghost s = self.peers@;
                proof {
                    crate::peers_types::lemma_upsert_existing(s, name@, PeerInfo { role: role@, ..s[i as int].1 }, i as int);
                }
                self.peers.set_role_at(i, role.to_owned());
                Ok(())
            },
            None => Err(PeersError::NotFound(name.to_owned())),
        }
    }

    /// The first peer, in name order, whose role is `coordinator`.
    pub fn get_coordinator(&self) -> (r: Option<(&str, &PeerConfig)>)
        ensures
            match r {
                Some((n, p)) => exists|i: int|
                    first_with_role(self.peers@, "coordinator"@, i) && n@ == self.peers@[i].0 && p@
                        == self.peers@[i].1,
                None => forall|i: int|
                    0 <= i < self.peers@.len() ==> self.peers@[i].1.role != "coordinator"@,
            },
    {
        let mut i: usize = 0;
        while i < self.peers.len()
            invariant
                i <= self.peers@.len(),
                forall|j: int| 0 <= j < i ==> self.peers@[j].1.role != "coordinator"@,
            decreases self.peers@.len() - i,
        {
            let (n, p) = self.peers.entry(i);
            if str_eq(p.role.as_str(), "coordinator") {
                assert(first_with_role(self.peers@, "coordinator"@, i as int));
                return Some((n, p));
            }
            i = i + 1;
        }
        None
    }

    /// The peers whose status is `active`, in name order.
    pub fn list_active(&self) -> (r: Vec<(&str, &PeerConfig)>)
        ensures
            ref_entries_view(r@) == active_entries(self.peers@),
    {
        let mut out: Vec<(&str, &PeerConfig)> = Vec::new();
        let mut i: usize = 0;
        assert(self.peers@.take(0) =~= Seq::<(Seq<char>, PeerInfo)>::empty());
        assert(ref_entries_view(out@) =~= Seq::<(Seq<char>, PeerInfo)>::empty());
        while i < self.peers.len()
            invariant
                i <= self.peers@.len(),
                ref_entries_view(out@) == active_entries(self.peers@.take(i as int)),
            decreases self.peers@.len() - i,
        {
            let (n, p) = self.peers.entry(i);
            assert(self.peers@.take(i + 1).drop_last() == self.peers@.take(i as int));
            assert(self.peers@.take(i + 1).last() == self.peers@[i as int]);
            if str_eq(p.status.as_str(), "active") {
                let ghost o = out@;
                out.push((n, p));
                assert(ref_entries_view(out@) =~= ref_entries_view(o).push((n@, p@)));
            }
            i = i + 1;
        }
        assert(self.peers@.take(self.peers@.len() as int) == self.peers@);
        out
    }

    /// Looks up a peer by name, then by alias (the first peer, in name order,
    /// listing it).
    pub fn get_peer<'a>(&'a self, name: &'a str) -> (r: Option<(&'a str, &'a PeerConfig)>)
        ensures
            match map_get(self.peers@, name@) {
                Some(p) => r is Some && r->Some_0.0@ == name@ && r->Some_0.1@ == p,
                None => match r {
                    Some((n, p)) => exists|i: int|
                        first_with_alias(self.peers@, name@, i) && n@ == self.peers@[i].0 && p@
                            == self.peers@[i].1,
                    None => forall|i: int|
                        0 <= i < self.peers@.len() ==> !self.peers@[i].1.aliases.contains(name@),
                },
            },
    {
        if let Some(cfg) = self.peers.get(name) {
            return Some((name, cfg));
        }
        let kc = chars_of(name);
        let mut i: usize = 0;
        while i < self.peers.len()
            invariant
                i <= self.peers@.len(),
                kc@ == name@,
                map_get(self.peers@, name@) is None,
                forall|j: int| 0 <= j < i ==> !self.peers@[j].1.aliases.contains(name@),
            decreases self.peers@.len() - i,
        {
            let (n, p) = self.peers.entry(i);
            let found = crate::peers_parser::strings_contain(&p.aliases, &kc);
            if found {
                assert(first_with_alias(self.peers@, name@, i as int));
                return Some((n, p));
            }
            assert(!p@.aliases.contains(name@));
            i = i + 1;
        }
        None
    }
}

// ------------------------------------------------------------ laws

/// After adding a peer, looking its name up finds the added configuration,
/// and every other name finds what it found before.
pub proof fn lemma_add_then_get(s: PeerEntries, name: Seq<char>, cfg: PeerInfo, other: Seq<char>)
    ensures
        map_get(map_upsert(s, name, cfg), name) == Some(cfg),
        other != name ==> map_get(map_upsert(s, name, cfg), other) == map_get(s, other),
    decreases s.len(),
{
    if s.len() > 0 && !crate::text::seq_lt(name, s[0].0) && s[0].0 != name {
        lemma_add_then_get(s.drop_first(), name, cfg, other);
        assert((seq![s[0]] + map_upsert(s.drop_first(), name, cfg)).drop_first() =~= map_upsert(
            s.drop_first(),
            name,
            cfg,
        ));
    } else if s.len() > 0 && !crate::text::seq_lt(name, s[0].0) {
        assert((seq![(name, cfg)] + s.drop_first()).drop_first() =~= s.drop_first());
    } else if s.len() > 0 {
        assert((seq![(name, cfg)] + s).drop_first() =~= s);
    } else {
        assert(seq![(name, cfg)].drop_first() =~= s);
    }
}

/// After removing a peer, its name is not found, and every other name finds
/// what it found before (names are unique in a registry).
pub proof fn lemma_remove_then_get(s: PeerEntries, name: Seq<char>, other: Seq<char>)
    requires
        keys_sorted(s),
    ensures
        map_get(map_remove(s, name), name) is None,
        other != name ==> map_get(map_remove(s, name), other) == map_get(s, other),
    decreases s.len(),
{
    if s.len() > 0 {
        let t = s.drop_first();
        assert(keys_sorted(t)) by {
            assert forall|a: int, b: int| 0 <= a < b < t.len() implies crate::text::seq_lt(
                #[trigger] t[a].0,
                #[trigger] t[b].0,
            ) by {
                assert(t[a] == s[a + 1]);
                assert(t[b] == s[b + 1]);
            }
        }
        if s[0].0 == name {
            assert forall|j: int| 0 <= j < t.len() implies t[j].0 != name by {
                assert(t[j] == s[j + 1]);
                assert(crate::text::seq_lt(s[0].0, s[j + 1].0));
                crate::text::lemma_lt_irreflexive(name);
            }
            crate::peers_types::lemma_get_absent(t, name);
        } else {
            lemma_remove_then_get(t, name, other);
            assert((seq![s[0]] + map_remove(t, name)).drop_first() =~= map_remove(t, name));
        }
    }
}

} // verus!

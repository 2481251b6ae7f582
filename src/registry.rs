//! The registry of connected clients: connection identity to display name.
use vstd::prelude::*;

verus! {

/// One registry entry as the contracts see it: an identity and a display name.
pub type EntryView = (u64, Seq<char>);

/// Whether some entry carries identity `id`.
pub open spec fn has_id(s: Seq<EntryView>, id: u64) -> bool {
    exists|i: int| 0 <= i < s.len() && #[trigger] s[i].0 == id
}

/// No identity occurs twice.
pub open spec fn unique_ids(s: Seq<EntryView>) -> bool {
    forall|i: int, j: int| 0 <= i < s.len() && 0 <= j < s.len() && i != j ==> s[i].0 != s[j].0
}

/// The entries after recording `name` for `id`: an existing entry of `id` is
/// overwritten in place, otherwise the entry is appended.
pub open spec fn inserted(s: Seq<EntryView>, id: u64, name: Seq<char>) -> Seq<EntryView> {
    if has_id(s, id) {
        s.map_values(|e: EntryView| if e.0 == id { (id, name) } else { e })
    } else {
        s.push((id, name))
    }
}

/// The entries without those of `id`, the others in their order.
pub open spec fn removed(s: Seq<EntryView>, id: u64) -> Seq<EntryView>
    decreases s.len(),
{
    if s.len() == 0 {
        s
    } else if s.last().0 == id {
        removed(s.drop_last(), id)
    } else {
        removed(s.drop_last(), id).push(s.last())
    }
}

/// The display names of the entries, in registry order.
pub open spec fn names_of(s: Seq<EntryView>) -> Seq<Seq<char>> {
    s.map_values(|e: EntryView| e.1)
}

/// Shared store of the currently connected clients. Entries are kept in the
/// order in which their identities were first recorded.
pub struct Registry {
    entries: Vec<(u64, String)>,
}

impl View for Registry {
    type V = Seq<EntryView>;

    closed spec fn view(&self) -> Seq<EntryView> {
        self.entries@.map_values(|e: (u64, String)| (e.0, e.1@))
    }
}

impl Registry {
    /// At most one entry per identity.
    pub open spec fn wf(&self) -> bool {
        unique_ids(self@)
    }

    /// An empty registry.
    pub fn new() -> (r: Registry)
        ensures
            r@ == Seq::<EntryView>::empty(),
            r.wf(),
    {
        let r = Registry { entries: Vec::new() };
        assert(r@ =~= Seq::<EntryView>::empty());
        r
    }

    /// Number of connected clients.
    pub fn len(&self) -> (n: usize)
        ensures
            n == self@.len(),
    {
        self.entries.len()
    }

    /// Records `name` for `id`, overwriting an earlier entry of the same identity.
    pub fn insert(&mut self, id: u64, name: String)
        requires
            old(self).wf(),
        ensures
            final(self).wf(),
            final(self)@ == inserted(old(self)@, id, name@),
    {
        let ghost s = old(self)@;
        let n = self.entries.len();
        let mut i: usize = 0;
        while i < n
            invariant
                n == self.entries@.len(),
                self@ == s,
                s == old(self)@,
                unique_ids(s),
                i <= n,
                forall|k: int| 0 <= k < i ==> #[trigger] s[k].0 != id,
            decreases n - i,
        {
            if self.entries[i].0 == id {
                let ghost before = self.entries@;
                self.entries.set(i, (id, name));
                proof {
                    assert(s[i as int].0 == id);
                    assert(has_id(s, id));
                    assert forall|k: int| 0 <= k < s.len() implies #[trigger] self@[k] == (
                    if s[k].0 == id {
                        (id, name@)
                    } else {
                        s[k]
                    }) by {
                        assert(s[k] == (before[k].0, before[k].1@));
                        assert(self@[k] == (self.entries@[k].0, self.entries@[k].1@));
                        if k != i {
                            assert(self.entries@[k] == before[k]);
                        }
                    }
                    assert forall|a: int, b: int|
                        0 <= a < self@.len() && 0 <= b < self@.len() && a != b implies self@[a].0
                        != self@[b].0 by {
                        assert(self@[a].0 == s[a].0);
                        assert(self@[b].0 == s[b].0);
                    }
                    assert(self@ =~= inserted(s, id, name@));
                }
                return;
            }
            i = i + 1;
        }
        self.entries.push((id, name));
        proof {
            assert(!has_id(s, id));
            assert(self@ =~= s.push((id, name@)));
        }
    }

    /// Removes the entry of `id`, if there is one; the others keep their order.
    pub fn remove(&mut self, id: u64)
        requires
            old(self).wf(),
        ensures
            final(self).wf(),
            final(self)@ == removed(old(self)@, id),
    {
        let ghost s = old(self)@;
        let mut kept: Vec<(u64, String)> = Vec::new();
        let n = self.entries.len();
        let mut i: usize = 0;
        while i < n
            invariant
                n == self.entries@.len(),
                self@ == s,
                s == old(self)@,
                unique_ids(s),
                i <= n,
                kept@.map_values(|e: (u64, String)| (e.0, e.1@)) == removed(s.subrange(0, i as int), id),
            decreases n - i,
        {
            let e = &self.entries[i];
            proof {
                assert(s.subrange(0, i + 1).drop_last() =~= s.subrange(0, i as int));
                assert(s[i as int] == (e.0, e.1@));
            }
            if e.0 != id {
                kept.push((e.0, e.1.clone()));
                assert(kept@.map_values(|e: (u64, String)| (e.0, e.1@)) =~= removed(
                    s.subrange(0, i as int),
                    id,
                ).push(s[i as int]));
            }
            i = i + 1;
        }
        assert(s.subrange(0, n as int) =~= s);
        self.entries = kept;
        proof {
            lemma_removed_unique(s, id);
        }
    }

    /// The display names of all connected clients, in registry order, taken at
    /// one instant.
    pub fn snapshot_names(&self) -> (r: Vec<String>)
        ensures
            r@.map_values(|x: String| x@) == names_of(self@),
    {
        let mut r: Vec<String> = Vec::new();
        let n = self.entries.len();
        let mut i: usize = 0;
        while i < n
            invariant
                n == self.entries@.len(),
                i <= n,
                r@.len() == i,
                forall|k: int| 0 <= k < i ==> #[trigger] r@[k]@ == self@[k].1,
            decreases n - i,
        {
            r.push(self.entries[i].1.clone());
            i = i + 1;
        }
        assert(r@.map_values(|x: String| x@) =~= names_of(self@));
        r
    }
}

/// What `removed` keeps is a subsequence of its input: every entry kept was
/// there before, and no identity comes twice.
proof fn lemma_removed_unique(s: Seq<EntryView>, id: u64)
    requires
        unique_ids(s),
    ensures
        unique_ids(removed(s, id)),
        forall|i: int| 0 <= i < removed(s, id).len() ==> #[trigger] removed(s, id)[i].0 != id,
        forall|i: int|
            0 <= i < removed(s, id).len() ==> exists|j: int|
                0 <= j < s.len() && #[trigger] removed(s, id)[i] == s[j],
        forall|j: int| 0 <= j < s.len() && s[j].0 != id ==> has_id(removed(s, id), #[trigger] s[j].0),
    decreases s.len(),
{
    if s.len() > 0 {
        let p = s.drop_last();
        assert(unique_ids(p));
        lemma_removed_unique(p, id);
        let r = removed(s, id);
        let rp = removed(p, id);
        assert forall|i: int| 0 <= i < rp.len() implies exists|j: int|
            0 <= j < s.len() && #[trigger] rp[i] == s[j] by {
            let j = choose|j: int| 0 <= j < p.len() && rp[i] == p[j];
            assert(s[j] == p[j]);
        }
        if s.last().0 != id {
            assert forall|i: int| 0 <= i < rp.len() implies rp[i].0 != s.last().0 by {
                let j = choose|j: int| 0 <= j < p.len() && rp[i] == p[j];
                assert(s[j] == p[j]);
                assert(s[s.len() - 1] == s.last());
            }
            assert forall|i: int| 0 <= i < r.len() implies exists|j: int|
                0 <= j < s.len() && #[trigger] r[i] == s[j] by {
                if i == rp.len() {
                    assert(r[i] == s[s.len() - 1]);
                } else {
                    assert(r[i] == rp[i]);
                }
            }
            assert forall|j: int| 0 <= j < s.len() && s[j].0 != id implies has_id(r, #[trigger] s[j].0) by {
                if j == s.len() - 1 {
                    assert(r[rp.len() as int] == s[j]);
                } else {
                    assert(s[j] == p[j]);
                    let k = choose|k: int| 0 <= k < rp.len() && #[trigger] rp[k].0 == p[j].0;
                    assert(r[k] == rp[k]);
                }
            }
        } else {
            assert forall|j: int| 0 <= j < s.len() && s[j].0 != id implies has_id(r, #[trigger] s[j].0) by {
                assert(j != s.len() - 1);
                assert(s[j] == p[j]);
            }
        }
    }
}

/// A change of who is connected, as the registry sees it.
pub enum Presence {
    Joined(u64, Seq<char>),
    Left(u64),
}

/// The entries after applying `events` in order to an empty registry, by
/// `insert` for a join and `remove` for a leave.
pub open spec fn entries_after(events: Seq<Presence>) -> Seq<EntryView>
    decreases events.len(),
{
    if events.len() == 0 {
        Seq::empty()
    } else {
        match events.last() {
            Presence::Joined(id, name) => inserted(entries_after(events.drop_last()), id, name),
            Presence::Left(id) => removed(entries_after(events.drop_last()), id),
        }
    }
}

/// The sessions active after `events`: each identity whose latest event is a
/// join, with the name it joined with.
pub open spec fn active_after(events: Seq<Presence>) -> Map<u64, Seq<char>>
    decreases events.len(),
{
    if events.len() == 0 {
        Map::empty()
    } else {
        match events.last() {
            Presence::Joined(id, name) => active_after(events.drop_last()).insert(id, name),
            Presence::Left(id) => active_after(events.drop_last()).remove(id),
        }
    }
}

/// After any sequence of joins and leaves applied to a registry, it holds one
/// entry for each active session and no other, with that session's name; so
/// the names of its snapshot are exactly the names of the active sessions.
pub proof fn lemma_registry_matches_active(events: Seq<Presence>)
    ensures
        unique_ids(entries_after(events)),
        forall|id: u64|
            has_id(entries_after(events), id) <==> #[trigger] active_after(events).contains_key(id),
        forall|i: int|
            0 <= i < entries_after(events).len() ==> active_after(events)[#[trigger] entries_after(
                events,
            )[i].0] == entries_after(events)[i].1,
        forall|n: Seq<char>|
            #[trigger] names_of(entries_after(events)).contains(n) <==> exists|id: u64|
                #[trigger] active_after(events).contains_key(id) && active_after(events)[id] == n,
    decreases events.len(),
{
    let s = entries_after(events);
    let m = active_after(events);
    if events.len() > 0 {
        let ps = entries_after(events.drop_last());
        let pm = active_after(events.drop_last());
        lemma_registry_matches_active(events.drop_last());
        match events.last() {
            Presence::Joined(id, name) => {
                lemma_inserted(ps, id, name);
            },
            Presence::Left(id) => {
                lemma_removed_unique(ps, id);
                assert forall|i: int| 0 <= i < s.len() implies m[#[trigger] s[i].0] == s[i].1 by {
                    let j = choose|j: int| 0 <= j < ps.len() && s[i] == ps[j];
                    assert(s[i].0 != id);
                }
                assert forall|x: u64| has_id(s, x) implies #[trigger] m.contains_key(x) by {
                    let i = choose|i: int| 0 <= i < s.len() && #[trigger] s[i].0 == x;
                    let j = choose|j: int| 0 <= j < ps.len() && s[i] == ps[j];
                    assert(s[i].0 != id);
                }
                assert forall|x: u64| #[trigger] m.contains_key(x) implies has_id(s, x) by {
                    let j = choose|j: int| 0 <= j < ps.len() && #[trigger] ps[j].0 == x;
                }
            },
        }
    }
    lemma_names_match(s, m);
}

/// Names of entries that agree with a map are the map's values.
proof fn lemma_names_match(s: Seq<EntryView>, m: Map<u64, Seq<char>>)
    requires
        forall|id: u64| has_id(s, id) <==> #[trigger] m.contains_key(id),
        forall|i: int| 0 <= i < s.len() ==> m[#[trigger] s[i].0] == s[i].1,
    ensures
        forall|n: Seq<char>|
            #[trigger] names_of(s).contains(n) <==> exists|id: u64|
                #[trigger] m.contains_key(id) && m[id] == n,
{
    assert forall|n: Seq<char>| #[trigger] names_of(s).contains(n) implies exists|id: u64|
        #[trigger] m.contains_key(id) && m[id] == n by {
        let i = choose|i: int| 0 <= i < names_of(s).len() && names_of(s)[i] == n;
        assert(has_id(s, s[i].0));
        assert(m.contains_key(s[i].0));
    }
    assert forall|n: Seq<char>|
        (exists|id: u64| #[trigger] m.contains_key(id) && m[id] == n) implies #[trigger] names_of(
        s,
    ).contains(n) by {
        let id = choose|id: u64| #[trigger] m.contains_key(id) && m[id] == n;
        assert(has_id(s, id));
        let i = choose|i: int| 0 <= i < s.len() && #[trigger] s[i].0 == id;
        assert(names_of(s)[i] == n);
    }
}

/// What `inserted` does to each entry and to the identities present.
proof fn lemma_inserted(s: Seq<EntryView>, id: u64, name: Seq<char>)
    requires
        unique_ids(s),
    ensures
        unique_ids(inserted(s, id, name)),
        forall|x: u64| #[trigger] has_id(inserted(s, id, name), x) <==> (has_id(s, x) || x == id),
        forall|i: int|
            0 <= i < inserted(s, id, name).len() ==> (if #[trigger] inserted(s, id, name)[i].0 == id {
                inserted(s, id, name)[i].1 == name
            } else {
                exists|j: int| 0 <= j < s.len() && s[j] == inserted(s, id, name)[i]
            }),
{
    let r = inserted(s, id, name);
    if has_id(s, id) {
        assert forall|i: int| 0 <= i < r.len() implies r[i].0 == s[i].0 by {}
        assert forall|x: u64| #[trigger] has_id(r, x) <==> (has_id(s, x) || x == id) by {
            if has_id(s, x) {
                let i = choose|i: int| 0 <= i < s.len() && #[trigger] s[i].0 == x;
                assert(r[i].0 == x);
            }
            if has_id(r, x) {
                let i = choose|i: int| 0 <= i < r.len() && #[trigger] r[i].0 == x;
                assert(s[i].0 == x);
            }
        }
        assert forall|i: int| 0 <= i < r.len() && #[trigger] r[i].0 != id implies exists|j: int|
            0 <= j < s.len() && s[j] == r[i] by {
            assert(s[i] == r[i]);
        }
    } else {
        assert forall|x: u64| #[trigger] has_id(r, x) <==> (has_id(s, x) || x == id) by {
            if has_id(s, x) {
                let i = choose|i: int| 0 <= i < s.len() && #[trigger] s[i].0 == x;
                assert(r[i] == s[i]);
            }
            if x == id {
                assert(r[s.len() as int].0 == x);
            }
            if has_id(r, x) && x != id {
                let i = choose|i: int| 0 <= i < r.len() && #[trigger] r[i].0 == x;
                assert(s[i] == r[i]);
            }
        }
        assert forall|i: int| 0 <= i < r.len() && #[trigger] r[i].0 != id implies exists|j: int|
            0 <= j < s.len() && s[j] == r[i] by {
            assert(s[i] == r[i]);
        }
    }
}

} // verus!

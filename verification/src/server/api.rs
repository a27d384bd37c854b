//! The lobbies of the server, by identifier, and the answers of the lobby
//! API.

use vstd::prelude::*;

use super::ids::{is_id_char, nanoid_format};
use crate::model;

verus! {

/// No two entries share an identifier.
pub open spec fn ids_unique<T>(s: Seq<(String, T)>) -> bool {
    forall|i: int, j: int|
        0 <= i < s.len() && 0 <= j < s.len() && i != j ==> (#[trigger] s[i]).0@ != (#[trigger] s[j]).0@
}

/// The entries as a map from identifier to lobby.
pub open spec fn table_map<T>(s: Seq<(String, T)>) -> Map<Seq<char>, T>
    decreases s.len(),
{
    if s.len() == 0 {
        Map::empty()
    } else {
        table_map(s.drop_last()).insert(s.last().0@, s.last().1)
    }
}

/// What the map holds: the identifiers of the entries, each with its
/// lobby; with distinct identifiers, as many lobbies as entries.
pub proof fn lemma_table_map<T>(s: Seq<(String, T)>)
    requires
        ids_unique(s),
    ensures
        table_map(s).dom().finite(),
        table_map(s).len() == s.len(),
        forall|k: Seq<char>| #[trigger] table_map(s).dom().contains(k) <==> exists|i: int| 0 <= i < s.len() && (#[trigger] s[i]).0@ == k,
        forall|i: int| 0 <= i < s.len() ==> table_map(s)[(#[trigger] s[i]).0@] == s[i].1,
    decreases s.len(),
{
    broadcast use vstd::map::group_map_axioms, vstd::set::group_set_axioms;

    if s.len() > 0 {
        let d = s.drop_last();
        assert(ids_unique(d)) by {
            assert forall|i: int, j: int| 0 <= i < d.len() && 0 <= j < d.len() && i != j implies (#[trigger] d[i]).0@ != (#[trigger] d[j]).0@ by {
                assert(s[i] == d[i] && s[j] == d[j]);
            }
        }
        lemma_table_map(d);
        let k = s.last().0@;
        assert(!table_map(d).dom().contains(k)) by {
            if table_map(d).dom().contains(k) {
                let i = choose|i: int| 0 <= i < d.len() && (#[trigger] d[i]).0@ == k;
                assert(s[i] == d[i]);
            }
        }
        assert forall|k2: Seq<char>| #[trigger] table_map(s).dom().contains(k2) <==> exists|i: int| 0 <= i < s.len() && (#[trigger] s[i]).0@ == k2 by {
            if table_map(s).dom().contains(k2) && k2 != k {
                let i = choose|i: int| 0 <= i < d.len() && (#[trigger] d[i]).0@ == k2;
                assert(s[i] == d[i]);
            }
            if exists|i: int| 0 <= i < s.len() && (#[trigger] s[i]).0@ == k2 {
                let i = choose|i: int| 0 <= i < s.len() && (#[trigger] s[i]).0@ == k2;
                if i < d.len() {
                    assert(s[i] == d[i]);
                }
            }
        }
        assert forall|i: int| 0 <= i < s.len() implies table_map(s)[(#[trigger] s[i]).0@] == s[i].1 by {
            if i < d.len() {
                assert(s[i] == d[i]);
            }
        }
    }
}

/// The lobbies of the server, each under its identifier.
pub struct LobbyTable<T> {
    entries: Vec<(String, T)>,
}

impl<T> LobbyTable<T> {
    /// The lobbies by identifier.
    pub closed spec fn view(&self) -> Map<Seq<char>, T> {
        table_map(self.entries@)
    }

    /// What every table keeps: one entry per identifier.
    pub closed spec fn wf(&self) -> bool {
        ids_unique(self.entries@)
    }

    /// A table without lobbies.
    pub fn new() -> (r: Self)
        ensures
            r.wf(),
            r.view() == Map::<Seq<char>, T>::empty(),
    {
        LobbyTable { entries: Vec::new() }
    }

    /// The place of the entry for `id`, if there is one.
    fn position(&self, id: &String) -> (r: Option<usize>)
        requires
            self.wf(),
        ensures
            match r {
                Some(i) => i < self.entries@.len() && self.entries@[i as int].0@ == id@,
                None => forall|i: int| 0 <= i < self.entries@.len() ==> (#[trigger] self.entries@[i]).0@ != id@,
            },
    {
        let mut i: usize = 0;
        while i < self.entries.len()
            invariant
                i <= self.entries@.len(),
                forall|j: int| 0 <= j < i ==> (#[trigger] self.entries@[j]).0@ != id@,
            decreases self.entries@.len() - i,
        {
            if self.entries[i].0 == *id {
                return Some(i);
            }
            i = i + 1;
        }
        None
    }

    /// How many lobbies there are.
    pub fn len(&self) -> (r: usize)
        requires
            self.wf(),
        ensures
            r == self.view().len(),
    {
        proof {
            lemma_table_map(self.entries@);
        }
        self.entries.len()
    }

    /// Whether a lobby has the identifier `id`.
    pub fn contains_key(&self, id: &String) -> (r: bool)
        requires
            self.wf(),
        ensures
            r == self.view().dom().contains(id@),
    {
        proof {
            lemma_table_map(self.entries@);
        }
        self.position(id).is_some()
    }

    /// The lobby with the identifier `id`, if there is one.
    pub fn get(&self, id: &String) -> (r: Option<&T>)
        requires
            self.wf(),
        ensures
            match r {
                Some(v) => self.view().dom().contains(id@) && *v == self.view()[id@],
                None => !self.view().dom().contains(id@),
            },
    {
        proof {
            lemma_table_map(self.entries@);
        }
        match self.position(id) {
            Some(i) => Some(&self.entries[i].1),
            None => None,
        }
    }

    /// Puts `value` under the identifier `id`, in place of the lobby that
    /// had it, if any.
    pub fn insert(&mut self, id: String, value: T)
        requires
            old(self).wf(),
        ensures
            final(self).wf(),
            final(self).view() == old(self).view().insert(id@, value),
    {
        proof {
            lemma_table_map(self.entries@);
        }
        let ghost s0 = self.entries@;
        match self.position(&id) {
            Some(i) => {
                self.entries.set(i, (id, value));
                proof {
                    let s1 = self.entries@;
                    assert(ids_unique(s1)) by {
                        assert forall|a: int, b: int| 0 <= a < s1.len() && 0 <= b < s1.len() && a != b implies (#[trigger] s1[a]).0@ != (#[trigger] s1[b]).0@ by {
                            assert(s1[a].0@ == s0[a].0@);
                            assert(s1[b].0@ == s0[b].0@);
                        }
                    }
                    lemma_table_map(s1);
                    assert(table_map(s1) =~= table_map(s0).insert(id@, value)) by {
                        assert forall|k: Seq<char>| #[trigger] table_map(s1).dom().contains(k) implies table_map(s0).insert(id@, value).dom().contains(k) by {
                            let j = choose|j: int| 0 <= j < s1.len() && (#[trigger] s1[j]).0@ == k;
                            assert(s1[j].0@ == s0[j].0@);
                        }
                        assert forall|k: Seq<char>| #[trigger] table_map(s0).insert(id@, value).dom().contains(k) implies table_map(s1).dom().contains(k) by {
                            if k != id@ {
                                let j = choose|j: int| 0 <= j < s0.len() && (#[trigger] s0[j]).0@ == k;
                                assert(s1[j].0@ == s0[j].0@);
                            } else {
                                assert(s1[i as int].0@ == k);
                            }
                        }
                        assert forall|k: Seq<char>| #[trigger] table_map(s1).dom().contains(k) implies table_map(s1)[k] == table_map(s0).insert(id@, value)[k] by {
                            let j = choose|j: int| 0 <= j < s1.len() && (#[trigger] s1[j]).0@ == k;
                            if j != i {
                                assert(s1[j] == s0[j]);
                            }
                        }
                    }
                }
            },
            None => {
                self.entries.push((id, value));
                proof {
                    let s1 = self.entries@;
                    assert(s1.drop_last() =~= s0);
                    assert(ids_unique(s1)) by {
                        assert forall|a: int, b: int| 0 <= a < s1.len() && 0 <= b < s1.len() && a != b implies (#[trigger] s1[a]).0@ != (#[trigger] s1[b]).0@ by {
                            if a < s0.len() {
                                assert(s1[a] == s0[a]);
                            }
                            if b < s0.len() {
                                assert(s1[b] == s0[b]);
                            }
                        }
                    }
                }
            },
        }
    }
}

/// A lobby just created is found under its identifier, by `get_lobby` and
/// by `lobby_ws`, and every other identifier finds what it found before.
pub proof fn law_created_lobby_is_found<T>(before: Map<Seq<char>, T>, id: Seq<char>, lobby: T, other: Seq<char>)
    ensures
        before.insert(id, lobby).dom().contains(id),
        before.insert(id, lobby)[id] == lobby,
        other != id ==> before.insert(id, lobby).dom().contains(other) == before.dom().contains(other),
        other != id && before.dom().contains(other) ==> before.insert(id, lobby)[other] == before[other],
{
}

/// The number of lobbies.
pub fn get_index<T>(lobbies: &LobbyTable<T>) -> (r: usize)
    requires
        lobbies.wf(),
    ensures
        r == lobbies.view().len(),
{
    lobbies.len()
}

/// Adds `lobby` under a new random identifier of 21 URL-safe symbols, and
/// answers with that identifier.
pub fn create<T>(lobbies: &mut LobbyTable<T>, lobby: T) -> (r: model::Lobby)
    requires
        old(lobbies).wf(),
    ensures
        final(lobbies).wf(),
        r.id@.len() == 21,
        forall|i: int| 0 <= i < r.id@.len() ==> is_id_char(#[trigger] r.id@[i]),
        final(lobbies).view() == old(lobbies).view().insert(r.id@, lobby),
{
    let id = nanoid_format(21);
    lobbies.insert(id.clone(), lobby);
    model::Lobby { id }
}

/// The lobby `lobby_id`, if there is one with that identifier.
pub fn get_lobby<T>(lobby_id: String, lobbies: &LobbyTable<T>) -> (r: Option<model::Lobby>)
    requires
        lobbies.wf(),
    ensures
        r is Some <==> lobbies.view().dom().contains(lobby_id@),
        r matches Some(l) ==> l.id@ == lobby_id@,
{
    if lobbies.contains_key(&lobby_id) {
        Some(model::Lobby { id: lobby_id })
    } else {
        None
    }
}

/// The lobby whose game a player asks to join, if there is one with that
/// identifier.
pub fn lobby_ws<'a, T>(lobby_id: &String, lobbies: &'a LobbyTable<T>) -> (r: Option<&'a T>)
    requires
        lobbies.wf(),
    ensures
        match r {
            Some(v) => lobbies.view().dom().contains(lobby_id@) && *v == lobbies.view()[lobby_id@],
            None => !lobbies.view().dom().contains(lobby_id@),
        },
{
    lobbies.get(lobby_id)
}

} // verus!

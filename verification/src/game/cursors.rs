//! The cursor of each player, as a list of named positions.

use vstd::prelude::*;

use super::CursorPosition;

verus! {

/// No two entries share a name.
pub open spec fn names_unique(s: Seq<(String, CursorPosition)>) -> bool {
    forall|i: int, j: int| 0 <= i < s.len() && 0 <= j < s.len() && i != j ==> (#[trigger] s[i]).0@ != (
    #[trigger] s[j]).0@
}

/// The entries as a map from player name to cursor position; a later entry
/// for a name overrides an earlier one.
pub open spec fn cursor_map(s: Seq<(String, CursorPosition)>) -> Map<Seq<char>, CursorPosition>
    decreases s.len(),
{
    if s.len() == 0 {
        Map::empty()
    } else {
        cursor_map(s.drop_last()).insert(s.last().0@, s.last().1)
    }
}

/// What the map holds: the names of the entries, each with the position of
/// its last entry.
pub proof fn lemma_cursor_map(s: Seq<(String, CursorPosition)>)
    ensures
        forall|k: Seq<char>| #[trigger] cursor_map(s).dom().contains(k) <==> exists|i: int| 0 <= i < s.len() && (#[trigger] s[i]).0@ == k,
        names_unique(s) ==> forall|i: int| 0 <= i < s.len() ==> cursor_map(s)[(#[trigger] s[i]).0@] == s[i].1,
    decreases s.len(),
{
    broadcast use vstd::map::group_map_axioms;

    if s.len() > 0 {
        let d = s.drop_last();
        lemma_cursor_map(d);
        assert forall|k: Seq<char>| #[trigger] cursor_map(s).dom().contains(k) <==> exists|i: int| 0 <= i < s.len() && (#[trigger] s[i]).0@ == k by {
            if cursor_map(s).dom().contains(k) && k != s.last().0@ {
                assert(cursor_map(d).dom().contains(k));
                let i = choose|i: int| 0 <= i < d.len() && (#[trigger] d[i]).0@ == k;
                assert(s[i] == d[i]);
            }
            if exists|i: int| 0 <= i < s.len() && (#[trigger] s[i]).0@ == k {
                let i = choose|i: int| 0 <= i < s.len() && (#[trigger] s[i]).0@ == k;
                if i < d.len() {
                    assert(s[i] == d[i]);
                }
            }
        }
        if names_unique(s) {
            assert(names_unique(d)) by {
                assert forall|i: int, j: int| 0 <= i < d.len() && 0 <= j < d.len() && i != j implies (#[trigger] d[i]).0@ != (#[trigger] d[j]).0@ by {
                    assert(s[i] == d[i] && s[j] == d[j]);
                }
            }
            assert forall|i: int| 0 <= i < s.len() implies cursor_map(s)[(#[trigger] s[i]).0@] == s[i].1 by {
                if i < d.len() {
                    assert(s[i] == d[i]);
                    assert(s[i].0@ != s[s.len() - 1].0@);
                }
            }
        }
    }
}

/// Sets the cursor of `name` to `pos`: updates its entry, or adds one.
pub fn set_cursor(cursors: &mut Vec<(String, CursorPosition)>, name: &String, pos: CursorPosition)
    requires
        names_unique(old(cursors)@),
    ensures
        names_unique(final(cursors)@),
        cursor_map(final(cursors)@) == cursor_map(old(cursors)@).insert(name@, pos),
{
    let ghost s0 = cursors@;
    proof {
        lemma_cursor_map(s0);
    }
    let mut i: usize = 0;
    let mut found = false;
    while i < cursors.len()
        invariant_except_break
            !found,
        invariant
            cursors@ == s0,
            names_unique(s0),
            i <= cursors.len(),
            forall|j: int| 0 <= j < i ==> (#[trigger] s0[j]).0@ != name@,
        ensures
            found ==> i < cursors.len() && s0[i as int].0@ == name@,
            !found ==> forall|j: int| 0 <= j < s0.len() ==> (#[trigger] s0[j]).0@ != name@,
        decreases cursors.len() - i,
    {
        if cursors[i].0 == *name {
            found = true;
            break;
        }
        i = i + 1;
    }
    if found {
            let entry = (cursors[i].0.clone(), pos);
            cursors.set(i, entry);
            proof {
                broadcast use vstd::map::group_map_axioms;

                let s1 = cursors@;
                assert(s1 == s0.update(i as int, entry));
                assert(entry.0@ == name@);
                assert forall|j: int| 0 <= j < s1.len() implies (#[trigger] s1[j]).0@ == s0[j].0@ by {
                    if j == i {
                        assert(s1[j] == entry);
                    }
                }
                assert(names_unique(s1)) by {
                    assert forall|a: int, b: int| 0 <= a < s1.len() && 0 <= b < s1.len() && a != b implies (#[trigger] s1[a]).0@ != (#[trigger] s1[b]).0@ by {
                        assert(s1[a].0@ == s0[a].0@);
                        assert(s1[b].0@ == s0[b].0@);
                    }
                }
                lemma_cursor_map(s1);
                lemma_cursor_map(s0);
                assert(s1[i as int].0@ == name@);
                assert(cursor_map(s1) =~= cursor_map(s0).insert(name@, pos)) by {
                    assert forall|k: Seq<char>| #[trigger] cursor_map(s1).dom().contains(k) <==> cursor_map(s0).insert(name@, pos).dom().contains(k) by {
                        if k == name@ {
                            assert(s1[i as int].0@ == k);
                        }
                        if exists|j: int| 0 <= j < s0.len() && (#[trigger] s0[j]).0@ == k {
                            let j = choose|j: int| 0 <= j < s0.len() && (#[trigger] s0[j]).0@ == k;
                            assert(s1[j].0@ == k);
                        }
                        if exists|j: int| 0 <= j < s1.len() && (#[trigger] s1[j]).0@ == k {
                            let j = choose|j: int| 0 <= j < s1.len() && (#[trigger] s1[j]).0@ == k;
                            assert(s0[j].0@ == k);
                        }
                    }
                    assert forall|k: Seq<char>| #[trigger] cursor_map(s1).dom().contains(k) implies cursor_map(s1)[k] == cursor_map(s0).insert(name@, pos)[k] by {
                        let j = choose|j: int| 0 <= j < s1.len() && (#[trigger] s1[j]).0@ == k;
                        assert(s0[j].0@ == k);
                    }
                }
            }
        return;
    }
    cursors.push((name.clone(), pos));
    proof {
        let s1 = cursors@;
        assert(s1.drop_last() =~= s0);
        assert(s1.last().0@ == name@);
        assert(cursor_map(s1) == cursor_map(s0).insert(name@, pos));
        assert(names_unique(s1)) by {
            assert forall|a: int, b: int| 0 <= a < s1.len() && 0 <= b < s1.len() && a != b implies (#[trigger] s1[a]).0@ != (#[trigger] s1[b]).0@ by {
                if a < s0.len() && b < s0.len() {
                    assert(s1[a] == s0[a] && s1[b] == s0[b]);
                } else if a < s0.len() {
                    assert(s1[a] == s0[a]);
                } else {
                    assert(s1[b] == s0[b]);
                }
            }
        }
    }
}

/// A copy of the entries.
pub fn copy_cursors(cursors: &Vec<(String, CursorPosition)>) -> (r: Vec<(String, CursorPosition)>)
    ensures
        r@.len() == cursors@.len(),
        forall|i: int| 0 <= i < r@.len() ==> (#[trigger] r@[i]).0@ == cursors@[i].0@ && r@[i].1 == cursors@[i].1,
{
    let mut r: Vec<(String, CursorPosition)> = Vec::new();
    let mut i: usize = 0;
    while i < cursors.len()
        invariant
            i <= cursors.len(),
            r@.len() == i,
            forall|j: int| 0 <= j < i ==> (#[trigger] r@[j]).0@ == cursors@[j].0@ && r@[j].1 == cursors@[j].1,
        decreases cursors.len() - i,
    {
        r.push((cursors[i].0.clone(), cursors[i].1));
        i = i + 1;
    }
    r
}

/// Entries that agree name by name and position by position give the
/// same map.
pub proof fn lemma_cursor_map_copy(a: Seq<(String, CursorPosition)>, b: Seq<(String, CursorPosition)>)
    requires
        a.len() == b.len(),
        forall|i: int| 0 <= i < a.len() ==> (#[trigger] a[i]).0@ == b[i].0@ && a[i].1 == b[i].1,
    ensures
        cursor_map(a) == cursor_map(b),
    decreases a.len(),
{
    if a.len() > 0 {
        lemma_cursor_map_copy(a.drop_last(), b.drop_last());
        assert(a.last().0@ == b.last().0@);
    }
}

} // verus!

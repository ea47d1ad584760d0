//! The variable table: a list of key/value pairs with unique keys.
//!
//! The table is kept as a vector of `(name, value)` pairs and abstracts to
//! the map [`map_of`]; a write is last-write-wins, so the abstraction
//! inserts the pairs in order.

use vstd::map::*;
use vstd::prelude::*;

verus! {

/// The map that a pair list denotes: later pairs override earlier ones.
pub open spec fn map_of(s: Seq<(String, i64)>) -> Map<Seq<char>, i64>
    decreases s.len(),
{
    if s.len() == 0 {
        Map::empty()
    } else {
        map_of(s.drop_last()).insert(s.last().0@, s.last().1)
    }
}

/// No two pairs of the list share a key.
pub open spec fn uniq_keys(s: Seq<(String, i64)>) -> bool {
    forall|i: int, j: int| 0 <= i < j < s.len() ==> (#[trigger] s[i]).0@ != (#[trigger] s[j]).0@
}

/// The denoted map contains a key exactly when some pair holds it.
proof fn lemma_map_of_dom(s: Seq<(String, i64)>, k: Seq<char>)
    ensures
        map_of(s).dom().contains(k) <==> exists|i: int| 0 <= i < s.len() && (#[trigger] s[i]).0@ == k,
    decreases s.len(),
{
    if s.len() > 0 {
        lemma_map_of_dom(s.drop_last(), k);
        if s.last().0@ == k {
            assert(s[s.len() - 1].0@ == k);
        } else if map_of(s).dom().contains(k) {
            let i = choose|i: int| 0 <= i < s.drop_last().len() && (#[trigger] s.drop_last()[i]).0@ == k;
            assert(s[i].0@ == k);
        } else {
            assert forall|i: int| 0 <= i < s.len() implies (#[trigger] s[i]).0@ != k by {
                if i < s.len() - 1 {
                    assert(s.drop_last()[i].0@ == s[i].0@);
                }
            }
        }
    }
}

/// With unique keys, each pair of the list is found in the denoted map.
proof fn lemma_map_of_entry(s: Seq<(String, i64)>, i: int)
    requires
        uniq_keys(s),
        0 <= i < s.len(),
    ensures
        map_of(s).dom().contains(s[i].0@),
        map_of(s)[s[i].0@] == s[i].1,
    decreases s.len(),
{
    if i == s.len() - 1 {
        assert(s.last() == s[i]);
    } else {
        assert(uniq_keys(s.drop_last())) by {
            assert forall|x: int, y: int|
                0 <= x < y < s.drop_last().len() implies (#[trigger] s.drop_last()[x]).0@
                != (#[trigger] s.drop_last()[y]).0@ by {
                assert(s[x] == s.drop_last()[x]);
                assert(s[y] == s.drop_last()[y]);
            }
        }
        lemma_map_of_entry(s.drop_last(), i);
        assert(s.drop_last()[i] == s[i]);
        assert(s.last().0@ != s[i].0@);
    }
}

/// Replacing the pair that holds a key denotes an insert of that key.
proof fn lemma_map_of_update(s: Seq<(String, i64)>, i: int, p: (String, i64))
    requires
        uniq_keys(s),
        0 <= i < s.len(),
        p.0@ == s[i].0@,
    ensures
        uniq_keys(s.update(i, p)),
        map_of(s.update(i, p)) == map_of(s).insert(p.0@, p.1),
    decreases s.len(),
{
    let t = s.update(i, p);
    assert forall|x: int, y: int| 0 <= x < y < t.len() implies (#[trigger] t[x]).0@
        != (#[trigger] t[y]).0@ by {
        assert(s[x].0@ != s[y].0@);
    }
    if i == s.len() - 1 {
        assert(t.drop_last() =~= s.drop_last());
        assert(t.last() == p);
        assert(map_of(t) == map_of(s.drop_last()).insert(p.0@, p.1));
        assert(map_of(s) == map_of(s.drop_last()).insert(s.last().0@, s.last().1));
        assert(map_of(s.drop_last()).insert(s.last().0@, s.last().1).insert(p.0@, p.1)
            =~= map_of(s.drop_last()).insert(p.0@, p.1));
    } else {
        assert(uniq_keys(s.drop_last())) by {
            assert forall|x: int, y: int|
                0 <= x < y < s.drop_last().len() implies (#[trigger] s.drop_last()[x]).0@
                != (#[trigger] s.drop_last()[y]).0@ by {
                assert(s[x] == s.drop_last()[x]);
                assert(s[y] == s.drop_last()[y]);
            }
        }
        assert(s.drop_last()[i] == s[i]);
        lemma_map_of_update(s.drop_last(), i, p);
        assert(t.drop_last() =~= s.drop_last().update(i, p));
        assert(t.last() == s.last());
        assert(s.last().0@ != p.0@);
        assert(map_of(t) == map_of(s.drop_last()).insert(p.0@, p.1).insert(
            s.last().0@,
            s.last().1,
        ));
        assert(map_of(s.drop_last()).insert(p.0@, p.1).insert(s.last().0@, s.last().1)
            =~= map_of(s.drop_last()).insert(s.last().0@, s.last().1).insert(p.0@, p.1));
    }
}

/// Looks a key up in the pair list.
pub(crate) fn lookup(entries: &Vec<(String, i64)>, key: &String) -> (r: Option<i64>)
    requires
        uniq_keys(entries@),
    ensures
        r == (if map_of(entries@).dom().contains(key@) {
            Some(map_of(entries@)[key@])
        } else {
            None::<i64>
        }),
{
    let n: usize = entries.len();
    let mut idx: usize = 0;
    while idx < n
        invariant
            n == entries@.len(),
            idx <= n,
            uniq_keys(entries@),
            forall|j: int| 0 <= j < idx ==> (#[trigger] entries@[j]).0@ != key@,
        decreases n - idx,
    {
        let e = &entries[idx];
        if e.0 == *key {
            proof {
                lemma_map_of_entry(entries@, idx as int);
            }
            return Some(e.1);
        }
        idx = idx + 1;
    }
    proof {
        lemma_map_of_dom(entries@, key@);
    }
    None
}

/// Binds a key to a value in the pair list, last-write-wins.
pub(crate) fn store(entries: &mut Vec<(String, i64)>, key: String, val: i64)
    requires
        uniq_keys(old(entries)@),
    ensures
        uniq_keys(final(entries)@),
        map_of(final(entries)@) == map_of(old(entries)@).insert(key@, val),
{
    let n: usize = entries.len();
    let mut idx: usize = 0;
    while idx < n
        invariant
            n == entries@.len(),
            idx <= n,
            entries@ == old(entries)@,
            uniq_keys(entries@),
            forall|j: int| 0 <= j < idx ==> (#[trigger] entries@[j]).0@ != key@,
        decreases n - idx,
    {
        let hit = entries[idx].0 == key;
        if hit {
            proof {
                lemma_map_of_update(entries@, idx as int, (key, val));
            }
            entries[idx] = (key, val);
            return;
        }
        idx = idx + 1;
    }
    proof {
        let t = entries@.push((key, val));
        assert(t.drop_last() =~= entries@);
        assert(map_of(t) == map_of(entries@).insert(key@, val));
        assert forall|x: int, y: int| 0 <= x < y < t.len() implies (#[trigger] t[x]).0@
            != (#[trigger] t[y]).0@ by {
            if y < t.len() - 1 {
                assert(entries@[x].0@ != entries@[y].0@);
            } else {
                assert(t[x] == entries@[x]);
            }
        }
    }
    entries.push((key, val));
}

} // verus!

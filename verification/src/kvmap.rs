//! Relates a sequence of name/value entries to the finite map it denotes.
//!
//! The stores of this crate keep their entries in vectors; their contracts
//! speak of the corresponding `Map`. A later entry for a name shadows an
//! earlier one, so on sequences with unique keys every entry is authoritative.

use vstd::prelude::*;

verus! {

/// The map denoted by a sequence of key/value pairs; later pairs win.
pub open spec fn map_of<V>(s: Seq<(Seq<char>, V)>) -> Map<Seq<char>, V>
    decreases s.len(),
{
    if s.len() == 0 {
        Map::empty()
    } else {
        map_of(s.drop_last()).insert(s.last().0, s.last().1)
    }
}

/// Whether no two pairs share a key.
pub open spec fn keys_unique<V>(s: Seq<(Seq<char>, V)>) -> bool {
    forall|i: int, j: int|
        0 <= i < j < s.len() ==> (#[trigger] s[i]).0 != (#[trigger] s[j]).0
}

/// Appending a pair inserts its binding.
pub proof fn lemma_map_of_push<V>(s: Seq<(Seq<char>, V)>, k: Seq<char>, v: V)
    ensures
        map_of(s.push((k, v))) == map_of(s).insert(k, v),
{
    assert(s.push((k, v)).drop_last() =~= s);
    assert(s.push((k, v)).last() == (k, v));
}

/// A key that appears in no pair is not in the map.
pub proof fn lemma_map_of_absent<V>(s: Seq<(Seq<char>, V)>, k: Seq<char>)
    requires
        forall|i: int| 0 <= i < s.len() ==> (#[trigger] s[i]).0 != k,
    ensures
        !map_of(s).dom().contains(k),
    decreases s.len(),
{
    if s.len() > 0 {
        lemma_map_of_absent(s.drop_last(), k);
    }
}

/// Each pair's key is in the map, and on unique keys its value is the
/// pair's value.
pub proof fn lemma_map_of_index<V>(s: Seq<(Seq<char>, V)>, i: int)
    requires
        0 <= i < s.len(),
    ensures
        map_of(s).dom().contains(s[i].0),
        keys_unique(s) ==> map_of(s)[s[i].0] == s[i].1,
    decreases s.len(),
{
    if i == s.len() - 1 {
    } else {
        lemma_map_of_index(s.drop_last(), i);
        assert(s.drop_last()[i] == s[i]);
    }
}

/// A key in the map appears in some pair.
pub proof fn lemma_map_of_contains<V>(s: Seq<(Seq<char>, V)>, k: Seq<char>)
    requires
        map_of(s).dom().contains(k),
    ensures
        exists|i: int| 0 <= i < s.len() && (#[trigger] s[i]).0 == k,
    decreases s.len(),
{
    if s.len() > 0 {
        if s.last().0 == k {
            assert(s[s.len() - 1].0 == k);
        } else {
            lemma_map_of_contains(s.drop_last(), k);
            let dl = s.drop_last();
            let i = choose|i: int| 0 <= i < dl.len() && (#[trigger] dl[i]).0 == k;
            assert(s[i].0 == k);
        }
    }
}

/// On unique keys, replacing the value of one pair updates its binding.
pub proof fn lemma_map_of_update<V>(s: Seq<(Seq<char>, V)>, i: int, v: V)
    requires
        keys_unique(s),
        0 <= i < s.len(),
    ensures
        map_of(s.update(i, (s[i].0, v))) == map_of(s).insert(s[i].0, v),
        keys_unique(s.update(i, (s[i].0, v))),
    decreases s.len(),
{
    let k = s[i].0;
    let s2 = s.update(i, (k, v));
    assert(keys_unique(s2)) by {
        assert forall|x: int, y: int| 0 <= x < y < s2.len() implies (#[trigger] s2[x]).0 != (
        #[trigger] s2[y]).0 by {
            assert(s[x].0 != s[y].0);
        }
    }
    if i == s.len() - 1 {
        assert(s2.drop_last() =~= s.drop_last());
        assert(map_of(s2) == map_of(s.drop_last()).insert(k, v));
        assert(map_of(s).insert(k, v) =~= map_of(s.drop_last()).insert(k, v));
    } else {
        assert(s2.drop_last() =~= s.drop_last().update(i, (k, v)));
        assert(s.drop_last()[i] == s[i]);
        lemma_map_of_update(s.drop_last(), i, v);
        let lk = s.last().0;
        let lv = s.last().1;
        assert(s2.last() == (lk, lv));
        assert(lk != k);
        assert(map_of(s2) == map_of(s.drop_last()).insert(k, v).insert(lk, lv));
        assert(map_of(s.drop_last()).insert(k, v).insert(lk, lv) =~= map_of(
            s.drop_last(),
        ).insert(lk, lv).insert(k, v));
    }
}

/// On unique keys, removing a pair removes its binding.
pub proof fn lemma_map_of_remove<V>(s: Seq<(Seq<char>, V)>, i: int)
    requires
        keys_unique(s),
        0 <= i < s.len(),
    ensures
        map_of(s.remove(i)) == map_of(s).remove(s[i].0),
        keys_unique(s.remove(i)),
    decreases s.len(),
{
    let k = s[i].0;
    let s2 = s.remove(i);
    assert(keys_unique(s2)) by {
        assert forall|x: int, y: int| 0 <= x < y < s2.len() implies (#[trigger] s2[x]).0 != (
        #[trigger] s2[y]).0 by {
            let x0 = if x < i {
                x
            } else {
                x + 1
            };
            let y0 = if y < i {
                y
            } else {
                y + 1
            };
            assert(s2[x] == s[x0] && s2[y] == s[y0]);
            assert(s[x0].0 != s[y0].0);
        }
    }
    if i == s.len() - 1 {
        assert(s2 =~= s.drop_last());
        let dl = s.drop_last();
        assert forall|j: int| 0 <= j < dl.len() implies (#[trigger] dl[j]).0 != k by {
            assert(s[j].0 != s[s.len() - 1].0);
        }
        lemma_map_of_absent(s.drop_last(), k);
        assert(map_of(s).remove(k) =~= map_of(s.drop_last()));
    } else {
        assert(s2.drop_last() =~= s.drop_last().remove(i));
        assert(s.drop_last()[i] == s[i]);
        lemma_map_of_remove(s.drop_last(), i);
        let lk = s.last().0;
        let lv = s.last().1;
        assert(s2.last() == s.last());
        assert(lk != k);
        assert(map_of(s2) == map_of(s.drop_last()).remove(k).insert(lk, lv));
        assert(map_of(s.drop_last()).remove(k).insert(lk, lv) =~= map_of(
            s.drop_last(),
        ).insert(lk, lv).remove(k));
    }
}

/// Two pair sequences with the same keys denote maps with one domain.
pub proof fn lemma_map_of_dom_keys<V1, V2>(s1: Seq<(Seq<char>, V1)>, s2: Seq<(Seq<char>, V2)>)
    requires
        s1.len() == s2.len(),
        forall|i: int| 0 <= i < s1.len() ==> (#[trigger] s1[i]).0 == (#[trigger] s2[i]).0,
    ensures
        map_of(s1).dom() == map_of(s2).dom(),
    decreases s1.len(),
{
    if s1.len() == 0 {
        assert(map_of(s1).dom() =~= map_of(s2).dom());
    } else {
        assert forall|i: int| 0 <= i < s1.drop_last().len() implies (
        #[trigger] s1.drop_last()[i]).0 == (#[trigger] s2.drop_last()[i]).0 by {
            assert(s1[i].0 == s2[i].0);
        }
        lemma_map_of_dom_keys(s1.drop_last(), s2.drop_last());
        assert(s1[s1.len() - 1].0 == s2[s2.len() - 1].0);
        assert(map_of(s1).dom() =~= map_of(s2).dom());
    }
}

} // verus!

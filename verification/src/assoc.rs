//! Association lists read as finite maps.
//!
//! The aggregation containers of this crate keep their entries in a vector in
//! which no key occurs twice. The functions here say which map such a list
//! stands for and how pushing or replacing an entry changes that map.

use vstd::prelude::*;

verus! {

/// No key occurs twice.
pub open spec fn keys_unique<K, V>(s: Seq<(K, V)>) -> bool {
    forall|i: int, j: int| 0 <= i < j < s.len() ==> s[i].0 != s[j].0
}

/// Whether some entry has key `k`.
pub open spec fn has_key<K, V>(s: Seq<(K, V)>, k: K) -> bool {
    exists|i: int| 0 <= i < s.len() && #[trigger] s[i].0 == k
}

/// The index of an entry with key `k`.
pub open spec fn key_index<K, V>(s: Seq<(K, V)>, k: K) -> int {
    choose|i: int| 0 <= i < s.len() && #[trigger] s[i].0 == k
}

/// The map from each key of the list to the value stored with it.
pub open spec fn map_of<K, V>(s: Seq<(K, V)>) -> Map<K, V> {
    Map::new(|k: K| has_key(s, k), |k: K| s[key_index(s, k)].1)
}

pub proof fn lemma_map_of_empty<K, V>()
    ensures
        map_of(Seq::<(K, V)>::empty()) == Map::<K, V>::empty(),
        keys_unique(Seq::<(K, V)>::empty()),
{
    assert(map_of(Seq::<(K, V)>::empty()) =~= Map::<K, V>::empty());
}

/// With unique keys, the entry at index `i` is what the map holds for its key.
pub proof fn lemma_map_of_index<K, V>(s: Seq<(K, V)>, i: int)
    requires
        keys_unique(s),
        0 <= i < s.len(),
    ensures
        map_of(s).dom().contains(s[i].0),
        map_of(s)[s[i].0] == s[i].1,
        key_index(s, s[i].0) == i,
{
    assert(has_key(s, s[i].0));
    let j = key_index(s, s[i].0);
    assert(0 <= j < s.len() && s[j].0 == s[i].0);
    if i < j {
    } else if j < i {
    }
}

/// Pushing an entry with a fresh key inserts it into the map.
pub proof fn lemma_map_of_push<K, V>(s: Seq<(K, V)>, k: K, v: V)
    requires
        keys_unique(s),
        !has_key(s, k),
    ensures
        keys_unique(s.push((k, v))),
        map_of(s.push((k, v))) == map_of(s).insert(k, v),
{
    let t = s.push((k, v));
    assert forall|i: int, j: int| 0 <= i < j < t.len() implies t[i].0 != t[j].0 by {
        if j == s.len() {
            assert(s[i].0 == t[i].0);
        }
    }
    assert forall|x: K| has_key(t, x) <==> (x == k || has_key(s, x)) by {
        if has_key(t, x) {
            let i = key_index(t, x);
            if i < s.len() {
                assert(s[i].0 == x);
            }
        }
        if has_key(s, x) {
            let i = key_index(s, x);
            assert(t[i].0 == x);
        }
        if x == k {
            assert(t[s.len() as int].0 == x);
        }
    }
    assert forall|x: K| has_key(t, x) implies #[trigger] map_of(t)[x] == map_of(s).insert(k, v)[x] by {
        let i = key_index(t, x);
        lemma_map_of_index(t, i);
        if i < s.len() {
            assert(s[i].0 == x);
            lemma_map_of_index(s, i);
        }
    }
    assert(map_of(t) =~= map_of(s).insert(k, v));
}

/// Replacing the value of the entry at index `i` replaces it in the map.
pub proof fn lemma_map_of_update<K, V>(s: Seq<(K, V)>, i: int, v: V)
    requires
        keys_unique(s),
        0 <= i < s.len(),
    ensures
        keys_unique(s.update(i, (s[i].0, v))),
        map_of(s.update(i, (s[i].0, v))) == map_of(s).insert(s[i].0, v),
{
    let k = s[i].0;
    let t = s.update(i, (k, v));
    assert forall|a: int, b: int| 0 <= a < b < t.len() implies t[a].0 != t[b].0 by {
        assert(t[a].0 == s[a].0);
        assert(t[b].0 == s[b].0);
    }
    assert forall|x: K| has_key(t, x) <==> has_key(s, x) by {
        if has_key(t, x) {
            let j = key_index(t, x);
            assert(s[j].0 == x);
        }
        if has_key(s, x) {
            let j = key_index(s, x);
            assert(t[j].0 == x);
        }
    }
    assert(has_key(s, k));
    assert forall|x: K| has_key(t, x) implies #[trigger] map_of(t)[x] == map_of(s).insert(k, v)[x] by {
        let j = key_index(t, x);
        lemma_map_of_index(t, j);
        assert(s[j].0 == x);
        lemma_map_of_index(s, j);
    }
    assert(map_of(t) =~= map_of(s).insert(k, v));
}

/// The list without its last entry stands for the map without that entry's key.
pub proof fn lemma_map_of_take<K, V>(s: Seq<(K, V)>, n: int)
    requires
        keys_unique(s),
        0 <= n < s.len(),
    ensures
        keys_unique(s.take(n)),
        keys_unique(s.take(n + 1)),
        !has_key(s.take(n), s[n].0),
        map_of(s.take(n + 1)) == map_of(s.take(n)).insert(s[n].0, s[n].1),
{
    let a = s.take(n);
    assert forall|i: int, j: int| 0 <= i < j < a.len() implies a[i].0 != a[j].0 by {
        assert(a[i] == s[i] && a[j] == s[j]);
    }
    if has_key(a, s[n].0) {
        let i = key_index(a, s[n].0);
        assert(a[i] == s[i]);
    }
    assert(s.take(n + 1) =~= a.push((s[n].0, s[n].1)));
    lemma_map_of_push(a, s[n].0, s[n].1);
}

/// A list with unique keys stands for a map with as many entries.
pub proof fn lemma_keys_count<K, V>(s: Seq<(K, V)>)
    requires
        keys_unique(s),
    ensures
        map_of(s).dom().finite(),
        map_of(s).dom().len() == s.len(),
    decreases s.len(),
{
    if s.len() == 0 {
        assert(map_of(s).dom() =~= Set::<K>::empty());
    } else {
        let n = s.len() - 1;
        lemma_map_of_take(s, n);
        assert(s.take(n + 1) =~= s);
        lemma_keys_count(s.take(n));
        assert(map_of(s).dom() =~= map_of(s.take(n)).dom().insert(s[n].0));
        assert(!map_of(s.take(n)).dom().contains(s[n].0));
    }
}

/// The keys of `order`, then the first `n` keys of `added` that are not yet
/// among them, in the order of `added`.
pub open spec fn with_keys<K>(order: Seq<K>, added: Seq<K>, n: int) -> Seq<K>
    decreases n,
{
    if n <= 0 {
        order
    } else {
        let before = with_keys(order, added, n - 1);
        if before.contains(added[n - 1]) {
            before
        } else {
            before.push(added[n - 1])
        }
    }
}

} // verus!

//! Keyed tables held in vectors, and their mathematical `Map` value.
//!
//! Every relational table of the engine (transfers keyed by ordered
//! stop-point pair, object codes keyed by their triple, resolved rules keyed
//! by ordered pair) is a vector of entries together with a key function.
//! The lemmas here relate the vector operations the engines use — push, removal — to `insert` and `remove` on the map of entries.

use vstd::prelude::*;

verus! {

/// The map held by an entry sequence: for every key, the value of the entry
/// that occurs last with that key.
pub open spec fn kv_map<K, V>(s: Seq<(K, V)>) -> Map<K, V>
    decreases s.len(),
{
    if s.len() == 0 {
        Map::empty()
    } else {
        kv_map(s.drop_last()).insert(s.last().0, s.last().1)
    }
}

/// No two entries share a key.
pub open spec fn kv_unique<K, V>(s: Seq<(K, V)>) -> bool {
    forall|i: int, j: int| 0 <= i < j < s.len() ==> s[i].0 != s[j].0
}

/// Some entry carries the key `k`.
pub open spec fn kv_has<K, V>(s: Seq<(K, V)>, k: K) -> bool {
    exists|i: int| 0 <= i < s.len() && s[i].0 == k
}

pub proof fn lemma_kv_dom<K, V>(s: Seq<(K, V)>)
    ensures
        forall|k: K| #[trigger] kv_map(s).contains_key(k) <==> kv_has(s, k),
    decreases s.len(),
{
    if s.len() > 0 {
        lemma_kv_dom(s.drop_last());
        assert forall|k: K| #[trigger] kv_map(s).contains_key(k) implies kv_has(s, k) by {
            if k == s.last().0 {
                assert(s[s.len() - 1].0 == k);
            } else {
                assert(kv_map(s.drop_last()).contains_key(k));
                let i = choose|i: int| 0 <= i < s.drop_last().len() && s.drop_last()[i].0 == k;
                assert(s[i].0 == k);
            }
        }
        assert forall|k: K| kv_has(s, k) implies #[trigger] kv_map(s).contains_key(k) by {
            let i = choose|i: int| 0 <= i < s.len() && s[i].0 == k;
            if i < s.len() - 1 {
                assert(s.drop_last()[i].0 == k);
                assert(kv_has(s.drop_last(), k));
                assert(kv_map(s.drop_last()).contains_key(k));
            } else {
                assert(k == s.last().0);
            }
        }
    }
}

pub proof fn lemma_kv_unique_drop_last<K, V>(s: Seq<(K, V)>)
    requires
        kv_unique(s),
        s.len() > 0,
    ensures
        kv_unique(s.drop_last()),
{
    assert forall|i: int, j: int|
        0 <= i < j < s.drop_last().len() implies s.drop_last()[i].0 != s.drop_last()[j].0 by {
        assert(s[i].0 != s[j].0);
    }
}

pub proof fn lemma_kv_index<K, V>(s: Seq<(K, V)>, i: int)
    requires
        kv_unique(s),
        0 <= i < s.len(),
    ensures
        kv_map(s).contains_key(s[i].0),
        kv_map(s)[s[i].0] == s[i].1,
    decreases s.len(),
{
    if i < s.len() - 1 {
        lemma_kv_unique_drop_last(s);
        lemma_kv_index(s.drop_last(), i);
        assert(s.drop_last()[i] == s[i]);
        assert(s[i].0 != s[s.len() - 1].0);
    }
}

pub proof fn lemma_kv_push<K, V>(s: Seq<(K, V)>, p: (K, V))
    ensures
        kv_map(s.push(p)) == kv_map(s).insert(p.0, p.1),
{
    assert(s.push(p).drop_last() =~= s);
    assert(s.push(p).last() == p);
}

pub proof fn lemma_kv_push_unique<K, V>(s: Seq<(K, V)>, p: (K, V))
    requires
        kv_unique(s),
        !kv_has(s, p.0),
    ensures
        kv_unique(s.push(p)),
{
    assert forall|i: int, j: int|
        0 <= i < j < s.push(p).len() implies s.push(p)[i].0 != s.push(p)[j].0 by {
        if j < s.len() {
            assert(s[i].0 != s[j].0);
        } else {
            assert(s.push(p)[i] == s[i]);
            assert(!(s[i].0 == p.0));
        }
    }
}

pub proof fn lemma_kv_remove<K, V>(s: Seq<(K, V)>, i: int)
    requires
        kv_unique(s),
        0 <= i < s.len(),
    ensures
        kv_map(s.remove(i)) == kv_map(s).remove(s[i].0),
        kv_unique(s.remove(i)),
    decreases s.len(),
{
    assert forall|a: int, b: int|
        0 <= a < b < s.remove(i).len() implies s.remove(i)[a].0 != s.remove(i)[b].0 by {
        let a0: int = if a < i { a } else { a + 1 };
        let b0: int = if b < i { b } else { b + 1 };
        assert(s.remove(i)[a] == s[a0]);
        assert(s.remove(i)[b] == s[b0]);
        assert(s[a0].0 != s[b0].0);
    }
    lemma_kv_unique_drop_last(s);
    lemma_kv_dom(s.drop_last());
    if i == s.len() - 1 {
        assert(s.remove(i) =~= s.drop_last());
        assert(!kv_has(s.drop_last(), s[i].0)) by {
            if kv_has(s.drop_last(), s[i].0) {
                let a = choose|a: int|
                    0 <= a < s.drop_last().len() && s.drop_last()[a].0 == s[i].0;
                assert(s[a].0 != s[i].0);
            }
        }
        assert(kv_map(s.remove(i)) =~= kv_map(s).remove(s[i].0));
    } else {
        assert(s.remove(i).drop_last() =~= s.drop_last().remove(i));
        assert(s.remove(i).last() == s.last());
        assert(s.drop_last()[i] == s[i]);
        lemma_kv_remove(s.drop_last(), i);
        assert(s[i].0 != s[s.len() - 1].0);
        assert(kv_map(s.remove(i)) =~= kv_map(s).remove(s[i].0));
    }
}

} // verus!

use std::collections::{HashMap, HashSet};
use std::hash::Hash;

use vstd::prelude::*;
use vstd::std_specs::hash::obeys_key_model;

verus! {

broadcast use vstd::std_specs::hash::group_hash_axioms;

/// Inserts `key` with `value` into a map that does not hold `key` yet.
pub fn insert_unique<K: Eq + Hash, V>(map: &mut HashMap<K, V>, key: K, value: V)
    requires
        obeys_key_model::<K>(),
        !old(map)@.contains_key(key),
    ensures
        final(map)@ == old(map)@.insert(key, value),
{
    map.insert(key, value);
}

/// The keys of a map, each once.
pub fn map_keys<V>(m: &HashMap<u32, V>) -> (ks: Vec<u32>)
    ensures
        ks@.no_duplicates(),
        forall|k: u32| ks@.contains(k) <==> m@.contains_key(k),
{
    let mut ks: Vec<u32> = Vec::new();
    for (k, v) in it: m.iter()
        invariant
            ks@.len() == it.index(),
            forall|j: int| 0 <= j < it.index() ==> ks@[j] == *(#[trigger] it.seq()[j]).0,
            forall|j: int|
                0 <= j < it.seq().len() ==> m@.contains_key(*(#[trigger] it.seq()[j]).0)
                    && m@[*it.seq()[j].0] == *it.seq()[j].1,
            it.seq().no_duplicates(),
            forall|k: u32| #[trigger] m@.contains_key(k) ==> it.seq().contains((&k, &m@[k])),
            ks@.no_duplicates(),
            forall|k: u32| ks@.contains(k) ==> m@.contains_key(k),
            it.index() == it.seq().len() ==> forall|k: u32|
                m@.contains_key(k) ==> #[trigger] ks@.contains(k),
    {
        let ghost i = ks@.len() as int;
        proof {
            assert forall|j: int| 0 <= j < ks@.len() implies ks@[j] != *k by {
                assert(it.seq()[j] != it.seq()[i]);
                if *it.seq()[j].0 == *it.seq()[i].0 {
                    assert(it.seq()[j] == it.seq()[i]);
                }
            }
        }
        ks.push(*k);
        proof {
            assert forall|kk: u32| ks@.contains(kk) implies m@.contains_key(kk) by {
                let j = choose|j: int| 0 <= j < ks@.len() && ks@[j] == kk;
                assert(m@.contains_key(*it.seq()[j].0));
            }
            assert forall|kk: u32|
                ks@.len() == it.seq().len() && m@.contains_key(kk) implies #[trigger] ks@.contains(
                kk,
            ) by {
                assert(it.seq().contains((&kk, &m@[kk])));
                let j = choose|j: int| 0 <= j < it.seq().len() && it.seq()[j] == (&kk, &m@[kk]);
                assert(ks@[j] == kk);
            }
        }
    }
    ks
}

/// The elements of a set, each once.
pub fn set_elements(s: &HashSet<u32>) -> (es: Vec<u32>)
    ensures
        es@.no_duplicates(),
        forall|k: u32| es@.contains(k) <==> s@.contains(k),
{
    let mut es: Vec<u32> = Vec::new();
    for k in it: s.iter()
        invariant
            es@.len() == it.index(),
            forall|j: int| 0 <= j < it.index() ==> es@[j] == *(#[trigger] it.seq()[j]),
            it.seq().no_duplicates(),
            it.seq().unref().to_set() == s@,
            es@.no_duplicates(),
            forall|k: u32| es@.contains(k) ==> s@.contains(k),
            it.index() == it.seq().len() ==> forall|k: u32|
                s@.contains(k) ==> #[trigger] es@.contains(k),
    {
        let ghost i = es@.len() as int;
        proof {
            assert forall|j: int| 0 <= j < es@.len() implies es@[j] != *k by {
                assert(it.seq()[j] != it.seq()[i]);
            }
        }
        es.push(*k);
        proof {
            assert forall|kk: u32| es@.contains(kk) implies s@.contains(kk) by {
                let j = choose|j: int| 0 <= j < es@.len() && es@[j] == kk;
                assert(it.seq().unref()[j] == kk);
                assert(it.seq().unref().contains(kk));
            }
            assert forall|kk: u32|
                es@.len() == it.seq().len() && s@.contains(kk) implies #[trigger] es@.contains(kk) by {
                assert(it.seq().unref().to_set().contains(kk));
                let j = choose|j: int| 0 <= j < it.seq().unref().len() && it.seq().unref()[j] == kk;
                assert(es@[j] == kk);
            }
        }
    }
    es
}

/// A copy of a set of ids.
pub fn copy_set(s: &HashSet<u32>) -> (r: HashSet<u32>)
    ensures
        r@ == s@,
{
    let es = set_elements(s);
    let mut r: HashSet<u32> = HashSet::new();
    for i in 0..es.len()
        invariant
            forall|k: u32| es@.contains(k) <==> s@.contains(k),
            forall|k: u32| r@.contains(k) <==> es@.take(i as int).contains(k),
    {
        r.insert(es[i]);
        assert forall|k: u32| r@.contains(k) <==> es@.take(i + 1).contains(k) by {
            lemma_take_push_contains(es@, i as int, k);
        }
    }
    assert(es@.take(es.len() as int) =~= es@);
    assert(r@ =~= s@);
    r
}

/// Growing a prefix of a sequence by one element adds just that element.
pub proof fn lemma_take_push_contains<T>(s: Seq<T>, i: int, k: T)
    requires
        0 <= i < s.len(),
    ensures
        s.take(i + 1).contains(k) <==> (s.take(i).contains(k) || s[i] == k),
{
    if s.take(i + 1).contains(k) {
        let t = s.take(i + 1);
        let j = choose|j: int| 0 <= j < t.len() && t[j] == k;
        if j < i {
            assert(s.take(i)[j] == k);
        }
    }
    if s.take(i).contains(k) {
        let t = s.take(i);
        let j = choose|j: int| 0 <= j < t.len() && t[j] == k;
        assert(s.take(i + 1)[j] == k);
    }
    if s[i] == k {
        assert(s.take(i + 1)[i] == k);
    }
}

/// In a sequence without duplicates, an element is not among those before it.
pub proof fn lemma_not_in_prefix<T>(s: Seq<T>, i: int)
    requires
        0 <= i < s.len(),
        s.no_duplicates(),
    ensures
        !s.take(i).contains(s[i]),
{
    if s.take(i).contains(s[i]) {
        let t = s.take(i);
        let j = choose|j: int| 0 <= j < t.len() && t[j] == s[i];
        assert(s[j] == s[i]);
    }
}

/// One step of a scan over the keys `ids` that collects the wanted ones: where the keys
/// collected before step `i` are the wanted ones among the first `i`, and step `i` adds its
/// key exactly where it is wanted, the keys collected after it are the wanted ones among the
/// first `i + 1`.
pub proof fn lemma_collect_step<T>(ids: Seq<T>, i: int, wanted: Set<T>, before: Set<T>, after: Set<T>)
    requires
        0 <= i < ids.len(),
        forall|k: T| before.contains(k) <==> (ids.take(i).contains(k) && wanted.contains(k)),
        forall|k: T|
            after.contains(k) <==> (before.contains(k) || (k == ids[i] && wanted.contains(k))),
    ensures
        forall|k: T| after.contains(k) <==> (ids.take(i + 1).contains(k) && wanted.contains(k)),
{
    assert forall|k: T| after.contains(k) <==> (ids.take(i + 1).contains(k) && wanted.contains(
        k,
    )) by {
        lemma_take_push_contains(ids, i, k);
    }
}

} // verus!

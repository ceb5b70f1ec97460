//! Walking a hash map through the list of its keys.
use vstd::prelude::*;
use std::collections::HashMap;
use std::hash::Hash;
use vstd::std_specs::hash::obeys_key_model;
use vstd::std_specs::iter::IteratorSpec;

verus! {

/// `keys` lists every key of the map `m` exactly once.
pub open spec fn lists_keys<K, V>(keys: Seq<K>, m: Map<K, V>) -> bool {
    &&& keys.no_duplicates()
    &&& forall|k: K| keys.contains(k) <==> m.contains_key(k)
}

/// A listing of the keys of a finite map is as long as the map is large.
pub proof fn lemma_listing_len<K, V>(keys: Seq<K>, m: Map<K, V>)
    requires
        lists_keys(keys, m),
    ensures
        m.dom().finite(),
        keys.len() == m.dom().len(),
{
    keys.unique_seq_to_set();
    assert(keys.to_set() =~= m.dom());
}

/// What the map holds under a key that it has.
pub fn held<'a, K: Eq + Hash, V>(m: &'a HashMap<K, V>, k: &K) -> (v: &'a V)
    requires
        obeys_key_model::<K>(),
        m@.contains_key(*k),
    ensures
        *v == m@[*k],
{
    broadcast use vstd::std_specs::hash::group_hash_axioms;

    m.get(k).unwrap()
}

/// The keys of `m`, each once, in the order in which the map hands them out.
pub fn collect_keys<K: Copy + Eq + Hash, V>(m: &HashMap<K, V>) -> (keys: Vec<K>)
    requires
        obeys_key_model::<K>(),
    ensures
        lists_keys(keys@, m@),
        keys@.len() == m@.len(),
{
    broadcast use vstd::std_specs::hash::group_hash_axioms;

    let mut keys: Vec<K> = Vec::new();
    for (k, _v) in it: m.iter()
        invariant
            it.seq() == m.iter().remaining(),
            it.seq().no_duplicates(),
            keys@.len() == it.index(),
            forall|i: int| 0 <= i < keys@.len() ==> keys@[i] == *(#[trigger] it.seq()[i]).0,
    {
        keys.push(*k);
    }
    proof {
        let s = m.iter().remaining();
        assert(keys@.len() == s.len());
        assert forall|i: int, j: int| 0 <= i < keys@.len() && 0 <= j < keys@.len() && i != j
            implies keys@[i] != keys@[j] by {
            assert(m@.contains_key(*s[i].0) && m@[*s[i].0] == *s[i].1);
            assert(m@.contains_key(*s[j].0) && m@[*s[j].0] == *s[j].1);
            if keys@[i] == keys@[j] {
                assert(s[i] == s[j]);
            }
        }
        assert forall|k: K| keys@.contains(k) <==> m@.contains_key(k) by {
            if keys@.contains(k) {
                let i = choose|i: int| 0 <= i < keys@.len() && keys@[i] == k;
                assert(m@.contains_key(*s[i].0));
            }
            if m@.contains_key(k) {
                assert(s.contains((&k, &m@[k])));
                let i = choose|i: int| 0 <= i < s.len() && s[i] == (&k, &m@[k]);
                assert(keys@[i] == k);
            }
        }
    }
    keys
}

} // verus!

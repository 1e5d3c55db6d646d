//! Maps keyed by text, kept as a vector of entries with distinct keys.
//!
//! `assoc(keys, vals)` is the map that such a vector stands for; the lemmas
//! relate updates of the vector to updates of the map.
use crate::text::str_eq;
use vstd::prelude::*;

verus! {

/// The characters of each string.
pub open spec fn str_views(v: Seq<String>) -> Seq<Seq<char>> {
    v.map_values(|s: String| s@)
}

/// The map from `keys[i]` to `vals[i]`; a later key overrides an earlier one.
pub open spec fn assoc<V>(keys: Seq<Seq<char>>, vals: Seq<V>) -> Map<Seq<char>, V>
    decreases keys.len(),
{
    if keys.len() == 0 {
        Map::empty()
    } else {
        assoc(keys.drop_last(), vals.drop_last()).insert(keys.last(), vals.last())
    }
}

/// The map has finitely many keys.
pub proof fn lemma_assoc_finite<V>(keys: Seq<Seq<char>>, vals: Seq<V>)
    ensures
        assoc(keys, vals).dom().finite(),
    decreases keys.len(),
{
    broadcast use vstd::set::group_set_axioms, vstd::map::group_map_axioms;

    if keys.len() > 0 {
        lemma_assoc_finite(keys.drop_last(), vals.drop_last());
        let m = assoc(keys.drop_last(), vals.drop_last());
        assert(m.insert(keys.last(), vals.last()).dom() =~= m.dom().insert(keys.last()));
    } else {
        assert(Map::<Seq<char>, V>::empty().dom() =~= Set::<Seq<char>>::empty());
    }
}

/// The keys of the map are the keys of the vector.
pub proof fn lemma_assoc_dom<V>(keys: Seq<Seq<char>>, vals: Seq<V>, x: Seq<char>)
    requires
        keys.len() == vals.len(),
    ensures
        assoc(keys, vals).dom().contains(x) <==> keys.contains(x),
    decreases keys.len(),
{
    if keys.len() > 0 {
        lemma_assoc_dom(keys.drop_last(), vals.drop_last(), x);
        if keys.drop_last().contains(x) {
            let i = choose|i: int| 0 <= i < keys.drop_last().len() && keys.drop_last()[i] == x;
            assert(keys[i] == x);
        }
        if keys.contains(x) && x != keys.last() {
            let i = choose|i: int| 0 <= i < keys.len() && keys[i] == x;
            assert(i != keys.len() - 1);
            assert(keys.drop_last()[i] == x);
        }
        if x == keys.last() {
            assert(keys[keys.len() - 1] == x);
        }
    }
}

/// The value of the map at the key of entry `i` is the value of entry `i`.
pub proof fn lemma_assoc_index<V>(keys: Seq<Seq<char>>, vals: Seq<V>, i: int)
    requires
        keys.len() == vals.len(),
        keys.no_duplicates(),
        0 <= i < keys.len(),
    ensures
        assoc(keys, vals).dom().contains(keys[i]),
        assoc(keys, vals)[keys[i]] == vals[i],
    decreases keys.len(),
{
    if i < keys.len() - 1 {
        let k2 = keys.drop_last();
        assert(k2.no_duplicates());
        assert(k2[i] == keys[i]);
        lemma_assoc_index(k2, vals.drop_last(), i);
        assert(keys[i] != keys.last());
    }
}

/// Changing the value of entry `i` changes the map at its key.
pub proof fn lemma_assoc_update<V>(keys: Seq<Seq<char>>, vals: Seq<V>, i: int, x: V)
    requires
        keys.len() == vals.len(),
        keys.no_duplicates(),
        0 <= i < keys.len(),
    ensures
        assoc(keys, vals.update(i, x)) == assoc(keys, vals).insert(keys[i], x),
    decreases keys.len(),
{
    let k2 = keys.drop_last();
    let v2 = vals.drop_last();
    if i == keys.len() - 1 {
        assert(vals.update(i, x).drop_last() =~= v2);
        assert(assoc(keys, vals.update(i, x)) =~= assoc(keys, vals).insert(keys[i], x));
    } else {
        assert(k2.no_duplicates());
        lemma_assoc_update(k2, v2, i, x);
        assert(vals.update(i, x).drop_last() =~= v2.update(i, x));
        assert(k2[i] == keys[i]);
        assert(keys[i] != keys.last());
        assert(assoc(keys, vals.update(i, x)) =~= assoc(keys, vals).insert(keys[i], x));
    }
}

/// Appending an entry with a new key adds that key to the map.
pub proof fn lemma_assoc_push<V>(keys: Seq<Seq<char>>, vals: Seq<V>, k: Seq<char>, x: V)
    ensures
        assoc(keys.push(k), vals.push(x)) == assoc(keys, vals).insert(k, x),
{
    assert(keys.push(k).drop_last() =~= keys);
    assert(vals.push(x).drop_last() =~= vals);
}

/// The position of `key` among `keys`, if it is there.
pub fn find_key(keys: &Vec<String>, key: &str) -> (res: Option<usize>)
    ensures
        match res {
            Some(i) => i < keys.len() && keys@[i as int]@ == key@,
            None => !str_views(keys@).contains(key@),
        },
{
    let mut i: usize = 0;
    while i < keys.len()
        invariant
            i <= keys.len(),
            forall|j: int| 0 <= j < i ==> keys@[j]@ != key@,
        decreases keys.len() - i,
    {
        if str_eq(keys[i].as_str(), key) {
            return Some(i);
        }
        i += 1;
    }
    proof {
        if str_views(keys@).contains(key@) {
            let j = choose|j: int| 0 <= j < str_views(keys@).len() && str_views(keys@)[j] == key@;
            assert(keys@[j]@ == key@);
        }
    }
    None
}

} // verus!

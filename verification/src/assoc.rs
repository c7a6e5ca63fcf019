//! Association lists keyed by strings: a `Vec` of pairs with distinct keys, read as a
//! map.
use vstd::prelude::*;

use crate::text::{chars_eq, chars_of};

verus! {

/// The map of a list of pairs; a later pair for a key replaces an earlier one.
pub open spec fn pairs_map<V>(s: Seq<(Seq<char>, V)>) -> Map<Seq<char>, V>
    decreases s.len(),
{
    if s.len() == 0 {
        Map::<Seq<char>, V>::empty()
    } else {
        pairs_map(s.drop_last()).insert(s.last().0, s.last().1)
    }
}

pub open spec fn keys_distinct<V>(s: Seq<(Seq<char>, V)>) -> bool {
    forall|i: int, j: int| 0 <= i < j < s.len() ==> #[trigger] s[i].0 != #[trigger] s[j].0
}

pub open spec fn pair_views<V>(s: Seq<(String, V)>) -> Seq<(Seq<char>, V)> {
    s.map_values(|p: (String, V)| (p.0@, p.1))
}

/// A key is in the map of a list of pairs exactly when some pair has it.
pub proof fn lemma_pairs_map_keys<V>(s: Seq<(Seq<char>, V)>, k: Seq<char>)
    ensures
        pairs_map(s).contains_key(k) <==> exists|i: int| 0 <= i < s.len() && #[trigger] s[i].0 == k,
    decreases s.len(),
{
    if s.len() > 0 {
        lemma_pairs_map_keys(s.drop_last(), k);
        if exists|i: int| 0 <= i < s.len() && #[trigger] s[i].0 == k {
            let i = choose|i: int| 0 <= i < s.len() && #[trigger] s[i].0 == k;
            if i < s.len() - 1 {
                assert(s.drop_last()[i].0 == k);
            }
        }
        if exists|i: int| 0 <= i < s.drop_last().len() && #[trigger] s.drop_last()[i].0 == k {
            let i = choose|i: int| 0 <= i < s.drop_last().len() && #[trigger] s.drop_last()[i].0 == k;
            assert(s[i].0 == k);
        }
    }
}

/// With distinct keys, each pair reads back from the map.
pub proof fn lemma_pairs_map_value<V>(s: Seq<(Seq<char>, V)>, i: int)
    requires
        keys_distinct(s),
        0 <= i < s.len(),
    ensures
        pairs_map(s).contains_key(s[i].0),
        pairs_map(s)[s[i].0] == s[i].1,
    decreases s.len(),
{
    if i < s.len() - 1 {
        lemma_pairs_map_value(s.drop_last(), i);
        assert(s.drop_last()[i] == s[i]);
        assert(s[i].0 != s[s.len() - 1].0);
    }
}

/// Replacing the value of a pair updates the map at its key and keeps the keys distinct.
pub proof fn lemma_pairs_map_update<V>(s: Seq<(Seq<char>, V)>, i: int, v: V)
    requires
        keys_distinct(s),
        0 <= i < s.len(),
    ensures
        pairs_map(s.update(i, (s[i].0, v))) == pairs_map(s).insert(s[i].0, v),
        keys_distinct(s.update(i, (s[i].0, v))),
    decreases s.len(),
{
    let k = s[i].0;
    let t = s.update(i, (k, v));
    if i == s.len() - 1 {
        assert(t.drop_last() =~= s.drop_last());
        assert(pairs_map(t) =~= pairs_map(s).insert(k, v));
    } else {
        lemma_pairs_map_update(s.drop_last(), i, v);
        assert(t.drop_last() =~= s.drop_last().update(i, (k, v)));
        assert(s.last().0 != k);
        assert(pairs_map(t) =~= pairs_map(s).insert(k, v));
    }
    assert forall|a: int, b: int| 0 <= a < b < t.len() implies #[trigger] t[a].0 != #[trigger] t[b].0 by {
        assert(t[a].0 == s[a].0 && t[b].0 == s[b].0);
    }
}

/// Pushing a pair with a new key inserts it into the map and keeps the keys distinct.
pub proof fn lemma_pairs_map_push<V>(s: Seq<(Seq<char>, V)>, k: Seq<char>, v: V)
    requires
        keys_distinct(s),
        !pairs_map(s).contains_key(k),
    ensures
        pairs_map(s.push((k, v))) == pairs_map(s).insert(k, v),
        keys_distinct(s.push((k, v))),
{
    lemma_pairs_map_keys(s, k);
    assert(s.push((k, v)).drop_last() =~= s);
    let t = s.push((k, v));
    assert forall|a: int, b: int| 0 <= a < b < t.len() implies #[trigger] t[a].0 != #[trigger] t[b].0 by {
        if b == s.len() {
            assert(t[a].0 == s[a].0);
        } else {
            assert(t[a].0 == s[a].0 && t[b].0 == s[b].0);
        }
    }
}

/// The position of the pair with key `key`.
pub fn key_index<V>(v: &Vec<(String, V)>, key: &[char]) -> (r: Option<usize>)
    ensures
        match r {
            Some(i) => i < v@.len() && v@[i as int].0@ == key@,
            None => forall|i: int| 0 <= i < v@.len() ==> #[trigger] v@[i].0@ != key@,
        },
{
    let mut i: usize = 0;
    while i < v.len()
        invariant
            0 <= i <= v.len(),
            forall|j: int| 0 <= j < i ==> #[trigger] v@[j].0@ != key@,
        decreases v.len() - i,
    {
        if chars_eq(&chars_of(v[i].0.as_str()), key) {
            return Some(i);
        }
        i = i + 1;
    }
    None
}

/// Sets the value of `key`, adding the key when it is new.
pub fn assoc_insert<V>(v: &mut Vec<(String, V)>, key: String, val: V)
    requires
        keys_distinct(pair_views(old(v)@)),
    ensures
        keys_distinct(pair_views(final(v)@)),
        pairs_map(pair_views(final(v)@)) == pairs_map(pair_views(old(v)@)).insert(key@, val),
{
    let kc = chars_of(key.as_str());
    let ghost s = pair_views(v@);
    match key_index(v, &kc) {
        Some(i) => {
            proof {
                assert(s[i as int].0 == key@);
                lemma_pairs_map_update(s, i as int, val);
            }
            v.set(i, (key, val));
            proof {
                assert(pair_views(v@) =~= s.update(i as int, (s[i as int].0, val)));
            }
        },
        None => {
            proof {
                lemma_pairs_map_keys(s, key@);
                assert forall|i: int| 0 <= i < s.len() implies s[i].0 != key@ by {
                    assert(s[i].0 == v@[i].0@);
                }
                lemma_pairs_map_push(s, key@, val);
            }
            v.push((key, val));
            proof {
                assert(pair_views(v@) =~= s.push((key@, val)));
            }
        },
    }
}

/// Sets the value of `key` only when the key is new.
pub fn assoc_insert_new<V>(v: &mut Vec<(String, V)>, key: String, val: V)
    requires
        keys_distinct(pair_views(old(v)@)),
    ensures
        keys_distinct(pair_views(final(v)@)),
        pairs_map(pair_views(final(v)@)) == if pairs_map(pair_views(old(v)@)).contains_key(key@) {
            pairs_map(pair_views(old(v)@))
        } else {
            pairs_map(pair_views(old(v)@)).insert(key@, val)
        },
{
    let kc = chars_of(key.as_str());
    let ghost s = pair_views(v@);
    match key_index(v, &kc) {
        Some(i) => {
            proof {
                assert(s[i as int].0 == key@);
                lemma_pairs_map_keys(s, key@);
            }
        },
        None => {
            proof {
                lemma_pairs_map_keys(s, key@);
                assert forall|i: int| 0 <= i < s.len() implies s[i].0 != key@ by {
                    assert(s[i].0 == v@[i].0@);
                }
                lemma_pairs_map_push(s, key@, val);
            }
            v.push((key, val));
            proof {
                assert(pair_views(v@) =~= s.push((key@, val)));
            }
        },
    }
}

} // verus!

//! Lists of entries keyed by a string, read as maps.
//!
//! The per-path server and log tables and the mocked HTTP responses are
//! vectors of `(key, value)` pairs in which no key occurs twice; their
//! contracts speak of the map they stand for.
use vstd::prelude::*;

use crate::text::str_eq;

verus! {

/// Index of the first entry at or after `i` whose key is `k`.
pub open spec fn key_index_from<V>(s: Seq<(String, V)>, k: Seq<char>, i: int) -> Option<int>
    decreases s.len() - i,
{
    if i < 0 || i >= s.len() {
        None
    } else if s[i].0@ == k {
        Some(i)
    } else {
        key_index_from(s, k, i + 1)
    }
}

/// Index of the first entry whose key is `k`.
pub open spec fn key_index<V>(s: Seq<(String, V)>, k: Seq<char>) -> Option<int> {
    key_index_from(s, k, 0)
}

/// No key occurs twice.
pub open spec fn unique_keys<V>(s: Seq<(String, V)>) -> bool {
    forall|i: int, j: int| 0 <= i < s.len() && 0 <= j < s.len() && i != j ==> s[i].0@ != s[j].0@
}

/// The map that the entries stand for.
pub open spec fn keyed_map<V>(s: Seq<(String, V)>) -> Map<Seq<char>, V> {
    Map::new(|k: Seq<char>| key_index(s, k) is Some, |k: Seq<char>| s[key_index(s, k)->0].1)
}

/// The keys of the entries, in order.
pub open spec fn keys_of<V>(s: Seq<(String, V)>) -> Seq<Seq<char>> {
    s.map_values(|e: (String, V)| e.0@)
}

/// The search from `i` finds the first entry at or after `i` with key `k`.
pub proof fn lemma_key_index_from<V>(s: Seq<(String, V)>, k: Seq<char>, i: int)
    requires
        0 <= i,
    ensures
        match key_index_from(s, k, i) {
            Some(j) => i <= j < s.len() && s[j].0@ == k,
            None => forall|m: int| i <= m < s.len() ==> #[trigger] s[m].0@ != k,
        },
    decreases s.len() - i,
{
    if i < s.len() && s[i].0@ != k {
        lemma_key_index_from(s, k, i + 1);
    }
}

/// Where the keys are unique, an entry's index is the index of its key.
pub proof fn lemma_key_index_unique<V>(s: Seq<(String, V)>, k: Seq<char>)
    requires
        unique_keys(s),
    ensures
        match key_index(s, k) {
            Some(j) => 0 <= j < s.len() && s[j].0@ == k,
            None => forall|m: int| 0 <= m < s.len() ==> #[trigger] s[m].0@ != k,
        },
        forall|j: int| 0 <= j < s.len() && #[trigger] s[j].0@ == k ==> key_index(s, k) == Some(j),
{
    lemma_key_index_from(s, k, 0);
}

/// A key is in the map exactly when some entry has it, and then the map
/// holds that entry's value.
pub proof fn lemma_keyed_map_at<V>(s: Seq<(String, V)>, j: int)
    requires
        unique_keys(s),
        0 <= j < s.len(),
    ensures
        keyed_map(s).contains_key(s[j].0@),
        keyed_map(s)[s[j].0@] == s[j].1,
{
    lemma_key_index_unique(s, s[j].0@);
}

/// Replacing the value of an entry replaces it in the map.
pub proof fn lemma_keyed_map_update<V>(s: Seq<(String, V)>, j: int, key: String, v: V)
    requires
        unique_keys(s),
        0 <= j < s.len(),
        key@ == s[j].0@,
    ensures
        unique_keys(s.update(j, (key, v))),
        keyed_map(s.update(j, (key, v))) == keyed_map(s).insert(key@, v),
{
    let t = s.update(j, (key, v));
    assert forall|i: int| 0 <= i < t.len() implies #[trigger] t[i].0@ == s[i].0@ by {}
    assert(unique_keys(t)) by {
        assert forall|a: int, b: int|
            0 <= a < t.len() && 0 <= b < t.len() && a != b implies t[a].0@ != t[b].0@ by {
            assert(t[a].0@ == s[a].0@ && t[b].0@ == s[b].0@);
        }
    }
    assert forall|k: Seq<char>| #[trigger] keyed_map(t).contains_key(k) == keyed_map(s).insert(
        key@,
        v,
    ).contains_key(k) && (keyed_map(t).contains_key(k) ==> keyed_map(t)[k] == keyed_map(s).insert(
        key@,
        v,
    )[k]) by {
        lemma_key_index_unique(s, k);
        lemma_key_index_unique(t, k);
        if k == key@ {
            assert(t[j].0@ == k);
        } else if key_index(s, k) is Some {
            let i = key_index(s, k)->0;
            assert(t[i] == s[i]);
            assert(t[i].0@ == k);
        } else if key_index(t, k) is Some {
            let i = key_index(t, k)->0;
            assert(t[i].0@ == s[i].0@);
        }
    }
    assert(keyed_map(t) =~= keyed_map(s).insert(key@, v));
}

/// Adding an entry with a new key adds it to the map.
pub proof fn lemma_keyed_map_push<V>(s: Seq<(String, V)>, key: String, v: V)
    requires
        unique_keys(s),
        !keyed_map(s).contains_key(key@),
    ensures
        unique_keys(s.push((key, v))),
        keyed_map(s.push((key, v))) == keyed_map(s).insert(key@, v),
{
    let t = s.push((key, v));
    lemma_key_index_unique(s, key@);
    assert(unique_keys(t)) by {
        assert forall|i: int, j: int|
            0 <= i < t.len() && 0 <= j < t.len() && i != j implies t[i].0@ != t[j].0@ by {
            if i < s.len() && j < s.len() {
                assert(t[i] == s[i] && t[j] == s[j]);
            } else if i < s.len() {
                assert(t[i] == s[i]);
            } else {
                assert(t[j] == s[j]);
            }
        }
    }
    assert forall|k: Seq<char>| #[trigger] keyed_map(t).contains_key(k) == keyed_map(s).insert(
        key@,
        v,
    ).contains_key(k) && (keyed_map(t).contains_key(k) ==> keyed_map(t)[k] == keyed_map(s).insert(
        key@,
        v,
    )[k]) by {
        lemma_key_index_unique(s, k);
        lemma_key_index_unique(t, k);
        if k == key@ {
            assert(t[s.len() as int].0@ == k);
        } else if key_index(s, k) is Some {
            let j = key_index(s, k)->0;
            assert(t[j] == s[j]);
            assert(t[j].0@ == k);
        } else if key_index(t, k) is Some {
            let j = key_index(t, k)->0;
            if j < s.len() {
                assert(t[j] == s[j]);
            }
        }
    }
    assert(keyed_map(t) =~= keyed_map(s).insert(key@, v));
}

/// Removing an entry removes its key from the map.
pub proof fn lemma_keyed_map_remove<V>(s: Seq<(String, V)>, j: int)
    requires
        unique_keys(s),
        0 <= j < s.len(),
    ensures
        unique_keys(s.remove(j)),
        keyed_map(s.remove(j)) == keyed_map(s).remove(s[j].0@),
{
    let t = s.remove(j);
    let key = s[j].0@;
    assert(unique_keys(t)) by {
        assert forall|a: int, b: int|
            0 <= a < t.len() && 0 <= b < t.len() && a != b implies t[a].0@ != t[b].0@ by {
            let a2 = if a < j {
                a
            } else {
                a + 1
            };
            let b2 = if b < j {
                b
            } else {
                b + 1
            };
            assert(t[a] == s[a2] && t[b] == s[b2]);
        }
    }
    assert forall|k: Seq<char>| #[trigger] keyed_map(t).contains_key(k) == keyed_map(s).remove(
        key,
    ).contains_key(k) && (keyed_map(t).contains_key(k) ==> keyed_map(t)[k] == keyed_map(s).remove(
        key,
    )[k]) by {
        lemma_key_index_unique(s, k);
        lemma_key_index_unique(t, k);
        if key_index(s, k) is Some {
            let i = key_index(s, k)->0;
            if i < j {
                assert(t[i] == s[i]);
            } else if i > j {
                assert(t[i - 1] == s[i]);
            }
        }
        if key_index(t, k) is Some {
            let i = key_index(t, k)->0;
            if i < j {
                assert(t[i] == s[i]);
            } else {
                assert(t[i] == s[i + 1]);
            }
        }
    }
    assert(keyed_map(t) =~= keyed_map(s).remove(key));
}

/// The index of the entry with key `k`, if any.
pub fn find_key<V>(s: &Vec<(String, V)>, k: &str) -> (r: Option<usize>)
    ensures
        match r {
            Some(i) => i < s@.len() && key_index(s@, k@) == Some(i as int),
            None => key_index(s@, k@) is None,
        },
{
    let mut i: usize = 0;
    while i < s.len()
        invariant
            i <= s@.len(),
            key_index_from(s@, k@, i as int) == key_index(s@, k@),
        decreases s.len() - i,
    {
        if str_eq(s[i].0.as_str(), k) {
            return Some(i);
        }
        i += 1;
    }
    None
}

} // verus!

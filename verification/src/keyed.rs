//! Lookup by text key in sequences of (key, value) entries, which stand in
//! for hash maps keyed by strings.
use vstd::prelude::*;

verus! {

/// The index of the first occurrence of `key` in `keys`, or -1.
pub open spec fn key_index<K>(keys: Seq<K>, key: K) -> int
    decreases keys.len(),
{
    if keys.len() == 0 {
        -1
    } else {
        let i = key_index(keys.drop_last(), key);
        if i >= 0 {
            i
        } else if keys.last() == key {
            keys.len() - 1
        } else {
            -1
        }
    }
}

/// The key texts of exec entries.
pub open spec fn keys_of<V>(entries: Seq<(String, V)>) -> Seq<Seq<char>> {
    entries.map_values(|p: (String, V)| p.0@)
}

/// The keys of entries whose keys are already texts.
pub open spec fn view_keys<V>(entries: Seq<(Seq<char>, V)>) -> Seq<Seq<char>> {
    entries.map_values(|p: (Seq<char>, V)| p.0)
}

/// `key_index` finds the first occurrence, and -1 means none.
pub proof fn lemma_key_index<K>(keys: Seq<K>, key: K)
    ensures
        -1 <= key_index(keys, key) < keys.len(),
        key_index(keys, key) >= 0 ==> keys[key_index(keys, key)] == key,
        forall|j: int|
            0 <= j < keys.len() && (key_index(keys, key) == -1 || j < key_index(keys, key))
                ==> keys[j] != key,
    decreases keys.len(),
{
    if keys.len() > 0 {
        lemma_key_index(keys.drop_last(), key);
        assert forall|j: int| 0 <= j < keys.len() - 1 implies keys.drop_last()[j] == keys[j] by {}
    }
}

/// The first occurrence is where `key_index` says it is.
pub proof fn lemma_key_index_at<K>(keys: Seq<K>, key: K, i: int)
    requires
        0 <= i < keys.len(),
        keys[i] == key,
        forall|j: int| 0 <= j < i ==> keys[j] != key,
    ensures
        key_index(keys, key) == i,
{
    lemma_key_index(keys, key);
}

/// A key that occurs nowhere has index -1.
pub proof fn lemma_key_index_absent<K>(keys: Seq<K>, key: K)
    requires
        forall|j: int| 0 <= j < keys.len() ==> keys[j] != key,
    ensures
        key_index(keys, key) == -1,
{
    lemma_key_index(keys, key);
}

/// Replacing the value of entry `i` under its own key leaves the keys as they were.
pub proof fn lemma_update_keeps_keys<V>(es: Seq<(Seq<char>, V)>, i: int, value: V)
    requires
        0 <= i < es.len(),
    ensures
        view_keys(es.update(i, (es[i].0, value))) == view_keys(es),
{
    assert(view_keys(es.update(i, (es[i].0, value))) =~= view_keys(es));
}

/// Appending a key that does not occur keeps the keys free of repeats.
pub proof fn lemma_push_new_key<K>(keys: Seq<K>, key: K)
    requires
        keys.no_duplicates(),
        key_index(keys, key) == -1,
    ensures
        keys.push(key).no_duplicates(),
{
    lemma_key_index(keys, key);
}

/// Removing one key keeps the keys free of repeats.
pub proof fn lemma_remove_keeps_distinct<K>(keys: Seq<K>, k: int)
    requires
        keys.no_duplicates(),
        0 <= k < keys.len(),
    ensures
        keys.remove(k).no_duplicates(),
{
    let r = keys.remove(k);
    assert forall|i: int, j: int| 0 <= i < r.len() && 0 <= j < r.len() && i != j implies r[i] != r[j] by {
        let a = if i < k { i } else { i + 1 };
        let b = if j < k { j } else { j + 1 };
        assert(r[i] == keys[a] && r[j] == keys[b]);
    }
}

/// Finds the first entry whose key is `key`.
pub fn find_key<V>(entries: &Vec<(String, V)>, key: &String) -> (r: Option<usize>)
    ensures
        match r {
            Some(i) => key_index(keys_of(entries@), key@) == i,
            None => key_index(keys_of(entries@), key@) == -1,
        },
{
    let ghost keys = keys_of(entries@);
    let mut i: usize = 0;
    while i < entries.len()
        invariant
            i <= entries@.len(),
            keys == keys_of(entries@),
            forall|j: int| 0 <= j < i ==> keys[j] != key@,
        decreases entries@.len() - i,
    {
        if entries[i].0 == *key {
            proof {
                lemma_key_index_at(keys, key@, i as int);
            }
            return Some(i);
        }
        i = i + 1;
    }
    proof {
        lemma_key_index_absent(keys, key@);
    }
    None
}

} // verus!

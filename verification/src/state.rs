//! State management for stateful stream operators.
use vstd::prelude::*;
use dashmap::DashMap;
use crate::time::Timestamp;
use crate::json::json_clone;

verus! {

/// `dashmap::DashMap`, the concurrent hash map that holds operator state.
#[verifier::external_type_specification]
#[verifier::external_body]
#[verifier::reject_recursive_types(K)]
#[verifier::reject_recursive_types(V)]
#[verifier::reject_recursive_types(S)]
pub struct ExDashMap<K, V, S>(DashMap<K, V, S>);

/// A single state entry.
#[derive(Debug)]
pub struct StateEntry {
    pub value: serde_json::Value,
    pub updated_at: Timestamp,
}

impl Clone for StateEntry {
    fn clone(&self) -> (r: Self)
        ensures
            r == *self,
    {
        StateEntry { value: json_clone(&self.value), updated_at: self.updated_at }
    }
}

/// What a state map holds: entries by key text.
pub uninterp spec fn state_entries(m: DashMap<String, StateEntry>) -> Map<Seq<char>, StateEntry>;

/// The empty state map.
pub open spec fn no_entries() -> Map<Seq<char>, StateEntry> {
    Map::empty()
}

/// Calls `DashMap::new()`. Claimed: the map is empty.
#[verifier::external_body]
fn state_map_new() -> (r: DashMap<String, StateEntry>)
    ensures
        state_entries(r) == no_entries(),
{
    DashMap::new()
}

/// Calls `DashMap::get(key)` and clones the value found.
/// Claimed: the entry stored under `key`, if any.
#[verifier::external_body]
fn state_map_get(m: &DashMap<String, StateEntry>, key: &str) -> (r: Option<StateEntry>)
    ensures
        r == (if state_entries(*m).contains_key(key@) { Some(state_entries(*m)[key@]) } else { None }),
{
    match m.get(key) {
        Some(e) => Some(e.value().clone()),
        None => None,
    }
}

/// Calls `DashMap::insert(key, value)`.
/// Claimed: `key` now maps to `value`, all else unchanged; the result is
/// the entry it replaced, if any.
#[verifier::external_body]
fn state_map_insert(m: &mut DashMap<String, StateEntry>, key: String, value: StateEntry) -> (r: Option<StateEntry>)
    ensures
        state_entries(*final(m)) == state_entries(*old(m)).insert(key@, value),
        r == (if state_entries(*old(m)).contains_key(key@) { Some(state_entries(*old(m))[key@]) } else { None }),
{
    m.insert(key, value)
}

/// Calls `DashMap::remove(key)` and keeps the removed value.
/// Claimed: `key` no longer maps to anything, all else unchanged; the
/// result is the entry removed, if any.
#[verifier::external_body]
fn state_map_remove(m: &mut DashMap<String, StateEntry>, key: &str) -> (r: Option<StateEntry>)
    ensures
        state_entries(*final(m)) == state_entries(*old(m)).remove(key@),
        r == (if state_entries(*old(m)).contains_key(key@) { Some(state_entries(*old(m))[key@]) } else { None }),
{
    match m.remove(key) {
        Some(kv) => Some(kv.1),
        None => None,
    }
}

/// Calls `DashMap::iter()` and clones each key.
/// Claimed: every key once, in an order that the source leaves open.
#[verifier::external_body]
fn state_map_keys(m: &DashMap<String, StateEntry>) -> (r: Vec<String>)
    ensures
        r@.len() == state_entries(*m).dom().len(),
        forall|i: int| 0 <= i < r@.len() ==> state_entries(*m).contains_key(#[trigger] r@[i]@),
        forall|k: Seq<char>| state_entries(*m).contains_key(k) ==> exists|i: int| 0 <= i < r@.len() && #[trigger] r@[i]@ == k,
        forall|i: int, j: int| 0 <= i < j < r@.len() ==> r@[i]@ != r@[j]@,
{
    m.iter().map(|e| e.key().clone()).collect()
}

/// Calls `DashMap::len()`. Claimed: the number of entries.
#[verifier::external_body]
fn state_map_len(m: &DashMap<String, StateEntry>) -> (r: usize)
    ensures
        r == state_entries(*m).dom().len(),
{
    m.len()
}

/// Calls `DashMap::is_empty()`. Claimed: whether there are no entries.
#[verifier::external_body]
fn state_map_is_empty(m: &DashMap<String, StateEntry>) -> (r: bool)
    ensures
        r == (state_entries(*m).dom() == Set::<Seq<char>>::empty()),
{
    m.is_empty()
}

/// Calls `DashMap::clear()`. Claimed: the map is empty.
#[verifier::external_body]
fn state_map_clear(m: &mut DashMap<String, StateEntry>)
    ensures
        state_entries(*final(m)) == no_entries(),
{
    m.clear()
}

/// State store for operator state, keyed by text.
pub struct StateStore {
    inner: DashMap<String, StateEntry>,
}

impl View for StateStore {
    type V = Map<Seq<char>, StateEntry>;

    closed spec fn view(&self) -> Map<Seq<char>, StateEntry> {
        state_entries(self.inner)
    }
}

impl StateStore {
    /// An empty store.
    pub fn new() -> (r: StateStore)
        ensures
            r@ == Map::<Seq<char>, StateEntry>::empty(),
    {
        StateStore { inner: state_map_new() }
    }

    /// The entry for `key`, if any.
    pub fn get(&self, key: &str) -> (r: Option<StateEntry>)
        ensures
            r == lookup(self@, key@),
    {
        state_map_get(&self.inner, key)
    }

    /// Sets `key` to `value`, stamped with the current time.
    pub fn set(&mut self, key: &str, value: serde_json::Value)
        ensures
            set_outcome(old(self)@, final(self)@, key@, value),
    {
        let entry = StateEntry { value, updated_at: Timestamp::now() };
        let _ = state_map_insert(&mut self.inner, key.to_owned(), entry);
    }

    /// Removes the entry for `key`, giving it back if there was one.
    pub fn remove(&mut self, key: &str) -> (r: Option<StateEntry>)
        ensures
            final(self)@ == old(self)@.remove(key@),
            r == lookup(old(self)@, key@),
    {
        state_map_remove(&mut self.inner, key)
    }

    /// All keys, each once, in no particular order.
    pub fn keys(&self) -> (r: Vec<String>)
        ensures
            r@.len() == self@.dom().len(),
            forall|i: int| 0 <= i < r@.len() ==> self@.contains_key(#[trigger] r@[i]@),
            forall|k: Seq<char>| self@.contains_key(k) ==> exists|i: int| 0 <= i < r@.len() && #[trigger] r@[i]@ == k,
            forall|i: int, j: int| 0 <= i < j < r@.len() ==> r@[i]@ != r@[j]@,
    {
        state_map_keys(&self.inner)
    }

    /// The number of entries.
    pub fn len(&self) -> (r: usize)
        ensures
            r == self@.dom().len(),
    {
        state_map_len(&self.inner)
    }

    /// Is the store empty?
    pub fn is_empty(&self) -> (r: bool)
        ensures
            r == (self@.dom() == Set::<Seq<char>>::empty()),
    {
        state_map_is_empty(&self.inner)
    }

    /// Removes every entry.
    pub fn clear(&mut self)
        ensures
            final(self)@ == Map::<Seq<char>, StateEntry>::empty(),
    {
        state_map_clear(&mut self.inner)
    }
}

impl Default for StateStore {
    fn default() -> (r: StateStore)
        ensures
            r@ == Map::<Seq<char>, StateEntry>::empty(),
    {
        StateStore::new()
    }
}

/// The entry under `key` in `m`, if any.
pub open spec fn lookup(m: Map<Seq<char>, StateEntry>, key: Seq<char>) -> Option<StateEntry> {
    if m.contains_key(key) { Some(m[key]) } else { None }
}

/// Is `after` what `set(key, value)` may leave of `before`: `key` holds
/// `value` (with some representable time), every other entry is kept?
pub open spec fn set_outcome(
    before: Map<Seq<char>, StateEntry>,
    after: Map<Seq<char>, StateEntry>,
    key: Seq<char>,
    value: serde_json::Value,
) -> bool {
    &&& after.dom() == before.dom().insert(key)
    &&& after[key].value == value
    &&& after[key].updated_at.wf()
    &&& forall|k: Seq<char>| k != key && before.contains_key(k) ==> after[k] == before[k]
}

/// A read after a write gives back the value written, and leaves the
/// other keys' reads as they were.
pub proof fn law_get_after_set(
    before: Map<Seq<char>, StateEntry>,
    after: Map<Seq<char>, StateEntry>,
    key: Seq<char>,
    value: serde_json::Value,
    other: Seq<char>,
)
    requires
        set_outcome(before, after, key, value),
    ensures
        lookup(after, key) matches Some(e) && e.value == value,
        other != key ==> lookup(after, other) == lookup(before, other),
{
    assert(after.dom().contains(key));
    if other != key {
        assert(after.contains_key(other) == before.contains_key(other));
    }
}

/// A read after a removal finds nothing.
pub proof fn law_get_after_remove(before: Map<Seq<char>, StateEntry>, key: Seq<char>)
    ensures
        lookup(before.remove(key), key) is None,
{
}

} // verus!

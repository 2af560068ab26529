//! Checkpointing: snapshots of operator state, their numbering, file names
//! and retention. Reading and writing the files is left to the caller.
use vstd::prelude::*;
use crate::time::Timestamp;
use crate::state::{StateStore, StateEntry};
use crate::json::json_clone;
use crate::text::{dec_text, append_decimal};

verus! {

/// A checkpoint: a snapshot of the state store's entries.
#[derive(Debug)]
pub struct Checkpoint {
    pub id: u64,
    pub timestamp: Timestamp,
    pub entries: Vec<(String, serde_json::Value)>,
}

/// Numbers checkpoints and decides which to keep.
#[derive(Debug)]
pub struct CheckpointManager {
    dir: String,
    next_id: u64,
    max_retained: usize,
}

/// The content of a [`CheckpointManager`].
pub struct CheckpointManagerView {
    pub dir: Seq<char>,
    pub next_id: u64,
    pub max_retained: usize,
}

impl View for CheckpointManager {
    type V = CheckpointManagerView;

    closed spec fn view(&self) -> CheckpointManagerView {
        CheckpointManagerView { dir: self.dir@, next_id: self.next_id, max_retained: self.max_retained }
    }
}

/// Is `s` in non-decreasing order?
pub open spec fn sorted(s: Seq<u64>) -> bool {
    forall|i: int, j: int| 0 <= i <= j < s.len() ==> s[i] <= s[j]
}

/// The ids in non-decreasing order, by insertion: each id goes in after
/// every id already placed that is no larger.
fn sorted_ids(ids: &Vec<u64>) -> (r: Vec<u64>)
    ensures
        r@.to_multiset() == ids@.to_multiset(),
        sorted(r@),
{
    let mut out: Vec<u64> = Vec::new();
    let mut i: usize = 0;
    proof {
        out@.to_multiset_ensures();
        ids@.subrange(0, 0).to_multiset_ensures();
        assert(out@.to_multiset() =~= ids@.subrange(0, 0).to_multiset());
    }
    while i < ids.len()
        invariant
            i <= ids@.len(),
            sorted(out@),
            out@.to_multiset() == ids@.subrange(0, i as int).to_multiset(),
        decreases ids@.len() - i,
    {
        let x: u64 = ids[i];
        let mut p: usize = 0;
        while p < out.len() && out[p] <= x
            invariant
                p <= out@.len(),
                sorted(out@),
                forall|j: int| 0 <= j < p ==> out@[j] <= x,
            decreases out@.len() - p,
        {
            p = p + 1;
        }
        let ghost before = out@;
        out.insert(p, x);
        proof {
            assert(out@ == before.insert(p as int, x));
            assert forall|a: int, b: int| 0 <= a <= b < out@.len() implies out@[a] <= out@[b] by {
                if p < before.len() {
                    assert(before[p as int] > x);
                }
            }
            assert(ids@.subrange(0, i as int + 1) =~= ids@.subrange(0, i as int).push(x));
            vstd::seq_lib::to_multiset_build(ids@.subrange(0, i as int), x);
            vstd::seq_lib::to_multiset_insert(before, p as int, x);
        }
        i = i + 1;
    }
    assert(ids@.subrange(0, ids@.len() as int) =~= ids@);
    out
}

/// Checkpoint entries as key texts and values.
pub open spec fn entries_view(es: Seq<(String, serde_json::Value)>) -> Seq<(Seq<char>, serde_json::Value)> {
    es.map_values(|p: (String, serde_json::Value)| (p.0@, p.1))
}

/// Do `es` hold every entry of `state` exactly once, as its key and value?
pub open spec fn snapshot_of(state: Map<Seq<char>, StateEntry>, es: Seq<(Seq<char>, serde_json::Value)>) -> bool {
    &&& forall|i: int| 0 <= i < es.len() ==> state.contains_key(#[trigger] es[i].0) && es[i].1 == state[es[i].0].value
    &&& forall|k: Seq<char>| state.contains_key(k) ==> exists|i: int| 0 <= i < es.len() && #[trigger] es[i].0 == k
    &&& forall|i: int, j: int| 0 <= i < j < es.len() ==> es[i].0 != es[j].0
}

/// Is entry `i` the last one of `es` with its key?
pub open spec fn last_with_key(es: Seq<(Seq<char>, serde_json::Value)>, i: int) -> bool {
    forall|j: int| i < j < es.len() ==> es[j].0 != es[i].0
}

/// Is `after` what applying `es` to `before` may leave: each key of `es`
/// holds the value of its last entry, every other key keeps its entry?
pub open spec fn restored(
    before: Map<Seq<char>, StateEntry>,
    es: Seq<(Seq<char>, serde_json::Value)>,
    after: Map<Seq<char>, StateEntry>,
) -> bool {
    &&& forall|i: int|
        0 <= i < es.len() && last_with_key(es, i) ==> #[trigger] after.contains_key(es[i].0) && after[es[i].0].value
            == es[i].1
    &&& forall|k: Seq<char>|
        before.contains_key(k) && (forall|i: int| 0 <= i < es.len() ==> es[i].0 != k) ==> #[trigger] after.contains_key(k)
            && after[k] == before[k]
}

/// Restoring a snapshot gives back the value of every entry of the state
/// it was taken of.
pub proof fn law_restore_gives_back_snapshot(
    state: Map<Seq<char>, StateEntry>,
    es: Seq<(Seq<char>, serde_json::Value)>,
    before: Map<Seq<char>, StateEntry>,
    after: Map<Seq<char>, StateEntry>,
)
    requires
        snapshot_of(state, es),
        restored(before, es, after),
    ensures
        forall|k: Seq<char>|
            #![trigger state.contains_key(k)]
            state.contains_key(k) ==> after.contains_key(k) && after[k].value == state[k].value,
{
    assert forall|k: Seq<char>| #![trigger state.contains_key(k)] state.contains_key(k) implies after.contains_key(k)
        && after[k].value == state[k].value by {
        let i = choose|i: int| 0 <= i < es.len() && #[trigger] es[i].0 == k;
        assert forall|j: int| i < j < es.len() implies es[j].0 != es[i].0 by {
            assert(es[i].0 != es[j].0);
        }
        assert(last_with_key(es, i));
        assert(after.contains_key(es[i].0));
    }
}

/// `t` left-padded with zeros to at least `width` characters.
pub open spec fn zero_pad(t: Seq<char>, width: nat) -> Seq<char> {
    if t.len() >= width {
        t
    } else {
        Seq::new((width - t.len()) as nat, |i: int| '0') + t
    }
}

/// The file name of checkpoint `id`: `checkpoint_{id:08}.json`.
pub open spec fn checkpoint_file_text(id: u64) -> Seq<char> {
    "checkpoint_"@ + zero_pad(dec_text(id as nat), 8) + ".json"@
}

impl CheckpointManager {
    /// A manager for the checkpoints in `dir`, where `existing_ids` are the
    /// ids of the checkpoints already there: numbering continues after the
    /// largest of them, or starts at 0.
    pub fn new(dir: &str, max_retained: usize, existing_ids: Vec<u64>) -> (r: CheckpointManager)
        requires
            forall|i: int| 0 <= i < existing_ids@.len() ==> existing_ids@[i] < u64::MAX,
        ensures
            r@.dir == dir@,
            r@.max_retained == max_retained,
            existing_ids@.len() == 0 ==> r@.next_id == 0,
            existing_ids@.len() > 0 ==> existing_ids@.contains((r@.next_id - 1) as u64) && r@.next_id >= 1,
            forall|i: int| 0 <= i < existing_ids@.len() ==> existing_ids@[i] < r@.next_id,
    {
        let ghost orig = existing_ids@;
        let ids: Vec<u64> = sorted_ids(&existing_ids);
        let n: usize = ids.len();
        let next_id: u64 = if n == 0 {
            0
        } else {
            proof {
                orig.to_multiset_ensures();
                ids@.to_multiset_ensures();
                assert(ids@.contains(ids@[n - 1]));
                assert(ids@.to_multiset().contains(ids@[n - 1]));
                assert(orig.contains(ids@[n - 1]));
            }
            ids[n - 1] + 1
        };
        proof {
            orig.to_multiset_ensures();
            ids@.to_multiset_ensures();
            assert forall|i: int| 0 <= i < orig.len() implies orig[i] < next_id by {
                assert(orig.to_multiset().contains(orig[i]));
                assert(ids@.contains(orig[i]));
                let k = choose|k: int| 0 <= k < ids@.len() && ids@[k] == orig[i];
                assert(ids@[k] <= ids@[n - 1]);
            }
        }
        CheckpointManager { dir: dir.to_owned(), next_id, max_retained }
    }

    /// The directory the checkpoints live in.
    pub fn dir(&self) -> (r: &str)
        ensures
            r@ == self@.dir,
    {
        self.dir.as_str()
    }

    /// The id the next checkpoint gets.
    pub fn next_id(&self) -> (r: u64)
        ensures
            r == self@.next_id,
    {
        self.next_id
    }

    /// A snapshot of `state` as the next checkpoint: every entry's key and
    /// value, in the order `keys()` gives them.
    pub fn snapshot(&self, state: &StateStore) -> (r: Checkpoint)
        ensures
            r.id == self@.next_id,
            r.timestamp.wf(),
            r.entries@.len() == state@.dom().len(),
            snapshot_of(state@, entries_view(r.entries@)),
    {
        let keys: Vec<String> = state.keys();
        let mut entries: Vec<(String, serde_json::Value)> = Vec::new();
        let mut i: usize = 0;
        while i < keys.len()
            invariant
                i <= keys@.len(),
                entries@.len() == i,
                keys@.len() == state@.dom().len(),
                forall|k: int| 0 <= k < keys@.len() ==> state@.contains_key(#[trigger] keys@[k]@),
                forall|k: Seq<char>| state@.contains_key(k) ==> exists|a: int| 0 <= a < keys@.len() && #[trigger] keys@[a]@ == k,
                forall|a: int, b: int| 0 <= a < b < keys@.len() ==> keys@[a]@ != keys@[b]@,
                forall|k: int| 0 <= k < i ==> #[trigger] entries@[k].0@ == keys@[k]@ && entries@[k].1 == state@[keys@[k]@].value,
            decreases keys@.len() - i,
        {
            match state.get(keys[i].as_str()) {
                Some(e) => {
                    entries.push((keys[i].clone(), e.value));
                },
                None => {
                    assert(state@.contains_key(keys@[i as int]@));
                },
            }
            i = i + 1;
        }
        proof {
            let es = entries_view(entries@);
            assert forall|a: int| 0 <= a < keys@.len() implies es[a].0 == keys@[a]@ by {
                assert(entries@[a].0@ == keys@[a]@);
            }
            assert forall|k: Seq<char>| state@.contains_key(k) implies exists|a: int| 0 <= a < es.len() && #[trigger] es[a].0 == k by {
                let a = choose|a: int| 0 <= a < keys@.len() && #[trigger] keys@[a]@ == k;
                assert(es[a].0 == k);
            }
        }
        Checkpoint { id: self.next_id, timestamp: Timestamp::now(), entries }
    }

    /// Moves numbering past a checkpoint that was written.
    pub fn commit(&mut self)
        requires
            old(self)@.next_id < u64::MAX,
        ensures
            final(self)@ == (CheckpointManagerView { next_id: (old(self)@.next_id + 1) as u64, ..old(self)@ }),
    {
        self.next_id = self.next_id + 1;
    }

    /// The ids of the checkpoints to delete so that at most `max_retained`
    /// remain: the oldest (smallest) ones, smallest first.
    pub fn gc_victims(&self, existing_ids: Vec<u64>) -> (r: Vec<u64>)
        ensures
            existing_ids@.len() <= self@.max_retained ==> r@.len() == 0,
            existing_ids@.len() > self@.max_retained ==> r@.len() == existing_ids@.len() - self@.max_retained,
            sorted(r@),
            forall|i: int| 0 <= i < r@.len() ==> existing_ids@.contains(#[trigger] r@[i]),
            forall|i: int, k: int|
                0 <= i < r@.len() && 0 <= k < existing_ids@.len() && !r@.contains(existing_ids@[k]) ==> r@[i] <= existing_ids@[k],
    {
        let ghost orig = existing_ids@;
        let ids: Vec<u64> = sorted_ids(&existing_ids);
        proof {
            orig.to_multiset_ensures();
            ids@.to_multiset_ensures();
        }
        let mut out: Vec<u64> = Vec::new();
        if ids.len() > self.max_retained {
            let to_remove: usize = ids.len() - self.max_retained;
            let mut i: usize = 0;
            while i < to_remove
                invariant
                    i <= to_remove,
                    to_remove <= ids@.len(),
                    out@ == ids@.subrange(0, i as int),
                decreases to_remove - i,
            {
                out.push(ids[i]);
                assert(out@ =~= ids@.subrange(0, i as int + 1));
                i = i + 1;
            }
            proof {
                assert forall|a: int| 0 <= a < out@.len() implies orig.contains(#[trigger] out@[a]) by {
                    assert(ids@.to_multiset().contains(out@[a]));
                }
                assert forall|a: int, k: int|
                    0 <= a < out@.len() && 0 <= k < orig.len() && !out@.contains(orig[k]) implies out@[a] <= orig[k] by {
                    assert(orig.to_multiset().contains(orig[k]));
                    assert(ids@.contains(orig[k]));
                    let m = choose|m: int| 0 <= m < ids@.len() && ids@[m] == orig[k];
                    if m < to_remove {
                        assert(out@[m] == orig[k]);
                    }
                }
            }
        }
        out
    }

    /// The file name of checkpoint `id`: `checkpoint_` then the id in at
    /// least eight zero-padded digits, then `.json`.
    pub fn checkpoint_file_name(id: u64) -> (r: String)
        ensures
            r@ == checkpoint_file_text(id),
    {
        let mut digits: String = String::new();
        append_decimal(&mut digits, id as u128);
        assert(digits@ =~= dec_text(id as nat));
        let mut s: String = String::new();
        s.append("checkpoint_");
        let ghost base = s@;
        let len: usize = digits.unicode_len();
        let mut k: usize = len;
        while k < 8
            invariant
                len == dec_text(id as nat).len(),
                len <= k <= 8 || (k == len && len > 8),
                s@ == base + Seq::new((k - len) as nat, |i: int| '0'),
            decreases 8 - k,
        {
            proof {
                reveal_strlit("0");
            }
            s.append("0");
            assert(s@ =~= base + Seq::new((k + 1 - len) as nat, |i: int| '0'));
            k = k + 1;
        }
        s.append(digits.as_str());
        s.append(".json");
        assert(s@ =~= checkpoint_file_text(id));
        s
    }
}

/// Applies a checkpoint's entries to `state`, each stamped with the current time.
pub fn restore_into(cp: &Checkpoint, state: &mut StateStore)
    ensures
        restored(old(state)@, entries_view(cp.entries@), final(state)@),
{
    let mut i: usize = 0;
    while i < cp.entries.len()
        invariant
            i <= cp.entries@.len(),
            forall|a: int|
                0 <= a < i && (forall|j: int| a < j < i ==> cp.entries@[j].0@ != cp.entries@[a].0@)
                    ==> #[trigger] state@.contains_key(cp.entries@[a].0@) && state@[cp.entries@[a].0@].value == cp.entries@[a].1,
            forall|k: Seq<char>|
                old(state)@.contains_key(k) && (forall|a: int| 0 <= a < i ==> cp.entries@[a].0@ != k)
                    ==> #[trigger] state@.contains_key(k) && state@[k] == old(state)@[k],
        decreases cp.entries@.len() - i,
    {
        let v: serde_json::Value = json_clone(&cp.entries[i].1);
        let ghost prev = state@;
        let ghost key = cp.entries@[i as int].0@;
        state.set(cp.entries[i].0.as_str(), v);
        assert forall|k: Seq<char>|
            old(state)@.contains_key(k) && (forall|a: int| 0 <= a < i + 1 ==> cp.entries@[a].0@ != k)
                implies #[trigger] state@.contains_key(k) && state@[k] == old(state)@[k] by {
            assert(cp.entries@[i as int].0@ != k);
            assert(prev.contains_key(k));
            assert(state@.dom().contains(k));
        }
        assert forall|a: int|
            0 <= a < i + 1 && (forall|j: int| a < j < i + 1 ==> cp.entries@[j].0@ != cp.entries@[a].0@)
                implies #[trigger] state@.contains_key(cp.entries@[a].0@) && state@[cp.entries@[a].0@].value == cp.entries@[a].1 by {
            if a < i {
                assert(cp.entries@[i as int].0@ != cp.entries@[a].0@);
                assert(prev.contains_key(cp.entries@[a].0@));
                assert(state@.dom().contains(cp.entries@[a].0@));
            }
        }
        i = i + 1;
    }
    proof {
        let es = entries_view(cp.entries@);
        assert forall|a: int| 0 <= a < es.len() && last_with_key(es, a) implies #[trigger] state@.contains_key(es[a].0)
            && state@[es[a].0].value == es[a].1 by {
            assert forall|j: int| a < j < cp.entries@.len() implies cp.entries@[j].0@ != cp.entries@[a].0@ by {
                assert(es[j].0 != es[a].0);
            }
        }
        assert forall|k: Seq<char>|
            old(state)@.contains_key(k) && (forall|a: int| 0 <= a < es.len() ==> es[a].0 != k) implies #[trigger] state@.contains_key(k)
                && state@[k] == old(state)@[k] by {
            assert forall|a: int| 0 <= a < cp.entries@.len() implies cp.entries@[a].0@ != k by {
                assert(es[a].0 != k);
            }
        }
    }
}

} // verus!

//! Spatial aggregation bookkeeping: per grid cell, how many events and which
//! entities were seen, and when a cell reaches its emit threshold. Mapping
//! coordinates to cells and aggregating measured values is left to the caller.
use vstd::prelude::*;
use crate::keyed::{key_index, lemma_key_index, lemma_key_index_at, lemma_key_index_absent};

verus! {

/// A grid cell identifier.
#[derive(Clone, Copy, Debug, Hash, PartialEq, Eq, Structural)]
pub struct CellId {
    pub col: i64,
    pub row: i64,
}

/// Aggregation function for cells.
#[derive(Clone, Copy, Debug, PartialEq, Eq, Structural)]
pub enum AggregateFunction {
    Count,
    Sum,
    Mean,
    Max,
    Min,
}

/// What a cell has seen: its event count and its distinct entities in order
/// of first appearance.
pub struct CellTallyView {
    pub count: u64,
    pub entities: Seq<Seq<char>>,
}

/// The outcome of observing one event in a cell.
#[derive(Clone, Copy, Debug, PartialEq, Eq, Structural)]
pub struct TallyUpdate {
    /// The cell's event count, this event included.
    pub count: u64,
    /// The cell's number of distinct entities, this event's included.
    pub unique_entities: usize,
    /// Did the count reach the threshold (and the cell start over)?
    pub reached: bool,
}

/// Per-cell event counts and entities, in order of each cell's first event.
pub struct CellTally {
    cells: Vec<(CellId, u64, Vec<String>)>,
}

/// Entity names as texts.
pub open spec fn names_view(es: Seq<String>) -> Seq<Seq<char>> {
    es.map_values(|s: String| s@)
}

/// The cells' tallies.
pub open spec fn cells_view(cs: Seq<(CellId, u64, Vec<String>)>) -> Seq<(CellId, CellTallyView)> {
    cs.map_values(|c: (CellId, u64, Vec<String>)| (c.0, CellTallyView { count: c.1, entities: names_view(c.2@) }))
}

/// The cell ids, in order.
pub open spec fn cell_ids(cs: Seq<(CellId, CellTallyView)>) -> Seq<CellId> {
    cs.map_values(|c: (CellId, CellTallyView)| c.0)
}

impl View for CellTally {
    type V = Seq<(CellId, CellTallyView)>;

    closed spec fn view(&self) -> Seq<(CellId, CellTallyView)> {
        cells_view(self.cells@)
    }
}

/// The tally of `cell` before the event (empty if the cell has none).
pub open spec fn tally_of(cs: Seq<(CellId, CellTallyView)>, cell: CellId) -> CellTallyView {
    let i = key_index(cell_ids(cs), cell);
    if i >= 0 { cs[i].1 } else { CellTallyView { count: 0, entities: Seq::empty() } }
}

/// The tally of a cell after an event of `entity`.
pub open spec fn tally_add(t: CellTallyView, entity: Seq<char>) -> CellTallyView {
    CellTallyView {
        count: (t.count + 1) as u64,
        entities: if t.entities.contains(entity) { t.entities } else { t.entities.push(entity) },
    }
}

/// The cells after an event of `entity` in `cell`: the cell's tally grows
/// (a new cell goes at the end); a cell that reaches `threshold` is removed.
pub open spec fn observed(cs: Seq<(CellId, CellTallyView)>, cell: CellId, entity: Seq<char>, threshold: u64) -> Seq<(CellId, CellTallyView)> {
    let i = key_index(cell_ids(cs), cell);
    let t = tally_add(tally_of(cs, cell), entity);
    let grown = if i >= 0 { cs.update(i, (cell, t)) } else { cs.push((cell, t)) };
    let k = if i >= 0 { i } else { cs.len() as int };
    if t.count >= threshold { grown.remove(k) } else { grown }
}

/// Each cell is tallied once and counts each entity once: observing an event
/// leaves the cells listed once each, and every cell's entities listed once
/// each.
pub proof fn law_cells_and_entities_listed_once(
    cs: Seq<(CellId, CellTallyView)>,
    cell: CellId,
    entity: Seq<char>,
    threshold: u64,
)
    requires
        cell_ids(cs).no_duplicates(),
        forall|j: int| 0 <= j < cs.len() ==> (#[trigger] cs[j]).1.entities.no_duplicates(),
    ensures
        cell_ids(observed(cs, cell, entity, threshold)).no_duplicates(),
        forall|j: int|
            0 <= j < observed(cs, cell, entity, threshold).len()
                ==> (#[trigger] observed(cs, cell, entity, threshold)[j]).1.entities.no_duplicates(),
{
    let ids = cell_ids(cs);
    lemma_key_index(ids, cell);
    let i = key_index(ids, cell);
    let t = tally_add(tally_of(cs, cell), entity);
    let grown = if i >= 0 { cs.update(i, (cell, t)) } else { cs.push((cell, t)) };
    let k = if i >= 0 { i } else { cs.len() as int };
    assert(tally_of(cs, cell).entities.no_duplicates());
    assert(t.entities.no_duplicates());
    if i >= 0 {
        assert(cell_ids(grown) =~= ids);
    } else {
        assert(cell_ids(grown) =~= ids.push(cell));
        crate::keyed::lemma_push_new_key(ids, cell);
    }
    assert forall|j: int| 0 <= j < grown.len() implies (#[trigger] grown[j]).1.entities.no_duplicates() by {
        if j != k {
            assert(grown[j] == cs[j]);
        }
    }
    if t.count >= threshold {
        assert(cell_ids(grown.remove(k)) =~= cell_ids(grown).remove(k));
        crate::keyed::lemma_remove_keeps_distinct(cell_ids(grown), k);
        assert forall|j: int| 0 <= j < grown.remove(k).len() implies (#[trigger] grown.remove(k)[j]).1.entities.no_duplicates() by {
            if j < k {
                assert(grown.remove(k)[j] == grown[j]);
            } else {
                assert(grown.remove(k)[j] == grown[j + 1]);
            }
        }
    }
}

/// A cell never holds `threshold` events or more: observing an event keeps
/// every cell's count below the threshold, since a cell that reaches it
/// starts over.
pub proof fn law_cells_stay_below_threshold(
    cs: Seq<(CellId, CellTallyView)>,
    cell: CellId,
    entity: Seq<char>,
    threshold: u64,
)
    requires
        forall|i: int| 0 <= i < cs.len() ==> #[trigger] cs[i].1.count < threshold,
    ensures
        forall|i: int|
            0 <= i < observed(cs, cell, entity, threshold).len() ==> #[trigger] observed(cs, cell, entity, threshold)[i].1.count
                < threshold,
{
    let ids = cell_ids(cs);
    lemma_key_index(ids, cell);
    let i = key_index(ids, cell);
    let t = tally_add(tally_of(cs, cell), entity);
    let r = observed(cs, cell, entity, threshold);
    if i >= 0 {
        assert(tally_of(cs, cell) == cs[i].1);
    }
    let grown = if i >= 0 { cs.update(i, (cell, t)) } else { cs.push((cell, t)) };
    let k = if i >= 0 { i } else { cs.len() as int };
    assert forall|j: int| 0 <= j < grown.len() && j != k implies #[trigger] grown[j].1.count < threshold by {
        assert(grown[j] == cs[j]);
    }
    assert forall|j: int| 0 <= j < r.len() implies #[trigger] r[j].1.count < threshold by {
        if t.count >= threshold {
            if j < k {
                assert(r[j] == grown[j]);
            } else {
                assert(r[j] == grown[j + 1]);
            }
        } else {
            assert(r[j] == grown[j]);
        }
    }
}

impl CellTally {
    /// No cells yet.
    pub fn new() -> (r: CellTally)
        ensures
            r@ == Seq::<(CellId, CellTallyView)>::empty(),
    {
        let r = CellTally { cells: Vec::new() };
        assert(cells_view(r.cells@) =~= Seq::<(CellId, CellTallyView)>::empty());
        r
    }

    /// Counts an event of `entity` in `cell`; the cell starts over once its
    /// count reaches `threshold`.
    pub fn observe(&mut self, cell: CellId, entity: &String, threshold: u64) -> (r: TallyUpdate)
        requires
            tally_of(old(self)@, cell).count < u64::MAX,
        ensures
            final(self)@ == observed(old(self)@, cell, entity@, threshold),
            r.count == tally_add(tally_of(old(self)@, cell), entity@).count,
            r.unique_entities == tally_add(tally_of(old(self)@, cell), entity@).entities.len(),
            r.reached == (r.count >= threshold),
    {
        let ghost cs = self@;
        let ghost ids = cell_ids(cs);
        let mut i: usize = 0;
        let mut found: Option<usize> = None;
        while found.is_none() && i < self.cells.len()
            invariant
                i <= self.cells@.len(),
                cs == cells_view(self.cells@),
                ids == cell_ids(cs),
                forall|j: int| 0 <= j < i ==> ids[j] != cell,
                found is Some ==> found == Some(i) && i < self.cells@.len() && ids[i as int] == cell,
            decreases self.cells@.len() - i + (if found is Some { 0int } else { 1int }),
        {
            if self.cells[i].0.col == cell.col && self.cells[i].0.row == cell.row {
                found = Some(i);
            } else {
                i = i + 1;
            }
        }
        let (k, mut count, mut entities): (usize, u64, Vec<String>) = match found {
            Some(j) => {
                proof {
                    lemma_key_index_at(ids, cell, j as int);
                }
                let c: (CellId, u64, Vec<String>) = self.cells.remove(j);
                (j, c.1, c.2)
            },
            None => {
                proof {
                    lemma_key_index_absent(ids, cell);
                }
                (self.cells.len(), 0, Vec::new())
            },
        };
        assert(names_view(entities@) == tally_of(cs, cell).entities) by {
            if found is None {
                assert(names_view(entities@) =~= Seq::<Seq<char>>::empty());
            }
        }
        let ghost before = names_view(entities@);
        count = count + 1;
        let mut seen: bool = false;
        let mut j: usize = 0;
        while j < entities.len()
            invariant
                j <= entities@.len(),
                before == names_view(entities@),
                seen <==> before.subrange(0, j as int).contains(entity@),
            decreases entities@.len() - j,
        {
            assert(before.subrange(0, j as int + 1) =~= before.subrange(0, j as int).push(before[j as int]));
            if entities[j] == *entity {
                seen = true;
                assert(before.subrange(0, j as int + 1)[j as int] == entity@);
            }
            j = j + 1;
        }
        assert(before.subrange(0, j as int) =~= before);
        if !seen {
            entities.push(entity.clone());
            assert(names_view(entities@) =~= before.push(entity@));
        } else {
            assert(before.contains(entity@));
        }
        let unique: usize = entities.len();
        let reached: bool = count >= threshold;
        let ghost t = tally_add(tally_of(cs, cell), entity@);
        assert(names_view(entities@) == t.entities);
        if !reached {
            self.cells.insert(k, (cell, count, entities));
            assert(cells_view(self.cells@) =~= observed(cs, cell, entity@, threshold)) by {
                if found is Some {
                    assert(cells_view(self.cells@) =~= cs.update(k as int, (cell, t)));
                } else {
                    assert(cells_view(self.cells@) =~= cs.push((cell, t)));
                }
            }
        } else {
            assert(cells_view(self.cells@) =~= observed(cs, cell, entity@, threshold)) by {
                if found is Some {
                    assert(cs.update(k as int, (cell, t)).remove(k as int) =~= cells_view(self.cells@));
                } else {
                    assert(cs.push((cell, t)).remove(k as int) =~= cs);
                }
            }
        }
        TallyUpdate { count, unique_entities: unique, reached }
    }

    /// Every cell with its current count, in order.
    pub fn density_map(&self) -> (r: Vec<(CellId, u64)>)
        ensures
            r@.len() == self@.len(),
            forall|i: int| 0 <= i < r@.len() ==> #[trigger] r@[i] == (self@[i].0, self@[i].1.count),
    {
        let mut r: Vec<(CellId, u64)> = Vec::new();
        let mut i: usize = 0;
        while i < self.cells.len()
            invariant
                i <= self.cells@.len(),
                r@.len() == i,
                forall|k: int| 0 <= k < i ==> #[trigger] r@[k] == (self@[k].0, self@[k].1.count),
            decreases self.cells@.len() - i,
        {
            r.push((self.cells[i].0, self.cells[i].1));
            i = i + 1;
        }
        r
    }

    /// Forgets all cells.
    pub fn reset(&mut self)
        ensures
            final(self)@ == Seq::<(CellId, CellTallyView)>::empty(),
    {
        self.cells.clear();
        assert(cells_view(self.cells@) =~= Seq::<(CellId, CellTallyView)>::empty());
    }
}

} // verus!

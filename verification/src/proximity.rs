//! Proximity detection: the last known position of each entity, and the
//! entities an event is compared with. Measuring the distance between two
//! positions is left to the caller.
use vstd::prelude::*;
use crate::keyed::{key_index, keys_of, view_keys, find_key, lemma_key_index};

verus! {

/// Last known position per entity, in order of each entity's first event;
/// coordinates are `f64` bits (longitude, latitude).
pub struct PositionTable {
    positions: Vec<(String, (u64, u64))>,
}

/// Positions keyed by texts.
pub open spec fn positions_view(ps: Seq<(String, (u64, u64))>) -> Seq<(Seq<char>, (u64, u64))> {
    ps.map_values(|p: (String, (u64, u64))| (p.0@, p.1))
}

impl View for PositionTable {
    type V = Seq<(Seq<char>, (u64, u64))>;

    closed spec fn view(&self) -> Seq<(Seq<char>, (u64, u64))> {
        positions_view(self.positions@)
    }
}

/// The positions after `entity` was seen at `pos`: its entry is replaced
/// in place, or a new entry goes at the end.
pub open spec fn recorded(
    ps: Seq<(Seq<char>, (u64, u64))>,
    entity: Seq<char>,
    pos: (u64, u64),
) -> Seq<(Seq<char>, (u64, u64))> {
    let i = key_index(view_keys(ps), entity);
    if i >= 0 {
        ps.update(i, (entity, pos))
    } else {
        ps.push((entity, pos))
    }
}

/// The table keeps one position per entity: recording a position leaves the
/// entities listed once each.
pub proof fn law_one_position_per_entity(ps: Seq<(Seq<char>, (u64, u64))>, entity: Seq<char>, pos: (u64, u64))
    requires
        view_keys(ps).no_duplicates(),
    ensures
        view_keys(recorded(ps, entity, pos)).no_duplicates(),
{
    let keys = view_keys(ps);
    lemma_key_index(keys, entity);
    let i = key_index(keys, entity);
    if i >= 0 {
        crate::keyed::lemma_update_keeps_keys(ps, i, pos);
    } else {
        assert(view_keys(recorded(ps, entity, pos)) =~= keys.push(entity));
        crate::keyed::lemma_push_new_key(keys, entity);
    }
}

/// Is the entry about an entity other than `entity`?
pub open spec fn not_entity(entity: Seq<char>) -> spec_fn((Seq<char>, (u64, u64))) -> bool {
    |p: (Seq<char>, (u64, u64))| p.0 != entity
}

/// The positions of every entity but `entity`, in order.
pub open spec fn others_of(ps: Seq<(Seq<char>, (u64, u64))>, entity: Seq<char>) -> Seq<(Seq<char>, (u64, u64))> {
    ps.filter(not_entity(entity))
}

/// Triples of entity, longitude and latitude, as entries.
pub open spec fn triples_view(ts: Seq<(String, u64, u64)>) -> Seq<(Seq<char>, (u64, u64))> {
    ts.map_values(|t: (String, u64, u64)| (t.0@, (t.1, t.2)))
}

impl PositionTable {
    /// A table that has seen no entity.
    pub fn new() -> (r: PositionTable)
        ensures
            r@ == Seq::<(Seq<char>, (u64, u64))>::empty(),
    {
        let r = PositionTable { positions: Vec::new() };
        assert(positions_view(r.positions@) =~= Seq::<(Seq<char>, (u64, u64))>::empty());
        r
    }

    /// The last known positions of every entity other than `entity`, in
    /// order: the entities an event of `entity` is compared with.
    pub fn others(&self, entity: &String) -> (r: Vec<(String, u64, u64)>)
        ensures
            triples_view(r@) == others_of(self@, entity@),
    {
        let ghost ps = self@;
        let ghost pred = not_entity(entity@);
        let mut r: Vec<(String, u64, u64)> = Vec::new();
        let mut i: usize = 0;
        while i < self.positions.len()
            invariant
                i <= self.positions@.len(),
                ps == positions_view(self.positions@),
                pred == not_entity(entity@),
                triples_view(r@) == ps.subrange(0, i as int).filter(pred),
            decreases self.positions@.len() - i,
        {
            let ghost before = ps.subrange(0, i as int);
            assert(ps.subrange(0, i as int + 1) =~= before.push(ps[i as int]));
            proof {
                before.lemma_filter_push(ps[i as int], pred);
            }
            if self.positions[i].0 != *entity {
                let (lon, lat) = self.positions[i].1;
                r.push((self.positions[i].0.clone(), lon, lat));
                assert(triples_view(r@) =~= before.filter(pred).push(ps[i as int]));
            }
            i = i + 1;
        }
        assert(ps.subrange(0, ps.len() as int) =~= ps);
        r
    }

    /// Records `entity` at (`lon`, `lat`).
    pub fn record(&mut self, entity: &String, lon: u64, lat: u64)
        ensures
            final(self)@ == recorded(old(self)@, entity@, (lon, lat)),
    {
        let ghost ps = self@;
        proof {
            assert(view_keys(ps) =~= keys_of(self.positions@));
            lemma_key_index(view_keys(ps), entity@);
        }
        match find_key(&self.positions, entity) {
            Some(i) => {
                self.positions.set(i, (entity.clone(), (lon, lat)));
                assert(self@ =~= ps.update(i as int, (entity@, (lon, lat))));
            },
            None => {
                self.positions.push((entity.clone(), (lon, lat)));
                assert(self@ =~= ps.push((entity@, (lon, lat))));
            },
        }
    }

    /// Forgets every position.
    pub fn clear(&mut self)
        ensures
            final(self)@ == Seq::<(Seq<char>, (u64, u64))>::empty(),
    {
        self.positions.clear();
        assert(positions_view(self.positions@) =~= Seq::<(Seq<char>, (u64, u64))>::empty());
    }
}

/// An entity is never compared with itself, and after it is recorded it is
/// compared, from any other entity's event, at the position recorded last.
pub proof fn law_compared_with_last_position(
    ps: Seq<(Seq<char>, (u64, u64))>,
    entity: Seq<char>,
    pos: (u64, u64),
    other: Seq<char>,
)
    requires
        other != entity,
    ensures
        !others_of(ps, entity).map_values(|p: (Seq<char>, (u64, u64))| p.0).contains(entity),
        others_of(recorded(ps, entity, pos), other).contains((entity, pos)),
{
    let f = others_of(ps, entity);
    if f.map_values(|p: (Seq<char>, (u64, u64))| p.0).contains(entity) {
        let k = choose|k: int| 0 <= k < f.len() && #[trigger] f[k].0 == entity;
        assert(f.map_values(|p: (Seq<char>, (u64, u64))| p.0)[k] == f[k].0);
        ps.lemma_filter_pred(not_entity(entity), k);
    }
    let rs = recorded(ps, entity, pos);
    lemma_key_index(view_keys(ps), entity);
    let i = key_index(view_keys(ps), entity);
    let j = if i >= 0 { i } else { ps.len() as int };
    assert(rs[j] == (entity, pos));
    assert(not_entity(other)(rs[j]));
    rs.lemma_filter_contains(not_entity(other), j);
}

} // verus!

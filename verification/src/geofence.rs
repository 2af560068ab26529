//! Geofence transitions: enter and exit events per entity and zone, from
//! the inside/outside status of each check. Testing whether a point lies in
//! a zone's polygon is left to the caller.
use vstd::prelude::*;
use crate::event::{Event, EventView, OutputEvent, OutputView, Payload};
use crate::keyed::{key_index, keys_of, view_keys, find_key, lemma_key_index, lemma_key_index_at};

verus! {

/// Geofence event type.
#[derive(Clone, Copy, Debug, PartialEq, Eq, Structural)]
pub enum GeofenceEvent {
    Enter,
    Exit,
    Inside,
    Outside,
}

/// The event for a move from `was_inside` to `is_inside`.
pub open spec fn transition(was_inside: bool, is_inside: bool) -> GeofenceEvent {
    match (was_inside, is_inside) {
        (false, true) => GeofenceEvent::Enter,
        (true, false) => GeofenceEvent::Exit,
        (true, true) => GeofenceEvent::Inside,
        (false, false) => GeofenceEvent::Outside,
    }
}

/// Zone statuses of one entity, as (zone name, inside) pairs.
pub type ZoneStates = Seq<(Seq<char>, bool)>;

/// Was the entity inside `zone` (never seen counts as outside)?
pub open spec fn zone_state(zs: ZoneStates, zone: Seq<char>) -> bool {
    let i = key_index(view_keys(zs), zone);
    i >= 0 && zs[i].1
}

/// The statuses with `zone` set to `inside`.
pub open spec fn set_zone(zs: ZoneStates, zone: Seq<char>, inside: bool) -> ZoneStates {
    let i = key_index(view_keys(zs), zone);
    if i >= 0 {
        zs.update(i, (zone, inside))
    } else {
        zs.push((zone, inside))
    }
}

/// Applies the checks in order: each sets its zone's status, and a change
/// of status gives an Enter or Exit event for the zone.
pub open spec fn apply_checks(zs: ZoneStates, checks: Seq<(Seq<char>, bool)>) -> (ZoneStates, Seq<(Seq<char>, GeofenceEvent)>)
    decreases checks.len(),
{
    if checks.len() == 0 {
        (zs, Seq::empty())
    } else {
        let prev = apply_checks(zs, checks.drop_last());
        let z = checks.last().0;
        let inside = checks.last().1;
        let was = zone_state(prev.0, z);
        (
            set_zone(prev.0, z, inside),
            if was != inside { prev.1.push((z, transition(was, inside))) } else { prev.1 },
        )
    }
}

/// Per-entity zone statuses, in order of each entity's first event.
pub struct GeofenceTracker {
    state: Vec<(String, Vec<(String, bool)>)>,
}

/// Zone statuses as pairs of texts and flags.
pub open spec fn zones_view(zs: Seq<(String, bool)>) -> ZoneStates {
    zs.map_values(|p: (String, bool)| (p.0@, p.1))
}

/// Entities' zone statuses.
pub open spec fn tracker_view(st: Seq<(String, Vec<(String, bool)>)>) -> Seq<(Seq<char>, ZoneStates)> {
    st.map_values(|p: (String, Vec<(String, bool)>)| (p.0@, zones_view(p.1@)))
}

impl View for GeofenceTracker {
    type V = Seq<(Seq<char>, ZoneStates)>;

    closed spec fn view(&self) -> Seq<(Seq<char>, ZoneStates)> {
        tracker_view(self.state@)
    }
}

/// The statuses of `entity` (none if never seen).
pub open spec fn entity_zones(t: Seq<(Seq<char>, ZoneStates)>, entity: Seq<char>) -> ZoneStates {
    let i = key_index(view_keys(t), entity);
    if i >= 0 { t[i].1 } else { Seq::empty() }
}

/// The tracker after `entity` goes through `checks`: the entity gets an
/// entry (at the end) if it had none, and its statuses follow the checks.
pub open spec fn track(t: Seq<(Seq<char>, ZoneStates)>, entity: Seq<char>, checks: Seq<(Seq<char>, bool)>) -> Seq<(Seq<char>, ZoneStates)> {
    let i = key_index(view_keys(t), entity);
    let zs = apply_checks(entity_zones(t, entity), checks).0;
    if i >= 0 {
        t.update(i, (entity, zs))
    } else {
        t.push((entity, zs))
    }
}

/// The tracker keeps one entry per entity: tracking an entity leaves the
/// entities listed once each.
pub proof fn law_tracker_one_entry_per_entity(
    t: Seq<(Seq<char>, ZoneStates)>,
    entity: Seq<char>,
    checks: Seq<(Seq<char>, bool)>,
)
    requires
        view_keys(t).no_duplicates(),
    ensures
        view_keys(track(t, entity, checks)).no_duplicates(),
{
    let keys = view_keys(t);
    lemma_key_index(keys, entity);
    let i = key_index(keys, entity);
    let zs = apply_checks(entity_zones(t, entity), checks).0;
    if i >= 0 {
        crate::keyed::lemma_update_keeps_keys(t, i, zs);
    } else {
        assert(view_keys(track(t, entity, checks)) =~= keys.push(entity));
        crate::keyed::lemma_push_new_key(keys, entity);
    }
}

/// Is `o` the geofence output of operator `name` for `e` and the transition `tr`?
pub open spec fn is_geofence_output(o: OutputView, e: EventView, name: Seq<char>, tr: (Seq<char>, GeofenceEvent)) -> bool {
    &&& o.source_event == e
    &&& o.operator == name
    &&& match o.payload {
        Payload::Geofence { zone, event, entity_id } => zone@ == tr.0 && event == tr.1 && entity_id@ == e.entity_id,
        _ => false,
    }
}

fn zone_status(zs: &Vec<(String, bool)>, zone: &String) -> (r: (Option<usize>, bool))
    ensures
        r.1 == zone_state(zones_view(zs@), zone@),
        match r.0 {
            Some(i) => key_index(view_keys(zones_view(zs@)), zone@) == i,
            None => key_index(view_keys(zones_view(zs@)), zone@) == -1,
        },
{
    let found = find_key(zs, zone);
    assert(keys_of(zs@) =~= view_keys(zones_view(zs@)));
    proof {
        lemma_key_index(view_keys(zones_view(zs@)), zone@);
    }
    match found {
        Some(i) => (Some(i), zs[i].1),
        None => (None, false),
    }
}

impl GeofenceTracker {
    /// A tracker that has seen no entity.
    pub fn new() -> (r: GeofenceTracker)
        ensures
            r@ == Seq::<(Seq<char>, ZoneStates)>::empty(),
    {
        let r = GeofenceTracker { state: Vec::new() };
        assert(tracker_view(r.state@) =~= Seq::<(Seq<char>, ZoneStates)>::empty());
        r
    }

    /// Runs `event` through the zone checks (zone name, is the event's point
    /// inside) in order, and emits an output named `name` for each Enter and
    /// each Exit, in order.
    pub fn process_checks(&mut self, name: &String, event: &Event, checks: Vec<(String, bool)>) -> (r: Vec<OutputEvent>)
        ensures
            final(self)@ == track(old(self)@, event@.entity_id, zones_view(checks@)),
            r@.len() == apply_checks(entity_zones(old(self)@, event@.entity_id), zones_view(checks@)).1.len(),
            forall|k: int|
                0 <= k < r@.len() ==> is_geofence_output(
                    #[trigger] r@[k]@,
                    event@,
                    name@,
                    apply_checks(entity_zones(old(self)@, event@.entity_id), zones_view(checks@)).1[k],
                ),
    {
        let ghost t0 = self@;
        let ghost cv = zones_view(checks@);
        let found = find_key(&self.state, &event.entity_id);
        assert(keys_of(self.state@) =~= view_keys(tracker_view(self.state@)));
        proof {
            lemma_key_index(view_keys(t0), event@.entity_id);
        }
        let (idx, mut zones): (usize, Vec<(String, bool)>) = match found {
            Some(i) => {
                let entry: (String, Vec<(String, bool)>) = self.state.remove(i);
                (i, entry.1)
            },
            None => (self.state.len(), Vec::new()),
        };
        let ghost zs0 = zones_view(zones@);
        assert(zs0 == entity_zones(t0, event@.entity_id)) by {
            if found is None {
                assert(zs0 =~= Seq::<(Seq<char>, bool)>::empty());
            }
        }
        let mut out: Vec<OutputEvent> = Vec::new();
        let mut j: usize = 0;
        while j < checks.len()
            invariant
                j <= checks@.len(),
                cv == zones_view(checks@),
                zones_view(zones@) == apply_checks(zs0, cv.subrange(0, j as int)).0,
                out@.len() == apply_checks(zs0, cv.subrange(0, j as int)).1.len(),
                forall|k: int|
                    0 <= k < out@.len() ==> is_geofence_output(
                        #[trigger] out@[k]@,
                        event@,
                        name@,
                        apply_checks(zs0, cv.subrange(0, j as int)).1[k],
                    ),
            decreases checks@.len() - j,
        {
            let ghost prev = apply_checks(zs0, cv.subrange(0, j as int));
            assert(cv.subrange(0, j as int + 1).drop_last() =~= cv.subrange(0, j as int));
            assert(cv.subrange(0, j as int + 1).last() == cv[j as int]);
            let zone: &String = &checks[j].0;
            let inside: bool = checks[j].1;
            let (pos, was) = zone_status(&zones, zone);
            proof {
                lemma_key_index(view_keys(zones_view(zones@)), zone@);
            }
            match pos {
                Some(p) => {
                    zones.set(p, (zone.clone(), inside));
                },
                None => {
                    zones.push((zone.clone(), inside));
                },
            }
            assert(zones_view(zones@) =~= set_zone(prev.0, zone@, inside));
            if was != inside {
                let ev: GeofenceEvent = if inside { GeofenceEvent::Enter } else { GeofenceEvent::Exit };
                out.push(OutputEvent {
                    source_event: event.clone(),
                    operator: name.clone(),
                    payload: Payload::Geofence { zone: zone.clone(), event: ev, entity_id: event.entity_id.clone() },
                });
            }
            j = j + 1;
        }
        assert(cv.subrange(0, j as int) =~= cv);
        let id: String = event.entity_id.clone();
        let ghost zsf = zones_view(zones@);
        self.state.insert(idx, (id, zones));
        assert(tracker_view(self.state@) =~= track(t0, event@.entity_id, cv)) by {
            if found is Some {
                assert(tracker_view(self.state@) =~= t0.update(idx as int, (event@.entity_id, zsf)));
            } else {
                assert(tracker_view(self.state@) =~= t0.push((event@.entity_id, zsf)));
            }
        }
        out
    }
}

/// The events of `evs` that concern `zone`, in order.
pub open spec fn zone_events(evs: Seq<(Seq<char>, GeofenceEvent)>, zone: Seq<char>) -> Seq<GeofenceEvent>
    decreases evs.len(),
{
    if evs.len() == 0 {
        Seq::empty()
    } else if evs.last().0 == zone {
        zone_events(evs.drop_last(), zone).push(evs.last().1)
    } else {
        zone_events(evs.drop_last(), zone)
    }
}

proof fn lemma_set_zone_state(zs: ZoneStates, z: Seq<char>, inside: bool, other: Seq<char>)
    ensures
        zone_state(set_zone(zs, z, inside), other) == if other == z { inside } else { zone_state(zs, other) },
{
    let keys = view_keys(zs);
    lemma_key_index(keys, z);
    lemma_key_index(keys, other);
    let i = key_index(keys, z);
    let zs2 = set_zone(zs, z, inside);
    let keys2 = view_keys(zs2);
    if i >= 0 {
        assert(keys2 =~= keys);
    } else {
        assert(keys2 =~= keys.push(z));
        if other == z {
            lemma_key_index_at(keys2, z, zs.len() as int);
        } else if key_index(keys, other) >= 0 {
            lemma_key_index_at(keys2, other, key_index(keys, other));
        } else {
            crate::keyed::lemma_key_index_absent(keys2, other);
        }
    }
}

/// For each entity and zone, Enter and Exit alternate: the first event is
/// an Enter if the entity was outside (an Exit if inside), no two
/// consecutive events are the same, and the last one matches the status left.
pub proof fn law_enter_exit_alternate(zs: ZoneStates, checks: Seq<(Seq<char>, bool)>, zone: Seq<char>)
    ensures
        ({
            let evs = zone_events(apply_checks(zs, checks).1, zone);
            &&& forall|i: int| 0 <= i < evs.len() ==> (#[trigger] evs[i] == GeofenceEvent::Enter || evs[i] == GeofenceEvent::Exit)
            &&& forall|i: int| 0 <= i < evs.len() - 1 ==> #[trigger] evs[i] != evs[i + 1]
            &&& evs.len() > 0 ==> evs[0] == (if zone_state(zs, zone) { GeofenceEvent::Exit } else { GeofenceEvent::Enter })
            &&& evs.len() > 0 ==> evs.last() == (if zone_state(apply_checks(zs, checks).0, zone) {
                GeofenceEvent::Enter
            } else {
                GeofenceEvent::Exit
            })
            &&& evs.len() == 0 ==> zone_state(apply_checks(zs, checks).0, zone) == zone_state(zs, zone)
        }),
    decreases checks.len(),
{
    if checks.len() > 0 {
        law_enter_exit_alternate(zs, checks.drop_last(), zone);
        let prev = apply_checks(zs, checks.drop_last());
        let z = checks.last().0;
        let inside = checks.last().1;
        lemma_set_zone_state(prev.0, z, inside, zone);
        let was = zone_state(prev.0, z);
        if was != inside {
            assert(prev.1.push((z, transition(was, inside))).drop_last() =~= prev.1);
        }
    }
}

} // verus!

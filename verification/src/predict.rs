//! Trajectory bookkeeping: the recent points of each tracked entity.
//! Forecasting from the points (floating-point work) is left to the caller.
use vstd::prelude::*;
use crate::time::Timestamp;
use crate::event::Event;
use crate::keyed::{key_index, keys_of, view_keys, find_key, lemma_key_index};

verus! {

/// A point in a trajectory; coordinates, speed and heading are `f64` bits.
#[derive(Clone, Copy, Debug, PartialEq, Eq, Structural)]
pub struct TrajectoryPoint {
    pub lon: u64,
    pub lat: u64,
    pub timestamp: Timestamp,
    pub speed: Option<u64>,
    pub heading: Option<u64>,
}

/// A tracked entity's trajectory: its most recent points, oldest first.
#[derive(Debug)]
pub struct Trajectory {
    pub entity_id: String,
    pub points: Vec<TrajectoryPoint>,
    pub max_points: usize,
}

/// The points after adding `p` to `ps` with room for `max` points: at a full
/// trajectory the oldest point goes first.
pub open spec fn points_after_add(ps: Seq<TrajectoryPoint>, max: usize, p: TrajectoryPoint) -> Seq<TrajectoryPoint> {
    if ps.len() >= max && ps.len() > 0 {
        ps.subrange(1, ps.len() as int).push(p)
    } else {
        ps.push(p)
    }
}

impl Trajectory {
    /// An empty trajectory keeping at most `max_points` points.
    pub fn new(entity_id: String, max_points: usize) -> (r: Trajectory)
        ensures
            r.entity_id == entity_id,
            r.points@ == Seq::<TrajectoryPoint>::empty(),
            r.max_points == max_points,
    {
        Trajectory { entity_id, points: Vec::new(), max_points }
    }

    /// Adds a point; a full trajectory drops its oldest point first. (An
    /// empty trajectory with no room cannot take a point.)
    pub fn add_point(&mut self, point: TrajectoryPoint)
        requires
            old(self).max_points > 0 || old(self).points@.len() > 0,
        ensures
            final(self).points@ == points_after_add(old(self).points@, old(self).max_points, point),
            final(self).entity_id == old(self).entity_id,
            final(self).max_points == old(self).max_points,
    {
        if self.points.len() >= self.max_points && self.points.len() > 0 {
            let _ = self.points.remove(0);
        }
        self.points.push(point);
        assert(self.points@ =~= points_after_add(old(self).points@, old(self).max_points, point));
    }
}

/// A trajectory never holds more points than its limit (or one, for a
/// limit of zero).
pub proof fn law_trajectory_bounded(ps: Seq<TrajectoryPoint>, max: usize, p: TrajectoryPoint)
    requires
        ps.len() <= max || ps.len() <= 1,
    ensures
        points_after_add(ps, max, p).len() <= max || points_after_add(ps, max, p).len() <= 1,
        points_after_add(ps, max, p).last() == p,
{
}

/// Trajectories of many entities, in order of each entity's first event.
pub struct TrajectoryTracker {
    trajectories: Vec<(String, Trajectory)>,
    max_points: usize,
}

/// The content of a [`TrajectoryTracker`]: each entity's points.
pub struct TrackerView {
    pub trajectories: Seq<(Seq<char>, Seq<TrajectoryPoint>)>,
    pub max_points: usize,
}

impl View for TrajectoryTracker {
    type V = TrackerView;

    closed spec fn view(&self) -> TrackerView {
        TrackerView {
            trajectories: self.trajectories@.map_values(|p: (String, Trajectory)| (p.0@, p.1.points@)),
            max_points: self.max_points,
        }
    }
}

/// The point an event stands for.
pub open spec fn point_of(e: &Event) -> TrajectoryPoint {
    TrajectoryPoint { lon: e.lon, lat: e.lat, timestamp: e.timestamp, speed: e.speed, heading: e.heading }
}

/// The trajectories after a point `p` of entity `id`: it joins the entity's
/// trajectory, or starts a new one at the end for a new entity.
pub open spec fn with_point(
    ts: Seq<(Seq<char>, Seq<TrajectoryPoint>)>,
    max: usize,
    id: Seq<char>,
    p: TrajectoryPoint,
) -> Seq<(Seq<char>, Seq<TrajectoryPoint>)> {
    let i = key_index(view_keys(ts), id);
    if i >= 0 {
        ts.update(i, (id, points_after_add(ts[i].1, max, p)))
    } else {
        ts.push((id, points_after_add(Seq::empty(), max, p)))
    }
}

/// The tracker keeps one trajectory per entity: adding a point leaves the
/// entities listed once each.
pub proof fn law_one_trajectory_per_entity(
    ts: Seq<(Seq<char>, Seq<TrajectoryPoint>)>,
    max: usize,
    id: Seq<char>,
    p: TrajectoryPoint,
)
    requires
        view_keys(ts).no_duplicates(),
    ensures
        view_keys(with_point(ts, max, id, p)).no_duplicates(),
{
    let keys = view_keys(ts);
    lemma_key_index(keys, id);
    let i = key_index(keys, id);
    if i >= 0 {
        crate::keyed::lemma_update_keeps_keys(ts, i, points_after_add(ts[i].1, max, p));
    } else {
        assert(view_keys(with_point(ts, max, id, p)) =~= keys.push(id));
        crate::keyed::lemma_push_new_key(keys, id);
    }
}

impl TrajectoryTracker {
    /// Every trajectory keeps the tracker's limit and is filed under its entity.
    #[verifier::type_invariant]
    spec fn tracker_wf(self) -> bool {
        forall|i: int|
            #![trigger self.trajectories@[i]]
            0 <= i < self.trajectories@.len() ==> self.trajectories@[i].1.max_points == self.max_points
                && self.trajectories@[i].1.entity_id@ == self.trajectories@[i].0@
    }

    /// A tracker keeping at most `max_points` points per entity.
    pub fn new(max_points: usize) -> (r: TrajectoryTracker)
        ensures
            r@.trajectories == Seq::<(Seq<char>, Seq<TrajectoryPoint>)>::empty(),
            r@.max_points == max_points,
    {
        let r = TrajectoryTracker { trajectories: Vec::new(), max_points };
        assert(r@.trajectories =~= Seq::<(Seq<char>, Seq<TrajectoryPoint>)>::empty());
        r
    }

    /// Adds the event's point to its entity's trajectory (a new one at the
    /// end for a new entity).
    pub fn update(&mut self, event: &Event)
        requires
            old(self)@.max_points > 0,
        ensures
            final(self)@.max_points == old(self)@.max_points,
            final(self)@.trajectories == with_point(
                old(self)@.trajectories,
                old(self)@.max_points,
                event.entity_id@,
                point_of(event),
            ),
    {
        proof {
            use_type_invariant(&*self);
        }
        let ghost ts = self@.trajectories;
        let max_points = self.max_points;
        let ghost orig = self.trajectories@;
        assert(forall|k: int| #![trigger orig[k]] 0 <= k < orig.len() ==> orig[k].1.max_points == max_points
            && orig[k].1.entity_id@ == orig[k].0@);
        let mut trs: Vec<(String, Trajectory)> = Vec::new();
        std::mem::swap(&mut trs, &mut self.trajectories);
        assert(trs@ == orig);
        assert(trs@.map_values(|p: (String, Trajectory)| (p.0@, p.1.points@)) == ts);
        let found = find_key(&trs, &event.entity_id);
        assert(keys_of(trs@) =~= view_keys(ts));
        proof {
            lemma_key_index(view_keys(ts), event.entity_id@);
        }
        let point = TrajectoryPoint {
            lon: event.lon,
            lat: event.lat,
            timestamp: event.timestamp,
            speed: event.speed,
            heading: event.heading,
        };
        let ghost before = trs@;
        match found {
            Some(i) => {
                let mut entry: (String, Trajectory) = trs.remove(i);
                assert(entry == before[i as int]);
                assert(entry.1.max_points == max_points && entry.1.entity_id@ == entry.0@);
                entry.1.add_point(point);
                trs.insert(i, entry);
                assert(trs@ =~= before.update(i as int, entry));
                assert(trs@.map_values(|p: (String, Trajectory)| (p.0@, p.1.points@)) =~= ts.update(
                    i as int,
                    (event.entity_id@, points_after_add(ts[i as int].1, max_points, point)),
                ));
            },
            None => {
                let mut t = Trajectory::new(event.entity_id.clone(), max_points);
                t.add_point(point);
                trs.push((event.entity_id.clone(), t));
                assert(trs@.map_values(|p: (String, Trajectory)| (p.0@, p.1.points@)) =~= ts.push(
                    (event.entity_id@, points_after_add(Seq::empty(), max_points, point)),
                ));
            },
        }
        assert forall|k: int| #![trigger trs@[k]] 0 <= k < trs@.len() implies trs@[k].1.max_points == max_points
            && trs@[k].1.entity_id@ == trs@[k].0@ by {
            if k < before.len() {
                assert(before[k].1.max_points == max_points && before[k].1.entity_id@ == before[k].0@);
            }
        }
        self.trajectories = trs;
    }

    /// The trajectory of `entity_id`, if tracked.
    pub fn trajectory(&self, entity_id: &String) -> (r: Option<&Trajectory>)
        ensures
            ({
                let i = key_index(view_keys(self@.trajectories), entity_id@);
                match r {
                    Some(t) => i >= 0 && t.points@ == self@.trajectories[i].1 && t.entity_id@ == entity_id@
                        && t.max_points == self@.max_points,
                    None => i == -1,
                }
            }),
    {
        proof {
            use_type_invariant(self);
        }
        let found = find_key(&self.trajectories, entity_id);
        assert(keys_of(self.trajectories@) =~= view_keys(self@.trajectories));
        proof {
            lemma_key_index(view_keys(self@.trajectories), entity_id@);
        }
        match found {
            Some(i) => {
                assert(self.trajectories@[i as int].0@ == entity_id@);
                Some(&self.trajectories[i].1)
            },
            None => None,
        }
    }

    /// All trajectories, in order of each entity's first event.
    pub fn trajectories(&self) -> (r: &Vec<(String, Trajectory)>)
        ensures
            r@.map_values(|p: (String, Trajectory)| (p.0@, p.1.points@)) == self@.trajectories,
            forall|i: int| #![trigger r@[i]] 0 <= i < r@.len() ==> r@[i].1.max_points == self@.max_points && r@[i].1.entity_id@
                == r@[i].0@,
    {
        proof {
            use_type_invariant(self);
        }
        &self.trajectories
    }

    /// The number of tracked entities.
    pub fn entity_count(&self) -> (r: usize)
        ensures
            r == self@.trajectories.len(),
    {
        self.trajectories.len()
    }
}

} // verus!

//! Stream events, the outputs operators emit, and event identifiers.
use vstd::prelude::*;
use crate::time::{Timestamp, system_time_now, unix_offset};
use crate::json::json_clone;
use crate::text::{hex_fixed, append_hex};
use crate::keyed::{key_index, keys_of, view_keys, find_key, lemma_key_index};
use crate::temporal_join::JoinType;
use crate::geofence::GeofenceEvent;

verus! {

/// A timestamped event flowing through the stream processor.
///
/// Coordinates, altitude, heading and speed are carried as the IEEE-754 bit
/// patterns of the `f64` values they stand for; the library moves them about
/// and never computes with them.
#[derive(Debug)]
pub struct Event {
    /// Unique event identifier.
    pub id: String,
    /// Event time (not processing time).
    pub timestamp: Timestamp,
    /// Entity this event belongs to (e.g. a vehicle id).
    pub entity_id: String,
    /// Longitude, as `f64` bits.
    pub lon: u64,
    /// Latitude, as `f64` bits.
    pub lat: u64,
    /// Optional altitude in meters, as `f64` bits.
    pub altitude: Option<u64>,
    /// Optional heading in degrees, as `f64` bits.
    pub heading: Option<u64>,
    /// Optional speed in m/s, as `f64` bits.
    pub speed: Option<u64>,
    /// Additional properties, one entry per key.
    pub properties: Vec<(String, serde_json::Value)>,
}

/// The other side of a join, as a join output reports it.
#[derive(Debug)]
pub struct JoinedEvent {
    pub entity: String,
    pub time: Timestamp,
    /// Longitude, as `f64` bits.
    pub lon: u64,
    /// Latitude, as `f64` bits.
    pub lat: u64,
}

/// What an operator reports with an output.
#[derive(Debug)]
pub enum Payload {
    /// `{"action": "pass"}`
    Pass,
    /// `{"action": "transform"}`
    Transform,
    /// `{"action": "pass", "count": count}`
    PassCounted { count: usize },
    /// JSON `null`.
    Null,
    /// The outcome of a temporal join.
    Join {
        join_type: JoinType,
        left_entity: String,
        left_time: Timestamp,
        right: Option<JoinedEvent>,
    },
    /// A geofence transition of `entity_id` across `zone`.
    Geofence { zone: String, event: GeofenceEvent, entity_id: String },
    /// Any other JSON document.
    Json(serde_json::Value),
}

/// Output event emitted by operators.
#[derive(Debug)]
pub struct OutputEvent {
    /// The triggering event.
    pub source_event: Event,
    /// The operator that produced this output.
    pub operator: String,
    /// Output payload.
    pub payload: Payload,
}

/// The mathematical content of an [`Event`].
pub struct EventView {
    pub id: Seq<char>,
    pub timestamp: Timestamp,
    pub entity_id: Seq<char>,
    pub lon: u64,
    pub lat: u64,
    pub altitude: Option<u64>,
    pub heading: Option<u64>,
    pub speed: Option<u64>,
    pub properties: Seq<(Seq<char>, serde_json::Value)>,
}

impl View for Event {
    type V = EventView;

    open spec fn view(&self) -> EventView {
        EventView {
            id: self.id@,
            timestamp: self.timestamp,
            entity_id: self.entity_id@,
            lon: self.lon,
            lat: self.lat,
            altitude: self.altitude,
            heading: self.heading,
            speed: self.speed,
            properties: props_view(self.properties@),
        }
    }
}

/// The mathematical content of an [`OutputEvent`].
pub struct OutputView {
    pub source_event: EventView,
    pub operator: Seq<char>,
    pub payload: Payload,
}

impl View for OutputEvent {
    type V = OutputView;

    open spec fn view(&self) -> OutputView {
        OutputView {
            source_event: self.source_event@,
            operator: self.operator@,
            payload: self.payload,
        }
    }
}

impl Event {
    /// Is the event time representable?
    pub open spec fn wf(&self) -> bool {
        self.timestamp.wf()
    }
}

impl Clone for Event {
    fn clone(&self) -> (r: Self)
        ensures
            r@ == self@,
    {
        let mut props: Vec<(String, serde_json::Value)> = Vec::new();
        let mut i: usize = 0;
        while i < self.properties.len()
            invariant
                i <= self.properties@.len(),
                props@ == self.properties@.subrange(0, i as int),
            decreases self.properties@.len() - i,
        {
            let k: String = self.properties[i].0.clone();
            let v: serde_json::Value = json_clone(&self.properties[i].1);
            props.push((k, v));
            i = i + 1;
        }
        assert(props@ =~= self.properties@);
        assert(props_view(props@) =~= props_view(self.properties@));
        Event {
            id: self.id.clone(),
            timestamp: self.timestamp,
            entity_id: self.entity_id.clone(),
            lon: self.lon,
            lat: self.lat,
            altitude: self.altitude,
            heading: self.heading,
            speed: self.speed,
            properties: props,
        }
    }
}

impl Clone for JoinedEvent {
    fn clone(&self) -> (r: Self)
        ensures
            r == *self,
    {
        JoinedEvent { entity: self.entity.clone(), time: self.time, lon: self.lon, lat: self.lat }
    }
}

impl Clone for Payload {
    fn clone(&self) -> (r: Self)
        ensures
            r == *self,
    {
        match self {
            Payload::Pass => Payload::Pass,
            Payload::Transform => Payload::Transform,
            Payload::PassCounted { count } => Payload::PassCounted { count: *count },
            Payload::Null => Payload::Null,
            Payload::Join { join_type, left_entity, left_time, right } => {
                let r: Option<JoinedEvent> = match right {
                    Some(j) => Some(j.clone()),
                    None => None,
                };
                Payload::Join {
                    join_type: *join_type,
                    left_entity: left_entity.clone(),
                    left_time: *left_time,
                    right: r,
                }
            },
            Payload::Geofence { zone, event, entity_id } => Payload::Geofence {
                zone: zone.clone(),
                event: *event,
                entity_id: entity_id.clone(),
            },
            Payload::Json(v) => Payload::Json(json_clone(v)),
        }
    }
}

impl Clone for OutputEvent {
    fn clone(&self) -> (r: Self)
        ensures
            r@ == self@,
    {
        OutputEvent {
            source_event: self.source_event.clone(),
            operator: self.operator.clone(),
            payload: self.payload.clone(),
        }
    }
}

/// The key that mixes the clock reading into an event id.
pub const ID_MIX: u64 = 0xDEAD_BEEF_CAFE_BABE;

/// The event id made from a sub-second clock reading `nanos`:
/// `{:016x}` of `nanos ^ ID_MIX`, a hyphen, and `{:08x}` of `nanos`.
pub open spec fn id_text(nanos: u32) -> Seq<char> {
    hex_fixed(((nanos as u64) ^ ID_MIX) as nat, 16) + seq!['-'] + hex_fixed(nanos as nat, 8)
}

/// The event id for the sub-second clock reading `nanos`.
pub fn format_id(nanos: u32) -> (r: String)
    ensures
        r@ == id_text(nanos),
{
    let mut s: String = String::new();
    let mixed: u64 = (nanos as u64) ^ ID_MIX;
    append_hex(&mut s, mixed, 16);
    proof {
        reveal_strlit("-");
    }
    s.append("-");
    append_hex(&mut s, nanos as u64, 8);
    assert(s@ =~= id_text(nanos));
    s
}

/// A fresh event id from the sub-second part of the system clock, counted
/// forward within its second also where the clock reads before the Unix epoch.
fn new_event_id() -> (r: String)
    ensures
        exists|n: u32| n < 1_000_000_000 && r@ == id_text(n),
{
    let now = system_time_now();
    let offset: (bool, u64, u32) = unix_offset(&now);
    let nanos: u32 = if offset.0 && offset.2 > 0 { 1_000_000_000 - offset.2 } else { offset.2 };
    format_id(nanos)
}

/// Property entries as (key text, value) pairs.
pub open spec fn props_view(props: Seq<(String, serde_json::Value)>) -> Seq<(Seq<char>, serde_json::Value)> {
    props.map_values(|p: (String, serde_json::Value)| (p.0@, p.1))
}

/// The entries after setting `key` to `value`: the entry for `key` is
/// replaced in place, or a new one is appended.
pub open spec fn props_set(
    props: Seq<(Seq<char>, serde_json::Value)>,
    key: Seq<char>,
    value: serde_json::Value,
) -> Seq<(Seq<char>, serde_json::Value)> {
    let i = key_index(view_keys(props), key);
    if i >= 0 {
        props.update(i, (key, value))
    } else {
        props.push((key, value))
    }
}

/// An event keeps one property per key: setting a property leaves the keys
/// listed once each.
pub proof fn law_one_property_per_key(
    props: Seq<(Seq<char>, serde_json::Value)>,
    key: Seq<char>,
    value: serde_json::Value,
)
    requires
        view_keys(props).no_duplicates(),
    ensures
        view_keys(props_set(props, key, value)).no_duplicates(),
{
    let keys = view_keys(props);
    crate::keyed::lemma_key_index(keys, key);
    let i = key_index(keys, key);
    if i >= 0 {
        crate::keyed::lemma_update_keeps_keys(props, i, value);
    } else {
        assert(view_keys(props_set(props, key, value)) =~= keys.push(key));
        crate::keyed::lemma_push_new_key(keys, key);
    }
}

impl Event {
    /// A new event with a fresh id and no optional fields or properties.
    pub fn new(entity_id: &str, lon: u64, lat: u64, timestamp: Timestamp) -> (r: Event)
        ensures
            exists|n: u32| n < 1_000_000_000 && r@.id == id_text(n),
            r@ == (EventView {
                id: r@.id,
                timestamp,
                entity_id: entity_id@,
                lon,
                lat,
                altitude: None,
                heading: None,
                speed: None,
                properties: Seq::empty(),
            }),
    {
        let ev = Event {
            id: new_event_id(),
            timestamp,
            entity_id: entity_id.to_owned(),
            lon,
            lat,
            altitude: None,
            heading: None,
            speed: None,
            properties: Vec::new(),
        };
        assert(props_view(ev.properties@) =~= Seq::empty());
        ev
    }

    /// A new event stamped with the current wall-clock time.
    pub fn now(entity_id: &str, lon: u64, lat: u64) -> (r: Event)
        ensures
            exists|n: u32| n < 1_000_000_000 && r@.id == id_text(n),
            r.timestamp.wf(),
            r@ == (EventView {
                id: r@.id,
                timestamp: r.timestamp,
                entity_id: entity_id@,
                lon,
                lat,
                altitude: None,
                heading: None,
                speed: None,
                properties: Seq::empty(),
            }),
    {
        Event::new(entity_id, lon, lat, Timestamp::now())
    }

    /// The event with property `key` set to `value` (replacing an earlier value).
    pub fn with_property(self, key: &str, value: serde_json::Value) -> (r: Event)
        ensures
            r@ == (EventView { properties: props_set(self@.properties, key@, value), ..self@ }),
    {
        let mut ev = self;
        let k: String = key.to_owned();
        let found = find_key(&ev.properties, &k);
        assert(keys_of(ev.properties@) =~= view_keys(props_view(ev.properties@)));
        match found {
            Some(i) => {
                proof { lemma_key_index(keys_of(ev.properties@), k@); }
                ev.properties.set(i, (k, value));
            },
            None => {
                ev.properties.push((k, value));
            },
        }
        assert(props_view(ev.properties@) =~= props_set(self@.properties, key@, value));
        ev
    }

    /// The event with its speed set (as `f64` bits).
    pub fn with_speed(self, speed: u64) -> (r: Event)
        ensures
            r@ == (EventView { speed: Some(speed), ..self@ }),
    {
        let mut ev = self;
        ev.speed = Some(speed);
        ev
    }

    /// The event with its heading set (as `f64` bits).
    pub fn with_heading(self, heading: u64) -> (r: Event)
        ensures
            r@ == (EventView { heading: Some(heading), ..self@ }),
    {
        let mut ev = self;
        ev.heading = Some(heading);
        ev
    }
}

} // verus!

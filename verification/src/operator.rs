//! Stream operators: the processing units of a pipeline.
use vstd::prelude::*;
use crate::event::{Event, EventView, OutputEvent, OutputView, Payload};
use crate::keyed::{key_index, keys_of, view_keys, find_key, lemma_key_index};

verus! {

/// A stateless stream operator that processes one event at a time.
pub trait MapOperator: Send + Sync {
    /// May the operator answer `r` for an event whose content is `e`? An
    /// operator that does not say allows any answer.
    open spec fn gives(&self, e: EventView, r: Option<OutputView>) -> bool {
        true
    }

    /// Processes a single event, optionally producing an output.
    fn process(&self, event: &Event) -> (r: Option<OutputEvent>)
        ensures
            self.gives(event@, output_view_opt(r)),
    ;

    /// Operator name for logging and metrics.
    fn name(&self) -> &str;
}

/// A stateful operator that may buffer events.
pub trait StatefulOperator: Send + Sync {
    /// Processes an event, possibly updating internal state; produces zero or more outputs.
    fn process(&mut self, event: &Event) -> Vec<OutputEvent>;

    /// Called when a window expires: flushes buffered state.
    fn on_window_close(&mut self) -> Vec<OutputEvent>;

    /// Operator name.
    fn name(&self) -> &str;
}

/// The content of an optional output.
pub open spec fn output_view_opt(r: Option<OutputEvent>) -> Option<OutputView> {
    match r {
        Some(o) => Some(o@),
        None => None,
    }
}

/// The event that the operator at position `i` of a chain gets: the
/// event `e` itself first, then the event of the output before it.
pub open spec fn chain_input(e: EventView, outs: Seq<OutputView>, i: int) -> EventView {
    if i == 0 {
        e
    } else {
        outs[i - 1].source_event
    }
}

/// Are `outs` and `filtered` what the chain `ops` may give for `e`? Each
/// operator in turn gets the event that its predecessor output and answers
/// with an output, until one answers with none and the event is filtered out.
pub open spec fn chain_gives(
    ops: Seq<Box<dyn MapOperator>>,
    e: EventView,
    outs: Seq<OutputView>,
    filtered: bool,
) -> bool {
    &&& outs.len() <= ops.len()
    &&& filtered <==> outs.len() < ops.len()
    &&& forall|i: int| 0 <= i < outs.len() ==> #[trigger] ops[i].gives(chain_input(e, outs, i), Some(outs[i]))
    &&& filtered ==> ops[outs.len() as int].gives(chain_input(e, outs, outs.len() as int), None)
}

/// Is `o` the output that an operator named `name` gives for `e` with `payload`?
pub open spec fn is_output(o: OutputView, e: EventView, name: Seq<char>, payload: Payload) -> bool {
    o.source_event == e && o.operator == name && o.payload == payload
}

/// A filter operator that passes through events matching a predicate.
pub struct FilterOperator<F: Fn(&Event) -> bool + Send + Sync> {
    name: String,
    predicate: F,
}

impl<F: Fn(&Event) -> bool + Send + Sync> FilterOperator<F> {
    /// The predicate can be applied to any event.
    #[verifier::type_invariant]
    closed spec fn callable(self) -> bool {
        forall|e: &Event| self.predicate.requires((e,))
    }

    /// The operator's name.
    pub closed spec fn spec_name(&self) -> Seq<char> {
        self.name@
    }

    /// Can the predicate answer `b` for `e`?
    pub closed spec fn passes(&self, e: &Event, b: bool) -> bool {
        self.predicate.ensures((e,), b)
    }

    /// A filter named `name` with the given predicate.
    pub fn new(name: &str, predicate: F) -> (r: FilterOperator<F>)
        requires
            forall|e: &Event| predicate.requires((e,)),
        ensures
            r.spec_name() == name@,
            forall|e: &Event, b: bool| r.passes(e, b) <==> predicate.ensures((e,), b),
    {
        FilterOperator { name: name.to_owned(), predicate }
    }
}

impl<F: Fn(&Event) -> bool + Send + Sync> MapOperator for FilterOperator<F> {
    /// The event passes, unchanged, exactly when the predicate can hold of it.
    open spec fn gives(&self, e: EventView, r: Option<OutputView>) -> bool {
        exists|ev: Event|
            #![trigger ev@]
            ev@ == e && match r {
                Some(o) => self.passes(&ev, true) && is_output(o, e, self.spec_name(), Payload::Pass),
                None => self.passes(&ev, false),
            }
    }

    /// Passes `event` on (with payload `{"action": "pass"}`) when the predicate holds.
    fn process(&self, event: &Event) -> (r: Option<OutputEvent>)
        ensures
            match r {
                Some(o) => self.passes(event, true) && is_output(o@, event@, self.spec_name(), Payload::Pass),
                None => self.passes(event, false),
            },
    {
        proof {
            use_type_invariant(self);
        }
        if (self.predicate)(event) {
            Some(OutputEvent { source_event: event.clone(), operator: self.name.clone(), payload: Payload::Pass })
        } else {
            None
        }
    }

    fn name(&self) -> (r: &str)
        ensures
            r@ == self.spec_name(),
    {
        self.name.as_str()
    }
}

/// A transform operator that replaces events by transformed ones.
pub struct TransformOperator<F: Fn(&Event) -> Event + Send + Sync> {
    name: String,
    transform: F,
}

impl<F: Fn(&Event) -> Event + Send + Sync> TransformOperator<F> {
    /// The transform can be applied to any event.
    #[verifier::type_invariant]
    closed spec fn callable(self) -> bool {
        forall|e: &Event| self.transform.requires((e,))
    }

    /// The operator's name.
    pub closed spec fn spec_name(&self) -> Seq<char> {
        self.name@
    }

    /// Can the transform turn `e` into `t`?
    pub closed spec fn transforms(&self, e: &Event, t: Event) -> bool {
        self.transform.ensures((e,), t)
    }

    /// A transform named `name` with the given function.
    pub fn new(name: &str, transform: F) -> (r: TransformOperator<F>)
        requires
            forall|e: &Event| transform.requires((e,)),
        ensures
            r.spec_name() == name@,
            forall|e: &Event, t: Event| r.transforms(e, t) <==> transform.ensures((e,), t),
    {
        TransformOperator { name: name.to_owned(), transform }
    }
}

impl<F: Fn(&Event) -> Event + Send + Sync> MapOperator for TransformOperator<F> {
    /// There is always an output: an event the transform can turn this one into.
    open spec fn gives(&self, e: EventView, r: Option<OutputView>) -> bool {
        exists|ev: Event, t: Event|
            #![trigger ev@, t@]
            ev@ == e && r == Some(OutputView { source_event: t@, operator: self.spec_name(), payload: Payload::Transform })
                && self.transforms(&ev, t)
    }

    /// Always outputs the transformed event, with payload `{"action": "transform"}`.
    fn process(&self, event: &Event) -> (r: Option<OutputEvent>)
        ensures
            r matches Some(o) && self.transforms(event, o.source_event) && o.operator@ == self.spec_name()
                && o.payload == Payload::Transform,
    {
        proof {
            use_type_invariant(self);
        }
        let transformed: Event = (self.transform)(event);
        Some(OutputEvent { source_event: transformed, operator: self.name.clone(), payload: Payload::Transform })
    }

    fn name(&self) -> (r: &str)
        ensures
            r@ == self.spec_name(),
    {
        self.name.as_str()
    }
}

/// The content of a [`RateLimiter`].
pub struct RateLimiterView {
    pub name: Seq<char>,
    pub max_per_entity: usize,
    /// Events passed per entity since the last window close.
    pub counts: Seq<(Seq<char>, usize)>,
}

/// Rate limiter: passes at most `max_per_entity` events per entity per window.
pub struct RateLimiter {
    name: String,
    max_per_entity: usize,
    counts: Vec<(String, usize)>,
}

/// Per-entity counts as (entity text, count) pairs.
pub open spec fn counts_view(cs: Seq<(String, usize)>) -> Seq<(Seq<char>, usize)> {
    cs.map_values(|p: (String, usize)| (p.0@, p.1))
}

impl View for RateLimiter {
    type V = RateLimiterView;

    closed spec fn view(&self) -> RateLimiterView {
        RateLimiterView { name: self.name@, max_per_entity: self.max_per_entity, counts: counts_view(self.counts@) }
    }
}

/// The number of events of entity `id` passed so far.
pub open spec fn count_of(v: RateLimiterView, id: Seq<char>) -> nat {
    let i = key_index(view_keys(v.counts), id);
    if i >= 0 {
        v.counts[i].1 as nat
    } else {
        0
    }
}

/// The limiter after seeing an event of `id`, and whether it passed: the
/// entity gets an entry (at zero) if it has none; it passes, and its count
/// goes up, while the count is below the limit.
pub open spec fn rate_step(v: RateLimiterView, id: Seq<char>) -> (RateLimiterView, bool) {
    let i = key_index(view_keys(v.counts), id);
    let cs = if i >= 0 { v.counts } else { v.counts.push((id, 0usize)) };
    let k = if i >= 0 { i } else { v.counts.len() as int };
    if cs[k].1 < v.max_per_entity {
        (RateLimiterView { counts: cs.update(k, (id, (cs[k].1 + 1) as usize)), ..v }, true)
    } else {
        (RateLimiterView { counts: cs, ..v }, false)
    }
}

/// A rate limiter keeps one count per entity: seeing an event leaves the
/// entities of its counts listed once each.
pub proof fn law_rate_limiter_one_count_per_entity(v: RateLimiterView, id: Seq<char>)
    requires
        view_keys(v.counts).no_duplicates(),
    ensures
        view_keys(rate_step(v, id).0.counts).no_duplicates(),
{
    let keys = view_keys(v.counts);
    lemma_key_index(keys, id);
    let i = key_index(keys, id);
    let cs = if i >= 0 { v.counts } else { v.counts.push((id, 0usize)) };
    let k = if i >= 0 { i } else { v.counts.len() as int };
    if i < 0 {
        assert(view_keys(cs) =~= keys.push(id));
        crate::keyed::lemma_push_new_key(keys, id);
    }
    assert(cs[k].0 == id);
    crate::keyed::lemma_update_keeps_keys(cs, k, (cs[k].1 + 1) as usize);
}

impl RateLimiter {
    /// A limiter named `name` passing at most `max_per_entity` events per entity per window.
    pub fn new(name: &str, max_per_entity: usize) -> (r: RateLimiter)
        ensures
            r@ == (RateLimiterView { name: name@, max_per_entity, counts: Seq::empty() }),
    {
        let r = RateLimiter { name: name.to_owned(), max_per_entity, counts: Vec::new() };
        assert(counts_view(r.counts@) =~= Seq::<(Seq<char>, usize)>::empty());
        r
    }
}

impl StatefulOperator for RateLimiter {
    /// Passes `event` with payload `{"action": "pass", "count": n}` (its
    /// entity's new count) while the entity is under the limit.
    fn process(&mut self, event: &Event) -> (r: Vec<OutputEvent>)
        ensures
            final(self)@ == rate_step(old(self)@, event@.entity_id).0,
            rate_step(old(self)@, event@.entity_id).1 ==> r@.len() == 1 && is_output(
                r@[0]@,
                event@,
                old(self)@.name,
                Payload::PassCounted { count: count_of(final(self)@, event@.entity_id) as usize },
            ),
            !rate_step(old(self)@, event@.entity_id).1 ==> r@.len() == 0,
    {
        let ghost v = self@;
        let ghost id = event@.entity_id;
        let found = find_key(&self.counts, &event.entity_id);
        assert(keys_of(self.counts@) =~= view_keys(counts_view(self.counts@)));
        proof {
            lemma_key_index(view_keys(v.counts), id);
        }
        let k: usize = match found {
            Some(i) => i,
            None => {
                let n: usize = self.counts.len();
                self.counts.push((event.entity_id.clone(), 0));
                assert(counts_view(self.counts@) =~= v.counts.push((id, 0usize)));
                n
            },
        };
        let c: usize = self.counts[k].1;
        let mut out: Vec<OutputEvent> = Vec::new();
        if c < self.max_per_entity {
            self.counts.set(k, (event.entity_id.clone(), c + 1));
            let ghost cs = if found is Some { v.counts } else { v.counts.push((id, 0usize)) };
            assert(counts_view(self.counts@) =~= cs.update(k as int, (id, (c + 1) as usize)));
            proof {
                lemma_key_index(view_keys(counts_view(self.counts@)), id);
                if found is None {
                    assert(view_keys(counts_view(self.counts@)) =~= view_keys(v.counts).push(id));
                    crate::keyed::lemma_key_index_at(view_keys(counts_view(self.counts@)), id, k as int);
                } else {
                    assert(view_keys(counts_view(self.counts@)) =~= view_keys(v.counts));
                }
            }
            out.push(OutputEvent {
                source_event: event.clone(),
                operator: self.name.clone(),
                payload: Payload::PassCounted { count: c + 1 },
            });
        }
        out
    }

    /// Clears all counts; emits nothing.
    fn on_window_close(&mut self) -> (r: Vec<OutputEvent>)
        ensures
            final(self)@ == (RateLimiterView { counts: Seq::empty(), ..old(self)@ }),
            r@.len() == 0,
    {
        self.counts.clear();
        assert(counts_view(self.counts@) =~= Seq::<(Seq<char>, usize)>::empty());
        Vec::new()
    }

    fn name(&self) -> (r: &str)
        ensures
            r@ == self@.name,
    {
        self.name.as_str()
    }
}

/// The limiter after a run of events of the entities `ids`, in order.
pub open spec fn rate_run(v: RateLimiterView, ids: Seq<Seq<char>>) -> RateLimiterView
    decreases ids.len(),
{
    if ids.len() == 0 {
        v
    } else {
        rate_step(rate_run(v, ids.drop_last()), ids.last()).0
    }
}

/// How many events of entity `id` pass in a run of events of `ids`.
pub open spec fn passed_in_run(v: RateLimiterView, ids: Seq<Seq<char>>, id: Seq<char>) -> nat
    decreases ids.len(),
{
    if ids.len() == 0 {
        0
    } else {
        passed_in_run(v, ids.drop_last(), id) + (if ids.last() == id && rate_step(
            rate_run(v, ids.drop_last()),
            id,
        ).1 {
            1nat
        } else {
            0nat
        })
    }
}

proof fn lemma_rate_step_count(v: RateLimiterView, x: Seq<char>, id: Seq<char>)
    ensures
        count_of(rate_step(v, x).0, id) == count_of(v, id) + (if x == id && rate_step(v, x).1 { 1int } else { 0int }),
        x == id && rate_step(v, x).1 ==> count_of(v, id) < v.max_per_entity,
        rate_step(v, x).1 == (count_of(v, x) < v.max_per_entity),
        rate_step(v, x).0.max_per_entity == v.max_per_entity,
{
    let keys = view_keys(v.counts);
    lemma_key_index(keys, x);
    lemma_key_index(keys, id);
    let i = key_index(keys, x);
    let cs = if i >= 0 { v.counts } else { v.counts.push((x, 0usize)) };
    let k = if i >= 0 { i } else { v.counts.len() as int };
    if i < 0 {
        assert(view_keys(cs) =~= keys.push(x));
    } else {
        assert(view_keys(cs) =~= keys);
    }
    let ks = view_keys(cs);
    lemma_key_index(ks, id);
    lemma_key_index(ks, x);
    if i < 0 {
        crate::keyed::lemma_key_index_at(ks, x, k);
    }
    let r = rate_step(v, x).0;
    assert(view_keys(r.counts) =~= ks) by {
        if cs[k].1 < v.max_per_entity {
            assert(view_keys(cs.update(k, (x, (cs[k].1 + 1) as usize))) =~= ks);
        }
    }
    if id == x {
        if i < 0 {
            crate::keyed::lemma_key_index_at(ks, id, k);
        }
    } else {
        if key_index(keys, id) >= 0 {
            crate::keyed::lemma_key_index_at(ks, id, key_index(keys, id));
        } else {
            crate::keyed::lemma_key_index_absent(ks, id);
        }
    }
}

/// Within a window (from a limiter with no events of `id` counted), at
/// most `max_per_entity` events of any one entity pass.
pub proof fn law_rate_limit_per_entity(v: RateLimiterView, ids: Seq<Seq<char>>, id: Seq<char>)
    requires
        count_of(v, id) == 0,
    ensures
        passed_in_run(v, ids, id) <= v.max_per_entity,
        count_of(rate_run(v, ids), id) == passed_in_run(v, ids, id),
    decreases ids.len(),
{
    if ids.len() > 0 {
        law_rate_limit_per_entity(v, ids.drop_last(), id);
        let s = rate_run(v, ids.drop_last());
        lemma_rate_run_max(v, ids.drop_last());
        lemma_rate_step_count(s, ids.last(), id);
    }
}

proof fn lemma_rate_run_max(v: RateLimiterView, ids: Seq<Seq<char>>)
    ensures
        rate_run(v, ids).max_per_entity == v.max_per_entity,
    decreases ids.len(),
{
    if ids.len() > 0 {
        lemma_rate_run_max(v, ids.drop_last());
        lemma_rate_step_count(rate_run(v, ids.drop_last()), ids.last(), ids.last());
    }
}

/// How many times `x` occurs in `s`.
pub open spec fn occurrences(s: Seq<Seq<char>>, x: Seq<char>) -> nat
    decreases s.len(),
{
    if s.len() == 0 {
        0
    } else {
        occurrences(s.drop_last(), x) + (if s.last() == x { 1nat } else { 0nat })
    }
}

/// From a fresh limiter, an entity's count after a run is its number of
/// events in the run, capped at the limit.
proof fn lemma_rate_run_counts(v: RateLimiterView, s: Seq<Seq<char>>, x: Seq<char>)
    requires
        v.counts == Seq::<(Seq<char>, usize)>::empty(),
    ensures
        count_of(rate_run(v, s), x) == (if occurrences(s, x) < v.max_per_entity {
            occurrences(s, x)
        } else {
            v.max_per_entity as nat
        }),
    decreases s.len(),
{
    if s.len() == 0 {
        assert(key_index(view_keys(v.counts), x) == -1);
    } else {
        let p = s.drop_last();
        let y = s.last();
        lemma_rate_run_counts(v, p, x);
        lemma_rate_run_counts(v, p, y);
        lemma_rate_run_max(v, p);
        lemma_rate_step_count(rate_run(v, p), y, x);
    }
}

/// Within a window, exactly the first `max_per_entity` events of each
/// entity pass, each with its rank among that entity's events as its count,
/// and every later one is refused (from a fresh limiter, as after `new` or
/// `on_window_close`).
pub proof fn law_rate_limit_first_n(v: RateLimiterView, ids: Seq<Seq<char>>, k: int)
    requires
        v.counts == Seq::<(Seq<char>, usize)>::empty(),
        0 <= k < ids.len(),
    ensures
        rate_step(rate_run(v, ids.take(k)), ids[k]).1 == (occurrences(ids.take(k), ids[k]) < v.max_per_entity),
        rate_step(rate_run(v, ids.take(k)), ids[k]).1 ==> count_of(rate_run(v, ids.take(k + 1)), ids[k])
            == occurrences(ids.take(k), ids[k]) + 1,
{
    let p = ids.take(k);
    let x = ids[k];
    lemma_rate_run_counts(v, p, x);
    lemma_rate_run_max(v, p);
    lemma_rate_step_count(rate_run(v, p), x, x);
    assert(ids.take(k + 1).drop_last() =~= p);
    assert(ids.take(k + 1).last() == x);
}

} // verus!

//! Edge runtime: a small stream processor for constrained devices, with a
//! bounded input buffer and a store-and-forward queue.
use vstd::prelude::*;
use std::collections::VecDeque;
use crate::event::{Event, EventView, OutputEvent, OutputView, Payload};
use crate::operator::MapOperator;
use crate::time::{instant_now, nanos_between, MAX_STD_DURATION_NANOS};
use crate::window::events_view;

verus! {

/// Edge runtime configuration.
#[derive(Clone, Copy, Debug, PartialEq, Eq, Structural)]
pub struct EdgeConfig {
    /// Maximum events to buffer in memory.
    pub max_buffer_size: usize,
    /// Flush interval for batch processing.
    pub flush_interval_ms: u64,
    /// Maximum memory usage in bytes (soft limit).
    pub max_memory_bytes: usize,
    /// Whether to keep outputs for forwarding upstream (store-and-forward).
    pub store_and_forward: bool,
    /// Batch size for upstream sync.
    pub sync_batch_size: usize,
}

impl Default for EdgeConfig {
    fn default() -> (r: EdgeConfig)
        ensures
            r == (EdgeConfig {
                max_buffer_size: 1000,
                flush_interval_ms: 5000,
                max_memory_bytes: 67_108_864,
                store_and_forward: true,
                sync_batch_size: 100,
            }),
    {
        EdgeConfig {
            max_buffer_size: 1000,
            flush_interval_ms: 5000,
            max_memory_bytes: 64 * 1024 * 1024,
            store_and_forward: true,
            sync_batch_size: 100,
        }
    }
}

/// Edge runtime metrics.
#[derive(Clone, Copy, Debug, PartialEq, Eq, Structural)]
pub struct EdgeMetrics {
    pub events_received: u64,
    pub events_processed: u64,
    pub events_forwarded: u64,
    pub events_dropped: u64,
    pub buffer_size: usize,
}

impl Default for EdgeMetrics {
    fn default() -> (r: EdgeMetrics)
        ensures
            r == (EdgeMetrics {
                events_received: 0,
                events_processed: 0,
                events_forwarded: 0,
                events_dropped: 0,
                buffer_size: 0,
            }),
    {
        EdgeMetrics { events_received: 0, events_processed: 0, events_forwarded: 0, events_dropped: 0, buffer_size: 0 }
    }
}

/// Lightweight edge stream processor.
pub struct EdgeRuntime {
    config: EdgeConfig,
    buffer: VecDeque<Event>,
    forward_queue: VecDeque<OutputEvent>,
    operators: Vec<Box<dyn MapOperator>>,
    metrics: EdgeMetrics,
    last_flush: std::time::Instant,
}

/// The content of an [`EdgeRuntime`] (the clock reading of the last flush left out).
pub struct EdgeView {
    pub config: EdgeConfig,
    pub buffer: Seq<EventView>,
    pub forward_queue: Seq<OutputView>,
    /// The operator chain, in order.
    pub operators: Seq<Box<dyn MapOperator>>,
    pub metrics: EdgeMetrics,
}

/// Views of a sequence of outputs.
pub open spec fn outputs_view(os: Seq<OutputEvent>) -> Seq<OutputView> {
    os.map_values(|o: OutputEvent| o@)
}

impl View for EdgeRuntime {
    type V = EdgeView;

    closed spec fn view(&self) -> EdgeView {
        EdgeView {
            config: self.config,
            buffer: events_view(self.buffer@),
            forward_queue: outputs_view(self.forward_queue@),
            operators: self.operators@,
            metrics: self.metrics,
        }
    }
}

/// The passthrough output for `e`, when no operator stands in the way.
pub open spec fn is_passthrough(o: OutputView, e: EventView) -> bool {
    o.source_event == e && o.operator == "passthrough"@ && o.payload == Payload::Null
}

/// The runtime after ingesting `e`: at a full buffer the oldest event is
/// dropped (and counted) first.
pub open spec fn ingested(v: EdgeView, e: EventView) -> EdgeView {
    let full = v.buffer.len() >= v.config.max_buffer_size;
    let b = if full && v.buffer.len() > 0 { v.buffer.subrange(1, v.buffer.len() as int) } else { v.buffer };
    EdgeView {
        buffer: b.push(e),
        metrics: EdgeMetrics {
            events_received: (v.metrics.events_received + 1) as u64,
            events_dropped: if full { (v.metrics.events_dropped + 1) as u64 } else { v.metrics.events_dropped },
            buffer_size: b.push(e).len() as usize,
            ..v.metrics
        },
        ..v
    }
}

/// Ingesting keeps the most recent events: the new buffer is the old one
/// with the event appended, less as many of its oldest events as a full
/// buffer has to give up (one where the buffer was full, none otherwise);
/// the drop counter moves exactly when the buffer was full.
pub proof fn law_ingest_keeps_newest(v: EdgeView, e: EventView)
    ensures
        ({
            let all = v.buffer.push(e);
            let nb = ingested(v, e).buffer;
            let full = v.buffer.len() >= v.config.max_buffer_size;
            &&& nb.len() == if full && v.buffer.len() > 0 { v.buffer.len() } else { all.len() }
            &&& nb == all.subrange(all.len() - nb.len(), all.len() as int)
            &&& (full <==> ingested(v, e).metrics.events_dropped != v.metrics.events_dropped)
        }),
{
    let all = v.buffer.push(e);
    let nb = ingested(v, e).buffer;
    assert(nb =~= all.subrange(all.len() - nb.len(), all.len() as int));
    let d: u64 = v.metrics.events_dropped;
    assert(((d + 1) as u64) != d) by (bit_vector);
}

/// The buffer never grows past its configured size (or past one event,
/// for a size of zero): at a full buffer the oldest event makes room.
pub proof fn law_buffer_bounded(v: EdgeView, e: EventView)
    requires
        v.buffer.len() <= v.config.max_buffer_size || v.buffer.len() <= 1,
    ensures
        ingested(v, e).buffer.len() <= v.config.max_buffer_size || ingested(v, e).buffer.len() <= 1,
        ingested(v, e).buffer.last() == e,
{
}

impl EdgeRuntime {
    /// A runtime with the given configuration, empty buffers and no operators.
    pub fn new(config: EdgeConfig) -> (r: EdgeRuntime)
        ensures
            r@ == (EdgeView {
                config,
                buffer: Seq::empty(),
                forward_queue: Seq::empty(),
                operators: Seq::empty(),
                metrics: EdgeMetrics {
                    events_received: 0,
                    events_processed: 0,
                    events_forwarded: 0,
                    events_dropped: 0,
                    buffer_size: 0,
                },
            }),
    {
        let r = EdgeRuntime {
            config,
            buffer: VecDeque::new(),
            forward_queue: VecDeque::new(),
            operators: Vec::new(),
            metrics: EdgeMetrics::default(),
            last_flush: instant_now(),
        };
        assert(events_view(r.buffer@) =~= Seq::<EventView>::empty());
        assert(outputs_view(r.forward_queue@) =~= Seq::<OutputView>::empty());
        r
    }

    /// Adds an operator at the end of the edge pipeline.
    pub fn add_operator(&mut self, op: Box<dyn MapOperator>)
        ensures
            final(self)@ == (EdgeView { operators: old(self)@.operators.push(op), ..old(self)@ }),
    {
        self.operators.push(op);
    }

    /// Ingests one event into the bounded buffer.
    pub fn ingest(&mut self, event: Event)
        requires
            old(self)@.metrics.events_received < u64::MAX,
            old(self)@.metrics.events_dropped < u64::MAX,
        ensures
            final(self)@ == ingested(old(self)@, event@),
    {
        let ghost v = self@;
        self.metrics.events_received = self.metrics.events_received + 1;
        if self.buffer.len() >= self.config.max_buffer_size {
            let ghost before = self.buffer@;
            let dropped: Option<Event> = self.buffer.pop_front();
            proof {
                if before.len() > 0 {
                assert forall|k: int| 0 <= k < self.buffer@.len() implies events_view(self.buffer@)[k] == v.buffer.subrange(1, v.buffer.len() as int)[k] by {
                    assert(self.buffer@[k] == before[k + 1]);
                }
                assert(events_view(self.buffer@) =~= v.buffer.subrange(1, v.buffer.len() as int));
                }
            }
            self.metrics.events_dropped = self.metrics.events_dropped + 1;
        }
        let ghost b = self.buffer@;
        self.buffer.push_back(event);
        assert(events_view(self.buffer@) =~= events_view(b).push(event@));
        self.metrics.buffer_size = self.buffer.len();
    }

    /// The current metrics.
    pub fn metrics(&self) -> (r: &EdgeMetrics)
        ensures
            *r == self@.metrics,
    {
        &self.metrics
    }
}

/// Are `outs` what the chain `ops` may give for the event `e`? Every
/// operator in turn gets `e` itself and answers with an output, until one
/// answers with none; with no operators at all, `e` passes through.
pub open spec fn event_outputs_ok(ops: Seq<Box<dyn MapOperator>>, e: EventView, outs: Seq<OutputView>) -> bool {
    if ops.len() == 0 {
        outs.len() == 1 && is_passthrough(outs[0], e)
    } else {
        &&& outs.len() <= ops.len()
        &&& forall|j: int| 0 <= j < outs.len() ==> #[trigger] ops[j].gives(e, Some(outs[j]))
        &&& outs.len() < ops.len() ==> ops[outs.len() as int].gives(e, None)
    }
}

/// Is `r` made of the outputs for each of `events` in order, one event's
/// outputs after another's?
pub open spec fn edge_outputs_ok(ops: Seq<Box<dyn MapOperator>>, events: Seq<EventView>, r: Seq<OutputView>) -> bool {
    exists|parts: Seq<Seq<OutputView>>|
        #![trigger parts.flatten()]
        parts.len() == events.len() && r == parts.flatten() && forall|k: int|
            0 <= k < events.len() ==> #[trigger] event_outputs_ok(ops, events[k], parts[k])
}

impl EdgeRuntime {
    /// Runs every buffered event, oldest first, through the operator chain.
    /// An event's outputs are those of the operators up to the first one
    /// that gives none; where there are no operators, one passthrough
    /// output is made. Outputs are also queued for forwarding when
    /// store-and-forward is on. The buffer ends empty.
    pub fn process(&mut self) -> (r: Vec<OutputEvent>)
        requires
            old(self)@.metrics.events_processed + old(self)@.buffer.len() <= u64::MAX,
        ensures
            final(self)@.buffer == Seq::<EventView>::empty(),
            final(self)@.config == old(self)@.config,
            final(self)@.operators == old(self)@.operators,
            final(self)@.metrics == (EdgeMetrics {
                events_processed: (old(self)@.metrics.events_processed + old(self)@.buffer.len()) as u64,
                buffer_size: 0,
                ..old(self)@.metrics
            }),
            final(self)@.forward_queue == old(self)@.forward_queue + (if old(self)@.config.store_and_forward {
                outputs_view(r@)
            } else {
                Seq::empty()
            }),
            edge_outputs_ok(old(self)@.operators, old(self)@.buffer, outputs_view(r@)),
    {
        let ghost v = self@;
        let mut results: Vec<OutputEvent> = Vec::new();
        let ghost mut i: int = 0;
        let ghost mut parts: Seq<Seq<OutputView>> = Seq::empty();
        while self.buffer.len() > 0
            invariant
                0 <= i <= v.buffer.len(),
                events_view(self.buffer@) == v.buffer.subrange(i, v.buffer.len() as int),
                self.buffer@.len() == v.buffer.len() - i,
                self.config == v.config,
                self.operators@ == v.operators,
                self.metrics == (EdgeMetrics {
                    events_processed: (v.metrics.events_processed + i) as u64,
                    ..v.metrics
                }),
                v.metrics.events_processed + v.buffer.len() <= u64::MAX,
                outputs_view(self.forward_queue@) == v.forward_queue + (if v.config.store_and_forward {
                    outputs_view(results@)
                } else {
                    Seq::empty()
                }),
                parts.len() == i,
                outputs_view(results@) == parts.flatten(),
                forall|k: int| 0 <= k < i ==> #[trigger] event_outputs_ok(v.operators, v.buffer[k], parts[k]),
            decreases self.buffer@.len(),
        {
            let ghost before = self.buffer@;
            assert(events_view(before)[0] == v.buffer[i]);
            let event: Event = self.buffer.pop_front().unwrap();
            assert forall|k: int| 0 <= k < self.buffer@.len() implies events_view(self.buffer@)[k] == v.buffer.subrange(i + 1, v.buffer.len() as int)[k] by {
                assert(self.buffer@[k] == before[k + 1]);
                assert(events_view(before)[k + 1] == v.buffer.subrange(i, v.buffer.len() as int)[k + 1]);
            }
            assert(events_view(self.buffer@) =~= v.buffer.subrange(i + 1, v.buffer.len() as int));
            let ghost buf = self.buffer@;
            let mut outputs: Vec<OutputEvent> = Vec::new();
            let mut passed: bool = true;
            let mut j: usize = 0;
            while j < self.operators.len() && passed
                invariant
                    j <= self.operators@.len(),
                    outputs@.len() == j,
                    forall|m: int| 0 <= m < j ==> #[trigger] v.operators[m].gives(event@, Some(outputs_view(outputs@)[m])),
                    !passed ==> j < v.operators.len() && v.operators[j as int].gives(event@, None),
                    self.operators@ == v.operators,
                    self.buffer@ == buf,
                    self.config == v.config,
                    self.metrics == (EdgeMetrics {
                        events_processed: (v.metrics.events_processed + i) as u64,
                        ..v.metrics
                    }),
                    outputs_view(self.forward_queue@) == v.forward_queue + (if v.config.store_and_forward {
                        outputs_view(results@)
                    } else {
                        Seq::empty()
                    }),
                decreases self.operators@.len() - j + (if passed { 1int } else { 0int }),
            {
                let ghost seen = outputs_view(outputs@);
                match self.operators[j].process(&event) {
                    Some(output) => {
                        outputs.push(output);
                        assert(outputs_view(outputs@) =~= seen.push(output@));
                        j = j + 1;
                    },
                    None => {
                        passed = false;
                    },
                }
            }
            if passed && outputs.len() == 0 {
                outputs.push(OutputEvent {
                    source_event: event.clone(),
                    operator: "passthrough".to_string(),
                    payload: Payload::Null,
                });
            }
            let ghost outs = outputs_view(outputs@);
            assert(event_outputs_ok(v.operators, v.buffer[i], outs));
            self.metrics.events_processed = self.metrics.events_processed + 1;
            let ghost fq = outputs_view(self.forward_queue@);
            let mut k: usize = 0;
            while k < outputs.len()
                invariant
                    k <= outputs@.len(),
                    outputs_view(self.forward_queue@) == fq + (if v.config.store_and_forward {
                        outputs_view(outputs@.subrange(0, k as int))
                    } else {
                        Seq::empty()
                    }),
                    self.config == v.config,
                    self.buffer@ == buf,
                    self.operators@ == v.operators,
                    self.metrics == (EdgeMetrics {
                        events_processed: (v.metrics.events_processed + i + 1) as u64,
                        ..v.metrics
                    }),
                decreases outputs@.len() - k,
            {
                if self.config.store_and_forward {
                    let ghost q = self.forward_queue@;
                    self.forward_queue.push_back(outputs[k].clone());
                    assert(outputs_view(self.forward_queue@) =~= outputs_view(q).push(outputs@[k as int]@));
                    assert(outputs_view(outputs@.subrange(0, k as int + 1)) =~= outputs_view(outputs@.subrange(0, k as int)).push(outputs@[k as int]@));
                }
                k = k + 1;
            }
            assert(outputs@.subrange(0, k as int) =~= outputs@);
            let ghost prev = results@;
            results.append(&mut outputs);
            assert(outputs_view(results@) =~= outputs_view(prev) + outs);
            proof {
                parts.lemma_flatten_push(outs);
                parts = parts.push(outs);
                i = i + 1;
            }
        }
        self.metrics.buffer_size = self.buffer.len();
        results
    }
}

/// Is a flush due after `elapsed_ns` nanoseconds since the last one, with
/// `queue_len` outputs waiting: has the interval passed, or is a batch full?
pub open spec fn flush_due_spec(elapsed_ns: nat, flush_interval_ms: u64, queue_len: nat, sync_batch_size: usize) -> bool {
    elapsed_ns >= flush_interval_ms * 1_000_000 || queue_len >= sync_batch_size
}

/// Is a flush due after `elapsed_ns` nanoseconds since the last one, with
/// `queue_len` outputs waiting: has the interval passed, or is a batch full?
pub fn flush_due(elapsed_ns: u128, flush_interval_ms: u64, queue_len: usize, sync_batch_size: usize) -> (r: bool)
    ensures
        r == flush_due_spec(elapsed_ns as nat, flush_interval_ms, queue_len as nat, sync_batch_size),
{
    elapsed_ns >= (flush_interval_ms as u128) * 1_000_000 || queue_len >= sync_batch_size
}

impl EdgeRuntime {
    /// Is it time to flush: has the flush interval passed since the last
    /// flush (by the clock), or does the forward queue hold a full batch?
    pub fn should_flush(&self) -> (r: bool)
        ensures
            exists|el: nat|
                el <= MAX_STD_DURATION_NANOS && r == #[trigger] flush_due_spec(
                    el,
                    self@.config.flush_interval_ms,
                    self@.forward_queue.len(),
                    self@.config.sync_batch_size,
                ),
    {
        let now = instant_now();
        let elapsed: u128 = nanos_between(&now, &self.last_flush);
        let r = flush_due(elapsed, self.config.flush_interval_ms, self.forward_queue.len(), self.config.sync_batch_size);
        assert(r == flush_due_spec(elapsed as nat, self@.config.flush_interval_ms, self@.forward_queue.len(), self@.config.sync_batch_size));
        r
    }

    /// Takes the oldest batch (up to `sync_batch_size` outputs) off the
    /// forward queue, counts it as forwarded, and restarts the flush clock.
    pub fn drain_forward_queue(&mut self) -> (r: Vec<OutputEvent>)
        requires
            old(self)@.metrics.events_forwarded + old(self)@.config.sync_batch_size <= u64::MAX,
        ensures
            ({
                let n = if old(self)@.config.sync_batch_size <= old(self)@.forward_queue.len() {
                    old(self)@.config.sync_batch_size as int
                } else {
                    old(self)@.forward_queue.len() as int
                };
                &&& outputs_view(r@) == old(self)@.forward_queue.subrange(0, n)
                &&& final(self)@ == (EdgeView {
                    forward_queue: old(self)@.forward_queue.subrange(n, old(self)@.forward_queue.len() as int),
                    metrics: EdgeMetrics {
                        events_forwarded: (old(self)@.metrics.events_forwarded + n) as u64,
                        ..old(self)@.metrics
                    },
                    ..old(self)@
                })
            }),
    {
        let ghost q0 = self@.forward_queue;
        let batch_size: usize = if self.config.sync_batch_size <= self.forward_queue.len() {
            self.config.sync_batch_size
        } else {
            self.forward_queue.len()
        };
        let mut batch: Vec<OutputEvent> = Vec::new();
        let mut i: usize = 0;
        while i < batch_size
            invariant
                i <= batch_size,
                batch_size <= q0.len(),
                outputs_view(batch@) == q0.subrange(0, i as int),
                outputs_view(self.forward_queue@) == q0.subrange(i as int, q0.len() as int),
                self.forward_queue@.len() == q0.len() - i,
                self.config == old(self).config,
                self.metrics == old(self).metrics,
                self.buffer@ == old(self).buffer@,
                self.operators@ == old(self).operators@,
            decreases batch_size - i,
        {
            let ghost before = self.forward_queue@;
            assert(outputs_view(before)[0] == q0[i as int]);
            let o: OutputEvent = self.forward_queue.pop_front().unwrap();
            assert forall|k: int| 0 <= k < self.forward_queue@.len() implies outputs_view(self.forward_queue@)[k] == q0.subrange(i + 1, q0.len() as int)[k] by {
                assert(self.forward_queue@[k] == before[k + 1]);
                assert(outputs_view(before)[k + 1] == q0.subrange(i as int, q0.len() as int)[k + 1]);
            }
            assert(outputs_view(self.forward_queue@) =~= q0.subrange(i + 1, q0.len() as int));
            let ghost b = batch@;
            batch.push(o);
            assert(outputs_view(batch@) =~= outputs_view(b).push(q0[i as int]));
            assert(q0.subrange(0, i + 1) =~= q0.subrange(0, i as int).push(q0[i as int]));
            i = i + 1;
        }
        self.metrics.events_forwarded = self.metrics.events_forwarded + (batch_size as u64);
        self.last_flush = instant_now();
        batch
    }
}

} // verus!

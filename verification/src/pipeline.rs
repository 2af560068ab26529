//! A processing pipeline: a chain of map operators that each event runs through.
use vstd::prelude::*;
use crate::event::{Event, EventView, OutputEvent, OutputView};
use crate::operator::{MapOperator, chain_gives, chain_input};
use crate::edge::outputs_view;

verus! {

/// Pipeline execution metrics.
#[derive(Clone, Copy, Debug, PartialEq, Eq, Structural)]
pub struct PipelineMetrics {
    pub events_received: u64,
    pub events_emitted: u64,
    pub events_filtered: u64,
}

impl Default for PipelineMetrics {
    fn default() -> (r: PipelineMetrics)
        ensures
            r == (PipelineMetrics { events_received: 0, events_emitted: 0, events_filtered: 0 }),
    {
        PipelineMetrics { events_received: 0, events_emitted: 0, events_filtered: 0 }
    }
}

/// A processing pipeline: operators applied in order.
pub struct Pipeline {
    name: String,
    operators: Vec<Box<dyn MapOperator>>,
}

/// What one event produced: the outputs of the operators that passed it
/// on, in order, and whether an operator filtered it out.
pub struct ChainOutcome {
    pub outputs: Vec<OutputEvent>,
    pub filtered: bool,
}

impl Pipeline {
    /// A pipeline named `name` with no operators.
    pub fn new(name: &str) -> (r: Pipeline)
        ensures
            r.spec_name() == name@,
            r.spec_operators() == Seq::<Box<dyn MapOperator>>::empty(),
    {
        let r = Pipeline { name: name.to_owned(), operators: Vec::new() };
        assert(r.operators@ =~= Seq::<Box<dyn MapOperator>>::empty());
        r
    }

    /// The pipeline's name.
    pub closed spec fn spec_name(&self) -> Seq<char> {
        self.name@
    }

    /// The operators, in order.
    pub closed spec fn spec_operators(&self) -> Seq<Box<dyn MapOperator>> {
        self.operators@
    }

    /// Adds an operator at the end of the chain.
    pub fn add_operator(&mut self, op: Box<dyn MapOperator>)
        ensures
            final(self).spec_name() == old(self).spec_name(),
            final(self).spec_operators() == old(self).spec_operators().push(op),
    {
        self.operators.push(op);
    }

    /// The pipeline's name.
    pub fn name(&self) -> (r: &str)
        ensures
            r@ == self.spec_name(),
    {
        self.name.as_str()
    }

    /// Runs one event through the chain: each operator gets the event that
    /// the previous one output; an operator that outputs nothing filters
    /// the event out and ends the chain.
    pub fn run_chain(&self, event: Event) -> (r: ChainOutcome)
        ensures
            chain_gives(self.spec_operators(), event@, outputs_view(r.outputs@), r.filtered),
    {
        let ghost e = event@;
        let ghost ops = self.operators@;
        let mut outputs: Vec<OutputEvent> = Vec::new();
        let mut current: Event = event;
        let mut i: usize = 0;
        while i < self.operators.len()
            invariant
                i <= self.operators@.len(),
                ops == self.operators@,
                e == event@,
                outputs@.len() == i,
                current@ == chain_input(e, outputs_view(outputs@), i as int),
                forall|k: int| 0 <= k < i ==> #[trigger] ops[k].gives(
                    chain_input(e, outputs_view(outputs@), k),
                    Some(outputs_view(outputs@)[k]),
                ),
            decreases self.operators@.len() - i,
        {
            let ghost before = outputs_view(outputs@);
            let ghost cur = current@;
            match self.operators[i].process(&current) {
                Some(out) => {
                    current = out.source_event.clone();
                    outputs.push(out);
                    proof {
                        let now = outputs_view(outputs@);
                        assert(now =~= before.push(out@));
                        assert forall|k: int| 0 <= k <= i implies #[trigger] ops[k].gives(chain_input(e, now, k), Some(now[k])) by {
                            assert(chain_input(e, now, k) == chain_input(e, before, k));
                        }
                    }
                },
                None => {
                    return ChainOutcome { outputs, filtered: true };
                },
            }
            i = i + 1;
        }
        ChainOutcome { outputs, filtered: false }
    }
}

impl PipelineMetrics {
    /// Counts a received event.
    pub fn record_received(&mut self)
        requires
            old(self).events_received < u64::MAX,
        ensures
            *final(self) == (PipelineMetrics { events_received: (old(self).events_received + 1) as u64, ..*old(self) }),
    {
        self.events_received = self.events_received + 1;
    }

    /// Counts an emitted output.
    pub fn record_emitted(&mut self)
        requires
            old(self).events_emitted < u64::MAX,
        ensures
            *final(self) == (PipelineMetrics { events_emitted: (old(self).events_emitted + 1) as u64, ..*old(self) }),
    {
        self.events_emitted = self.events_emitted + 1;
    }

    /// Counts a filtered-out event.
    pub fn record_filtered(&mut self)
        requires
            old(self).events_filtered < u64::MAX,
        ensures
            *final(self) == (PipelineMetrics { events_filtered: (old(self).events_filtered + 1) as u64, ..*old(self) }),
    {
        self.events_filtered = self.events_filtered + 1;
    }
}

} // verus!

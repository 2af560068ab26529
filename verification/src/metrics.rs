//! Counters for pipeline observability, rendered in the Prometheus text format.
use vstd::prelude::*;
use crate::text::{dec_text, fixed2_text, append_decimal, append_fixed2};
use crate::binary64::{f64_div_hundredths, f64_div_hundredths_exec};

verus! {

/// Metrics collector for pipeline operators. Counters wrap around on
/// overflow, as atomic additions do.
#[derive(Debug)]
pub struct Metrics {
    events_received: u64,
    events_emitted: u64,
    events_filtered: u64,
    events_late: u64,
    processing_time_us: u64,
    processing_count: u64,
}

/// The counters of a [`Metrics`].
pub struct MetricsView {
    pub events_received: u64,
    pub events_emitted: u64,
    pub events_filtered: u64,
    pub events_late: u64,
    pub processing_time_us: u64,
    pub processing_count: u64,
}

impl View for Metrics {
    type V = MetricsView;

    closed spec fn view(&self) -> MetricsView {
        MetricsView {
            events_received: self.events_received,
            events_emitted: self.events_emitted,
            events_filtered: self.events_filtered,
            events_late: self.events_late,
            processing_time_us: self.processing_time_us,
            processing_count: self.processing_count,
        }
    }
}

/// All counters at zero.
pub open spec fn zero_metrics() -> MetricsView {
    MetricsView {
        events_received: 0,
        events_emitted: 0,
        events_filtered: 0,
        events_late: 0,
        processing_time_us: 0,
        processing_count: 0,
    }
}

/// `x + 1`, wrapping at `u64::MAX`.
pub open spec fn wrapping_inc(x: u64) -> u64 {
    if x == u64::MAX { 0 } else { (x + 1) as u64 }
}

/// `x + y`, wrapping at `u64::MAX`.
pub open spec fn wrapping_sum(x: u64, y: u64) -> u64 {
    ((x + y) % 0x1_0000_0000_0000_0000) as u64
}

/// The average processing time as the exposition prints it: the double
/// quotient `processing_time_us as f64 / processing_count as f64`, written
/// with `{:.2}`, in hundredths (zero when nothing was recorded).
pub open spec fn avg_hundredths(m: MetricsView) -> nat {
    if m.processing_count == 0 {
        0
    } else {
        f64_div_hundredths(m.processing_time_us as nat, m.processing_count as nat)
    }
}

/// One counter in the exposition format: HELP line, TYPE line, sample line.
pub open spec fn prom_block(prefix: Seq<char>, name: Seq<char>, help: Seq<char>, kind: Seq<char>, value: Seq<char>) -> Seq<char> {
    "# HELP "@ + prefix + name + " "@ + help + "\n"@ + "# TYPE "@ + prefix + name + " "@ + kind + "\n"@ + prefix
        + name + " "@ + value + "\n"@
}

/// The exposition text for `m` with metric names starting `prefix`.
pub open spec fn prometheus_text(m: MetricsView, prefix: Seq<char>) -> Seq<char> {
    prom_block(prefix, "_events_received_total"@, "Total events received"@, "counter"@, dec_text(m.events_received as nat))
        + prom_block(prefix, "_events_emitted_total"@, "Total events emitted"@, "counter"@, dec_text(m.events_emitted as nat))
        + prom_block(
        prefix,
        "_events_filtered_total"@,
        "Total events filtered out"@,
        "counter"@,
        dec_text(m.events_filtered as nat),
    ) + prom_block(prefix, "_events_late_total"@, "Total late events"@, "counter"@, dec_text(m.events_late as nat))
        + prom_block(
        prefix,
        "_processing_time_avg_us"@,
        "Average processing time in microseconds"@,
        "gauge"@,
        fixed2_text(avg_hundredths(m)),
    )
}

/// Does `text` hold `line` as a whole line: at its start or right after a
/// line break, and followed by a line break?
pub open spec fn has_line(text: Seq<char>, line: Seq<char>) -> bool {
    exists|i: int|
        0 <= i && i + line.len() < text.len() && (i == 0 || text[i - 1] == '\n')
            && #[trigger] text.subrange(i, i + line.len() + 1) == line + "\n"@
}

/// The sample line of the counter `name` with value `value`.
pub open spec fn sample_line(prefix: Seq<char>, name: Seq<char>, value: nat) -> Seq<char> {
    prefix + name + " "@ + dec_text(value)
}

proof fn lemma_has_line(a: Seq<char>, x: Seq<char>, line: Seq<char>, b: Seq<char>)
    requires
        x.len() > 0,
        x.last() == '\n',
    ensures
        has_line(a + x + (line + "\n"@) + b, line),
{
    reveal_strlit("\n");
    let t = a + x + (line + "\n"@) + b;
    let i: int = (a.len() + x.len()) as int;
    assert(t[i - 1] == x.last());
    assert(t.subrange(i, i + line.len() + 1) =~= line + "\n"@);
}

/// A block is its HELP and TYPE lines, ending in a line break, then its sample line.
proof fn lemma_block_split(prefix: Seq<char>, name: Seq<char>, help: Seq<char>, kind: Seq<char>, value: Seq<char>)
    ensures
        ({
            let x = "# HELP "@ + prefix + name + " "@ + help + "\n"@ + "# TYPE "@ + prefix + name + " "@ + kind + "\n"@;
            &&& x.len() > 0
            &&& x.last() == '\n'
            &&& prom_block(prefix, name, help, kind, value) == x + ((prefix + name + " "@ + value) + "\n"@)
        }),
{
    reveal_strlit("\n");
    let x = "# HELP "@ + prefix + name + " "@ + help + "\n"@ + "# TYPE "@ + prefix + name + " "@ + kind + "\n"@;
    assert(prom_block(prefix, name, help, kind, value) =~= x + ((prefix + name + " "@ + value) + "\n"@));
}

/// The exposition reports each counter under its own name: for every state,
/// the text has the line `<prefix>_events_received_total N` with `N` the
/// received count, and likewise for the emitted, filtered and late counts.
pub proof fn law_prometheus_reports_counters(m: MetricsView, prefix: Seq<char>)
    ensures
        has_line(prometheus_text(m, prefix), sample_line(prefix, "_events_received_total"@, m.events_received as nat)),
        has_line(prometheus_text(m, prefix), sample_line(prefix, "_events_emitted_total"@, m.events_emitted as nat)),
        has_line(prometheus_text(m, prefix), sample_line(prefix, "_events_filtered_total"@, m.events_filtered as nat)),
        has_line(prometheus_text(m, prefix), sample_line(prefix, "_events_late_total"@, m.events_late as nat)),
{
    let b1 = prom_block(prefix, "_events_received_total"@, "Total events received"@, "counter"@, dec_text(m.events_received as nat));
    let b2 = prom_block(prefix, "_events_emitted_total"@, "Total events emitted"@, "counter"@, dec_text(m.events_emitted as nat));
    let b3 = prom_block(prefix, "_events_filtered_total"@, "Total events filtered out"@, "counter"@, dec_text(m.events_filtered as nat));
    let b4 = prom_block(prefix, "_events_late_total"@, "Total late events"@, "counter"@, dec_text(m.events_late as nat));
    let b5 = prom_block(
        prefix,
        "_processing_time_avg_us"@,
        "Average processing time in microseconds"@,
        "gauge"@,
        fixed2_text(avg_hundredths(m)),
    );
    let t = prometheus_text(m, prefix);
    assert(t == b1 + b2 + b3 + b4 + b5);
    let e = Seq::<char>::empty();

    lemma_block_split(prefix, "_events_received_total"@, "Total events received"@, "counter"@, dec_text(m.events_received as nat));
    let x1 = "# HELP "@ + prefix + "_events_received_total"@ + " "@ + "Total events received"@ + "\n"@ + "# TYPE "@ + prefix + "_events_received_total"@ + " "@ + "counter"@ + "\n"@;
    let l1 = sample_line(prefix, "_events_received_total"@, m.events_received as nat);
    assert(t =~= e + x1 + (l1 + "\n"@) + (b2 + b3 + b4 + b5));
    lemma_has_line(e, x1, l1, b2 + b3 + b4 + b5);

    lemma_block_split(prefix, "_events_emitted_total"@, "Total events emitted"@, "counter"@, dec_text(m.events_emitted as nat));
    let x2 = "# HELP "@ + prefix + "_events_emitted_total"@ + " "@ + "Total events emitted"@ + "\n"@ + "# TYPE "@ + prefix + "_events_emitted_total"@ + " "@ + "counter"@ + "\n"@;
    let l2 = sample_line(prefix, "_events_emitted_total"@, m.events_emitted as nat);
    assert(t =~= b1 + x2 + (l2 + "\n"@) + (b3 + b4 + b5));
    lemma_has_line(b1, x2, l2, b3 + b4 + b5);

    lemma_block_split(prefix, "_events_filtered_total"@, "Total events filtered out"@, "counter"@, dec_text(m.events_filtered as nat));
    let x3 = "# HELP "@ + prefix + "_events_filtered_total"@ + " "@ + "Total events filtered out"@ + "\n"@ + "# TYPE "@ + prefix + "_events_filtered_total"@ + " "@ + "counter"@ + "\n"@;
    let l3 = sample_line(prefix, "_events_filtered_total"@, m.events_filtered as nat);
    assert(t =~= (b1 + b2) + x3 + (l3 + "\n"@) + (b4 + b5));
    lemma_has_line(b1 + b2, x3, l3, b4 + b5);

    lemma_block_split(prefix, "_events_late_total"@, "Total late events"@, "counter"@, dec_text(m.events_late as nat));
    let x4 = "# HELP "@ + prefix + "_events_late_total"@ + " "@ + "Total late events"@ + "\n"@ + "# TYPE "@ + prefix + "_events_late_total"@ + " "@ + "counter"@ + "\n"@;
    let l4 = sample_line(prefix, "_events_late_total"@, m.events_late as nat);
    assert(t =~= (b1 + b2 + b3) + x4 + (l4 + "\n"@) + b5);
    lemma_has_line(b1 + b2 + b3, x4, l4, b5);
}

fn append_block(out: &mut String, prefix: &str, name: &str, help: &str, kind: &str, value: &String)
    ensures
        final(out)@ == old(out)@ + prom_block(prefix@, name@, help@, kind@, value@),
{
    out.append("# HELP ");
    out.append(prefix);
    out.append(name);
    out.append(" ");
    out.append(help);
    out.append("\n");
    out.append("# TYPE ");
    out.append(prefix);
    out.append(name);
    out.append(" ");
    out.append(kind);
    out.append("\n");
    out.append(prefix);
    out.append(name);
    out.append(" ");
    out.append(value.as_str());
    out.append("\n");
    assert(final(out)@ =~= old(out)@ + prom_block(prefix@, name@, help@, kind@, value@));
}

fn decimal_string(n: u64) -> (r: String)
    ensures
        r@ == dec_text(n as nat),
{
    let mut s: String = String::new();
    append_decimal(&mut s, n as u128);
    assert(s@ =~= dec_text(n as nat));
    s
}

impl Metrics {
    /// All counters at zero.
    pub fn new() -> (r: Metrics)
        ensures
            r@ == zero_metrics(),
    {
        Metrics {
            events_received: 0,
            events_emitted: 0,
            events_filtered: 0,
            events_late: 0,
            processing_time_us: 0,
            processing_count: 0,
        }
    }

    /// Counts a received event.
    pub fn inc_received(&mut self)
        ensures
            final(self)@ == (MetricsView { events_received: wrapping_inc(old(self)@.events_received), ..old(self)@ }),
    {
        self.events_received = self.events_received.wrapping_add(1);
    }

    /// Counts an emitted event.
    pub fn inc_emitted(&mut self)
        ensures
            final(self)@ == (MetricsView { events_emitted: wrapping_inc(old(self)@.events_emitted), ..old(self)@ }),
    {
        self.events_emitted = self.events_emitted.wrapping_add(1);
    }

    /// Counts a filtered-out event.
    pub fn inc_filtered(&mut self)
        ensures
            final(self)@ == (MetricsView { events_filtered: wrapping_inc(old(self)@.events_filtered), ..old(self)@ }),
    {
        self.events_filtered = self.events_filtered.wrapping_add(1);
    }

    /// Counts a late event.
    pub fn inc_late(&mut self)
        ensures
            final(self)@ == (MetricsView { events_late: wrapping_inc(old(self)@.events_late), ..old(self)@ }),
    {
        self.events_late = self.events_late.wrapping_add(1);
    }

    /// Records one processing of `microseconds` microseconds.
    pub fn record_processing_time(&mut self, microseconds: u64)
        ensures
            final(self)@ == (MetricsView {
                processing_time_us: wrapping_sum(old(self)@.processing_time_us, microseconds),
                processing_count: wrapping_inc(old(self)@.processing_count),
                ..old(self)@
            }),
    {
        self.processing_time_us = self.processing_time_us.wrapping_add(microseconds);
        self.processing_count = self.processing_count.wrapping_add(1);
    }

    /// Events received.
    pub fn events_received(&self) -> (r: u64)
        ensures
            r == self@.events_received,
    {
        self.events_received
    }

    /// Events emitted.
    pub fn events_emitted(&self) -> (r: u64)
        ensures
            r == self@.events_emitted,
    {
        self.events_emitted
    }

    /// Events filtered out.
    pub fn events_filtered(&self) -> (r: u64)
        ensures
            r == self@.events_filtered,
    {
        self.events_filtered
    }

    /// Late events.
    pub fn events_late(&self) -> (r: u64)
        ensures
            r == self@.events_late,
    {
        self.events_late
    }

    /// Total recorded processing time in microseconds.
    pub fn processing_time_us(&self) -> (r: u64)
        ensures
            r == self@.processing_time_us,
    {
        self.processing_time_us
    }

    /// Number of recorded processings.
    pub fn processing_count(&self) -> (r: u64)
        ensures
            r == self@.processing_count,
    {
        self.processing_count
    }

    /// The average processing time in hundredths of a microsecond, as the
    /// exposition prints it: the double quotient of the total time by the
    /// count, rounded to hundredths as `{:.2}` does (ties to even); zero
    /// when nothing was recorded.
    pub fn avg_processing_time_hundredths(&self) -> (r: u128)
        ensures
            r == avg_hundredths(self@),
    {
        if self.processing_count == 0 {
            return 0;
        }
        f64_div_hundredths_exec(self.processing_time_us, self.processing_count)
    }

    /// Renders the metrics in the Prometheus exposition format.
    pub fn to_prometheus(&self, prefix: &str) -> (r: String)
        ensures
            r@ == prometheus_text(self@, prefix@),
            has_line(r@, sample_line(prefix@, "_events_received_total"@, self@.events_received as nat)),
            has_line(r@, sample_line(prefix@, "_events_emitted_total"@, self@.events_emitted as nat)),
            has_line(r@, sample_line(prefix@, "_events_filtered_total"@, self@.events_filtered as nat)),
            has_line(r@, sample_line(prefix@, "_events_late_total"@, self@.events_late as nat)),
    {
        let mut out: String = String::new();
        let v1: String = decimal_string(self.events_received);
        append_block(&mut out, prefix, "_events_received_total", "Total events received", "counter", &v1);
        let v2: String = decimal_string(self.events_emitted);
        append_block(&mut out, prefix, "_events_emitted_total", "Total events emitted", "counter", &v2);
        let v3: String = decimal_string(self.events_filtered);
        append_block(&mut out, prefix, "_events_filtered_total", "Total events filtered out", "counter", &v3);
        let v4: String = decimal_string(self.events_late);
        append_block(&mut out, prefix, "_events_late_total", "Total late events", "counter", &v4);
        let mut v5: String = String::new();
        let h: u128 = self.avg_processing_time_hundredths();
        append_fixed2(&mut v5, h);
        assert(v5@ =~= fixed2_text(avg_hundredths(self@)));
        append_block(
            &mut out,
            prefix,
            "_processing_time_avg_us",
            "Average processing time in microseconds",
            "gauge",
            &v5,
        );
        assert(out@ =~= prometheus_text(self@, prefix@));
        proof {
            law_prometheus_reports_counters(self@, prefix@);
        }
        out
    }

    /// Resets all counters to zero.
    pub fn reset(&mut self)
        ensures
            final(self)@ == zero_metrics(),
    {
        self.events_received = 0;
        self.events_emitted = 0;
        self.events_filtered = 0;
        self.events_late = 0;
        self.processing_time_us = 0;
        self.processing_count = 0;
    }
}

impl Default for Metrics {
    fn default() -> (r: Metrics)
        ensures
            r@ == zero_metrics(),
    {
        Metrics::new()
    }
}

} // verus!

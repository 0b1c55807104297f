//! The sink that all metrics are collected in.

use vstd::prelude::*;

use crate::data::{
    fresh, instrument_view, CounterView, GaugeView, HistogramView, Metric, MetricKind, MetricView,
};
use crate::index::{find_slot, index_slots, new_index, slot_or_insert};
use crate::key::{key_text, KeyId, KeyView, MetricKey};
use crate::otlp::{
    exported, instrument_for, should_export_to_otlp, valid_endpoint, InstrumentView, OtlpConfig,
    OtlpInstrument,
};
use crate::text::{ascending, sort_lines, texts};

verus! {

broadcast use vstd::string::group_string_axioms;

/// The log target to use for emitted metrics.
pub const TARGET_NAME: &'static str = "mountpoint_s3_fs::metrics";

/// The capacity that the index starts with.
const INITIAL_CAPACITY: usize = 64;

/// Configuration for metrics collection.
#[derive(Debug)]
pub enum MetricsConfig {
    /// Export over OTLP.
    Otlp(OtlpConfig),
}

/// Why there is no sink.
#[derive(Debug)]
pub enum MetricsError {
    /// The endpoint names no protocol that an exporter speaks.
    InvalidEndpoint,
    /// The exporter could not be set up, for this reason.
    Exporter(String),
}

/// The message of an error.
pub open spec fn error_text(error: MetricsError) -> Seq<char> {
    match error {
        MetricsError::InvalidEndpoint =>
            "Invalid OTLP endpoint configuration: endpoint must start with http:// or https://"@,
        MetricsError::Exporter(reason) => "Failed to initialize OTLP metrics exporter: "@ + reason@
            + ". If metrics export is not required, omit the OTLP configuration."@,
    }
}

impl MetricsError {
    /// The message of this error.
    pub fn message(&self) -> (text: String)
        ensures
            text@ == error_text(*self),
    {
        match self {
            MetricsError::InvalidEndpoint => {
                let text = "Invalid OTLP endpoint configuration: endpoint must start with http:// or https://";
                text.to_string()
            },
            MetricsError::Exporter(reason) => {
                let mut text = "Failed to initialize OTLP metrics exporter: ".to_string();
                text.append(reason.as_str());
                text.append(". If metrics export is not required, omit the OTLP configuration.");
                text
            },
        }
    }
}

/// What a [`MetricEntry`] holds.
#[verifier::ext_equal]
pub struct EntryView {
    pub key: KeyView,
    pub metric: MetricView,
    pub unit: Option<metrics::Unit>,
}

impl EntryView {
    /// The entry after its metric was read.
    pub open spec fn drained(self) -> EntryView {
        EntryView { metric: self.metric.drained(), ..self }
    }
}

/// A metric, the key that it was first registered or described with, and its unit.
#[derive(Debug)]
pub struct MetricEntry {
    pub key: MetricKey,
    pub metric: Metric,
    pub unit: Option<metrics::Unit>,
}

impl View for MetricEntry {
    type V = EntryView;

    open spec fn view(&self) -> EntryView {
        EntryView { key: self.key@, metric: self.metric@, unit: self.unit }
    }
}

/// What a [`MetricsSink`] holds.
#[verifier::ext_equal]
pub struct SinkView {
    /// The entries, in the order in which they were made.
    pub entries: Seq<EntryView>,
    /// Whether metrics are exported.
    pub exporting: bool,
}

impl SinkView {
    /// Whether slot `i` holds the entry of the metric.
    pub open spec fn slot_holds(self, i: int, id: KeyId) -> bool {
        0 <= i < self.entries.len() && self.entries[i].key.id() == id
    }

    /// Whether there is an entry of the metric.
    pub open spec fn holds(self, id: KeyId) -> bool {
        exists|i: int| self.slot_holds(i, id)
    }

    /// The slot of the metric's entry.
    pub open spec fn slot(self, id: KeyId) -> int {
        choose|i: int| self.slot_holds(i, id)
    }

    /// The metric's entry.
    pub open spec fn entry(self, id: KeyId) -> EntryView {
        self.entries[self.slot(id)]
    }

    /// Whether there is an entry of the metric, and the metric is of this kind.
    pub open spec fn holds_kind(self, id: KeyId, kind: MetricKind) -> bool {
        self.holds(id) && self.entry(id).metric.kind() == kind
    }

    /// Whether the metric can be registered with this kind: it is of this kind, if it is there.
    pub open spec fn free_or_kind(self, id: KeyId, kind: MetricKind) -> bool {
        self.holds(id) ==> self.holds_kind(id, kind)
    }

    /// The counter that the sink holds for a metric.
    pub open spec fn counter(self, id: KeyId) -> CounterView {
        self.entry(id).metric->Counter_0
    }

    /// The gauge that the sink holds for a metric.
    pub open spec fn gauge(self, id: KeyId) -> GaugeView {
        self.entry(id).metric->Gauge_0
    }

    /// The histogram that the sink holds for a metric.
    pub open spec fn histogram(self, id: KeyId) -> HistogramView {
        self.entry(id).metric->Histogram_0
    }

    /// No two entries are of one metric.
    pub open spec fn distinct(self) -> bool {
        forall|i: int, j: int|
            0 <= i < j < self.entries.len() ==> #[trigger] self.entries[i].key.id()
                != #[trigger] self.entries[j].key.id()
    }

    /// The sink with an entry for the metric, made now unless there was one.
    pub open spec fn with_entry(
        self,
        key: KeyView,
        kind: MetricKind,
        unit: Option<metrics::Unit>,
        otlp: Option<InstrumentView>,
    ) -> SinkView {
        if self.holds(key.id()) {
            self
        } else {
            SinkView {
                entries: self.entries.push(EntryView { key, metric: fresh(kind, otlp), unit }),
                ..self
            }
        }
    }

    /// The instrument of a metric that is registered now for the first time.
    pub open spec fn instrument(self, key: KeyView, unit: Option<metrics::Unit>) -> Option<
        InstrumentView,
    > {
        if self.exporting && exported(key.name) {
            Some(instrument_for(key, unit))
        } else {
            None
        }
    }

    /// The instrument that the registration of a metric calls for.
    pub open spec fn new_instrument(self, key: KeyView, unit: Option<metrics::Unit>) -> Option<
        InstrumentView,
    > {
        if self.holds(key.id()) {
            None
        } else {
            self.instrument(key, unit)
        }
    }

    /// The sink after a metric was described.
    pub open spec fn described(
        self,
        name: Seq<char>,
        kind: MetricKind,
        unit: Option<metrics::Unit>,
    ) -> SinkView {
        self.with_entry(KeyView { name, labels: Seq::empty() }, kind, unit, None)
    }

    /// The sink after a metric was registered with a unit.
    pub open spec fn registered(
        self,
        key: KeyView,
        kind: MetricKind,
        unit: Option<metrics::Unit>,
    ) -> SinkView {
        self.with_entry(key, kind, unit, self.instrument(key, unit))
    }

    /// The unit that the sink knows for a metric.
    pub open spec fn unit(self, id: KeyId) -> Option<metrics::Unit> {
        if self.holds(id) {
            self.entry(id).unit
        } else {
            None
        }
    }

    /// The sink with another value of a metric that it holds.
    pub open spec fn with_metric(self, id: KeyId, metric: MetricView) -> SinkView {
        SinkView {
            entries: self.entries.update(self.slot(id), EntryView { metric, ..self.entry(id) }),
            ..self
        }
    }

    /// The sink after all metrics were read.
    pub open spec fn drained(self) -> SinkView {
        SinkView { entries: self.entries.map_values(|entry: EntryView| entry.drained()), ..self }
    }
}

/// The line that reports a metric with this key and this text.
pub open spec fn line(key: KeyView, text: Seq<char>) -> Seq<char> {
    key_text(key) + ": "@ + text
}

/// Whether `lines` report on the entries: one line for each whose metric has had values, in the
/// order of the entries.
pub open spec fn is_report<F: Fn(u64) -> String>(
    entries: Seq<EntryView>,
    gauge_text: F,
    lines: Seq<Seq<char>>,
) -> bool
    decreases entries.len(),
{
    if entries.len() == 0 {
        lines.len() == 0
    } else if entries.last().metric.quiet() {
        is_report(entries.drop_last(), gauge_text, lines)
    } else {
        &&& lines.len() > 0
        &&& exists|text: Seq<char>|
            entries.last().metric.reads_as(gauge_text, text) && lines.last() == #[trigger] line(
                entries.last().key,
                text,
            )
        &&& is_report(entries.drop_last(), gauge_text, lines.drop_last())
    }
}

/// The sink that all metrics are collected in.
#[derive(Debug)]
pub struct MetricsSink {
    /// The slot of each metric.
    pub index: dashmap::DashMap<metrics::Key, usize>,
    /// The entries, each in its slot.
    pub entries: Vec<MetricEntry>,
    /// Whether metrics are exported.
    pub exporting: bool,
}

impl View for MetricsSink {
    type V = SinkView;

    open spec fn view(&self) -> SinkView {
        SinkView {
            entries: self.entries@.map_values(|entry: MetricEntry| entry@),
            exporting: self.exporting,
        }
    }
}

impl MetricsSink {
    /// Every metric is well-formed, and the index gives the slot of each entry and nothing else.
    pub open spec fn wf(&self) -> bool {
        &&& forall|i: int|
            0 <= i < self.entries.len() ==> (#[trigger] self.entries[i]).metric.wf()
        &&& forall|i: int|
            0 <= i < self.entries.len() ==> {
                &&& index_slots(self.index).contains_key((#[trigger] self.entries[i]).key@.id())
                &&& index_slots(self.index)[self.entries[i].key@.id()] == i
            }
        &&& forall|id: KeyId| #[trigger]
            index_slots(self.index).contains_key(id) ==> {
                &&& index_slots(self.index)[id] < self.entries.len()
                &&& self.entries[index_slots(self.index)[id] as int].key@.id() == id
            }
    }

    /// A sink without entries. The configuration decides whether metrics are exported.
    pub fn new(config: Option<MetricsConfig>) -> (made: Result<Self, MetricsError>)
        ensures
            made is Ok <==> (config matches Some(MetricsConfig::Otlp(otlp)) ==> valid_endpoint(
                otlp.endpoint@,
            )),
            made matches Ok(sink) ==> sink.wf() && sink@ == (SinkView {
                entries: Seq::empty(),
                exporting: config is Some,
            }),
            made matches Err(error) ==> error == MetricsError::InvalidEndpoint,
    {
        let exporting = match config {
            None => false,
            Some(MetricsConfig::Otlp(otlp)) => {
                if !otlp.has_valid_endpoint() {
                    return Err(MetricsError::InvalidEndpoint);
                }
                true
            },
        };
        let sink = MetricsSink {
            index: new_index(INITIAL_CAPACITY),
            entries: Vec::new(),
            exporting,
        };
        assert(sink@.entries =~= Seq::empty());
        Ok(sink)
    }

    /// The sink once its exporter was set up, or the reason why that failed.
    pub fn with_exporter(self, exporter: Result<(), String>) -> (made: Result<Self, MetricsError>)
        ensures
            exporter is Ok ==> made == Ok::<Self, MetricsError>(self),
            exporter matches Err(reason) ==> made == Err::<Self, MetricsError>(
                MetricsError::Exporter(reason),
            ),
    {
        match exporter {
            Ok(()) => Ok(self),
            Err(reason) => Err(MetricsError::Exporter(reason)),
        }
    }

    /// The index gives the slot of each metric, and nothing for others.
    proof fn lemma_index(&self, id: KeyId)
        requires
            self.wf(),
        ensures
            self@.distinct(),
            self@.holds(id) <==> index_slots(self.index).contains_key(id),
            self@.holds(id) ==> {
                &&& self@.slot_holds(self@.slot(id), id)
                &&& self@.slot(id) == index_slots(self.index)[id]
            },
    {
        if index_slots(self.index).contains_key(id) {
            assert(self@.slot_holds(index_slots(self.index)[id] as int, id));
        }
        if self@.holds(id) {
            assert(self@.slot_holds(self@.slot(id), id));
            assert(self.entries[self@.slot(id)].key@.id() == id);
        }
        self.lemma_distinct();
    }

    /// No two entries are of one metric.
    pub(crate) proof fn lemma_distinct(&self)
        requires
            self.wf(),
        ensures
            self@.distinct(),
    {
        assert forall|i: int, j: int| 0 <= i < j < self@.entries.len() implies #[trigger]
            self@.entries[i].key.id() != #[trigger] self@.entries[j].key.id() by {
            assert(self.entries[i].key@.id() == self@.entries[i].key.id());
            assert(self.entries[j].key@.id() == self@.entries[j].key.id());
        }
    }

    /// A sink that got another value of one metric, and is else as `before`, is well-formed.
    proof fn lemma_update(&self, before: MetricsSink, slot: int)
        requires
            before.wf(),
            self.index == before.index,
            self.exporting == before.exporting,
            0 <= slot < before.entries.len(),
            self.entries@ == before.entries@.update(slot, self.entries@[slot]),
            self.entries[slot].key == before.entries[slot].key,
            self.entries[slot].unit == before.entries[slot].unit,
            self.entries[slot].metric.wf(),
        ensures
            self.wf(),
            before@.slot_holds(slot, before.entries[slot].key@.id()),
            before@.slot(before.entries[slot].key@.id()) == slot,
            self@ == before@.with_metric(
                before.entries[slot].key@.id(),
                self.entries[slot].metric@,
            ),
    {
        let id = before.entries[slot].key@.id();
        before.lemma_index(id);
        assert forall|i: int| 0 <= i < self.entries.len() implies (
        #[trigger] self.entries[i]).key == before.entries[i].key by {}
        assert(self@.entries =~= before@.with_metric(id, self.entries[slot].metric@).entries);
    }

    /// Makes an entry for a metric unless there is one. With `export`, a new metric gets the
    /// instrument that is due to it, which is then returned.
    fn add_entry(
        &mut self,
        key: &MetricKey,
        kind: MetricKind,
        unit: Option<metrics::Unit>,
        export: bool,
    ) -> (instrument: Option<OtlpInstrument>)
        requires
            old(self).wf(),
        ensures
            final(self).wf(),
            final(self)@ == old(self)@.with_entry(
                key@,
                kind,
                unit,
                if export {
                    old(self)@.instrument(key@, unit)
                } else {
                    None
                },
            ),
            instrument_view(instrument) == if export && !old(self)@.holds(key@.id()) {
                old(self)@.instrument(key@, unit)
            } else {
                None
            },
    {
        proof {
            self.lemma_index(key@.id());
        }
        let next: usize = self.entries.len();
        let slot: usize = slot_or_insert(&mut self.index, key, next);
        if slot != next {
            return None;
        }
        let due = export && self.exporting && should_export_to_otlp(key.name.as_str());
        let metric = if due {
            Metric::exported(kind, OtlpInstrument::for_key(key, unit))
        } else {
            Metric::local(kind)
        };
        self.entries.push(MetricEntry { key: key.clone(), metric, unit });
        assert(self@.entries =~= old(self)@.entries.push(self.entries@[next as int]@));
        if due {
            Some(OtlpInstrument::for_key(key, unit))
        } else {
            None
        }
    }

    /// Registers a counter. Where this calls for an instrument, returns it.
    pub fn counter(&mut self, key: &MetricKey, unit: Option<metrics::Unit>) -> (instrument: Option<
        OtlpInstrument,
    >)
        requires
            old(self).wf(),
            old(self)@.free_or_kind(key@.id(), MetricKind::Counter),
        ensures
            final(self).wf(),
            final(self)@ == old(self)@.registered(key@, MetricKind::Counter, unit),
            instrument_view(instrument) == old(self)@.new_instrument(key@, unit),
    {
        self.add_entry(key, MetricKind::Counter, unit, true)
    }

    /// Registers a gauge. Where this calls for an instrument, returns it.
    pub fn gauge(&mut self, key: &MetricKey, unit: Option<metrics::Unit>) -> (instrument: Option<
        OtlpInstrument,
    >)
        requires
            old(self).wf(),
            old(self)@.free_or_kind(key@.id(), MetricKind::Gauge),
        ensures
            final(self).wf(),
            final(self)@ == old(self)@.registered(key@, MetricKind::Gauge, unit),
            instrument_view(instrument) == old(self)@.new_instrument(key@, unit),
    {
        self.add_entry(key, MetricKind::Gauge, unit, true)
    }

    /// Registers a histogram. Where this calls for an instrument, returns it.
    pub fn histogram(&mut self, key: &MetricKey, unit: Option<metrics::Unit>) -> (instrument: Option<
        OtlpInstrument,
    >)
        requires
            old(self).wf(),
            old(self)@.free_or_kind(key@.id(), MetricKind::Histogram),
        ensures
            final(self).wf(),
            final(self)@ == old(self)@.registered(key@, MetricKind::Histogram, unit),
            instrument_view(instrument) == old(self)@.new_instrument(key@, unit),
    {
        self.add_entry(key, MetricKind::Histogram, unit, true)
    }

    /// Describes a metric: makes an entry for it, that is not exported, unless there is one.
    pub fn describe(&mut self, name: &str, kind: MetricKind, unit: Option<metrics::Unit>)
        requires
            old(self).wf(),
        ensures
            final(self).wf(),
            final(self)@ == old(self)@.described(name@, kind, unit),
    {
        self.add_entry(&MetricKey::from_name(name), kind, unit, false);
    }

    /// The number of entries.
    pub fn len(&self) -> (count: usize)
        ensures
            count == self@.entries.len(),
    {
        self.entries.len()
    }

    /// The kind of a metric, if the sink holds it.
    pub fn kind(&self, key: &MetricKey) -> (kind: Option<MetricKind>)
        requires
            self.wf(),
        ensures
            kind is Some <==> self@.holds(key@.id()),
            kind matches Some(kind) ==> self@.holds_kind(key@.id(), kind),
    {
        proof {
            self.lemma_index(key@.id());
        }
        match find_slot(&self.index, key) {
            Some(slot) => Some(self.entries[slot].metric.kind()),
            None => None,
        }
    }

    /// The unit that the sink knows for a metric.
    pub fn unit(&self, key: &MetricKey) -> (unit: Option<metrics::Unit>)
        requires
            self.wf(),
        ensures
            unit == self@.unit(key@.id()),
    {
        proof {
            self.lemma_index(key@.id());
        }
        match find_slot(&self.index, key) {
            Some(slot) => self.entries[slot].unit,
            None => None,
        }
    }

    /// Adds `value` to a counter. Returns what is to be added to its instrument.
    pub fn increment_counter(&mut self, key: &MetricKey, value: u64) -> (export: Option<u64>)
        requires
            old(self).wf(),
            old(self)@.holds_kind(key@.id(), MetricKind::Counter),
        ensures
            final(self).wf(),
            final(self)@ == old(self)@.with_metric(
                key@.id(),
                MetricView::Counter(old(self)@.counter(key@.id()).incremented(value)),
            ),
            export == if old(self)@.counter(key@.id()).otlp is Some {
                Some(value)
            } else {
                None
            },
    {
        proof {
            self.lemma_index(key@.id());
        }
        let slot: usize = find_slot(&self.index, key).unwrap();
        let export = self.entries[slot].metric.as_counter().increment(value);
        proof {
            self.lemma_update(*old(self), slot as int);
        }
        export
    }

    /// Sets the sum of a counter to `value`. Returns what is to be added to its instrument.
    pub fn set_counter(&mut self, key: &MetricKey, value: u64) -> (export: Option<u64>)
        requires
            old(self).wf(),
            old(self)@.holds_kind(key@.id(), MetricKind::Counter),
        ensures
            final(self).wf(),
            final(self)@ == old(self)@.with_metric(
                key@.id(),
                MetricView::Counter(old(self)@.counter(key@.id()).set_to(value)),
            ),
            export == if old(self)@.counter(key@.id()).otlp is Some {
                Some(value)
            } else {
                None
            },
    {
        proof {
            self.lemma_index(key@.id());
        }
        let slot: usize = find_slot(&self.index, key).unwrap();
        let export = self.entries[slot].metric.as_counter().absolute(value);
        proof {
            self.lemma_update(*old(self), slot as int);
        }
        export
    }

    /// Replaces the bits of a gauge's value by what `f` makes of them. Returns the bits that its
    /// instrument is to record: those of the value that was replaced.
    pub fn update_gauge<F: FnOnce(u64) -> u64>(&mut self, key: &MetricKey, f: F) -> (export: Option<
        u64,
    >)
        requires
            old(self).wf(),
            old(self)@.holds_kind(key@.id(), MetricKind::Gauge),
            call_requires(f, (old(self)@.gauge(key@.id()).bits,)),
        ensures
            final(self).wf(),
            exists|bits: u64|
                call_ensures(f, (old(self)@.gauge(key@.id()).bits,), bits) && final(self)@
                    == #[trigger] old(self)@.with_metric(
                    key@.id(),
                    MetricView::Gauge(old(self)@.gauge(key@.id()).updated(bits)),
                ),
            export == if old(self)@.gauge(key@.id()).otlp is Some {
                Some(old(self)@.gauge(key@.id()).bits)
            } else {
                None
            },
    {
        proof {
            self.lemma_index(key@.id());
        }
        let slot: usize = find_slot(&self.index, key).unwrap();
        let export = self.entries[slot].metric.as_gauge().update(f);
        proof {
            self.lemma_update(*old(self), slot as int);
        }
        export
    }

    /// Sets a gauge to the value with these bits. Returns the bits that its instrument is to
    /// record: those of the value that was replaced.
    pub fn set_gauge(&mut self, key: &MetricKey, bits: u64) -> (export: Option<u64>)
        requires
            old(self).wf(),
            old(self)@.holds_kind(key@.id(), MetricKind::Gauge),
        ensures
            final(self).wf(),
            final(self)@ == old(self)@.with_metric(
                key@.id(),
                MetricView::Gauge(old(self)@.gauge(key@.id()).updated(bits)),
            ),
            export == if old(self)@.gauge(key@.id()).otlp is Some {
                Some(old(self)@.gauge(key@.id()).bits)
            } else {
                None
            },
    {
        proof {
            self.lemma_index(key@.id());
        }
        let slot: usize = find_slot(&self.index, key).unwrap();
        let export = self.entries[slot].metric.as_gauge().set(bits);
        proof {
            self.lemma_update(*old(self), slot as int);
        }
        export
    }

    /// The number of values in a histogram since it was last read.
    pub fn histogram_len(&self, key: &MetricKey) -> (count: u64)
        requires
            self.wf(),
            self@.holds_kind(key@.id(), MetricKind::Histogram),
        ensures
            count == self@.histogram(key@.id()).values.len(),
    {
        proof {
            self.lemma_index(key@.id());
        }
        let slot: usize = find_slot(&self.index, key).unwrap();
        match &self.entries[slot].metric {
            Metric::Histogram(inner) => inner.len(),
            _ => vstd::pervasive::unreached(),
        }
    }

    /// Records `value` in a histogram. Returns whether its instrument is to record it too.
    pub fn record_histogram(&mut self, key: &MetricKey, value: u64) -> (export: bool)
        requires
            old(self).wf(),
            old(self)@.holds_kind(key@.id(), MetricKind::Histogram),
            old(self)@.histogram(key@.id()).values.len() < u64::MAX,
        ensures
            final(self).wf(),
            final(self)@ == old(self)@.with_metric(
                key@.id(),
                MetricView::Histogram(old(self)@.histogram(key@.id()).recorded(value)),
            ),
            export == (old(self)@.histogram(key@.id()).otlp is Some),
    {
        proof {
            self.lemma_index(key@.id());
        }
        let slot: usize = find_slot(&self.index, key).unwrap();
        let export = self.entries[slot].metric.as_histogram().record(value);
        proof {
            self.lemma_update(*old(self), slot as int);
        }
        export
    }

    /// Reads all metrics, and returns the lines that report those which have had values since
    /// the last call, sorted to make reading easier. `gauge_text` writes the value of a gauge out,
    /// given its bits.
    pub fn publish<F: Fn(u64) -> String>(&mut self, gauge_text: &F) -> (lines: Vec<String>)
        requires
            old(self).wf(),
            forall|bits: u64| call_requires(*gauge_text, (bits,)),
        ensures
            final(self).wf(),
            final(self)@ == old(self)@.drained(),
            exists|report: Seq<Seq<char>>| #[trigger]
                is_report(old(self)@.entries, *gauge_text, report) && texts(lines@).to_multiset()
                    == report.to_multiset(),
            ascending(texts(lines@)),
            forall|i: int|
                0 <= i < old(self)@.entries.len() && !old(self)@.entries[i].metric.quiet()
                    ==> (#[trigger] old(self)@.entries[i]).metric.percentiles_hold(),
            forall|i: int|
                0 <= i < old(self)@.entries.len() ==> ((
                #[trigger] old(self)@.entries[i]).metric matches MetricView::Gauge(before) ==> (
                final(self)@.entries[i].metric matches MetricView::Gauge(after) && after.bits
                    == before.bits)),
    {
        let mut lines: Vec<String> = Vec::new();
        let mut i: usize = 0;
        assert(texts(lines@) =~= Seq::empty());
        while i < self.entries.len()
            invariant
                i <= self.entries.len(),
                old(self).wf(),
                forall|bits: u64| call_requires(*gauge_text, (bits,)),
                self.wf(),
                self.index == old(self).index,
                self.exporting == old(self).exporting,
                self.entries.len() == old(self).entries.len(),
                forall|j: int|
                    0 <= j < self.entries.len() ==> (#[trigger] self.entries[j]).key
                        == old(self).entries[j].key,
                forall|j: int|
                    0 <= j < i ==> (#[trigger] self.entries[j])@ == old(self).entries[j]@.drained(),
                forall|j: int|
                    i <= j < self.entries.len() ==> #[trigger] self.entries[j] == old(
                        self,
                    ).entries[j],
                is_report(old(self)@.entries.take(i as int), *gauge_text, texts(lines@)),
                forall|j: int|
                    0 <= j < i && !old(self)@.entries[j].metric.quiet() ==> (
                    #[trigger] old(self)@.entries[j]).metric.percentiles_hold(),
            decreases self.entries.len() - i,
        {
            let ghost before = *self;
            let ghost reported = texts(lines@);
            let text = self.entries[i].metric.fmt_and_reset(gauge_text);
            proof {
                self.lemma_update(before, i as int);
                assert(old(self)@.entries.take(i + 1).drop_last() =~= old(self)@.entries.take(
                    i as int,
                ));
            }
            if let Some(text) = text {
                let mut output = String::new();
                self.entries[i].key.push_text(&mut output);
                output.append(": ");
                output.append(text.as_str());
                assert(output@ =~= line(old(self)@.entries[i as int].key, text@));
                lines.push(output);
                assert(texts(lines@) =~= reported.push(output@));
                assert(texts(lines@).drop_last() =~= reported);
            }
            i = i + 1;
        }
        assert(old(self)@.entries.take(i as int) =~= old(self)@.entries);
        assert(self@.entries =~= old(self)@.drained().entries);
        sort_lines(&mut lines);
        lines
    }
}

/// The front of a sink for the code that emits metrics.
#[derive(Debug)]
pub struct MetricsRecorder {
    pub sink: MetricsSink,
}

impl MetricsRecorder {
    /// Describes a counter.
    pub fn describe_counter(&mut self, name: &str, unit: Option<metrics::Unit>)
        requires
            old(self).sink.wf(),
        ensures
            final(self).sink.wf(),
            final(self).sink@ == old(self).sink@.described(name@, MetricKind::Counter, unit),
    {
        self.sink.describe(name, MetricKind::Counter, unit);
    }

    /// Describes a gauge.
    pub fn describe_gauge(&mut self, name: &str, unit: Option<metrics::Unit>)
        requires
            old(self).sink.wf(),
        ensures
            final(self).sink.wf(),
            final(self).sink@ == old(self).sink@.described(name@, MetricKind::Gauge, unit),
    {
        self.sink.describe(name, MetricKind::Gauge, unit);
    }

    /// Describes a histogram.
    pub fn describe_histogram(&mut self, name: &str, unit: Option<metrics::Unit>)
        requires
            old(self).sink.wf(),
        ensures
            final(self).sink.wf(),
            final(self).sink@ == old(self).sink@.described(name@, MetricKind::Histogram, unit),
    {
        self.sink.describe(name, MetricKind::Histogram, unit);
    }

    /// Registers a counter, with the unit that it was described with. Where this calls for an
    /// instrument, returns it.
    pub fn register_counter(&mut self, key: &MetricKey) -> (instrument: Option<OtlpInstrument>)
        requires
            old(self).sink.wf(),
            old(self).sink@.free_or_kind(key@.id(), MetricKind::Counter),
        ensures
            final(self).sink.wf(),
            final(self).sink@ == old(self).sink@.registered(
                key@,
                MetricKind::Counter,
                old(self).sink@.unit(key@.id()),
            ),
            instrument_view(instrument) == old(self).sink@.new_instrument(
                key@,
                old(self).sink@.unit(key@.id()),
            ),
    {
        let unit = self.sink.unit(key);
        self.sink.counter(key, unit)
    }

    /// Registers a gauge, with the unit that it was described with. Where this calls for an
    /// instrument, returns it.
    pub fn register_gauge(&mut self, key: &MetricKey) -> (instrument: Option<OtlpInstrument>)
        requires
            old(self).sink.wf(),
            old(self).sink@.free_or_kind(key@.id(), MetricKind::Gauge),
        ensures
            final(self).sink.wf(),
            final(self).sink@ == old(self).sink@.registered(
                key@,
                MetricKind::Gauge,
                old(self).sink@.unit(key@.id()),
            ),
            instrument_view(instrument) == old(self).sink@.new_instrument(
                key@,
                old(self).sink@.unit(key@.id()),
            ),
    {
        let unit = self.sink.unit(key);
        self.sink.gauge(key, unit)
    }

    /// Registers a histogram, with the unit that it was described with. Where this calls for an
    /// instrument, returns it.
    pub fn register_histogram(&mut self, key: &MetricKey) -> (instrument: Option<OtlpInstrument>)
        requires
            old(self).sink.wf(),
            old(self).sink@.free_or_kind(key@.id(), MetricKind::Histogram),
        ensures
            final(self).sink.wf(),
            final(self).sink@ == old(self).sink@.registered(
                key@,
                MetricKind::Histogram,
                old(self).sink@.unit(key@.id()),
            ),
            instrument_view(instrument) == old(self).sink@.new_instrument(
                key@,
                old(self).sink@.unit(key@.id()),
            ),
    {
        let unit = self.sink.unit(key);
        self.sink.histogram(key, unit)
    }
}

} // verus!

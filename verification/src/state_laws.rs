//! Laws of what is held: how the state of metrics and of the sink moves, field by field.

use vstd::multiset::Multiset;
use vstd::prelude::*;

use crate::data::{
    instrument_view, AtomicGauge, CounterView, GaugeView, Histogram, HistogramView, Metric,
    MetricKind, MetricView, ValueAndCount,
};
use crate::hdr::recorded_values;
use crate::key::{label_views, KeyId, KeyView, LabelView, MetricKey};
use crate::otlp::{exported, valid_endpoint, InstrumentView, OtlpInstrument};
use crate::publisher::{AVAILABLE_MEMORY_GAUGE, PROCESS_MEMORY_GAUGE};
use crate::sink::{error_text, EntryView, MetricEntry, MetricsError, MetricsSink, SinkView};
use crate::text::begins_with;

verus! {

/// The view of a single metric shows its fields.
pub proof fn law_views_of_metrics(
    counter: ValueAndCount,
    gauge: AtomicGauge,
    histogram: Histogram,
    instrument: OtlpInstrument,
)
    ensures
        counter@.sum == counter.sum,
        counter@.n == counter.n,
        counter@.otlp == instrument_view(counter.otlp),
        gauge@.bits == gauge.bits,
        gauge@.changed == gauge.changed,
        gauge@.otlp == instrument_view(gauge.otlp),
        histogram@.values == recorded_values(histogram.histogram),
        histogram@.otlp == instrument_view(histogram.otlp),
        Metric::Counter(counter)@ == MetricView::Counter(counter@),
        Metric::Gauge(gauge)@ == MetricView::Gauge(gauge@),
        Metric::Histogram(histogram)@ == MetricView::Histogram(histogram@),
        instrument_view(None) is None,
        instrument_view(Some(instrument)) == Some(instrument@),
{
}

/// The view of labels shows the texts of each, in their order.
pub proof fn law_views_of_labels(labels: Seq<(String, String)>)
    ensures
        label_views(labels).len() == labels.len(),
        forall|i: int|
            0 <= i < labels.len() ==> #[trigger] label_views(labels)[i] == (
                labels[i].0@,
                labels[i].1@,
            ),
{
}

/// The views of keys, instruments, entries and sinks show their fields.
pub proof fn law_views_of_entries(
    key: MetricKey,
    instrument: OtlpInstrument,
    entry: MetricEntry,
    sink: MetricsSink,
)
    ensures
        key@.name == key.name@,
        key@.labels == label_views(key.labels@),
        instrument@.name == instrument.name@,
        instrument@.unit == instrument.unit,
        instrument@.attributes == label_views(instrument.attributes@),
        entry@.key == entry.key@,
        entry@.metric == entry.metric@,
        entry@.unit == entry.unit,
        sink@.exporting == sink.exporting,
        sink@.entries.len() == sink.entries.len(),
        forall|i: int|
            0 <= i < sink.entries.len() ==> #[trigger] sink@.entries[i] == sink.entries[i]@,
{
}

/// The kind of a metric and its instrument are those of the counter, gauge or histogram that it
/// is.
pub proof fn law_kinds(counter: CounterView, gauge: GaugeView, histogram: HistogramView)
    ensures
        MetricView::Counter(counter).kind() == MetricKind::Counter,
        MetricView::Gauge(gauge).kind() == MetricKind::Gauge,
        MetricView::Histogram(histogram).kind() == MetricKind::Histogram,
        MetricView::Counter(counter).otlp() == counter.otlp,
        MetricView::Gauge(gauge).otlp() == gauge.otlp,
        MetricView::Histogram(histogram).otlp() == histogram.otlp,
        MetricView::Counter(counter).quiet() <==> counter.n == 0,
        MetricView::Gauge(gauge).quiet() <==> !gauge.changed,
        MetricView::Histogram(histogram).quiet() <==> histogram.values.len() == 0,
{
}

/// An increment adds to the sum and one to the number of increments, each starting again at zero
/// past the largest integer. Setting a counter replaces both. The instrument stays.
pub proof fn law_counter_moves(counter: CounterView, value: u64)
    ensures
        counter.incremented(value).sum == if counter.sum + value <= u64::MAX {
            counter.sum + value
        } else {
            counter.sum + value - 0x1_0000_0000_0000_0000
        },
        counter.incremented(value).n == if counter.n < usize::MAX {
            counter.n + 1
        } else {
            0
        },
        counter.incremented(value).otlp == counter.otlp,
        counter.set_to(value).sum == value,
        counter.set_to(value).n == 1,
        counter.set_to(value).otlp == counter.otlp,
{
}

/// An update of a gauge replaces its bits, and counts as a change whatever the bits were.
pub proof fn law_gauge_moves(gauge: GaugeView, bits: u64)
    ensures
        gauge.updated(bits).bits == bits,
        gauge.updated(bits).changed,
        gauge.updated(bits).otlp == gauge.otlp,
{
}

/// Recording a value in a histogram adds that value once, and changes nothing of the others.
pub proof fn law_histogram_moves(histogram: HistogramView, value: u64, other: u64)
    ensures
        histogram.recorded(value).values.count(other) == histogram.values.count(other) + if other
            == value {
            1int
        } else {
            0
        },
        histogram.recorded(value).values.len() == histogram.values.len() + 1,
        histogram.recorded(value).otlp == histogram.otlp,
{
    broadcast use vstd::multiset::group_multiset_axioms;

}

/// Whether one metric is what another is after a read: a counter is at zero and a histogram is
/// empty, but a gauge keeps its value. None of them has anything to tell, and all keep their
/// instruments.
pub open spec fn is_read(before: MetricView, after: MetricView) -> bool {
    match (before, after) {
        (MetricView::Counter(was), MetricView::Counter(now)) => {
            &&& now.sum == 0
            &&& now.n == 0
            &&& now.otlp == was.otlp
        },
        (MetricView::Gauge(was), MetricView::Gauge(now)) => {
            &&& now.bits == was.bits
            &&& !now.changed
            &&& now.otlp == was.otlp
        },
        (MetricView::Histogram(was), MetricView::Histogram(now)) => {
            &&& now.values == Multiset::<u64>::empty()
            &&& now.otlp == was.otlp
        },
        _ => false,
    }
}

/// Reading a metric resets a counter and a histogram, and leaves a gauge its value.
pub proof fn law_read_resets_all_but_gauges(metric: MetricView)
    ensures
        is_read(metric, metric.drained()),
{
}

/// A publication reads every metric of the sink, each in its slot, and changes no key, unit or
/// instrument. Gauges keep their values, exported or not.
pub proof fn law_publication_resets_all_but_gauges(sink: SinkView)
    ensures
        sink.drained().exporting == sink.exporting,
        sink.drained().entries.len() == sink.entries.len(),
        forall|i: int|
            0 <= i < sink.entries.len() ==> {
                let after = #[trigger] sink.drained().entries[i];
                &&& after.key == sink.entries[i].key
                &&& after.unit == sink.entries[i].unit
                &&& is_read(sink.entries[i].metric, after.metric)
            },
{
}

/// What a gauge is updated to, it still has after a publication: a later update starts from there.
pub proof fn law_gauge_outlives_publication(sink: SinkView, id: KeyId, i: int, bits: u64)
    requires
        sink.distinct(),
        0 <= i < sink.entries.len(),
        sink.entries[i].key.id() == id,
        sink.entries[i].metric is Gauge,
    ensures
        ({
            let updated = sink.with_metric(id, MetricView::Gauge(sink.gauge(id).updated(bits)));
            let published = updated.drained();
            &&& published.entries[i].key.id() == id
            &&& published.entries[i].metric matches MetricView::Gauge(kept)
            &&& kept.bits == bits
        }),
{
    law_lookup(sink, id, i);
}

/// The entry of a metric is the one whose key identifies the metric, where there is one; and then
/// the sink knows the metric's unit from it.
pub proof fn law_lookup(sink: SinkView, id: KeyId, i: int)
    requires
        sink.distinct(),
        0 <= i < sink.entries.len(),
        sink.entries[i].key.id() == id,
    ensures
        sink.holds(id),
        sink.slot(id) == i,
        sink.entry(id) == sink.entries[i],
        sink.unit(id) == sink.entries[i].unit,
        sink.entries[i].metric matches MetricView::Counter(counter) ==> sink.counter(id) == counter,
        sink.entries[i].metric matches MetricView::Gauge(gauge) ==> sink.gauge(id) == gauge,
        sink.entries[i].metric matches MetricView::Histogram(histogram) ==> sink.histogram(id)
            == histogram,
        forall|kind: MetricKind| #[trigger]
            sink.holds_kind(id, kind) <==> sink.entries[i].metric.kind() == kind,
        forall|kind: MetricKind| #[trigger]
            sink.free_or_kind(id, kind) <==> sink.entries[i].metric.kind() == kind,
{
    assert(sink.slot_holds(i, id));
    let found = sink.slot(id);
    assert(sink.slot_holds(found, id));
    if found < i {
        assert(sink.entries[found].key.id() != sink.entries[i].key.id());
    } else if i < found {
        assert(sink.entries[i].key.id() != sink.entries[found].key.id());
    }
}

/// A sink does not hold a metric that no key of its entries identifies, and knows no unit of it.
pub proof fn law_failed_lookup(sink: SinkView, id: KeyId)
    requires
        forall|i: int| 0 <= i < sink.entries.len() ==> #[trigger] sink.entries[i].key.id() != id,
    ensures
        !sink.holds(id),
        sink.unit(id) is None,
        forall|kind: MetricKind| !#[trigger] sink.holds_kind(id, kind),
        forall|kind: MetricKind| #[trigger] sink.free_or_kind(id, kind),
{
}

/// To give a metric another value changes its entry in its slot, and nothing else.
pub proof fn law_new_value_in_slot(sink: SinkView, id: KeyId, i: int, metric: MetricView)
    requires
        sink.distinct(),
        0 <= i < sink.entries.len(),
        sink.entries[i].key.id() == id,
    ensures
        ({
            let after = sink.with_metric(id, metric);
            &&& after.exporting == sink.exporting
            &&& after.entries.len() == sink.entries.len()
            &&& after.entries[i].metric == metric
            &&& after.entries[i].key == sink.entries[i].key
            &&& after.entries[i].unit == sink.entries[i].unit
            &&& forall|j: int|
                0 <= j < sink.entries.len() && j != i ==> #[trigger] after.entries[j]
                    == sink.entries[j]
        }),
{
    law_lookup(sink, id, i);
}

/// The names of the metrics that are exported.
pub open spec fn on_export_list(name: Seq<char>) -> bool {
    let names = seq![
        "fuse.io_size"@,
        "fuse.mp_workers.busy_count"@,
        "fuse.mp_workers.idle_count"@,
        "fuse.mp_workers.total_count"@,
        "fuse.op_failures"@,
        "fuse.op_latency_us"@,
        "process.memory_usage"@,
        "s3.meta_requests"@,
        "s3.meta_requests.failures"@,
        "s3.meta_requests.first_byte_latency_us"@,
        "s3.meta_requests.total_latency_us"@,
        "s3.requests"@,
        "s3.requests.canceled"@,
        "s3.requests.failures"@,
        "s3.requests.total_latency_us"@,
        "system.available_memory"@,
    ];
    names.contains(name)
}

/// A metric is exported exactly if its name is on the list. The two gauges of the process's own
/// memory are.
pub proof fn law_export_list(name: Seq<char>)
    ensures
        exported(name) <==> on_export_list(name),
        PROCESS_MEMORY_GAUGE@ == "process.memory_usage"@,
        AVAILABLE_MEMORY_GAUGE@ == "system.available_memory"@,
        exported(PROCESS_MEMORY_GAUGE@),
        exported(AVAILABLE_MEMORY_GAUGE@),
{
    let names = seq![
        "fuse.io_size"@,
        "fuse.mp_workers.busy_count"@,
        "fuse.mp_workers.idle_count"@,
        "fuse.mp_workers.total_count"@,
        "fuse.op_failures"@,
        "fuse.op_latency_us"@,
        "process.memory_usage"@,
        "s3.meta_requests"@,
        "s3.meta_requests.failures"@,
        "s3.meta_requests.first_byte_latency_us"@,
        "s3.meta_requests.total_latency_us"@,
        "s3.requests"@,
        "s3.requests.canceled"@,
        "s3.requests.failures"@,
        "s3.requests.total_latency_us"@,
        "system.available_memory"@,
    ];
    if exported(name) {
        assert(exists|i: int| 0 <= i < names.len() && #[trigger] names[i] == name) by {
            assert(names[0] == "fuse.io_size"@);
            assert(names[1] == "fuse.mp_workers.busy_count"@);
            assert(names[2] == "fuse.mp_workers.idle_count"@);
            assert(names[3] == "fuse.mp_workers.total_count"@);
            assert(names[4] == "fuse.op_failures"@);
            assert(names[5] == "fuse.op_latency_us"@);
            assert(names[6] == "process.memory_usage"@);
            assert(names[7] == "s3.meta_requests"@);
            assert(names[8] == "s3.meta_requests.failures"@);
            assert(names[9] == "s3.meta_requests.first_byte_latency_us"@);
            assert(names[10] == "s3.meta_requests.total_latency_us"@);
            assert(names[11] == "s3.requests"@);
            assert(names[12] == "s3.requests.canceled"@);
            assert(names[13] == "s3.requests.failures"@);
            assert(names[14] == "s3.requests.total_latency_us"@);
            assert(names[15] == "system.available_memory"@);
        }
    }
}

/// Whether a metric of this kind has had no values at all: a counter and a gauge are at zero, and
/// a histogram is empty.
pub open spec fn is_new(metric: MetricView, kind: MetricKind, otlp: Option<InstrumentView>) -> bool {
    match metric {
        MetricView::Counter(counter) => {
            &&& kind == MetricKind::Counter
            &&& counter.sum == 0
            &&& counter.n == 0
            &&& counter.otlp == otlp
        },
        MetricView::Gauge(gauge) => {
            &&& kind == MetricKind::Gauge
            &&& gauge.bits == 0
            &&& !gauge.changed
            &&& gauge.otlp == otlp
        },
        MetricView::Histogram(histogram) => {
            &&& kind == MetricKind::Histogram
            &&& histogram.values == Multiset::<u64>::empty()
            &&& histogram.otlp == otlp
        },
    }
}

/// Whether a sink is another one with an entry added for a new metric.
pub open spec fn adds_new(
    before: SinkView,
    after: SinkView,
    key: KeyView,
    kind: MetricKind,
    unit: Option<metrics::Unit>,
    otlp: Option<InstrumentView>,
) -> bool {
    let slot = before.entries.len() as int;
    &&& after.exporting == before.exporting
    &&& after.entries.len() == slot + 1
    &&& forall|i: int| 0 <= i < slot ==> #[trigger] after.entries[i] == before.entries[i]
    &&& after.entries[slot].key == key
    &&& after.entries[slot].unit == unit
    &&& is_new(after.entries[slot].metric, kind, otlp)
}

/// Registering a metric that the sink does not hold adds an entry with its key and unit, at zero.
/// If the sink exports and the name is on the list, that calls for an instrument, which has the
/// name, the unit, and all the labels of the key in their order as attributes; else for none.
pub proof fn law_registration_adds_entry(
    sink: SinkView,
    key: KeyView,
    kind: MetricKind,
    unit: Option<metrics::Unit>,
)
    requires
        forall|i: int|
            0 <= i < sink.entries.len() ==> #[trigger] sink.entries[i].key.id() != key.id(),
    ensures
        ({
            let instrument = sink.new_instrument(key, unit);
            &&& instrument is Some <==> sink.exporting && on_export_list(key.name)
            &&& instrument matches Some(made) ==> {
                &&& made.name == key.name
                &&& made.unit == unit
                &&& made.attributes.len() == key.labels.len()
                &&& forall|i: int|
                    0 <= i < key.labels.len() ==> #[trigger] made.attributes[i] == key.labels[i]
            }
            &&& adds_new(sink, sink.registered(key, kind, unit), key, kind, unit, instrument)
        }),
{
    law_failed_lookup(sink, key.id());
    law_export_list(key.name);
}

/// Describing a metric that the sink does not hold adds an entry with its name, without labels,
/// and with its unit, at zero. It is never exported.
pub proof fn law_description_adds_entry(
    sink: SinkView,
    name: Seq<char>,
    kind: MetricKind,
    unit: Option<metrics::Unit>,
)
    requires
        forall|i: int|
            0 <= i < sink.entries.len() ==> #[trigger] sink.entries[i].key.id() != (KeyView {
                name,
                labels: Seq::empty(),
            }).id(),
    ensures
        adds_new(
            sink,
            sink.described(name, kind, unit),
            KeyView { name, labels: Seq::empty() },
            kind,
            unit,
            None,
        ),
{
    law_failed_lookup(sink, (KeyView { name, labels: Seq::empty() }).id());
}

/// Registering or describing a metric that the sink holds changes nothing, and calls for no
/// instrument.
pub proof fn law_held_metric_stays(
    sink: SinkView,
    key: KeyView,
    i: int,
    kind: MetricKind,
    unit: Option<metrics::Unit>,
)
    requires
        0 <= i < sink.entries.len(),
        sink.entries[i].key.id() == key.id(),
    ensures
        sink.registered(key, kind, unit) == sink,
        sink.new_instrument(key, unit) is None,
        key.labels.len() == 0 ==> sink.described(key.name, kind, unit) == sink,
{
    assert(sink.slot_holds(i, key.id()));
    if key.labels.len() == 0 {
        assert(key =~= KeyView { name: key.name, labels: Seq::empty() });
    }
}

/// Two keys identify one metric exactly if they have the same name and the same labels, each as
/// often, and, among three labels or more, those with a common label key in the same order.
pub proof fn law_keys_of_one_metric(key: KeyView, other: KeyView)
    ensures
        key.id() == other.id() <==> {
            &&& key.name == other.name
            &&& key.labels.to_multiset() == other.labels.to_multiset()
            &&& key.labels.len() >= 3 ==> forall|label_key: Seq<char>| #[trigger]
                with_label_key(key.labels, label_key) == with_label_key(other.labels, label_key)
        },
{
    key.labels.to_multiset_ensures();
    other.labels.to_multiset_ensures();
    let (runs, other_runs) = (key.id().runs, other.id().runs);
    assert forall|label_key: Seq<char>| key.labels.len() >= 3 implies #[trigger] runs(label_key)
        == with_label_key(key.labels, label_key) by {
        lemma_with_label_key(key, label_key);
    }
    assert forall|label_key: Seq<char>| other.labels.len() >= 3 implies #[trigger] other_runs(
        label_key,
    ) == with_label_key(other.labels, label_key) by {
        lemma_with_label_key(other, label_key);
    }
    if key.id() == other.id() {
        assert(key.labels.len() == other.labels.len());
        if key.labels.len() >= 3 {
            assert forall|label_key: Seq<char>| #[trigger]
                with_label_key(key.labels, label_key) == with_label_key(
                other.labels,
                label_key,
            ) by {
                assert(runs(label_key) == other_runs(label_key));
            }
        }
    }
    if key.name == other.name && key.labels.to_multiset() == other.labels.to_multiset() && (
    key.labels.len() >= 3 ==> forall|label_key: Seq<char>| #[trigger]
        with_label_key(key.labels, label_key) == with_label_key(other.labels, label_key)) {
        assert(key.labels.len() == other.labels.len());
        assert forall|label_key: Seq<char>| #[trigger]
            runs(label_key) == other_runs(label_key) by {
            if key.labels.len() >= 3 {
                assert(with_label_key(key.labels, label_key) == with_label_key(
                    other.labels,
                    label_key,
                ));
            }
        }
        assert(runs =~= other_runs);
    }
}

/// The labels with this label key, in their order.
pub open spec fn with_label_key(labels: Seq<LabelView>, label_key: Seq<char>) -> Seq<LabelView>
    decreases labels.len(),
{
    if labels.len() == 0 {
        Seq::empty()
    } else if labels.last().0 == label_key {
        with_label_key(labels.drop_last(), label_key).push(labels.last())
    } else {
        with_label_key(labels.drop_last(), label_key)
    }
}

proof fn lemma_with_label_key(key: KeyView, label_key: Seq<char>)
    ensures
        key.run(label_key) == with_label_key(key.labels, label_key),
    decreases key.labels.len(),
{
    reveal(Seq::filter);
    if key.labels.len() != 0 {
        lemma_with_label_key(KeyView { labels: key.labels.drop_last(), ..key }, label_key);
    }
}

/// Whether a text is `start` followed by `rest`.
pub open spec fn goes_on(text: Seq<char>, start: Seq<char>, rest: Seq<char>) -> bool {
    text == start + rest
}

/// An endpoint is valid exactly if it is `http://` or `https://`, with anything after it.
pub proof fn law_endpoints(endpoint: Seq<char>)
    ensures
        valid_endpoint(endpoint) <==> {
            ||| exists|rest: Seq<char>| goes_on(endpoint, "http://"@, rest)
            ||| exists|rest: Seq<char>| goes_on(endpoint, "https://"@, rest)
        },
{
    lemma_begins_with(endpoint, "http://"@);
    lemma_begins_with(endpoint, "https://"@);
}

proof fn lemma_begins_with(text: Seq<char>, start: Seq<char>)
    ensures
        begins_with(text, start) <==> exists|rest: Seq<char>| goes_on(text, start, rest),
{
    if begins_with(text, start) {
        assert(text =~= start + text.skip(start.len() as int));
        assert(goes_on(text, start, text.skip(start.len() as int)));
    }
    if exists|rest: Seq<char>| goes_on(text, start, rest) {
        let rest = choose|rest: Seq<char>| goes_on(text, start, rest);
        assert(text.take(start.len() as int) =~= start);
    }
}

/// The messages of errors. That of an exporter which could not be set up holds the reason.
pub proof fn law_error_messages(reason: String)
    ensures
        error_text(MetricsError::InvalidEndpoint)
            == "Invalid OTLP endpoint configuration: endpoint must start with http:// or https://"@,
        error_text(MetricsError::Exporter(reason))
            == "Failed to initialize OTLP metrics exporter: "@ + reason@
            + ". If metrics export is not required, omit the OTLP configuration."@,
{
}

} // verus!

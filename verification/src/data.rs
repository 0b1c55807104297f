//! The values of single metrics.

use vstd::multiset::Multiset;
use vstd::prelude::*;

use crate::hdr::{
    is_quantile, is_ranked, max_level, mean_text, min_level, new_histogram, quantile_level, recorded_values,
    significant_figures, HdrHistogram,
};
use crate::otlp::{InstrumentView, OtlpInstrument};
use crate::text::{decimal, push_decimal};

verus! {

broadcast use vstd::string::group_string_axioms;

/// What an optional instrument holds.
pub open spec fn instrument_view(otlp: Option<OtlpInstrument>) -> Option<InstrumentView> {
    match otlp {
        Some(instrument) => Some(instrument@),
        None => None,
    }
}

/// What a [`ValueAndCount`] holds.
#[verifier::ext_equal]
pub struct CounterView {
    pub sum: u64,
    pub n: usize,
    pub otlp: Option<InstrumentView>,
}

impl CounterView {
    /// The counter after an increment: the sum goes on from zero past the largest integer, and so
    /// does the number of increments.
    pub open spec fn incremented(self, value: u64) -> CounterView {
        CounterView {
            sum: ((self.sum + value) % 0x1_0000_0000_0000_0000) as u64,
            n: if self.n < usize::MAX {
                (self.n + 1) as usize
            } else {
                0
            },
            ..self
        }
    }

    /// The counter set to a value: one increment that gave this sum.
    pub open spec fn set_to(self, value: u64) -> CounterView {
        CounterView { sum: value, n: 1, ..self }
    }

    /// The counter after it was read.
    pub open spec fn drained(self) -> CounterView {
        CounterView { sum: 0, n: 0, ..self }
    }
}

/// A counter: the sum of its increments, and their number.
#[derive(Debug)]
pub struct ValueAndCount {
    pub sum: u64,
    pub n: usize,
    /// The instrument to which the increments are added too.
    pub otlp: Option<OtlpInstrument>,
}

impl View for ValueAndCount {
    type V = CounterView;

    open spec fn view(&self) -> CounterView {
        CounterView { sum: self.sum, n: self.n, otlp: instrument_view(self.otlp) }
    }
}

impl Default for ValueAndCount {
    fn default() -> (counter: Self)
        ensures
            counter@ == (CounterView { sum: 0, n: 0, otlp: None }),
    {
        ValueAndCount { sum: 0, n: 0, otlp: None }
    }
}

impl ValueAndCount {
    /// A counter without increments that is exported.
    pub fn with_otlp(otlp_counter: OtlpInstrument) -> (counter: Self)
        ensures
            counter@ == (CounterView { sum: 0, n: 0, otlp: Some(otlp_counter@) }),
    {
        ValueAndCount { sum: 0, n: 0, otlp: Some(otlp_counter) }
    }

    /// Adds `value`. Returns what is to be added to the instrument of an exported counter.
    pub fn increment(&mut self, value: u64) -> (export: Option<u64>)
        ensures
            final(self)@ == old(self)@.incremented(value),
            export == if old(self)@.otlp is Some {
                Some(value)
            } else {
                None
            },
    {
        self.sum = self.sum.wrapping_add(value);
        self.n = self.n.wrapping_add(1);
        match &self.otlp {
            Some(_) => Some(value),
            None => None,
        }
    }

    /// Sets the sum to `value`. Returns what is to be added to the instrument of an exported
    /// counter.
    pub fn absolute(&mut self, value: u64) -> (export: Option<u64>)
        ensures
            final(self)@ == old(self)@.set_to(value),
            export == if old(self)@.otlp is Some {
                Some(value)
            } else {
                None
            },
    {
        self.sum = value;
        self.n = 1;
        match &self.otlp {
            Some(_) => Some(value),
            None => None,
        }
    }

    /// Returns the sum and the number of the increments since the last call, if there were any.
    pub fn load_and_reset(&mut self) -> (loaded: Option<(u64, usize)>)
        ensures
            final(self)@ == old(self)@.drained(),
            loaded == if old(self)@.n == 0 {
                None
            } else {
                Some((old(self)@.sum, old(self)@.n))
            },
    {
        let sum: u64 = self.sum;
        let n: usize = self.n;
        self.sum = 0;
        self.n = 0;
        if n == 0 {
            None
        } else {
            Some((sum, n))
        }
    }
}

/// What an [`AtomicGauge`] holds.
#[verifier::ext_equal]
pub struct GaugeView {
    pub bits: u64,
    pub changed: bool,
    pub otlp: Option<InstrumentView>,
}

impl GaugeView {
    /// The gauge after an update to the value with these bits.
    pub open spec fn updated(self, bits: u64) -> GaugeView {
        GaugeView { bits, changed: true, ..self }
    }

    /// The gauge after it was read: it keeps its value, because later updates may be relative.
    pub open spec fn drained(self) -> GaugeView {
        GaugeView { changed: false, ..self }
    }
}

/// A gauge.
///
/// Its value is a floating-point number, held as the bits of its representation in 64 bits.
#[derive(Debug)]
pub struct AtomicGauge {
    pub bits: u64,
    /// Whether there was an update since the last [`load_if_changed`](Self::load_if_changed).
    pub changed: bool,
    /// The instrument that follows the updates.
    pub otlp: Option<OtlpInstrument>,
}

impl View for AtomicGauge {
    type V = GaugeView;

    open spec fn view(&self) -> GaugeView {
        GaugeView { bits: self.bits, changed: self.changed, otlp: instrument_view(self.otlp) }
    }
}

impl Default for AtomicGauge {
    /// A gauge at zero, whose bits are all zero, without updates.
    fn default() -> (gauge: Self)
        ensures
            gauge@ == (GaugeView { bits: 0, changed: false, otlp: None }),
    {
        AtomicGauge { bits: 0, changed: false, otlp: None }
    }
}

impl AtomicGauge {
    /// A gauge at zero, without updates, that is exported.
    pub fn with_otlp(otlp_gauge: OtlpInstrument) -> (gauge: Self)
        ensures
            gauge@ == (GaugeView { bits: 0, changed: false, otlp: Some(otlp_gauge@) }),
    {
        AtomicGauge { bits: 0, changed: false, otlp: Some(otlp_gauge) }
    }

    /// Replaces the value's bits by what `f` makes of them. For an exported gauge, returns the
    /// bits that its instrument is to record: those of the value that was replaced.
    pub fn update<F: FnOnce(u64) -> u64>(&mut self, f: F) -> (export: Option<u64>)
        requires
            call_requires(f, (old(self)@.bits,)),
        ensures
            call_ensures(f, (old(self)@.bits,), final(self)@.bits),
            final(self)@ == old(self)@.updated(final(self)@.bits),
            export == if old(self)@.otlp is Some {
                Some(old(self)@.bits)
            } else {
                None
            },
    {
        let replaced: u64 = self.bits;
        self.bits = f(replaced);
        self.changed = true;
        match &self.otlp {
            Some(_) => Some(replaced),
            None => None,
        }
    }

    /// Sets the value to that with these bits. For an exported gauge, returns the bits that its
    /// instrument is to record: those of the value that was replaced.
    pub fn set(&mut self, bits: u64) -> (export: Option<u64>)
        ensures
            final(self)@ == old(self)@.updated(bits),
            export == if old(self)@.otlp is Some {
                Some(old(self)@.bits)
            } else {
                None
            },
    {
        let replaced: u64 = self.bits;
        self.bits = bits;
        self.changed = true;
        match &self.otlp {
            Some(_) => Some(replaced),
            None => None,
        }
    }

    /// Returns the bits of the value, if there was an update since the last call. The value may
    /// still be the same.
    pub fn load_if_changed(&mut self) -> (loaded: Option<u64>)
        ensures
            final(self)@ == old(self)@.drained(),
            loaded == if old(self)@.changed {
                Some(old(self)@.bits)
            } else {
                None
            },
    {
        let changed = self.changed;
        self.changed = false;
        if changed {
            Some(self.bits)
        } else {
            None
        }
    }
}

/// What a [`Histogram`] holds.
#[verifier::ext_equal]
pub struct HistogramView {
    /// The recorded values since the last read.
    pub values: Multiset<u64>,
    pub otlp: Option<InstrumentView>,
}

impl HistogramView {
    /// The histogram after a value was recorded.
    pub open spec fn recorded(self, value: u64) -> HistogramView {
        HistogramView { values: self.values.insert(value), ..self }
    }

    /// The histogram after it was read.
    pub open spec fn drained(self) -> HistogramView {
        HistogramView { values: Multiset::empty(), ..self }
    }
}

/// The significant figures that a histogram keeps.
pub const SIGNIFICANT_FIGURES: u8 = 2;

/// The decimals that the mean of a histogram is written with.
pub const MEAN_DECIMALS: u8 = 2;

/// An auto-resizing histogram with a precision of two significant figures.
#[derive(Debug)]
pub struct Histogram {
    pub histogram: HdrHistogram,
    /// The instrument that records the values too.
    pub otlp: Option<OtlpInstrument>,
}

impl View for Histogram {
    type V = HistogramView;

    open spec fn view(&self) -> HistogramView {
        HistogramView {
            values: recorded_values(self.histogram),
            otlp: instrument_view(self.otlp),
        }
    }
}

impl Histogram {
    /// The histogram has its precision, and the number of its values fits its counters.
    pub open spec fn wf(&self) -> bool {
        &&& significant_figures(self.histogram) == SIGNIFICANT_FIGURES
        &&& self@.values.len() <= u64::MAX
    }

    /// A histogram without values.
    pub fn new() -> (histogram: Self)
        ensures
            histogram.wf(),
            histogram@ == (HistogramView { values: Multiset::empty(), otlp: None }),
    {
        Histogram { histogram: new_histogram(SIGNIFICANT_FIGURES).unwrap(), otlp: None }
    }

    /// A histogram without values that is exported.
    pub fn with_otlp(otlp_histogram: OtlpInstrument) -> (histogram: Self)
        ensures
            histogram.wf(),
            histogram@ == (HistogramView {
                values: Multiset::empty(),
                otlp: Some(otlp_histogram@),
            }),
    {
        Histogram {
            histogram: new_histogram(SIGNIFICANT_FIGURES).unwrap(),
            otlp: Some(otlp_histogram),
        }
    }

    /// Records `value`. Returns whether the instrument of the histogram is to record it too.
    pub fn record(&mut self, value: u64) -> (export: bool)
        requires
            old(self).wf(),
            old(self)@.values.len() < u64::MAX,
        ensures
            final(self).wf(),
            final(self)@ == old(self)@.recorded(value),
            export == (old(self)@.otlp is Some),
    {
        self.histogram.record(value).unwrap();
        match &self.otlp {
            Some(_) => true,
            None => false,
        }
    }

    /// The number of values since the last read.
    pub fn len(&self) -> (count: u64)
        requires
            self.wf(),
        ensures
            count == self@.values.len(),
    {
        self.histogram.total()
    }

    /// If this histogram has any data, runs the closure, resets the histogram, and returns the
    /// closure's result. Otherwise returns `None`.
    pub fn run_and_reset<T, F: FnOnce(&HdrHistogram) -> T>(&mut self, f: F) -> (result: Option<T>)
        requires
            old(self).wf(),
            old(self)@.values.len() > 0 ==> call_requires(f, (&old(self).histogram,)),
        ensures
            final(self).wf(),
            final(self)@ == old(self)@.drained(),
            result is Some <==> old(self)@.values.len() > 0,
            result matches Some(value) ==> call_ensures(f, (&old(self).histogram,), value),
    {
        if self.histogram.is_empty() {
            assert(self@.values =~= Multiset::empty());
            return None;
        }
        let result = f(&self.histogram);
        self.histogram.reset();
        Some(result)
    }
}

/// The text of a counter: the sum, and the number of increments where it is not one.
pub open spec fn counter_text(sum: u64, n: usize) -> Seq<char> {
    if n == 1 {
        decimal(sum as nat)
    } else {
        decimal(sum as nat) + " (n="@ + decimal(n as nat) + ")"@
    }
}

/// The text of a histogram with these figures: the number of values, the least of them, their
/// percentiles and their mean, and the greatest of them.
pub open spec fn figures_text(
    n: nat,
    min: nat,
    p10: nat,
    p50: nat,
    avg: Seq<char>,
    p90: nat,
    p99: nat,
    p999: nat,
    max: nat,
) -> Seq<char> {
    "n="@ + decimal(n) + ": min="@ + decimal(min) + " p10="@ + decimal(p10) + " p50="@ + decimal(
        p50,
    ) + " avg="@ + avg + " p90="@ + decimal(p90) + " p99="@ + decimal(p99) + " p99.9="@ + decimal(
        p999,
    ) + " max="@ + decimal(max)
}

/// The text of a histogram with these recorded values.
pub open spec fn histogram_text(values: Multiset<u64>) -> Seq<char> {
    figures_text(
        values.len(),
        min_level(values),
        quantile_level(values, "0.1"@) as nat,
        quantile_level(values, "0.5"@) as nat,
        mean_text(values, MEAN_DECIMALS as nat),
        quantile_level(values, "0.9"@) as nat,
        quantile_level(values, "0.99"@) as nat,
        quantile_level(values, "0.999"@) as nat,
        max_level(values),
    )
}

/// Whether each percentile in the text of a histogram with these recorded values can be a
/// quantile of them, and has its rank among them.
pub open spec fn percentiles_hold(values: Multiset<u64>) -> bool {
    &&& is_quantile(values, quantile_level(values, "0.1"@))
    &&& is_quantile(values, quantile_level(values, "0.5"@))
    &&& is_quantile(values, quantile_level(values, "0.9"@))
    &&& is_quantile(values, quantile_level(values, "0.99"@))
    &&& is_quantile(values, quantile_level(values, "0.999"@))
    &&& is_ranked(values, quantile_level(values, "0.1"@), 1, 10)
    &&& is_ranked(values, quantile_level(values, "0.5"@), 5, 10)
    &&& is_ranked(values, quantile_level(values, "0.9"@), 9, 10)
    &&& is_ranked(values, quantile_level(values, "0.99"@), 99, 100)
    &&& is_ranked(values, quantile_level(values, "0.999"@), 999, 1000)
}

/// The text of a counter with this sum and this number of increments.
pub fn format_counter(sum: u64, n: usize) -> (text: String)
    ensures
        text@ == counter_text(sum, n),
{
    let mut text = String::new();
    push_decimal(&mut text, sum);
    if n != 1 {
        text.append(" (n=");
        push_decimal(&mut text, n as u64);
        text.append(")");
    }
    assert(text@ =~= counter_text(sum, n));
    text
}

/// The text of a histogram with these figures.
pub fn histogram_line(
    n: u64,
    min: u64,
    p10: u64,
    p50: u64,
    avg: &str,
    p90: u64,
    p99: u64,
    p999: u64,
    max: u64,
) -> (text: String)
    ensures
        text@ == figures_text(
            n as nat,
            min as nat,
            p10 as nat,
            p50 as nat,
            avg@,
            p90 as nat,
            p99 as nat,
            p999 as nat,
            max as nat,
        ),
{
    let mut text = String::new();
    text.append("n=");
    push_decimal(&mut text, n);
    text.append(": min=");
    push_decimal(&mut text, min);
    text.append(" p10=");
    push_decimal(&mut text, p10);
    text.append(" p50=");
    push_decimal(&mut text, p50);
    text.append(" avg=");
    text.append(avg);
    text.append(" p90=");
    push_decimal(&mut text, p90);
    text.append(" p99=");
    push_decimal(&mut text, p99);
    text.append(" p99.9=");
    push_decimal(&mut text, p999);
    text.append(" max=");
    push_decimal(&mut text, max);
    assert(text@ =~= figures_text(
        n as nat,
        min as nat,
        p10 as nat,
        p50 as nat,
        avg@,
        p90 as nat,
        p99 as nat,
        p999 as nat,
        max as nat,
    ));
    text
}

/// The text of a histogram.
pub fn format_histogram(histogram: &HdrHistogram) -> (text: String)
    requires
        significant_figures(*histogram) == SIGNIFICANT_FIGURES,
        recorded_values(*histogram).len() <= u64::MAX,
    ensures
        text@ == histogram_text(recorded_values(*histogram)),
        percentiles_hold(recorded_values(*histogram)),
{
    proof {
        reveal_strlit("0.1");
        reveal_strlit("0.5");
        reveal_strlit("0.9");
        reveal_strlit("0.99");
        reveal_strlit("0.999");
    }
    histogram_line(
        histogram.total(),
        histogram.lowest(),
        histogram.quantile("0.1"),
        histogram.quantile("0.5"),
        histogram.mean(MEAN_DECIMALS).as_str(),
        histogram.quantile("0.9"),
        histogram.quantile("0.99"),
        histogram.quantile("0.999"),
        histogram.highest(),
    )
}

/// What a [`Metric`] holds.
#[verifier::ext_equal]
pub enum MetricView {
    Counter(CounterView),
    Gauge(GaugeView),
    Histogram(HistogramView),
}

impl MetricView {
    /// Whether the metric has had no values since it was last read.
    pub open spec fn quiet(self) -> bool {
        match self {
            MetricView::Counter(counter) => counter.n == 0,
            MetricView::Gauge(gauge) => !gauge.changed,
            MetricView::Histogram(histogram) => histogram.values.len() == 0,
        }
    }

    /// Whether `text` is the text of the metric, where `gauge_text` writes the value of a gauge
    /// out, given its bits.
    pub open spec fn reads_as<F: Fn(u64) -> String>(self, gauge_text: F, text: Seq<char>) -> bool {
        match self {
            MetricView::Counter(counter) => text == counter_text(counter.sum, counter.n),
            MetricView::Gauge(gauge) => exists|written: String|
                call_ensures(gauge_text, (gauge.bits,), written) && #[trigger] written@ == text,
            MetricView::Histogram(histogram) => text == histogram_text(histogram.values)
                && percentiles_hold(histogram.values),
        }
    }

    /// Whether the percentiles in the text of a histogram can be quantiles of its values.
    pub open spec fn percentiles_hold(self) -> bool {
        self matches MetricView::Histogram(histogram) ==> percentiles_hold(histogram.values)
    }

    /// The metric after it was read.
    pub open spec fn drained(self) -> MetricView {
        match self {
            MetricView::Counter(counter) => MetricView::Counter(counter.drained()),
            MetricView::Gauge(gauge) => MetricView::Gauge(gauge.drained()),
            MetricView::Histogram(histogram) => MetricView::Histogram(histogram.drained()),
        }
    }

    /// Which of the three kinds of metric this is.
    pub open spec fn kind(self) -> MetricKind {
        match self {
            MetricView::Counter(_) => MetricKind::Counter,
            MetricView::Gauge(_) => MetricKind::Gauge,
            MetricView::Histogram(_) => MetricKind::Histogram,
        }
    }

    /// The instrument of the metric, if it is exported.
    pub open spec fn otlp(self) -> Option<InstrumentView> {
        match self {
            MetricView::Counter(counter) => counter.otlp,
            MetricView::Gauge(gauge) => gauge.otlp,
            MetricView::Histogram(histogram) => histogram.otlp,
        }
    }
}

/// A metric of a kind that has had no values.
pub open spec fn fresh(kind: MetricKind, otlp: Option<InstrumentView>) -> MetricView {
    match kind {
        MetricKind::Counter => MetricView::Counter(CounterView { sum: 0, n: 0, otlp }),
        MetricKind::Gauge => MetricView::Gauge(GaugeView { bits: 0, changed: false, otlp }),
        MetricKind::Histogram => MetricView::Histogram(
            HistogramView { values: Multiset::empty(), otlp },
        ),
    }
}

/// The three kinds of metrics.
#[derive(Debug, Clone, Copy, PartialEq, Eq, Structural)]
pub enum MetricKind {
    Counter,
    Gauge,
    Histogram,
}

/// A single metric.
#[derive(Debug)]
pub enum Metric {
    Counter(ValueAndCount),
    Gauge(AtomicGauge),
    Histogram(Histogram),
}

impl View for Metric {
    type V = MetricView;

    open spec fn view(&self) -> MetricView {
        match self {
            Metric::Counter(inner) => MetricView::Counter(inner@),
            Metric::Gauge(inner) => MetricView::Gauge(inner@),
            Metric::Histogram(inner) => MetricView::Histogram(inner@),
        }
    }
}

impl Metric {
    /// A histogram is well-formed.
    pub open spec fn wf(&self) -> bool {
        self matches Metric::Histogram(inner) ==> inner.wf()
    }

    /// A metric of this kind that has had no values, and is not exported.
    pub fn local(kind: MetricKind) -> (metric: Self)
        ensures
            metric.wf(),
            metric@ == fresh(kind, None),
    {
        match kind {
            MetricKind::Counter => Metric::counter(),
            MetricKind::Gauge => Metric::gauge(),
            MetricKind::Histogram => Metric::histogram(),
        }
    }

    /// A metric of this kind that has had no values, and is exported.
    pub fn exported(kind: MetricKind, instrument: OtlpInstrument) -> (metric: Self)
        ensures
            metric.wf(),
            metric@ == fresh(kind, Some(instrument@)),
    {
        match kind {
            MetricKind::Counter => Metric::Counter(ValueAndCount::with_otlp(instrument)),
            MetricKind::Gauge => Metric::Gauge(AtomicGauge::with_otlp(instrument)),
            MetricKind::Histogram => Metric::Histogram(Histogram::with_otlp(instrument)),
        }
    }

    /// A counter without increments.
    pub fn counter() -> (metric: Self)
        ensures
            metric.wf(),
            metric@ == MetricView::Counter(CounterView { sum: 0, n: 0, otlp: None }),
    {
        Metric::Counter(ValueAndCount::default())
    }

    /// The counter that this metric is.
    pub fn as_counter(&mut self) -> (counter: &mut ValueAndCount)
        requires
            old(self)@.kind() == MetricKind::Counter,
        ensures
            MetricView::Counter(counter@) == old(self)@,
            *final(self) == Metric::Counter(*final(counter)),
    {
        match self {
            Metric::Counter(inner) => inner,
            _ => vstd::pervasive::unreached(),
        }
    }

    /// A gauge at zero, without updates.
    pub fn gauge() -> (metric: Self)
        ensures
            metric.wf(),
            metric@ == MetricView::Gauge(GaugeView { bits: 0, changed: false, otlp: None }),
    {
        Metric::Gauge(AtomicGauge::default())
    }

    /// The gauge that this metric is.
    pub fn as_gauge(&mut self) -> (gauge: &mut AtomicGauge)
        requires
            old(self)@.kind() == MetricKind::Gauge,
        ensures
            MetricView::Gauge(gauge@) == old(self)@,
            *final(self) == Metric::Gauge(*final(gauge)),
    {
        match self {
            Metric::Gauge(inner) => inner,
            _ => vstd::pervasive::unreached(),
        }
    }

    /// A histogram without values.
    pub fn histogram() -> (metric: Self)
        ensures
            metric.wf(),
            metric@ == MetricView::Histogram(
                HistogramView { values: Multiset::empty(), otlp: None },
            ),
    {
        Metric::Histogram(Histogram::new())
    }

    /// The histogram that this metric is.
    pub fn as_histogram(&mut self) -> (histogram: &mut Histogram)
        requires
            old(self)@.kind() == MetricKind::Histogram,
        ensures
            MetricView::Histogram(histogram@) == old(self)@,
            old(self).wf() ==> histogram.wf(),
            *final(self) == Metric::Histogram(*final(histogram)),
    {
        match self {
            Metric::Histogram(inner) => inner,
            _ => vstd::pervasive::unreached(),
        }
    }

    /// Which of the three kinds of metric this is.
    pub fn kind(&self) -> (kind: MetricKind)
        ensures
            kind == self@.kind(),
    {
        match self {
            Metric::Counter(_) => MetricKind::Counter,
            Metric::Gauge(_) => MetricKind::Gauge,
            Metric::Histogram(_) => MetricKind::Histogram,
        }
    }

    /// Generates the text of this metric, where `gauge_text` writes the value of a gauge out,
    /// given its bits. Returns `None` if the metric has had no values since the last call.
    pub fn fmt_and_reset<F: Fn(u64) -> String>(&mut self, gauge_text: &F) -> (text: Option<String>)
        requires
            old(self).wf(),
            forall|bits: u64| call_requires(*gauge_text, (bits,)),
        ensures
            final(self).wf(),
            final(self)@ == old(self)@.drained(),
            text is None <==> old(self)@.quiet(),
            text matches Some(written) ==> old(self)@.reads_as(*gauge_text, written@),
            text is Some ==> old(self)@.percentiles_hold(),
            old(self)@ matches MetricView::Gauge(before) ==> (
            final(self)@ matches MetricView::Gauge(after) && after.bits == before.bits),
    {
        match self {
            Metric::Counter(inner) => match inner.load_and_reset() {
                Some((sum, n)) => Some(format_counter(sum, n)),
                None => None,
            },
            // A gauge keeps its value, because it can be incremented and decremented
            Metric::Gauge(inner) => match inner.load_if_changed() {
                Some(bits) => Some(gauge_text(bits)),
                None => None,
            },
            Metric::Histogram(inner) => inner.run_and_reset(format_histogram),
        }
    }
}

} // verus!

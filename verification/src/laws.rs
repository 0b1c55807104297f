//! Laws of the library: what holds across several of its functions.

use vstd::multiset::Multiset;
use vstd::prelude::*;
use vstd::relations::total_ordering;

use crate::data::{
    counter_text, fresh, histogram_text, CounterView, GaugeView, HistogramView, MetricKind,
    MetricView,
};
use crate::hdr::{
    bucket_high, bucket_low, greatest, is_greatest, is_least, is_level, least, level_of, max_level,
    min_level,
};
use crate::key::{KeyId, KeyView, LabelView};
use crate::otlp::{exported, InstrumentView};
use crate::sink::{is_report, line, EntryView, MetricsSink, SinkView};
use crate::text::{ascending, text_le};

verus! {

/// A metric that was just read has nothing to tell, reading it again changes nothing, and it
/// stays the kind of metric that it is, with the instrument that it has.
pub proof fn law_read_drains(metric: MetricView)
    ensures
        metric.drained().quiet(),
        metric.drained().drained() == metric.drained(),
        metric.drained().kind() == metric.kind(),
        metric.drained().otlp() == metric.otlp(),
{
}

/// A new metric has nothing to tell.
pub proof fn law_fresh_is_quiet(kind: MetricKind, otlp: Option<InstrumentView>)
    ensures
        fresh(kind, otlp).quiet(),
        fresh(kind, otlp).kind() == kind,
        fresh(kind, otlp).otlp() == otlp,
{
}

/// Every emitted value gives a metric something to tell: an increment of a counter (short of the
/// one with which the number of increments starts again at zero), setting a counter, an update of
/// a gauge even if its value stays the same, and a value in a histogram.
pub proof fn law_emission_is_told(
    counter: CounterView,
    gauge: GaugeView,
    histogram: HistogramView,
    value: u64,
)
    ensures
        counter.n < usize::MAX ==> !MetricView::Counter(counter.incremented(value)).quiet(),
        !MetricView::Counter(counter.set_to(value)).quiet(),
        !MetricView::Gauge(gauge.updated(value)).quiet(),
        !MetricView::Gauge(gauge.updated(gauge.bits)).quiet(),
        !MetricView::Histogram(histogram.recorded(value)).quiet(),
{
}

/// What can happen to a counter.
pub enum CounterStep {
    Increment(u64),
    Absolute(u64),
    Read,
}

/// The counter after a step.
pub open spec fn counter_stepped(counter: CounterView, step: CounterStep) -> CounterView {
    match step {
        CounterStep::Increment(value) => counter.incremented(value),
        CounterStep::Absolute(value) => counter.set_to(value),
        CounterStep::Read => counter.drained(),
    }
}

/// The counter after these steps.
pub open spec fn counter_after(counter: CounterView, steps: Seq<CounterStep>) -> CounterView
    decreases steps.len(),
{
    if steps.len() == 0 {
        counter
    } else {
        counter_stepped(counter_after(counter, steps.drop_last()), steps.last())
    }
}

/// The number of increments since the counter was last read or set, where setting it is one too.
pub open spec fn counted(steps: Seq<CounterStep>) -> nat
    decreases steps.len(),
{
    if steps.len() == 0 {
        0
    } else {
        match steps.last() {
            CounterStep::Increment(_) => counted(steps.drop_last()) + 1,
            CounterStep::Absolute(_) => 1,
            CounterStep::Read => 0,
        }
    }
}

/// The sum of the increments since the counter was last read or set, where setting it is one too.
pub open spec fn summed(steps: Seq<CounterStep>) -> nat
    decreases steps.len(),
{
    if steps.len() == 0 {
        0
    } else {
        match steps.last() {
            CounterStep::Increment(value) => summed(steps.drop_last()) + value as nat,
            CounterStep::Absolute(value) => value as nat,
            CounterStep::Read => 0,
        }
    }
}

/// Increments by these values.
pub open spec fn increments(values: Seq<u64>) -> Seq<CounterStep> {
    values.map_values(|value: u64| CounterStep::Increment(value))
}

/// The sum of the values.
pub open spec fn sum_of(values: Seq<u64>) -> nat
    decreases values.len(),
{
    if values.len() == 0 {
        0
    } else {
        sum_of(values.drop_last()) + values.last() as nat
    }
}

/// A run of increments is counted and summed from the start, from the read before it, or from the
/// setting before it on, whatever came earlier.
pub proof fn law_counting_starts_over(earlier: Seq<CounterStep>, start: u64, values: Seq<u64>)
    ensures
        counted(increments(values)) == values.len(),
        summed(increments(values)) == sum_of(values),
        counted(earlier.push(CounterStep::Read) + increments(values)) == values.len(),
        summed(earlier.push(CounterStep::Read) + increments(values)) == sum_of(values),
        counted(earlier.push(CounterStep::Absolute(start)) + increments(values)) == 1 + values.len(),
        summed(earlier.push(CounterStep::Absolute(start)) + increments(values)) == start + sum_of(
            values,
        ),
    decreases values.len(),
{
    let read = earlier.push(CounterStep::Read);
    let set = earlier.push(CounterStep::Absolute(start));
    if values.len() == 0 {
        assert(read + increments(values) =~= read);
        assert(set + increments(values) =~= set);
    } else {
        law_counting_starts_over(earlier, start, values.drop_last());
        let fewer = increments(values.drop_last());
        assert(increments(values).drop_last() =~= fewer);
        assert((read + increments(values)).drop_last() =~= read + fewer);
        assert((set + increments(values)).drop_last() =~= set + fewer);
    }
}

/// In whatever order a counter is incremented, set and read, it holds the sum and the number of
/// its increments since it was last read or set, each as far as its integer reaches and then from
/// zero again.
pub proof fn law_counter_accumulates(counter: CounterView, steps: Seq<CounterStep>)
    ensures
        counter_after(counter.drained(), steps).sum == summed(steps) % 0x1_0000_0000_0000_0000,
        counter_after(counter.drained(), steps).n == counted(steps) % (usize::MAX + 1) as nat,
        counter_after(counter.drained(), steps).otlp == counter.otlp,
    decreases steps.len(),
{
    let modulus = usize::MAX + 1;
    vstd::arithmetic::div_mod::lemma_small_mod(0, modulus as nat);
    vstd::arithmetic::div_mod::lemma_small_mod(1, modulus as nat);
    if steps.len() != 0 {
        law_counter_accumulates(counter, steps.drop_last());
        let earlier = counted(steps.drop_last());
        vstd::arithmetic::div_mod::lemma_add_mod_noop(earlier as int, 1, modulus);
        if earlier % (modulus as nat) == usize::MAX {
            vstd::arithmetic::div_mod::lemma_mod_self_0(modulus);
        } else {
            vstd::arithmetic::div_mod::lemma_small_mod(
                (earlier % (modulus as nat) + 1) as nat,
                modulus as nat,
            );
        }
    }
}

/// Whether the number of increments never starts again at zero.
pub open spec fn no_count_wraps(counter: CounterView, steps: Seq<CounterStep>) -> bool
    decreases steps.len(),
{
    steps.len() == 0 || {
        &&& no_count_wraps(counter, steps.drop_last())
        &&& steps.last() is Increment ==> counter_after(counter, steps.drop_last()).n < usize::MAX
    }
}

/// A read of a counter gives nothing exactly if there was no emission since the last read, and
/// else the number of increments, while that number does not start again at zero.
pub proof fn law_counter_tells_of_emissions(counter: CounterView, steps: Seq<CounterStep>)
    requires
        no_count_wraps(counter.drained(), steps),
    ensures
        MetricView::Counter(counter_after(counter.drained(), steps)).quiet() <==> steps.len() == 0
            || steps.last() is Read,
        counter_after(counter.drained(), steps).n == counted(steps),
    decreases steps.len(),
{
    if steps.len() != 0 {
        law_counter_tells_of_emissions(counter, steps.drop_last());
    }
}

/// The numbers of increments that the reads gave, added up.
pub open spec fn counts_read(counter: CounterView, steps: Seq<CounterStep>) -> nat
    decreases steps.len(),
{
    if steps.len() == 0 {
        0
    } else {
        counts_read(counter, steps.drop_last()) + if steps.last() is Read {
            counter_after(counter, steps.drop_last()).n as nat
        } else {
            0
        }
    }
}

/// The numbers of increments that were held when the counter was set, and so were never read,
/// added up.
pub open spec fn counts_replaced(counter: CounterView, steps: Seq<CounterStep>) -> nat
    decreases steps.len(),
{
    if steps.len() == 0 {
        0
    } else {
        counts_replaced(counter, steps.drop_last()) + if steps.last() is Absolute {
            counter_after(counter, steps.drop_last()).n as nat
        } else {
            0
        }
    }
}

/// The number of emissions: how often the counter was incremented or set.
pub open spec fn emissions(steps: Seq<CounterStep>) -> nat
    decreases steps.len(),
{
    if steps.len() == 0 {
        0
    } else {
        emissions(steps.drop_last()) + if steps.last() is Read {
            0nat
        } else {
            1
        }
    }
}

/// Whether the counter is incremented and read, but never set.
pub open spec fn never_set(steps: Seq<CounterStep>) -> bool {
    forall|i: int| 0 <= i < steps.len() ==> !(#[trigger] steps[i] is Absolute)
}

/// In whatever order a counter is incremented, set and read, each emission is counted once: by a
/// read, in what the counter holds, or in what setting it replaced. Where it is never set, the
/// counts of all reads and the count that is held add up to the number of increments. All this
/// while no count starts again at zero.
pub proof fn law_each_emission_is_counted_once(counter: CounterView, steps: Seq<CounterStep>)
    requires
        no_count_wraps(counter, steps),
    ensures
        counts_read(counter, steps) + counter_after(counter, steps).n + counts_replaced(
            counter,
            steps,
        ) == counter.n + emissions(steps),
        never_set(steps) ==> counts_read(counter, steps) + counter_after(counter, steps).n
            == counter.n + emissions(steps),
    decreases steps.len(),
{
    if steps.len() != 0 {
        law_each_emission_is_counted_once(counter, steps.drop_last());
    }
    if never_set(steps) {
        lemma_nothing_replaced(counter, steps);
    }
}

/// Where a counter is never set, nothing is replaced.
proof fn lemma_nothing_replaced(counter: CounterView, steps: Seq<CounterStep>)
    requires
        never_set(steps),
    ensures
        counts_replaced(counter, steps) == 0,
        sums_replaced(counter, steps) == 0,
    decreases steps.len(),
{
    if steps.len() != 0 {
        assert(!(steps[steps.len() - 1] is Absolute));
        assert forall|i: int| 0 <= i < steps.drop_last().len() implies !(
        #[trigger] steps.drop_last()[i] is Absolute) by {
            assert(!(steps[i] is Absolute));
        }
        lemma_nothing_replaced(counter, steps.drop_last());
    }
}

/// The sums that the reads gave, added up.
pub open spec fn sums_read(counter: CounterView, steps: Seq<CounterStep>) -> nat
    decreases steps.len(),
{
    if steps.len() == 0 {
        0
    } else {
        sums_read(counter, steps.drop_last()) + if steps.last() is Read {
            counter_after(counter, steps.drop_last()).sum as nat
        } else {
            0
        }
    }
}

/// The sums that were held when the counter was set, and so were never read, added up.
pub open spec fn sums_replaced(counter: CounterView, steps: Seq<CounterStep>) -> nat
    decreases steps.len(),
{
    if steps.len() == 0 {
        0
    } else {
        sums_replaced(counter, steps.drop_last()) + if steps.last() is Absolute {
            counter_after(counter, steps.drop_last()).sum as nat
        } else {
            0
        }
    }
}

/// The values that the counter was incremented by or set to, added up.
pub open spec fn emitted_sum(steps: Seq<CounterStep>) -> nat
    decreases steps.len(),
{
    if steps.len() == 0 {
        0
    } else {
        emitted_sum(steps.drop_last()) + match steps.last() {
            CounterStep::Increment(value) => value as nat,
            CounterStep::Absolute(value) => value as nat,
            CounterStep::Read => 0,
        }
    }
}

/// In whatever order a counter is incremented, set and read, each emitted value is summed once: by
/// a read, in what the counter holds, or in what setting it replaced, up to a multiple of the
/// range of the sum. Where it is never set, the sums of all reads and the sum that is held add up
/// to the increments.
pub proof fn law_each_value_is_summed_once(counter: CounterView, steps: Seq<CounterStep>)
    ensures
        (sums_read(counter, steps) + counter_after(counter, steps).sum + sums_replaced(
            counter,
            steps,
        )) % 0x1_0000_0000_0000_0000 == (counter.sum + emitted_sum(steps))
            % 0x1_0000_0000_0000_0000,
        never_set(steps) ==> (sums_read(counter, steps) + counter_after(counter, steps).sum)
            % 0x1_0000_0000_0000_0000 == (counter.sum + emitted_sum(steps))
            % 0x1_0000_0000_0000_0000,
    decreases steps.len(),
{
    if steps.len() != 0 {
        let fewer = steps.drop_last();
        law_each_value_is_summed_once(counter, fewer);
        let held = counter_after(counter, fewer).sum as int;
        let others = sums_read(counter, fewer) + sums_replaced(counter, fewer);
        match steps.last() {
            CounterStep::Increment(value) => {
                lemma_add_to_both(
                    others + held,
                    counter.sum + emitted_sum(fewer),
                    value as int,
                );
                vstd::arithmetic::div_mod::lemma_add_mod_noop_right(
                    others as int,
                    held + value,
                    0x1_0000_0000_0000_0000,
                );
            },
            CounterStep::Absolute(value) => {
                lemma_add_to_both(
                    others + held,
                    counter.sum + emitted_sum(fewer),
                    value as int,
                );
            },
            CounterStep::Read => {},
        }
    }
    if never_set(steps) {
        lemma_nothing_replaced(counter, steps);
    }
}

/// Numbers with one remainder have one after the same addition to both.
proof fn lemma_add_to_both(a: int, b: int, added: int)
    requires
        a % 0x1_0000_0000_0000_0000 == b % 0x1_0000_0000_0000_0000,
    ensures
        (a + added) % 0x1_0000_0000_0000_0000 == (b + added) % 0x1_0000_0000_0000_0000,
{
}

/// Of several updates of a gauge the last one counts, and reading it keeps its value.
pub proof fn law_gauge_keeps_last(gauge: GaugeView, first: u64, second: u64)
    ensures
        gauge.updated(first).updated(second) == gauge.updated(second),
        gauge.drained().bits == gauge.bits,
        gauge.updated(first).drained().updated(second) == gauge.updated(second),
{
}

/// What can happen to a gauge.
pub enum GaugeStep {
    Update(u64),
    Read,
}

/// The gauge after these steps.
pub open spec fn gauge_after(gauge: GaugeView, steps: Seq<GaugeStep>) -> GaugeView
    decreases steps.len(),
{
    if steps.len() == 0 {
        gauge
    } else {
        let earlier = gauge_after(gauge, steps.drop_last());
        match steps.last() {
            GaugeStep::Update(bits) => earlier.updated(bits),
            GaugeStep::Read => earlier.drained(),
        }
    }
}

/// The bits of the values that a gauge was updated to.
pub open spec fn updates(steps: Seq<GaugeStep>) -> Seq<u64>
    decreases steps.len(),
{
    if steps.len() == 0 {
        Seq::empty()
    } else {
        match steps.last() {
            GaugeStep::Update(bits) => updates(steps.drop_last()).push(bits),
            GaugeStep::Read => updates(steps.drop_last()),
        }
    }
}

/// In whatever order a gauge is updated and read, it has the value of the last update, and a read
/// gives nothing exactly if there was no update since the last read.
pub proof fn law_gauge_tells_of_updates(gauge: GaugeView, steps: Seq<GaugeStep>)
    ensures
        gauge_after(gauge.drained(), steps).bits == if updates(steps).len() == 0 {
            gauge.bits
        } else {
            updates(steps).last()
        },
        MetricView::Gauge(gauge_after(gauge.drained(), steps)).quiet() <==> steps.len() == 0
            || steps.last() is Read,
        gauge_after(gauge.drained(), steps).otlp == gauge.otlp,
    decreases steps.len(),
{
    if steps.len() != 0 {
        law_gauge_tells_of_updates(gauge, steps.drop_last());
    }
}

/// What can happen to a histogram.
pub enum HistogramStep {
    Record(u64),
    Read,
}

/// The histogram after these steps.
pub open spec fn histogram_after(
    histogram: HistogramView,
    steps: Seq<HistogramStep>,
) -> HistogramView
    decreases steps.len(),
{
    if steps.len() == 0 {
        histogram
    } else {
        let earlier = histogram_after(histogram, steps.drop_last());
        match steps.last() {
            HistogramStep::Record(value) => earlier.recorded(value),
            HistogramStep::Read => earlier.drained(),
        }
    }
}

/// The values that the reads were made of, taken together.
pub open spec fn values_read(histogram: HistogramView, steps: Seq<HistogramStep>) -> Multiset<u64>
    decreases steps.len(),
{
    if steps.len() == 0 {
        Multiset::empty()
    } else {
        let earlier = values_read(histogram, steps.drop_last());
        match steps.last() {
            HistogramStep::Record(_) => earlier,
            HistogramStep::Read => earlier.add(
                histogram_after(histogram, steps.drop_last()).values,
            ),
        }
    }
}

/// The values that were recorded, taken together.
pub open spec fn values_recorded(steps: Seq<HistogramStep>) -> Multiset<u64>
    decreases steps.len(),
{
    if steps.len() == 0 {
        Multiset::empty()
    } else {
        match steps.last() {
            HistogramStep::Record(value) => values_recorded(steps.drop_last()).insert(value),
            HistogramStep::Read => values_recorded(steps.drop_last()),
        }
    }
}

/// In whatever order values are recorded in a histogram and the histogram is read, each value
/// goes into one read or is still held, and a read gives nothing exactly if nothing was recorded
/// since the last read.
pub proof fn law_each_value_is_read_once(histogram: HistogramView, steps: Seq<HistogramStep>)
    ensures
        values_read(histogram, steps).add(histogram_after(histogram, steps).values)
            == histogram.values.add(values_recorded(steps)),
        MetricView::Histogram(histogram_after(histogram.drained(), steps)).quiet() <==> steps.len()
            == 0 || steps.last() is Read,
        histogram_after(histogram, steps).otlp == histogram.otlp,
    decreases steps.len(),
{
    broadcast use vstd::multiset::group_multiset_axioms;

    if steps.len() != 0 {
        let fewer = steps.drop_last();
        law_each_value_is_read_once(histogram, fewer);
        let before = values_read(histogram, fewer).add(histogram_after(histogram, fewer).values);
        match steps.last() {
            HistogramStep::Record(value) => {
                assert(values_read(histogram, steps).add(histogram_after(histogram, steps).values)
                    =~= before.insert(value));
                assert(histogram.values.add(values_recorded(steps)) =~= histogram.values.add(
                    values_recorded(fewer),
                ).insert(value));
            },
            HistogramStep::Read => {
                assert(values_read(histogram, steps).add(histogram_after(histogram, steps).values)
                    =~= before);
            },
        }
    } else {
        assert(values_read(histogram, steps).add(histogram_after(histogram, steps).values)
            =~= histogram.values.add(values_recorded(steps)));
    }
}

/// The histogram after these values were recorded.
pub open spec fn recorded_all(histogram: HistogramView, values: Seq<u64>) -> HistogramView
    decreases values.len(),
{
    if values.len() == 0 {
        histogram
    } else {
        recorded_all(histogram, values.drop_last()).recorded(values.last())
    }
}

/// Since it was last read, a histogram holds the values recorded in it, whatever their order.
pub proof fn law_histogram_accumulates(histogram: HistogramView, values: Seq<u64>)
    ensures
        recorded_all(histogram.drained(), values).values == values.to_multiset(),
        recorded_all(histogram.drained(), values).otlp == histogram.otlp,
    decreases values.len(),
{
    broadcast use vstd::seq_lib::group_to_multiset_ensures;

    if values.len() != 0 {
        law_histogram_accumulates(histogram, values.drop_last());
        assert(values =~= values.drop_last().push(values.last()));
    } else {
        assert(values.to_multiset() =~= Multiset::empty());
    }
}

/// A histogram counts a value together with others between two levels, and keeps two significant
/// figures: the distance of the two levels is less than a hundredth of the lower one.
pub proof fn law_two_significant_figures(value: nat)
    ensures
        bucket_low(value) <= value <= bucket_high(value),
        bucket_high(value) - bucket_low(value) > 0 ==> 100 * (bucket_high(value) - bucket_low(
            value,
        )) < bucket_low(value),
        value >= 128 ==> 128 * (bucket_high(value) - bucket_low(value) + 1) <= bucket_low(value),
    decreases value,
{
    if value >= 256 {
        law_two_significant_figures(value / 2);
    }
}

/// Values that are counted together are those between the two levels of any one of them.
pub proof fn law_counted_together(value: nat, other: nat)
    ensures
        bucket_low(value) == bucket_low(other) <==> bucket_low(value) <= other <= bucket_high(
            value,
        ),
        value <= other ==> bucket_low(value) <= bucket_low(other),
        value <= other ==> bucket_high(value) <= bucket_high(other),
    decreases value + other,
{
    law_two_significant_figures(value);
    law_two_significant_figures(other);
    if value >= 256 && other >= 256 {
        law_counted_together(value / 2, other / 2);
    } else if value >= 256 {
        law_two_significant_figures(value / 2);
    } else if other >= 256 {
        law_two_significant_figures(other / 2);
    }
}

/// Recorded values have a least and a greatest.
pub proof fn law_extremes_exist(values: Multiset<u64>)
    requires
        values.len() > 0,
    ensures
        is_least(values, least(values)),
        is_greatest(values, greatest(values)),
    decreases values.len(),
{
    broadcast use vstd::multiset::group_multiset_axioms;

    let value = values.choose();
    assert(values.contains(value));
    let rest = values.remove(value);
    assert forall|other: u64| #[trigger] values.contains(other) <==> other == value
        || rest.contains(other) by {}
    if rest.len() == 0 {
        vstd::multiset::lemma_multiset_empty_len(rest);
        assert(is_least(values, value));
        assert(is_greatest(values, value));
    } else {
        law_extremes_exist(rest);
        let low = if value <= least(rest) {
            value
        } else {
            least(rest)
        };
        let high = if value >= greatest(rest) {
            value
        } else {
            greatest(rest)
        };
        assert(is_least(values, low));
        assert(is_greatest(values, high));
    }
}

/// The levels that a histogram reports as its least and its greatest enclose all its values.
pub proof fn law_levels_enclose_values(values: Multiset<u64>, value: u64)
    requires
        values.contains(value),
    ensures
        min_level(values) <= value <= max_level(values) <= u64::MAX,
{
    broadcast use vstd::multiset::group_multiset_axioms;

    assert(values.len() > 0);
    law_extremes_exist(values);
    law_two_significant_figures(least(values) as nat);
    law_two_significant_figures(greatest(values) as nat);
    lemma_bucket_fits(greatest(values));
}

/// The levels of an integer of 64 bits are such integers too.
proof fn lemma_bucket_fits(value: u64)
    ensures
        bucket_high(value as nat) <= u64::MAX,
{
    law_counted_together(value as nat, u64::MAX as nat);
    assert(bucket_high(u64::MAX as nat) == u64::MAX) by {
        reveal_with_fuel(bucket_high, 58);
    }
}

/// A level that a histogram gives as a percentile keeps two significant figures: it belongs to a
/// recorded value that it is counted together with, and differs from it, if at all, by less than a
/// hundredth. It does not exceed the level of the greatest value, nor, unless the largest integer
/// is the only value, come below that of the least.
pub proof fn law_percentiles_keep_figures(values: Multiset<u64>, level: u64)
    requires
        is_level(values, level),
    ensures
        exists|value: u64| #[trigger]
            values.contains(value) && bucket_low(level as nat) == bucket_low(value as nat) && (level
                == value || -value < 100 * (level - value) < value),
        level <= max_level(values),
        least(values) < u64::MAX ==> min_level(values) <= level,
{
    broadcast use vstd::multiset::group_multiset_axioms;

    let value = choose|value: u64| #[trigger] values.contains(value) && level == level_of(value);
    assert(values.len() > 0);
    law_extremes_exist(values);
    lemma_bucket_fits(value);
    lemma_bucket_fits(greatest(values));
    law_two_significant_figures(value as nat);
    law_two_significant_figures(value as nat / 2);
    law_counted_together(value as nat, level as nat);
    law_counted_together(value as nat, greatest(values) as nat);
    law_counted_together(least(values) as nat, value as nat);
    assert(values.contains(value) && bucket_low(level as nat) == bucket_low(value as nat));
}

/// The order of texts is total, and only equal texts come before each other.
pub proof fn law_text_order()
    ensures
        total_ordering(|a: Seq<char>, b: Seq<char>| text_le(a, b)),
{
    assert forall|a: Seq<char>| text_le(a, a) by {
        lemma_text_le_reflexive(a);
    }
    assert forall|a: Seq<char>, b: Seq<char>| #[trigger] text_le(a, b) && #[trigger] text_le(
        b,
        a,
    ) implies a == b by {
        lemma_text_le_antisymmetric(a, b);
    }
    assert forall|a: Seq<char>, b: Seq<char>, c: Seq<char>| #[trigger]
        text_le(a, b) && #[trigger] text_le(b, c) implies text_le(a, c) by {
        lemma_text_le_transitive(a, b, c);
    }
    assert forall|a: Seq<char>, b: Seq<char>| #[trigger] text_le(a, b) || #[trigger] text_le(
        b,
        a,
    ) by {
        lemma_text_le_connected(a, b);
    }
}

proof fn lemma_text_le_reflexive(a: Seq<char>)
    ensures
        text_le(a, a),
    decreases a.len(),
{
    if a.len() > 0 {
        lemma_text_le_reflexive(a.drop_first());
    }
}

proof fn lemma_text_le_antisymmetric(a: Seq<char>, b: Seq<char>)
    requires
        text_le(a, b),
        text_le(b, a),
    ensures
        a == b,
    decreases a.len(),
{
    if a.len() > 0 {
        lemma_text_le_antisymmetric(a.drop_first(), b.drop_first());
        assert(a =~= seq![a[0]] + a.drop_first());
        assert(b =~= seq![b[0]] + b.drop_first());
    } else {
        assert(a =~= b);
    }
}

proof fn lemma_text_le_transitive(a: Seq<char>, b: Seq<char>, c: Seq<char>)
    requires
        text_le(a, b),
        text_le(b, c),
    ensures
        text_le(a, c),
    decreases a.len(),
{
    if a.len() > 0 && a[0] == b[0] && b[0] == c[0] {
        lemma_text_le_transitive(a.drop_first(), b.drop_first(), c.drop_first());
    }
}

proof fn lemma_text_le_connected(a: Seq<char>, b: Seq<char>)
    ensures
        text_le(a, b) || text_le(b, a),
    decreases a.len(),
{
    if a.len() > 0 && b.len() > 0 {
        lemma_text_le_connected(a.drop_first(), b.drop_first());
    }
}

/// Lines have one sorted order: two reorderings of the same lines that are both ascending are the
/// same.
pub proof fn law_one_sorted_order(first: Seq<Seq<char>>, second: Seq<Seq<char>>)
    requires
        ascending(first),
        ascending(second),
        first.to_multiset() == second.to_multiset(),
    ensures
        first == second,
{
    law_text_order();
    vstd::seq_lib::lemma_sorted_unique(
        first,
        second,
        |a: Seq<char>, b: Seq<char>| text_le(a, b),
    );
}

/// A report has one line for each metric that has had values.
pub proof fn law_report_length<F: Fn(u64) -> String>(
    entries: Seq<EntryView>,
    gauge_text: F,
    lines: Seq<Seq<char>>,
)
    requires
        is_report(entries, gauge_text, lines),
    ensures
        lines.len() == entries.filter(|entry: EntryView| !entry.metric.quiet()).len(),
    decreases entries.len(),
{
    reveal_with_fuel(Seq::filter, 1);
    if entries.len() != 0 {
        if entries.last().metric.quiet() {
            law_report_length(entries.drop_last(), gauge_text, lines);
        } else {
            law_report_length(entries.drop_last(), gauge_text, lines.drop_last());
        }
    }
}

/// A report tells of each metric that has had values.
pub proof fn law_report_covers<F: Fn(u64) -> String>(
    entries: Seq<EntryView>,
    gauge_text: F,
    lines: Seq<Seq<char>>,
    i: int,
)
    requires
        is_report(entries, gauge_text, lines),
        0 <= i < entries.len(),
        !entries[i].metric.quiet(),
    ensures
        exists|text: Seq<char>|
            entries[i].metric.reads_as(gauge_text, text) && lines.contains(
                #[trigger] line(entries[i].key, text),
            ),
    decreases entries.len(),
{
    let last = entries.len() - 1;
    if i == last {
        let text = choose|text: Seq<char>|
            entries.last().metric.reads_as(gauge_text, text) && lines.last() == #[trigger] line(
                entries.last().key,
                text,
            );
        assert(lines[lines.len() - 1] == line(entries[i].key, text));
        assert(lines.contains(line(entries[i].key, text)));
    } else if entries.last().metric.quiet() {
        law_report_covers(entries.drop_last(), gauge_text, lines, i);
    } else {
        law_report_covers(entries.drop_last(), gauge_text, lines.drop_last(), i);
        let text = choose|text: Seq<char>|
            entries[i].metric.reads_as(gauge_text, text) && lines.drop_last().contains(
                #[trigger] line(entries[i].key, text),
            );
        let j = choose|j: int|
            0 <= j < lines.drop_last().len() && lines.drop_last()[j] == line(entries[i].key, text);
        assert(lines[j] == line(entries[i].key, text));
        assert(lines.contains(line(entries[i].key, text)));
    }
}

/// A report tells of nothing but metrics that have had values.
pub proof fn law_report_invents_nothing<F: Fn(u64) -> String>(
    entries: Seq<EntryView>,
    gauge_text: F,
    lines: Seq<Seq<char>>,
    reported: Seq<char>,
)
    requires
        is_report(entries, gauge_text, lines),
        lines.contains(reported),
    ensures
        exists|i: int, text: Seq<char>|
            0 <= i < entries.len() && !entries[i].metric.quiet() && entries[i].metric.reads_as(
                gauge_text,
                text,
            ) && reported == #[trigger] line(entries[i].key, text),
    decreases entries.len(),
{
    if entries.len() != 0 {
        let last = entries.len() - 1;
        if entries.last().metric.quiet() {
            law_report_invents_nothing(entries.drop_last(), gauge_text, lines, reported);
            let (i, text) = choose|i: int, text: Seq<char>|
                0 <= i < entries.drop_last().len() && !entries.drop_last()[i].metric.quiet()
                    && entries.drop_last()[i].metric.reads_as(gauge_text, text) && reported
                    == #[trigger] line(entries.drop_last()[i].key, text);
            assert(reported == line(entries[i].key, text));
        } else {
            let j = choose|j: int| 0 <= j < lines.len() && lines[j] == reported;
            if j == lines.len() - 1 {
                let text = choose|text: Seq<char>|
                    entries.last().metric.reads_as(gauge_text, text) && lines.last()
                        == #[trigger] line(entries.last().key, text);
                assert(reported == line(entries[last].key, text));
            } else {
                assert(lines.drop_last()[j] == reported);
                law_report_invents_nothing(
                    entries.drop_last(),
                    gauge_text,
                    lines.drop_last(),
                    reported,
                );
                let (i, text) = choose|i: int, text: Seq<char>|
                    0 <= i < entries.drop_last().len() && !entries.drop_last()[i].metric.quiet()
                        && entries.drop_last()[i].metric.reads_as(gauge_text, text) && reported
                        == #[trigger] line(entries.drop_last()[i].key, text);
                assert(reported == line(entries[i].key, text));
            }
        }
    }
}

/// Whether a closure writes the same text for the same bits every time.
pub open spec fn writes_one_text<F: Fn(u64) -> String>(gauge_text: F) -> bool {
    forall|bits: u64, a: String, b: String| #[trigger]
        call_ensures(gauge_text, (bits,), a) && #[trigger] call_ensures(gauge_text, (bits,), b)
            ==> a@ == b@
}

/// What is published depends on what the sink holds alone: any two lists of lines that
/// `MetricsSink::publish` may return for the same entries are the same, if the values of gauges
/// are written out in one way.
pub proof fn law_published_lines_determined<F: Fn(u64) -> String>(
    entries: Seq<EntryView>,
    gauge_text: F,
    first_report: Seq<Seq<char>>,
    first: Seq<Seq<char>>,
    second_report: Seq<Seq<char>>,
    second: Seq<Seq<char>>,
)
    requires
        writes_one_text(gauge_text),
        is_report(entries, gauge_text, first_report),
        first.to_multiset() == first_report.to_multiset(),
        ascending(first),
        is_report(entries, gauge_text, second_report),
        second.to_multiset() == second_report.to_multiset(),
        ascending(second),
    ensures
        first == second,
{
    lemma_one_report(entries, gauge_text, first_report, second_report);
    law_one_sorted_order(first, second);
}

proof fn lemma_one_report<F: Fn(u64) -> String>(
    entries: Seq<EntryView>,
    gauge_text: F,
    first: Seq<Seq<char>>,
    second: Seq<Seq<char>>,
)
    requires
        writes_one_text(gauge_text),
        is_report(entries, gauge_text, first),
        is_report(entries, gauge_text, second),
    ensures
        first == second,
    decreases entries.len(),
{
    if entries.len() == 0 {
        assert(first =~= second);
    } else if entries.last().metric.quiet() {
        lemma_one_report(entries.drop_last(), gauge_text, first, second);
    } else {
        lemma_one_report(entries.drop_last(), gauge_text, first.drop_last(), second.drop_last());
        assert(first =~= first.drop_last().push(first.last()));
        assert(second =~= second.drop_last().push(second.last()));
    }
}

/// Right after a publication there is nothing to publish.
pub proof fn law_published_once<F: Fn(u64) -> String>(
    sink: SinkView,
    gauge_text: F,
    lines: Seq<Seq<char>>,
)
    requires
        is_report(sink.drained().entries, gauge_text, lines),
    ensures
        lines.len() == 0,
    decreases sink.entries.len(),
{
    if sink.entries.len() != 0 {
        let fewer = SinkView { entries: sink.entries.drop_last(), ..sink };
        assert(fewer.drained().entries =~= sink.drained().entries.drop_last());
        law_published_once(fewer, gauge_text, lines);
    }
}

/// The metric without its instrument.
pub open spec fn unexported(metric: MetricView) -> MetricView {
    match metric {
        MetricView::Counter(counter) => MetricView::Counter(CounterView { otlp: None, ..counter }),
        MetricView::Gauge(gauge) => MetricView::Gauge(GaugeView { otlp: None, ..gauge }),
        MetricView::Histogram(histogram) => MetricView::Histogram(
            HistogramView { otlp: None, ..histogram },
        ),
    }
}

/// Whether metrics are exported does not show in what is published.
pub proof fn law_export_does_not_show<F: Fn(u64) -> String>(
    entries: Seq<EntryView>,
    others: Seq<EntryView>,
    gauge_text: F,
    lines: Seq<Seq<char>>,
)
    requires
        entries.len() == others.len(),
        forall|i: int|
            #![trigger entries[i]]
            #![trigger others[i]]
            0 <= i < entries.len() ==> entries[i].key == others[i].key && unexported(
                entries[i].metric,
            ) == unexported(others[i].metric),
    ensures
        is_report(entries, gauge_text, lines) <==> is_report(others, gauge_text, lines),
    decreases entries.len(),
{
    if entries.len() != 0 {
        assert(entries[entries.len() - 1] == entries.last());
        assert(others[entries.len() - 1] == others.last());
        assert(unexported(entries.last().metric) == unexported(others.last().metric));
        let (a, b) = (entries.last().metric, others.last().metric);
        assert(a.quiet() == b.quiet());
        assert(forall|text: Seq<char>|
            a.reads_as(gauge_text, text) == b.reads_as(gauge_text, text));
        let (fewer, fewer_others) = (entries.drop_last(), others.drop_last());
        assert forall|i: int|
            #![trigger fewer[i]]
            #![trigger fewer_others[i]]
            0 <= i < fewer.len() implies fewer[i].key == fewer_others[i].key && unexported(
            fewer[i].metric,
        ) == unexported(fewer_others[i].metric) by {
            assert(fewer[i] == entries[i]);
            assert(fewer_others[i] == others[i]);
        }
        law_export_does_not_show(fewer, fewer_others, gauge_text, lines);
        law_export_does_not_show(fewer, fewer_others, gauge_text, lines.drop_last());
    }
}

/// A sink holds one entry at most for each metric.
pub proof fn law_one_entry_each(sink: MetricsSink)
    requires
        sink.wf(),
    ensures
        sink@.distinct(),
{
    sink.lemma_distinct();
}

/// In a sink with one entry at most for each metric, the entry of a metric is where it is.
proof fn lemma_slot(sink: SinkView, id: KeyId, i: int)
    requires
        sink.distinct(),
        sink.slot_holds(i, id),
    ensures
        sink.holds(id),
        sink.slot(id) == i,
{
    let found = sink.slot(id);
    assert(sink.slot_holds(found, id));
    if found < i {
        assert(sink.entries[found].key.id() != sink.entries[i].key.id());
    } else if i < found {
        assert(sink.entries[i].key.id() != sink.entries[found].key.id());
    }
}

/// Whether a sink carries on what another one was: all its entries are still there, in their
/// slots, with their keys, units, kinds and instruments.
pub open spec fn carries_on(before: SinkView, after: SinkView) -> bool {
    &&& after.exporting == before.exporting
    &&& before.entries.len() <= after.entries.len()
    &&& forall|i: int|
        #![trigger before.entries[i]]
        #![trigger after.entries[i]]
        0 <= i < before.entries.len() ==> {
            &&& after.entries[i].key == before.entries[i].key
            &&& after.entries[i].unit == before.entries[i].unit
            &&& after.entries[i].metric.kind() == before.entries[i].metric.kind()
            &&& after.entries[i].metric.otlp() == before.entries[i].metric.otlp()
        }
}

/// Describing, registering and publishing metrics takes no metric away, and changes no kind, unit
/// or instrument; and there never are two entries of one metric.
pub proof fn law_sink_carries_on(
    sink: SinkView,
    key: KeyView,
    kind: MetricKind,
    unit: Option<metrics::Unit>,
)
    requires
        sink.distinct(),
    ensures
        carries_on(sink, sink.described(key.name, kind, unit)),
        sink.described(key.name, kind, unit).distinct(),
        carries_on(sink, sink.registered(key, kind, unit)),
        sink.registered(key, kind, unit).distinct(),
        carries_on(sink, sink.drained()),
        sink.drained().distinct(),
{
    let bare = KeyView { name: key.name, labels: Seq::empty() };
    lemma_with_entry_distinct(sink, bare, kind, unit, None);
    lemma_with_entry_distinct(sink, key, kind, unit, sink.instrument(key, unit));
    lemma_drained_distinct(sink);
}

/// Nor does anything that is emitted: who once registered a metric can go on with it.
pub proof fn law_emissions_carry_on(sink: SinkView, id: KeyId, value: u64)
    requires
        sink.distinct(),
        sink.holds(id),
    ensures
        sink.holds_kind(id, MetricKind::Counter) ==> {
            let incremented = MetricView::Counter(sink.counter(id).incremented(value));
            let set = MetricView::Counter(sink.counter(id).set_to(value));
            &&& carries_on(sink, sink.with_metric(id, incremented))
            &&& sink.with_metric(id, incremented).holds_kind(id, MetricKind::Counter)
            &&& carries_on(sink, sink.with_metric(id, set))
            &&& sink.with_metric(id, set).holds_kind(id, MetricKind::Counter)
        },
        sink.holds_kind(id, MetricKind::Gauge) ==> {
            let updated = MetricView::Gauge(sink.gauge(id).updated(value));
            &&& carries_on(sink, sink.with_metric(id, updated))
            &&& sink.with_metric(id, updated).holds_kind(id, MetricKind::Gauge)
        },
        sink.holds_kind(id, MetricKind::Histogram) ==> {
            let recorded = MetricView::Histogram(sink.histogram(id).recorded(value));
            &&& carries_on(sink, sink.with_metric(id, recorded))
            &&& sink.with_metric(id, recorded).holds_kind(id, MetricKind::Histogram)
        },
{
    assert forall|metric: MetricView|
        metric.kind() == sink.entry(id).metric.kind() && metric.otlp()
            == sink.entry(id).metric.otlp() implies carries_on(
        sink,
        #[trigger] sink.with_metric(id, metric),
    ) && sink.with_metric(id, metric).holds_kind(id, metric.kind()) by {
        lemma_with_metric(sink, id, metric);
    }
    match sink.entry(id).metric {
        MetricView::Counter(counter) => {
            let _ = sink.with_metric(id, MetricView::Counter(counter.incremented(value)));
            let _ = sink.with_metric(id, MetricView::Counter(counter.set_to(value)));
        },
        MetricView::Gauge(gauge) => {
            let _ = sink.with_metric(id, MetricView::Gauge(gauge.updated(value)));
        },
        MetricView::Histogram(histogram) => {
            let _ = sink.with_metric(id, MetricView::Histogram(histogram.recorded(value)));
        },
    }
}

proof fn lemma_with_entry_distinct(
    sink: SinkView,
    key: KeyView,
    kind: MetricKind,
    unit: Option<metrics::Unit>,
    otlp: Option<InstrumentView>,
)
    requires
        sink.distinct(),
    ensures
        sink.with_entry(key, kind, unit, otlp).distinct(),
        sink.with_entry(key, kind, unit, otlp).holds(key.id()),
{
    let after = sink.with_entry(key, kind, unit, otlp);
    if !sink.holds(key.id()) {
        let last = sink.entries.len() as int;
        assert(after.slot_holds(last, key.id()));
        assert forall|i: int, j: int| 0 <= i < j < after.entries.len() implies #[trigger]
            after.entries[i].key.id() != #[trigger] after.entries[j].key.id() by {
            assert(!sink.slot_holds(i, key.id()));
            if j < last {
                assert(sink.entries[i].key.id() != sink.entries[j].key.id());
            }
        }
    }
}

/// Only the first registration of a metric matters: a later one, with whatever unit and order of
/// labels, changes nothing and calls for no instrument.
pub proof fn law_first_registration_counts(
    sink: SinkView,
    key: KeyView,
    kind: MetricKind,
    unit: Option<metrics::Unit>,
    later_key: KeyView,
    later_unit: Option<metrics::Unit>,
)
    requires
        sink.distinct(),
        later_key.id() == key.id(),
    ensures
        sink.registered(key, kind, unit).registered(later_key, kind, later_unit)
            == sink.registered(key, kind, unit),
        sink.registered(key, kind, unit).new_instrument(later_key, later_unit) is None,
{
    lemma_with_entry_distinct(sink, key, kind, unit, sink.instrument(key, unit));
}

/// A metric that is described before it is registered has the unit of its description, and is
/// not exported.
pub proof fn law_description_gives_unit(
    sink: SinkView,
    name: Seq<char>,
    kind: MetricKind,
    unit: Option<metrics::Unit>,
)
    requires
        sink.distinct(),
        !sink.holds((KeyView { name, labels: Seq::empty() }).id()),
    ensures
        ({
            let key = KeyView { name, labels: Seq::empty() };
            let described = sink.described(name, kind, unit);
            let registered = described.registered(key, kind, described.unit(key.id()));
            &&& described.unit(key.id()) == unit
            &&& registered == described
            &&& registered.holds_kind(key.id(), kind)
            &&& registered.unit(key.id()) == unit
            &&& registered.entry(key.id()).metric.otlp() is None
        }),
{
    let key = KeyView { name, labels: Seq::empty() };
    let described = sink.described(name, kind, unit);
    lemma_with_entry_distinct(sink, key, kind, unit, None);
    assert(described.slot_holds(sink.entries.len() as int, key.id()));
    lemma_slot(described, key.id(), sink.entries.len() as int);
}

/// A new metric is exported exactly if the sink exports and the metric's name is among those
/// that are exported.
pub proof fn law_exported_by_name(
    sink: SinkView,
    key: KeyView,
    kind: MetricKind,
    unit: Option<metrics::Unit>,
)
    requires
        sink.distinct(),
        !sink.holds(key.id()),
    ensures
        ({
            let registered = sink.registered(key, kind, unit);
            &&& registered.holds_kind(key.id(), kind)
            &&& registered.entry(key.id()).metric.otlp() is Some <==> sink.exporting
                && exported(key.name)
            &&& registered.entry(key.id()).metric.otlp() == sink.new_instrument(key, unit)
        }),
{
    let registered = sink.registered(key, kind, unit);
    lemma_with_entry_distinct(sink, key, kind, unit, sink.instrument(key, unit));
    assert(registered.slot_holds(sink.entries.len() as int, key.id()));
    lemma_slot(registered, key.id(), sink.entries.len() as int);
}

/// What is done to one metric leaves the others alone.
pub proof fn law_others_untouched(sink: SinkView, id: KeyId, metric: MetricView, other: KeyId)
    requires
        sink.distinct(),
        sink.holds(id),
        sink.holds(other),
        id != other,
    ensures
        sink.with_metric(id, metric).holds(other),
        sink.with_metric(id, metric).entry(other) == sink.entry(other),
        sink.with_metric(id, metric).holds(id),
        sink.with_metric(id, metric).entry(id) == (EntryView { metric, ..sink.entry(id) }),
{
    lemma_with_metric(sink, id, metric);
    let updated = sink.with_metric(id, metric);
    let slot = sink.slot(other);
    assert(sink.slot_holds(slot, other));
    assert(sink.slot_holds(sink.slot(id), id));
    assert(updated.slot_holds(slot, other));
    lemma_slot(updated, other, slot);
}

proof fn lemma_with_metric(sink: SinkView, id: KeyId, metric: MetricView)
    requires
        sink.distinct(),
        sink.holds(id),
    ensures
        sink.with_metric(id, metric).distinct(),
        sink.with_metric(id, metric).holds(id),
        sink.with_metric(id, metric).slot(id) == sink.slot(id),
        sink.slot_holds(sink.slot(id), id),
        sink.with_metric(id, metric).entry(id) == (EntryView { metric, ..sink.entry(id) }),
{
    let updated = sink.with_metric(id, metric);
    let slot = sink.slot(id);
    assert(sink.slot_holds(slot, id));
    assert forall|i: int, j: int| 0 <= i < j < updated.entries.len() implies #[trigger]
        updated.entries[i].key.id() != #[trigger] updated.entries[j].key.id() by {
        assert(sink.entries[i].key.id() != sink.entries[j].key.id());
    }
    assert(updated.slot_holds(slot, id));
    lemma_slot(updated, id, slot);
}

/// The sink after these steps of one of its counters, where a read is a publication.
pub open spec fn sink_after(sink: SinkView, id: KeyId, steps: Seq<CounterStep>) -> SinkView
    decreases steps.len(),
{
    if steps.len() == 0 {
        sink
    } else {
        let earlier = sink_after(sink, id, steps.drop_last());
        match steps.last() {
            CounterStep::Increment(value) => earlier.with_metric(
                id,
                MetricView::Counter(earlier.counter(id).incremented(value)),
            ),
            CounterStep::Absolute(value) => earlier.with_metric(
                id,
                MetricView::Counter(earlier.counter(id).set_to(value)),
            ),
            CounterStep::Read => earlier.drained(),
        }
    }
}

/// What goes into a counter after a publication comes out with the next: in whatever order it was
/// incremented, set and published, its line shows the sum and the number of the increments since
/// then.
pub proof fn law_counter_is_published<F: Fn(u64) -> String>(
    sink: SinkView,
    id: KeyId,
    steps: Seq<CounterStep>,
    gauge_text: F,
    lines: Seq<Seq<char>>,
)
    requires
        sink.distinct(),
        sink.holds_kind(id, MetricKind::Counter),
        0 < counted(steps) <= usize::MAX,
        is_report(sink_after(sink.drained(), id, steps).entries, gauge_text, lines),
    ensures
        lines.contains(
            line(
                sink.entry(id).key,
                counter_text(
                    (summed(steps) % 0x1_0000_0000_0000_0000) as u64,
                    counted(steps) as usize,
                ),
            ),
        ),
{
    lemma_drained_entry(sink, id);
    let drained = sink.drained();
    lemma_sink_after(drained, id, steps);
    let after = sink_after(drained, id, steps);
    law_counter_accumulates(sink.counter(id), steps);
    assert(after.slot_holds(after.slot(id), id));
    vstd::arithmetic::div_mod::lemma_small_mod(counted(steps), (usize::MAX + 1) as nat);
    law_report_covers(after.entries, gauge_text, lines, after.slot(id));
}

/// What a counter is incremented by after a publication comes out with the next: its line shows
/// the sum of the increments and their number.
pub proof fn law_increments_are_published<F: Fn(u64) -> String>(
    sink: SinkView,
    id: KeyId,
    values: Seq<u64>,
    gauge_text: F,
    lines: Seq<Seq<char>>,
)
    requires
        sink.distinct(),
        sink.holds_kind(id, MetricKind::Counter),
        0 < values.len() <= usize::MAX,
        is_report(
            sink_after(sink.drained(), id, increments(values)).entries,
            gauge_text,
            lines,
        ),
    ensures
        lines.contains(
            line(
                sink.entry(id).key,
                counter_text(
                    (sum_of(values) % 0x1_0000_0000_0000_0000) as u64,
                    values.len() as usize,
                ),
            ),
        ),
{
    law_counting_starts_over(Seq::empty(), 0, values);
    law_counter_is_published(sink, id, increments(values), gauge_text, lines);
}

/// Reading all metrics leaves one entry at most for each.
proof fn lemma_drained_distinct(sink: SinkView)
    requires
        sink.distinct(),
    ensures
        sink.drained().distinct(),
{
    let drained = sink.drained();
    assert forall|i: int, j: int| 0 <= i < j < drained.entries.len() implies #[trigger]
        drained.entries[i].key.id() != #[trigger] drained.entries[j].key.id() by {
        assert(sink.entries[i].key.id() != sink.entries[j].key.id());
    }
}

proof fn lemma_drained_entry(sink: SinkView, id: KeyId)
    requires
        sink.distinct(),
        sink.holds(id),
    ensures
        sink.drained().distinct(),
        sink.drained().holds(id),
        sink.drained().slot(id) == sink.slot(id),
        sink.drained().entry(id) == sink.entry(id).drained(),
{
    let drained = sink.drained();
    let slot = sink.slot(id);
    assert(sink.slot_holds(slot, id));
    lemma_drained_distinct(sink);
    assert(drained.slot_holds(slot, id));
    lemma_slot(drained, id, slot);
}

proof fn lemma_sink_after(sink: SinkView, id: KeyId, steps: Seq<CounterStep>)
    requires
        sink.distinct(),
        sink.holds_kind(id, MetricKind::Counter),
    ensures
        ({
            let after = sink_after(sink, id, steps);
            &&& after.distinct()
            &&& after.holds(id)
            &&& after.entry(id) == (EntryView {
                metric: MetricView::Counter(counter_after(sink.counter(id), steps)),
                ..sink.entry(id)
            })
        }),
    decreases steps.len(),
{
    if steps.len() != 0 {
        lemma_sink_after(sink, id, steps.drop_last());
        let earlier = sink_after(sink, id, steps.drop_last());
        match steps.last() {
            CounterStep::Increment(value) => lemma_with_metric(
                earlier,
                id,
                MetricView::Counter(earlier.counter(id).incremented(value)),
            ),
            CounterStep::Absolute(value) => lemma_with_metric(
                earlier,
                id,
                MetricView::Counter(earlier.counter(id).set_to(value)),
            ),
            CounterStep::Read => lemma_drained_entry(earlier, id),
        }
    }
}

/// A gauge that was updated is published, with its value.
pub proof fn law_gauge_is_published<F: Fn(u64) -> String>(
    sink: SinkView,
    id: KeyId,
    bits: u64,
    gauge_text: F,
    lines: Seq<Seq<char>>,
)
    requires
        sink.distinct(),
        sink.holds_kind(id, MetricKind::Gauge),
        is_report(
            sink.with_metric(id, MetricView::Gauge(sink.gauge(id).updated(bits))).entries,
            gauge_text,
            lines,
        ),
    ensures
        exists|written: String|
            call_ensures(gauge_text, (bits,), written) && lines.contains(
                line(sink.entry(id).key, #[trigger] written@),
            ),
{
    let metric = MetricView::Gauge(sink.gauge(id).updated(bits));
    let after = sink.with_metric(id, metric);
    lemma_with_metric(sink, id, metric);
    assert(after.slot_holds(after.slot(id), id));
    law_report_covers(after.entries, gauge_text, lines, after.slot(id));
}

/// The sink after these values were recorded in one of its histograms.
pub open spec fn histogram_recorded_all(sink: SinkView, id: KeyId, values: Seq<u64>) -> SinkView
    decreases values.len(),
{
    if values.len() == 0 {
        sink
    } else {
        let earlier = histogram_recorded_all(sink, id, values.drop_last());
        earlier.with_metric(
            id,
            MetricView::Histogram(earlier.histogram(id).recorded(values.last())),
        )
    }
}

/// What goes into a histogram after a publication comes out with the next: its line is that of
/// the recorded values.
pub proof fn law_records_are_published<F: Fn(u64) -> String>(
    sink: SinkView,
    id: KeyId,
    values: Seq<u64>,
    gauge_text: F,
    lines: Seq<Seq<char>>,
)
    requires
        sink.distinct(),
        sink.holds_kind(id, MetricKind::Histogram),
        values.len() > 0,
        is_report(
            histogram_recorded_all(sink.drained(), id, values).entries,
            gauge_text,
            lines,
        ),
    ensures
        lines.contains(
            line(sink.entry(id).key, histogram_text(values.to_multiset())),
        ),
{
    broadcast use vstd::seq_lib::group_to_multiset_ensures;

    lemma_drained_entry(sink, id);
    let drained = sink.drained();
    lemma_histogram_recorded_all(drained, id, values);
    let after = histogram_recorded_all(drained, id, values);
    law_histogram_accumulates(sink.histogram(id), values);
    assert(after.slot_holds(after.slot(id), id));
    assert(values.to_multiset().len() == values.len());
    law_report_covers(after.entries, gauge_text, lines, after.slot(id));
}

proof fn lemma_histogram_recorded_all(sink: SinkView, id: KeyId, values: Seq<u64>)
    requires
        sink.distinct(),
        sink.holds_kind(id, MetricKind::Histogram),
    ensures
        ({
            let after = histogram_recorded_all(sink, id, values);
            &&& after.distinct()
            &&& after.holds(id)
            &&& after.entry(id) == (EntryView {
                metric: MetricView::Histogram(recorded_all(sink.histogram(id), values)),
                ..sink.entry(id)
            })
        }),
    decreases values.len(),
{
    if values.len() != 0 {
        lemma_histogram_recorded_all(sink, id, values.drop_last());
        let earlier = histogram_recorded_all(sink, id, values.drop_last());
        lemma_with_metric(
            earlier,
            id,
            MetricView::Histogram(earlier.histogram(id).recorded(values.last())),
        );
    }
}

/// Whether no two labels have a common label key.
pub open spec fn label_keys_distinct(labels: Seq<LabelView>) -> bool {
    forall|i: int, j: int|
        0 <= i < j < labels.len() ==> (#[trigger] labels[i]).0 != (#[trigger] labels[j]).0
}

/// The order of labels does not matter where no two labels have a common label key, nor where
/// there are two labels at most.
pub proof fn law_label_order_is_free(key: KeyView, other: KeyView)
    requires
        key.name == other.name,
        key.labels.to_multiset() == other.labels.to_multiset(),
        key.labels.len() <= 2 || label_keys_distinct(key.labels),
    ensures
        key.id() == other.id(),
{
    broadcast use vstd::seq_lib::group_to_multiset_ensures;

    key.labels.to_multiset_ensures();
    other.labels.to_multiset_ensures();
    if key.labels.len() >= 3 {
        lemma_reordered_label_keys(key.labels, other.labels);
        assert forall|label_key: Seq<char>| #[trigger]
            key.run(label_key) == other.run(label_key) by {
            if exists|i: int| 0 <= i < key.labels.len() && key.labels[i].0 == label_key {
                let i = choose|i: int| 0 <= i < key.labels.len() && key.labels[i].0 == label_key;
                assert(key.labels.to_multiset().count(key.labels[i]) > 0);
                assert(other.labels.contains(key.labels[i]));
                let j = choose|j: int|
                    0 <= j < other.labels.len() && other.labels[j] == key.labels[i];
                lemma_run_of_one(key, label_key, i);
                lemma_run_of_one(other, label_key, j);
            } else {
                assert forall|j: int| 0 <= j < other.labels.len() implies (
                #[trigger] other.labels[j]).0 != label_key by {
                    assert(other.labels.to_multiset().count(other.labels[j]) > 0);
                    assert(key.labels.contains(other.labels[j]));
                }
                lemma_run_of_none(key, label_key);
                lemma_run_of_none(other, label_key);
            }
        }
    }
    let (runs, other_runs) = (key.id().runs, other.id().runs);
    assert forall|label_key: Seq<char>| #[trigger] runs(label_key) == other_runs(label_key) by {
        assert(key.labels.len() >= 3 ==> key.run(label_key) == other.run(label_key));
    }
    assert(runs =~= other_runs);
}

/// Labels with distinct label keys have distinct label keys in any order.
proof fn lemma_reordered_label_keys(labels: Seq<LabelView>, reordered: Seq<LabelView>)
    requires
        label_keys_distinct(labels),
        labels.to_multiset() == reordered.to_multiset(),
    ensures
        label_keys_distinct(reordered),
{
    broadcast use vstd::seq_lib::group_to_multiset_ensures;

    assert(labels.no_duplicates());
    labels.lemma_multiset_has_no_duplicates();
    reordered.lemma_multiset_has_no_duplicates_conv();
    assert forall|i: int, j: int| 0 <= i < j < reordered.len() implies (
    #[trigger] reordered[i]).0 != (#[trigger] reordered[j]).0 by {
        assert(reordered.to_multiset().count(reordered[i]) > 0);
        assert(reordered.to_multiset().count(reordered[j]) > 0);
        assert(labels.contains(reordered[i]));
        assert(labels.contains(reordered[j]));
        let p = choose|p: int| 0 <= p < labels.len() && labels[p] == reordered[i];
        let q = choose|q: int| 0 <= q < labels.len() && labels[q] == reordered[j];
        assert(labels[p] != labels[q]);
        if p < q {
            assert(labels[p].0 != labels[q].0);
        } else {
            assert(labels[q].0 != labels[p].0);
        }
    }
}

proof fn lemma_run_of_none(key: KeyView, label_key: Seq<char>)
    requires
        forall|i: int| 0 <= i < key.labels.len() ==> (#[trigger] key.labels[i]).0 != label_key,
    ensures
        key.run(label_key) == Seq::<LabelView>::empty(),
    decreases key.labels.len(),
{
    reveal(Seq::filter);
    if key.labels.len() != 0 {
        let fewer = KeyView { labels: key.labels.drop_last(), ..key };
        assert(key.labels[key.labels.len() - 1].0 != label_key);
        lemma_run_of_none(fewer, label_key);
    }
}

proof fn lemma_run_of_one(key: KeyView, label_key: Seq<char>, i: int)
    requires
        label_keys_distinct(key.labels),
        0 <= i < key.labels.len(),
        key.labels[i].0 == label_key,
    ensures
        key.run(label_key) == seq![key.labels[i]],
    decreases key.labels.len(),
{
    reveal(Seq::filter);
    let fewer = KeyView { labels: key.labels.drop_last(), ..key };
    let last = key.labels.len() - 1;
    if i == last {
        assert forall|j: int| 0 <= j < fewer.labels.len() implies (
        #[trigger] fewer.labels[j]).0 != label_key by {
            assert(key.labels[j].0 != key.labels[i].0);
        }
        lemma_run_of_none(fewer, label_key);
        assert(key.run(label_key) =~= seq![key.labels[i]]);
    } else {
        assert(key.labels[i].0 != key.labels[last].0);
        assert(label_keys_distinct(fewer.labels));
        lemma_run_of_one(fewer, label_key, i);
    }
}

/// Metrics with different names are different, and so are those with different labels: a key
/// with labels never stands for the metric without.
pub proof fn law_names_and_labels_tell_apart(key: KeyView, other: KeyView)
    requires
        key.name != other.name || key.labels.to_multiset() != other.labels.to_multiset(),
    ensures
        key.id() != other.id(),
{
}

} // verus!

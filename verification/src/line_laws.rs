//! Laws of what is published: what a reader of the lines can tell from them.

use vstd::multiset::Multiset;
use vstd::prelude::*;

use crate::data::{counter_text, CounterView, GaugeView, HistogramView, MetricView};
use crate::hdr::{
    at_or_below, below, bucket_high, bucket_low, bucket_of, greatest, is_level, least, max_level,
    mean_text, min_level, quantile_level,
};
use crate::key::{joined, KeyView, LabelView};
use crate::laws::{
    law_counted_together, law_extremes_exist, law_levels_enclose_values,
    law_percentiles_keep_figures, law_two_significant_figures,
};
use crate::sink::{is_report, line, EntryView};
use crate::text::{ascending, decimal, text_le, texts};

verus! {

/// Whether all characters are decimal digits.
pub open spec fn all_digits(text: Seq<char>) -> bool {
    forall|i: int| 0 <= i < text.len() ==> '0' <= #[trigger] text[i] <= '9'
}

/// The number that a row of decimal digits stands for.
pub open spec fn number_in(text: Seq<char>) -> int
    decreases text.len(),
{
    if text.len() == 0 {
        0
    } else {
        10 * number_in(text.drop_last()) + (text.last() as int - '0' as int)
    }
}

/// Whether the text is how `n` is written: a row of digits that stands for it, and that does not
/// begin with a zero unless that is all.
pub open spec fn writes(text: Seq<char>, n: nat) -> bool {
    &&& text.len() > 0
    &&& all_digits(text)
    &&& number_in(text) == n
    &&& text[0] == '0' ==> text.len() == 1
}

/// Numbers are written in decimal digits, and can be read back.
pub proof fn law_decimal_reads_back(n: nat)
    ensures
        writes(decimal(n), n),
        n > 0 ==> decimal(n)[0] != '0',
    decreases n,
{
    let text = decimal(n);
    if n >= 10 {
        law_decimal_reads_back(n / 10);
        assert(text.drop_last() =~= decimal(n / 10));
    } else {
        assert(text.drop_last() =~= Seq::empty());
        assert(number_in(text.drop_last()) == 0);
    }
}

/// Rows of digits that are followed by something else, or by nothing, can be told from what
/// follows.
proof fn lemma_digits_end(a: Seq<char>, after_a: Seq<char>, b: Seq<char>, after_b: Seq<char>)
    requires
        all_digits(a),
        all_digits(b),
        after_a.len() > 0 ==> !('0' <= after_a[0] <= '9'),
        after_b.len() > 0 ==> !('0' <= after_b[0] <= '9'),
        a + after_a == b + after_b,
    ensures
        a == b,
        after_a == after_b,
{
    let (left, right) = (a + after_a, b + after_b);
    assert(left.len() == right.len());
    if a.len() < b.len() {
        assert(left[a.len() as int] == after_a[0]);
        assert(right[a.len() as int] == b[a.len() as int]);
    } else if b.len() < a.len() {
        assert(right[b.len() as int] == after_b[0]);
        assert(left[b.len() as int] == a[b.len() as int]);
    }
    assert forall|i: int| 0 <= i < a.len() implies a[i] == b[i] by {
        assert(left[i] == a[i]);
        assert(right[i] == b[i]);
    }
    assert(a =~= b);
    assert forall|i: int| 0 <= i < after_a.len() implies after_a[i] == after_b[i] by {
        assert(left[a.len() + i] == after_a[i]);
        assert(right[a.len() + i] == after_b[i]);
    }
    assert(after_a =~= after_b);
}

/// Whether the text tells of a counter: it begins with the sum. That is all after one increment;
/// else there follows, in brackets, the number of increments.
pub open spec fn tells_counter(text: Seq<char>, sum: u64, n: usize) -> bool {
    exists|digits: Seq<char>, count: Seq<char>| #[trigger]
        writes(digits, sum as nat) && #[trigger] writes(count, n as nat) && text == if n == 1 {
            digits
        } else {
            digits + " (n="@ + count + ")"@
        }
}

/// The text of a counter is its sum, followed by the number of increments where that is not one.
pub proof fn law_counter_text_tells<F: Fn(u64) -> String>(
    counter: CounterView,
    gauge_text: F,
    text: Seq<char>,
)
    ensures
        MetricView::Counter(counter).reads_as(gauge_text, text) ==> tells_counter(
            text,
            counter.sum,
            counter.n,
        ),
        tells_counter(counter_text(counter.sum, counter.n), counter.sum, counter.n),
{
    law_decimal_reads_back(counter.sum as nat);
    law_decimal_reads_back(counter.n as nat);
    assert(writes(decimal(counter.sum as nat), counter.sum as nat));
    assert(writes(decimal(counter.n as nat), counter.n as nat));
}

/// From the text of a counter its sum and its number of increments can be read back: counters
/// with the same text have the same.
pub proof fn law_counter_text_reads_back<F: Fn(u64) -> String>(
    counter: CounterView,
    other: CounterView,
    gauge_text: F,
    text: Seq<char>,
)
    requires
        MetricView::Counter(counter).reads_as(gauge_text, text),
        MetricView::Counter(other).reads_as(gauge_text, text),
    ensures
        counter.sum == other.sum,
        counter.n == other.n,
{
    reveal_strlit(" (n=");
    reveal_strlit(")");
    law_counter_text_tells(counter, gauge_text, text);
    law_counter_text_tells(other, gauge_text, text);
    let (digits, count) = choose|digits: Seq<char>, count: Seq<char>| #[trigger]
        writes(digits, counter.sum as nat) && #[trigger] writes(count, counter.n as nat) && text
            == if counter.n == 1 {
            digits
        } else {
            digits + " (n="@ + count + ")"@
        };
    let (other_digits, other_count) = choose|digits: Seq<char>, count: Seq<char>| #[trigger]
        writes(digits, other.sum as nat) && #[trigger] writes(count, other.n as nat) && text
            == if other.n == 1 {
            digits
        } else {
            digits + " (n="@ + count + ")"@
        };
    let rest = if counter.n == 1 {
        Seq::empty()
    } else {
        " (n="@ + (count + ")"@)
    };
    let other_rest = if other.n == 1 {
        Seq::empty()
    } else {
        " (n="@ + (other_count + ")"@)
    };
    assert(digits + rest =~= text);
    assert(other_digits + other_rest =~= text);
    lemma_digits_end(digits, rest, other_digits, other_rest);
    if counter.n != 1 && other.n != 1 {
        assert(rest.skip(4) =~= count + ")"@);
        assert(other_rest.skip(4) =~= other_count + ")"@);
        lemma_digits_end(count, ")"@, other_count, ")"@);
    }
}

/// The text of a gauge is what the value with its bits is written as.
pub proof fn law_gauge_text_tells<F: Fn(u64) -> String>(
    gauge: GaugeView,
    gauge_text: F,
    text: Seq<char>,
)
    requires
        MetricView::Gauge(gauge).reads_as(gauge_text, text),
    ensures
        exists|written: String|
            call_ensures(gauge_text, (gauge.bits,), written) && #[trigger] written@ == text,
{
}

/// The numbers in the text of a histogram.
pub struct Figures {
    pub min: u64,
    pub p10: u64,
    pub p50: u64,
    pub p90: u64,
    pub p99: u64,
    pub p999: u64,
    pub max: u64,
}

/// Whether `part` out of `whole` of the values are reached at `level`: it is a value's level,
/// as many of the values lie in its bucket or in lower ones, and fewer in the lower ones alone.
pub open spec fn reached(values: Multiset<u64>, level: u64, part: nat, whole: nat) -> bool {
    &&& exists|value: u64| #[trigger]
        values.contains(value) && bucket_low(level as nat) == bucket_low(value as nat) && (level
            == value || -value < 100 * (level - value) < value)
    &&& part * values.len() <= whole * values.filter(
        |value: u64| value <= bucket_high(level as nat),
    ).len()
    &&& whole * values.filter(|value: u64| value < bucket_low(level as nat)).len() < part
        * values.len()
}

/// Whether `level` is where the least of the values is counted.
pub open spec fn lowest_told(values: Multiset<u64>, level: u64) -> bool {
    exists|value: u64| #[trigger]
        values.contains(value) && (forall|other: u64| #[trigger]
            values.contains(other) ==> value <= other) && level == if value == u64::MAX {
            u64::MAX as nat
        } else {
            bucket_low(value as nat)
        }
}

/// Whether `level` is where the greatest of the values is counted.
pub open spec fn highest_told(values: Multiset<u64>, level: u64) -> bool {
    exists|value: u64| #[trigger]
        values.contains(value) && (forall|other: u64| #[trigger]
            values.contains(other) ==> other <= value) && level == if value < u64::MAX
            && bucket_high(value as nat) == u64::MAX {
            (u64::MAX - 1) as nat
        } else {
            bucket_high(value as nat)
        }
}

/// Whether the text tells of recorded values, by these figures: their number, the least, five
/// percentiles, the mean with two decimals among them, and the greatest. Each percentile is the
/// quantile that its label names, and stands where its share of the values is reached.
pub open spec fn tells_values(text: Seq<char>, values: Multiset<u64>, figures: Figures) -> bool {
    &&& text == "n="@ + decimal(values.len()) + ": min="@ + decimal(figures.min as nat) + " p10="@
        + decimal(figures.p10 as nat) + " p50="@ + decimal(figures.p50 as nat) + " avg="@
        + mean_text(values, 2) + " p90="@ + decimal(figures.p90 as nat) + " p99="@ + decimal(
        figures.p99 as nat,
    ) + " p99.9="@ + decimal(figures.p999 as nat) + " max="@ + decimal(figures.max as nat)
    &&& lowest_told(values, figures.min)
    &&& highest_told(values, figures.max)
    &&& figures.p10 == quantile_level(values, "0.1"@)
    &&& figures.p50 == quantile_level(values, "0.5"@)
    &&& figures.p90 == quantile_level(values, "0.9"@)
    &&& figures.p99 == quantile_level(values, "0.99"@)
    &&& figures.p999 == quantile_level(values, "0.999"@)
    &&& values.len() <= 0x100_0000_0000 ==> {
        &&& reached(values, figures.p10, 10, 100)
        &&& reached(values, figures.p50, 50, 100)
        &&& reached(values, figures.p90, 90, 100)
        &&& reached(values, figures.p99, 99, 100)
        &&& reached(values, figures.p999, 999, 1000)
    }
}

/// The text of a histogram gives the number of its values, the least and the greatest of them,
/// their mean, and percentiles that have their rank among the values.
pub proof fn law_histogram_text_tells<F: Fn(u64) -> String>(
    histogram: HistogramView,
    gauge_text: F,
    text: Seq<char>,
)
    requires
        histogram.values.len() > 0,
        MetricView::Histogram(histogram).reads_as(gauge_text, text),
    ensures
        exists|figures: Figures| tells_values(text, histogram.values, figures),
{
    let values = histogram.values;
    law_extremes_exist(values);
    let (low, high) = (least(values), greatest(values));
    law_levels_enclose_values(values, low);
    law_levels_enclose_values(values, high);
    law_two_significant_figures(high as nat);
    let figures = Figures {
        min: min_level(values) as u64,
        p10: quantile_level(values, "0.1"@),
        p50: quantile_level(values, "0.5"@),
        p90: quantile_level(values, "0.9"@),
        p99: quantile_level(values, "0.99"@),
        p999: quantile_level(values, "0.999"@),
        max: max_level(values) as u64,
    };
    assert(values.contains(low) && values.contains(high));
    assert(lowest_told(values, figures.min));
    assert(highest_told(values, figures.max));
    if values.len() <= 0x100_0000_0000 {
        lemma_reached(values, figures.p10, 1, 10);
        lemma_reached(values, figures.p50, 5, 10);
        lemma_reached(values, figures.p90, 9, 10);
        lemma_reached(values, figures.p99, 99, 100);
        lemma_reached(values, figures.p999, 999, 1000);
    }
    assert(tells_values(text, values, figures));
}

proof fn lemma_reached(values: Multiset<u64>, level: u64, part: nat, whole: nat)
    requires
        is_level(values, level),
        part * values.len() <= whole * at_or_below(values, level),
        whole * below(values, level) < part * values.len(),
    ensures
        reached(values, level, part, whole),
{
    law_percentiles_keep_figures(values, level);
}

/// Where a share of the values is reached is told by the values and the share alone: two levels
/// for one share are counted together.
pub proof fn law_percentile_is_one_bucket(
    values: Multiset<u64>,
    level: u64,
    other: u64,
    part: nat,
    whole: nat,
)
    requires
        reached(values, level, part, whole),
        reached(values, other, part, whole),
    ensures
        bucket_low(level as nat) == bucket_low(other as nat),
{
    lemma_reached_no_lower(values, level, other, part, whole);
    lemma_reached_no_lower(values, other, level, part, whole);
}

proof fn lemma_reached_no_lower(
    values: Multiset<u64>,
    low: u64,
    high: u64,
    part: nat,
    whole: nat,
)
    requires
        reached(values, low, part, whole),
        reached(values, high, part, whole),
    ensures
        bucket_low(low as nat) >= bucket_low(high as nat),
{
    broadcast use vstd::multiset::group_multiset_axioms;

    if bucket_low(low as nat) < bucket_low(high as nat) {
        law_two_significant_figures(low as nat);
        law_two_significant_figures(high as nat);
        law_counted_together(low as nat, bucket_low(high as nat));
        law_counted_together(high as nat, bucket_low(high as nat));
        let up_to_low = values.filter(|value: u64| value <= bucket_high(low as nat));
        let below_high = values.filter(|value: u64| value < bucket_low(high as nat));
        assert(up_to_low.subset_of(below_high));
        assert(below_high =~= up_to_low.add(below_high.sub(up_to_low)));
        assert(whole * up_to_low.len() <= whole * below_high.len()) by (nonlinear_arith)
            requires
                up_to_low.len() <= below_high.len(),
        ;
    }
}

/// Values are counted together in units of a power of two: each by itself below 256, and from
/// there on in the unit of which there are 128 or more, but fewer than 256, in the value.
pub proof fn law_bucket_units(value: nat)
    ensures
        exists|k: nat|
            {
                let unit = #[trigger] vstd::arithmetic::power2::pow2(k);
                &&& bucket_low(value) == unit * (value / unit)
                &&& bucket_high(value) == unit * (value / unit) + unit - 1
                &&& value < 256 ==> k == 0
                &&& value >= 256 ==> 128 <= value / unit < 256
            },
    decreases value,
{
    vstd::arithmetic::power2::lemma2_to64();
    if value >= 256 {
        law_bucket_units(value / 2);
        let half = value / 2;
        let k = choose|k: nat|
            {
                let unit = #[trigger] vstd::arithmetic::power2::pow2(k);
                &&& bucket_low(half) == unit * (half / unit)
                &&& bucket_high(half) == unit * (half / unit) + unit - 1
                &&& half < 256 ==> k == 0
                &&& half >= 256 ==> 128 <= half / unit < 256
            };
        let unit = vstd::arithmetic::power2::pow2(k);
        let next = vstd::arithmetic::power2::pow2((k + 1) as nat);
        vstd::arithmetic::power2::lemma_pow2_pos(k);
        vstd::arithmetic::power2::lemma_pow2_unfold((k + 1) as nat);
        vstd::arithmetic::div_mod::lemma_div_denominator(value as int, 2, unit as int);
        assert(next == 2 * unit);
        assert(value / next == half / unit);
        let parts = half / unit;
        assert(2 * (unit * parts) == next * parts) by (nonlinear_arith)
            requires
                next == 2 * unit,
        ;
    } else {
        assert(vstd::arithmetic::power2::pow2(0) == 1);
        assert(value / 1 == value);
    }
}

/// The values that are counted at a value are those recorded between the two levels of its
/// bucket, each as often as it was recorded.
pub proof fn law_counted_at(values: Multiset<u64>, value: u64, other: u64)
    ensures
        bucket_of(values, value).count(other) == if bucket_low(value as nat) <= other
            <= bucket_high(value as nat) {
            values.count(other)
        } else {
            0
        },
{
    broadcast use vstd::multiset::group_multiset_axioms;

    law_counted_together(value as nat, other as nat);
}

/// The labels as text, from the first to the last: each as `key=value`, with commas in between.
pub open spec fn listed(labels: Seq<LabelView>) -> Seq<char>
    decreases labels.len(),
{
    if labels.len() == 0 {
        Seq::empty()
    } else if labels.len() == 1 {
        labels[0].0 + "="@ + labels[0].1
    } else {
        labels[0].0 + "="@ + labels[0].1 + ","@ + listed(labels.drop_first())
    }
}

/// A line begins with the name of the metric, and with its labels in square brackets where it has
/// any. Then come a colon and a blank, and the text of the metric.
pub proof fn law_line_names_metric(key: KeyView, text: Seq<char>)
    ensures
        key.labels.len() == 0 ==> line(key, text) == key.name + ": "@ + text,
        key.labels.len() != 0 ==> line(key, text) == key.name + "["@ + listed(key.labels) + "]: "@
            + text,
{
    reveal_strlit("]");
    reveal_strlit(": ");
    reveal_strlit("]: ");
    lemma_joined_is_listed(key.labels);
    assert("]: "@ =~= "]"@ + ": "@);
    if key.labels.len() != 0 {
        assert(line(key, text) =~= key.name + "["@ + listed(key.labels) + "]: "@ + text);
    }
}

proof fn lemma_joined_is_listed(labels: Seq<LabelView>)
    ensures
        joined(labels) == listed(labels),
    decreases labels.len(),
{
    if labels.len() == 2 {
        let first = labels.drop_last();
        let second = labels.drop_first();
        assert(joined(first) == first.last().0 + "="@ + first.last().1);
        assert(listed(second) == second[0].0 + "="@ + second[0].1);
        assert(joined(labels) =~= listed(labels));
    } else if labels.len() > 2 {
        lemma_joined_is_listed(labels.drop_last());
        lemma_joined_is_listed(labels.drop_first());
        lemma_joined_is_listed(labels.drop_last().drop_first());
        assert(labels.drop_last().drop_first() =~= labels.drop_first().drop_last());
        let first = labels[0].0 + "="@ + labels[0].1;
        let last = labels.last().0 + "="@ + labels.last().1;
        let middle = listed(labels.drop_last().drop_first());
        assert(joined(labels) == joined(labels.drop_last()) + ","@ + last);
        assert(listed(labels.drop_last()) == first + ","@ + middle);
        assert(joined(labels.drop_first()) == joined(labels.drop_first().drop_last()) + ","@ + last);
        assert(listed(labels) == first + ","@ + listed(labels.drop_first()));
        assert(joined(labels) =~= listed(labels));
    }
}

/// Whether a metric has had values since it was last read.
pub open spec fn has_news(metric: MetricView) -> bool {
    match metric {
        MetricView::Counter(counter) => counter.n != 0,
        MetricView::Gauge(gauge) => gauge.changed,
        MetricView::Histogram(histogram) => histogram.values.len() != 0,
    }
}

/// Whether `told` is a line that tells of an entry: its name and labels, a colon, and what its
/// metric holds.
pub open spec fn tells<F: Fn(u64) -> String>(
    entry: EntryView,
    gauge_text: F,
    told: Seq<char>,
) -> bool {
    exists|text: Seq<char>|
        (#[trigger] tells_metric(entry.metric, gauge_text, text)) && told == entry.key.name + (
        if entry.key.labels.len() == 0 {
            Seq::empty()
        } else {
            "["@ + listed(entry.key.labels) + "]"@
        }) + ": "@ + text
}

/// Whether the text tells what a metric holds.
pub open spec fn tells_metric<F: Fn(u64) -> String>(
    metric: MetricView,
    gauge_text: F,
    text: Seq<char>,
) -> bool {
    match metric {
        MetricView::Counter(counter) => tells_counter(text, counter.sum, counter.n),
        MetricView::Gauge(gauge) => exists|written: String|
            call_ensures(gauge_text, (gauge.bits,), written) && #[trigger] written@ == text,
        MetricView::Histogram(histogram) => exists|figures: Figures|
            tells_values(text, histogram.values, figures),
    }
}

/// A report tells of the entries whose metrics have had values, of each in one line, in their
/// order, and of nothing else; and each line tells what the metric holds.
pub proof fn law_report_tells_all<F: Fn(u64) -> String>(
    entries: Seq<EntryView>,
    gauge_text: F,
    lines: Seq<Seq<char>>,
)
    requires
        is_report(entries, gauge_text, lines),
    ensures
        ({
            let news = entries.filter(|entry: EntryView| has_news(entry.metric));
            &&& lines.len() == news.len()
            &&& forall|i: int| 0 <= i < lines.len() ==> tells(news[i], gauge_text, #[trigger] lines[i])
        }),
    decreases entries.len(),
{
    reveal(Seq::filter);
    let chosen = |entry: EntryView| has_news(entry.metric);
    let news = entries.filter(chosen);
    if entries.len() != 0 {
        let last = entries.last();
        let fewer = entries.drop_last();
        assert(last.metric.quiet() == !has_news(last.metric));
        if last.metric.quiet() {
            law_report_tells_all(fewer, gauge_text, lines);
            assert(news =~= fewer.filter(chosen));
        } else {
            law_report_tells_all(fewer, gauge_text, lines.drop_last());
            assert(news =~= fewer.filter(chosen).push(last));
            let text = choose|text: Seq<char>|
                last.metric.reads_as(gauge_text, text) && lines.last() == #[trigger] line(
                    last.key,
                    text,
                );
            lemma_tells(last, gauge_text, text);
            assert forall|i: int| 0 <= i < lines.len() implies tells(
                news[i],
                gauge_text,
                #[trigger] lines[i],
            ) by {
                if i < lines.len() - 1 {
                    assert(lines.drop_last()[i] == lines[i]);
                    assert(news[i] == fewer.filter(chosen)[i]);
                } else {
                    assert(lines[i] == lines.last());
                    assert(news[i] == last);
                }
            }
        }
    }
}

proof fn lemma_tells<F: Fn(u64) -> String>(entry: EntryView, gauge_text: F, text: Seq<char>)
    requires
        has_news(entry.metric),
        entry.metric.reads_as(gauge_text, text),
    ensures
        tells(entry, gauge_text, line(entry.key, text)),
{
    match entry.metric {
        MetricView::Counter(counter) => law_counter_text_tells(counter, gauge_text, text),
        MetricView::Gauge(gauge) => law_gauge_text_tells(gauge, gauge_text, text),
        MetricView::Histogram(histogram) => law_histogram_text_tells(histogram, gauge_text, text),
    }
    assert(tells_metric(entry.metric, gauge_text, text));
    lemma_joined_is_listed(entry.key.labels);
    let labels = if entry.key.labels.len() == 0 {
        Seq::empty()
    } else {
        "["@ + listed(entry.key.labels) + "]"@
    };
    assert(line(entry.key, text) =~= entry.key.name + labels + ": "@ + text);
}

/// One text comes before another exactly if the other goes on where it ends, or has the higher
/// character where they first differ.
pub proof fn law_order_of_texts(a: Seq<char>, b: Seq<char>)
    ensures
        text_le(a, b) <==> exists|i: int| #[trigger] parts_at(a, b, i),
    decreases a.len(),
{
    if a.len() == 0 {
        assert(parts_at(a, b, 0));
    } else if b.len() != 0 {
        let (rest_a, rest_b) = (a.drop_first(), b.drop_first());
        law_order_of_texts(rest_a, rest_b);
        if a[0] == b[0] {
            if text_le(a, b) {
                let i = choose|i: int| #[trigger] parts_at(rest_a, rest_b, i);
                assert forall|j: int| 0 <= j < i + 1 implies #[trigger] a[j] == b[j] by {
                    if j > 0 {
                        assert(rest_a[j - 1] == rest_b[j - 1]);
                    }
                }
                assert(parts_at(a, b, i + 1));
            }
            if exists|i: int| #[trigger] parts_at(a, b, i) {
                let i = choose|i: int| #[trigger] parts_at(a, b, i);
                assert(i > 0);
                assert forall|j: int| 0 <= j < i - 1 implies #[trigger] rest_a[j] == rest_b[j] by {
                    assert(a[j + 1] == b[j + 1]);
                }
                assert(parts_at(rest_a, rest_b, i - 1));
            }
        } else {
            if a[0] < b[0] {
                assert(parts_at(a, b, 0));
            }
            if exists|i: int| #[trigger] parts_at(a, b, i) {
                let i = choose|i: int| #[trigger] parts_at(a, b, i);
                if i > 0 {
                    assert(a[0] == b[0]);
                }
            }
        }
    }
}

/// Whether the texts are the same up to `i`, and there the first one ends or has the lower
/// character.
pub open spec fn parts_at(a: Seq<char>, b: Seq<char>, i: int) -> bool {
    &&& 0 <= i <= a.len()
    &&& i <= b.len()
    &&& forall|j: int| 0 <= j < i ==> #[trigger] a[j] == b[j]
    &&& i == a.len() || (i < b.len() && a[i] < b[i])
}

/// In published lines, no line is followed by one that comes before it.
pub proof fn law_published_in_order(lines: Seq<String>, i: int, j: int)
    requires
        ascending(texts(lines)),
        0 <= i < j < lines.len(),
    ensures
        texts(lines).len() == lines.len(),
        texts(lines)[i] == lines[i]@,
        exists|k: int| #[trigger] parts_at(lines[i]@, lines[j]@, k),
{
    law_order_of_texts(lines[i]@, lines[j]@);
    assert(text_le(texts(lines)[i], texts(lines)[j]));
}

} // verus!

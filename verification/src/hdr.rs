//! The histograms of the crate `hdrhistogram`.

use vstd::multiset::Multiset;
use vstd::prelude::*;

verus! {

/// A histogram of the crate `hdrhistogram`, with counts of 64 bits.
#[verifier::external_body]
#[derive(Debug)]
pub struct HdrHistogram {
    inner: hdrhistogram::Histogram<u64>,
}

/// The error of the crate `hdrhistogram` for a histogram that cannot be made.
#[verifier::external_type_specification]
#[verifier::external_body]
pub struct ExCreationError(hdrhistogram::CreationError);

/// The error of the crate `hdrhistogram` for a value that cannot be recorded.
#[verifier::external_type_specification]
#[verifier::external_body]
pub struct ExRecordError(hdrhistogram::RecordError);

/// The values recorded in a histogram since it was made or last reset.
pub uninterp spec fn recorded_values(histogram: HdrHistogram) -> Multiset<u64>;

/// The significant figures that a resizing histogram was made with.
pub uninterp spec fn significant_figures(histogram: HdrHistogram) -> u8;

/// The level that `hdrhistogram::Histogram::value_at_quantile` gives, at two significant figures,
/// for these recorded values and the quantile with this decimal notation.
pub uninterp spec fn quantile_level(values: Multiset<u64>, quantile: Seq<char>) -> u64;

/// The mean that `hdrhistogram::Histogram::mean` gives, at two significant figures, for these
/// recorded values, written with so many decimals.
pub uninterp spec fn mean_text(values: Multiset<u64>, decimals: nat) -> Seq<char>;

/// The number of values up to which a floating-point number of 64 bits counts without a gap.
pub const EXACT_COUNT: u64 = 0x20_0000_0000_0000;

/// The lowest of the values that a histogram with two significant figures counts together with
/// `value`: a value of eight bits counts by itself, and of a longer one the eight highest bits
/// count.
pub open spec fn bucket_low(value: nat) -> nat
    decreases value,
{
    if value < 256 {
        value
    } else {
        2 * bucket_low(value / 2)
    }
}

/// The highest of the values that a histogram with two significant figures counts together with
/// `value`.
pub open spec fn bucket_high(value: nat) -> nat
    decreases value,
{
    if value < 256 {
        value
    } else {
        2 * bucket_high(value / 2) + 1
    }
}

/// Whether `value` is the least of the values.
pub open spec fn is_least(values: Multiset<u64>, value: u64) -> bool {
    &&& values.contains(value)
    &&& forall|other: u64| #[trigger] values.contains(other) ==> value <= other
}

/// Whether `value` is the greatest of the values.
pub open spec fn is_greatest(values: Multiset<u64>, value: u64) -> bool {
    &&& values.contains(value)
    &&& forall|other: u64| #[trigger] values.contains(other) ==> other <= value
}

/// The least of the values.
pub open spec fn least(values: Multiset<u64>) -> u64 {
    choose|value: u64| is_least(values, value)
}

/// The greatest of the values.
pub open spec fn greatest(values: Multiset<u64>) -> u64 {
    choose|value: u64| is_greatest(values, value)
}

/// The level at which a histogram reports its least value. The largest integer is reported as
/// it is.
pub open spec fn min_level(values: Multiset<u64>) -> nat {
    if values.len() == 0 {
        0
    } else if least(values) == u64::MAX {
        u64::MAX as nat
    } else {
        bucket_low(least(values) as nat)
    }
}

/// The level at which a histogram reports its greatest value. Only the largest integer itself is
/// reported as that.
pub open spec fn max_level(values: Multiset<u64>) -> nat {
    if values.len() == 0 {
        0
    } else if greatest(values) < u64::MAX && bucket_high(greatest(values) as nat) == u64::MAX {
        (u64::MAX - 1) as nat
    } else {
        bucket_high(greatest(values) as nat)
    }
}

/// The level at which a histogram reports a value as a quantile: the highest of the values
/// counted together with it, but never the largest integer.
pub open spec fn level_of(value: u64) -> nat {
    if bucket_high(value as nat) == u64::MAX {
        (u64::MAX - 1) as nat
    } else {
        bucket_high(value as nat)
    }
}

/// Whether `level` is the level of one of the values.
pub open spec fn is_level(values: Multiset<u64>, level: u64) -> bool {
    exists|value: u64| #[trigger] values.contains(value) && level == level_of(value)
}

/// Whether `level` can be a quantile of the values: it is the level of one of them. Only where
/// there is none, or where there are more than can be counted exactly, it can also be zero.
pub open spec fn is_quantile(values: Multiset<u64>, level: u64) -> bool {
    ||| is_level(values, level)
    ||| level == 0 && (values.len() == 0 || values.len() > EXACT_COUNT)
}

/// The number of values up to which the ranks of [`ranks_hold`] are exact.
pub const RANKED_COUNT: u64 = 0x100_0000_0000;

/// How many of the values are at most as high as those counted together with `level`.
pub open spec fn at_or_below(values: Multiset<u64>, level: u64) -> nat {
    values.filter(|value: u64| value <= bucket_high(level as nat)).len()
}

/// How many of the values are lower than those counted together with `level`.
pub open spec fn below(values: Multiset<u64>, level: u64) -> nat {
    values.filter(|value: u64| value < bucket_low(level as nat)).len()
}

/// Whether `level` is where `part` out of `whole` of the values are reached: as many of them lie
/// at or below it, but not below it. Nothing is said of no values, and of too many.
pub open spec fn is_ranked(values: Multiset<u64>, level: u64, part: nat, whole: nat) -> bool {
    0 < values.len() <= RANKED_COUNT ==> {
        &&& is_level(values, level)
        &&& part * values.len() <= whole * at_or_below(values, level)
        &&& whole * below(values, level) < part * values.len()
    }
}

/// Whether `level` has the rank that the quantile with this decimal notation asks for.
pub open spec fn ranks_hold(values: Multiset<u64>, quantile: Seq<char>, level: u64) -> bool {
    &&& quantile == "0.1"@ ==> is_ranked(values, level, 1, 10)
    &&& quantile == "0.5"@ ==> is_ranked(values, level, 5, 10)
    &&& quantile == "0.9"@ ==> is_ranked(values, level, 9, 10)
    &&& quantile == "0.99"@ ==> is_ranked(values, level, 99, 100)
    &&& quantile == "0.999"@ ==> is_ranked(values, level, 999, 1000)
}

/// The values that a histogram with two significant figures counts together with `value`.
pub open spec fn bucket_of(values: Multiset<u64>, value: u64) -> Multiset<u64> {
    values.filter(|other: u64| bucket_low(other as nat) == bucket_low(value as nat))
}

/// Whether the text is the decimal notation of a fraction from a tenth up to one: a zero, a point
/// and digits, the first of which is not zero.
pub open spec fn is_fraction(text: Seq<char>) -> bool {
    &&& text.len() > 2
    &&& text[0] == '0'
    &&& text[1] == '.'
    &&& text[2] != '0'
    &&& forall|i: int| 2 <= i < text.len() ==> '0' <= #[trigger] text[i] <= '9'
}

/// Makes a histogram with `hdrhistogram::Histogram::new`.
///
/// That function is stated to give, for five significant figures at most, an empty histogram that
/// keeps so many and resizes itself, and an error for more.
#[verifier::external_body]
pub(crate) fn new_histogram(figures: u8) -> (made: Result<
    HdrHistogram,
    hdrhistogram::CreationError,
>)
    ensures
        made is Ok <==> figures <= 5,
        made matches Ok(histogram) ==> recorded_values(histogram) == Multiset::<u64>::empty(),
        made matches Ok(histogram) ==> significant_figures(histogram) == figures,
{
    Ok(HdrHistogram { inner: hdrhistogram::Histogram::new(figures)? })
}

impl HdrHistogram {
    /// The number of recorded values, as far as it can be counted.
    pub fn len(&self) -> (count: u64)
        ensures
            count == if recorded_values(*self).len() <= u64::MAX {
                recorded_values(*self).len()
            } else {
                u64::MAX as nat
            },
    {
        self.total()
    }

    /// The number of recorded values that are counted together with `value`.
    pub fn count_at(&self, value: u64) -> (count: u64)
        requires
            significant_figures(*self) == 2,
            recorded_values(*self).len() <= u64::MAX,
            value < 256 || exists|other: u64|
                recorded_values(*self).contains(other) && value <= other,
        ensures
            count == bucket_of(recorded_values(*self), value).len(),
    {
        self.count_level(value)
    }

    /// Records a value with `hdrhistogram::Histogram::record`.
    ///
    /// That function is stated to succeed, whatever the value, on a histogram that resizes
    /// itself, and to add the value to those recorded.
    #[verifier::external_body]
    pub(crate) fn record(&mut self, value: u64) -> (done: Result<(), hdrhistogram::RecordError>)
        requires
            significant_figures(*old(self)) <= 5,
        ensures
            done is Ok,
            recorded_values(*final(self)) == recorded_values(*old(self)).insert(value),
            significant_figures(*final(self)) == significant_figures(*old(self)),
    {
        self.inner.record(value)
    }

    /// Resets the histogram with `hdrhistogram::Histogram::reset`.
    ///
    /// That function is stated to leave no recorded value, and to keep the configuration.
    #[verifier::external_body]
    pub(crate) fn reset(&mut self)
        ensures
            recorded_values(*final(self)) == Multiset::<u64>::empty(),
            significant_figures(*final(self)) == significant_figures(*old(self)),
    {
        self.inner.reset();
    }

    /// Counts the values with `hdrhistogram::Histogram::len`.
    ///
    /// That function is stated to give the number of recorded values, as far as it can count.
    #[verifier::external_body]
    pub(crate) fn total(&self) -> (count: u64)
        ensures
            count == if recorded_values(*self).len() <= u64::MAX {
                recorded_values(*self).len()
            } else {
                u64::MAX as nat
            },
    {
        self.inner.len()
    }

    /// Tests for values with `hdrhistogram::Histogram::is_empty`.
    ///
    /// That function is stated to tell whether there is no recorded value.
    #[verifier::external_body]
    pub(crate) fn is_empty(&self) -> (empty: bool)
        ensures
            empty == (recorded_values(*self).len() == 0),
    {
        self.inner.is_empty()
    }

    /// Asks for the least value with `hdrhistogram::Histogram::min`.
    ///
    /// That function is stated to give the lowest of the values counted together with the least
    /// recorded one; the largest integer where that is the least; and zero where nothing is
    /// recorded.
    #[verifier::external_body]
    pub(crate) fn lowest(&self) -> (level: u64)
        requires
            significant_figures(*self) == 2,
        ensures
            level == min_level(recorded_values(*self)),
    {
        self.inner.min()
    }

    /// Asks for the greatest value with `hdrhistogram::Histogram::max`.
    ///
    /// That function is stated to give the highest of the values counted together with the
    /// greatest recorded one, but the largest integer only where that was recorded; and zero where
    /// nothing is recorded.
    #[verifier::external_body]
    pub(crate) fn highest(&self) -> (level: u64)
        requires
            significant_figures(*self) == 2,
        ensures
            level == max_level(recorded_values(*self)),
    {
        self.inner.max()
    }

    /// Counts the values at a level with `hdrhistogram::Histogram::count_at`.
    ///
    /// That function is stated to give the number of the recorded values that are counted
    /// together with `value`. It clamps a value above the range that the histogram covers: the
    /// range reaches up to the recorded values, and over all values of eight bits.
    #[verifier::external_body]
    pub(crate) fn count_level(&self, value: u64) -> (count: u64)
        requires
            significant_figures(*self) == 2,
            recorded_values(*self).len() <= u64::MAX,
            value < 256 || exists|other: u64|
                recorded_values(*self).contains(other) && value <= other,
        ensures
            count == bucket_of(recorded_values(*self), value).len(),
    {
        self.inner.count_at(value)
    }

    /// Asks for a quantile with `hdrhistogram::Histogram::value_at_quantile`.
    ///
    /// That function is stated to give a level that depends on the recorded values and on the
    /// quantile alone, and that is the level of a recorded value. It gives zero where it finds no
    /// such value: where nothing is recorded, and possibly where the number of values is not
    /// exact as a floating-point number. It adds counts up, and they have to fit.
    ///
    /// The level is the first at which the values up to it are as many as the product of the
    /// quantile and the number of values, rounded up. The product is one of floating-point numbers.
    /// Five quantiles are stated to have the rank of the exact product: so near are their
    /// floating-point numbers to them that a product which is an integer comes out exactly. Any
    /// other product of theirs lies a thousandth or more from the next integer, which is more than
    /// it can be off by, up to the number of values stated. Of other quantiles the rank is left
    /// to the name.
    #[verifier::external_body]
    pub(crate) fn quantile(&self, quantile: &str) -> (level: u64)
        requires
            significant_figures(*self) == 2,
            recorded_values(*self).len() <= u64::MAX,
            is_fraction(quantile@),
        ensures
            level == quantile_level(recorded_values(*self), quantile@),
            is_quantile(recorded_values(*self), level),
            ranks_hold(recorded_values(*self), quantile@, level),
    {
        self.inner.value_at_quantile(quantile.parse().unwrap())
    }

    /// Asks for the mean with `hdrhistogram::Histogram::mean`, and writes it with so many
    /// decimals.
    ///
    /// That function is stated to give a number that depends on the recorded values alone, and
    /// the number's text to depend on the number of decimals besides.
    #[verifier::external_body]
    pub(crate) fn mean(&self, decimals: u8) -> (text: String)
        requires
            significant_figures(*self) == 2,
        ensures
            text@ == mean_text(recorded_values(*self), decimals as nat),
    {
        format!("{:.*}", usize::from(decimals), self.inner.mean())
    }
}

} // verus!

//! Fixed-bin intensity histograms of one color channel.
//!
//! The value range `0..=255` is cut into as many bins as the histogram has
//! counters.  With width `w = 255 / bin_count`, bin 0 covers `[0, w]` and bin
//! `i >= 1` covers `[i * w + 1, (i + 1) * w]`: bin 0 is one value wider than the
//! others.  Every value has a bin exactly when `bin_count` divides 255.

use vstd::prelude::*;

verus! {

/// Number of bins of a freshly made histogram.  Only divisors of 255 give a bin
/// to every value: 1, 3, 5, 15, 17, 51, 85, 255.
pub const BIN_COUNT: u8 = 5;

/// Pixel counts of one color channel, one counter per bin.
#[derive(Debug, Clone, PartialEq, Eq)]
pub struct Histogram {
    pub bins: Vec<u64>,
}

/// Step between the upper bounds of neighbouring bins.
pub open spec fn bin_width(bin_count: nat) -> nat
    recommends
        bin_count > 0,
{
    255nat / bin_count
}

/// Smallest value of bin `i`.
pub open spec fn bin_lower(bin_count: nat, i: int) -> int {
    if i == 0 {
        0
    } else {
        i * bin_width(bin_count) + 1
    }
}

/// Largest value of bin `i`.
pub open spec fn bin_upper(bin_count: nat, i: int) -> int {
    (i + 1) * bin_width(bin_count)
}

/// Bin `i` exists and its closed range holds `value`.
pub open spec fn bin_covers(bin_count: nat, i: int, value: u8) -> bool {
    &&& 0 <= i < bin_count
    &&& bin_lower(bin_count, i) <= value <= bin_upper(bin_count, i)
}

/// The bin that counts `value`, if there is one.
pub open spec fn bin_of(bin_count: nat, value: u8) -> Option<int> {
    if bin_count == 0 {
        None
    } else if value == 0 {
        Some(0)
    } else if bin_width(bin_count) == 0 {
        None
    } else if (value - 1) / (bin_width(bin_count) as int) < bin_count {
        Some((value - 1) / (bin_width(bin_count) as int))
    } else {
        None
    }
}

/// `bin_of` names the one bin whose range holds the value: the ranges do not
/// overlap, so the first bin that covers a value is the only one.
pub proof fn lemma_bin_of_is_covering_bin(bin_count: nat, value: u8, i: int)
    ensures
        bin_of(bin_count, value) == Some(i) <==> bin_covers(bin_count, i, value),
{
    if bin_count > 0 {
        let w = bin_width(bin_count) as int;
        assert(0 <= w <= 255) by (nonlinear_arith)
            requires
                w == 255int / (bin_count as int),
                bin_count > 0,
        ;
        if value == 0 {
            assert(bin_covers(bin_count, i, value) ==> i == 0) by (nonlinear_arith)
                requires
                    w >= 0,
                    value == 0,
                    bin_lower(bin_count, i) == (if i == 0 {
                        0
                    } else {
                        i * w + 1
                    }),
            ;
            assert(bin_upper(bin_count, 0) == w);
        } else if w == 0 {
            assert(bin_upper(bin_count, i) == 0) by (nonlinear_arith)
                requires
                    bin_upper(bin_count, i) == (i + 1) * w,
                    w == 0,
            ;
        } else {
            let q = (value - 1) / w;
            assert(i * w <= value - 1 < (i + 1) * w <==> q == i) by (nonlinear_arith)
                requires
                    w > 0,
                    q == (value - 1) / w,
            ;
            assert(q >= 0) by (nonlinear_arith)
                requires
                    w > 0,
                    value >= 1,
                    q == (value - 1) / w,
            ;
            if i == 0 {
                assert(0 * w == 0 && (0 + 1) * w == w) by (nonlinear_arith);
            }
        }
    }
}

/// Every value has a bin when the number of bins divides 255.
pub proof fn lemma_divisor_covers_all(bin_count: nat, value: u8)
    requires
        bin_count > 0,
        255int % (bin_count as int) == 0,
    ensures
        bin_of(bin_count, value) is Some,
{
    let w = bin_width(bin_count) as int;
    assert(w * bin_count == 255 && w > 0) by (nonlinear_arith)
        requires
            w == 255int / (bin_count as int),
            bin_count > 0,
            255int % (bin_count as int) == 0,
    ;
    if value > 0 {
        assert((value - 1) / w < bin_count) by (nonlinear_arith)
            requires
                w * bin_count == 255,
                w > 0,
                0 <= value - 1 < 255,
        ;
    }
}

/// The value `255 / bin_count` is the last one of bin 0, and the next value is
/// the first one of bin 1, wherever there is such a value and such a bin.
pub proof fn lemma_bin_boundary(bin_count: nat)
    requires
        bin_count > 0,
    ensures
        bin_of(bin_count, bin_width(bin_count) as u8) == Some(0int),
        2 <= bin_count <= 255 ==> bin_of(bin_count, (bin_width(bin_count) + 1) as u8) == Some(
            1int,
        ),
{
    let w = bin_width(bin_count) as int;
    assert(0 <= w <= 255) by (nonlinear_arith)
        requires
            w == 255int / (bin_count as int),
            bin_count > 0,
    ;
    lemma_bin_of_is_covering_bin(bin_count, w as u8, 0);
    assert(bin_upper(bin_count, 0) == w);
    if 2 <= bin_count <= 255 {
        assert(1 <= w <= 127) by (nonlinear_arith)
            requires
                w == 255int / (bin_count as int),
                2 <= bin_count <= 255,
        ;
        lemma_bin_of_is_covering_bin(bin_count, (w + 1) as u8, 1);
        assert(bin_lower(bin_count, 1) == w + 1);
        assert(bin_upper(bin_count, 1) == 2 * w);
    }
}

/// How many of `samples` fall into bin `bin`.
pub open spec fn count_in_bin(samples: Seq<u8>, bin_count: nat, bin: int) -> nat
    decreases samples.len(),
{
    if samples.len() == 0 {
        0
    } else {
        let before = count_in_bin(samples.drop_last(), bin_count, bin);
        if bin_of(bin_count, samples.last()) == Some(bin) {
            before + 1
        } else {
            before
        }
    }
}

/// The histogram of `samples`: for each bin the number of samples in it.
pub open spec fn bin_counts(samples: Seq<u8>, bin_count: nat) -> Seq<nat> {
    Seq::new(bin_count, |bin: int| count_in_bin(samples, bin_count, bin))
}

/// Sum of all counters.
pub open spec fn total_count(counts: Seq<nat>) -> nat
    decreases counts.len(),
{
    if counts.len() == 0 {
        0
    } else {
        total_count(counts.drop_last()) + counts.last()
    }
}

/// No bin counts more samples than there are.
pub proof fn lemma_count_in_bin_bounded(samples: Seq<u8>, bin_count: nat, bin: int)
    ensures
        count_in_bin(samples, bin_count, bin) <= samples.len(),
    decreases samples.len(),
{
    if samples.len() > 0 {
        lemma_count_in_bin_bounded(samples.drop_last(), bin_count, bin);
    }
}

/// Raising one counter by one raises the total by one.
pub proof fn lemma_total_after_increment(counts: Seq<nat>, i: int)
    requires
        0 <= i < counts.len(),
    ensures
        total_count(counts.update(i, counts[i] + 1)) == total_count(counts) + 1,
    decreases counts.len(),
{
    let raised = counts.update(i, counts[i] + 1);
    if i == counts.len() - 1 {
        assert(raised.drop_last() =~= counts.drop_last());
    } else {
        lemma_total_after_increment(counts.drop_last(), i);
        assert(raised.drop_last() =~= counts.drop_last().update(i, counts[i] + 1));
    }
}

/// A sequence of zeros sums to zero.
pub proof fn lemma_total_of_zeros(counts: Seq<nat>)
    requires
        forall|i: int| 0 <= i < counts.len() ==> counts[i] == 0,
    ensures
        total_count(counts) == 0,
    decreases counts.len(),
{
    if counts.len() > 0 {
        lemma_total_of_zeros(counts.drop_last());
    }
}

/// The total is zero only if every counter is.
pub proof fn lemma_total_zero_iff_all_zero(counts: Seq<nat>)
    ensures
        total_count(counts) == 0 <==> forall|i: int| 0 <= i < counts.len() ==> counts[i] == 0,
    decreases counts.len(),
{
    if counts.len() > 0 {
        let front = counts.drop_last();
        lemma_total_zero_iff_all_zero(front);
        if total_count(counts) == 0 {
            assert forall|i: int| 0 <= i < counts.len() implies counts[i] == 0 by {
                if i < front.len() {
                    assert(front[i] == counts[i]);
                }
            }
        }
        if forall|i: int| 0 <= i < counts.len() ==> counts[i] == 0 {
            assert forall|i: int| 0 <= i < front.len() implies front[i] == 0 by {
                assert(front[i] == counts[i]);
            }
        }
    }
}

/// A histogram counts each sample that has a bin exactly once, so with a
/// number of bins that divides 255 its counters sum to the number of samples.
pub proof fn lemma_histogram_covers_samples(samples: Seq<u8>, bin_count: nat)
    requires
        bin_count > 0,
        255int % (bin_count as int) == 0,
    ensures
        total_count(bin_counts(samples, bin_count)) == samples.len(),
    decreases samples.len(),
{
    let counts = bin_counts(samples, bin_count);
    if samples.len() == 0 {
        lemma_total_of_zeros(counts);
    } else {
        let front = samples.drop_last();
        let before = bin_counts(front, bin_count);
        lemma_histogram_covers_samples(front, bin_count);
        lemma_divisor_covers_all(bin_count, samples.last());
        let i = bin_of(bin_count, samples.last())->0;
        lemma_bin_of_is_covering_bin(bin_count, samples.last(), i);
        lemma_total_after_increment(before, i);
        assert(counts =~= before.update(i, before[i] + 1));
    }
}

impl View for Histogram {
    type V = Seq<nat>;

    /// The counters as natural numbers.
    open spec fn view(&self) -> Seq<nat> {
        Seq::new(self.bins@.len(), |i: int| self.bins@[i] as nat)
    }
}

/// Lower and upper bound of bin `i`, both inclusive.
pub fn bin_range(bin_count: usize, i: usize) -> (range: (usize, usize))
    requires
        i < bin_count,
    ensures
        range.0 == bin_lower(bin_count as nat, i as int),
        range.1 == bin_upper(bin_count as nat, i as int),
        range.1 <= 255,
{
    let width: usize = 255 / bin_count;
    proof {
        let w = width as int;
        let n = bin_count as int;
        assert((i + 1) * w <= n * w) by (nonlinear_arith)
            requires
                0 <= i + 1 <= n,
                w >= 0,
        ;
        assert(n * w <= 255) by (nonlinear_arith)
            requires
                w == 255int / n,
                n > 0,
        ;
        assert(i * w <= (i + 1) * w) by (nonlinear_arith)
            requires
                w >= 0,
        ;
    }
    let upper: usize = (i + 1) * width;
    let lower: usize = if i == 0 {
        0
    } else {
        i * width + 1
    };
    (lower, upper)
}

impl Histogram {
    /// A histogram of `BIN_COUNT` bins that has counted nothing.
    pub fn new() -> (histogram: Histogram)
        ensures
            histogram.bins@.len() == BIN_COUNT,
            histogram@ == bin_counts(Seq::<u8>::empty(), BIN_COUNT as nat),
            forall|i: int| 0 <= i < BIN_COUNT ==> histogram.bins@[i] == 0,
    {
        let mut bins: Vec<u64> = Vec::new();
        let mut i: u8 = 0;
        while i < BIN_COUNT
            invariant
                i <= BIN_COUNT,
                bins@.len() == i,
                forall|k: int| 0 <= k < i ==> bins@[k] == 0,
            decreases BIN_COUNT - i,
        {
            bins.push(0);
            i += 1;
        }
        let histogram = Histogram { bins };
        assert(histogram@ =~= bin_counts(Seq::<u8>::empty(), BIN_COUNT as nat));
        histogram
    }

    /// The index of the bin that counts `value`: the bins are tried in order and
    /// the first whose range holds the value is taken.
    pub fn bin_index(&self, value: u8) -> (index: Option<usize>)
        ensures
            match index {
                Some(i) => bin_of(self.bins@.len(), value) == Some(i as int),
                None => bin_of(self.bins@.len(), value) is None,
            },
    {
        let bin_count: usize = self.bins.len();
        if bin_count == 0 {
            return None;
        }
        let sample: usize = value as usize;
        let mut i: usize = 0;
        while i < bin_count
            invariant
                0 < bin_count == self.bins@.len(),
                i <= bin_count,
                sample == value,
                forall|k: int| 0 <= k < i ==> !bin_covers(bin_count as nat, k, value),
            decreases bin_count - i,
        {
            let (lower, upper) = bin_range(bin_count, i);
            if lower <= sample && sample <= upper {
                proof {
                    lemma_bin_of_is_covering_bin(bin_count as nat, value, i as int);
                }
                return Some(i);
            }
            i += 1;
        }
        proof {
            if bin_of(bin_count as nat, value) is Some {
                let b = bin_of(bin_count as nat, value)->0;
                lemma_bin_of_is_covering_bin(bin_count as nat, value, b);
            }
        }
        None
    }

    /// Counts one pixel of intensity `color_value` in the bin that covers it.  A
    /// value that no bin covers is not counted.
    pub fn add_pixel_to_correct_bin(&mut self, color_value: u8)
        requires
            bin_of(old(self).bins@.len(), color_value) matches Some(i) ==> old(self).bins@[i]
                < u64::MAX,
        ensures
            final(self).bins@ == (match bin_of(old(self).bins@.len(), color_value) {
                Some(i) => old(self).bins@.update(i, (old(self).bins@[i] + 1) as u64),
                None => old(self).bins@,
            }),
    {
        match self.bin_index(color_value) {
            Some(i) => {
                proof {
                    lemma_bin_of_is_covering_bin(self.bins@.len(), color_value, i as int);
                }
                let raised: u64 = self.bins[i] + 1;
                self.bins[i] = raised;
            },
            None => {},
        }
    }

    /// The counted samples of all bins together.
    pub fn total(&self) -> (sum: u128)
        ensures
            sum == total_count(self@),
    {
        let mut sum: u128 = 0;
        let mut i: usize = 0;
        while i < self.bins.len()
            invariant
                i <= self.bins@.len(),
                sum == total_count(self@.take(i as int)),
                sum <= i * u64::MAX,
            decreases self.bins@.len() - i,
        {
            proof {
                assert(self@.take(i + 1).drop_last() =~= self@.take(i as int));
                assert((i + 1) * u64::MAX <= usize::MAX * u64::MAX) by (nonlinear_arith)
                    requires
                        i + 1 <= usize::MAX,
                ;
                assert(usize::MAX * u64::MAX <= u64::MAX * u64::MAX) by (nonlinear_arith)
                    requires
                        usize::MAX <= u64::MAX,
                ;
                assert((i + 1) * u64::MAX == i * u64::MAX + u64::MAX) by (nonlinear_arith);
            }
            sum = sum + self.bins[i] as u128;
            i += 1;
        }
        assert(self@.take(i as int) =~= self@);
        sum
    }

    /// Whether the histogram has counted no sample at all.
    pub fn is_empty(&self) -> (empty: bool)
        ensures
            empty == (total_count(self@) == 0),
    {
        proof {
            lemma_total_zero_iff_all_zero(self@);
        }
        let mut i: usize = 0;
        while i < self.bins.len()
            invariant
                i <= self.bins@.len(),
                forall|k: int| 0 <= k < i ==> self@[k] == 0,
                total_count(self@) == 0 <==> forall|k: int|
                    0 <= k < self@.len() ==> self@[k] == 0,
            decreases self.bins@.len() - i,
        {
            if self.bins[i] != 0 {
                assert(self@[i as int] != 0);
                return false;
            }
            i += 1;
        }
        true
    }

    /// The largest counter, or zero for a histogram without bins.
    pub fn max_count(&self) -> (max: u64)
        ensures
            forall|i: int| 0 <= i < self.bins@.len() ==> self.bins@[i] <= max,
            self.bins@.len() > 0 ==> exists|i: int| 0 <= i < self.bins@.len() && self.bins@[i] == max,
            self.bins@.len() == 0 ==> max == 0,
    {
        let mut max: u64 = 0;
        let mut i: usize = 0;
        while i < self.bins.len()
            invariant
                i <= self.bins@.len(),
                forall|k: int| 0 <= k < i ==> self.bins@[k] <= max,
                i > 0 ==> exists|k: int| 0 <= k < i && self.bins@[k] == max,
                i == 0 ==> max == 0,
            decreases self.bins@.len() - i,
        {
            if i == 0 || self.bins[i] > max {
                max = self.bins[i];
            }
            i += 1;
        }
        max
    }

    /// Whether two histograms have the same counters, bin for bin.
    pub fn same_bins(&self, other: &Histogram) -> (same: bool)
        ensures
            same == (self.bins@ == other.bins@),
    {
        if self.bins.len() != other.bins.len() {
            return false;
        }
        let mut i: usize = 0;
        while i < self.bins.len()
            invariant
                self.bins@.len() == other.bins@.len(),
                i <= self.bins@.len(),
                forall|k: int| 0 <= k < i ==> self.bins@[k] == other.bins@[k],
            decreases self.bins@.len() - i,
        {
            if self.bins[i] != other.bins[i] {
                return false;
            }
            i += 1;
        }
        assert(self.bins@ =~= other.bins@);
        true
    }
}

/// Two lists of histograms have the same counters, channel for channel and bin
/// for bin.
pub open spec fn same_histograms(a: Seq<Histogram>, b: Seq<Histogram>) -> bool {
    &&& a.len() == b.len()
    &&& forall|channel: int| 0 <= channel < a.len() ==> (#[trigger] a[channel]).bins@ == b[channel].bins@
}

/// Whether two lists of histograms have the same counters, channel for channel
/// and bin for bin.
pub fn histograms_equal(a: &Vec<Histogram>, b: &Vec<Histogram>) -> (equal: bool)
    ensures
        equal == same_histograms(a@, b@),
{
    if a.len() != b.len() {
        return false;
    }
    let mut channel: usize = 0;
    while channel < a.len()
        invariant
            a@.len() == b@.len(),
            channel <= a@.len(),
            forall|c: int| 0 <= c < channel ==> (#[trigger] a@[c]).bins@ == b@[c].bins@,
        decreases a@.len() - channel,
    {
        if !a[channel].same_bins(&b[channel]) {
            return false;
        }
        channel += 1;
    }
    true
}

} // verus!

use vstd::prelude::*;
use vstd::relations::sorted_by;
use vstd::seq_lib::lemma_sorted_unique;
use crate::duration::DurationSample;

verus! {

broadcast use vstd::seq_lib::group_to_multiset_ensures,
    crate::duration::DurationSample::lemma_total_nanos_nonneg;

/// Largest total running time, in nanoseconds, that the statistics accept:
/// one billion seconds. Far beyond any real run, and small enough that every
/// intermediate product of the variance fits in a machine word.
pub const MAX_TOTAL_NANOS: u128 = 1_000_000_000_000_000_000;

/// How a sequence of samples was measured.
#[derive(Clone, Copy, Debug, PartialEq, Eq, Structural)]
pub enum TimingMethod {
    /// Time measurements come from full timing of execution plus sync calls.
    System,
    /// Time measurements come from hardware reported timestamps of a sync call.
    Device,
}

impl Default for TimingMethod {
    fn default() -> (r: Self)
        ensures
            r == TimingMethod::System,
    {
        TimingMethod::System
    }
}

/// The raw samples of one run, in the order they were measured.
#[derive(Clone, Debug, PartialEq)]
pub struct BenchmarkDurations {
    /// How these durations were measured.
    pub timing_method: TimingMethod,
    /// All durations of the run, in measurement order.
    pub durations: Vec<DurationSample>,
}

impl Default for BenchmarkDurations {
    /// No samples yet, measured by the default method.
    fn default() -> (r: Self)
        ensures
            r.timing_method == TimingMethod::System,
            r.durations@.len() == 0,
    {
        BenchmarkDurations { timing_method: TimingMethod::System, durations: Vec::new() }
    }
}

/// The derived statistics of one run.
#[derive(Clone, Copy, Debug, PartialEq)]
pub struct BenchmarkComputations {
    /// Mean of all the durations.
    pub mean: DurationSample,
    /// Median of all the durations.
    pub median: DurationSample,
    /// Variance of all the durations.
    pub variance: DurationSample,
    /// Minimum duration amongst all durations.
    pub min: DurationSample,
    /// Maximum duration amongst all durations.
    pub max: DurationSample,
}

impl Default for BenchmarkComputations {
    /// All statistics zero.
    fn default() -> (r: Self)
        ensures
            r.mean@ == 0,
            r.median@ == 0,
            r.variance@ == 0,
            r.min@ == 0,
            r.max@ == 0,
    {
        let zero = DurationSample::default();
        BenchmarkComputations { mean: zero, median: zero, variance: zero, min: zero, max: zero }
    }
}

/// The samples as a sequence of total-nanosecond values.
pub open spec fn dur_seq(samples: Seq<DurationSample>) -> Seq<int> {
    samples.map_values(|d: DurationSample| d@)
}

/// Sum of a sequence of integers.
pub open spec fn sum_of(s: Seq<int>) -> int
    decreases s.len(),
{
    if s.len() == 0 {
        0
    } else {
        s[0] + sum_of(s.drop_first())
    }
}

/// The samples in ascending order.
pub open spec fn sorted_of(s: Seq<int>) -> Seq<int> {
    s.sort()
}

/// The smallest sample.
pub open spec fn min_of(s: Seq<int>) -> int {
    sorted_of(s).first()
}

/// The largest sample.
pub open spec fn max_of(s: Seq<int>) -> int {
    sorted_of(s).last()
}

/// The sample at the middle index of the ascending order; for an even count
/// this is the upper-middle element, not an interpolation.
pub open spec fn median_of(s: Seq<int>) -> int {
    sorted_of(s)[s.len() as int / 2]
}

/// The mean sample: the sum divided by the count, in whole nanoseconds.
pub open spec fn mean_of(s: Seq<int>) -> int {
    sum_of(s) / s.len() as int
}

/// Sum of the squared deviations from `m`, each converted from squared
/// nanoseconds to nanoseconds-as-seconds-squared by dividing once by the
/// nanoseconds of a second.
pub open spec fn sq_dev_sum(s: Seq<int>, m: int) -> int
    decreases s.len(),
{
    if s.len() == 0 {
        0
    } else {
        (s[0] - m) * (s[0] - m) / 1_000_000_000 + sq_dev_sum(s.drop_first(), m)
    }
}

/// Population variance around `m`: squared deviations averaged over the full
/// count, with no sample-size correction.
pub open spec fn variance_of(s: Seq<int>, m: int) -> int {
    sq_dev_sum(s, m) / s.len() as int
}

proof fn lemma_sum_push(s: Seq<int>, x: int)
    ensures
        sum_of(s.push(x)) == sum_of(s) + x,
    decreases s.len(),
{
    if s.len() == 0 {
        assert(s.push(x).drop_first() =~= Seq::<int>::empty());
        assert(sum_of(Seq::<int>::empty()) == 0);
        assert(s.push(x)[0] == x);
    } else {
        assert(s.push(x).drop_first() =~= s.drop_first().push(x));
        lemma_sum_push(s.drop_first(), x);
        assert(s.push(x)[0] == s[0]);
    }
}

proof fn lemma_sq_dev_push(s: Seq<int>, m: int, x: int)
    ensures
        sq_dev_sum(s.push(x), m) == sq_dev_sum(s, m) + (x - m) * (x - m) / 1_000_000_000,
    decreases s.len(),
{
    if s.len() == 0 {
        assert(s.push(x).drop_first() =~= Seq::<int>::empty());
        assert(sq_dev_sum(Seq::<int>::empty(), m) == 0);
        assert(s.push(x)[0] == x);
    } else {
        assert(s.push(x).drop_first() =~= s.drop_first().push(x));
        lemma_sq_dev_push(s.drop_first(), m, x);
        assert(s.push(x)[0] == s[0]);
    }
}

proof fn lemma_sum_split(a: Seq<int>, b: Seq<int>)
    ensures
        sum_of(a + b) == sum_of(a) + sum_of(b),
    decreases a.len(),
{
    if a.len() == 0 {
        assert(a + b =~= b);
    } else {
        assert((a + b).drop_first() =~= a.drop_first() + b);
        lemma_sum_split(a.drop_first(), b);
    }
}

/// Every term of a sequence of non-negative integers is at most the sum,
/// and the sum of a sequence bounded by `lo` and `hi` lies between
/// `len * lo` and `len * hi`.
proof fn lemma_sum_bounds(s: Seq<int>, lo: int, hi: int)
    requires
        forall|i: int| 0 <= i < s.len() ==> lo <= #[trigger] s[i] <= hi,
    ensures
        s.len() * lo <= sum_of(s) <= s.len() * hi,
    decreases s.len(),
{
    if s.len() == 0 {
    } else {
        assert(forall|i: int| 0 <= i < s.drop_first().len()
            ==> lo <= #[trigger] s.drop_first()[i] <= hi);
        lemma_sum_bounds(s.drop_first(), lo, hi);
        assert(s.len() * lo == lo + (s.len() - 1) * lo) by (nonlinear_arith);
        assert(s.len() * hi == hi + (s.len() - 1) * hi) by (nonlinear_arith);
    }
}

proof fn lemma_sum_nonneg(s: Seq<int>)
    requires
        forall|i: int| 0 <= i < s.len() ==> #[trigger] s[i] >= 0,
    ensures
        sum_of(s) >= 0,
    decreases s.len(),
{
    if s.len() > 0 {
        lemma_sum_nonneg(s.drop_first());
    }
}

/// A prefix of a sequence of non-negative integers sums to at most the whole.
proof fn lemma_sum_prefix_le(s: Seq<int>, n: int)
    requires
        0 <= n <= s.len(),
        forall|i: int| 0 <= i < s.len() ==> #[trigger] s[i] >= 0,
    ensures
        sum_of(s.subrange(0, n)) <= sum_of(s),
{
    assert(s =~= s.subrange(0, n) + s.subrange(n, s.len() as int));
    lemma_sum_split(s.subrange(0, n), s.subrange(n, s.len() as int));
    lemma_sum_nonneg(s.subrange(n, s.len() as int));
}

/// An element of a sequence of non-negative integers is at most the sum.
proof fn lemma_element_le_sum(s: Seq<int>, i: int)
    requires
        0 <= i < s.len(),
        forall|j: int| 0 <= j < s.len() ==> #[trigger] s[j] >= 0,
    ensures
        s[i] <= sum_of(s),
{
    assert(s.subrange(0, i + 1) =~= s.subrange(0, i).push(s[i]));
    lemma_sum_push(s.subrange(0, i), s[i]);
    lemma_sum_nonneg(s.subrange(0, i));
    lemma_sum_prefix_le(s, i + 1);
}

proof fn lemma_sort_len(s: Seq<int>)
    ensures
        sorted_of(s).len() == s.len(),
        sorted_by(sorted_of(s), |x: int, y: int| x <= y),
        s.to_multiset() == sorted_of(s).to_multiset(),
{
    s.lemma_sort_ensures();
    assert(s.to_multiset().len() == s.len());
    assert(sorted_of(s).to_multiset().len() == sorted_of(s).len());
}

/// The ascending order of the samples is pointwise bounded by its first and
/// last element, and every sample occurs in it.
proof fn lemma_sorted_element_bounds(s: Seq<int>, i: int)
    requires
        0 <= i < s.len(),
    ensures
        min_of(s) <= s[i] <= max_of(s),
{
    lemma_sort_len(s);
    let t = sorted_of(s);
    assert(s.to_multiset().contains(s[i]));
    assert(t.to_multiset().contains(s[i]));
    assert(t.contains(s[i]));
    let j = choose|j: int| 0 <= j < t.len() && t[j] == s[i];
    let leq = |x: int, y: int| x <= y;
    assert(j > 0 ==> leq(t[0], t[j]));
    assert(j < t.len() - 1 ==> leq(t[j], t[t.len() - 1]));
}

impl BenchmarkDurations {
    /// Returns a tuple of durations: (min, max, median).
    ///
    /// The median is the element at the middle index of the sorted samples;
    /// for an even count this is the upper-middle element.
    pub fn min_max_median_durations(&self) -> (r: (DurationSample, DurationSample, DurationSample))
        requires
            self.durations@.len() > 0,
        ensures
            r.0@ == min_of(dur_seq(self.durations@)),
            r.1@ == max_of(dur_seq(self.durations@)),
            r.2@ == median_of(dur_seq(self.durations@)),
    {
        let sorted = sorted_samples(&self.durations);
        proof {
            lemma_sort_len(dur_seq(self.durations@));
        }
        let n = sorted.len();
        (sorted[0], sorted[n - 1], sorted[n / 2])
    }

    /// Returns the mean duration: the sum of all samples divided by the
    /// count, in whole nanoseconds.
    pub fn mean_duration(&self) -> (r: DurationSample)
        requires
            self.durations@.len() > 0,
            self.durations@.len() <= u32::MAX,
            sum_of(dur_seq(self.durations@)) <= MAX_TOTAL_NANOS,
        ensures
            r@ == mean_of(dur_seq(self.durations@)),
    {
        let ghost s = dur_seq(self.durations@);
        proof {
            lemma_dur_seq_nonneg(self.durations@);
        }
        let n = self.durations.len();
        let mut acc: u128 = 0;
        let mut j: usize = 0;
        #[verifier::loop_isolation(false)]
        while j < n
            invariant
                j <= n,
                acc == sum_of(s.subrange(0, j as int)),
            decreases n - j,
        {
            let d = self.durations[j].as_nanos();
            proof {
                assert(s.subrange(0, j as int + 1) =~= s.subrange(0, j as int).push(s[j as int]));
                lemma_sum_push(s.subrange(0, j as int), s[j as int]);
                lemma_sum_prefix_le(s, j as int + 1);
                lemma_sum_nonneg(s.subrange(0, j as int));
            }
            acc = acc + d;
            j = j + 1;
        }
        proof {
            assert(s.subrange(0, n as int) =~= s);
            lemma_sum_nonneg(s);
            assert(sum_of(s) / n as int <= sum_of(s)) by (nonlinear_arith)
                requires n >= 1, sum_of(s) >= 0;
            assert(MAX_TOTAL_NANOS < DurationSample::max_total_nanos()) by (nonlinear_arith);
        }
        DurationSample::from_total_nanos(acc / (n as u128))
    }

    /// Returns the population variance of the samples around `mean`: squared
    /// deviations in nanoseconds, scaled back by one second, averaged over
    /// the full count with no sample-size correction.
    pub fn variance_duration(&self, mean: DurationSample) -> (r: DurationSample)
        requires
            self.durations@.len() > 0,
            self.durations@.len() <= u32::MAX,
            sum_of(dur_seq(self.durations@)) <= MAX_TOTAL_NANOS,
            mean@ <= MAX_TOTAL_NANOS,
        ensures
            r@ == variance_of(dur_seq(self.durations@), mean@),
    {
        let ghost s = dur_seq(self.durations@);
        let ghost m = mean@;
        let ghost max_term = (MAX_TOTAL_NANOS * MAX_TOTAL_NANOS / 1_000_000_000) as int;
        proof {
            lemma_dur_seq_nonneg(self.durations@);
            lemma_sum_nonneg(s);
        }
        let m_ns = mean.as_nanos();
        let n = self.durations.len();
        let mut acc: u128 = 0;
        let mut j: usize = 0;
        #[verifier::loop_isolation(false)]
        while j < n
            invariant
                j <= n,
                acc == sq_dev_sum(s.subrange(0, j as int), m),
                acc <= j * max_term,
            decreases n - j,
        {
            let d = self.durations[j].as_nanos();
            let diff: u128 = if d >= m_ns {
                d - m_ns
            } else {
                m_ns - d
            };
            proof {
                lemma_element_le_sum(s, j as int);
                assert(diff <= MAX_TOTAL_NANOS);
                assert(diff * diff <= MAX_TOTAL_NANOS * MAX_TOTAL_NANOS) by (nonlinear_arith)
                    requires 0 <= diff <= MAX_TOTAL_NANOS;
                assert((s[j as int] - m) * (s[j as int] - m) == diff * diff) by (nonlinear_arith)
                    requires diff == if s[j as int] >= m { s[j as int] - m } else { m - s[j as int] };
                vstd::arithmetic::div_mod::lemma_div_is_ordered(
                    (diff * diff) as int,
                    (MAX_TOTAL_NANOS * MAX_TOTAL_NANOS) as int,
                    1_000_000_000,
                );
                assert(s.subrange(0, j as int + 1) =~= s.subrange(0, j as int).push(s[j as int]));
                lemma_sq_dev_push(s.subrange(0, j as int), m, s[j as int]);
                assert((j + 1) * max_term == j * max_term + max_term) by (nonlinear_arith);
                assert((j + 1) * max_term <= u32::MAX * max_term) by (nonlinear_arith)
                    requires 0 <= j + 1 <= u32::MAX, max_term >= 0;
                assert(u32::MAX * max_term < u128::MAX) by (nonlinear_arith)
                    requires max_term == MAX_TOTAL_NANOS * MAX_TOTAL_NANOS / 1_000_000_000;
            }
            let term: u128 = diff * diff / 1_000_000_000;
            acc = acc + term;
            j = j + 1;
        }
        proof {
            assert(s.subrange(0, n as int) =~= s);
            vstd::arithmetic::div_mod::lemma_div_is_ordered(
                acc as int,
                n as int * max_term,
                n as int,
            );
            vstd::arithmetic::div_mod::lemma_div_multiples_vanish(max_term, n as int);
            assert(n as int * max_term == max_term * n as int) by (nonlinear_arith);
            assert(max_term < DurationSample::max_total_nanos()) by (nonlinear_arith)
                requires
                    max_term == MAX_TOTAL_NANOS * MAX_TOTAL_NANOS / 1_000_000_000,
                    DurationSample::max_total_nanos() == u64::MAX * 1_000_000_000 + 999_999_999;
        }
        DurationSample::from_total_nanos(acc / (n as u128))
    }
}

proof fn lemma_dur_seq_nonneg(samples: Seq<DurationSample>)
    ensures
        forall|i: int| 0 <= i < samples.len() ==> #[trigger] dur_seq(samples)[i] >= 0,
{
    assert forall|i: int| 0 <= i < samples.len() implies #[trigger] dur_seq(samples)[i] >= 0 by {
        assert(dur_seq(samples)[i] == samples[i].total_nanos());
    }
}

/// Sorts the samples ascending; the result is exactly the ascending order of
/// the input values.
fn sorted_samples(v: &Vec<DurationSample>) -> (r: Vec<DurationSample>)
    ensures
        dur_seq(r@) == sorted_of(dur_seq(v@)),
{
    let ghost leq = |x: int, y: int| x <= y;
    let mut out: Vec<DurationSample> = Vec::new();
    let mut idx: usize = 0;
    #[verifier::loop_isolation(false)]
    while idx < v.len()
        invariant
            idx <= v@.len(),
            sorted_by(dur_seq(out@), leq),
            dur_seq(out@).to_multiset() == dur_seq(v@.subrange(0, idx as int)).to_multiset(),
        decreases v@.len() - idx,
    {
        let x = v[idx];
        let x_ns = x.as_nanos();
        let mut pos: usize = 0;
        #[verifier::loop_isolation(false)]
        while pos < out.len() && out[pos].as_nanos() <= x_ns
            invariant
                pos <= out@.len(),
                forall|k: int| 0 <= k < pos ==> #[trigger] dur_seq(out@)[k] <= x@,
            decreases out@.len() - pos,
        {
            pos = pos + 1;
        }
        let ghost before = dur_seq(out@);
        let ghost p = pos as int;
        out.insert(pos, x);
        proof {
            assert(dur_seq(out@) =~= before.insert(p, x@));
            before.insert_ensures(p, x@);
            vstd::seq_lib::to_multiset_insert(before, p, x@);
            assert(dur_seq(v@.subrange(0, idx as int + 1))
                =~= dur_seq(v@.subrange(0, idx as int)).push(x@));
            let t = dur_seq(out@);
            assert forall|i: int, j: int| 0 <= i < j < t.len() implies leq(t[i], t[j]) by {
                if j < p {
                    assert(t[i] == before[i] && t[j] == before[j]);
                    assert(leq(before[i], before[j]));
                } else if i < p && j == p {
                    assert(t[i] == before[i] && t[j] == x@);
                } else if i == p && j > p {
                    assert(t[i] == x@ && t[j] == before[j - 1]);
                    assert(p < before.len() && x@ < before[p]);
                    assert(j - 1 > p ==> leq(before[p], before[j - 1]));
                } else if i < p && j > p {
                    assert(t[i] == before[i] && t[j] == before[j - 1]);
                    assert(leq(before[i], before[j - 1]));
                } else {
                    assert(t[i] == before[i - 1] && t[j] == before[j - 1]);
                    assert(leq(before[i - 1], before[j - 1]));
                }
            }
        }
        idx = idx + 1;
    }
    proof {
        assert(v@.subrange(0, v@.len() as int) =~= v@);
        lemma_sort_len(dur_seq(v@));
        lemma_sorted_unique(dur_seq(out@), sorted_of(dur_seq(v@)), leq);
    }
    out
}

impl BenchmarkComputations {
    /// Compute duration statistics from the raw samples of a run.
    pub fn new(durations: &BenchmarkDurations) -> (r: Self)
        requires
            durations.durations@.len() > 0,
            durations.durations@.len() <= u32::MAX,
            sum_of(dur_seq(durations.durations@)) <= MAX_TOTAL_NANOS,
        ensures
            r.mean@ == mean_of(dur_seq(durations.durations@)),
            r.median@ == median_of(dur_seq(durations.durations@)),
            r.variance@ == variance_of(dur_seq(durations.durations@), mean_of(dur_seq(durations.durations@))),
            r.min@ == min_of(dur_seq(durations.durations@)),
            r.max@ == max_of(dur_seq(durations.durations@)),
    {
        let ghost s = dur_seq(durations.durations@);
        let mean = durations.mean_duration();
        proof {
            lemma_dur_seq_nonneg(durations.durations@);
            lemma_sum_nonneg(s);
            assert(sum_of(s) / s.len() as int <= sum_of(s)) by (nonlinear_arith)
                requires s.len() >= 1, sum_of(s) >= 0;
        }
        let (min, max, median) = durations.min_max_median_durations();
        let variance = durations.variance_duration(mean);
        BenchmarkComputations { mean, median, min, max, variance }
    }
}

/// For any non-empty sample sequence, the minimum is at most the median and
/// the mean, and the median and the mean are at most the maximum.
pub proof fn lemma_stats_ordering(samples: Seq<DurationSample>)
    requires
        samples.len() > 0,
    ensures
        min_of(dur_seq(samples)) <= median_of(dur_seq(samples)) <= max_of(dur_seq(samples)),
        min_of(dur_seq(samples)) <= mean_of(dur_seq(samples)) <= max_of(dur_seq(samples)),
{
    let s = dur_seq(samples);
    let leq = |x: int, y: int| x <= y;
    lemma_sort_len(s);
    let t = sorted_of(s);
    let mid = s.len() as int / 2;
    assert(0 <= mid < t.len());
    assert(mid > 0 ==> leq(t[0], t[mid]));
    assert(mid < t.len() - 1 ==> leq(t[mid], t[t.len() - 1]));
    assert(min_of(s) <= median_of(s) <= max_of(s));
    assert forall|i: int| 0 <= i < s.len() implies min_of(s) <= #[trigger] s[i] <= max_of(s) by {
        lemma_sorted_element_bounds(s, i);
    }
    lemma_sum_bounds(s, min_of(s), max_of(s));
    let n = s.len() as int;
    assert(mean_of(s) >= min_of(s)) by (nonlinear_arith)
        requires
            n >= 1,
            sum_of(s) >= n * min_of(s),
            mean_of(s) == sum_of(s) / n,
            min_of(s) == t[0] || true,
    ;
    assert(mean_of(s) <= max_of(s)) by (nonlinear_arith)
        requires
            n >= 1,
            sum_of(s) <= n * max_of(s),
            mean_of(s) == sum_of(s) / n,
    ;
}

} // verus!

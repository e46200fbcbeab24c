//! Benchmark statistics: summaries of latency samples (mean and
//! nearest-rank percentiles) and the reports that collect them.

use vstd::prelude::*;
use vstd::relations::sorted_by;
use crate::text::{int_decimal, push_decimal_i64};

verus! {

/// Summary statistics for one benchmark.
#[derive(Debug, Clone)]
pub struct BenchResult {
    pub label: String,
    pub iterations: u32,
    pub total_ns: u128,
    pub mean_ns: u64,
    pub p50_ns: u64,
    pub p95_ns: u64,
    pub p99_ns: u64,
}

/// A batch of related benchmarks.
#[derive(Debug, Clone)]
pub struct BenchReport {
    pub results: Vec<BenchResult>,
}

impl Default for BenchReport {
    fn default() -> (r: Self)
        ensures
            r.results@ == Seq::<BenchResult>::empty(),
    {
        BenchReport { results: Vec::new() }
    }
}

impl BenchReport {
    pub fn push(&mut self, r: BenchResult)
        ensures
            final(self).results@ == old(self).results@.push(r),
    {
        self.results.push(r);
    }
}

/// The ascending order on samples.
pub open spec fn ns_le() -> spec_fn(u64, u64) -> bool {
    |a: u64, b: u64| a <= b
}

/// The samples in ascending order.
pub open spec fn sorted_samples(s: Seq<u64>) -> Seq<u64> {
    s.sort_by(ns_le())
}

/// Sum of the samples.
pub open spec fn sample_total(s: Seq<u64>) -> int
    decreases s.len(),
{
    if s.len() == 0 { 0 } else { sample_total(s.drop_last()) + s.last() }
}

/// Index of the `pct`-th percentile among `n` sorted samples: the nearest
/// rank `(n - 1) * pct / 100`, rounded half up, and at most `n - 1`.
pub open spec fn rank_index(n: int, pct: int) -> int {
    let r = (2 * (n - 1) * pct + 100) / 200;
    if r < n - 1 { r } else { n - 1 }
}

/// The `pct`-th percentile of the samples `s` (`s` not empty).
pub open spec fn percentile(s: Seq<u64>, pct: int) -> u64 {
    sorted_samples(s)[rank_index(s.len() as int, pct)]
}

/// The percentile rank is the nearest rank rounded half up: for `n >= 1`
/// samples and `0 <= pct <= 100`, `r = rank_index(n, pct)` is a valid
/// index with `r - 1/2 <= (n - 1) * pct / 100 < r + 1/2`.
pub proof fn lemma_rank_index_rounds(n: int, pct: int)
    requires
        n >= 1,
        0 <= pct <= 100,
    ensures
        0 <= rank_index(n, pct) <= n - 1,
        200 * rank_index(n, pct) <= 2 * (n - 1) * pct + 100 < 200 * rank_index(n, pct) + 200,
{
    let x = 2 * (n - 1) * pct + 100;
    assert(0 <= 2 * (n - 1) * pct <= 200 * (n - 1)) by (nonlinear_arith)
        requires
            n >= 1,
            0 <= pct <= 100,
    ;
    assert(200 * (x / 200) <= x < 200 * (x / 200) + 200) by (nonlinear_arith)
        requires
            x >= 0,
    ;
    assert(x / 200 <= n - 1) by (nonlinear_arith)
        requires
            x <= 200 * (n - 1) + 100,
            x >= 0,
    ;
}

proof fn lemma_ns_le_total()
    ensures
        vstd::relations::total_ordering(ns_le()),
{
}

/// The sorted samples are a permutation of the samples, in ascending order.
pub proof fn lemma_sorted_samples(s: Seq<u64>)
    ensures
        sorted_samples(s).to_multiset() == s.to_multiset(),
        sorted_samples(s).len() == s.len(),
        forall|i: int, j: int|
            0 <= i <= j < s.len() ==> sorted_samples(s)[i] <= sorted_samples(s)[j],
{
    broadcast use vstd::seq_lib::group_to_multiset_ensures;

    lemma_ns_le_total();
    s.lemma_sort_by_ensures(ns_le());
    let t = sorted_samples(s);
    assert(t.len() == t.to_multiset().len());
    assert forall|i: int, j: int| 0 <= i <= j < s.len() implies t[i] <= t[j] by {
        if i < j {
            assert(ns_le()(t[i], t[j]));
        }
    }
}

/// Sorts `v` ascending (insertion sort).
fn sort_samples(v: Vec<u64>) -> (out: Vec<u64>)
    ensures
        out@ == sorted_samples(v@),
{
    broadcast use vstd::seq_lib::group_to_multiset_ensures;

    let ghost orig = v@;
    let mut rest = v;
    let mut sorted: Vec<u64> = Vec::new();
    while rest.len() > 0
        invariant
            rest.len() <= orig.len(),
            rest@ == orig.subrange(0, rest.len() as int),
            sorted_by(sorted@, ns_le()),
            sorted@.to_multiset().add(rest@.to_multiset()) == orig.to_multiset(),
        decreases rest.len(),
    {
        let ghost before = rest@;
        let x = rest.pop().unwrap();
        assert(before =~= rest@.push(x));
        let mut j: usize = 0;
        while j < sorted.len() && sorted[j] < x
            invariant
                j <= sorted.len(),
                forall|i: int| 0 <= i < j ==> #[trigger] sorted@[i] < x,
            decreases sorted.len() - j,
        {
            j = j + 1;
        }
        let ghost s0 = sorted@;
        sorted.insert(j, x);
        proof {
            assert(sorted@ == s0.insert(j as int, x));
            vstd::seq_lib::to_multiset_insert(s0, j as int, x);
            vstd::seq_lib::to_multiset_build(rest@, x);
            assert(sorted@.to_multiset().add(rest@.to_multiset()) =~= orig.to_multiset()) by {
                broadcast use vstd::multiset::group_multiset_axioms;
            }
            assert forall|p: int, q: int| 0 <= p < q < sorted@.len() implies #[trigger] ns_le()(
                sorted@[p],
                sorted@[q],
            ) by {
                let jj = j as int;
                if p < jj && q > jj {
                    assert(sorted@[q] == s0[q - 1]);
                    assert(ns_le()(s0[p], s0[q - 1]));
                } else if q > jj && p > jj {
                    assert(ns_le()(s0[p - 1], s0[q - 1]));
                } else if p == jj && q > jj {
                    assert(sorted@[q] == s0[q - 1]);
                    assert(x <= s0[jj]);
                    if q - 1 > jj {
                        assert(ns_le()(s0[jj], s0[q - 1]));
                    }
                } else if p < jj && q < jj {
                    assert(ns_le()(s0[p], s0[q]));
                } else {
                    assert(sorted@[p] == s0[p]);
                    assert(s0[p] < x);
                }
            }
        }
    }
    proof {
        assert(sorted@.to_multiset() =~= orig.to_multiset()) by {
            broadcast use vstd::multiset::group_multiset_axioms;
        }
        lemma_ns_le_total();
        orig.lemma_sort_by_ensures(ns_le());
        vstd::seq_lib::lemma_sorted_unique(sorted@, sorted_samples(orig), ns_le());
    }
    sorted
}

/// The sample recorded for one run of the benchmarked operation: its
/// elapsed time when it succeeded, zero when it failed.
pub fn sample_ns(succeeded: bool, elapsed_ns: u64) -> (t: u64)
    ensures
        t == (if succeeded { elapsed_ns } else { 0 }),
{
    if succeeded { elapsed_ns } else { 0 }
}

/// Label of the screenshot-latency benchmark.
pub fn screenshot_label() -> (l: String)
    ensures
        l@ == "screenshot"@,
{
    String::from_str("screenshot")
}

/// Label of the key-tap benchmark for `key`.
pub fn key_tap_label(key: &str) -> (l: String)
    ensures
        l@ == "key_tap:"@ + key@,
{
    let mut l = String::from_str("key_tap:");
    l.append(key);
    l
}

/// Label of the mouse-click benchmark at `(x, y)`.
pub fn mouse_click_label(x: i32, y: i32) -> (l: String)
    ensures
        l@ == "mouse_click:"@ + int_decimal(x as int) + ","@ + int_decimal(y as int),
{
    let mut l = String::from_str("mouse_click:");
    push_decimal_i64(&mut l, x as i64);
    l.append(",");
    push_decimal_i64(&mut l, y as i64);
    l
}

proof fn lemma_total_between(s: Seq<u64>, lo: int, hi: int)
    requires
        forall|i: int| 0 <= i < s.len() ==> lo <= #[trigger] s[i] <= hi,
    ensures
        s.len() * lo <= sample_total(s) <= s.len() * hi,
    decreases s.len(),
{
    if s.len() > 0 {
        let d = s.drop_last();
        assert forall|i: int| 0 <= i < d.len() implies lo <= #[trigger] d[i] <= hi by {
            assert(d[i] == s[i]);
        }
        lemma_total_between(d, lo, hi);
        assert(lo <= s.last() <= hi);
        assert(s.len() * lo == d.len() * lo + lo) by (nonlinear_arith)
            requires
                s.len() == d.len() + 1,
        ;
        assert(s.len() * hi == d.len() * hi + hi) by (nonlinear_arith)
            requires
                s.len() == d.len() + 1,
        ;
    }
}

/// Every sample lies between the smallest and the largest sorted sample.
proof fn lemma_samples_within_sorted(s: Seq<u64>)
    requires
        s.len() > 0,
    ensures
        forall|i: int|
            0 <= i < s.len() ==> sorted_samples(s)[0] <= #[trigger] s[i] <= sorted_samples(s)[s.len()
                - 1],
{
    broadcast use vstd::seq_lib::group_to_multiset_ensures;

    lemma_sorted_samples(s);
    let t = sorted_samples(s);
    assert forall|i: int| 0 <= i < s.len() implies t[0] <= #[trigger] s[i] <= t[s.len() - 1] by {
        assert(s.to_multiset().count(s[i]) > 0);
        assert(t.contains(s[i]));
        let k = choose|k: int| 0 <= k < t.len() && t[k] == s[i];
        assert(t[0] <= t[k] && t[k] <= t[s.len() - 1]);
    }
}

/// The total of no samples is zero, and one more sample adds its value.
pub proof fn lemma_total_step(s: Seq<u64>, x: u64)
    ensures
        sample_total(Seq::<u64>::empty()) == 0,
        sample_total(s.push(x)) == sample_total(s) + x,
{
    assert(s.push(x).drop_last() =~= s);
}

proof fn lemma_total_remove(s: Seq<u64>, i: int)
    requires
        0 <= i < s.len(),
    ensures
        sample_total(s) == sample_total(s.remove(i)) + s[i],
    decreases s.len(),
{
    if i == s.len() - 1 {
        assert(s.remove(i) =~= s.drop_last());
    } else {
        let d = s.drop_last();
        lemma_total_remove(d, i);
        assert(s.remove(i).drop_last() =~= d.remove(i));
        assert(s.remove(i).last() == s.last());
    }
}

proof fn lemma_total_of_multiset(s1: Seq<u64>, s2: Seq<u64>)
    requires
        s1.to_multiset() == s2.to_multiset(),
    ensures
        sample_total(s1) == sample_total(s2),
    decreases s1.len(),
{
    broadcast use vstd::seq_lib::group_to_multiset_ensures;
    broadcast use vstd::multiset::group_multiset_axioms;

    if s1.len() == 0 {
        assert(s2.to_multiset().len() == 0);
        assert(s2.len() == 0);
    } else {
        let x = s1.last();
        let d = s1.drop_last();
        assert(s1 =~= d.push(x));
        assert(s1.to_multiset() == d.to_multiset().insert(x));
        assert(s2.to_multiset().count(x) > 0);
        assert(s2.contains(x));
        let i = choose|i: int| 0 <= i < s2.len() && s2[i] == x;
        assert(s2.remove(i).to_multiset() == s2.to_multiset().remove(x));
        assert(s2.remove(i).to_multiset() =~= d.to_multiset());
        lemma_total_of_multiset(d, s2.remove(i));
        lemma_total_remove(s2, i);
    }
}

/// The summary of a batch of samples does not depend on the order in
/// which they were collected: any rearrangement has the same count,
/// total, sorted order, and hence the same mean and percentiles.
pub proof fn lemma_summary_ignores_order(s1: Seq<u64>, s2: Seq<u64>)
    requires
        s1.to_multiset() == s2.to_multiset(),
    ensures
        s1.len() == s2.len(),
        sample_total(s1) == sample_total(s2),
        sorted_samples(s1) == sorted_samples(s2),
        forall|pct: int| #[trigger] percentile(s1, pct) == percentile(s2, pct),
{
    broadcast use vstd::seq_lib::group_to_multiset_ensures;

    assert(s1.len() == s1.to_multiset().len());
    assert(s2.len() == s2.to_multiset().len());
    lemma_total_of_multiset(s1, s2);
    lemma_ns_le_total();
    s1.lemma_sort_by_ensures(ns_le());
    s2.lemma_sort_by_ensures(ns_le());
    vstd::seq_lib::lemma_sorted_unique(sorted_samples(s1), sorted_samples(s2), ns_le());
}

/// The percentiles of a non-empty batch of samples are samples of the
/// batch, lie between its smallest and largest sample, and grow with the
/// rank: p50 <= p95 <= p99.
pub proof fn lemma_percentiles_ordered(s: Seq<u64>)
    requires
        s.len() > 0,
    ensures
        percentile(s, 50) <= percentile(s, 95) <= percentile(s, 99),
        sorted_samples(s)[0] <= percentile(s, 50),
        percentile(s, 99) <= sorted_samples(s)[s.len() - 1],
        s.contains(percentile(s, 50)),
        s.contains(percentile(s, 95)),
        s.contains(percentile(s, 99)),
{
    broadcast use vstd::seq_lib::group_to_multiset_ensures;

    lemma_sorted_samples(s);
    let n = s.len() as int;
    let t = sorted_samples(s);
    assert(2 * (n - 1) * 50 <= 2 * (n - 1) * 95 <= 2 * (n - 1) * 99) by (nonlinear_arith)
        requires
            n >= 1,
    ;
    assert((2 * (n - 1) * 50 + 100) / 200 <= (2 * (n - 1) * 95 + 100) / 200) by (nonlinear_arith)
        requires
            2 * (n - 1) * 50 <= 2 * (n - 1) * 95,
    ;
    assert((2 * (n - 1) * 95 + 100) / 200 <= (2 * (n - 1) * 99 + 100) / 200) by (nonlinear_arith)
        requires
            2 * (n - 1) * 95 <= 2 * (n - 1) * 99,
    ;
    assert(0 <= (2 * (n - 1) * 50 + 100) / 200) by (nonlinear_arith)
        requires
            n >= 1,
    ;
    let i50 = rank_index(n, 50);
    let i95 = rank_index(n, 95);
    let i99 = rank_index(n, 99);
    assert(0 <= i50 <= i95 <= i99 <= n - 1);
    assert(t.contains(t[i50]));
    assert(t.contains(t[i95]));
    assert(t.contains(t[i99]));
    assert(t.to_multiset().count(t[i50]) > 0);
    assert(t.to_multiset().count(t[i95]) > 0);
    assert(t.to_multiset().count(t[i99]) > 0);
}

/// The mean of a non-empty batch of samples (rounded down) lies between
/// its smallest and its largest sample.
pub proof fn lemma_mean_within_range(s: Seq<u64>)
    requires
        s.len() > 0,
    ensures
        sorted_samples(s)[0] <= sample_total(s) / (s.len() as int) <= sorted_samples(s)[s.len()
            - 1],
{
    lemma_samples_within_sorted(s);
    let t = sorted_samples(s);
    let lo = t[0] as int;
    let hi = t[s.len() - 1] as int;
    lemma_total_between(s, lo, hi);
    let n = s.len() as int;
    let tot = sample_total(s);
    assert(lo <= tot / n <= hi) by (nonlinear_arith)
        requires
            n * lo <= tot <= n * hi,
            n > 0,
    ;
}

fn rank_index_exec(n: usize, pct: u64) -> (r: usize)
    requires
        1 <= n <= u32::MAX,
        pct <= 100,
    ensures
        r == rank_index(n as int, pct as int),
        r < n,
{
    let m: u64 = (n - 1) as u64;
    assert(2 * m * pct <= 2 * 0xffff_ffffu64 * 100) by (nonlinear_arith)
        requires
            m <= 0xffff_ffffu64,
            pct <= 100,
    ;
    let r: u64 = (2 * m * pct + 100) / 200;
    if r < m {
        r as usize
    } else {
        n - 1
    }
}

/// Summary statistics of the latency samples `times` (in nanoseconds):
/// their count, total, mean (rounded down) and the 50th, 95th and 99th
/// nearest-rank percentiles. No samples give all zeros.
pub fn summarize(label: String, times: Vec<u64>) -> (r: BenchResult)
    requires
        times@.len() <= u32::MAX,
    ensures
        r.iterations == times@.len(),
        summarizes(r, label@, times@),
{
    let n = times.len();
    let iterations = n as u32;
    if n == 0 {
        return BenchResult {
            label,
            iterations: 0,
            total_ns: 0,
            mean_ns: 0,
            p50_ns: 0,
            p95_ns: 0,
            p99_ns: 0,
        };
    }
    let mut total: u128 = 0;
    for i in 0..n
        invariant
            n == times@.len(),
            n <= u32::MAX,
            total == sample_total(times@.subrange(0, i as int)),
            total <= i * 0xffff_ffff_ffff_ffff,
    {
        assert(times@.subrange(0, i + 1).drop_last() =~= times@.subrange(0, i as int));
        assert(total + times[i as int] <= (i + 1) * 0xffff_ffff_ffff_ffff) by (nonlinear_arith)
            requires
                total <= i * 0xffff_ffff_ffff_ffff,
                times[i as int] <= 0xffff_ffff_ffff_ffffu64,
        ;
        assert((i + 1) * 0xffff_ffff_ffff_ffff <= 0x1_0000_0000 * 0xffff_ffff_ffff_ffffu128) by (nonlinear_arith)
            requires
                i < 0x1_0000_0000,
        ;
        total = total + times[i] as u128;
    }
    assert(times@.subrange(0, n as int) =~= times@);
    let mean: u128 = total / (n as u128);
    assert(mean <= 0xffff_ffff_ffff_ffff) by (nonlinear_arith)
        requires
            total <= n * 0xffff_ffff_ffff_ffff,
            n >= 1,
            mean == total / (n as u128),
    ;
    let ghost samples = times@;
    let sorted = sort_samples(times);
    proof {
        lemma_sorted_samples(samples);
    }
    let i50 = rank_index_exec(n, 50);
    let i95 = rank_index_exec(n, 95);
    let i99 = rank_index_exec(n, 99);
    BenchResult {
        label,
        iterations,
        total_ns: total,
        mean_ns: mean as u64,
        p50_ns: sorted[i50],
        p95_ns: sorted[i95],
        p99_ns: sorted[i99],
    }
}

/// `r` carries the statistics of the samples `s` under `label`: their
/// total, their mean rounded down and their 50th, 95th and 99th
/// percentiles, all zero when there are none. (The iteration count is
/// stated separately.)
pub open spec fn summarizes(r: BenchResult, label: Seq<char>, s: Seq<u64>) -> bool {
    &&& r.label@ == label
    &&& r.total_ns == sample_total(s)
    &&& s.len() == 0 ==> r.mean_ns == 0 && r.p50_ns == 0 && r.p95_ns == 0 && r.p99_ns == 0
    &&& s.len() > 0 ==> {
        &&& r.mean_ns == sample_total(s) / (s.len() as int)
        &&& r.p50_ns == percentile(s, 50)
        &&& r.p95_ns == percentile(s, 95)
        &&& r.p99_ns == percentile(s, 99)
    }
}

/// The end of a throughput window of `window_ms` milliseconds opened at
/// `now_ns`, in nanoseconds; it saturates at `u64::MAX`, which lies more
/// than 584 years after the clock's origin.
pub open spec fn window_end(now_ns: u64, window_ms: u64) -> u64 {
    let end = now_ns + window_ms * 1_000_000;
    if end <= u64::MAX { end as u64 } else { u64::MAX }
}

/// A sustained-throughput run: it keeps going while the clock is before
/// the end of its window, times only the calls that succeed, and counts
/// them. The caller reads the clock, performs the calls and feeds the
/// outcomes in.
pub struct ThroughputRun {
    deadline_ns: u64,
    /// Elapsed times of the successful calls; their number is the count.
    times: Vec<u64>,
}

impl ThroughputRun {
    /// End of the window, in nanoseconds on the caller's clock.
    pub closed spec fn deadline(&self) -> u64 {
        self.deadline_ns
    }

    /// Elapsed times of the successful calls, in the order they came.
    pub closed spec fn samples(&self) -> Seq<u64> {
        self.times@
    }

    /// Number of successful calls.
    pub closed spec fn count(&self) -> nat {
        self.times@.len()
    }

    /// Open a window of `window_ms` milliseconds at time `now_ns`.
    pub fn start(now_ns: u64, window_ms: u64) -> (r: Self)
        ensures
            r.deadline() == window_end(now_ns, window_ms),
            r.samples() == Seq::<u64>::empty(),
            r.count() == 0,
    {
        let end: u128 = now_ns as u128 + window_ms as u128 * 1_000_000;
        let deadline_ns: u64 = if end <= u64::MAX as u128 { end as u64 } else { u64::MAX };
        ThroughputRun { deadline_ns, times: Vec::new() }
    }

    /// Whether another call is made at time `now_ns`.
    pub fn keep_going(&self, now_ns: u64) -> (b: bool)
        ensures
            b == (now_ns < self.deadline()),
    {
        now_ns < self.deadline_ns
    }

    /// Take the outcome of one call: a successful call is timed and
    /// counted, a failed one is neither.
    pub fn record(&mut self, succeeded: bool, elapsed_ns: u64)
        requires
            old(self).count() < u32::MAX,
        ensures
            final(self).deadline() == old(self).deadline(),
            final(self).samples() == if succeeded {
                old(self).samples().push(elapsed_ns)
            } else {
                old(self).samples()
            },
            final(self).count() == old(self).count() + if succeeded { 1nat } else { 0nat },
    {
        if succeeded {
            self.times.push(elapsed_ns);
        }
    }

    /// Whether another call may still be counted (the count is a `u32`).
    pub fn can_count_more(&self) -> (b: bool)
        ensures
            b == (self.count() < u32::MAX),
    {
        self.times.len() < u32::MAX as usize
    }

    /// Summary of the run: the statistics of the successful calls' times,
    /// with their number as the iteration count.
    pub fn finish(self, label: String) -> (r: BenchResult)
        requires
            self.count() <= u32::MAX,
        ensures
            r.iterations == self.count(),
            summarizes(r, label@, self.samples()),
    {
        summarize(label, self.times)
    }
}

/// A window of zero length runs nothing: the run stops at once, at any
/// time from its opening on.
pub proof fn lemma_zero_window_runs_nothing(now_ns: u64, later_ns: u64)
    requires
        now_ns <= later_ns,
    ensures
        window_end(now_ns, 0) == now_ns,
        !(later_ns < window_end(now_ns, 0)),
{
}

} // verus!

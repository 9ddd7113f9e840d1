//! Latency histogram with one bucket per nanosecond up to ten microseconds.

use vstd::prelude::*;

verus! {

/// Number of buckets: 0 ns up to and including 10,000 ns.
pub const BUCKETS: usize = 10_001;

/// What `percentile` returns for a value beyond the last bucket.
pub const BEYOND: u64 = 10_001;

/// Sum of a sequence of counts.
pub open spec fn total(counts: Seq<u64>) -> nat
    decreases counts.len(),
{
    if counts.len() == 0 {
        0
    } else {
        total(counts.drop_last()) + counts.last() as nat
    }
}

proof fn lemma_total_prefix(counts: Seq<u64>, k: int)
    requires
        0 <= k <= counts.len(),
    ensures
        total(counts.take(k)) <= total(counts),
    decreases counts.len() - k,
{
    if k < counts.len() {
        lemma_total_prefix(counts, k + 1);
        assert(counts.take(k + 1).drop_last() == counts.take(k));
    } else {
        assert(counts.take(k) == counts);
    }
}

proof fn lemma_total_update(counts: Seq<u64>, i: int, v: u64)
    requires
        0 <= i < counts.len(),
    ensures
        total(counts.update(i, v)) == total(counts) - counts[i] + v,
    decreases counts.len(),
{
    let after = counts.update(i, v);
    if i == counts.len() - 1 {
        assert(after.drop_last() == counts.drop_last());
    } else {
        lemma_total_update(counts.drop_last(), i, v);
        assert(after.drop_last() == counts.drop_last().update(i, v));
    }
}

proof fn lemma_total_zero(counts: Seq<u64>)
    requires
        forall|i: int| 0 <= i < counts.len() ==> counts[i] == 0,
    ensures
        total(counts) == 0,
    decreases counts.len(),
{
    if counts.len() > 0 {
        lemma_total_zero(counts.drop_last());
    }
}

/// The least rank that covers `p_num / p_den` of `n` observations: at least 1.
pub open spec fn rank(n: int, p_num: int, p_den: int) -> int {
    let r = (n * p_num + p_den - 1) / p_den;
    if r < 1 {
        1
    } else {
        r
    }
}

/// Counts of latencies, one bucket per nanosecond, and of those beyond the last bucket.
pub struct LatencyHistogram {
    /// Observations of exactly `i` ns.
    pub buckets: Vec<u64>,
    /// Observations above 10,000 ns.
    pub overflow: u64,
}

/// The contents of a histogram.
#[verifier::ext_equal]
pub ghost struct HistogramView {
    /// Observations of exactly `i` ns.
    pub buckets: Seq<u64>,
    /// Observations above 10,000 ns.
    pub overflow: u64,
}

impl HistogramView {
    /// The histogram after one more observation.
    pub open spec fn record(self, ns: u64) -> HistogramView {
        if ns < BUCKETS {
            HistogramView {
                buckets: self.buckets.update(ns as int, (self.buckets[ns as int] + 1) as u64),
                ..self
            }
        } else {
            HistogramView { overflow: (self.overflow + 1) as u64, ..self }
        }
    }

    /// All buckets are there, and the number of observations fits 64 bits.
    pub open spec fn wf(self) -> bool {
        self.buckets.len() == BUCKETS && self.observations() <= u64::MAX
    }

    /// Number of observations recorded.
    pub open spec fn observations(self) -> nat {
        total(self.buckets) + self.overflow as nat
    }

    /// Number of observations of at most `ns` nanoseconds.
    pub open spec fn at_most(self, ns: int) -> nat {
        total(self.buckets.take(ns + 1))
    }

    /// The first bucket from `i` on up to which there are at least `threshold` observations.
    pub open spec fn first_reaching(self, threshold: int, i: int) -> int
        decreases BUCKETS - i,
    {
        if i >= BUCKETS {
            BEYOND as int
        } else if self.at_most(i) >= threshold {
            i
        } else {
            self.first_reaching(threshold, i + 1)
        }
    }

    /// The least latency that at least `p_num / p_den` of `n` observations do not exceed;
    /// 10,001 if that is beyond the last bucket, 0 if there are no observations.
    pub open spec fn percentile_of(self, p_num: int, p_den: int, n: int) -> int {
        if n == 0 {
            0
        } else {
            self.first_reaching(rank(n, p_num, p_den), 0)
        }
    }

    /// The percentile of all observations recorded.
    pub open spec fn quantile(self, p_num: int, p_den: int) -> int {
        self.percentile_of(p_num, p_den, self.observations() as int)
    }
}

/// A histogram without observations.
pub open spec fn empty_histogram() -> HistogramView {
    HistogramView { buckets: Seq::new(BUCKETS as nat, |i: int| 0u64), overflow: 0 }
}

impl View for LatencyHistogram {
    type V = HistogramView;

    open spec fn view(&self) -> HistogramView {
        HistogramView { buckets: self.buckets@, overflow: self.overflow }
    }
}

impl LatencyHistogram {
    /// All buckets are there, and the number of observations fits 64 bits.
    pub open spec fn wf(&self) -> bool {
        self@.wf()
    }

    /// Number of observations recorded.
    pub open spec fn observations(&self) -> nat {
        self@.observations()
    }

    /// An empty histogram.
    pub fn new() -> (h: LatencyHistogram)
        ensures
            h.wf(),
            h.observations() == 0,
            h@ == empty_histogram(),
    {
        let mut buckets: Vec<u64> = Vec::new();
        while buckets.len() < BUCKETS
            invariant
                buckets.len() <= BUCKETS,
                forall|i: int| 0 <= i < buckets@.len() ==> buckets@[i] == 0,
            decreases BUCKETS - buckets.len(),
        {
            buckets.push(0);
        }
        proof {
            lemma_total_zero(buckets@);
        }
        LatencyHistogram { buckets, overflow: 0 }
    }

    /// Counts one observation.
    pub fn record(&mut self, ns: u64)
        requires
            old(self).wf(),
            old(self).observations() < u64::MAX,
        ensures
            final(self).wf(),
            final(self).observations() == old(self).observations() + 1,
            final(self)@ == old(self)@.record(ns),
    {
        if ns <= 10_000 {
            let i: usize = ns as usize;
            proof {
                lemma_bucket_bound(self.buckets@, i as int);
                lemma_total_update(self.buckets@, i as int, (self.buckets@[i as int] + 1) as u64);
            }
            let n: u64 = self.buckets[i] + 1;
            self.buckets.set(i, n);
        } else {
            self.overflow = self.overflow + 1;
        }
    }

    /// Number of observations recorded.
    pub fn count(&self) -> (n: u64)
        requires
            self.wf(),
        ensures
            n == self.observations(),
    {
        let mut sum: u64 = 0;
        let mut i: usize = 0;
        assert(self.buckets@.take(0) == Seq::<u64>::empty());
        while i < BUCKETS
            invariant
                i <= BUCKETS,
                self.wf(),
                sum == total(self.buckets@.take(i as int)),
            decreases BUCKETS - i,
        {
            proof {
                lemma_total_prefix(self.buckets@, i + 1);
                assert(self.buckets@.take(i + 1).drop_last() == self.buckets@.take(i as int));
            }
            sum = sum + self.buckets[i];
            i = i + 1;
        }
        assert(self.buckets@.take(BUCKETS as int) == self.buckets@);
        sum + self.overflow
    }

    /// The percentile of the observations, `n` of them in all.
    pub fn percentile(&self, p_num: u64, p_den: u64, n: u64) -> (ns: u64)
        requires
            self.wf(),
            p_den > 0,
        ensures
            ns == self@.percentile_of(p_num as int, p_den as int, n as int),
    {
        if n == 0 {
            return 0;
        }
        proof {
            lemma_product_bound(n, p_num);
        }
        let scaled: u128 = n as u128 * p_num as u128;
        proof {
            lemma_ceil(scaled as int, p_den as int);
        }
        let mut threshold: u128 = scaled / p_den as u128;
        if scaled % p_den as u128 != 0 {
            threshold = threshold + 1;
        }
        if threshold < 1 {
            threshold = 1;
        }
        let mut sum: u64 = 0;
        let mut i: usize = 0;
        assert(self.buckets@.take(0) == Seq::<u64>::empty());
        while i < BUCKETS
            invariant
                i <= BUCKETS,
                self.wf(),
                n > 0,
                sum == total(self.buckets@.take(i as int)),
                threshold == rank(n as int, p_num as int, p_den as int),
                self@.percentile_of(p_num as int, p_den as int, n as int) == self@.first_reaching(
                    threshold as int,
                    i as int,
                ),
            decreases BUCKETS - i,
        {
            proof {
                lemma_total_prefix(self.buckets@, i + 1);
                assert(self.buckets@.take(i + 1).drop_last() == self.buckets@.take(i as int));
            }
            sum = sum + self.buckets[i];
            if sum as u128 >= threshold {
                return i as u64;
            }
            i = i + 1;
        }
        BEYOND
    }
}

proof fn lemma_product_bound(a: u64, b: u64)
    ensures
        0 <= a * b < u128::MAX,
{
    assert(0 <= a * b <= u64::MAX * u64::MAX) by (nonlinear_arith)
        requires
            0 <= a <= u64::MAX,
            0 <= b <= u64::MAX,
    ;
}

proof fn lemma_first_reaching(h: HistogramView, threshold: int, i: int)
    requires
        0 <= i <= BUCKETS,
    ensures
        i <= h.first_reaching(threshold, i) <= BEYOND,
        h.first_reaching(threshold, i) < BUCKETS ==> h.at_most(h.first_reaching(threshold, i))
            >= threshold,
        forall|k: int| i <= k < h.first_reaching(threshold, i) ==> h.at_most(k) < threshold,
    decreases BUCKETS - i,
{
    if i < BUCKETS && h.at_most(i) < threshold {
        lemma_first_reaching(h, threshold, i + 1);
    }
}

/// The percentile reaches its rank, and no smaller latency does.
pub proof fn law_percentile(h: HistogramView, p_num: int, p_den: int, n: int)
    requires
        h.wf(),
        n > 0,
        p_num >= 0,
        p_den > 0,
    ensures
        0 <= h.percentile_of(p_num, p_den, n) <= BEYOND,
        h.percentile_of(p_num, p_den, n) < BUCKETS ==> h.at_most(h.percentile_of(p_num, p_den, n))
            >= rank(n, p_num, p_den),
        forall|k: int|
            0 <= k < h.percentile_of(p_num, p_den, n) ==> h.at_most(k) < rank(n, p_num, p_den),
{
    lemma_first_reaching(h, rank(n, p_num, p_den), 0);
}

/// A recorded latency counts from its bucket on, and nowhere below it.
pub proof fn law_record_counts(h: HistogramView, ns: u64, k: int)
    requires
        h.wf(),
        h.observations() < u64::MAX,
        0 <= k < BUCKETS,
    ensures
        h.record(ns).at_most(k) == h.at_most(k) + if ns <= k {
            1nat
        } else {
            0nat
        },
{
    if ns <= k {
        let part = h.buckets.take(k + 1);
        lemma_bucket_bound(h.buckets, ns as int);
        lemma_total_update(part, ns as int, (h.buckets[ns as int] + 1) as u64);
        assert(h.record(ns).buckets.take(k + 1) == part.update(
            ns as int,
            (h.buckets[ns as int] + 1) as u64,
        ));
    } else {
        assert(h.record(ns).buckets.take(k + 1) == h.buckets.take(k + 1));
    }
}

/// A larger share is never covered by a smaller latency.
pub proof fn law_percentile_monotone(h: HistogramView, n: int, p1: int, p2: int, den: int)
    requires
        h.wf(),
        n > 0,
        0 <= p1 <= p2,
        den > 0,
    ensures
        h.percentile_of(p1, den, n) <= h.percentile_of(p2, den, n),
{
    law_percentile(h, p1, den, n);
    law_percentile(h, p2, den, n);
    assert(n * p1 + den - 1 <= n * p2 + den - 1) by (nonlinear_arith)
        requires
            n > 0,
            p1 <= p2,
    ;
    vstd::arithmetic::div_mod::lemma_div_is_ordered(
        n * p1 + den - 1,
        n * p2 + den - 1,
        den,
    );
    let b = h.percentile_of(p2, den, n);
    if b < h.percentile_of(p1, den, n) {
        assert(h.at_most(b) < rank(n, p1, den));
    }
}

proof fn lemma_bucket_bound(counts: Seq<u64>, i: int)
    requires
        0 <= i < counts.len(),
    ensures
        counts[i] <= total(counts),
{
    lemma_total_prefix(counts, i + 1);
    assert(counts.take(i + 1).last() == counts[i]);
}

/// Rounding a quotient up is adding one where the division leaves a rest.
pub proof fn lemma_ceil(a: int, b: int)
    requires
        a >= 0,
        b > 0,
    ensures
        (a + b - 1) / b == a / b + if a % b != 0 {
            1int
        } else {
            0int
        },
        a / b <= a,
        a % b != 0 ==> a / b + 1 <= a,
{
    vstd::arithmetic::div_mod::lemma_fundamental_div_mod(a, b);
    let q = a / b;
    let r = a % b;
    assert(0 <= r < b);
    if r == 0 {
        assert((a + b - 1) / b == q) by (nonlinear_arith)
            requires
                a == b * q,
                b > 0,
        ;
    } else {
        assert((a + b - 1) / b == q + 1) by (nonlinear_arith)
            requires
                a == b * q + r,
                0 < r < b,
        ;
    }
    assert(q + r <= a) by (nonlinear_arith)
        requires
            a == b * q + r,
            0 <= r < b,
            b > 0,
            a >= 0,
    ;
}

/// The rank of a share is the least number of observations that is at least that share of
/// them, and at least one.
pub proof fn law_rank(n: int, p_num: int, p_den: int)
    requires
        n >= 0,
        p_num >= 0,
        p_den > 0,
    ensures
        rank(n, p_num, p_den) >= 1,
        rank(n, p_num, p_den) * p_den >= n * p_num,
        rank(n, p_num, p_den) > 1 ==> (rank(n, p_num, p_den) - 1) * p_den < n * p_num,
{
    let a = n * p_num;
    assert(a >= 0) by (nonlinear_arith)
        requires
            n >= 0,
            p_num >= 0,
            a == n * p_num,
    ;
    let q = (a + p_den - 1) / p_den;
    vstd::arithmetic::div_mod::lemma_fundamental_div_mod(a + p_den - 1, p_den);
    let m = (a + p_den - 1) % p_den;
    assert(0 <= m < p_den);
    assert(q * p_den >= a && (q - 1) * p_den < a) by (nonlinear_arith)
        requires
            a + p_den - 1 == p_den * q + m,
            0 <= m < p_den,
    ;
    if q < 1 {
        assert(1 * p_den >= a) by (nonlinear_arith)
            requires
                q * p_den >= a,
                q < 1,
                p_den > 0,
        ;
    }
}

/// A histogram after a sequence of observations.
pub open spec fn recorded(h: HistogramView, samples: Seq<u64>) -> HistogramView
    decreases samples.len(),
{
    if samples.len() == 0 {
        h
    } else {
        recorded(h, samples.drop_last()).record(samples.last())
    }
}

/// A histogram counts every observation that was recorded: for each latency up to ten
/// microseconds the number of those that do not exceed it, and all of them together.
pub proof fn law_histogram_counts_samples(samples: Seq<u64>, k: int)
    requires
        samples.len() <= u64::MAX,
        0 <= k <= 10_000,
    ensures
        ({
            let h = recorded(empty_histogram(), samples);
            &&& h.wf()
            &&& h.observations() == samples.len()
            &&& h.at_most(k) == samples.filter(|x: u64| x <= k).len()
        }),
    decreases samples.len(),
{
    reveal(Seq::filter);
    let start = empty_histogram();
    if samples.len() == 0 {
        lemma_total_zero(start.buckets);
        lemma_total_zero(start.buckets.take(k + 1));
    } else {
        let head = samples.drop_last();
        let ns = samples.last();
        law_histogram_counts_samples(head, k);
        let h = recorded(start, head);
        law_record_counts(h, ns, k);
        lemma_record_observations(h, ns);
    }
}

proof fn lemma_record_observations(h: HistogramView, ns: u64)
    requires
        h.wf(),
        h.observations() < u64::MAX,
    ensures
        h.record(ns).wf(),
        h.record(ns).observations() == h.observations() + 1,
{
    if ns < BUCKETS {
        lemma_bucket_bound(h.buckets, ns as int);
        lemma_total_update(h.buckets, ns as int, (h.buckets[ns as int] + 1) as u64);
    }
}

/// The percentiles of recorded observations are theirs: a percentile within the buckets is a
/// latency that at least the share of the observations does not exceed, and that less than
/// the share stays below; one beyond the buckets means that less than the share is within
/// ten microseconds.
pub proof fn law_percentile_of_samples(samples: Seq<u64>, p_num: int, p_den: int, k: int)
    requires
        0 < samples.len() <= u64::MAX,
        0 < p_num <= p_den,
        0 <= k <= 10_000,
    ensures
        ({
            let q = recorded(empty_histogram(), samples).quantile(p_num, p_den);
            let covered = samples.filter(|x: u64| x <= k).len();
            &&& 0 <= q <= 10_001
            &&& k == q ==> covered * p_den >= samples.len() * p_num
            &&& k < q ==> covered * p_den < samples.len() * p_num
        }),
{
    let h = recorded(empty_histogram(), samples);
    let n = samples.len() as int;
    law_histogram_counts_samples(samples, k);
    law_percentile(h, p_num, p_den, n);
    law_rank(n, p_num, p_den);
    let r = rank(n, p_num, p_den);
    let q = h.quantile(p_num, p_den);
    let c = h.at_most(k) as int;
    if k == q {
        assert(c * p_den >= n * p_num) by (nonlinear_arith)
            requires
                c >= r,
                r * p_den >= n * p_num,
                p_den > 0,
        ;
    } else if k < q {
        assert(c < r);
        if r > 1 {
            assert(c * p_den < n * p_num) by (nonlinear_arith)
                requires
                    c <= r - 1,
                    (r - 1) * p_den < n * p_num,
                    p_den > 0,
            ;
        } else {
            assert(c * p_den == 0) by (nonlinear_arith)
                requires
                    c == 0,
            ;
            assert(n * p_num > 0) by (nonlinear_arith)
                requires
                    n > 0,
                    p_num > 0,
            ;
        }
    }
}

/// An observation of more than ten microseconds counts beyond the buckets and in none of
/// them.
pub proof fn law_record_beyond(h: HistogramView, ns: u64)
    requires
        ns > 10_000,
        h.overflow < u64::MAX,
    ensures
        h.record(ns).overflow == h.overflow + 1,
        h.record(ns).buckets == h.buckets,
{
}

/// Without observations every percentile is zero.
pub proof fn law_no_observations(p_num: int, p_den: int)
    ensures
        empty_histogram().observations() == 0,
        empty_histogram().quantile(p_num, p_den) == 0,
{
    lemma_total_zero(empty_histogram().buckets);
}

} // verus!

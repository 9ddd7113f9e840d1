//! Summaries of a finished run: latency percentiles, slippage and the scorecard's counts.

use vstd::prelude::*;
use crate::ieee::{is_le, is_lt64, is_positive, key_of64};
use crate::logs::{RoundTrip, TradeExecution};
use crate::sort::stable_order;

verus! {

/// Summary of one latency stage, in nanoseconds.
#[derive(Clone, Copy, Debug, PartialEq, Eq, Structural)]
pub struct Stat {
    /// Mean, rounded down.
    pub avg: u64,
    /// Least sample.
    pub min: u64,
    /// Largest sample.
    pub max: u64,
    /// Median.
    pub p50: u64,
    /// 95th percentile.
    pub p95: u64,
    /// 99th percentile.
    pub p99: u64,
    /// 99.9th percentile.
    pub p999: u64,
    /// Number of samples.
    pub count: usize,
}

/// The order of numbers.
pub open spec fn at_most() -> spec_fn(u64, u64) -> bool {
    |a: u64, b: u64| a <= b
}

/// The samples in ascending order.
pub open spec fn ascending(v: Seq<u64>) -> Seq<u64> {
    v.sort_by(at_most())
}

/// Sum of samples.
pub open spec fn sum_of(v: Seq<u64>) -> nat
    decreases v.len(),
{
    if v.len() == 0 {
        0
    } else {
        sum_of(v.drop_last()) + v.last() as nat
    }
}

/// The sample at the nearest rank that covers `num / den` of the samples.
pub open spec fn nearest(v: Seq<u64>, num: int, den: int) -> u64 {
    let r = crate::histogram::rank(v.len() as int, num, den);
    ascending(v)[if r < v.len() {
        r - 1
    } else {
        v.len() - 1
    }]
}

/// The summary of samples, of which there is at least one.
pub open spec fn summary(v: Seq<u64>) -> Stat {
    Stat {
        avg: (sum_of(v) / v.len()) as u64,
        min: ascending(v)[0],
        max: ascending(v)[v.len() - 1],
        p50: nearest(v, 50, 100),
        p95: nearest(v, 95, 100),
        p99: nearest(v, 99, 100),
        p999: nearest(v, 999, 1000),
        count: v.len() as usize,
    }
}

proof fn lemma_ascending(v: Seq<u64>, s: Seq<u64>)
    requires
        s.to_multiset() == v.to_multiset(),
        forall|i: int, j: int| 0 <= i < j < s.len() ==> s[i] <= s[j],
    ensures
        s == ascending(v),
{
    let leq = at_most();
    assert(vstd::relations::total_ordering(leq));
    v.lemma_sort_by_ensures(leq);
    assert(vstd::relations::sorted_by(s, leq));
    vstd::seq_lib::lemma_sorted_unique(s, ascending(v), leq);
}

/// The samples in ascending order.
fn sort_samples(v: &Vec<u64>) -> (s: Vec<u64>)
    ensures
        s@ == ascending(v@),
        s@.len() == v@.len(),
{
    let mut keys: Vec<i128> = Vec::new();
    let mut i: usize = 0;
    while i < v.len()
        invariant
            i <= v.len(),
            keys@.len() == i,
            forall|k: int| 0 <= k < i ==> keys@[k] == v@[k],
        decreases v.len() - i,
    {
        keys.push(v[i] as i128);
        i = i + 1;
    }
    let order = stable_order(&keys);
    let mut s: Vec<u64> = Vec::new();
    let mut j: usize = 0;
    while j < order.len()
        invariant
            j <= order.len(),
            keys@.len() == v@.len(),
            crate::sort::is_stable_order(keys@, order@),
            s@ == crate::sort::arranged(v@, order@).take(j as int),
        decreases order.len() - j,
    {
        assert(order@[j as int] < v@.len());
        s.push(v[order[j]]);
        j = j + 1;
        assert(s@ == crate::sort::arranged(v@, order@).take(j as int));
    }
    proof {
        assert(s@ == crate::sort::arranged(v@, order@));
        crate::sort::law_arranged_keeps_elements(v@, order@);
        assert forall|a: int, b: int| 0 <= a < b < s@.len() implies s@[a] <= s@[b] by {
            assert(order@[a] < v@.len());
            assert(order@[b] < v@.len());
            assert(crate::sort::precedes(keys@, order@[a] as int, order@[b] as int));
        }
        lemma_ascending(v@, s@);
    }
    s
}

/// The index of the nearest rank in `n` sorted samples.
fn rank_index(n: usize, num: u64, den: u64) -> (i: usize)
    requires
        n > 0,
        den > 0,
        n * num <= u64::MAX,
    ensures
        i == if crate::histogram::rank(n as int, num as int, den as int) < n {
            crate::histogram::rank(n as int, num as int, den as int) - 1
        } else {
            n - 1
        },
        i < n,
{
    let scaled: u64 = n as u64 * num;
    proof {
        crate::histogram::lemma_ceil(scaled as int, den as int);
    }
    let mut rank: u64 = scaled / den;
    if scaled % den != 0 {
        rank = rank + 1;
    }
    if rank < 1 {
        rank = 1;
    }
    if rank < n as u64 {
        rank as usize - 1
    } else {
        n - 1
    }
}

proof fn lemma_sum_bound(v: Seq<u64>)
    ensures
        sum_of(v) <= v.len() * u64::MAX,
    decreases v.len(),
{
    if v.len() > 0 {
        lemma_sum_bound(v.drop_last());
        assert((v.len() - 1) * u64::MAX + u64::MAX == v.len() * u64::MAX) by (nonlinear_arith);
    }
}

/// Summarizes samples; nothing if there are none.
pub fn summarize(v: Vec<u64>) -> (r: Option<Stat>)
    requires
        v.len() * 999 <= u64::MAX,
    ensures
        r == if v@.len() == 0 {
            None::<Stat>
        } else {
            Some(summary(v@))
        },
{
    let n: usize = v.len();
    if n == 0 {
        return None;
    }
    let mut sum: u128 = 0;
    let mut i: usize = 0;
    assert(v@.take(0) == Seq::<u64>::empty());
    while i < n
        invariant
            n == v.len(),
            i <= n,
            sum == sum_of(v@.take(i as int)),
        decreases n - i,
    {
        proof {
            lemma_sum_bound(v@.take(i + 1));
            assert(v@.take(i + 1).drop_last() == v@.take(i as int));
            assert((i + 1) * u64::MAX <= 0x1_0000_0000_0000_0000 * u64::MAX) by (nonlinear_arith)
                requires
                    i + 1 <= 0x1_0000_0000_0000_0000,
            ;
        }
        sum = sum + v[i] as u128;
        i = i + 1;
    }
    proof {
        assert(v@.take(n as int) == v@);
        lemma_sum_bound(v@);
        assert(sum_of(v@) / n as nat <= u64::MAX) by (nonlinear_arith)
            requires
                sum_of(v@) <= n * u64::MAX,
                n > 0,
        ;
    }
    let avg: u64 = (sum / n as u128) as u64;
    let s = sort_samples(&v);
    let p50: u64 = s[rank_index(n, 50, 100)];
    let p95: u64 = s[rank_index(n, 95, 100)];
    let p99: u64 = s[rank_index(n, 99, 100)];
    let p999: u64 = s[rank_index(n, 999, 1000)];
    Some(Stat { avg, min: s[0], max: s[n - 1], p50, p95, p99, p999, count: n })
}

/// The summary's values are ordered: no percentile is below the least sample, none above
/// the largest, and a larger share is never a smaller value.
pub proof fn law_summary_ordered(v: Seq<u64>)
    requires
        v.len() > 0,
    ensures
        ({
            let s = summary(v);
            s.min <= s.p50 <= s.p95 <= s.p99 <= s.p999 <= s.max
        }),
{
    let n = v.len() as int;
    let leq = at_most();
    assert(vstd::relations::total_ordering(leq));
    v.lemma_sort_by_ensures(leq);
    let s = ascending(v);
    vstd::seq_lib::to_multiset_len(v);
    vstd::seq_lib::to_multiset_len(s);
    assert forall|i: int, j: int| 0 <= i <= j < n implies s[i] <= s[j] by {
        if i < j {
            assert(leq(s[i], s[j]));
        }
    }
    let r50 = crate::histogram::rank(n, 50, 100);
    let r95 = crate::histogram::rank(n, 95, 100);
    let r99 = crate::histogram::rank(n, 99, 100);
    let r999 = crate::histogram::rank(n, 999, 1000);
    assert(1 <= r50 <= r95 <= r99 <= r999);
}

/// The transit estimates of the trades that have one.
pub open spec fn transits(t: Seq<TradeExecution>) -> Seq<u64>
    decreases t.len(),
{
    if t.len() == 0 {
        Seq::empty()
    } else if t.last().transit_est_ns > 0 {
        transits(t.drop_last()).push(t.last().transit_est_ns)
    } else {
        transits(t.drop_last())
    }
}

/// Transit, signal and round trip of a trade together, modulo 2^64.
pub open spec fn end_to_end(t: TradeExecution) -> u64 {
    crate::wrap::sum(crate::wrap::sum(t.transit_est_ns, t.latency_ns), t.round_trip_ns)
}

/// The trade was confirmed and has a transit estimate.
pub open spec fn has_end_to_end(t: TradeExecution) -> bool {
    t.round_trip_ns > 0 && t.transit_est_ns > 0
}

/// The end-to-end latencies of the trades that have one.
pub open spec fn ends_to_ends(t: Seq<TradeExecution>) -> Seq<u64>
    decreases t.len(),
{
    if t.len() == 0 {
        Seq::empty()
    } else if has_end_to_end(t.last()) {
        ends_to_ends(t.drop_last()).push(end_to_end(t.last()))
    } else {
        ends_to_ends(t.drop_last())
    }
}

/// The transit estimates of the trades that have one.
pub fn transit_samples(trades: &[TradeExecution]) -> (out: Vec<u64>)
    ensures
        out@ == transits(trades@),
        out@.len() <= trades@.len(),
{
    let mut out: Vec<u64> = Vec::new();
    let mut i: usize = 0;
    assert(trades@.take(0) == Seq::<TradeExecution>::empty());
    while i < trades.len()
        invariant
            i <= trades.len(),
            out@ == transits(trades@.take(i as int)),
            out@.len() <= i,
        decreases trades.len() - i,
    {
        assert(trades@.take(i + 1).drop_last() == trades@.take(i as int));
        if trades[i].transit_est_ns > 0 {
            out.push(trades[i].transit_est_ns);
        }
        i = i + 1;
    }
    assert(trades@.take(trades@.len() as int) == trades@);
    out
}

/// Transit, signal and round trip of a trade together, modulo 2^64.
pub fn end_to_end_ns(t: &TradeExecution) -> (ns: u64)
    ensures
        ns == end_to_end(*t),
{
    t.transit_est_ns.wrapping_add(t.latency_ns).wrapping_add(t.round_trip_ns)
}

/// The end-to-end latencies of the trades that have one.
pub fn end_to_end_samples(trades: &[TradeExecution]) -> (out: Vec<u64>)
    ensures
        out@ == ends_to_ends(trades@),
        out@.len() <= trades@.len(),
{
    let mut out: Vec<u64> = Vec::new();
    let mut i: usize = 0;
    assert(trades@.take(0) == Seq::<TradeExecution>::empty());
    while i < trades.len()
        invariant
            i <= trades.len(),
            out@ == ends_to_ends(trades@.take(i as int)),
            out@.len() <= i,
        decreases trades.len() - i,
    {
        assert(trades@.take(i + 1).drop_last() == trades@.take(i as int));
        if trades[i].round_trip_ns > 0 && trades[i].transit_est_ns > 0 {
            out.push(end_to_end_ns(&trades[i]));
        }
        i = i + 1;
    }
    assert(trades@.take(trades@.len() as int) == trades@);
    out
}

// Sums over the trade log.
/// Signal latencies and round trips of a sequence of trades.
#[derive(Clone, Copy, Debug, PartialEq, Eq, Structural)]
pub struct Latencies {
    /// Sum of the signal latencies, modulo 2^64.
    pub sig_sum: u64,
    /// Least signal latency.
    pub sig_min: u64,
    /// Largest signal latency.
    pub sig_max: u64,
    /// Sum of the round trips, modulo 2^64.
    pub rt_sum: u64,
    /// Least round trip.
    pub rt_min: u64,
    /// Largest round trip.
    pub rt_max: u64,
    /// Confirmed trades.
    pub rt_count: usize,
}

/// The smaller of two numbers.
pub open spec fn lesser(a: u64, b: u64) -> u64 {
    if b < a {
        b
    } else {
        a
    }
}

/// The larger of two numbers.
pub open spec fn greater(a: u64, b: u64) -> u64 {
    if b > a {
        b
    } else {
        a
    }
}

/// Signal latencies and round trips of a sequence of trades.
pub open spec fn latencies_of(t: Seq<TradeExecution>) -> Latencies
    decreases t.len(),
{
    if t.len() == 0 {
        Latencies {
            sig_sum: 0,
            sig_min: u64::MAX,
            sig_max: 0,
            rt_sum: 0,
            rt_min: u64::MAX,
            rt_max: 0,
            rt_count: 0,
        }
    } else {
        let p = latencies_of(t.drop_last());
        let x = t.last();
        let confirmed = x.round_trip_ns > 0;
        Latencies {
            sig_sum: crate::wrap::sum(p.sig_sum, x.latency_ns),
            sig_min: lesser(p.sig_min, x.latency_ns),
            sig_max: greater(p.sig_max, x.latency_ns),
            rt_sum: if confirmed {
                crate::wrap::sum(p.rt_sum, x.round_trip_ns)
            } else {
                p.rt_sum
            },
            rt_min: if confirmed {
                lesser(p.rt_min, x.round_trip_ns)
            } else {
                p.rt_min
            },
            rt_max: if confirmed {
                greater(p.rt_max, x.round_trip_ns)
            } else {
                p.rt_max
            },
            rt_count: if confirmed {
                (p.rt_count + 1) as usize
            } else {
                p.rt_count
            },
        }
    }
}

/// Signal latencies and round trips of a sequence of trades.
#[verifier::spinoff_prover]
pub fn latencies(trades: &[TradeExecution]) -> (r: Latencies)
    ensures
        r == latencies_of(trades@),
        r.rt_count <= trades@.len(),
{
    let mut r = Latencies {
        sig_sum: 0,
        sig_min: u64::MAX,
        sig_max: 0,
        rt_sum: 0,
        rt_min: u64::MAX,
        rt_max: 0,
        rt_count: 0,
    };
    let mut i: usize = 0;
    assert(trades@.take(0) == Seq::<TradeExecution>::empty());
    while i < trades.len()
        invariant
            i <= trades.len(),
            r == latencies_of(trades@.take(i as int)),
            r.rt_count <= i,
        decreases trades.len() - i,
    {
        assert(trades@.take(i + 1).drop_last() == trades@.take(i as int));
        let t = trades[i];
        assert(trades@.take(i + 1).last() == t);
        r.sig_sum = r.sig_sum.wrapping_add(t.latency_ns);
        if t.latency_ns < r.sig_min {
            r.sig_min = t.latency_ns;
        }
        if t.latency_ns > r.sig_max {
            r.sig_max = t.latency_ns;
        }
        if t.round_trip_ns > 0 {
            r.rt_sum = r.rt_sum.wrapping_add(t.round_trip_ns);
            if t.round_trip_ns < r.rt_min {
                r.rt_min = t.round_trip_ns;
            }
            if t.round_trip_ns > r.rt_max {
                r.rt_max = t.round_trip_ns;
            }
            r.rt_count = r.rt_count + 1;
        }
        i = i + 1;
    }
    assert(trades@.take(trades@.len() as int) == trades@);
    r
}

// Slippage.
/// The trade has a fill and a price that it aimed at.
pub open spec fn has_slippage(t: TradeExecution) -> bool {
    crate::ieee::positive(t.fill_price) && crate::ieee::positive(t.target_price)
}

/// Fill and aim of the trades that have both.
pub open spec fn slippages(t: Seq<TradeExecution>) -> Seq<(u32, u32)>
    decreases t.len(),
{
    if t.len() == 0 {
        Seq::empty()
    } else if has_slippage(t.last()) {
        slippages(t.drop_last()).push((t.last().fill_price, t.last().target_price))
    } else {
        slippages(t.drop_last())
    }
}

/// Whether a trade has a fill and a price that it aimed at.
pub fn slipped(t: &TradeExecution) -> (r: bool)
    ensures
        r == has_slippage(*t),
{
    is_positive(t.fill_price) && is_positive(t.target_price)
}

/// Fill and aim of the trades that have both.
pub fn slippage_pairs(trades: &[TradeExecution]) -> (out: Vec<(u32, u32)>)
    ensures
        out@ == slippages(trades@),
{
    let mut out: Vec<(u32, u32)> = Vec::new();
    let mut i: usize = 0;
    assert(trades@.take(0) == Seq::<TradeExecution>::empty());
    while i < trades.len()
        invariant
            i <= trades.len(),
            out@ == slippages(trades@.take(i as int)),
        decreases trades.len() - i,
    {
        assert(trades@.take(i + 1).drop_last() == trades@.take(i as int));
        if slipped(&trades[i]) {
            out.push((trades[i].fill_price, trades[i].target_price));
        }
        i = i + 1;
    }
    assert(trades@.take(trades@.len() as int) == trades@);
    out
}

/// The keys by which binary64 numbers are ordered.
pub open spec fn keys64(v: Seq<u64>) -> Seq<i128> {
    Seq::new(v.len(), |i: int| crate::ieee::order_key64(v[i]) as i128)
}

/// Keys of binary64 numbers.
fn keys_of64(v: &Vec<u64>) -> (keys: Vec<i128>)
    ensures
        keys@ == keys64(v@),
{
    let mut keys: Vec<i128> = Vec::new();
    let mut i: usize = 0;
    while i < v.len()
        invariant
            i <= v.len(),
            keys@ == keys64(v@).take(i as int),
        decreases v.len() - i,
    {
        keys.push(key_of64(v[i]) as i128);
        i = i + 1;
        assert(keys@ == keys64(v@).take(i as int));
    }
    assert(keys64(v@).take(v@.len() as int) == keys64(v@));
    keys
}

/// Index of the `p`th percentile in `n` sorted samples.
pub open spec fn percent_index(n: int, p: int) -> int {
    let r = crate::histogram::rank(n, p, 100) - 1;
    if r < n - 1 {
        r
    } else {
        n - 1
    }
}

/// Numbers (binary64) in ascending order.
pub open spec fn by_value64(v: Seq<u64>) -> Seq<u64> {
    crate::sort::arranged(v, crate::sort::order_of(keys64(v)))
}

/// Median and 95th percentile of magnitudes (binary64); nothing if there are none.
pub fn magnitude_percentiles(v: &Vec<u64>) -> (r: Option<(u64, u64)>)
    requires
        v.len() * 100 <= u64::MAX,
        forall|i: int| 0 <= i < v.len() ==> !crate::ieee::nan64(#[trigger] v@[i]),
    ensures
        r is None <==> v@.len() == 0,
        r matches Some((p50, p95)) ==> {
            &&& p50 == by_value64(v@)[percent_index(v@.len() as int, 50)]
            &&& p95 == by_value64(v@)[percent_index(v@.len() as int, 95)]
        },
{
    let n: usize = v.len();
    if n == 0 {
        return None;
    }
    let keys = keys_of64(v);
    let order = stable_order(&keys);
    let i50: usize = rank_index(n, 50, 100);
    let i95: usize = rank_index(n, 95, 100);
    assert(order@[i50 as int] < n);
    assert(order@[i95 as int] < n);
    let r = (v[order[i50]], v[order[i95]]);
    Some(r)
}

/// The keys by which scores (binary64) are ranked: a higher score has a lower key.
pub open spec fn rank_keys(scores: Seq<u64>) -> Seq<i128> {
    Seq::new(scores.len(), |i: int| -crate::ieee::order_key64(scores[i]) as i128)
}

/// The positions of scores (binary64) from the highest to the lowest, equal ones in the
/// order given.
pub open spec fn is_ranking(scores: Seq<u64>, order: Seq<usize>) -> bool {
    crate::sort::is_stable_order(rank_keys(scores), order)
}

/// The positions of scores (binary64) from the highest to the lowest.
pub open spec fn ranked(scores: Seq<u64>) -> Seq<usize> {
    crate::sort::order_of(rank_keys(scores))
}

/// Ranks scores from the highest to the lowest, equal ones in the order given.
pub fn ranking(scores: &Vec<u64>) -> (order: Vec<usize>)
    ensures
        is_ranking(scores@, order@),
        order@ == ranked(scores@),
        order@.len() == scores@.len(),
        forall|i: int| 0 <= i < order@.len() ==> #[trigger] order@[i] < scores@.len(),
{
    let ghost target = rank_keys(scores@);
    let mut keys: Vec<i128> = Vec::new();
    let mut i: usize = 0;
    while i < scores.len()
        invariant
            i <= scores.len(),
            target == rank_keys(scores@),
            keys@ == target.take(i as int),
        decreases scores.len() - i,
    {
        let k: i128 = key_of64(scores[i]) as i128;
        keys.push(-k);
        i = i + 1;
        assert(keys@ == target.take(i as int));
    }
    assert(keys@ == target);
    stable_order(&keys)
}

/// The ranking puts no lower score before a higher one.
pub proof fn law_ranking_descends(scores: Seq<u64>, order: Seq<usize>, i: int, j: int)
    requires
        is_ranking(scores, order),
        0 <= i < j < order.len(),
    ensures
        !crate::ieee::lt64(scores[order[i] as int], scores[order[j] as int]),
{
    let keys = rank_keys(scores);
    assert(order[i] < scores.len());
    assert(order[j] < scores.len());
    assert(crate::sort::precedes(keys, order[i] as int, order[j] as int));
}

/// No score beats the one that is ranked first.
pub proof fn law_first_is_best(scores: Seq<u64>, i: int)
    requires
        0 <= i < scores.len() <= usize::MAX,
    ensures
        is_ranking(scores, ranked(scores)),
        ranked(scores)[0] < scores.len(),
        !crate::ieee::lt64(scores[ranked(scores)[0] as int], scores[i]),
{
    crate::sort::law_stable_order_exists(rank_keys(scores));
    let order = ranked(scores);
    let p = crate::sort::lemma_permutation_covers(order, scores.len() as int, i);
    assert(order[0] < scores.len());
    if p > 0 {
        law_ranking_descends(scores, order, 0, p);
    }
}

// The scorecard.
/// Bit pattern of one half.
pub const HALF: u32 = 0x3F00_0000;

/// What the scorecard counts.
#[derive(Clone, Copy, Debug, PartialEq, Eq, Structural)]
pub struct Tally {
    /// Round trips.
    pub n: usize,
    /// Profitable after fees.
    pub wins: usize,
    /// Not profitable after fees.
    pub losses: usize,
    /// Long positions.
    pub longs: usize,
    /// Short positions.
    pub shorts: usize,
    /// Positions closed by liquidation.
    pub liquidations: usize,
    /// Profitable before fees.
    pub gross_wins: usize,
}

/// A round trip that is profitable after fees.
pub open spec fn is_win(t: RoundTrip) -> bool {
    crate::ieee::positive(t.net_bps)
}

/// A position that was closed by liquidation.
pub open spec fn is_liquidation(t: RoundTrip) -> bool {
    crate::ieee::le(HALF, t.flags)
}

/// A round trip that is profitable before fees.
pub open spec fn is_gross_win(t: RoundTrip) -> bool {
    crate::ieee::positive(t.gross_bps)
}

/// Round trips that have a property.
pub open spec fn count(t: Seq<RoundTrip>, p: spec_fn(RoundTrip) -> bool) -> nat
    decreases t.len(),
{
    if t.len() == 0 {
        0
    } else {
        count(t.drop_last(), p) + if p(t.last()) {
            1nat
        } else {
            0nat
        }
    }
}

/// The counts of a sequence of round trips.
pub open spec fn tally_of(t: Seq<RoundTrip>) -> Tally {
    Tally {
        n: t.len() as usize,
        wins: count(t, |x: RoundTrip| is_win(x)) as usize,
        losses: count(t, |x: RoundTrip| !is_win(x)) as usize,
        longs: count(t, |x: RoundTrip| x.side > 0) as usize,
        shorts: count(t, |x: RoundTrip| x.side <= 0) as usize,
        liquidations: count(t, |x: RoundTrip| is_liquidation(x)) as usize,
        gross_wins: count(t, |x: RoundTrip| is_gross_win(x)) as usize,
    }
}

proof fn lemma_count_bound(t: Seq<RoundTrip>, p: spec_fn(RoundTrip) -> bool)
    ensures
        count(t, p) <= t.len(),
    decreases t.len(),
{
    if t.len() > 0 {
        lemma_count_bound(t.drop_last(), p);
    }
}

proof fn lemma_count_complement(
    t: Seq<RoundTrip>,
    p: spec_fn(RoundTrip) -> bool,
    q: spec_fn(RoundTrip) -> bool,
)
    requires
        forall|x: RoundTrip| #[trigger] p(x) != q(x),
    ensures
        count(t, p) + count(t, q) == t.len(),
    decreases t.len(),
{
    if t.len() > 0 {
        lemma_count_complement(t.drop_last(), p, q);
        assert(p(t.last()) != q(t.last()));
    }
}

/// Every round trip is a win or a loss, and long or short.
pub proof fn law_tally_adds_up(t: Seq<RoundTrip>)
    requires
        t.len() <= usize::MAX,
    ensures
        tally_of(t).wins + tally_of(t).losses == t.len(),
        tally_of(t).longs + tally_of(t).shorts == t.len(),
        tally_of(t).gross_wins <= t.len(),
        tally_of(t).liquidations <= t.len(),
{
    lemma_count_complement(t, |x: RoundTrip| is_win(x), |x: RoundTrip| !is_win(x));
    lemma_count_complement(t, |x: RoundTrip| x.side > 0, |x: RoundTrip| x.side <= 0);
    lemma_count_bound(t, |x: RoundTrip| is_gross_win(x));
    lemma_count_bound(t, |x: RoundTrip| is_liquidation(x));
}

/// Counts a sequence of round trips.
pub fn tally(rts: &[RoundTrip]) -> (r: Tally)
    ensures
        r == tally_of(rts@),
{
    let mut wins: usize = 0;
    let mut losses: usize = 0;
    let mut longs: usize = 0;
    let mut shorts: usize = 0;
    let mut liquidations: usize = 0;
    let mut gross_wins: usize = 0;
    let mut i: usize = 0;
    let ghost win = |x: RoundTrip| is_win(x);
    let ghost loss = |x: RoundTrip| !is_win(x);
    let ghost long = |x: RoundTrip| x.side > 0;
    let ghost short = |x: RoundTrip| x.side <= 0;
    let ghost liq = |x: RoundTrip| is_liquidation(x);
    let ghost gross = |x: RoundTrip| is_gross_win(x);
    while i < rts.len()
        invariant
            i <= rts.len(),
            win == (|x: RoundTrip| is_win(x)),
            loss == (|x: RoundTrip| !is_win(x)),
            long == (|x: RoundTrip| x.side > 0),
            short == (|x: RoundTrip| x.side <= 0),
            liq == (|x: RoundTrip| is_liquidation(x)),
            gross == (|x: RoundTrip| is_gross_win(x)),
            wins == count(rts@.take(i as int), win),
            losses == count(rts@.take(i as int), loss),
            longs == count(rts@.take(i as int), long),
            shorts == count(rts@.take(i as int), short),
            liquidations == count(rts@.take(i as int), liq),
            gross_wins == count(rts@.take(i as int), gross),
            wins <= i,
            losses <= i,
            longs <= i,
            shorts <= i,
            liquidations <= i,
            gross_wins <= i,
        decreases rts.len() - i,
    {
        let t = rts[i];
        assert(rts@.take(i + 1).drop_last() == rts@.take(i as int));
        assert(rts@.take(i + 1).last() == t);
        if t.side > 0 {
            longs = longs + 1;
        } else {
            shorts = shorts + 1;
        }
        if is_le(HALF, t.flags) {
            liquidations = liquidations + 1;
        }
        if is_positive(t.gross_bps) {
            gross_wins = gross_wins + 1;
        }
        if is_positive(t.net_bps) {
            wins = wins + 1;
        } else {
            losses = losses + 1;
        }
        i = i + 1;
    }
    assert(rts@.take(rts@.len() as int) == rts@);
    Tally { n: rts.len(), wins, losses, longs, shorts, liquidations, gross_wins }
}

/// The path of an account (binary64): its peak, its deepest fall from a peak, its low.
#[derive(Clone, Copy, Debug, PartialEq, Eq, Structural)]
pub struct EquityPath {
    /// Highest equity so far.
    pub peak: u64,
    /// Deepest fall from a peak so far.
    pub drawdown: u64,
    /// Lowest equity so far.
    pub low: u64,
}

impl EquityPath {
    /// The path at its start.
    pub fn new(capital: u64) -> (p: EquityPath)
        ensures
            p == (EquityPath { peak: capital, drawdown: 0, low: capital }),
    {
        EquityPath { peak: capital, drawdown: 0, low: capital }
    }

    /// The path with its peak at an equity, if that is above it.
    pub open spec fn raised(self, equity: u64) -> EquityPath {
        EquityPath {
            peak: if crate::ieee::lt64(self.peak, equity) {
                equity
            } else {
                self.peak
            },
            ..self
        }
    }

    /// The path after an equity and its distance from the peak.
    pub open spec fn fallen(self, equity: u64, below_peak: u64) -> EquityPath {
        EquityPath {
            drawdown: if crate::ieee::lt64(self.drawdown, below_peak) {
                below_peak
            } else {
                self.drawdown
            },
            low: if crate::ieee::lt64(equity, self.low) {
                equity
            } else {
                self.low
            },
            ..self
        }
    }

    /// Raises the peak to an equity above it.
    pub fn raise(&mut self, equity: u64)
        ensures
            *final(self) == old(self).raised(equity),
    {
        if is_lt64(self.peak, equity) {
            self.peak = equity;
        }
    }

    /// Takes in an equity and its distance from the peak.
    pub fn fall(&mut self, equity: u64, below_peak: u64)
        ensures
            *final(self) == old(self).fallen(equity, below_peak),
    {
        if is_lt64(self.drawdown, below_peak) {
            self.drawdown = below_peak;
        }
        if is_lt64(equity, self.low) {
            self.low = equity;
        }
    }

    /// The account was at or below zero at some time.
    pub open spec fn is_ruined(self) -> bool {
        crate::ieee::le64(self.low, 0)
    }

    /// Whether the account was at or below zero at some time.
    pub fn ruined(&self) -> (r: bool)
        ensures
            r == self.is_ruined(),
    {
        crate::ieee::is_le64(self.low, 0)
    }
}

/// The path of an account that goes through equities, each with its distance from the peak.
pub open spec fn path_of(start: EquityPath, steps: Seq<(u64, u64)>) -> EquityPath
    decreases steps.len(),
{
    if steps.len() == 0 {
        start
    } else {
        path_of(start, steps.drop_last()).raised(steps.last().0).fallen(
            steps.last().0,
            steps.last().1,
        )
    }
}

/// The peak is at or above every equity and the low at or below it, no fall from a peak is
/// deeper than the drawdown, and the account is ruined exactly if it started or came at or
/// below zero.
pub proof fn law_equity_path(start: EquityPath, steps: Seq<(u64, u64)>)
    requires
        !crate::ieee::nan64(start.peak),
        !crate::ieee::nan64(start.drawdown),
        !crate::ieee::nan64(start.low),
    ensures
        ({
            let p = path_of(start, steps);
            &&& crate::ieee::le64(start.peak, p.peak)
            &&& crate::ieee::le64(start.drawdown, p.drawdown)
            &&& crate::ieee::le64(p.low, start.low)
            &&& forall|i: int|
                #![trigger steps[i]]
                0 <= i < steps.len() ==> !crate::ieee::lt64(p.peak, steps[i].0)
                    && !crate::ieee::lt64(steps[i].0, p.low) && !crate::ieee::lt64(
                    p.drawdown,
                    steps[i].1,
                )
            &&& p.is_ruined() <==> start.is_ruined() || exists|i: int|
                0 <= i < steps.len() && crate::ieee::le64((#[trigger] steps[i]).0, 0)
        }),
    decreases steps.len(),
{
    if steps.len() > 0 {
        let head = steps.drop_last();
        law_equity_path(start, head);
        let q = path_of(start, head);
        let p = path_of(start, steps);
        let n = steps.len() - 1;
        assert forall|i: int|
            #![trigger steps[i]]
            0 <= i < steps.len() implies !crate::ieee::lt64(p.peak, steps[i].0)
            && !crate::ieee::lt64(steps[i].0, p.low) && !crate::ieee::lt64(
            p.drawdown,
            steps[i].1,
        ) by {
            if i < n {
                assert(head[i] == steps[i]);
            }
        }
        if q.is_ruined() && !start.is_ruined() {
            let i = choose|i: int|
                0 <= i < head.len() && crate::ieee::le64((#[trigger] head[i]).0, 0);
            assert(steps[i] == head[i]);
        }
        if exists|i: int|
            0 <= i < steps.len() && crate::ieee::le64((#[trigger] steps[i]).0, 0) {
            let i = choose|i: int|
                0 <= i < steps.len() && crate::ieee::le64((#[trigger] steps[i]).0, 0);
            if i < n {
                assert(head[i] == steps[i]);
            }
        }
        if p.is_ruined() && !q.is_ruined() {
            assert(crate::ieee::le64(steps[n].0, 0));
        }
    }
}

/// What a run is called after fees.
#[derive(Clone, Copy, Debug, PartialEq, Eq, Structural)]
pub enum Outcome {
    /// The account was ruined.
    Ruined,
    /// The return is positive.
    Profitable,
    /// It is not.
    Loss,
}

/// What a run with a return (binary64) is called.
pub open spec fn outcome_of(ruined: bool, return_pct: u64) -> Outcome {
    if ruined {
        Outcome::Ruined
    } else if crate::ieee::lt64(0, return_pct) {
        Outcome::Profitable
    } else {
        Outcome::Loss
    }
}

/// What a run with a return (binary64) is called.
pub fn outcome(ruined: bool, return_pct: u64) -> (o: Outcome)
    ensures
        o == outcome_of(ruined, return_pct),
{
    if ruined {
        Outcome::Ruined
    } else if is_lt64(0, return_pct) {
        Outcome::Profitable
    } else {
        Outcome::Loss
    }
}

/// How the profit factor comes about.
#[derive(Clone, Copy, Debug, PartialEq, Eq, Structural)]
pub enum ProfitFactor {
    /// Profits over losses.
    Ratio,
    /// There are profits and no losses.
    Infinite,
    /// There are neither.
    Zero,
}

/// How the profit factor of summed profits and losses (binary64) comes about.
pub open spec fn profit_factor_of(win_pnl: u64, loss_pnl: u64) -> ProfitFactor {
    if crate::ieee::lt64(loss_pnl, 0) {
        ProfitFactor::Ratio
    } else if crate::ieee::lt64(0, win_pnl) {
        ProfitFactor::Infinite
    } else {
        ProfitFactor::Zero
    }
}

/// How the profit factor of summed profits and losses (binary64) comes about.
pub fn profit_factor(win_pnl: u64, loss_pnl: u64) -> (r: ProfitFactor)
    ensures
        r == profit_factor_of(win_pnl, loss_pnl),
{
    if is_lt64(loss_pnl, 0) {
        ProfitFactor::Ratio
    } else if is_lt64(0, win_pnl) {
        ProfitFactor::Infinite
    } else {
        ProfitFactor::Zero
    }
}

// What the figures are.
proof fn lemma_filter_remove<T>(s: Seq<T>, p: spec_fn(T) -> bool, k: int)
    requires
        0 <= k < s.len(),
    ensures
        s.filter(p).len() == s.remove(k).filter(p).len() + if p(s[k]) {
            1nat
        } else {
            0nat
        },
{
    reveal(Seq::filter);
    let front = s.take(k);
    let back = s.skip(k + 1);
    let one = seq![s[k]];
    assert(s == front + (one + back));
    assert(s.remove(k) == front + back);
    Seq::filter_distributes_over_add(front, one + back, p);
    Seq::filter_distributes_over_add(one, back, p);
    Seq::filter_distributes_over_add(front, back, p);
    assert(one.drop_last() == Seq::<T>::empty());
    assert(one.drop_last().filter(p) == Seq::<T>::empty());
    assert(one.last() == s[k]);
}

proof fn lemma_filter_same_elements<T>(a: Seq<T>, b: Seq<T>, p: spec_fn(T) -> bool)
    requires
        a.to_multiset() == b.to_multiset(),
    ensures
        a.filter(p).len() == b.filter(p).len(),
        a.len() == b.len(),
    decreases a.len(),
{
    reveal(Seq::filter);
    vstd::seq_lib::to_multiset_len(a);
    vstd::seq_lib::to_multiset_len(b);
    if a.len() > 0 {
        let n = a.len() - 1;
        let x = a[n];
        vstd::seq_lib::to_multiset_contains(a, x);
        vstd::seq_lib::to_multiset_contains(b, x);
        assert(a.contains(x));
        let k = choose|k: int| 0 <= k < b.len() && b[k] == x;
        vstd::seq_lib::to_multiset_remove(a, n);
        vstd::seq_lib::to_multiset_remove(b, k);
        lemma_filter_same_elements(a.remove(n), b.remove(k), p);
        lemma_filter_remove(a, p, n);
        lemma_filter_remove(b, p, k);
    }
}

/// A sample that covers a share of the samples: at least that share does not exceed it, and
/// less than that share is below it.
pub open spec fn covering(v: Seq<u64>, x: u64, num: int, den: int) -> bool {
    &&& v.contains(x)
    &&& v.filter(|y: u64| y <= x).len() * den >= v.len() * num
    &&& v.filter(|y: u64| y < x).len() * den < v.len() * num
}

proof fn lemma_filter_at_least<T>(s: Seq<T>, p: spec_fn(T) -> bool, k: int)
    requires
        0 <= k <= s.len(),
        forall|i: int| 0 <= i < k ==> p(#[trigger] s[i]),
    ensures
        s.filter(p).len() >= k,
    decreases s.len(),
{
    reveal(Seq::filter);
    if s.len() > 0 {
        let h = s.drop_last();
        assert(forall|i: int| 0 <= i < h.len() ==> h[i] == s[i]);
        lemma_filter_at_least(h, p, if k < s.len() {
            k
        } else {
            k - 1
        });
        if k == s.len() {
            assert(p(s[k - 1]));
        }
    }
}

proof fn lemma_filter_at_most<T>(s: Seq<T>, p: spec_fn(T) -> bool, k: int)
    requires
        0 <= k <= s.len(),
        forall|i: int| k <= i < s.len() ==> !p(#[trigger] s[i]),
    ensures
        s.filter(p).len() <= k,
    decreases s.len(),
{
    reveal(Seq::filter);
    if s.len() > 0 {
        let h = s.drop_last();
        assert(forall|i: int| 0 <= i < h.len() ==> h[i] == s[i]);
        if k < s.len() {
            lemma_filter_at_most(h, p, k);
            assert(!p(s[s.len() - 1]));
        } else {
            s.lemma_filter_len(p);
        }
    }
}

proof fn lemma_nearest_covers(v: Seq<u64>, num: int, den: int)
    requires
        v.len() > 0,
        0 < num <= den,
    ensures
        covering(v, nearest(v, num, den), num, den),
{
    let n = v.len() as int;
    let leq = at_most();
    assert(vstd::relations::total_ordering(leq));
    v.lemma_sort_by_ensures(leq);
    let s = ascending(v);
    let le = |y: u64| y <= nearest(v, num, den);
    let lt = |y: u64| y < nearest(v, num, den);
    lemma_filter_same_elements(v, s, le);
    lemma_filter_same_elements(v, s, lt);
    crate::histogram::law_rank(n, num, den);
    let r = crate::histogram::rank(n, num, den);
    if r > n {
        assert((r - 1) * den >= n * num) by (nonlinear_arith)
            requires
                r - 1 >= n,
                num <= den,
                n > 0,
                num > 0,
        ;
    }
    let i = r - 1;
    assert(0 <= i < n);
    let x = nearest(v, num, den);
    assert(x == s[i]);
    assert forall|a: int, b: int| 0 <= a <= b < n implies s[a] <= s[b] by {
        if a < b {
            assert(leq(s[a], s[b]));
        }
    }
    assert forall|k: int| 0 <= k < r implies le(#[trigger] s[k]) by {
        assert(s[k] <= s[i]);
    }
    assert forall|k: int| i <= k < n implies !lt(#[trigger] s[k]) by {
        assert(s[i] <= s[k]);
    }
    lemma_filter_at_least(s, le, r);
    lemma_filter_at_most(s, lt, i);
    vstd::seq_lib::to_multiset_contains(s, x);
    vstd::seq_lib::to_multiset_contains(v, x);
    assert(s.contains(x));
    let a = v.filter(le).len() as int;
    let b = v.filter(lt).len() as int;
    assert(a * den >= n * num) by (nonlinear_arith)
        requires
            a >= r,
            r * den >= n * num,
            den > 0,
    ;
    if r > 1 {
        assert(b * den < n * num) by (nonlinear_arith)
            requires
                b <= r - 1,
                (r - 1) * den < n * num,
                den > 0,
        ;
    } else {
        assert(b * den == 0) by (nonlinear_arith)
            requires
                b == 0,
        ;
        assert(n * num > 0) by (nonlinear_arith)
            requires
                n > 0,
                num > 0,
        ;
    }
}

/// The percentiles of a summary cover their shares of the samples.
pub proof fn law_summary_percentiles(v: Seq<u64>)
    requires
        v.len() > 0,
    ensures
        covering(v, summary(v).p50, 1, 2),
        covering(v, summary(v).p95, 95, 100),
        covering(v, summary(v).p99, 99, 100),
        covering(v, summary(v).p999, 999, 1000),
{
    lemma_nearest_covers(v, 50, 100);
    lemma_nearest_covers(v, 95, 100);
    lemma_nearest_covers(v, 99, 100);
    lemma_nearest_covers(v, 999, 1000);
}

/// The extremes of a summary are samples that none is below and none above; the mean, times
/// the number of samples, is their sum but for a rest that is less than that number.
pub proof fn law_summary_extremes(v: Seq<u64>)
    requires
        0 < v.len() <= usize::MAX,
    ensures
        ({
            let s = summary(v);
            &&& v.contains(s.min)
            &&& v.contains(s.max)
            &&& forall|i: int| 0 <= i < v.len() ==> s.min <= #[trigger] v[i] <= s.max
            &&& s.avg * v.len() <= sum_of(v) < (s.avg + 1) * v.len()
            &&& s.count == v.len()
        }),
{
    let n = v.len() as int;
    let leq = at_most();
    assert(vstd::relations::total_ordering(leq));
    v.lemma_sort_by_ensures(leq);
    let s = ascending(v);
    vstd::seq_lib::to_multiset_len(v);
    vstd::seq_lib::to_multiset_len(s);
    assert(s.contains(s[0]) && s.contains(s[n - 1]));
    vstd::seq_lib::to_multiset_contains(s, s[0]);
    vstd::seq_lib::to_multiset_contains(s, s[n - 1]);
    vstd::seq_lib::to_multiset_contains(v, s[0]);
    vstd::seq_lib::to_multiset_contains(v, s[n - 1]);
    assert forall|i: int| 0 <= i < n implies s[0] <= #[trigger] v[i] <= s[n - 1] by {
        assert(v.contains(v[i]));
        vstd::seq_lib::to_multiset_contains(v, v[i]);
        vstd::seq_lib::to_multiset_contains(s, v[i]);
        let k = choose|k: int| 0 <= k < s.len() && s[k] == v[i];
        if k > 0 {
            assert(leq(s[0], s[k]));
        }
        if k < n - 1 {
            assert(leq(s[k], s[n - 1]));
        }
    }
    lemma_sum_bound(v);
    let total = sum_of(v) as int;
    vstd::arithmetic::div_mod::lemma_fundamental_div_mod(total, n);
    let q = total / n;
    let r = total % n;
    assert(q <= u64::MAX) by (nonlinear_arith)
        requires
            total <= n * u64::MAX,
            total == n * q + r,
            0 <= r < n,
            n > 0,
    ;
    assert(0 <= q) by (nonlinear_arith)
        requires
            total >= 0,
            total == n * q + r,
            0 <= r < n,
    ;
    assert(q * n <= total < (q + 1) * n) by (nonlinear_arith)
        requires
            total == n * q + r,
            0 <= r < n,
    ;
}

/// The sum of samples is that of any two parts of them, and a single sample is its own sum.
pub proof fn law_sums_add_up(a: Seq<u64>, b: Seq<u64>, x: u64)
    ensures
        sum_of(a + b) == sum_of(a) + sum_of(b),
        sum_of(seq![x]) == x,
    decreases b.len(),
{
    let one = seq![x];
    assert(one.drop_last() == Seq::<u64>::empty());
    assert(sum_of(one.drop_last()) == 0);
    if b.len() == 0 {
        assert(a + b == a);
    } else {
        law_sums_add_up(a, b.drop_last(), x);
        assert((a + b).drop_last() == a + b.drop_last());
    }
}

/// The transit samples are the transit estimates of exactly the trades that have one, in
/// order; the end-to-end samples those of the trades that also were confirmed; the slippages
/// fill and aim of the trades that have both.
pub proof fn law_samples_of_trades(t: Seq<TradeExecution>)
    ensures
        transits(t) == t.filter(|x: TradeExecution| x.transit_est_ns > 0).map_values(
            |x: TradeExecution| x.transit_est_ns,
        ),
        ends_to_ends(t) == t.filter(
            |x: TradeExecution| x.round_trip_ns > 0 && x.transit_est_ns > 0,
        ).map_values(|x: TradeExecution| end_to_end(x)),
        slippages(t) == t.filter(
            |x: TradeExecution|
                crate::ieee::lt(0, x.fill_price) && crate::ieee::lt(0, x.target_price),
        ).map_values(|x: TradeExecution| (x.fill_price, x.target_price)),
    decreases t.len(),
{
    reveal(Seq::filter);
    let p1 = |x: TradeExecution| x.transit_est_ns > 0;
    let f1 = |x: TradeExecution| x.transit_est_ns;
    let p2 = |x: TradeExecution| x.round_trip_ns > 0 && x.transit_est_ns > 0;
    let f2 = |x: TradeExecution| end_to_end(x);
    let p3 = |x: TradeExecution|
        crate::ieee::lt(0, x.fill_price) && crate::ieee::lt(0, x.target_price);
    let f3 = |x: TradeExecution| (x.fill_price, x.target_price);
    if t.len() == 0 {
        assert(t.filter(p1).map_values(f1) == transits(t));
        assert(t.filter(p2).map_values(f2) == ends_to_ends(t));
        assert(t.filter(p3).map_values(f3) == slippages(t));
    } else {
        let h = t.drop_last();
        let x = t.last();
        law_samples_of_trades(h);
        assert(h.filter(p1).push(x).map_values(f1) == h.filter(p1).map_values(f1).push(f1(x)));
        assert(h.filter(p2).push(x).map_values(f2) == h.filter(p2).map_values(f2).push(f2(x)));
        assert(h.filter(p3).push(x).map_values(f3) == h.filter(p3).map_values(f3).push(f3(x)));
    }
}

/// The end-to-end latency of a trade is its transit, its signal latency and its round trip
/// together.
pub proof fn law_end_to_end(t: TradeExecution)
    requires
        t.transit_est_ns + t.latency_ns + t.round_trip_ns <= u64::MAX,
    ensures
        end_to_end(t) == t.transit_est_ns + t.latency_ns + t.round_trip_ns,
{
}

/// The signal latencies of trades: none is below the least or above the largest, both were
/// measured, and the sum is that of all of them. The round trips likewise, but of the trades
/// that were confirmed.
pub proof fn law_latencies(t: Seq<TradeExecution>)
    requires
        t.len() <= usize::MAX,
    ensures
        ({
            let r = latencies_of(t);
            let sig = t.map_values(|x: TradeExecution| x.latency_ns);
            let rt = t.filter(|x: TradeExecution| x.round_trip_ns > 0).map_values(
                |x: TradeExecution| x.round_trip_ns,
            );
            &&& r.sig_sum == sum_of(sig) % 0x1_0000_0000_0000_0000
            &&& r.rt_sum == sum_of(rt) % 0x1_0000_0000_0000_0000
            &&& r.rt_count == rt.len()
            &&& forall|i: int| 0 <= i < sig.len() ==> r.sig_min <= #[trigger] sig[i] <= r.sig_max
            &&& forall|i: int| 0 <= i < rt.len() ==> r.rt_min <= #[trigger] rt[i] <= r.rt_max
            &&& t.len() > 0 ==> sig.contains(r.sig_min) && sig.contains(r.sig_max)
            &&& rt.len() > 0 ==> rt.contains(r.rt_min) && rt.contains(r.rt_max)
        }),
    decreases t.len(),
{
    reveal(Seq::filter);
    let f = |x: TradeExecution| x.latency_ns;
    let p = |x: TradeExecution| x.round_trip_ns > 0;
    let g = |x: TradeExecution| x.round_trip_ns;
    let sig = t.map_values(f);
    let rt = t.filter(p).map_values(g);
    if t.len() > 0 {
        let h = t.drop_last();
        let x = t.last();
        law_latencies(h);
        h.lemma_filter_len(p);
        let hs = h.map_values(f);
        let hr = h.filter(p).map_values(g);
        let q = latencies_of(h);
        let r = latencies_of(t);
        assert(sig == hs.push(x.latency_ns));
        assert(sig.drop_last() == hs);
        lemma_wrapped_sum(hs, x.latency_ns);
        lemma_extremes(hs, x.latency_ns, q.sig_min, q.sig_max);
        if x.round_trip_ns > 0 {
            assert(rt == hr.push(x.round_trip_ns));
            assert(rt.drop_last() == hr);
            lemma_wrapped_sum(hr, x.round_trip_ns);
            if hr.len() == 0 {
                lemma_latency_start(h);
            }
            lemma_extremes(hr, x.round_trip_ns, q.rt_min, q.rt_max);
        } else {
            assert(rt == hr);
        }
    } else {
        assert(sig.len() == 0 && rt.len() == 0);
    }
}

proof fn lemma_latency_start(t: Seq<TradeExecution>)
    requires
        t.filter(|x: TradeExecution| x.round_trip_ns > 0).len() == 0,
    ensures
        latencies_of(t).rt_min == u64::MAX,
        latencies_of(t).rt_max == 0,
    decreases t.len(),
{
    reveal(Seq::filter);
    if t.len() > 0 {
        lemma_latency_start(t.drop_last());
    }
}

proof fn lemma_wrapped_sum(v: Seq<u64>, x: u64)
    ensures
        sum_of(v.push(x)) % 0x1_0000_0000_0000_0000 == crate::wrap::sum(
            (sum_of(v) % 0x1_0000_0000_0000_0000) as u64,
            x,
        ),
{
    assert(v.push(x).drop_last() == v);
    vstd::arithmetic::div_mod::lemma_add_mod_noop_right(
        x as int,
        sum_of(v) as int,
        0x1_0000_0000_0000_0000,
    );
}

proof fn lemma_extremes(v: Seq<u64>, x: u64, lo: u64, hi: u64)
    requires
        forall|i: int| 0 <= i < v.len() ==> lo <= #[trigger] v[i] <= hi,
        v.len() > 0 ==> v.contains(lo) && v.contains(hi),
        v.len() == 0 ==> lo == u64::MAX && hi == 0,
    ensures
        forall|i: int|
            0 <= i < v.push(x).len() ==> lesser(lo, x) <= #[trigger] v.push(x)[i] <= greater(hi, x),
        v.push(x).contains(lesser(lo, x)),
        v.push(x).contains(greater(hi, x)),
{
    let w = v.push(x);
    assert(w[v.len() as int] == x);
    if v.len() > 0 {
        let a = choose|a: int| 0 <= a < v.len() && v[a] == lo;
        let b = choose|b: int| 0 <= b < v.len() && v[b] == hi;
        assert(w[a] == lo && w[b] == hi);
    }
    assert forall|i: int| 0 <= i < w.len() implies lesser(lo, x) <= #[trigger] w[i] <= greater(
        hi,
        x,
    ) by {
        if i < v.len() {
            assert(w[i] == v[i]);
        }
    }
}

/// Arranging numbers by value keeps all of them and puts none before a smaller one.
pub proof fn law_values_ascend(v: Seq<u64>, i: int, j: int)
    requires
        v.len() <= usize::MAX,
        0 <= i < j < v.len(),
    ensures
        by_value64(v).to_multiset() == v.to_multiset(),
        !crate::ieee::lt64(by_value64(v)[j], by_value64(v)[i]),
{
    let keys = keys64(v);
    crate::sort::law_stable_order_exists(keys);
    crate::sort::law_arranged_keeps_elements(v, crate::sort::order_of(keys));
    crate::sort::law_stable_order(keys, i, j);
}

/// The place of a percentile among `n` numbers: at least the share stands up to it, and less
/// than the share before it.
pub proof fn law_percent_place(n: int, p: int)
    requires
        n > 0,
        0 < p <= 100,
    ensures
        0 <= percent_index(n, p) < n,
        (percent_index(n, p) + 1) * 100 >= n * p,
        percent_index(n, p) * 100 < n * p,
{
    crate::histogram::law_rank(n, p, 100);
    let r = crate::histogram::rank(n, p, 100);
    assert(n * p <= n * 100) by (nonlinear_arith)
        requires
            n > 0,
            p <= 100,
    ;
    assert(n * p > 0) by (nonlinear_arith)
        requires
            n > 0,
            p > 0,
    ;
    assert(r <= n);
}

/// The ranking is of all scores, each once; scores that are equal keep the order given.
pub proof fn law_ranking_is_stable(scores: Seq<u64>, i: int, j: int)
    requires
        scores.len() <= usize::MAX,
        0 <= i < j < scores.len(),
    ensures
        ({
            let o = ranked(scores);
            &&& o.len() == scores.len()
            &&& o[i] != o[j]
            &&& 0 <= o[i] < scores.len()
            &&& !crate::ieee::lt64(scores[o[i] as int], scores[o[j] as int])
            &&& scores[o[i] as int] == scores[o[j] as int] ==> o[i] < o[j]
        }),
{
    let keys = rank_keys(scores);
    crate::sort::law_stable_order_exists(keys);
    crate::sort::law_stable_order(keys, i, j);
    law_ranking_descends(scores, ranked(scores), i, j);
}

proof fn lemma_count_filter(t: Seq<RoundTrip>, p: spec_fn(RoundTrip) -> bool)
    ensures
        count(t, p) == t.filter(p).len(),
    decreases t.len(),
{
    reveal(Seq::filter);
    if t.len() > 0 {
        lemma_count_filter(t.drop_last(), p);
    }
}

proof fn lemma_filter_same<T>(t: Seq<T>, p: spec_fn(T) -> bool, q: spec_fn(T) -> bool)
    requires
        forall|x: T| #[trigger] p(x) == q(x),
    ensures
        t.filter(p) == t.filter(q),
    decreases t.len(),
{
    reveal(Seq::filter);
    if t.len() > 0 {
        lemma_filter_same(t.drop_last(), p, q);
        assert(p(t.last()) == q(t.last()));
    }
}

/// What the scorecard counts: a win is a round trip whose profit after fees is positive and
/// any other is a loss; before fees likewise. A positive side is long and any other short,
/// and a liquidation is one whose flag is at least one half.
pub proof fn law_tally_counts(t: Seq<RoundTrip>)
    requires
        t.len() <= usize::MAX,
    ensures
        tally_of(t).n == t.len(),
        tally_of(t).wins == t.filter(|x: RoundTrip| crate::ieee::lt(0, x.net_bps)).len(),
        tally_of(t).gross_wins == t.filter(|x: RoundTrip| crate::ieee::lt(0, x.gross_bps)).len(),
        tally_of(t).longs == t.filter(|x: RoundTrip| x.side > 0).len(),
        tally_of(t).liquidations == t.filter(
            |x: RoundTrip| crate::ieee::le(0x3F00_0000, x.flags),
        ).len(),
        tally_of(t).losses == t.len() - tally_of(t).wins,
        tally_of(t).shorts == t.len() - tally_of(t).longs,
{
    law_tally_adds_up(t);
    let win = |x: RoundTrip| is_win(x);
    let gross = |x: RoundTrip| is_gross_win(x);
    let long = |x: RoundTrip| x.side > 0;
    let liq = |x: RoundTrip| is_liquidation(x);
    lemma_count_filter(t, win);
    lemma_count_filter(t, gross);
    lemma_count_filter(t, long);
    lemma_count_filter(t, liq);
    lemma_count_bound(t, win);
    lemma_count_bound(t, gross);
    lemma_count_bound(t, long);
    lemma_count_bound(t, liq);
    lemma_filter_same(t, win, |x: RoundTrip| crate::ieee::lt(0, x.net_bps));
    lemma_filter_same(t, gross, |x: RoundTrip| crate::ieee::lt(0, x.gross_bps));
    lemma_filter_same(t, liq, |x: RoundTrip| crate::ieee::le(0x3F00_0000, x.flags));
}

/// A position that was closed by liquidation is counted as one, and no other is.
pub proof fn law_liquidations_are_flagged(
    p: crate::model::Position,
    s: crate::model::Settlement,
)
    ensures
        is_liquidation(p.round_trip(s)) <==> s.liquidated || crate::ieee::le64(
            s.raw_pnl,
            s.neg_margin,
        ),
{
}

/// Peak, drawdown and low of a path are ones that it has come through.
pub proof fn law_equity_path_is_attained(start: EquityPath, steps: Seq<(u64, u64)>)
    ensures
        ({
            let p = path_of(start, steps);
            &&& p.peak == start.peak || exists|i: int|
                0 <= i < steps.len() && (#[trigger] steps[i]).0 == p.peak
            &&& p.low == start.low || exists|i: int|
                0 <= i < steps.len() && (#[trigger] steps[i]).0 == p.low
            &&& p.drawdown == start.drawdown || exists|i: int|
                0 <= i < steps.len() && (#[trigger] steps[i]).1 == p.drawdown
        }),
    decreases steps.len(),
{
    if steps.len() > 0 {
        let head = steps.drop_last();
        let n = steps.len() - 1;
        law_equity_path_is_attained(start, head);
        let q = path_of(start, head);
        let p = path_of(start, steps);
        assert(steps[n] == steps.last());
        if p.peak == q.peak && q.peak != start.peak {
            let i = choose|i: int| 0 <= i < head.len() && (#[trigger] head[i]).0 == q.peak;
            assert(steps[i] == head[i]);
        }
        if p.low == q.low && q.low != start.low {
            let i = choose|i: int| 0 <= i < head.len() && (#[trigger] head[i]).0 == q.low;
            assert(steps[i] == head[i]);
        }
        if p.drawdown == q.drawdown && q.drawdown != start.drawdown {
            let i = choose|i: int| 0 <= i < head.len() && (#[trigger] head[i]).1 == q.drawdown;
            assert(steps[i] == head[i]);
        }
    }
}

/// A run that was ruined is called so whatever it returned; one that was not is profitable
/// exactly if its return is positive.
pub proof fn law_outcomes(ruined: bool, return_pct: u64)
    ensures
        outcome_of(ruined, return_pct) == Outcome::Ruined <==> ruined,
        outcome_of(ruined, return_pct) == Outcome::Profitable <==> !ruined && crate::ieee::lt64(
            0,
            return_pct,
        ),
{
}

/// The profit factor is a ratio exactly if there are losses; without any it is infinite if
/// there are profits, and zero if there are neither.
pub proof fn law_profit_factors(win_pnl: u64, loss_pnl: u64)
    ensures
        profit_factor_of(win_pnl, loss_pnl) == ProfitFactor::Ratio <==> crate::ieee::lt64(
            loss_pnl,
            0,
        ),
        profit_factor_of(win_pnl, loss_pnl) == ProfitFactor::Infinite <==> !crate::ieee::lt64(
            loss_pnl,
            0,
        ) && crate::ieee::lt64(0, win_pnl),
{
}

} // verus!

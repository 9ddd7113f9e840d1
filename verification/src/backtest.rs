//! Backtests and the search for a policy: how a capture is split, which settings are
//! tried, and what is made of the results.

use vstd::prelude::*;
use crate::capture::BtTick;
use crate::config::WARMUP_PACKETS;
use crate::ieee::is_lt64;
use crate::logs::RoundTrip;
use crate::model::{Policy, N_PARAMS};
use crate::stats::ranking;

verus! {

/// What a tick of a capture is to the model.
#[derive(Clone, Copy, Debug, PartialEq, Eq, Structural)]
pub enum ModelEvent {
    /// A tick of the reference.
    Reference {
        /// Its price (binary32).
        price: u32,
    },
    /// A tick of the traded instrument.
    Traded {
        /// The tick.
        tick: BtTick,
        /// It is past the warmup.
        warmed: bool,
    },
}

/// Ticks among the first `n` that are not of the reference.
pub open spec fn traded_before(t: Seq<BtTick>, n: int) -> nat
    decreases n,
{
    if n <= 0 {
        0
    } else {
        traded_before(t, n - 1) + if t[n - 1].id != 1 {
            1nat
        } else {
            0nat
        }
    }
}

/// What tick `n` is to the model: the first ten traded ticks are the warmup.
pub open spec fn event_of(t: Seq<BtTick>, n: int) -> ModelEvent {
    if t[n].id == 1 {
        ModelEvent::Reference { price: t[n].price }
    } else {
        ModelEvent::Traded { tick: t[n], warmed: traded_before(t, n) + 1 > WARMUP_PACKETS }
    }
}

/// What the ticks of a capture are to the model, in order.
pub fn model_events(ticks: &Vec<BtTick>) -> (out: Vec<ModelEvent>)
    ensures
        out@ == Seq::new(ticks@.len(), |n: int| event_of(ticks@, n)),
{
    let mut out: Vec<ModelEvent> = Vec::new();
    let mut traded: u64 = 0;
    let mut i: usize = 0;
    let ghost all = Seq::new(ticks@.len(), |n: int| event_of(ticks@, n));
    while i < ticks.len()
        invariant
            i <= ticks.len(),
            all == Seq::new(ticks@.len(), |n: int| event_of(ticks@, n)),
            out@ == all.take(i as int),
            traded <= i,
            traded == traded_before(ticks@, i as int),
        decreases ticks.len() - i,
    {
        let t = ticks[i];
        if t.id == 1 {
            out.push(ModelEvent::Reference { price: t.price });
        } else {
            traded = traded + 1;
            out.push(ModelEvent::Traded { tick: t, warmed: traded > WARMUP_PACKETS });
        }
        i = i + 1;
        assert(out@ == all.take(i as int));
    }
    assert(all.take(ticks@.len() as int) == all);
    out
}

/// Ticks of the traded instrument.
pub open spec fn traded_of(t: Seq<BtTick>) -> nat
    decreases t.len(),
{
    if t.len() == 0 {
        0
    } else {
        traded_of(t.drop_last()) + if t.last().id == 0 {
            1nat
        } else {
            0nat
        }
    }
}

/// Number of ticks of the traded instrument.
pub fn traded_count(ticks: &Vec<BtTick>) -> (n: usize)
    ensures
        n == traded_of(ticks@),
{
    let mut n: usize = 0;
    let mut i: usize = 0;
    assert(ticks@.take(0) == Seq::<BtTick>::empty());
    while i < ticks.len()
        invariant
            i <= ticks.len(),
            n <= i,
            n == traded_of(ticks@.take(i as int)),
        decreases ticks.len() - i,
    {
        assert(ticks@.take(i + 1).drop_last() == ticks@.take(i as int));
        if ticks[i].id == 0 {
            n = n + 1;
        }
        i = i + 1;
    }
    assert(ticks@.take(ticks@.len() as int) == ticks@);
    n
}

/// When the held-out part of a capture starts: at the tick behind the first 70 percent.
pub open spec fn split_of(t: Seq<BtTick>) -> u64 {
    let k = t.len() * 70 / 100;
    if k < t.len() {
        t[k as int].t_ns
    } else {
        u64::MAX
    }
}

/// When the held-out part of a capture starts.
pub fn split_time(ticks: &Vec<BtTick>) -> (t: u64)
    requires
        ticks.len() * 70 <= usize::MAX,
    ensures
        t == split_of(ticks@),
        ticks@.len() == 0 ==> t == u64::MAX,
        forall|k: int|
            0 <= k && 100 * k <= 70 * ticks@.len() < 100 * (k + 1) && k < ticks@.len() ==> t
                == (#[trigger] ticks@[k]).t_ns,
{
    let k: usize = ticks.len() * 70 / 100;
    if k < ticks.len() {
        ticks[k].t_ns
    } else {
        u64::MAX
    }
}

/// Half-way between the first and the last tick.
pub open spec fn middle_of(t: Seq<BtTick>) -> u64 {
    if t.len() == 0 {
        0
    } else {
        let lo = t[0].t_ns;
        let hi = t[t.len() - 1].t_ns;
        lo.wrapping_add((hi.wrapping_sub(lo) / 2) as u64)
    }
}

/// Half-way between the first and the last tick.
pub fn middle_time(ticks: &Vec<BtTick>) -> (t: u64)
    ensures
        t == middle_of(ticks@),
{
    if ticks.len() == 0 {
        return 0;
    }
    let lo: u64 = ticks[0].t_ns;
    let hi: u64 = ticks[ticks.len() - 1].t_ns;
    lo.wrapping_add(hi.wrapping_sub(lo) / 2)
}

/// The ticks before a time (or, if `late`, from it on).
pub open spec fn ticks_part(t: Seq<BtTick>, split: u64, late: bool) -> Seq<BtTick> {
    t.filter(|x: BtTick| (x.t_ns >= split) == late)
}

/// The round trips opened before a time (or, if `late`, from it on).
pub open spec fn trips_part(t: Seq<RoundTrip>, split: u64, late: bool) -> Seq<RoundTrip> {
    t.filter(|x: RoundTrip| (x.entry_time_ns >= split) == late)
}

/// The ticks before a time (or, if `late`, from it on).
pub fn part_ticks(ticks: &Vec<BtTick>, split: u64, late: bool) -> (out: Vec<BtTick>)
    ensures
        out@ == ticks_part(ticks@, split, late),
{
    let mut out: Vec<BtTick> = Vec::new();
    let mut i: usize = 0;
    assert(ticks@.take(0) == Seq::<BtTick>::empty());
    reveal(Seq::filter);
    while i < ticks.len()
        invariant
            i <= ticks.len(),
            out@ == ticks_part(ticks@.take(i as int), split, late),
        decreases ticks.len() - i,
    {
        assert(ticks@.take(i + 1).drop_last() == ticks@.take(i as int));
        reveal(Seq::filter);
        if (ticks[i].t_ns >= split) == late {
            out.push(ticks[i]);
        }
        i = i + 1;
    }
    assert(ticks@.take(ticks@.len() as int) == ticks@);
    out
}

/// The round trips opened before a time (or, if `late`, from it on).
pub fn part_trips(trips: &Vec<RoundTrip>, split: u64, late: bool) -> (out: Vec<RoundTrip>)
    ensures
        out@ == trips_part(trips@, split, late),
{
    let mut out: Vec<RoundTrip> = Vec::new();
    let mut i: usize = 0;
    assert(trips@.take(0) == Seq::<RoundTrip>::empty());
    reveal(Seq::filter);
    while i < trips.len()
        invariant
            i <= trips.len(),
            out@ == trips_part(trips@.take(i as int), split, late),
        decreases trips.len() - i,
    {
        assert(trips@.take(i + 1).drop_last() == trips@.take(i as int));
        reveal(Seq::filter);
        if (trips[i].entry_time_ns >= split) == late {
            out.push(trips[i]);
        }
        i = i + 1;
    }
    assert(trips@.take(trips@.len() as int) == trips@);
    out
}

/// Every round trip falls into exactly one of the two parts of a capture.
pub proof fn law_trips_add_up(t: Seq<RoundTrip>, split: u64)
    ensures
        trips_part(t, split, false).len() + trips_part(t, split, true).len() == t.len(),
        forall|r: RoundTrip| #[trigger]
            trips_part(t, split, false).contains(r) ==> r.entry_time_ns < split && t.contains(r),
        forall|r: RoundTrip| #[trigger]
            trips_part(t, split, true).contains(r) ==> r.entry_time_ns >= split && t.contains(r),
{
    let early = |r: RoundTrip| (r.entry_time_ns >= split) == false;
    let late = |r: RoundTrip| (r.entry_time_ns >= split) == true;
    lemma_filter_halves(t, early, late);
    lemma_filtered(t, early);
    lemma_filtered(t, late);
}

/// Every tick falls into exactly one of the two parts of a capture.
pub proof fn law_ticks_add_up(t: Seq<BtTick>, split: u64)
    ensures
        ticks_part(t, split, false).len() + ticks_part(t, split, true).len() == t.len(),
        forall|x: BtTick| #[trigger]
            ticks_part(t, split, false).contains(x) ==> x.t_ns < split && t.contains(x),
        forall|x: BtTick| #[trigger]
            ticks_part(t, split, true).contains(x) ==> x.t_ns >= split && t.contains(x),
{
    let early = |x: BtTick| (x.t_ns >= split) == false;
    let late = |x: BtTick| (x.t_ns >= split) == true;
    lemma_filter_halves(t, early, late);
    lemma_filtered(t, early);
    lemma_filtered(t, late);
}

proof fn lemma_filtered<T>(t: Seq<T>, p: spec_fn(T) -> bool)
    ensures
        forall|x: T| #[trigger] t.filter(p).contains(x) ==> p(x) && t.contains(x),
    decreases t.len(),
{
    reveal(Seq::filter);
    if t.len() > 0 {
        let head = t.drop_last();
        lemma_filtered(head, p);
        assert forall|x: T| #[trigger] t.filter(p).contains(x) implies p(x) && t.contains(x) by {
            let k = choose|k: int| 0 <= k < t.filter(p).len() && t.filter(p)[k] == x;
            if k < head.filter(p).len() {
                assert(head.filter(p)[k] == x);
                assert(head.filter(p).contains(x));
                let m = choose|m: int| 0 <= m < head.len() && head[m] == x;
                assert(t[m] == x);
            } else {
                assert(t[t.len() - 1] == x);
            }
        }
    }
}

proof fn lemma_filter_halves<T>(t: Seq<T>, p: spec_fn(T) -> bool, q: spec_fn(T) -> bool)
    requires
        forall|x: T| #[trigger] p(x) != q(x),
    ensures
        t.filter(p).len() + t.filter(q).len() == t.len(),
    decreases t.len(),
{
    reveal(Seq::filter);
    if t.len() > 0 {
        lemma_filter_halves(t.drop_last(), p, q);
        assert(p(t.last()) != q(t.last()));
    }
}

// Settings.
/// One of the settings that a sweep tries. Numbers are bit patterns of binary32.
#[derive(Clone, Copy, Debug, PartialEq, Eq, Structural)]
pub struct GridPoint {
    /// Entries pay the maker fee.
    pub maker: bool,
    /// Threshold of the signal, in basis points: 3, 5 or 10.
    pub signal_thr_bps: u32,
    /// Retrace of the trailing stop, in basis points: 6 or 10.
    pub trail_bps: u32,
    /// The expected move has to clear the costs.
    pub fee_gate: bool,
    /// By how much, in basis points: 2 if it has to.
    pub min_edge_bps: u32,
}

/// Number of settings that a sweep tries.
pub const GRID_SIZE: usize = 24;

/// Setting `k` of a sweep: the cost test changes fastest, then the trailing stop, the
/// threshold, and the fee.
pub open spec fn grid_of(k: int) -> GridPoint {
    let gate = k % 2 == 1;
    let trail = (k / 2) % 2;
    let thr = (k / 4) % 3;
    GridPoint {
        maker: k / 12 == 1,
        signal_thr_bps: if thr == 0 {
            0x4040_0000u32
        } else if thr == 1 {
            0x40A0_0000u32
        } else {
            0x4120_0000u32
        },
        trail_bps: if trail == 0 {
            0x40C0_0000u32
        } else {
            0x4120_0000u32
        },
        fee_gate: gate,
        min_edge_bps: if gate {
            0x4000_0000u32
        } else {
            0u32
        },
    }
}

/// Setting `k` of a sweep.
pub fn grid_point(k: usize) -> (p: GridPoint)
    requires
        k < GRID_SIZE,
    ensures
        p == grid_of(k as int),
{
    let gate: bool = k % 2 == 1;
    let thr: usize = (k / 4) % 3;
    GridPoint {
        maker: k / 12 == 1,
        signal_thr_bps: if thr == 0 {
            0x4040_0000
        } else if thr == 1 {
            0x40A0_0000
        } else {
            0x4120_0000
        },
        trail_bps: if (k / 2) % 2 == 0 {
            0x40C0_0000
        } else {
            0x4120_0000
        },
        fee_gate: gate,
        min_edge_bps: if gate {
            0x4000_0000
        } else {
            0
        },
    }
}

/// No setting is tried twice.
pub proof fn law_grid_distinct(a: int, b: int)
    requires
        0 <= a < b < GRID_SIZE,
    ensures
        grid_of(a) != grid_of(b),
{
    if grid_of(a) == grid_of(b) {
        assert(a % 2 == b % 2);
        assert((a / 2) % 2 == (b / 2) % 2);
        assert((a / 4) % 3 == (b / 4) % 3);
        assert(a / 12 == b / 12);
        assert(a == 12 * (a / 12) + 4 * ((a / 4) % 3) + 2 * ((a / 2) % 2) + a % 2);
        assert(b == 12 * (b / 12) + 4 * ((b / 4) % 3) + 2 * ((b / 2) % 2) + b % 2);
    }
}

/// In-sample profit with an out-of-sample loss (binary64 returns).
pub open spec fn is_overfit(in_sample: u64, out_of_sample: u64) -> bool {
    crate::ieee::lt64(0, in_sample) && crate::ieee::lt64(out_of_sample, 0)
}

/// Whether in-sample profit comes with an out-of-sample loss.
pub fn overfit(in_sample: u64, out_of_sample: u64) -> (r: bool)
    ensures
        r == is_overfit(in_sample, out_of_sample),
{
    is_lt64(0, in_sample) && is_lt64(out_of_sample, 0)
}

/// The mark of a row: overfit, profitable out of sample, or neither.
pub open spec fn flag_of(in_sample: u64, out_of_sample: u64) -> Seq<char> {
    if is_overfit(in_sample, out_of_sample) {
        "overfit"@
    } else if crate::ieee::lt64(0, out_of_sample) {
        "OOS+"@
    } else {
        ""@
    }
}

/// The mark of a row.
pub fn row_flag(in_sample: u64, out_of_sample: u64) -> (s: &'static str)
    ensures
        s@ == flag_of(in_sample, out_of_sample),
{
    if overfit(in_sample, out_of_sample) {
        "overfit"
    } else if is_lt64(0, out_of_sample) {
        "OOS+"
    } else {
        ""
    }
}

// The policy search.
/// Trades below which a candidate's score is scaled down.
pub const MIN_TRADES: usize = 30;

/// How a candidate is scored.
#[derive(Clone, Copy, Debug, PartialEq, Eq, Structural)]
pub enum Scoring {
    /// It never traded, or its account was ruined: the lowest score.
    NoTrade,
    /// It traded too little: its score is scaled by the square of its share.
    Scaled,
    /// It is scored in full.
    Full,
}

/// How a candidate with `n` round trips is scored.
pub open spec fn scoring_of(n: int, ruined: bool) -> Scoring {
    if n == 0 || ruined {
        Scoring::NoTrade
    } else if n < MIN_TRADES {
        Scoring::Scaled
    } else {
        Scoring::Full
    }
}

/// A candidate counts exactly if it traded and was not ruined, and in full exactly from 30
/// round trips on.
pub proof fn law_scoring(n: int, ruined: bool)
    requires
        n >= 0,
    ensures
        scoring_of(n, ruined) == Scoring::NoTrade <==> ruined || n < 1,
        scoring_of(n, ruined) == Scoring::Full <==> !ruined && n >= 30,
        scoring_of(n, ruined) == Scoring::Scaled <==> !ruined && 1 <= n < 30,
{
}

/// How a candidate with `n` round trips is scored.
pub fn scoring(n: usize, ruined: bool) -> (s: Scoring)
    ensures
        s == scoring_of(n as int, ruined),
{
    if n == 0 || ruined {
        Scoring::NoTrade
    } else if n < MIN_TRADES {
        Scoring::Scaled
    } else {
        Scoring::Full
    }
}

/// Candidates that a generation keeps: an eighth, but at least four.
pub open spec fn elite_of(pop: int) -> int {
    if pop / 8 < 4 {
        4
    } else {
        pop / 8
    }
}

/// Candidates that a generation keeps.
pub fn elite_size(pop: usize) -> (n: usize)
    ensures
        n == elite_of(pop as int),
{
    if pop / 8 < 4 {
        4
    } else {
        pop / 8
    }
}

/// A generation has as many candidates as it keeps exactly from four candidates on.
pub proof fn law_elite_fits(pop: int)
    requires
        pop >= 0,
    ensures
        elite_of(pop) <= pop <==> pop >= 4,
{
}

/// The lowest finite score (binary64).
pub const LOWEST: u64 = 0xFFEF_FFFF_FFFF_FFFF;

/// The best score so far (binary64).
#[derive(Clone, Copy, Debug, PartialEq, Eq, Structural)]
pub struct Best {
    /// The score; the lowest finite one before the first generation.
    pub score: u64,
    /// The score was beaten at least once.
    pub found: bool,
}

impl Best {
    /// The best score after one more.
    pub open spec fn after(self, score: u64) -> Best {
        if crate::ieee::lt64(self.score, score) {
            Best { score, found: true }
        } else {
            self
        }
    }

    /// Before the first generation.
    pub fn new() -> (b: Best)
        ensures
            b == (Best { score: LOWEST, found: false }),
    {
        Best { score: LOWEST, found: false }
    }

    /// Takes in the best score of a generation; tells whether it is the best so far.
    pub fn offer(&mut self, score: u64) -> (better: bool)
        ensures
            better == crate::ieee::lt64(old(self).score, score),
            *final(self) == old(self).after(score),
    {
        if is_lt64(self.score, score) {
            self.score = score;
            self.found = true;
            true
        } else {
            false
        }
    }
}

/// The best score after a sequence of scores.
pub open spec fn best_of(b: Best, scores: Seq<u64>) -> Best
    decreases scores.len(),
{
    if scores.len() == 0 {
        b
    } else {
        best_of(b, scores.drop_last()).after(scores.last())
    }
}

/// The best score never falls, none that was offered exceeds it, and it was itself offered
/// unless nothing beat the one at the start.
pub proof fn law_best_of_all(b: Best, scores: Seq<u64>)
    requires
        !crate::ieee::nan64(b.score),
    ensures
        ({
            let r = best_of(b, scores);
            &&& crate::ieee::le64(b.score, r.score)
            &&& forall|i: int|
                0 <= i < scores.len() ==> !crate::ieee::lt64(r.score, #[trigger] scores[i])
            &&& r == b || scores.contains(r.score)
        }),
    decreases scores.len(),
{
    if scores.len() > 0 {
        let before = scores.drop_last();
        law_best_of_all(b, before);
        let q = best_of(b, before);
        let r = best_of(b, scores);
        assert forall|i: int| 0 <= i < scores.len() implies !crate::ieee::lt64(
            r.score,
            #[trigger] scores[i],
        ) by {
            if i < before.len() {
                assert(before[i] == scores[i]);
            }
        }
        if r == q && r != b {
            let k = choose|k: int| 0 <= k < before.len() && before[k] == q.score;
            assert(scores[k] == r.score);
        } else if r != b {
            assert(scores[scores.len() - 1] == r.score);
        }
    }
}

/// The search for a policy: the best score so far, and the policy that has it.
#[derive(Clone, Copy)]
pub struct Search {
    /// The best score so far.
    pub best: Best,
    /// The policy that has it; all weights are zero before the first.
    pub policy: Policy,
}

/// The candidates of a generation, and the score (binary64) of each.
#[verifier::ext_equal]
pub ghost struct Generation {
    /// The candidates.
    pub samples: Seq<Policy>,
    /// Their scores.
    pub scores: Seq<u64>,
}

impl Search {
    /// The search after a generation: its best candidate is kept if none before was as good.
    pub open spec fn after(self, g: Generation) -> Search {
        let top = crate::stats::ranked(g.scores)[0] as int;
        if crate::ieee::lt64(self.best.score, g.scores[top]) {
            Search { best: self.best.after(g.scores[top]), policy: g.samples[top] }
        } else {
            self
        }
    }

    /// Before the first generation.
    pub open spec fn fresh(self) -> bool {
        &&& self.best == (Best { score: LOWEST, found: false })
        &&& forall|i: int| 0 <= i < N_PARAMS ==> self.policy.p@[i] == 0
    }

    /// A search before the first generation.
    pub fn new() -> (s: Search)
        ensures
            s.fresh(),
    {
        Search { best: Best::new(), policy: Policy { p: [0u32; 65] } }
    }

    /// Takes in a generation; returns its candidates from the best to the worst.
    pub fn generation(&mut self, samples: &Vec<Policy>, scores: &Vec<u64>) -> (order: Vec<usize>)
        requires
            samples.len() == scores.len(),
            scores.len() > 0,
        ensures
            order@ == crate::stats::ranked(scores@),
            crate::stats::is_ranking(scores@, order@),
            *final(self) == old(self).after(Generation { samples: samples@, scores: scores@ }),
    {
        let order = ranking(scores);
        assert(order@[0] < scores@.len());
        let top: usize = order[0];
        if self.best.offer(scores[top]) {
            self.policy = samples[top];
        }
        order
    }
}

/// The search after a sequence of generations.
pub open spec fn search_over(s: Search, h: Seq<Generation>) -> Search
    decreases h.len(),
{
    if h.len() == 0 {
        s
    } else {
        search_over(s, h.drop_last()).after(h.last())
    }
}

/// A candidate was in a generation, with a score.
pub open spec fn sampled(h: Seq<Generation>, policy: Policy, score: u64) -> bool {
    exists|g: int, i: int|
        0 <= g < h.len() && 0 <= i < h[g].samples.len() && #[trigger] h[g].samples[i] == policy
            && h[g].scores[i] == score
}

/// A generation in which every candidate has a score, and every score is a number.
pub open spec fn is_scored(g: Generation) -> bool {
    &&& 0 < g.samples.len() <= usize::MAX
    &&& g.scores.len() == g.samples.len()
    &&& forall|i: int| 0 <= i < g.scores.len() ==> !crate::ieee::nan64(#[trigger] g.scores[i])
}

/// Over any number of generations the search ends with a policy that was a candidate in one
/// of them and that none in any of them beats, unless none beat the score at the start.
pub proof fn law_search_keeps_best(s: Search, h: Seq<Generation>)
    requires
        !crate::ieee::nan64(s.best.score),
        forall|g: int| 0 <= g < h.len() ==> is_scored(#[trigger] h[g]),
    ensures
        ({
            let r = search_over(s, h);
            &&& crate::ieee::le64(s.best.score, r.best.score)
            &&& r == s || sampled(h, r.policy, r.best.score)
            &&& forall|g: int, i: int|
                0 <= g < h.len() && 0 <= i < h[g].scores.len() ==> !crate::ieee::lt64(
                    r.best.score,
                    #[trigger] h[g].scores[i],
                )
        }),
    decreases h.len(),
{
    if h.len() > 0 {
        let n = h.len() - 1;
        let head = h.drop_last();
        assert forall|g: int| 0 <= g < head.len() implies is_scored(#[trigger] head[g]) by {
            assert(head[g] == h[g]);
        }
        law_search_keeps_best(s, head);
        assert(is_scored(h[n]));
        let q = search_over(s, head);
        let r = search_over(s, h);
        let top = crate::stats::ranked(h[n].scores)[0] as int;
        crate::stats::law_first_is_best(h[n].scores, 0);
        assert(!crate::ieee::nan64(h[n].scores[top]));
        assert(crate::ieee::le64(q.best.score, r.best.score));
        assert forall|g: int, i: int|
            0 <= g < h.len() && 0 <= i < h[g].scores.len() implies !crate::ieee::lt64(
            r.best.score,
            #[trigger] h[g].scores[i],
        ) by {
            if g < n {
                assert(head[g].scores[i] == h[g].scores[i]);
                assert(!crate::ieee::lt64(q.best.score, head[g].scores[i]));
            } else {
                crate::stats::law_first_is_best(h[n].scores, i);
            }
        }
        if crate::ieee::lt64(q.best.score, h[n].scores[top]) {
            assert(h[n].samples[top] == r.policy && h[n].scores[top] == r.best.score);
            assert(sampled(h, r.policy, r.best.score));
        } else if q != s {
            let (g, i) = choose|g: int, i: int|
                0 <= g < head.len() && 0 <= i < head[g].samples.len()
                    && #[trigger] head[g].samples[i] == q.policy && head[g].scores[i]
                    == q.best.score;
            assert(h[g].samples[i] == r.policy && h[g].scores[i] == r.best.score);
            assert(sampled(h, r.policy, r.best.score));
        }
    }
}

/// The generations of a search: `draw` makes the candidates of one from those before it and
/// their scores, and `score` rates a candidate over the ticks `early`.
pub open spec fn generations(
    early: Seq<BtTick>,
    draw: spec_fn(Seq<Generation>) -> Seq<Policy>,
    score: spec_fn(Policy, Seq<BtTick>) -> u64,
    n: nat,
) -> Seq<Generation>
    decreases n,
{
    if n == 0 {
        Seq::empty()
    } else {
        let before = generations(early, draw, score, (n - 1) as nat);
        let samples = draw(before);
        before.push(
            Generation {
                samples,
                scores: Seq::new(samples.len(), |i: int| score(samples[i], early)),
            },
        )
    }
}

/// The ticks of a capture that a policy is searched on.
pub open spec fn early_of(ticks: Seq<BtTick>) -> Seq<BtTick> {
    ticks_part(ticks, split_of(ticks), false)
}

proof fn lemma_generations(
    early: Seq<BtTick>,
    draw: spec_fn(Seq<Generation>) -> Seq<Policy>,
    score: spec_fn(Policy, Seq<BtTick>) -> u64,
    n: nat,
)
    requires
        forall|h: Seq<Generation>| 0 < (#[trigger] draw(h)).len() <= usize::MAX,
        forall|p: Policy| crate::ieee::lt64(LOWEST, #[trigger] score(p, early)),
    ensures
        generations(early, draw, score, n).len() == n,
        forall|g: int| 0 <= g < n ==> is_scored(#[trigger] generations(early, draw, score, n)[g]),
        forall|g: int, i: int|
            0 <= g < n && 0 <= i < generations(early, draw, score, n)[g].samples.len()
                ==> generations(early, draw, score, n)[g].scores[i] == score(
                #[trigger] generations(early, draw, score, n)[g].samples[i],
                early,
            ),
    decreases n,
{
    if n > 0 {
        let before = generations(early, draw, score, (n - 1) as nat);
        lemma_generations(early, draw, score, (n - 1) as nat);
        let h = generations(early, draw, score, n);
        assert(0 < draw(before).len() <= usize::MAX);
        assert forall|g: int| 0 <= g < n implies is_scored(#[trigger] h[g]) by {
            if g < n - 1 {
                assert(h[g] == before[g]);
            } else {
                assert forall|i: int| 0 <= i < h[g].scores.len() implies !crate::ieee::nan64(
                    #[trigger] h[g].scores[i],
                ) by {
                    assert(crate::ieee::lt64(LOWEST, score(h[g].samples[i], early)));
                }
            }
        }
        assert forall|g: int, i: int|
            0 <= g < n && 0 <= i < h[g].samples.len() implies h[g].scores[i] == score(
            #[trigger] h[g].samples[i],
            early,
        ) by {
            if g < n - 1 {
                assert(h[g] == before[g]);
                assert(before[g].scores[i] == score(before[g].samples[i], early));
            }
        }
    }
}

/// The whole search, over a capture: it ends with a policy that was a candidate in some
/// generation and that no candidate of any generation beats on the early ticks. It is stored
/// in 260 bytes, and another capture with the same early ticks gives the same one: the ticks
/// that are held out have no influence.
pub proof fn law_policy_search(
    s: Search,
    ticks: Seq<BtTick>,
    other: Seq<BtTick>,
    draw: spec_fn(Seq<Generation>) -> Seq<Policy>,
    score: spec_fn(Policy, Seq<BtTick>) -> u64,
    n: nat,
)
    requires
        s.fresh(),
        n > 0,
        forall|h: Seq<Generation>| 0 < (#[trigger] draw(h)).len() <= usize::MAX,
        forall|p: Policy| crate::ieee::lt64(LOWEST, #[trigger] score(p, early_of(ticks))),
    ensures
        ({
            let h = generations(early_of(ticks), draw, score, n);
            let r = search_over(s, h);
            &&& r.best.score == score(r.policy, early_of(ticks))
            &&& sampled(h, r.policy, r.best.score)
            &&& forall|g: int, i: int|
                0 <= g < h.len() && 0 <= i < h[g].samples.len() ==> !crate::ieee::lt64(
                    score(r.policy, early_of(ticks)),
                    score(#[trigger] h[g].samples[i], early_of(ticks)),
                )
            &&& crate::model::weight_bytes(r.policy.p@).len() == 260
            &&& early_of(other) == early_of(ticks) ==> search_over(
                s,
                generations(early_of(other), draw, score, n),
            ) == r
        }),
{
    let early = early_of(ticks);
    let h = generations(early, draw, score, n);
    let r = search_over(s, h);
    lemma_generations(early, draw, score, n);
    law_search_keeps_best(s, h);
    assert(is_scored(h[0]));
    assert(!crate::ieee::lt64(r.best.score, h[0].scores[0]));
    assert(h[0].scores[0] == score(h[0].samples[0], early));
    assert(r != s);
    let (g, i) = choose|g: int, i: int|
        0 <= g < h.len() && 0 <= i < h[g].samples.len() && #[trigger] h[g].samples[i] == r.policy
            && h[g].scores[i] == r.best.score;
    assert(h[g].scores[i] == score(h[g].samples[i], early));
    assert forall|g: int, i: int| 0 <= g < h.len() && 0 <= i < h[g].samples.len() implies
        !crate::ieee::lt64(score(r.policy, early), score(#[trigger] h[g].samples[i], early)) by {
        assert(is_scored(h[g]));
        assert(h[g].scores[i] == score(h[g].samples[i], early));
        assert(!crate::ieee::lt64(r.best.score, h[g].scores[i]));
    }
    crate::model::law_policy_round_trip(r.policy.p@, Seq::empty());
}

// What the parts of a capture are.
/// Every tick comes later than the one before it.
pub open spec fn in_order(t: Seq<BtTick>) -> bool {
    forall|i: int, j: int| 0 <= i < j < t.len() ==> t[i].t_ns < t[j].t_ns
}

proof fn lemma_filter_front<T>(t: Seq<T>, p: spec_fn(T) -> bool, k: int)
    requires
        0 <= k <= t.len(),
        forall|i: int| 0 <= i < k ==> p(#[trigger] t[i]),
        forall|i: int| k <= i < t.len() ==> !p(#[trigger] t[i]),
    ensures
        t.filter(p) == t.take(k),
    decreases t.len(),
{
    reveal(Seq::filter);
    if t.len() > 0 {
        let head = t.drop_last();
        let n = t.len() - 1;
        assert(forall|i: int| 0 <= i < n ==> head[i] == t[i]);
        lemma_filter_front(head, p, if k < n {
            k
        } else {
            n
        });
        assert(t[n] == t.last());
        if k == t.len() {
            assert(head.take(n).push(t.last()) == t.take(k));
        } else {
            assert(head.take(k) == t.take(k));
        }
    } else {
        assert(t.filter(p) == t.take(k));
    }
}

proof fn lemma_filter_back<T>(t: Seq<T>, p: spec_fn(T) -> bool, k: int)
    requires
        0 <= k <= t.len(),
        forall|i: int| 0 <= i < k ==> !p(#[trigger] t[i]),
        forall|i: int| k <= i < t.len() ==> p(#[trigger] t[i]),
    ensures
        t.filter(p) == t.skip(k),
    decreases t.len(),
{
    reveal(Seq::filter);
    if t.len() > 0 {
        let head = t.drop_last();
        let n = t.len() - 1;
        assert(forall|i: int| 0 <= i < n ==> head[i] == t[i]);
        lemma_filter_back(head, p, if k < n {
            k
        } else {
            n
        });
        assert(t[n] == t.last());
        if k == t.len() {
            assert(head.skip(n) == t.skip(k));
        } else {
            assert(head.skip(k).push(t.last()) == t.skip(k));
        }
    } else {
        assert(t.filter(p) == t.skip(k));
    }
}

/// A capture is split behind its first 70 percent, rounded down to whole ticks: the early
/// part is exactly that front of it, the held-out part is the rest, and that is never empty.
pub proof fn law_split_at_seventy_percent(t: Seq<BtTick>)
    requires
        t.len() > 0,
        in_order(t),
    ensures
        ({
            let early = ticks_part(t, split_of(t), false);
            let late = ticks_part(t, split_of(t), true);
            &&& early.len() * 100 <= 70 * t.len() < (early.len() + 1) * 100
            &&& early == t.take(early.len() as int)
            &&& late == t.skip(early.len() as int)
            &&& late.len() > 0
            &&& late[0].t_ns == split_of(t)
            &&& early_of(t) == early
        }),
{
    let k = (t.len() * 70 / 100) as int;
    let split = t[k].t_ns;
    assert(split_of(t) == split);
    let early = |x: BtTick| (x.t_ns >= split) == false;
    let late = |x: BtTick| (x.t_ns >= split) == true;
    assert forall|i: int| 0 <= i < k implies early(#[trigger] t[i]) && !late(t[i]) by {
        assert(t[i].t_ns < t[k].t_ns);
    }
    assert forall|i: int| k <= i < t.len() implies !early(#[trigger] t[i]) && late(t[i]) by {
        if i > k {
            assert(t[k].t_ns < t[i].t_ns);
        }
    }
    lemma_filter_front(t, early, k);
    lemma_filter_back(t, late, k);
    assert(ticks_part(t, split, false) == t.take(k));
    assert(ticks_part(t, split, true) == t.skip(k));
}

/// The middle of a capture lies as far from its first tick as from its last, but for half a
/// nanosecond.
pub proof fn law_middle_is_halfway(t: Seq<BtTick>)
    requires
        t.len() > 0,
        t[0].t_ns <= t[t.len() - 1].t_ns,
    ensures
        t[0].t_ns <= middle_of(t) <= t[t.len() - 1].t_ns,
        0 <= (t[t.len() - 1].t_ns - middle_of(t)) - (middle_of(t) - t[0].t_ns) <= 1,
{
}

proof fn lemma_traded_before(t: Seq<BtTick>, n: int)
    requires
        0 <= n <= t.len(),
    ensures
        traded_before(t, n) == t.take(n).filter(|x: BtTick| x.id != 1).len(),
    decreases n,
{
    reveal(Seq::filter);
    if n > 0 {
        lemma_traded_before(t, n - 1);
        assert(t.take(n).drop_last() == t.take(n - 1));
    }
}

/// A tick of the reference hands the model its price, and any other tick itself. The model
/// is warm from the eleventh of the others on, and stays so.
pub proof fn law_warmup_is_ten_traded_ticks(t: Seq<BtTick>, n: int)
    requires
        0 <= n < t.len(),
    ensures
        t[n].id == 1 ==> event_of(t, n) == (ModelEvent::Reference { price: t[n].price }),
        t[n].id != 1 ==> event_of(t, n) == (ModelEvent::Traded {
            tick: t[n],
            warmed: t.take(n).filter(|x: BtTick| x.id != 1).len() >= 10,
        }),
{
    lemma_traded_before(t, n);
}

/// The traded ticks are those of instrument 0, each counted once.
pub proof fn law_traded_ticks_counted(t: Seq<BtTick>)
    ensures
        traded_of(t) == t.filter(|x: BtTick| x.id == 0).len(),
        traded_of(t) <= t.len(),
    decreases t.len(),
{
    reveal(Seq::filter);
    if t.len() > 0 {
        law_traded_ticks_counted(t.drop_last());
    }
}

/// A sweep tries every combination of its settings: maker fee or not, a threshold of 3, 5
/// or 10, a trailing stop of 6 or 10, and the cost test with an edge of 2 or without.
pub proof fn law_grid_complete(maker: bool, thr: u32, trail: u32, gate: bool)
    requires
        thr == 0x4040_0000u32 || thr == 0x40A0_0000u32 || thr == 0x4120_0000u32,
        trail == 0x40C0_0000u32 || trail == 0x4120_0000u32,
    ensures
        exists|k: int|
            0 <= k < GRID_SIZE && #[trigger] grid_of(k) == (GridPoint {
                maker,
                signal_thr_bps: thr,
                trail_bps: trail,
                fee_gate: gate,
                min_edge_bps: if gate {
                    0x4000_0000u32
                } else {
                    0u32
                },
            }),
        GRID_SIZE == 2 * 3 * 2 * 2,
{
    let m: int = if maker {
        1
    } else {
        0
    };
    let s: int = if thr == 0x4040_0000u32 {
        0
    } else if thr == 0x40A0_0000u32 {
        1
    } else {
        2
    };
    let r: int = if trail == 0x40C0_0000u32 {
        0
    } else {
        1
    };
    let g: int = if gate {
        1
    } else {
        0
    };
    let k = 12 * m + 4 * s + 2 * r + g;
    assert(k % 2 == g && (k / 2) % 2 == r && (k / 4) % 3 == s && k / 12 == m);
    assert(grid_of(k).maker == maker);
}

/// A sweep tries its settings in order: without the maker fee first, then by threshold, by
/// trailing stop, and without the cost test first.
pub proof fn law_grid_ordered(a: int, b: int)
    requires
        0 <= a < b < GRID_SIZE,
    ensures
        ({
            let p = grid_of(a);
            let q = grid_of(b);
            ||| !p.maker && q.maker
            ||| p.maker == q.maker && crate::ieee::lt(p.signal_thr_bps, q.signal_thr_bps)
            ||| p.maker == q.maker && p.signal_thr_bps == q.signal_thr_bps && crate::ieee::lt(
                p.trail_bps,
                q.trail_bps,
            )
            ||| p.maker == q.maker && p.signal_thr_bps == q.signal_thr_bps && p.trail_bps
                == q.trail_bps && !p.fee_gate && q.fee_gate
        }),
{
    assert(a == 12 * (a / 12) + 4 * ((a / 4) % 3) + 2 * ((a / 2) % 2) + a % 2);
    assert(b == 12 * (b / 12) + 4 * ((b / 4) % 3) + 2 * ((b / 2) % 2) + b % 2);
}

/// A row is marked as overfit exactly if it gains in sample and loses out of sample, as
/// profitable exactly if it gains out of sample, and not at all otherwise. The three marks
/// differ.
pub proof fn law_row_marks(in_sample: u64, out_of_sample: u64)
    ensures
        flag_of(in_sample, out_of_sample) == "overfit"@ <==> crate::ieee::lt64(0, in_sample)
            && crate::ieee::lt64(out_of_sample, 0),
        flag_of(in_sample, out_of_sample) == "OOS+"@ <==> crate::ieee::lt64(0, out_of_sample),
        is_overfit(in_sample, out_of_sample) ==> !crate::ieee::lt64(0, out_of_sample)
            && !is_overfit(out_of_sample, in_sample),
        flag_of(in_sample, out_of_sample).len() == 0 <==> !crate::ieee::lt64(0, out_of_sample)
            && !(crate::ieee::lt64(0, in_sample) && crate::ieee::lt64(out_of_sample, 0)),
{
    reveal_strlit("overfit");
    reveal_strlit("OOS+");
    reveal_strlit("");
    assert("overfit"@.len() == 7 && "OOS+"@.len() == 4 && ""@.len() == 0);
}

/// A generation keeps an eighth of its candidates, rounded down, but no fewer than four.
pub proof fn law_elite_is_an_eighth(pop: int)
    requires
        pop >= 0,
    ensures
        elite_of(pop) >= 4,
        elite_of(pop) > 4 ==> 8 * elite_of(pop) <= pop,
        pop < 8 * (elite_of(pop) + 1),
{
}

/// A score was found exactly if one that was offered beats the one at the start.
pub proof fn law_best_is_found(b: Best, scores: Seq<u64>)
    requires
        !crate::ieee::nan64(b.score),
        !b.found,
    ensures
        best_of(b, scores).found <==> exists|i: int|
            0 <= i < scores.len() && crate::ieee::lt64(b.score, #[trigger] scores[i]),
        !best_of(b, scores).found ==> best_of(b, scores) == b,
    decreases scores.len(),
{
    if scores.len() > 0 {
        let head = scores.drop_last();
        let n = scores.len() - 1;
        law_best_is_found(b, head);
        law_best_of_all(b, head);
        if exists|i: int| 0 <= i < head.len() && crate::ieee::lt64(b.score, #[trigger] head[i]) {
            let i = choose|i: int|
                0 <= i < head.len() && crate::ieee::lt64(b.score, #[trigger] head[i]);
            assert(scores[i] == head[i]);
        }
        if exists|i: int| 0 <= i < scores.len() && crate::ieee::lt64(b.score, #[trigger] scores[i]) {
            let i = choose|i: int|
                0 <= i < scores.len() && crate::ieee::lt64(b.score, #[trigger] scores[i]);
            if i < n {
                assert(head[i] == scores[i]);
            }
        }
        if best_of(b, scores).found && !best_of(b, head).found {
            assert(crate::ieee::lt64(b.score, scores[n]));
        }
    }
}

} // verus!

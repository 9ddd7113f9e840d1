//! The strategy's decisions, tick by tick: whether a tick counts, whether it triggers a
//! buy, and what the book makes of it.
//!
//! Thresholds that are products or averages of prices come in as bit patterns; every
//! comparison with them is made here.

use vstd::prelude::*;
use crate::book::{Act, OrderBook, Risk};
use crate::config::{BUFFER_SIZE, CLEAN_SEQ_THRESHOLD, MAX_GAP_COUNT, WARMUP_PACKETS};
use crate::ieee::{is_le, is_lt, is_positive};
use crate::logs::{OrderEntry, RoundTrip};

verus! {

/// Idle spins further apart than this count as a stall.
pub const STALL_NS: u64 = 500;

/// The last eight prices, oldest first.
#[derive(Clone, Copy)]
pub struct Window {
    /// The prices (binary32).
    pub prices: [u32; 8],
}

/// The larger of two prices; the second if they cannot be compared or are equal.
pub open spec fn larger(a: u32, b: u32) -> u32 {
    if crate::ieee::lt(b, a) {
        a
    } else {
        b
    }
}

/// The window after a price was shifted in: the oldest one leaves.
pub open spec fn pushed(w: Seq<u32>, price: u32) -> Seq<u32> {
    w.drop_first().push(price)
}

/// The largest of eight prices: opposite halves first, then what is left in pairs.
pub open spec fn largest(w: Seq<u32>) -> u32 {
    larger(
        larger(larger(w[0], w[4]), larger(w[2], w[6])),
        larger(larger(w[1], w[5]), larger(w[3], w[7])),
    )
}

fn larger_of(a: u32, b: u32) -> (r: u32)
    ensures
        r == larger(a, b),
{
    if is_lt(b, a) {
        a
    } else {
        b
    }
}

impl Window {
    /// A window of eight zeros.
    pub fn new() -> (w: Window)
        ensures
            w.prices@ == seq![0u32, 0, 0, 0, 0, 0, 0, 0],
    {
        let prices: [u32; 8] = [0, 0, 0, 0, 0, 0, 0, 0];
        assert(prices@ == seq![0u32, 0, 0, 0, 0, 0, 0, 0]);
        Window { prices }
    }

    /// The largest price in the window.
    pub fn max(&self) -> (m: u32)
        ensures
            m == largest(self.prices@),
    {
        let w = &self.prices;
        larger_of(
            larger_of(larger_of(w[0], w[4]), larger_of(w[2], w[6])),
            larger_of(larger_of(w[1], w[5]), larger_of(w[3], w[7])),
        )
    }

    /// Shifts a price in; the oldest one leaves.
    pub fn push(&mut self, price: u32)
        ensures
            final(self).prices@ == pushed(old(self).prices@, price),
    {
        let w = self.prices;
        self.prices = [w[1], w[2], w[3], w[4], w[5], w[6], w[7], price];
        assert(self.prices@ == pushed(old(self).prices@, price));
    }
}

/// Of eight numbers, `largest` is one, and none exceeds it.
pub proof fn law_largest(w: Seq<u32>)
    requires
        w.len() == 8,
        forall|i: int| 0 <= i < 8 ==> !crate::ieee::nan(#[trigger] w[i]),
    ensures
        w.contains(largest(w)),
        forall|i: int| 0 <= i < 8 ==> crate::ieee::le(#[trigger] w[i], largest(w)),
{
    assert(!crate::ieee::nan(w[0]) && !crate::ieee::nan(w[1]) && !crate::ieee::nan(w[2])
        && !crate::ieee::nan(w[3]) && !crate::ieee::nan(w[4]) && !crate::ieee::nan(w[5])
        && !crate::ieee::nan(w[6]) && !crate::ieee::nan(w[7]));
    let m = largest(w);
    assert(m == w[0] || m == w[1] || m == w[2] || m == w[3] || m == w[4] || m == w[5] || m == w[6]
        || m == w[7]);
    assert(crate::ieee::le(w[0], m) && crate::ieee::le(w[1], m) && crate::ieee::le(w[2], m)
        && crate::ieee::le(w[3], m) && crate::ieee::le(w[4], m) && crate::ieee::le(w[5], m)
        && crate::ieee::le(w[6], m) && crate::ieee::le(w[7], m));
}

/// The window holds exactly the last eight prices that were shifted in.
pub proof fn law_window_forgets(w: Seq<u32>, prices: Seq<u32>)
    requires
        w.len() == 8,
        prices.len() >= 8,
    ensures
        shifted(w, prices) == prices.skip(prices.len() - 8),
{
    lemma_shifted(w, prices);
    assert((w + prices).skip(prices.len() as int) == prices.skip(prices.len() - 8));
}

/// A window after a sequence of prices was shifted in.
pub open spec fn shifted(w: Seq<u32>, prices: Seq<u32>) -> Seq<u32>
    decreases prices.len(),
{
    if prices.len() == 0 {
        w
    } else {
        pushed(shifted(w, prices.drop_last()), prices.last())
    }
}

proof fn lemma_shifted(w: Seq<u32>, prices: Seq<u32>)
    requires
        w.len() == 8,
    ensures
        shifted(w, prices) == (w + prices).skip(prices.len() as int),
    decreases prices.len(),
{
    if prices.len() == 0 {
        assert((w + prices).skip(0) == w);
    } else {
        lemma_shifted(w, prices.drop_last());
        assert(shifted(w, prices) == (w + prices).skip(prices.len() as int));
    }
}

/// The price that a breakout is measured from on a tick at `price`: the largest in the window
/// before the tick.
pub open spec fn breakout_base(w: Seq<u32>, price: u32) -> u32 {
    largest(w)
}

/// A breakout is measured from the last eight prices before the tick, and not from the
/// tick's own: the base is one of them, none of them exceeds it, and it is the same whatever
/// the tick's price is.
pub proof fn law_breakout_base(w: Seq<u32>, prices: Seq<u32>, price: u32, other: u32)
    requires
        w.len() == 8,
        prices.len() >= 8,
        forall|i: int| 0 <= i < prices.len() ==> !crate::ieee::nan(#[trigger] prices[i]),
    ensures
        ({
            let base = breakout_base(shifted(w, prices), price);
            let n = prices.len() as int;
            &&& exists|i: int| n - 8 <= i < n && #[trigger] prices[i] == base
            &&& forall|i: int| n - 8 <= i < n ==> crate::ieee::le(#[trigger] prices[i], base)
            &&& breakout_base(shifted(w, prices), other) == base
        }),
{
    let n = prices.len() as int;
    law_window_forgets(w, prices);
    let s = shifted(w, prices);
    assert forall|i: int| 0 <= i < 8 implies !crate::ieee::nan(#[trigger] s[i]) by {
        assert(s[i] == prices[n - 8 + i]);
    }
    law_largest(s);
    let base = largest(s);
    let k = choose|k: int| 0 <= k < s.len() && s[k] == base;
    assert(prices[n - 8 + k] == base);
    assert forall|i: int| n - 8 <= i < n implies crate::ieee::le(#[trigger] prices[i], base) by {
        assert(s[i - n + 8] == prices[i]);
    }
}

/// When a buy is triggered.
#[derive(Clone, Copy, Debug, PartialEq, Eq, Structural)]
pub enum BuyRule {
    /// Never: a trading model decides.
    Model,
    /// When the price falls.
    Downtick,
    /// When the price dips below a rolling reference.
    Dip,
    /// When the price crosses down through a fixed level.
    Target,
    /// When the price exceeds the last eight.
    Breakout,
}

/// The rule in force: a trading model first, then falling prices, dips, a fixed level,
/// and breakouts if nothing else is set.
pub open spec fn rule_of(trading: bool, downtick: bool, dip_bps: u32, target: u32) -> BuyRule {
    if trading {
        BuyRule::Model
    } else if downtick {
        BuyRule::Downtick
    } else if crate::ieee::positive(dip_bps) {
        BuyRule::Dip
    } else if crate::ieee::positive(target) {
        BuyRule::Target
    } else {
        BuyRule::Breakout
    }
}

/// The rule in force.
pub fn buy_rule(trading: bool, downtick: bool, dip_bps: u32, target: u32) -> (r: BuyRule)
    ensures
        r == rule_of(trading, downtick, dip_bps, target),
{
    if trading {
        BuyRule::Model
    } else if downtick {
        BuyRule::Downtick
    } else if is_positive(dip_bps) {
        BuyRule::Dip
    } else if is_positive(target) {
        BuyRule::Target
    } else {
        BuyRule::Breakout
    }
}

/// Levels that a price is compared with (binary32).
#[derive(Clone, Copy)]
pub struct Levels {
    /// The largest price of the window, scaled up by the breakout threshold.
    pub breakout: u32,
    /// The rolling reference, scaled down by the dip threshold.
    pub dip: u32,
    /// The rolling reference.
    pub reference: u32,
}

/// What a trigger remembers between ticks.
#[derive(Clone, Copy, Debug, PartialEq, Eq, Structural)]
pub struct Trigger {
    /// The rule in force.
    pub rule: BuyRule,
    /// The fixed level (binary32); not positive if there is none.
    pub target: u32,
    /// The last price, if there was one.
    pub previous: Option<u32>,
    /// The price has recovered since the last dip.
    pub armed: bool,
    /// The last price was at or below the fixed level.
    pub was_below: bool,
}

impl Trigger {
    /// Whether a price triggers a buy.
    pub open spec fn fires(self, price: u32, levels: Levels) -> bool {
        match self.rule {
            BuyRule::Model => false,
            BuyRule::Downtick => self.previous matches Some(p) && crate::ieee::lt(price, p),
            BuyRule::Dip => self.armed && crate::ieee::le(price, levels.dip),
            BuyRule::Target => crate::ieee::le(price, self.target) && !self.was_below,
            BuyRule::Breakout => crate::ieee::lt(levels.breakout, price),
        }
    }

    /// The trigger after a price.
    pub open spec fn after(self, price: u32, levels: Levels) -> Trigger {
        match self.rule {
            BuyRule::Downtick => Trigger { previous: Some(price), ..self },
            BuyRule::Dip => Trigger {
                armed: if self.fires(price, levels) {
                    false
                } else {
                    self.armed || crate::ieee::le(levels.reference, price)
                },
                ..self
            },
            BuyRule::Target => Trigger { was_below: crate::ieee::le(price, self.target), ..self },
            _ => self,
        }
    }

    /// The price that a buy at `price` aims at: the fixed level if that is the rule in force,
    /// else the price itself.
    pub open spec fn aim(self, price: u32) -> u32 {
        if self.rule == BuyRule::Target {
            self.target
        } else {
            price
        }
    }

    /// A trigger before the first tick.
    pub fn new(rule: BuyRule, target: u32) -> (t: Trigger)
        ensures
            t == (Trigger { rule, target, previous: None, armed: true, was_below: false }),
    {
        Trigger { rule, target, previous: None, armed: true, was_below: false }
    }

    /// Takes in a price; tells whether it triggers a buy.
    pub fn step(&mut self, price: u32, levels: &Levels) -> (fire: bool)
        ensures
            fire == old(self).fires(price, *levels),
            *final(self) == old(self).after(price, *levels),
    {
        match self.rule {
            BuyRule::Model => false,
            BuyRule::Downtick => {
                let fire: bool = match self.previous {
                    Some(p) => is_lt(price, p),
                    None => false,
                };
                self.previous = Some(price);
                fire
            },
            BuyRule::Dip => {
                let fire: bool = self.armed && is_le(price, levels.dip);
                if fire {
                    self.armed = false;
                } else if is_le(levels.reference, price) {
                    self.armed = true;
                }
                fire
            },
            BuyRule::Target => {
                let below: bool = is_le(price, self.target);
                let fire: bool = below && !self.was_below;
                self.was_below = below;
                fire
            },
            BuyRule::Breakout => is_lt(levels.breakout, price),
        }
    }

    /// The price that a buy at `price` aims at.
    pub fn aim_at(&self, price: u32) -> (r: u32)
        ensures
            r == self.aim(price),
    {
        if self.rule == BuyRule::Target {
            self.target
        } else {
            price
        }
    }
}

/// A trigger after a sequence of prices, each with its levels.
pub open spec fn after_all(t: Trigger, ticks: Seq<(u32, Levels)>) -> Trigger
    decreases ticks.len(),
{
    if ticks.len() == 0 {
        t
    } else {
        after_all(t, ticks.drop_last()).after(ticks.last().0, ticks.last().1)
    }
}

/// After a dip fired, no price fires until one has reached the reference again, and that
/// one arms the trigger.
pub proof fn law_dip_rearms(t: Trigger, ticks: Seq<(u32, Levels)>, price: u32, levels: Levels)
    requires
        t.rule == BuyRule::Dip,
        !t.armed,
        forall|i: int|
            0 <= i < ticks.len() ==> !crate::ieee::le(
                (#[trigger] ticks[i]).1.reference,
                ticks[i].0,
            ),
    ensures
        after_all(t, ticks) == t,
        !after_all(t, ticks).fires(price, levels),
        after_all(t, ticks).after(price, levels).armed <==> crate::ieee::le(
            levels.reference,
            price,
        ),
    decreases ticks.len(),
{
    if ticks.len() > 0 {
        let before = ticks.drop_last();
        assert forall|i: int| 0 <= i < before.len() implies !crate::ieee::le(
            (#[trigger] before[i]).1.reference,
            before[i].0,
        ) by {
            assert(before[i] == ticks[i]);
        }
        law_dip_rearms(t, before, price, levels);
        assert(ticks.last() == ticks[ticks.len() - 1]);
    }
}

/// A fixed level fires once per crossing: after a price at or below it, none fires until
/// one has left that range.
pub proof fn law_target_fires_once(
    t: Trigger,
    ticks: Seq<(u32, Levels)>,
    price: u32,
    levels: Levels,
)
    requires
        t.rule == BuyRule::Target,
        t.was_below,
        forall|i: int| 0 <= i < ticks.len() ==> crate::ieee::le((#[trigger] ticks[i]).0, t.target),
    ensures
        after_all(t, ticks) == t,
        !after_all(t, ticks).fires(price, levels),
        after_all(t, ticks).after(price, levels).was_below <==> crate::ieee::le(price, t.target),
    decreases ticks.len(),
{
    if ticks.len() > 0 {
        let before = ticks.drop_last();
        assert forall|i: int| 0 <= i < before.len() implies crate::ieee::le(
            (#[trigger] before[i]).0,
            t.target,
        ) by {
            assert(before[i] == ticks[i]);
        }
        law_target_fires_once(t, before, price, levels);
        assert(ticks.last() == ticks[ticks.len() - 1]);
    }
}

/// Falling prices always fire, from the second tick on.
pub proof fn law_downtick_fires(t: Trigger, first: u32, second: u32, levels: Levels)
    requires
        t.rule == BuyRule::Downtick,
    ensures
        t.after(first, levels).fires(second, levels) <==> crate::ieee::lt(second, first),
{
}

/// What the arrival of a tick means.
#[derive(Clone, Copy, Debug, PartialEq, Eq, Structural)]
pub enum Arrival {
    /// There is no new tick.
    Idle,
    /// The feed had a gap and the tick is let pass.
    Skipped {
        /// The feed counts as clean again.
        clear_dirty: bool,
        /// Too many gaps: trading halts.
        halt: bool,
    },
    /// The tick is to be processed.
    Process,
}

/// Clean ticks in a row on a dirty feed, after one more on which a gap was seen (`gap`) or
/// not: a gap starts the count again, and the last of them clears the feed.
pub open spec fn gate_after(passed: u64, gap: bool) -> u64 {
    let n = if gap {
        1
    } else {
        passed + 1
    };
    if n >= CLEAN_SEQ_THRESHOLD {
        0
    } else {
        n as u64
    }
}

/// The tick clears a dirty feed.
pub open spec fn gate_clears(passed: u64, gap: bool) -> bool {
    gate_after(passed, gap) == 0
}

/// An idle spin at `now_ns` comes late: more than 500 ns after the one before it, if there
/// was one.
pub open spec fn stalled(last_spin_ns: u64, now_ns: u64) -> bool {
    last_spin_ns > 0 && now_ns - last_spin_ns > STALL_NS
}

/// The signal of tick number `n` goes into the series.
pub open spec fn sampled(n: u64) -> bool {
    n % 8 == 0
}

/// The slot of the latest reference tick, if it was not looked at yet.
pub open spec fn reference_slot(last_ref_seq: u64, ref_seq: u64) -> Option<usize> {
    if ref_seq > 0 && ref_seq != last_ref_seq {
        Some(crate::logs::slot_of(ref_seq as int, BUFFER_SIZE as int) as usize)
    } else {
        None
    }
}

/// A tick of the reference is looked at once: the first time its number is seen, in the slot
/// of that number.
pub proof fn law_reference_ticks(last_ref_seq: u64, ref_seq: u64)
    ensures
        reference_slot(last_ref_seq, 0) is None,
        reference_slot(ref_seq, ref_seq) is None,
        ref_seq > 0 && ref_seq != last_ref_seq ==> reference_slot(last_ref_seq, ref_seq) == Some(
            (ref_seq % 1024) as usize,
        ),
{
}

/// A tick is past the warmup.
pub open spec fn is_warm(seq: u64) -> bool {
    seq > WARMUP_PACKETS
}

/// What a tick does to the book up to the buy: the fills that are due are resolved, and if a
/// buy is triggered the risk limits are asked.
pub open spec fn ticked(
    book: crate::book::BookView,
    fires: bool,
    seq: u64,
    price: u32,
    timestamp: u64,
) -> (Option<Risk>, crate::book::BookView) {
    let resolved = book.resolved(price, timestamp);
    if fires {
        (Some(resolved.risk(seq)), resolved.risk_checked(seq))
    } else {
        (None, resolved)
    }
}

/// Clean ticks in a row after a new tick: a tick of a clean feed starts the count anew.
pub open spec fn passed_after(passed: u64, gap: bool, dirty: bool) -> u64 {
    if dirty {
        gate_after(passed, gap)
    } else {
        0
    }
}

/// A spin stalls exactly if another came before it and lies more than 500 ns back; every
/// eighth signal is sampled, and of any eight in a row exactly one; the warmup is ten ticks.
pub proof fn law_spins_and_samples(last_spin_ns: u64, now_ns: u64, n: u64, seq: u64)
    requires
        n < u64::MAX - 8,
    ensures
        stalled(last_spin_ns, now_ns) <==> last_spin_ns >= 1 && now_ns >= last_spin_ns + 501,
        sampled(n) ==> sampled((n + 8) as u64),
        sampled(n) ==> !sampled((n + 1) as u64) && !sampled((n + 2) as u64) && !sampled(
            (n + 3) as u64,
        ) && !sampled((n + 4) as u64) && !sampled((n + 5) as u64) && !sampled((n + 6) as u64)
            && !sampled((n + 7) as u64),
        sampled(8),
        is_warm(seq) <==> seq >= 11,
{
}

/// A tick resolves the fills that are due whether or not it triggers a buy, and before the
/// risk limits are asked; they are asked exactly if it does. Nothing is bought by it, and
/// trading halts by it exactly if the limit is reached.
pub proof fn law_ticks_resolve_first(
    book: crate::book::BookView,
    fires: bool,
    seq: u64,
    price: u32,
    timestamp: u64,
)
    ensures
        ({
            let (r, after) = ticked(book, fires, seq, price, timestamp);
            let resolved = book.resolved(price, timestamp);
            &&& r is Some <==> fires
            &&& after.pending == resolved.pending
            &&& after.filled == resolved.filled
            &&& after.log == resolved.log
            &&& after.net_position == resolved.net_position
            &&& after.attempts == resolved.attempts
            &&& after.halt <==> resolved.halt || (fires && seq > 10 && resolved.net_position
                >= 10_000)
            &&& fires && seq > 10 && resolved.halt ==> r == Some(Risk::Halted)
            &&& fires && seq > 10 && !resolved.halt && resolved.net_position < 10_000 ==> r == Some(
                Risk::Commit,
            )
            &&& fires && seq <= 10 ==> r == Some(Risk::Warmup)
        }),
{
}

/// The count of clean ticks starts anew with every tick that is processed.
pub proof fn law_processed_ticks_reset_the_gate(passed: u64, gap: bool)
    ensures
        passed_after(passed, gap, false) == 0,
        passed_after(passed, gap, true) == gate_after(passed, gap),
{
}

/// The strategy's state.
pub struct Strategy {
    /// The order book.
    pub book: OrderBook,
    /// Number of the last tick that was looked at.
    pub last_seq: u64,
    /// When the strategy last spun idle; 0 before the first time.
    pub last_spin_ns: u64,
    /// Clean ticks in a row since the feed became dirty.
    pub passed: u64,
    /// Sequence gaps when the last tick was looked at.
    pub gaps_seen: u64,
    /// The last eight prices.
    pub window: Window,
    /// The buy trigger.
    pub trigger: Trigger,
    /// Number of the last reference tick that was looked at.
    pub last_ref_seq: u64,
    /// Ticks for which a signal was computed, modulo 2^64.
    pub signal_ticks: u64,
}

impl Strategy {
    /// The book is well-formed, and fewer clean ticks came in a row than clear the feed.
    pub open spec fn wf(&self) -> bool {
        self.book.wf() && self.passed < CLEAN_SEQ_THRESHOLD
    }

    /// What the arrival of tick number `seq` means.
    pub open spec fn arrival(&self, seq: u64, dirty: bool, gap_count: u64) -> Arrival {
        if seq <= self.last_seq {
            Arrival::Idle
        } else if dirty {
            Arrival::Skipped {
                clear_dirty: gate_clears(self.passed, gap_count != self.gaps_seen),
                halt: gap_count > MAX_GAP_COUNT,
            }
        } else {
            Arrival::Process
        }
    }

    /// A strategy before the first tick.
    pub fn new(rule: BuyRule, target: u32) -> (s: Strategy)
        ensures
            s.wf(),
            s.book.has_room(),
            s.book@ == crate::book::empty_book(),
            s.last_seq == 0,
            s.last_spin_ns == 0,
            s.passed == 0,
            s.gaps_seen == 0,
            s.window.prices@ == seq![0u32, 0, 0, 0, 0, 0, 0, 0],
            s.trigger == (Trigger {
                rule,
                target,
                previous: None,
                armed: true,
                was_below: false,
            }),
            s.last_ref_seq == 0,
            s.signal_ticks == 0,
    {
        Strategy {
            book: OrderBook::new(),
            last_seq: 0,
            last_spin_ns: 0,
            passed: 0,
            gaps_seen: 0,
            window: Window::new(),
            trigger: Trigger::new(rule, target),
            last_ref_seq: 0,
            signal_ticks: 0,
        }
    }

    /// Looks at the number of the latest tick. While the feed is dirty, ticks are let pass
    /// until enough have come in a row without a further gap; too many gaps halt trading.
    pub fn arrive(&mut self, seq: u64, dirty: bool, gap_count: u64) -> (a: Arrival)
        requires
            old(self).wf(),
        ensures
            final(self).wf(),
            a == old(self).arrival(seq, dirty, gap_count),
            a is Idle ==> *final(self) == *old(self),
            a matches Arrival::Skipped { clear_dirty, halt } ==> *final(self) == (Strategy {
                last_seq: seq,
                passed: passed_after(old(self).passed, gap_count != old(self).gaps_seen, true),
                gaps_seen: gap_count,
                book: final(self).book,
                ..*old(self)
            }) && final(self).book@ == (if halt {
                old(self).book@.halted()
            } else {
                old(self).book@
            }),
            a is Process ==> *final(self) == (Strategy {
                last_seq: seq,
                passed: passed_after(old(self).passed, gap_count != old(self).gaps_seen, false),
                gaps_seen: gap_count,
                ..*old(self)
            }),
    {
        if seq <= self.last_seq {
            return Arrival::Idle;
        }
        self.last_seq = seq;
        let gap: bool = gap_count != self.gaps_seen;
        self.gaps_seen = gap_count;
        if dirty {
            let halt: bool = gap_count > MAX_GAP_COUNT;
            if halt {
                self.book.halt_trading();
            }
            let clean: u64 = if gap {
                1
            } else {
                self.passed + 1
            };
            let clear_dirty: bool = clean >= CLEAN_SEQ_THRESHOLD;
            self.passed = if clear_dirty {
                0
            } else {
                clean
            };
            Arrival::Skipped { clear_dirty, halt }
        } else {
            self.passed = 0;
            Arrival::Process
        }
    }

    /// Notes an idle spin; one that comes late counts as a stall.
    pub fn idle(&mut self, now_ns: u64)
        requires
            old(self).wf(),
        ensures
            final(self).wf(),
            *final(self) == (Strategy {
                last_spin_ns: now_ns,
                book: final(self).book,
                ..*old(self)
            }),
            final(self).book@ == if stalled(old(self).last_spin_ns, now_ns) {
                (crate::book::BookView {
                    stall_count: crate::wrap::next(old(self).book@.stall_count),
                    ..old(self).book@
                })
            } else {
                old(self).book@
            },
    {
        if self.last_spin_ns > 0 && now_ns.saturating_sub(self.last_spin_ns) > STALL_NS {
            self.book.count_stall();
        }
        self.last_spin_ns = now_ns;
    }

    /// Starts on a tick: resolves the fills that are due and shifts the price into the
    /// window. Returns the largest of the eight prices before it.
    pub fn begin_tick(&mut self, price: u32, timestamp: u64) -> (prev_max: u32)
        requires
            old(self).wf(),
        ensures
            final(self).wf(),
            prev_max == breakout_base(old(self).window.prices@, price),
            *final(self) == (Strategy {
                window: final(self).window,
                book: final(self).book,
                ..*old(self)
            }),
            final(self).window.prices@ == pushed(old(self).window.prices@, price),
            final(self).book@ == old(self).book@.resolved(price, timestamp),
    {
        self.book.resolve_fills(price, timestamp);
        let prev_max: u32 = self.window.max();
        self.window.push(price);
        prev_max
    }

    /// Whether a price triggers a buy.
    pub fn triggered(&mut self, price: u32, levels: &Levels) -> (fire: bool)
        requires
            old(self).wf(),
        ensures
            final(self).wf(),
            fire == old(self).trigger.fires(price, *levels),
            *final(self) == (Strategy {
                trigger: old(self).trigger.after(price, *levels),
                ..*old(self)
            }),
    {
        self.trigger.step(price, levels)
    }

    /// Asks the risk limits about a buy on tick number `seq`.
    pub fn check_risk(&mut self, seq: u64) -> (r: Risk)
        requires
            old(self).wf(),
        ensures
            final(self).wf(),
            r == old(self).book@.risk(seq),
            *final(self) == (Strategy { book: final(self).book, ..*old(self) }),
            final(self).book@ == old(self).book@.risk_checked(seq),
    {
        self.book.check_risk(seq)
    }

    /// Processes a tick up to the buy: the fills that are due are resolved, the price goes
    /// into the window, and if it triggers a buy the risk limits are asked. `levels` are
    /// made of the window before the tick. Returns what the risk limits say, or nothing if
    /// no buy was triggered.
    pub fn on_tick(&mut self, seq: u64, price: u32, timestamp: u64, levels: &Levels) -> (r: Option<
        Risk,
    >)
        requires
            old(self).wf(),
        ensures
            final(self).wf(),
            (r, final(self).book@) == ticked(
                old(self).book@,
                old(self).trigger.fires(price, *levels),
                seq,
                price,
                timestamp,
            ),
            *final(self) == (Strategy {
                window: final(self).window,
                trigger: old(self).trigger.after(price, *levels),
                book: final(self).book,
                ..*old(self)
            }),
            final(self).window.prices@ == pushed(old(self).window.prices@, price),
    {
        let _ = self.begin_tick(price, timestamp);
        if self.triggered(price, levels) {
            Some(self.check_risk(seq))
        } else {
            None
        }
    }

    /// Commits a buy at a price that the risk limits let pass.
    pub fn buy(&mut self, price: u32, act: &Act) -> (order: OrderEntry)
        requires
            old(self).wf(),
            old(self).book.has_room(),
            old(self).book@.risk(act.sequence) == Risk::Commit,
        ensures
            final(self).wf(),
            order == old(self).book@.order(*act),
            *final(self) == (Strategy { book: final(self).book, ..*old(self) }),
            final(self).book@ == old(self).book@.bought(*act, old(self).trigger.aim(price)),
    {
        let target: u32 = self.trigger.aim_at(price);
        self.book.commit_buy(act, target)
    }

    /// Whether a tick is past the warmup.
    pub fn warmed(&self, seq: u64) -> (r: bool)
        ensures
            r == is_warm(seq),
    {
        seq > WARMUP_PACKETS
    }

    /// Looks at the number of the latest reference tick; its slot if it is a new one.
    pub fn reference(&mut self, ref_seq: u64) -> (slot: Option<usize>)
        requires
            old(self).wf(),
        ensures
            final(self).wf(),
            slot == reference_slot(old(self).last_ref_seq, ref_seq),
            *final(self) == (Strategy {
                last_ref_seq: if slot is Some {
                    ref_seq
                } else {
                    old(self).last_ref_seq
                },
                ..*old(self)
            }),
    {
        if ref_seq > 0 && ref_seq != self.last_ref_seq {
            self.last_ref_seq = ref_seq;
            Some((ref_seq % BUFFER_SIZE as u64) as usize)
        } else {
            None
        }
    }

    /// Takes over the signal and the volatility of a tick; every eighth signal is sampled.
    pub fn note_signal(&mut self, signal: u32, vol: u32)
        requires
            old(self).wf(),
            old(self).book.has_room(),
        ensures
            final(self).wf(),
            *final(self) == (Strategy {
                signal_ticks: crate::wrap::next(old(self).signal_ticks),
                book: final(self).book,
                ..*old(self)
            }),
            final(self).book@ == old(self).book@.signalled(
                signal,
                vol,
                sampled(crate::wrap::next(old(self).signal_ticks)),
            ),
    {
        self.signal_ticks = crate::wrap::increment(self.signal_ticks);
        self.book.note_signal(signal, vol, self.signal_ticks % 8 == 0);
    }

    /// Opens a position of the trend model.
    pub fn enter(&mut self, side: i64, signal: u32, act: &Act) -> (order: OrderEntry)
        requires
            old(self).wf(),
            old(self).book.has_room(),
        ensures
            final(self).wf(),
            order == old(self).book@.order(*act),
            *final(self) == (Strategy { book: final(self).book, ..*old(self) }),
            final(self).book@ == old(self).book@.entered(side, signal, *act),
    {
        self.book.enter(side, signal, act)
    }

    /// Opens a position of the reversion model.
    pub fn open(&mut self, side: i64, act: &Act) -> (order: OrderEntry)
        requires
            old(self).wf(),
            old(self).book.has_room(),
        ensures
            final(self).wf(),
            order == old(self).book@.order(*act),
            *final(self) == (Strategy { book: final(self).book, ..*old(self) }),
            final(self).book@ == old(self).book@.opened(side, *act),
    {
        self.book.open(side, act)
    }

    /// Completes a round trip; a ruined account halts trading.
    pub fn exit(&mut self, rt: RoundTrip, ruined: bool, act: &Act) -> (order: OrderEntry)
        requires
            old(self).wf(),
            old(self).book.has_room(),
        ensures
            final(self).wf(),
            order == old(self).book@.order(*act),
            *final(self) == (Strategy { book: final(self).book, ..*old(self) }),
            final(self).book@ == old(self).book@.exited(rt, ruined, *act),
    {
        self.book.exit(rt, ruined, act)
    }
}

/// Ticks at the end of a sequence that all saw the same number of gaps.
pub open spec fn clean_run(gaps: Seq<u64>) -> nat
    decreases gaps.len(),
{
    if gaps.len() == 0 {
        0
    } else if gaps.len() > 1 && gaps[gaps.len() - 2] == gaps.last() {
        clean_run(gaps.drop_last()) + 1
    } else {
        1
    }
}

/// Clean ticks in a row after a sequence of ticks on a dirty feed, each of which saw a
/// number of gaps; `passed` of them came before, and the tick before saw `seen` gaps.
pub open spec fn gate_run(passed: u64, seen: u64, gaps: Seq<u64>) -> u64
    decreases gaps.len(),
{
    if gaps.len() == 0 {
        passed
    } else {
        let before = gaps.drop_last();
        let last_seen = if before.len() == 0 {
            seen
        } else {
            before.last()
        };
        gate_after(gate_run(passed, seen, before), gaps.last() != last_seen)
    }
}

/// A feed that has become dirty counts as clean again only after enough ticks in a row
/// without a further gap: the count is that of the ticks since the last gap, and the tick
/// that completes it clears the feed. `s` is the strategy after ticks that saw `gaps`, and
/// the next one sees `gap_count`.
pub proof fn law_dirty_feed_recovers(
    s: Strategy,
    seen: u64,
    gaps: Seq<u64>,
    seq: u64,
    gap_count: u64,
)
    requires
        seq > s.last_seq,
        s.passed == gate_run(0, seen, gaps),
        s.gaps_seen == if gaps.len() == 0 {
            seen
        } else {
            gaps.last()
        },
    ensures
        s.passed == clean_run(gaps) % (CLEAN_SEQ_THRESHOLD as nat),
        s.arrival(seq, true, gap_count) == (Arrival::Skipped {
            clear_dirty: clean_run(gaps.push(gap_count)) % (CLEAN_SEQ_THRESHOLD as nat) == 0,
            halt: gap_count > MAX_GAP_COUNT,
        }),
        s.arrival(seq, true, gap_count)->clear_dirty ==> gaps.len() + 1 >= CLEAN_SEQ_THRESHOLD
            && forall|i: int|
            gaps.len() + 1 - CLEAN_SEQ_THRESHOLD <= i < gaps.len() ==> #[trigger] gaps[i]
                == gap_count,
{
    let all = gaps.push(gap_count);
    assert(all.drop_last() == gaps);
    lemma_gate_run(seen, gaps);
    lemma_gate_run(seen, all);
    lemma_clean_run(all);
    if s.arrival(seq, true, gap_count)->clear_dirty {
        assert forall|i: int|
            gaps.len() + 1 - CLEAN_SEQ_THRESHOLD <= i < gaps.len() implies #[trigger] gaps[i]
            == gap_count by {
            assert(all[i] == gaps[i]);
        }
    }
}

proof fn lemma_gate_run(seen: u64, gaps: Seq<u64>)
    ensures
        gate_run(0, seen, gaps) == clean_run(gaps) % (CLEAN_SEQ_THRESHOLD as nat),
    decreases gaps.len(),
{
    if gaps.len() > 0 {
        lemma_gate_run(seen, gaps.drop_last());
    }
}

proof fn lemma_clean_run(gaps: Seq<u64>)
    ensures
        gaps.len() > 0 ==> clean_run(gaps) >= 1,
        clean_run(gaps) <= gaps.len(),
        forall|i: int|
            gaps.len() - clean_run(gaps) <= i < gaps.len() ==> #[trigger] gaps[i] == gaps.last(),
    decreases gaps.len(),
{
    if gaps.len() > 1 && gaps[gaps.len() - 2] == gaps.last() {
        let head = gaps.drop_last();
        lemma_clean_run(head);
        assert forall|i: int|
            gaps.len() - clean_run(gaps) <= i < gaps.len() implies #[trigger] gaps[i]
            == gaps.last() by {
            if i < head.len() {
                assert(head[i] == gaps[i]);
            }
        }
    }
}

/// No tick of a dirty feed is processed.
pub proof fn law_dirty_feed_trades_nothing(s: Strategy, seq: u64, gap_count: u64)
    ensures
        s.arrival(seq, true, gap_count) !is Process,
{
}

// When a buy is triggered, rule by rule.
/// Under the dip rule a price fires exactly if the trigger is armed and the price is at or
/// below the dip level. A price that fires disarms the trigger; one that does not arms it if
/// it has reached the reference, and never disarms it.
pub proof fn law_dip_fires_below_its_level(t: Trigger, price: u32, levels: Levels)
    requires
        t.rule == BuyRule::Dip,
    ensures
        t.fires(price, levels) ==> t.armed && crate::ieee::le(price, levels.dip),
        t.armed && crate::ieee::le(price, levels.dip) ==> t.fires(price, levels),
        crate::ieee::lt(levels.dip, price) ==> !t.fires(price, levels),
        t.fires(price, levels) ==> !t.after(price, levels).armed,
        !t.fires(price, levels) && t.armed ==> t.after(price, levels).armed,
        !t.fires(price, levels) && crate::ieee::le(levels.reference, price) ==> t.after(
            price,
            levels,
        ).armed,
        !t.armed && crate::ieee::lt(price, levels.reference) ==> !t.after(price, levels).armed,
{
}

/// Two prices after each other under the dip rule: once one has fired, the next does not,
/// however far it falls.
pub proof fn law_dip_fires_once(t: Trigger, first: u32, second: u32, a: Levels, b: Levels)
    requires
        t.rule == BuyRule::Dip,
        t.fires(first, a),
    ensures
        !t.after(first, a).fires(second, b),
        crate::ieee::le(b.reference, second) ==> t.after(first, a).after(second, b).armed,
{
}

/// Under the target rule a price fires exactly if it is at or below the level and the one
/// before it was not; the first price fires if it is there already.
pub proof fn law_target_fires_on_crossing(t: Trigger, before: u32, price: u32, levels: Levels)
    requires
        t.rule == BuyRule::Target,
    ensures
        t.after(before, levels).fires(price, levels) <==> crate::ieee::le(price, t.target)
            && !crate::ieee::le(before, t.target),
        !t.was_below ==> (t.fires(price, levels) <==> crate::ieee::le(price, t.target)),
        t.after(before, levels).target == t.target,
{
}

/// Under the breakout rule a price fires exactly if it exceeds the scaled maximum of the
/// window before it, and the trigger remembers nothing.
pub proof fn law_breakout_fires_above_its_level(t: Trigger, price: u32, levels: Levels)
    requires
        t.rule == BuyRule::Breakout,
    ensures
        t.fires(price, levels) <==> crate::ieee::lt(levels.breakout, price),
        t.after(price, levels) == t,
{
}

/// The first price of a falling-price trigger never fires, and a trading model never
/// triggers a buy.
pub proof fn law_quiet_triggers(t: Trigger, price: u32, levels: Levels)
    ensures
        t.rule == BuyRule::Downtick && t.previous is None ==> !t.fires(price, levels),
        t.rule == BuyRule::Model ==> !t.fires(price, levels) && t.after(price, levels) == t,
        t.after(price, levels).rule == t.rule,
        t.after(price, levels).target == t.target,
{
}

/// A number that cannot be compared triggers nothing.
pub proof fn law_no_buy_without_a_number(t: Trigger, price: u32, levels: Levels)
    requires
        crate::ieee::nan(price),
    ensures
        !t.fires(price, levels),
{
}

/// A lower price is never less of a dip, of a fall or of a target reached, and a higher one
/// never less of a breakout.
pub proof fn law_triggers_are_monotone(t: Trigger, low: u32, high: u32, levels: Levels)
    requires
        crate::ieee::le(low, high),
    ensures
        t.rule != BuyRule::Breakout && t.fires(high, levels) ==> t.fires(low, levels),
        t.rule == BuyRule::Breakout && t.fires(low, levels) ==> t.fires(high, levels),
{
}

/// Which rule is in force: a trading model before everything else, then falling prices if
/// they are asked for, a dip or a target if its number is positive, and breakouts only if
/// nothing else is.
pub proof fn law_rule_in_force(trading: bool, downtick: bool, dip_bps: u32, target: u32)
    ensures
        ({
            let dip = crate::ieee::lt(crate::ieee::ZERO, dip_bps);
            let level = crate::ieee::lt(crate::ieee::ZERO, target);
            let rule = rule_of(trading, downtick, dip_bps, target);
            &&& rule == BuyRule::Model <==> trading
            &&& rule == BuyRule::Downtick <==> !trading && downtick
            &&& rule == BuyRule::Dip <==> !trading && !downtick && dip
            &&& rule == BuyRule::Target <==> !trading && !downtick && !dip && level
            &&& rule == BuyRule::Breakout <==> !trading && !downtick && !dip && !level
        }),
{
}

/// A buy aims at the fixed level under the target rule, and at its own price under any
/// other, whatever level is set.
pub proof fn law_buys_aim(t: Trigger, price: u32)
    ensures
        t.rule == BuyRule::Target ==> t.aim(price) == t.target,
        t.rule != BuyRule::Target ==> t.aim(price) == price,
{
}

/// A tick is looked at once, and only if it is new: the number of one that was looked at
/// before means that there is none. A new tick of a clean feed is always processed, and one
/// of a dirty feed halts trading exactly if it has seen more than ten gaps.
pub proof fn law_new_ticks_are_looked_at_once(s: Strategy, seq: u64, dirty: bool, gap_count: u64)
    ensures
        s.arrival(seq, dirty, gap_count) is Idle <==> seq <= s.last_seq,
        s.arrival(seq, dirty, gap_count) is Process <==> seq > s.last_seq && !dirty,
        s.arrival(seq, dirty, gap_count) is Skipped ==> (s.arrival(
            seq,
            dirty,
            gap_count,
        )->halt <==> gap_count >= 11),
{
}

/// A dirty feed is clean again after five ticks in a row without a further gap: from a gap on
/// the first four are let pass, and the fifth clears the feed.
pub proof fn law_five_clean_ticks(passed: u64)
    requires
        passed < 5,
    ensures
        gate_after(passed, true) == 1,
        !gate_clears(passed, true),
        passed < 4 ==> gate_after(passed, false) == passed + 1 && !gate_clears(passed, false),
        passed == 4 ==> gate_clears(passed, false),
{
}

} // verus!

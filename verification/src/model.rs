//! The trading models' decisions: when to open a position, when to close it, and what the
//! account makes of it.
//!
//! Signals, limits and profits are computed outside and come in as bit patterns of
//! binary32 (`u32`) and binary64 (`u64`) numbers; what is done with them is decided here.

use vstd::prelude::*;
use crate::bytes::{push_le, read_le};
use crate::config::WARMUP_PACKETS;
use crate::ieee::{is_le, is_le64, is_lt, is_lt64, is_nan64, is_positive, negate, ZERO};
use crate::logs::RoundTrip;

verus! {

/// Bit pattern of 1.
pub const ONE: u32 = 0x3F80_0000;

/// The price that an order crosses to: a buy lifts the ask, a sale hits the bid, and
/// without a usable quote both trade at the mid price.
pub open spec fn crossing(mid: u32, bid: u32, ask: u32, is_buy: bool) -> u32 {
    if crate::ieee::positive(bid) && crate::ieee::le(bid, ask) {
        if is_buy {
            ask
        } else {
            bid
        }
    } else {
        mid
    }
}

/// The price that an order crosses to, before slippage.
pub fn taker_base(mid: u32, bid: u32, ask: u32, is_buy: bool) -> (r: u32)
    ensures
        r == crossing(mid, bid, ask, is_buy),
{
    let have_quote: bool = is_positive(bid) && is_le(bid, ask);
    if have_quote {
        if is_buy {
            ask
        } else {
            bid
        }
    } else {
        mid
    }
}

/// Crossing a usable quote never fills a buy below a sale.
pub proof fn law_crossing_costs(mid: u32, bid: u32, ask: u32)
    requires
        !crate::ieee::nan(mid),
    ensures
        crate::ieee::le(crossing(mid, bid, ask, false), crossing(mid, bid, ask, true)),
{
}

/// The open position of a model, and whether the account is ruined.
#[derive(Clone, Copy, Debug, PartialEq, Eq, Structural)]
pub struct Position {
    /// 1 for long, -1 for short, 0 for none.
    pub side: i64,
    /// When it was opened.
    pub entry_time_ns: u64,
    /// Fill of the entry.
    pub entry_price: u32,
    /// Mid price at the entry.
    pub entry_mid: u32,
    /// Units held.
    pub size: u32,
    /// Best price since the entry.
    pub best_price: u32,
    /// The account is ruined: nothing is opened or closed any more.
    pub ruined: bool,
}

/// What the trend model weighs before it opens a position.
#[derive(Clone, Copy)]
pub struct TrendEntry {
    /// Short positions are allowed.
    pub allow_short: bool,
    /// The expected move has to clear the costs.
    pub fee_gate: bool,
    /// The signal, in basis points.
    pub signal: u32,
    /// The signal has to exceed this, in basis points.
    pub threshold: u32,
    /// The price.
    pub price: u32,
    /// A long position is opened at or below this.
    pub long_limit: u32,
    /// A short position is opened at or above this.
    pub short_limit: u32,
    /// The expected move, in basis points.
    pub expected: u32,
    /// What the expected move has to reach under the fee gate, in basis points.
    pub required: u32,
}

/// What the trend model weighs before it closes a position.
#[derive(Clone, Copy)]
pub struct TrendExit {
    /// The price.
    pub price: u32,
    /// The signal, in basis points.
    pub signal: u32,
    /// The trailing stop: the best price, less (long) or plus (short) the retrace.
    pub trail: u32,
    /// A signal beyond this against the position closes it.
    pub signal_exit: u32,
    /// Move in favour of the position, in basis points.
    pub favourable: u32,
    /// Take-profit, in basis points; off unless positive.
    pub take_profit: u32,
    /// Stop-loss, in basis points; off unless positive.
    pub stop_loss: u32,
    /// Adverse move that wipes the margin, in basis points.
    pub liquidation: u32,
}

/// What the reversion model weighs before it opens a position.
#[derive(Clone, Copy)]
pub struct ReversionEntry {
    /// Short positions are allowed.
    pub allow_short: bool,
    /// Order flow has to confirm the entry.
    pub use_flow: bool,
    /// The price.
    pub price: u32,
    /// A long position is opened at or below this.
    pub long_limit: u32,
    /// A short position is opened at or above this.
    pub short_limit: u32,
    /// Order flow: positive for net buying.
    pub flow: u32,
}

/// What the reversion model weighs before it closes a position.
#[derive(Clone, Copy)]
pub struct ReversionExit {
    /// The price.
    pub price: u32,
    /// At or below this a long position would be opened.
    pub long_limit: u32,
    /// At or above this a short position would be opened.
    pub short_limit: u32,
    /// Move in favour of the position, in basis points.
    pub favourable: u32,
    /// Take-profit, in basis points.
    pub take_profit: u32,
    /// Stop-loss, in basis points.
    pub stop_loss: u32,
    /// Adverse move that wipes the margin, in basis points.
    pub liquidation: u32,
}

/// What to do with an open position.
#[derive(Clone, Copy, Debug, PartialEq, Eq, Structural)]
pub enum ExitPlan {
    /// Keep it.
    Hold,
    /// Close it.
    Close {
        /// The margin is wiped.
        liquidated: bool,
    },
}

/// The figures of a closed position.
#[derive(Clone, Copy)]
pub struct Settlement {
    /// When it is closed.
    pub now_ns: u64,
    /// The exit rule found the margin wiped.
    pub liquidated: bool,
    /// Fill of the exit.
    pub exit_price: u32,
    /// What spread and slippage cost, in basis points.
    pub spread_cost_bps: u32,
    /// Favourable move before fees, in basis points.
    pub gross_bps: u32,
    /// Favourable move after fees, in basis points.
    pub net_bps: u32,
    /// Profit after fees, in quote currency.
    pub pnl_quote: u32,
    /// Fees, in quote currency.
    pub fees_quote: u32,
    /// Profit after fees before the margin caps the loss (binary64).
    pub raw_pnl: u64,
    /// The negated margin (binary64).
    pub neg_margin: u64,
    /// The account after the profit was added (binary64).
    pub equity: u64,
}

/// The side that the trend model opens: 1, -1 or 0 for none.
pub open spec fn trend_side(q: TrendEntry) -> int {
    if crate::ieee::lt(q.threshold, q.signal) && crate::ieee::le(q.price, q.long_limit) {
        1
    } else if crate::ieee::lt(q.signal, crate::ieee::negated(q.threshold)) && q.allow_short
        && crate::ieee::le(q.short_limit, q.price) {
        -1
    } else {
        0
    }
}

/// The expected move clears the costs, as far as that is asked.
pub open spec fn clears_costs(q: TrendEntry) -> bool {
    !(q.fee_gate && crate::ieee::lt(q.expected, q.required))
}

/// A long position would be opened.
pub open spec fn dips(price: u32, long_limit: u32) -> bool {
    crate::ieee::le(price, long_limit)
}

/// A short position would be opened.
pub open spec fn rips(price: u32, short_limit: u32) -> bool {
    crate::ieee::le(short_limit, price)
}

/// The side that the reversion model opens: 1, -1 or 0 for none.
pub open spec fn reversion_side(q: ReversionEntry) -> int {
    if dips(q.price, q.long_limit) && (!q.use_flow || crate::ieee::le(ZERO, q.flow)) {
        1
    } else if rips(q.price, q.short_limit) && q.allow_short && (!q.use_flow || crate::ieee::le(
        q.flow,
        ZERO,
    )) {
        -1
    } else {
        0
    }
}

/// A loss is never larger than the margin.
pub open spec fn capped(raw_pnl: u64, neg_margin: u64) -> u64 {
    if crate::ieee::nan64(raw_pnl) {
        neg_margin
    } else if crate::ieee::lt64(raw_pnl, neg_margin) {
        neg_margin
    } else {
        raw_pnl
    }
}

/// The profit of a position whose loss is capped by its margin.
pub fn capped_pnl(raw_pnl: u64, neg_margin: u64) -> (r: u64)
    ensures
        r == capped(raw_pnl, neg_margin),
{
    if is_nan64(raw_pnl) {
        neg_margin
    } else if is_lt64(raw_pnl, neg_margin) {
        neg_margin
    } else {
        raw_pnl
    }
}

/// Isolated margin: no position loses more than the margin it was opened with.
pub proof fn law_isolated_margin(raw_pnl: u64, neg_margin: u64)
    requires
        !crate::ieee::nan64(neg_margin),
    ensures
        crate::ieee::le64(neg_margin, capped(raw_pnl, neg_margin)),
{
}

/// An account never stands below zero.
pub open spec fn floored(equity: u64) -> u64 {
    if crate::ieee::le64(equity, 0) {
        0
    } else {
        equity
    }
}

impl Position {
    /// The side is long, short or none.
    pub open spec fn wf(&self) -> bool {
        self.side == 1 || self.side == -1 || self.side == 0
    }

    /// The side that the trend model opens now.
    pub open spec fn trend_opens(self, warmed: bool, halted: bool, q: TrendEntry) -> int {
        if warmed && !self.ruined && self.side == 0 && !halted && clears_costs(q) {
            trend_side(q)
        } else {
            0
        }
    }

    /// The trailing stop is hit.
    pub open spec fn trail_hit(self, q: TrendExit) -> bool {
        if self.side == 1 {
            crate::ieee::le(q.price, q.trail)
        } else {
            crate::ieee::le(q.trail, q.price)
        }
    }

    /// The signal has turned against the position.
    pub open spec fn flipped(self, q: TrendExit) -> bool {
        if self.side == 1 {
            crate::ieee::lt(q.signal, crate::ieee::negated(q.signal_exit))
        } else {
            crate::ieee::lt(q.signal_exit, q.signal)
        }
    }

    /// What the trend model does with the position now.
    pub open spec fn trend_closes(self, warmed: bool, q: TrendExit) -> ExitPlan {
        let liquidated = crate::ieee::le(q.favourable, crate::ieee::negated(q.liquidation));
        let takes_profit = crate::ieee::positive(q.take_profit) && crate::ieee::le(
            q.take_profit,
            q.favourable,
        );
        let stops_loss = crate::ieee::positive(q.stop_loss) && crate::ieee::le(
            q.favourable,
            crate::ieee::negated(q.stop_loss),
        );
        if warmed && !self.ruined && self.side != 0 && (self.trail_hit(q) || self.flipped(q)
            || takes_profit || stops_loss || liquidated) {
            ExitPlan::Close { liquidated }
        } else {
            ExitPlan::Hold
        }
    }

    /// The side that the reversion model opens now, on tick number `seq`.
    pub open spec fn reversion_opens(self, seq: u64, halted: bool, q: ReversionEntry) -> int {
        if seq > WARMUP_PACKETS && !self.ruined && self.side == 0 && !halted {
            reversion_side(q)
        } else {
            0
        }
    }

    /// What the reversion model does with the position now, on tick number `seq`.
    pub open spec fn reversion_closes(self, seq: u64, q: ReversionExit) -> ExitPlan {
        let liquidated = crate::ieee::le(q.favourable, crate::ieee::negated(q.liquidation));
        let opposite = if self.side == 1 {
            rips(q.price, q.short_limit)
        } else {
            dips(q.price, q.long_limit)
        };
        if seq > WARMUP_PACKETS && !self.ruined && self.side != 0 && (crate::ieee::le(
            q.take_profit,
            q.favourable,
        ) || crate::ieee::le(q.favourable, crate::ieee::negated(q.stop_loss)) || opposite
            || liquidated) {
            ExitPlan::Close { liquidated }
        } else {
            ExitPlan::Hold
        }
    }

    /// The position after it was opened.
    pub open spec fn opened(
        self,
        side: i64,
        now_ns: u64,
        entry_price: u32,
        mid: u32,
        size: u32,
    ) -> Position {
        Position {
            side,
            entry_time_ns: now_ns,
            entry_price,
            entry_mid: mid,
            size,
            best_price: mid,
            ..self
        }
    }

    /// The best price since the entry after one more price.
    pub open spec fn best_after(self, price: u32) -> u32 {
        if self.side == 1 {
            if crate::ieee::lt(self.best_price, price) {
                price
            } else {
                self.best_price
            }
        } else {
            if crate::ieee::lt(price, self.best_price) {
                price
            } else {
                self.best_price
            }
        }
    }

    /// The position was closed by liquidation.
    pub open spec fn wiped(s: Settlement) -> bool {
        s.liquidated || crate::ieee::le64(s.raw_pnl, s.neg_margin)
    }

    /// The round trip of a closed position.
    pub open spec fn round_trip(self, s: Settlement) -> RoundTrip {
        RoundTrip {
            entry_time_ns: self.entry_time_ns,
            exit_time_ns: s.now_ns,
            spread_cost_bps: s.spread_cost_bps,
            side: self.side,
            entry_price: self.entry_price,
            exit_price: s.exit_price,
            size: self.size,
            gross_bps: s.gross_bps,
            net_bps: s.net_bps,
            pnl_quote: s.pnl_quote,
            fees_quote: s.fees_quote,
            flags: if Self::wiped(s) {
                ONE
            } else {
                ZERO
            },
        }
    }

    /// The position after it was closed: none, and the account is ruined if nothing is left.
    pub open spec fn closed(self, s: Settlement) -> Position {
        Position { side: 0, ruined: self.ruined || crate::ieee::le64(s.equity, 0), ..self }
    }

    /// No position, and an account that is not ruined.
    pub fn new() -> (p: Position)
        ensures
            p.wf(),
            p == (Position {
                side: 0,
                entry_time_ns: 0,
                entry_price: ZERO,
                entry_mid: ZERO,
                size: ZERO,
                best_price: ZERO,
                ruined: false,
            }),
    {
        Position {
            side: 0,
            entry_time_ns: 0,
            entry_price: ZERO,
            entry_mid: ZERO,
            size: ZERO,
            best_price: ZERO,
            ruined: false,
        }
    }

    /// The side that the trend model opens now; 0 for none.
    pub fn trend_entry(&self, warmed: bool, halted: bool, q: &TrendEntry) -> (side: i64)
        ensures
            side == self.trend_opens(warmed, halted, *q),
            side == 1 || side == -1 || side == 0,
    {
        if !warmed || self.ruined || self.side != 0 {
            return 0;
        }
        let long_ok: bool = is_lt(q.threshold, q.signal) && is_le(q.price, q.long_limit);
        let short_ok: bool = is_lt(q.signal, negate(q.threshold)) && q.allow_short && is_le(
            q.short_limit,
            q.price,
        );
        let side: i64 = if long_ok {
            1
        } else if short_ok {
            -1
        } else {
            0
        };
        if side == 0 || halted {
            return 0;
        }
        if q.fee_gate && is_lt(q.expected, q.required) {
            return 0;
        }
        side
    }

    /// Opens a position.
    pub fn open(&mut self, side: i64, now_ns: u64, entry_price: u32, mid: u32, size: u32)
        requires
            old(self).wf(),
            old(self).side == 0,
            side == 1 || side == -1,
        ensures
            final(self).wf(),
            *final(self) == old(self).opened(side, now_ns, entry_price, mid, size),
    {
        self.side = side;
        self.entry_time_ns = now_ns;
        self.entry_price = entry_price;
        self.entry_mid = mid;
        self.size = size;
        self.best_price = mid;
    }

    /// The best price since the entry after one more price.
    pub fn best_with(&self, price: u32) -> (best: u32)
        ensures
            best == self.best_after(price),
    {
        if self.side == 1 {
            if is_lt(self.best_price, price) {
                price
            } else {
                self.best_price
            }
        } else if is_lt(price, self.best_price) {
            price
        } else {
            self.best_price
        }
    }

    /// Marks an open position to a price.
    pub fn mark(&mut self, price: u32)
        requires
            old(self).wf(),
            old(self).side != 0,
        ensures
            final(self).wf(),
            *final(self) == (Position { best_price: old(self).best_after(price), ..*old(self) }),
    {
        self.best_price = self.best_with(price);
    }

    /// What the trend model does with the position now.
    pub fn trend_exit(&self, warmed: bool, q: &TrendExit) -> (plan: ExitPlan)
        ensures
            plan == self.trend_closes(warmed, *q),
    {
        if !warmed || self.ruined || self.side == 0 {
            return ExitPlan::Hold;
        }
        let trail_hit: bool = if self.side == 1 {
            is_le(q.price, q.trail)
        } else {
            is_le(q.trail, q.price)
        };
        let flip: bool = if self.side == 1 {
            is_lt(q.signal, negate(q.signal_exit))
        } else {
            is_lt(q.signal_exit, q.signal)
        };
        let liquidated: bool = is_le(q.favourable, negate(q.liquidation));
        let tp_hit: bool = is_positive(q.take_profit) && is_le(q.take_profit, q.favourable);
        let sl_hit: bool = is_positive(q.stop_loss) && is_le(q.favourable, negate(q.stop_loss));
        if trail_hit || flip || tp_hit || sl_hit || liquidated {
            ExitPlan::Close { liquidated }
        } else {
            ExitPlan::Hold
        }
    }

    /// The side that the reversion model opens now, on tick number `seq`; 0 for none.
    pub fn reversion_entry(&self, seq: u64, halted: bool, q: &ReversionEntry) -> (side: i64)
        ensures
            side == self.reversion_opens(seq, halted, *q),
            side == 1 || side == -1 || side == 0,
    {
        if seq <= WARMUP_PACKETS || self.ruined || self.side != 0 {
            return 0;
        }
        let long_ok: bool = is_le(q.price, q.long_limit) && (!q.use_flow || is_le(ZERO, q.flow));
        let short_ok: bool = is_le(q.short_limit, q.price) && q.allow_short && (!q.use_flow
            || is_le(q.flow, ZERO));
        let side: i64 = if long_ok {
            1
        } else if short_ok {
            -1
        } else {
            0
        };
        if halted {
            0
        } else {
            side
        }
    }

    /// What the reversion model does with the position now, on tick number `seq`.
    pub fn reversion_exit(&self, seq: u64, q: &ReversionExit) -> (plan: ExitPlan)
        ensures
            plan == self.reversion_closes(seq, *q),
    {
        if seq <= WARMUP_PACKETS || self.ruined || self.side == 0 {
            return ExitPlan::Hold;
        }
        let opposite: bool = if self.side == 1 {
            is_le(q.short_limit, q.price)
        } else {
            is_le(q.price, q.long_limit)
        };
        let liquidated: bool = is_le(q.favourable, negate(q.liquidation));
        if is_le(q.take_profit, q.favourable) || is_le(q.favourable, negate(q.stop_loss))
            || opposite || liquidated {
            ExitPlan::Close { liquidated }
        } else {
            ExitPlan::Hold
        }
    }

    /// Closes a position: its round trip, and what the account stands at.
    pub fn close(&mut self, s: &Settlement) -> (r: (RoundTrip, u64))
        requires
            old(self).wf(),
            old(self).side != 0,
        ensures
            final(self).wf(),
            r.0 == old(self).round_trip(*s),
            r.1 == floored(s.equity),
            *final(self) == old(self).closed(*s),
    {
        let was_liq: bool = s.liquidated || is_le64(s.raw_pnl, s.neg_margin);
        let mut equity: u64 = s.equity;
        if is_le64(s.equity, 0) {
            equity = 0;
            self.ruined = true;
        }
        let rt = RoundTrip {
            entry_time_ns: self.entry_time_ns,
            exit_time_ns: s.now_ns,
            spread_cost_bps: s.spread_cost_bps,
            side: self.side,
            entry_price: self.entry_price,
            exit_price: s.exit_price,
            size: self.size,
            gross_bps: s.gross_bps,
            net_bps: s.net_bps,
            pnl_quote: s.pnl_quote,
            fees_quote: s.fees_quote,
            flags: if was_liq {
                ONE
            } else {
                ZERO
            },
        };
        self.side = 0;
        (rt, equity)
    }
}

/// A ruined account neither opens nor closes a position, whatever comes.
pub proof fn law_ruin_is_final(
    p: Position,
    warmed: bool,
    halted: bool,
    seq: u64,
    te: TrendEntry,
    tx: TrendExit,
    re: ReversionEntry,
    rx: ReversionExit,
)
    requires
        p.ruined,
    ensures
        p.trend_opens(warmed, halted, te) == 0,
        p.trend_closes(warmed, tx) == ExitPlan::Hold,
        p.reversion_opens(seq, halted, re) == 0,
        p.reversion_closes(seq, rx) == ExitPlan::Hold,
{
}

/// A halt blocks the entries of both models.
pub proof fn law_halt_blocks_entries(
    p: Position,
    warmed: bool,
    seq: u64,
    te: TrendEntry,
    re: ReversionEntry,
)
    ensures
        p.trend_opens(warmed, true, te) == 0,
        p.reversion_opens(seq, true, re) == 0,
{
}

/// Entries and exits alternate: nothing is opened on top of a position, and nothing is
/// closed without one.
pub proof fn law_entries_and_exits_alternate(
    p: Position,
    warmed: bool,
    halted: bool,
    seq: u64,
    te: TrendEntry,
    tx: TrendExit,
    re: ReversionEntry,
    rx: ReversionExit,
)
    ensures
        p.side != 0 ==> p.trend_opens(warmed, halted, te) == 0 && p.reversion_opens(
            seq,
            halted,
            re,
        ) == 0,
        p.side == 0 ==> p.trend_closes(warmed, tx) == ExitPlan::Hold && p.reversion_closes(seq, rx)
            == ExitPlan::Hold,
{
}

/// The trend model trades with its signal: it buys only above the threshold and sells
/// short only below its negation.
pub proof fn law_trend_follows_signal(p: Position, warmed: bool, halted: bool, q: TrendEntry)
    ensures
        p.trend_opens(warmed, halted, q) == 1 ==> crate::ieee::lt(q.threshold, q.signal),
        p.trend_opens(warmed, halted, q) == -1 ==> q.allow_short && crate::ieee::lt(
            q.signal,
            crate::ieee::negated(q.threshold),
        ),
{
}

/// The best price of a long position never falls, and that of a short one never rises.
pub proof fn law_best_price_ratchets(p: Position, price: u32)
    requires
        p.wf(),
        p.side != 0,
        !crate::ieee::nan(p.best_price),
    ensures
        p.side == 1 ==> crate::ieee::le(p.best_price, p.best_after(price)),
        p.side == -1 ==> crate::ieee::le(p.best_after(price), p.best_price),
        !crate::ieee::nan(price) && p.side == 1 ==> crate::ieee::le(price, p.best_after(price)),
        !crate::ieee::nan(price) && p.side == -1 ==> crate::ieee::le(p.best_after(price), price),
{
}

/// Features that the policy sees.
pub const N_FEATURES: usize = 6;

/// Hidden units of the policy.
pub const N_HIDDEN: usize = 8;

/// Weights of the policy: two layers and their biases.
pub const N_PARAMS: usize = 65;

/// The weights of a policy (binary32), in the order in which they are stored.
#[derive(Clone, Copy)]
pub struct Policy {
    /// Hidden weights row by row, hidden biases, output weights, output bias.
    pub p: [u32; 65],
}

/// The bytes of weights: four each, little-endian.
pub open spec fn weight_bytes(p: Seq<u32>) -> Seq<u8>
    decreases p.len(),
{
    if p.len() == 0 {
        Seq::empty()
    } else {
        weight_bytes(p.drop_last()) + crate::bytes::le_bytes(p.last() as nat, 4)
    }
}

/// Weight `i` of a byte sequence.
pub open spec fn weight_at(b: Seq<u8>, i: int) -> nat {
    crate::bytes::le_value(b.subrange(4 * i, 4 * i + 4))
}

proof fn lemma_weight_bytes(p: Seq<u32>, i: int)
    requires
        0 <= i < p.len(),
    ensures
        weight_bytes(p).len() == 4 * p.len(),
        weight_at(weight_bytes(p), i) == p[i],
    decreases p.len(),
{
    let head = weight_bytes(p.drop_last());
    let tail = crate::bytes::le_bytes(p.last() as nat, 4);
    crate::bytes::lemma_le_bytes_len(p.last() as nat, 4);
    crate::bytes::lemma_byte_range();
    crate::bytes::law_le_round_trip(p.last() as nat, 4);
    if p.len() > 1 {
        lemma_weight_bytes(p.drop_last(), if i < p.len() - 1 {
            i
        } else {
            0
        });
    }
    if i == p.len() - 1 {
        assert((head + tail).subrange(4 * i, 4 * i + 4) == tail);
    } else {
        assert((head + tail).subrange(4 * i, 4 * i + 4) == head.subrange(4 * i, 4 * i + 4));
    }
}

impl Policy {
    /// The stored form of the policy.
    pub fn to_le_bytes(&self) -> (b: Vec<u8>)
        ensures
            b@ == weight_bytes(self.p@),
            b@.len() == 260,
    {
        let mut b: Vec<u8> = Vec::new();
        let mut i: usize = 0;
        while i < N_PARAMS
            invariant
                i <= N_PARAMS,
                b@ == weight_bytes(self.p@.take(i as int)),
            decreases N_PARAMS - i,
        {
            push_le(&mut b, self.p[i] as u64, 4);
            assert(self.p@.take(i + 1).drop_last() == self.p@.take(i as int));
            i = i + 1;
        }
        assert(self.p@.take(65) == self.p@);
        proof {
            lemma_weight_bytes(self.p@, 0);
        }
        b
    }

    /// The policy in a stored form; nothing if the bytes are too few. What follows the
    /// weights is ignored.
    pub fn from_le_bytes(b: &[u8]) -> (r: Option<Policy>)
        ensures
            r is Some <==> b@.len() >= 260,
            r matches Some(policy) ==> forall|i: int|
                0 <= i < 65 ==> policy.p@[i] == weight_at(b@, i),
    {
        if b.len() < 260 {
            return None;
        }
        let mut p: [u32; 65] = [0u32; 65];
        let mut i: usize = 0;
        while i < N_PARAMS
            invariant
                i <= N_PARAMS,
                b.len() >= 260,
                forall|k: int| 0 <= k < i ==> p@[k] == weight_at(b@, k),
            decreases N_PARAMS - i,
        {
            proof {
                crate::bytes::lemma_le_value_bound(b@.subrange(4 * i as int, 4 * i + 4));
                crate::bytes::lemma_byte_range();
            }
            p[i] = read_le(b, 4 * i, 4) as u32;
            i = i + 1;
        }
        Some(Policy { p })
    }
}

/// A stored policy reads back as the same weights, whatever follows it.
pub proof fn law_policy_round_trip(p: Seq<u32>, rest: Seq<u8>)
    requires
        p.len() == 65,
    ensures
        weight_bytes(p).len() == 260,
        forall|i: int| 0 <= i < 65 ==> weight_at(weight_bytes(p) + rest, i) == p[i],
{
    lemma_weight_bytes(p, 0);
    assert forall|i: int| 0 <= i < 65 implies weight_at(weight_bytes(p) + rest, i) == p[i] by {
        lemma_weight_bytes(p, i);
        assert((weight_bytes(p) + rest).subrange(4 * i, 4 * i + 4) == weight_bytes(p).subrange(
            4 * i,
            4 * i + 4,
        ));
    }
}

// What the models decide, condition by condition.
/// With a usable quote a buy lifts the ask and a sale hits the bid; without one both trade at
/// the mid price. A quote is usable if its bid is positive and not above its ask.
pub proof fn law_orders_cross_the_spread(mid: u32, bid: u32, ask: u32)
    ensures
        crate::ieee::lt(ZERO, bid) && crate::ieee::le(bid, ask) ==> crossing(mid, bid, ask, true)
            == ask && crossing(mid, bid, ask, false) == bid,
        crate::ieee::le(bid, ZERO) || crate::ieee::lt(ask, bid) ==> crossing(mid, bid, ask, true)
            == mid && crossing(mid, bid, ask, false) == mid,
        crate::ieee::nan(bid) || crate::ieee::nan(ask) ==> crossing(mid, bid, ask, true) == mid
            && crossing(mid, bid, ask, false) == mid,
{
}

/// The trend model opens a position only when flat, warm, neither ruined nor halted, and
/// with the costs covered if they are gated: then it goes long if the signal exceeds the
/// threshold and the price has pulled back to the long limit, and else short, where that is
/// allowed, if the signal is below the negated threshold and the price is at or above the
/// short limit.
pub proof fn law_trend_entry_conditions(p: Position, warmed: bool, halted: bool, q: TrendEntry)
    ensures
        ({
            let ready = warmed && !halted && !p.ruined && p.side == 0;
            let covered = q.fee_gate ==> !crate::ieee::lt(q.expected, q.required);
            let up = crate::ieee::lt(q.threshold, q.signal) && crate::ieee::le(
                q.price,
                q.long_limit,
            );
            let down = q.allow_short && crate::ieee::lt(
                q.signal,
                crate::ieee::negated(q.threshold),
            ) && crate::ieee::le(q.short_limit, q.price);
            let side = p.trend_opens(warmed, halted, q);
            &&& side == 1 <==> ready && covered && up
            &&& side == -1 <==> ready && covered && down && !up
            &&& -1 <= side <= 1
        }),
{
}

/// An open position of either side, of an account that is not ruined.
pub open spec fn held(p: Position) -> bool {
    (p.side == 1 || p.side == -1) && !p.ruined
}

/// Each of the five reasons for which the trend model leaves a position is enough on its
/// own, for long and short alike: a positive take-profit that the move has reached, a
/// positive stop-loss that it has fallen to, a move that wipes the margin, a price through
/// the trailing stop, and a signal that has turned against the position.
pub proof fn law_trend_exit_reasons(p: Position, q: TrendExit)
    requires
        held(p),
    ensures
        crate::ieee::positive(q.take_profit) && crate::ieee::le(q.take_profit, q.favourable)
            ==> p.trend_closes(true, q) is Close,
        crate::ieee::positive(q.stop_loss) && crate::ieee::le(
            q.favourable,
            crate::ieee::negated(q.stop_loss),
        ) ==> p.trend_closes(true, q) is Close,
        crate::ieee::le(q.favourable, crate::ieee::negated(q.liquidation)) ==> p.trend_closes(
            true,
            q,
        ) == (ExitPlan::Close { liquidated: true }),
        p.side == 1 && crate::ieee::le(q.price, q.trail) ==> p.trend_closes(true, q) is Close,
        p.side == -1 && crate::ieee::le(q.trail, q.price) ==> p.trend_closes(true, q) is Close,
        p.side == 1 && crate::ieee::lt(q.signal, crate::ieee::negated(q.signal_exit))
            ==> p.trend_closes(true, q) is Close,
        p.side == -1 && crate::ieee::lt(q.signal_exit, q.signal) ==> p.trend_closes(true, q) is Close,
{
}

/// Without any of the five reasons the trend model holds its position, and it says that the
/// margin is wiped only if it is.
pub proof fn law_trend_holds_otherwise(p: Position, q: TrendExit)
    requires
        held(p),
    ensures
        !(crate::ieee::positive(q.take_profit) && crate::ieee::le(q.take_profit, q.favourable))
            && !(crate::ieee::positive(q.stop_loss) && crate::ieee::le(
            q.favourable,
            crate::ieee::negated(q.stop_loss),
        )) && !crate::ieee::le(q.favourable, crate::ieee::negated(q.liquidation)) && (p.side == 1
            ==> !crate::ieee::le(q.price, q.trail) && !crate::ieee::lt(
            q.signal,
            crate::ieee::negated(q.signal_exit),
        )) && (p.side == -1 ==> !crate::ieee::le(q.trail, q.price) && !crate::ieee::lt(
            q.signal_exit,
            q.signal,
        )) ==> p.trend_closes(true, q) == ExitPlan::Hold,
        p.trend_closes(true, q) == (ExitPlan::Close { liquidated: true }) ==> crate::ieee::le(
            q.favourable,
            crate::ieee::negated(q.liquidation),
        ),
        p.trend_closes(false, q) == ExitPlan::Hold,
{
}

/// The exits of the trend model are the same for long and short: in a market that is turned
/// upside down, the opposite position is closed by the same move.
pub proof fn law_trend_exits_mirror(p: Position, r: Position, q: TrendExit, m: TrendExit)
    requires
        held(p),
        !r.ruined,
        r.side == -p.side,
        m.price == crate::ieee::negated(q.price),
        m.trail == crate::ieee::negated(q.trail),
        m.signal == crate::ieee::negated(q.signal),
        m.signal_exit == q.signal_exit,
        m.favourable == q.favourable,
        m.take_profit == q.take_profit,
        m.stop_loss == q.stop_loss,
        m.liquidation == q.liquidation,
    ensures
        r.trend_closes(true, m) == p.trend_closes(true, q),
{
    crate::ieee::law_negate(q.price, q.trail);
    crate::ieee::law_negate(q.trail, q.price);
    crate::ieee::law_negate(q.signal, crate::ieee::negated(q.signal_exit));
    crate::ieee::law_negate(q.signal_exit, q.signal);
    crate::ieee::law_negate(q.signal_exit, crate::ieee::negated(q.signal));
}

/// The reversion model opens a position only when flat, past the tenth tick, and neither
/// ruined nor halted: then it buys at or below the long limit, unless it asks for order flow
/// and the flow is selling, and else sells short, where that is allowed, at or above the
/// short limit, unless it asks for flow and the flow is buying.
pub proof fn law_reversion_entry_conditions(p: Position, seq: u64, halted: bool, q: ReversionEntry)
    ensures
        ({
            let ready = seq >= 11 && !halted && !p.ruined && p.side == 0;
            let buys = crate::ieee::le(q.price, q.long_limit) && (q.use_flow ==> crate::ieee::le(
                ZERO,
                q.flow,
            ));
            let sells = q.allow_short && crate::ieee::le(q.short_limit, q.price) && (q.use_flow
                ==> crate::ieee::le(q.flow, ZERO));
            let side = p.reversion_opens(seq, halted, q);
            &&& side == 1 <==> ready && buys
            &&& side == -1 <==> ready && sells && !buys
            &&& -1 <= side <= 1
        }),
{
}

/// Each of the four reasons for which the reversion model leaves a position is enough on its
/// own, for long and short alike, and without any of them it holds.
pub proof fn law_reversion_exit_reasons(p: Position, seq: u64, q: ReversionExit)
    requires
        held(p),
        seq >= 11,
    ensures
        ({
            let profit = crate::ieee::le(q.take_profit, q.favourable);
            let loss = crate::ieee::le(q.favourable, crate::ieee::negated(q.stop_loss));
            let wiped = crate::ieee::le(q.favourable, crate::ieee::negated(q.liquidation));
            let turned = (p.side == 1 && crate::ieee::le(q.short_limit, q.price)) || (p.side == -1
                && crate::ieee::le(q.price, q.long_limit));
            let plan = p.reversion_closes(seq, q);
            &&& profit ==> plan is Close
            &&& loss ==> plan is Close
            &&& turned ==> plan is Close
            &&& wiped ==> plan == (ExitPlan::Close { liquidated: true })
            &&& !profit && !loss && !turned && !wiped ==> plan == ExitPlan::Hold
            &&& plan == (ExitPlan::Close { liquidated: true }) ==> wiped
        }),
{
}

/// Neither model closes anything before its warmup is over.
pub proof fn law_no_exit_in_warmup(p: Position, seq: u64, t: TrendExit, r: ReversionExit)
    requires
        seq <= 10,
    ensures
        p.trend_closes(false, t) == ExitPlan::Hold,
        p.reversion_closes(seq, r) == ExitPlan::Hold,
{
}

/// The margin caps the loss and nothing else: a profit, and a loss that the margin covers,
/// is paid in full; a larger loss costs the margin.
pub proof fn law_margin_caps_only_losses(raw_pnl: u64, neg_margin: u64)
    requires
        !crate::ieee::nan64(raw_pnl),
        !crate::ieee::nan64(neg_margin),
    ensures
        crate::ieee::le64(neg_margin, raw_pnl) ==> capped(raw_pnl, neg_margin) == raw_pnl,
        crate::ieee::lt64(raw_pnl, neg_margin) ==> capped(raw_pnl, neg_margin) == neg_margin,
        crate::ieee::le64(raw_pnl, capped(raw_pnl, neg_margin)),
{
}

/// An account is floored at zero and otherwise left as it is.
pub proof fn law_account_floor(equity: u64)
    requires
        !crate::ieee::nan64(equity),
    ensures
        crate::ieee::le64(0, floored(equity)),
        crate::ieee::lt64(0, equity) ==> floored(equity) == equity,
        crate::ieee::le64(equity, 0) ==> floored(equity) == 0,
{
}

/// The best price of a position is one that it has seen.
pub proof fn law_best_price_was_seen(p: Position, price: u32)
    ensures
        p.best_after(price) == price || p.best_after(price) == p.best_price,
        p.best_after(p.best_price) == p.best_price,
{
}

/// What is opened is what is closed: after any prices in between, the round trip has the
/// time, fill, size and side that the position was opened with and the figures that it is
/// settled with. It is flagged as liquidated exactly if the exit rule found it so or the
/// loss reached the margin, and the position is gone; the account is ruined exactly if
/// nothing is left, or if it was before.
pub proof fn law_trip_reports_its_position(
    p: Position,
    side: i64,
    now_ns: u64,
    entry_price: u32,
    mid: u32,
    size: u32,
    best: u32,
    s: Settlement,
)
    ensures
        ({
            let q = Position {
                best_price: best,
                ..p.opened(side, now_ns, entry_price, mid, size)
            };
            let rt = q.round_trip(s);
            let liquidated = s.liquidated || crate::ieee::le64(s.raw_pnl, s.neg_margin);
            &&& rt.side == side
            &&& rt.entry_time_ns == now_ns
            &&& rt.exit_time_ns == s.now_ns
            &&& rt.entry_price == entry_price
            &&& rt.exit_price == s.exit_price
            &&& rt.size == size
            &&& rt.gross_bps == s.gross_bps
            &&& rt.net_bps == s.net_bps
            &&& rt.pnl_quote == s.pnl_quote
            &&& rt.fees_quote == s.fees_quote
            &&& rt.spread_cost_bps == s.spread_cost_bps
            &&& liquidated ==> rt.flags == 0x3F80_0000
            &&& !liquidated ==> rt.flags == 0
            &&& q.closed(s).side == 0
            &&& q.closed(s).ruined <==> p.ruined || crate::ieee::le64(s.equity, 0)
            &&& p.opened(side, now_ns, entry_price, mid, size).best_price == mid
            &&& q.entry_mid == mid
            &&& q.ruined == p.ruined
        }),
{
}

/// Weights are stored one after the other in four bytes each: those of a list are those of
/// its front, then those of its back.
pub proof fn law_weights_concatenate(a: Seq<u32>, b: Seq<u32>)
    ensures
        weight_bytes(a + b) == weight_bytes(a) + weight_bytes(b),
        weight_bytes(a).len() == 4 * a.len(),
    decreases b.len(),
{
    if a.len() > 0 {
        lemma_weight_bytes(a, 0);
    }
    if b.len() == 0 {
        assert(a + b == a);
        assert(weight_bytes(a) + weight_bytes(b) == weight_bytes(a));
    } else {
        law_weights_concatenate(a, b.drop_last());
        assert((a + b).drop_last() == a + b.drop_last());
        assert(weight_bytes(a + b) == weight_bytes(a) + weight_bytes(b));
    }
}

/// A profit that is no number costs the margin.
pub proof fn law_no_profit_without_a_number(raw_pnl: u64, neg_margin: u64)
    requires
        crate::ieee::nan64(raw_pnl),
    ensures
        capped(raw_pnl, neg_margin) == neg_margin,
{
}

} // verus!

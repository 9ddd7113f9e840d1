//! The account of a trading model: its open position, the margin posted for it, and its
//! equity.
//!
//! A tick comes with every figure that the model may need for it, computed outside: what
//! would open a position, and what would close the one that is open. Which of them is used
//! is decided here.

use vstd::prelude::*;
use crate::ieee::negate64;
use crate::logs::RoundTrip;
use crate::model::{
    capped_pnl, ExitPlan, Position, ReversionEntry, ReversionExit, Settlement, TrendEntry,
    TrendExit,
};

verus! {

/// The figures of a position that may be opened.
#[derive(Clone, Copy)]
pub struct Opening {
    /// Fill of the entry (binary32).
    pub entry_price: u32,
    /// Units (binary32).
    pub size: u32,
    /// Margin that is posted (binary64).
    pub margin: u64,
}

/// The figures of an open position that may be closed. Numbers are bit patterns of binary32
/// unless said otherwise.
#[derive(Clone, Copy)]
pub struct Closing {
    /// Fill of the exit.
    pub exit_price: u32,
    /// What spread and slippage cost, in basis points.
    pub spread_cost_bps: u32,
    /// Favourable move before fees, in basis points.
    pub gross_bps: u32,
    /// Favourable move after fees, in basis points.
    pub net_bps: u32,
    /// Profit after fees, in quote currency.
    pub pnl_quote: u32,
    /// Fees, in quote currency.
    pub fees_quote: u32,
    /// Profit after fees before the margin caps the loss (binary64).
    pub raw_pnl: u64,
    /// The equity and the profit together (binary64).
    pub sum: u64,
}

/// A tick of the traded market under the trend model.
#[derive(Clone, Copy)]
pub struct TrendTick {
    /// When the tick came.
    pub now_ns: u64,
    /// Its price (binary32).
    pub price: u32,
    /// It is past the warmup.
    pub warmed: bool,
    /// Trading has halted.
    pub halted: bool,
    /// What an entry is weighed by.
    pub entry: TrendEntry,
    /// What an exit is weighed by.
    pub exit: TrendExit,
    /// A long position, if one is opened.
    pub long: Opening,
    /// A short position, if one is opened.
    pub short: Opening,
    /// The open position, if it is closed.
    pub closing: Closing,
}

/// A tick of the traded market under the reversion model.
#[derive(Clone, Copy)]
pub struct ReversionTick {
    /// When the tick came.
    pub now_ns: u64,
    /// Its price (binary32).
    pub price: u32,
    /// Its number.
    pub seq: u64,
    /// Trading has halted.
    pub halted: bool,
    /// What an entry is weighed by.
    pub entry: ReversionEntry,
    /// What an exit is weighed by.
    pub exit: ReversionExit,
    /// A long position, if one is opened.
    pub long: Opening,
    /// A short position, if one is opened.
    pub short: Opening,
    /// The open position, if it is closed.
    pub closing: Closing,
}

/// What a model does on a tick.
#[derive(Clone, Copy, Debug, PartialEq, Eq, Structural)]
pub enum Decision {
    /// Nothing.
    Wait,
    /// It opens a position.
    Enter {
        /// 1 for long, -1 for short.
        side: i64,
    },
    /// It closes its position.
    Exit {
        /// The completed round trip.
        trip: RoundTrip,
    },
}

/// The account of a trading model.
#[derive(Clone, Copy, Debug, PartialEq, Eq, Structural)]
pub struct Account {
    /// The open position.
    pub position: Position,
    /// The margin posted for it (binary64).
    pub margin: u64,
    /// The equity (binary64).
    pub equity: u64,
}

impl Account {
    /// The position is well-formed.
    pub open spec fn wf(&self) -> bool {
        self.position.wf()
    }

    /// The profit of the open position: a loss stops at the margin.
    pub open spec fn profit(self, raw_pnl: u64) -> u64 {
        crate::model::capped(raw_pnl, crate::ieee::negated64(self.margin))
    }

    /// The settlement of the open position.
    pub open spec fn settlement(self, now_ns: u64, liquidated: bool, c: Closing) -> Settlement {
        Settlement {
            now_ns,
            liquidated,
            exit_price: c.exit_price,
            spread_cost_bps: c.spread_cost_bps,
            gross_bps: c.gross_bps,
            net_bps: c.net_bps,
            pnl_quote: c.pnl_quote,
            fees_quote: c.fees_quote,
            raw_pnl: c.raw_pnl,
            neg_margin: crate::ieee::negated64(self.margin),
            equity: c.sum,
        }
    }

    /// The account after a position was opened.
    pub open spec fn opened(self, side: i64, now_ns: u64, price: u32, o: Opening) -> Account {
        Account {
            position: self.position.opened(side, now_ns, o.entry_price, price, o.size),
            margin: o.margin,
            ..self
        }
    }

    /// The account after its position was closed.
    pub open spec fn closed(self, now_ns: u64, liquidated: bool, c: Closing) -> Account {
        Account {
            position: self.position.closed(self.settlement(now_ns, liquidated, c)),
            equity: crate::model::floored(c.sum),
            ..self
        }
    }

    /// The account with its position marked to a price.
    pub open spec fn marked(self, price: u32) -> Account {
        Account {
            position: Position { best_price: self.position.best_after(price), ..self.position },
            ..self
        }
    }

    /// What the trend model does on a tick, and the account after it.
    pub open spec fn trend_step(self, t: TrendTick) -> (Decision, Account) {
        if self.position.side == 0 {
            let side = self.position.trend_opens(t.warmed, t.halted, t.entry) as i64;
            if side == 0 {
                (Decision::Wait, self)
            } else {
                (
                    Decision::Enter { side },
                    self.opened(side, t.now_ns, t.price, if side == 1 {
                        t.long
                    } else {
                        t.short
                    }),
                )
            }
        } else if !t.warmed || self.position.ruined {
            (Decision::Wait, self)
        } else {
            let m = self.marked(t.price);
            match m.position.trend_closes(t.warmed, t.exit) {
                ExitPlan::Hold => (Decision::Wait, m),
                ExitPlan::Close { liquidated } => (
                    Decision::Exit {
                        trip: m.position.round_trip(
                            m.settlement(t.now_ns, liquidated, t.closing),
                        ),
                    },
                    m.closed(t.now_ns, liquidated, t.closing),
                ),
            }
        }
    }

    /// What the reversion model does on a tick, and the account after it.
    pub open spec fn reversion_step(self, t: ReversionTick) -> (Decision, Account) {
        if self.position.side == 0 {
            let side = self.position.reversion_opens(t.seq, t.halted, t.entry) as i64;
            if side == 0 {
                (Decision::Wait, self)
            } else {
                (
                    Decision::Enter { side },
                    self.opened(side, t.now_ns, t.price, if side == 1 {
                        t.long
                    } else {
                        t.short
                    }),
                )
            }
        } else {
            match self.position.reversion_closes(t.seq, t.exit) {
                ExitPlan::Hold => (Decision::Wait, self),
                ExitPlan::Close { liquidated } => (
                    Decision::Exit {
                        trip: self.position.round_trip(
                            self.settlement(t.now_ns, liquidated, t.closing),
                        ),
                    },
                    self.closed(t.now_ns, liquidated, t.closing),
                ),
            }
        }
    }

    /// An account without a position.
    pub fn new(capital: u64) -> (a: Account)
        ensures
            a.wf(),
            a.position.side == 0,
            !a.position.ruined,
            a.margin == 0,
            a.equity == capital,
            a.position.entry_time_ns == 0,
            a.position.entry_price == 0,
            a.position.entry_mid == 0,
            a.position.size == 0,
            a.position.best_price == 0,
    {
        Account { position: Position::new(), margin: 0, equity: capital }
    }

    /// The profit of the open position: a loss stops at the margin.
    pub fn pnl(&self, raw_pnl: u64) -> (r: u64)
        ensures
            r == self.profit(raw_pnl),
    {
        capped_pnl(raw_pnl, negate64(self.margin))
    }

    fn open(&mut self, side: i64, now_ns: u64, price: u32, o: &Opening)
        requires
            old(self).wf(),
            old(self).position.side == 0,
            side == 1 || side == -1,
        ensures
            final(self).wf(),
            *final(self) == old(self).opened(side, now_ns, price, *o),
    {
        self.position.open(side, now_ns, o.entry_price, price, o.size);
        self.margin = o.margin;
    }

    fn close(&mut self, now_ns: u64, liquidated: bool, c: &Closing) -> (trip: RoundTrip)
        requires
            old(self).wf(),
            old(self).position.side != 0,
        ensures
            final(self).wf(),
            *final(self) == old(self).closed(now_ns, liquidated, *c),
            trip == old(self).position.round_trip(old(self).settlement(now_ns, liquidated, *c)),
    {
        let s = Settlement {
            now_ns,
            liquidated,
            exit_price: c.exit_price,
            spread_cost_bps: c.spread_cost_bps,
            gross_bps: c.gross_bps,
            net_bps: c.net_bps,
            pnl_quote: c.pnl_quote,
            fees_quote: c.fees_quote,
            raw_pnl: c.raw_pnl,
            neg_margin: negate64(self.margin),
            equity: c.sum,
        };
        let (trip, equity) = self.position.close(&s);
        self.equity = equity;
        trip
    }

    /// Takes in a tick of the trend model.
    pub fn on_trend_tick(&mut self, t: &TrendTick) -> (d: Decision)
        requires
            old(self).wf(),
        ensures
            final(self).wf(),
            (d, *final(self)) == old(self).trend_step(*t),
    {
        if self.position.side == 0 {
            let side: i64 = self.position.trend_entry(t.warmed, t.halted, &t.entry);
            if side == 0 {
                return Decision::Wait;
            }
            let o = if side == 1 {
                t.long
            } else {
                t.short
            };
            self.open(side, t.now_ns, t.price, &o);
            return Decision::Enter { side };
        }
        if !t.warmed || self.position.ruined {
            return Decision::Wait;
        }
        self.position.mark(t.price);
        match self.position.trend_exit(t.warmed, &t.exit) {
            ExitPlan::Hold => Decision::Wait,
            ExitPlan::Close { liquidated } => {
                let trip = self.close(t.now_ns, liquidated, &t.closing);
                Decision::Exit { trip }
            },
        }
    }

    /// Takes in a tick of the reversion model.
    pub fn on_reversion_tick(&mut self, t: &ReversionTick) -> (d: Decision)
        requires
            old(self).wf(),
        ensures
            final(self).wf(),
            (d, *final(self)) == old(self).reversion_step(*t),
    {
        if self.position.side == 0 {
            let side: i64 = self.position.reversion_entry(t.seq, t.halted, &t.entry);
            if side == 0 {
                return Decision::Wait;
            }
            let o = if side == 1 {
                t.long
            } else {
                t.short
            };
            self.open(side, t.now_ns, t.price, &o);
            return Decision::Enter { side };
        }
        match self.position.reversion_exit(t.seq, &t.exit) {
            ExitPlan::Hold => Decision::Wait,
            ExitPlan::Close { liquidated } => {
                let trip = self.close(t.now_ns, liquidated, &t.closing);
                Decision::Exit { trip }
            },
        }
    }
}

// What holds across many ticks.
/// A tick of either model.
pub ghost enum ModelTick {
    /// Of the trend model.
    Trend(TrendTick),
    /// Of the reversion model.
    Reversion(ReversionTick),
}

impl ModelTick {
    /// The figures of a long position, if one is opened.
    pub open spec fn long(self) -> Opening {
        match self {
            ModelTick::Trend(t) => t.long,
            ModelTick::Reversion(t) => t.long,
        }
    }

    /// The figures of a short position, if one is opened.
    pub open spec fn short(self) -> Opening {
        match self {
            ModelTick::Trend(t) => t.short,
            ModelTick::Reversion(t) => t.short,
        }
    }

    /// The figures of the open position, if it is closed.
    pub open spec fn closing(self) -> Closing {
        match self {
            ModelTick::Trend(t) => t.closing,
            ModelTick::Reversion(t) => t.closing,
        }
    }
}

impl Account {
    /// What a model does on a tick, and the account after it.
    #[verifier::opaque]
    pub open spec fn step(self, tick: ModelTick) -> (Decision, Account) {
        match tick {
            ModelTick::Trend(t) => self.trend_step(t),
            ModelTick::Reversion(t) => self.reversion_step(t),
        }
    }

    /// The account after a sequence of ticks.
    pub open spec fn run(self, ticks: Seq<ModelTick>) -> Account
        decreases ticks.len(),
    {
        if ticks.len() == 0 {
            self
        } else {
            self.run(ticks.drop_last()).step(ticks.last()).1
        }
    }

    /// The equity is at or above zero, and the margin of an open position lies between zero
    /// and the equity.
    pub open spec fn sound(self) -> bool {
        &&& self.wf()
        &&& crate::ieee::le64(0, self.equity)
        &&& self.position.side != 0 ==> crate::ieee::le64(0, self.margin) && crate::ieee::le64(
            self.margin,
            self.equity,
        )
    }

    /// The figures that a tick uses fit the account: the margin of an entry is between zero
    /// and the equity, and at an exit the equity and the profit add up to a number.
    pub open spec fn fits(self, tick: ModelTick) -> bool {
        match self.step(tick).0 {
            Decision::Wait => true,
            Decision::Enter { side } => {
                let o = if side == 1 {
                    tick.long()
                } else {
                    tick.short()
                };
                crate::ieee::le64(0, o.margin) && crate::ieee::le64(o.margin, self.equity)
            },
            Decision::Exit { trip: _ } => !crate::ieee::nan64(tick.closing().sum),
        }
    }

    /// What a tick does to the money: an exit loses no more than the margin, and leaves the
    /// sum of equity and profit or zero if that is not above zero, which ruins the account;
    /// anything else leaves the equity as it is.
    pub open spec fn isolated(self, tick: ModelTick) -> bool {
        let (d, after) = self.step(tick);
        let c = tick.closing();
        if d is Exit {
            &&& self.position.side != 0
            &&& crate::ieee::le64(crate::ieee::negated64(self.margin), self.profit(c.raw_pnl))
            &&& after.equity == if crate::ieee::le64(c.sum, 0) {
                0
            } else {
                c.sum
            }
            &&& after.position.ruined <==> crate::ieee::le64(c.sum, 0)
            &&& after.position.side == 0
        } else {
            after.equity == self.equity && after.position.ruined == self.position.ruined
        }
    }
}

proof fn lemma_step(a: Account, tick: ModelTick)
    requires
        a.sound(),
        a.fits(tick),
    ensures
        a.step(tick).1.sound(),
        a.isolated(tick),
{
    reveal(Account::step);
}

proof fn lemma_sound_run(a: Account, ticks: Seq<ModelTick>, n: int)
    requires
        a.sound(),
        0 <= n <= ticks.len(),
        forall|k: int| 0 <= k < ticks.len() ==> a.run(ticks.take(k)).fits(#[trigger] ticks[k]),
    ensures
        a.run(ticks.take(n)).sound(),
    decreases n,
{
    if n > 0 {
        lemma_sound_run(a, ticks, n - 1);
        assert(ticks.take(n).drop_last() == ticks.take(n - 1));
        assert(ticks.take(n).last() == ticks[n - 1]);
        lemma_step(a.run(ticks.take(n - 1)), ticks[n - 1]);
    }
}

/// Isolated margin, over any run of a model: the equity never falls below zero, no position
/// is margined beyond the equity, no exit loses more than the margin that was posted for it,
/// and the account is ruined exactly by an exit that leaves nothing.
pub proof fn law_isolated_account(a: Account, ticks: Seq<ModelTick>)
    requires
        a.sound(),
        forall|k: int| 0 <= k < ticks.len() ==> a.run(ticks.take(k)).fits(#[trigger] ticks[k]),
    ensures
        a.run(ticks).sound(),
        forall|k: int| 0 <= k < ticks.len() ==> a.run(ticks.take(k)).isolated(#[trigger] ticks[k]),
{
    lemma_sound_run(a, ticks, ticks.len() as int);
    assert(ticks.take(ticks.len() as int) == ticks);
    assert forall|k: int| 0 <= k < ticks.len() implies a.run(ticks.take(k)).isolated(
        #[trigger] ticks[k],
    ) by {
        lemma_sound_run(a, ticks, k);
        lemma_step(a.run(ticks.take(k)), ticks[k]);
    }
}

proof fn lemma_ruined_step(a: Account, tick: ModelTick)
    requires
        a.position.ruined,
    ensures
        a.step(tick) == (Decision::Wait, a),
{
    reveal(Account::step);
}

proof fn lemma_ruined_run(a: Account, ticks: Seq<ModelTick>)
    requires
        a.position.ruined,
    ensures
        a.run(ticks) == a,
    decreases ticks.len(),
{
    if ticks.len() > 0 {
        lemma_ruined_run(a, ticks.drop_last());
        lemma_ruined_step(a, ticks.last());
    }
}

/// Nothing happens to a ruined account any more, whatever ticks come.
pub proof fn law_ruined_account_rests(a: Account, ticks: Seq<ModelTick>)
    requires
        a.position.ruined,
    ensures
        a.run(ticks) == a,
        forall|k: int|
            0 <= k < ticks.len() ==> a.run(ticks.take(k)).step(#[trigger] ticks[k]) == (
                Decision::Wait,
                a,
            ),
{
    lemma_ruined_run(a, ticks);
    assert forall|k: int| 0 <= k < ticks.len() implies a.run(ticks.take(k)).step(
        #[trigger] ticks[k],
    ) == (Decision::Wait, a) by {
        lemma_ruined_run(a, ticks.take(k));
        lemma_ruined_step(a, ticks[k]);
    }
}

/// An entry of either model: the position is the one that the tick offers on that side, at
/// its price and time; the margin is the one that is posted for it, and the equity and the
/// other figures of the account stay as they are.
pub proof fn law_entry_opens_the_offered_position(a: Account, tick: ModelTick, now_ns: u64, price: u32)
    requires
        a.wf(),
        a.step(tick).0 is Enter,
        match tick {
            ModelTick::Trend(t) => t.now_ns == now_ns && t.price == price,
            ModelTick::Reversion(t) => t.now_ns == now_ns && t.price == price,
        },
    ensures
        ({
            let (d, after) = a.step(tick);
            let side = d->side;
            let o = if side == 1 {
                tick.long()
            } else {
                tick.short()
            };
            &&& a.position.side == 0
            &&& side == 1 || side == -1
            &&& after.position.side == side
            &&& after.position.entry_time_ns == now_ns
            &&& after.position.entry_price == o.entry_price
            &&& after.position.entry_mid == price
            &&& after.position.best_price == price
            &&& after.position.size == o.size
            &&& after.margin == o.margin
            &&& after.equity == a.equity
            &&& after.position.ruined == a.position.ruined
        }),
{
    reveal(Account::step);
}

/// An exit of either model: the round trip is that of the position that was open, closed at
/// the tick's time with the tick's figures, and the position is gone.
pub proof fn law_exit_reports_the_open_position(a: Account, tick: ModelTick, now_ns: u64)
    requires
        a.wf(),
        a.step(tick).0 is Exit,
        match tick {
            ModelTick::Trend(t) => t.now_ns == now_ns,
            ModelTick::Reversion(t) => t.now_ns == now_ns,
        },
    ensures
        ({
            let (d, after) = a.step(tick);
            let rt = d->trip;
            let c = tick.closing();
            &&& a.position.side != 0
            &&& rt.side == a.position.side
            &&& rt.entry_time_ns == a.position.entry_time_ns
            &&& rt.exit_time_ns == now_ns
            &&& rt.entry_price == a.position.entry_price
            &&& rt.exit_price == c.exit_price
            &&& rt.size == a.position.size
            &&& rt.gross_bps == c.gross_bps
            &&& rt.net_bps == c.net_bps
            &&& rt.pnl_quote == c.pnl_quote
            &&& rt.fees_quote == c.fees_quote
            &&& rt.spread_cost_bps == c.spread_cost_bps
            &&& crate::ieee::le64(c.raw_pnl, crate::ieee::negated64(a.margin)) ==> rt.flags
                == 0x3F80_0000
            &&& after.position.side == 0
            &&& crate::ieee::lt64(0, c.sum) ==> after.equity == c.sum
            &&& crate::ieee::le64(c.sum, 0) ==> after.equity == 0 && after.position.ruined
        }),
{
    reveal(Account::step);
}

/// A tick on which nothing is opened or closed leaves the account as it is, but for the best
/// price of a position that the trend model holds.
pub proof fn law_waiting_changes_nothing_else(a: Account, tick: ModelTick)
    requires
        a.step(tick).0 is Wait,
    ensures
        ({
            let after = a.step(tick).1;
            let best = after.position.best_price;
            &&& after == (Account {
                position: crate::model::Position { best_price: best, ..a.position },
                ..a
            })
            &&& a.position.side == 0 || tick is Reversion ==> after == a
        }),
{
    reveal(Account::step);
}

/// The trend model marks a position before it looks for a reason to leave it: while it is
/// held, its best price is at least as good as the tick's.
pub proof fn law_held_positions_are_marked(a: Account, t: TrendTick)
    requires
        a.wf(),
        a.position.side != 0,
        !a.position.ruined,
        t.warmed,
        !crate::ieee::nan(t.price),
        !crate::ieee::nan(a.position.best_price),
    ensures
        ({
            let after = a.step(ModelTick::Trend(t)).1;
            &&& a.position.side == 1 ==> crate::ieee::le(t.price, after.position.best_price)
            &&& a.position.side == -1 ==> crate::ieee::le(after.position.best_price, t.price)
        }),
{
    reveal(Account::step);
}

/// When the models act, by their own conditions: an account without a position enters
/// exactly if its model opens one, and one with a position exits exactly if its model closes
/// it.
pub proof fn law_accounts_follow_their_model(a: Account, t: TrendTick, r: ReversionTick)
    requires
        a.wf(),
    ensures
        a.step(ModelTick::Trend(t)).0 is Enter <==> a.position.trend_opens(
            t.warmed,
            t.halted,
            t.entry,
        ) != 0,
        a.step(ModelTick::Trend(t)).0 is Exit <==> a.position.trend_closes(t.warmed, t.exit) is Close,
        a.step(ModelTick::Reversion(r)).0 is Enter <==> a.position.reversion_opens(
            r.seq,
            r.halted,
            r.entry,
        ) != 0,
        a.step(ModelTick::Reversion(r)).0 is Exit <==> a.position.reversion_closes(
            r.seq,
            r.exit,
        ) is Close,
{
    reveal(Account::step);
}

/// No position loses more than its margin, and one that loses less, or gains, is paid in
/// full.
pub proof fn law_profit_of_a_position(a: Account, raw_pnl: u64)
    requires
        !crate::ieee::nan64(a.margin),
        !crate::ieee::nan64(raw_pnl),
    ensures
        crate::ieee::le64(crate::ieee::negated64(a.margin), a.profit(raw_pnl)),
        crate::ieee::le64(crate::ieee::negated64(a.margin), raw_pnl) ==> a.profit(raw_pnl)
            == raw_pnl,
        crate::ieee::lt64(raw_pnl, crate::ieee::negated64(a.margin)) ==> a.profit(raw_pnl)
            == crate::ieee::negated64(a.margin),
{
}

} // verus!

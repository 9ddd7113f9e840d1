//! The order book: what the strategy has committed, and the risk limits it keeps.
//!
//! Every change of the book is a function on its contents, so that what holds across
//! many steps can be stated over sequences of them.

use std::collections::VecDeque;
use vstd::prelude::*;
use crate::config::{
    MAX_POSITION, PENDING_CAP, ROUND_TRIP_LOG_SIZE, SIGNAL_SERIES_LEN, TRADE_LOG_SIZE,
    WARMUP_PACKETS,
};
use crate::histogram::{HistogramView, LatencyHistogram};
use crate::ieee::ZERO;
use crate::logs::{
    LogView, OrderEntry, RoundTrip, RoundTripLog, SignalLog, SignalView, TradeExecution, TradeLog,
};

verus! {

/// A simulated fill on its way: it resolves at the first price at or after `due_ns`.
#[derive(Clone, Copy, Debug, PartialEq, Eq, Structural)]
pub struct Pending {
    /// Slot of the trade log.
    pub slot: usize,
    /// When the fill is due.
    pub due_ns: u64,
}

/// When and on which tick the strategy acted.
#[derive(Clone, Copy, Debug, PartialEq, Eq, Structural)]
pub struct Act {
    /// Number of the tick.
    pub sequence: u64,
    /// When the tick was ingested.
    pub ingest_time_ns: u64,
    /// Transit estimate of the tick.
    pub transit_est_ns: u64,
    /// When the decision fell.
    pub buy_time_ns: u64,
    /// When the order was sent.
    pub order_send_ns: u64,
}

/// What the risk limits say to a buy.
#[derive(Clone, Copy, Debug, PartialEq, Eq, Structural)]
pub enum Risk {
    /// The tick belongs to the warmup: nothing is committed.
    Warmup,
    /// Trading has halted.
    Halted,
    /// The position is at its limit: trading halts.
    PositionLimit,
    /// The buy may be committed.
    Commit,
}

/// The order book of the strategy.
pub struct OrderBook {
    /// Committed trades.
    pub trade_log: TradeLog,
    /// Signal latencies of the committed trades.
    pub sig_hist: LatencyHistogram,
    /// Gaps of more than 500 ns between two idle spins, modulo 2^64.
    pub stall_count: u64,
    /// Trading has halted.
    pub halt: bool,
    /// Net position in trades.
    pub net_position: i64,
    /// Buys attempted, modulo 2^64.
    pub attempts: u64,
    /// Buys filled, modulo 2^64.
    pub filled: u64,
    /// Completed round trips.
    pub round_trips: RoundTripLog,
    /// The composite signal.
    pub signal: SignalLog,
    /// Latest value of the signal (binary32).
    pub latest_signal: u32,
    /// Latest volatility estimate (binary32).
    pub vol_ema: u32,
    /// Fills on their way, oldest first.
    pub pending: VecDeque<Pending>,
}

/// The contents of an order book.
#[verifier::ext_equal]
pub ghost struct BookView {
    /// Committed trades.
    pub log: LogView<TradeExecution>,
    /// Signal latencies of the committed trades.
    pub hist: HistogramView,
    /// Gaps between idle spins.
    pub stall_count: u64,
    /// Trading has halted.
    pub halt: bool,
    /// Net position in trades.
    pub net_position: i64,
    /// Buys attempted.
    pub attempts: u64,
    /// Buys filled.
    pub filled: u64,
    /// Completed round trips.
    pub round_trips: LogView<RoundTrip>,
    /// The composite signal.
    pub signal: SignalView,
    /// Latest value of the signal.
    pub latest_signal: u32,
    /// Latest volatility estimate.
    pub vol_ema: u32,
    /// Fills on their way, oldest first.
    pub pending: Seq<Pending>,
}

impl View for OrderBook {
    type V = BookView;

    open spec fn view(&self) -> BookView {
        BookView {
            log: self.trade_log@,
            hist: self.sig_hist@,
            stall_count: self.stall_count,
            halt: self.halt,
            net_position: self.net_position,
            attempts: self.attempts,
            filled: self.filled,
            round_trips: self.round_trips@,
            signal: self.signal@,
            latest_signal: self.latest_signal,
            vol_ema: self.vol_ema,
            pending: self.pending@,
        }
    }
}

/// `a - b`, but not below 0.
pub open spec fn minus(a: u64, b: u64) -> u64 {
    if a >= b {
        (a - b) as u64
    } else {
        0
    }
}

impl Act {
    /// From ingest to decision.
    pub open spec fn latency(self) -> u64 {
        minus(self.buy_time_ns, self.ingest_time_ns)
    }

    /// The trade as it is logged.
    pub open spec fn trade(self, target_price: u32) -> TradeExecution {
        TradeExecution {
            sequence: self.sequence,
            ingest_time_ns: self.ingest_time_ns,
            buy_time_ns: self.buy_time_ns,
            latency_ns: self.latency(),
            order_send_ns: self.order_send_ns,
            round_trip_ns: 0,
            transit_est_ns: self.transit_est_ns,
            target_price,
            fill_price: ZERO,
        }
    }
}

impl BookView {
    /// The order that goes to the exchange.
    pub open spec fn order(self, act: Act) -> OrderEntry {
        OrderEntry {
            sequence: act.sequence,
            slot: self.log.next() as u64,
            order_send_ns: act.order_send_ns,
        }
    }

    /// The book after a trade was logged.
    pub open spec fn logged(self, act: Act, target_price: u32) -> BookView {
        BookView {
            log: self.log.push(act.trade(target_price)),
            hist: self.hist.record(act.latency()),
            ..self
        }
    }

    /// The fills on their way after one more buy; none is added beyond the capacity.
    pub open spec fn scheduled(self, act: Act) -> Seq<Pending> {
        if self.pending.len() < PENDING_CAP {
            self.pending.push(
                Pending {
                    slot: self.log.next() as usize,
                    due_ns: crate::wrap::sum(act.order_send_ns, act.transit_est_ns),
                },
            )
        } else {
            self.pending
        }
    }

    /// The book after a buy.
    pub open spec fn bought(self, act: Act, target_price: u32) -> BookView {
        BookView {
            net_position: self.net_position.wrapping_add(1),
            attempts: crate::wrap::next(self.attempts),
            pending: self.scheduled(act),
            ..self.logged(act, target_price)
        }
    }

    /// The book after the oldest fill resolved at a price.
    pub open spec fn fill_first(self, price: u32) -> BookView {
        BookView {
            log: crate::logs::filled(self.log, self.pending[0].slot as int, price),
            filled: crate::wrap::next(self.filled),
            pending: self.pending.drop_first(),
            ..self
        }
    }

    /// The book after the fills that are due, oldest first, up to the first that is not.
    pub open spec fn resolved(self, price: u32, now_ns: u64) -> BookView
        decreases self.pending.len(),
    {
        if self.pending.len() > 0 && now_ns >= self.pending[0].due_ns {
            self.fill_first(price).resolved(price, now_ns)
        } else {
            self
        }
    }

    /// The book after trading halted.
    pub open spec fn halted(self) -> BookView {
        BookView { halt: true, ..self }
    }

    /// What the risk limits say to a buy on tick number `sequence`.
    pub open spec fn risk(self, sequence: u64) -> Risk {
        if sequence <= WARMUP_PACKETS {
            Risk::Warmup
        } else if self.halt {
            Risk::Halted
        } else if self.net_position >= MAX_POSITION {
            Risk::PositionLimit
        } else {
            Risk::Commit
        }
    }

    /// The book after the risk limits were asked.
    pub open spec fn risk_checked(self, sequence: u64) -> BookView {
        if self.risk(sequence) == Risk::PositionLimit {
            self.halted()
        } else {
            self
        }
    }

    /// The book after the model opened a position.
    pub open spec fn entered(self, side: i64, signal: u32, act: Act) -> BookView {
        BookView {
            signal: SignalView {
                at_entry: self.signal.at_entry.update(self.round_trips.next(), signal),
                ..self.signal
            },
            net_position: self.net_position.wrapping_add(side),
            ..self.logged(act, ZERO)
        }
    }

    /// The book after a position was opened without a signal.
    pub open spec fn opened(self, side: i64, act: Act) -> BookView {
        BookView { net_position: self.net_position.wrapping_add(side), ..self.logged(act, ZERO) }
    }

    /// The book after a round trip was completed; ruin halts trading.
    pub open spec fn exited(self, rt: RoundTrip, ruined: bool, act: Act) -> BookView {
        BookView {
            round_trips: self.round_trips.push(rt),
            net_position: self.net_position.wrapping_sub(rt.side),
            halt: self.halt || ruined,
            ..self.logged(act, ZERO)
        }
    }

    /// The book after the signal was computed; every eighth value is sampled.
    pub open spec fn signalled(self, signal: u32, vol: u32, sample: bool) -> BookView {
        BookView {
            latest_signal: signal,
            vol_ema: vol,
            signal: if sample {
                SignalView { series: self.signal.series.push(signal), ..self.signal }
            } else {
                self.signal
            },
            ..self
        }
    }

    /// The parts have their sizes, and fills on their way point into the log.
    pub open spec fn sized(self) -> bool {
        &&& self.log.entries.len() == TRADE_LOG_SIZE
        &&& self.round_trips.entries.len() == ROUND_TRIP_LOG_SIZE
        &&& self.signal.series.entries.len() == SIGNAL_SERIES_LEN
        &&& self.signal.at_entry.len() == ROUND_TRIP_LOG_SIZE
        &&& self.pending.len() <= PENDING_CAP
        &&& forall|i: int| 0 <= i < self.pending.len() ==> self.pending[i].slot < TRADE_LOG_SIZE
    }
}

/// A book in which nothing happened.
pub open spec fn empty_book() -> BookView {
    BookView {
        log: crate::logs::empty_log(TRADE_LOG_SIZE as nat, crate::logs::blank_trade()),
        hist: crate::histogram::empty_histogram(),
        stall_count: 0,
        halt: false,
        net_position: 0,
        attempts: 0,
        filled: 0,
        round_trips: crate::logs::empty_log(
            ROUND_TRIP_LOG_SIZE as nat,
            crate::logs::blank_round_trip(),
        ),
        signal: SignalView {
            series: crate::logs::empty_log(SIGNAL_SERIES_LEN as nat, 0u32),
            at_entry: Seq::new(ROUND_TRIP_LOG_SIZE as nat, |i: int| 0u32),
        },
        latest_signal: ZERO,
        vol_ema: ZERO,
        pending: Seq::empty(),
    }
}

impl OrderBook {
    /// The parts have their sizes, and the histogram holds one latency per trade.
    pub open spec fn wf(&self) -> bool {
        &&& self@.sized()
        &&& self.trade_log.wf()
        &&& self.sig_hist.wf()
        &&& self.sig_hist.observations() == self.trade_log.write_idx
        &&& self.round_trips.wf()
        &&& self.signal.wf()
    }

    /// None of the logs' counters is at the end of its range.
    pub open spec fn has_room(&self) -> bool {
        &&& self.trade_log.write_idx < u64::MAX
        &&& self.round_trips.write_idx < u64::MAX
        &&& self.signal.series_idx < u64::MAX
    }

    /// Whether none of the logs' counters is at the end of its range.
    pub fn room(&self) -> (r: bool)
        ensures
            r == self.has_room(),
    {
        self.trade_log.write_idx < u64::MAX && self.round_trips.write_idx < u64::MAX
            && self.signal.series_idx < u64::MAX
    }

    /// An empty book.
    pub fn new() -> (b: OrderBook)
        ensures
            b.wf(),
            b.has_room(),
            b@ == empty_book(),
    {
        OrderBook {
            trade_log: TradeLog::new(),
            sig_hist: LatencyHistogram::new(),
            stall_count: 0,
            halt: false,
            net_position: 0,
            attempts: 0,
            filled: 0,
            round_trips: RoundTripLog::new(),
            signal: SignalLog::new(),
            latest_signal: ZERO,
            vol_ema: ZERO,
            pending: VecDeque::new(),
        }
    }

    /// Halts trading, for good.
    pub fn halt_trading(&mut self)
        requires
            old(self).wf(),
        ensures
            final(self).wf(),
            final(self)@ == old(self)@.halted(),
    {
        self.halt = true;
    }

    /// Asks the risk limits about a buy on tick number `sequence`.
    pub fn check_risk(&mut self, sequence: u64) -> (r: Risk)
        requires
            old(self).wf(),
        ensures
            final(self).wf(),
            r == old(self)@.risk(sequence),
            final(self)@ == old(self)@.risk_checked(sequence),
    {
        if sequence <= WARMUP_PACKETS {
            Risk::Warmup
        } else if self.halt {
            Risk::Halted
        } else if self.net_position >= MAX_POSITION {
            self.halt = true;
            Risk::PositionLimit
        } else {
            Risk::Commit
        }
    }

    fn log_trade(&mut self, act: &Act, target_price: u32) -> (order: OrderEntry)
        requires
            old(self).wf(),
            old(self).has_room(),
        ensures
            final(self).wf(),
            final(self)@ == old(self)@.logged(*act, target_price),
            order == old(self)@.order(*act),
            order.slot < TRADE_LOG_SIZE,
    {
        let latency_ns: u64 = act.buy_time_ns.saturating_sub(act.ingest_time_ns);
        self.sig_hist.record(latency_ns);
        let slot: usize = self.trade_log.push(
            TradeExecution {
                sequence: act.sequence,
                ingest_time_ns: act.ingest_time_ns,
                buy_time_ns: act.buy_time_ns,
                latency_ns,
                order_send_ns: act.order_send_ns,
                round_trip_ns: 0,
                transit_est_ns: act.transit_est_ns,
                target_price,
                fill_price: ZERO,
            },
        );
        OrderEntry {
            sequence: act.sequence,
            slot: slot as u64,
            order_send_ns: act.order_send_ns,
        }
    }

    /// Logs an order of the trading model, which no slippage is measured of.
    pub fn emit_latency_order(&mut self, act: &Act) -> (order: OrderEntry)
        requires
            old(self).wf(),
            old(self).has_room(),
        ensures
            final(self).wf(),
            final(self)@ == old(self)@.logged(*act, ZERO),
            order == old(self)@.order(*act),
    {
        self.log_trade(act, ZERO)
    }

    /// Commits a buy that the risk limits let pass.
    pub fn commit_buy(&mut self, act: &Act, target_price: u32) -> (order: OrderEntry)
        requires
            old(self).wf(),
            old(self).has_room(),
            old(self)@.risk(act.sequence) == Risk::Commit,
        ensures
            final(self).wf(),
            final(self)@ == old(self)@.bought(*act, target_price),
            order == old(self)@.order(*act),
    {
        let order = self.log_trade(act, target_price);
        self.net_position = self.net_position.wrapping_add(1);
        self.attempts = crate::wrap::increment(self.attempts);
        if self.pending.len() < PENDING_CAP {
            let due_ns: u64 = act.order_send_ns.wrapping_add(act.transit_est_ns);
            self.pending.push_back(Pending { slot: order.slot as usize, due_ns });
        }
        order
    }

    /// Resolves the fills that are due at a tick.
    pub fn resolve_fills(&mut self, price: u32, now_ns: u64)
        requires
            old(self).wf(),
        ensures
            final(self).wf(),
            final(self)@ == old(self)@.resolved(price, now_ns),
    {
        while self.pending.len() > 0 && now_ns >= self.pending[0].due_ns
            invariant
                self.wf(),
                self@.resolved(price, now_ns) == old(self)@.resolved(price, now_ns),
            decreases self.pending.len(),
        {
            let ghost before = self@;
            let slot: usize = self.pending[0].slot;
            self.trade_log.fill(slot, price);
            self.filled = crate::wrap::increment(self.filled);
            let _ = self.pending.pop_front();
            assert(self@ == before.fill_first(price));
        }
    }

    /// Counts a gap between two idle spins.
    pub fn count_stall(&mut self)
        requires
            old(self).wf(),
        ensures
            final(self).wf(),
            final(self)@ == (BookView {
                stall_count: crate::wrap::next(old(self)@.stall_count),
                ..old(self)@
            }),
    {
        self.stall_count = crate::wrap::increment(self.stall_count);
    }

    /// Takes over the signal and the volatility of a tick.
    pub fn note_signal(&mut self, signal: u32, vol: u32, sample: bool)
        requires
            old(self).wf(),
            old(self).has_room(),
        ensures
            final(self).wf(),
            final(self)@ == old(self)@.signalled(signal, vol, sample),
    {
        self.latest_signal = signal;
        self.vol_ema = vol;
        if sample {
            self.signal.sample(signal);
        }
    }

    /// Takes over the volatility of a tick.
    pub fn note_volatility(&mut self, vol: u32)
        requires
            old(self).wf(),
        ensures
            final(self).wf(),
            final(self)@ == (BookView { vol_ema: vol, ..old(self)@ }),
    {
        self.vol_ema = vol;
    }

    /// Opens a position of the trend model, on a signal.
    pub fn enter(&mut self, side: i64, signal: u32, act: &Act) -> (order: OrderEntry)
        requires
            old(self).wf(),
            old(self).has_room(),
        ensures
            final(self).wf(),
            final(self)@ == old(self)@.entered(side, signal, *act),
            order == old(self)@.order(*act),
    {
        let slot: usize = self.round_trips.next_slot();
        self.signal.enter(slot, signal);
        self.net_position = self.net_position.wrapping_add(side);
        self.log_trade(act, ZERO)
    }

    /// Opens a position of the reversion model.
    pub fn open(&mut self, side: i64, act: &Act) -> (order: OrderEntry)
        requires
            old(self).wf(),
            old(self).has_room(),
        ensures
            final(self).wf(),
            final(self)@ == old(self)@.opened(side, *act),
            order == old(self)@.order(*act),
    {
        self.net_position = self.net_position.wrapping_add(side);
        self.log_trade(act, ZERO)
    }

    /// Completes a round trip; a ruined account halts trading.
    pub fn exit(&mut self, rt: RoundTrip, ruined: bool, act: &Act) -> (order: OrderEntry)
        requires
            old(self).wf(),
            old(self).has_room(),
        ensures
            final(self).wf(),
            final(self)@ == old(self)@.exited(rt, ruined, *act),
            order == old(self)@.order(*act),
    {
        let order = self.log_trade(act, ZERO);
        self.round_trips.push(rt);
        self.net_position = self.net_position.wrapping_sub(rt.side);
        if ruined {
            self.halt = true;
        }
        order
    }
}

// What holds across many steps.
/// One step of the strategy on its book.
pub ghost enum Step {
    /// A tick resolves the fills that are due.
    Resolve { price: u32, now_ns: u64 },
    /// A buy was triggered: the risk limits are asked, and it is committed if they pass it.
    Buy { act: Act, target_price: u32 },
    /// The trend model opens a position.
    Enter { side: i64, signal: u32, act: Act },
    /// The reversion model opens a position.
    Open { side: i64, act: Act },
    /// A round trip is completed.
    Exit { rt: RoundTrip, ruined: bool, act: Act },
    /// The signal of a tick is taken over.
    Signal { signal: u32, vol: u32, sample: bool },
    /// A stall is counted.
    Stall,
    /// Trading is halted from outside the book.
    Halt,
}

impl BookView {
    /// The book after one step.
    pub open spec fn step(self, step: Step) -> BookView {
        match step {
            Step::Resolve { price, now_ns } => self.resolved(price, now_ns),
            Step::Buy { act, target_price } => if self.risk(act.sequence) == Risk::Commit {
                self.bought(act, target_price)
            } else {
                self.risk_checked(act.sequence)
            },
            Step::Enter { side, signal, act } => self.entered(side, signal, act),
            Step::Open { side, act } => self.opened(side, act),
            Step::Exit { rt, ruined, act } => self.exited(rt, ruined, act),
            Step::Signal { signal, vol, sample } => self.signalled(signal, vol, sample),
            Step::Stall => BookView { stall_count: crate::wrap::next(self.stall_count), ..self },
            Step::Halt => self.halted(),
        }
    }

    /// The book after a sequence of steps.
    pub open spec fn run(self, steps: Seq<Step>) -> BookView
        decreases steps.len(),
    {
        if steps.len() == 0 {
            self
        } else {
            self.run(steps.drop_last()).step(steps.last())
        }
    }
}

proof fn lemma_resolved(b: BookView, price: u32, now_ns: u64)
    ensures
        ({
            let r = b.resolved(price, now_ns);
            &&& r.halt == b.halt
            &&& r.net_position == b.net_position
            &&& r.attempts == b.attempts
            &&& r.log.written == b.log.written
            &&& r.pending.len() <= b.pending.len()
            &&& r.pending == b.pending.skip(b.pending.len() - r.pending.len())
            &&& r.hist == b.hist
            &&& r.round_trips == b.round_trips
            &&& r.signal == b.signal
            &&& b.filled + b.pending.len() <= u64::MAX ==> r.filled + r.pending.len() == b.filled
                + b.pending.len()
        }),
    decreases b.pending.len(),
{
    let r = b.resolved(price, now_ns);
    if b.pending.len() > 0 && now_ns >= b.pending[0].due_ns {
        let f = b.fill_first(price);
        lemma_resolved(f, price, now_ns);
        assert(r.pending == b.pending.skip(b.pending.len() - r.pending.len()));
    } else {
        assert(b.pending.skip(0) == b.pending);
    }
}

/// Halting is for good: no sequence of steps resumes trading.
pub proof fn law_halt_permanent(b: BookView, steps: Seq<Step>)
    requires
        b.halt,
    ensures
        b.run(steps).halt,
    decreases steps.len(),
{
    if steps.len() > 0 {
        law_halt_permanent(b, steps.drop_last());
        match steps.last() {
            Step::Resolve { price, now_ns } => {
                lemma_resolved(b.run(steps.drop_last()), price, now_ns);
            },
            _ => {},
        }
    }
}

/// Once trading has halted, nothing is bought any more: position, attempts and the number of
/// logged trades stay as they are, whatever is triggered.
pub proof fn law_no_buy_after_halt(b: BookView, steps: Seq<Step>)
    requires
        b.halt,
        forall|i: int| 0 <= i < steps.len() ==> buys_only(#[trigger] steps[i]),
    ensures
        ({
            let r = b.run(steps);
            &&& r.halt
            &&& r.net_position == b.net_position
            &&& r.attempts == b.attempts
            &&& r.log.written == b.log.written
            &&& r.hist == b.hist
        }),
    decreases steps.len(),
{
    if steps.len() > 0 {
        let before = steps.drop_last();
        assert forall|i: int| 0 <= i < before.len() implies buys_only(#[trigger] before[i]) by {
            assert(before[i] == steps[i]);
        }
        law_no_buy_after_halt(b, before);
        assert(buys_only(steps[steps.len() - 1]));
        match steps.last() {
            Step::Resolve { price, now_ns } => {
                lemma_resolved(b.run(before), price, now_ns);
            },
            _ => {},
        }
    }
}

/// A tick of the warmup commits nothing.
pub proof fn law_warmup_commits_nothing(b: BookView, act: Act, target_price: u32)
    requires
        act.sequence <= WARMUP_PACKETS,
    ensures
        b.step(Step::Buy { act, target_price }) == b,
{
}

/// A step that neither opens nor closes a position of a trading model.
pub open spec fn buys_only(step: Step) -> bool {
    !(step is Enter) && !(step is Open) && !(step is Exit)
}

/// Buying never takes the position beyond its limit.
pub proof fn law_position_limit(b: BookView, steps: Seq<Step>)
    requires
        0 <= b.net_position <= MAX_POSITION,
        forall|i: int| 0 <= i < steps.len() ==> buys_only(#[trigger] steps[i]),
    ensures
        b.net_position <= b.run(steps).net_position <= MAX_POSITION,
    decreases steps.len(),
{
    if steps.len() > 0 {
        let before = steps.drop_last();
        assert forall|i: int| 0 <= i < before.len() implies buys_only(#[trigger] before[i]) by {
            assert(before[i] == steps[i]);
        }
        law_position_limit(b, before);
        assert(buys_only(steps[steps.len() - 1]));
        match steps.last() {
            Step::Resolve { price, now_ns } => {
                lemma_resolved(b.run(before), price, now_ns);
            },
            _ => {},
        }
    }
}

/// At the position limit, a buy after the warmup halts trading.
pub proof fn law_limit_halts(b: BookView, act: Act, target_price: u32)
    requires
        b.net_position >= MAX_POSITION,
        act.sequence > WARMUP_PACKETS,
    ensures
        b.step(Step::Buy { act, target_price }).halt,
        b.step(Step::Buy { act, target_price }).log == b.log,
{
}

/// Only what was attempted is filled: filled buys and those on their way are together no
/// more than the attempts.
pub proof fn law_fills_attempted(b: BookView, steps: Seq<Step>)
    requires
        b.filled + b.pending.len() <= b.attempts,
        b.attempts + steps.len() <= u64::MAX,
    ensures
        b.run(steps).filled + b.run(steps).pending.len() <= b.run(steps).attempts,
        b.run(steps).attempts <= b.attempts + steps.len(),
    decreases steps.len(),
{
    if steps.len() > 0 {
        let before = steps.drop_last();
        law_fills_attempted(b, before);
        match steps.last() {
            Step::Resolve { price, now_ns } => {
                lemma_resolved(b.run(before), price, now_ns);
            },
            _ => {},
        }
    }
}

/// What a tick resolves is a front part of the fills on their way: oldest first, all of
/// it due, and the first that stays is not.
pub proof fn law_fills_in_order(b: BookView, price: u32, now_ns: u64)
    ensures
        ({
            let r = b.resolved(price, now_ns);
            let k = b.pending.len() - r.pending.len();
            &&& 0 <= k <= b.pending.len()
            &&& r.pending == b.pending.skip(k)
            &&& forall|i: int| 0 <= i < k ==> now_ns >= b.pending[i].due_ns
            &&& r.pending.len() > 0 ==> now_ns < r.pending[0].due_ns
        }),
    decreases b.pending.len(),
{
    lemma_resolved(b, price, now_ns);
    if b.pending.len() > 0 && now_ns >= b.pending[0].due_ns {
        let f = b.fill_first(price);
        law_fills_in_order(f, price, now_ns);
        let r = b.resolved(price, now_ns);
        let k = b.pending.len() - r.pending.len();
        assert forall|i: int| 0 <= i < k implies now_ns >= b.pending[i].due_ns by {
            if i > 0 {
                assert(f.pending[i - 1] == b.pending[i]);
            }
        }
    }
}

/// A tick fills the order at position `j` of those on their way exactly when this order
/// and all before it are due; else it leaves the trade as it is and the order on its way.
pub proof fn law_fill_exactly_when_due(b: BookView, j: int, price: u32, now_ns: u64)
    requires
        b.sized(),
        0 <= j < b.pending.len(),
        forall|i: int| 0 <= i < b.pending.len() && i != j ==> b.pending[i].slot != b.pending[j].slot,
    ensures
        ({
            let r = b.resolved(price, now_ns);
            let slot = b.pending[j].slot as int;
            if forall|i: int| 0 <= i <= j ==> now_ns >= b.pending[i].due_ns {
                &&& r.log.entries[slot] == (TradeExecution {
                    fill_price: price,
                    ..b.log.entries[slot]
                })
                &&& r.pending.len() < b.pending.len() - j
            } else {
                &&& r.log.entries[slot] == b.log.entries[slot]
                &&& r.pending.contains(b.pending[j])
            }
        }),
    decreases b.pending.len(),
{
    let r = b.resolved(price, now_ns);
    let slot = b.pending[j].slot as int;
    if now_ns >= b.pending[0].due_ns {
        let f = b.fill_first(price);
        assert forall|i: int| 0 <= i < f.pending.len() implies f.pending[i] == b.pending[i + 1] by {
        }
        if j == 0 {
            assert(f.log.entries[slot] == (TradeExecution {
                fill_price: price,
                ..b.log.entries[slot]
            }));
            lemma_untouched(f, slot, price, now_ns);
            lemma_resolved(f, price, now_ns);
        } else {
            assert(f.log.entries[slot] == b.log.entries[slot]);
            law_fill_exactly_when_due(f, j - 1, price, now_ns);
            if forall|i: int| 0 <= i <= j ==> now_ns >= b.pending[i].due_ns {
                assert forall|i: int| 0 <= i <= j - 1 implies now_ns >= f.pending[i].due_ns by {
                    assert(now_ns >= b.pending[i + 1].due_ns);
                }
            } else {
                let k = choose|k: int| 0 <= k <= j && !(now_ns >= b.pending[k].due_ns);
                assert(!(now_ns >= f.pending[k - 1].due_ns));
            }
        }
    } else {
        assert(b.pending.contains(b.pending[j]));
    }
}

proof fn lemma_untouched(b: BookView, slot: int, price: u32, now_ns: u64)
    requires
        b.sized(),
        0 <= slot < TRADE_LOG_SIZE,
        forall|i: int| 0 <= i < b.pending.len() ==> b.pending[i].slot != slot,
    ensures
        b.resolved(price, now_ns).log.entries[slot] == b.log.entries[slot],
    decreases b.pending.len(),
{
    if b.pending.len() > 0 && now_ns >= b.pending[0].due_ns {
        lemma_untouched(b.fill_first(price), slot, price, now_ns);
    }
}

/// A buy is filled at the first price at or after one transit behind its sending, and not
/// before; only orders ahead of it that are not due yet hold it up.
pub proof fn law_filled_one_transit_later(
    b: BookView,
    act: Act,
    target_price: u32,
    price: u32,
    now_ns: u64,
)
    requires
        b.sized(),
        b.log.written < u64::MAX,
        b.pending.len() < PENDING_CAP,
        act.order_send_ns + act.transit_est_ns <= u64::MAX,
        forall|i: int| 0 <= i < b.pending.len() ==> b.pending[i].slot != b.log.next(),
    ensures
        ({
            let after = b.bought(act, target_price).resolved(price, now_ns);
            let trade = after.log.entries[b.log.next()];
            let ahead = forall|i: int| 0 <= i < b.pending.len() ==> now_ns >= b.pending[i].due_ns;
            if now_ns >= act.order_send_ns + act.transit_est_ns && ahead {
                &&& trade == (TradeExecution { fill_price: price, ..act.trade(target_price) })
                &&& after.pending.len() == 0
            } else {
                &&& trade == act.trade(target_price)
                &&& after.pending.len() > 0
            }
        }),
{
    let n = b.log.next();
    let bought = b.bought(act, target_price);
    let j = b.pending.len() as int;
    assert(0 <= n < TRADE_LOG_SIZE);
    assert(bought.pending[j].slot == n);
    assert(bought.pending[j].due_ns == act.order_send_ns + act.transit_est_ns);
    assert(bought.log.entries[n] == act.trade(target_price));
    assert forall|i: int| 0 <= i < j implies bought.pending[i] == b.pending[i] by {
    }
    law_fill_exactly_when_due(bought, j, price, now_ns);
    let ahead = forall|i: int| 0 <= i < j ==> now_ns >= b.pending[i].due_ns;
    if now_ns >= act.order_send_ns + act.transit_est_ns && ahead {
        assert forall|i: int| 0 <= i <= j implies now_ns >= bought.pending[i].due_ns by {
            if i < j {
                assert(now_ns >= b.pending[i].due_ns);
            }
        }
    } else if forall|i: int| 0 <= i <= j ==> now_ns >= bought.pending[i].due_ns {
        assert(now_ns >= bought.pending[j].due_ns);
        assert forall|i: int| 0 <= i < j implies now_ns >= b.pending[i].due_ns by {
            assert(now_ns >= bought.pending[i].due_ns);
        }
    }
}

/// A round trip leaves the position where it was, whatever the side, and logs two trades.
pub proof fn law_round_trip_is_flat(
    b: BookView,
    side: i64,
    signal: u32,
    entry: Act,
    rt: RoundTrip,
    ruined: bool,
    exit: Act,
)
    requires
        rt.side == side,
        b.log.written + 2 <= u64::MAX,
        b.round_trips.written < u64::MAX,
    ensures
        ({
            let trend = b.entered(side, signal, entry).exited(rt, ruined, exit);
            let reversion = b.opened(side, entry).exited(rt, ruined, exit);
            &&& trend.net_position == b.net_position
            &&& reversion.net_position == b.net_position
            &&& trend.log.written == b.log.written + 2
            &&& reversion.log.written == b.log.written + 2
            &&& trend.round_trips.written == b.round_trips.written + 1
            &&& reversion.round_trips.written == b.round_trips.written + 1
        }),
{
}

proof fn lemma_holding(b: BookView, steps: Seq<Step>)
    requires
        forall|i: int| 0 <= i < steps.len() ==> buys_only(#[trigger] steps[i]),
    ensures
        b.run(steps).round_trips == b.round_trips,
        b.run(steps).signal.at_entry == b.signal.at_entry,
    decreases steps.len(),
{
    if steps.len() > 0 {
        let before = steps.drop_last();
        assert forall|i: int| 0 <= i < before.len() implies buys_only(#[trigger] before[i]) by {
            assert(before[i] == steps[i]);
        }
        lemma_holding(b, before);
        assert(buys_only(steps[steps.len() - 1]));
        match steps.last() {
            Step::Resolve { price, now_ns } => {
                lemma_resolved(b.run(before), price, now_ns);
            },
            _ => {},
        }
    }
}

/// The signal of an entry stands in the slot of the round trip that the entry begins,
/// however long the position is held.
pub proof fn law_signal_at_entry(
    b: BookView,
    side: i64,
    signal: u32,
    entry: Act,
    steps: Seq<Step>,
    rt: RoundTrip,
    ruined: bool,
    exit: Act,
)
    requires
        b.sized(),
        forall|i: int| 0 <= i < steps.len() ==> buys_only(#[trigger] steps[i]),
    ensures
        ({
            let after = b.entered(side, signal, entry).run(steps).exited(rt, ruined, exit);
            let slot = b.round_trips.next();
            &&& after.signal.at_entry[slot] == signal
            &&& after.round_trips.entries[slot] == rt
        }),
{
    lemma_holding(b.entered(side, signal, entry), steps);
}

/// A step logs at most one trade, and records a latency only with a trade.
pub proof fn law_log_grows(b: BookView, step: Step)
    requires
        b.log.written < u64::MAX,
    ensures
        b.log.written <= b.step(step).log.written <= b.log.written + 1,
        b.step(step).log.written == b.log.written ==> b.step(step).hist == b.hist,
{
    match step {
        Step::Resolve { price, now_ns } => {
            lemma_resolved(b, price, now_ns);
        },
        _ => {},
    }
}

/// What the risk limits say, case by case: the first ten ticks are the warmup; after it a
/// halt refuses everything, a position of 10,000 is the limit, and anything else may be
/// committed. Only the limit changes the book, and it changes nothing but the halt.
pub proof fn law_risk_limits(b: BookView, sequence: u64)
    ensures
        b.risk(sequence) == Risk::Warmup <==> sequence <= 10,
        b.risk(sequence) == Risk::Halted <==> sequence > 10 && b.halt,
        b.risk(sequence) == Risk::PositionLimit <==> sequence > 10 && !b.halt && b.net_position
            >= 10_000,
        b.risk(sequence) == Risk::Commit <==> sequence > 10 && !b.halt && b.net_position < 10_000,
        b.risk(sequence) != Risk::PositionLimit ==> b.risk_checked(sequence) == b,
        b.risk(sequence) == Risk::PositionLimit ==> b.risk_checked(sequence) == (BookView {
            halt: true,
            ..b
        }),
{
}

/// The trade of an act has the act's numbers and times, the time from ingest to decision as
/// its latency, the price that it aims at, and neither a fill nor a round trip yet.
pub proof fn law_trade_records_its_act(act: Act, target_price: u32)
    ensures
        ({
            let t = act.trade(target_price);
            &&& t.sequence == act.sequence
            &&& t.ingest_time_ns == act.ingest_time_ns
            &&& t.buy_time_ns == act.buy_time_ns
            &&& t.order_send_ns == act.order_send_ns
            &&& t.transit_est_ns == act.transit_est_ns
            &&& t.target_price == target_price
            &&& t.fill_price == 0
            &&& t.round_trip_ns == 0
            &&& act.ingest_time_ns <= act.buy_time_ns ==> act.ingest_time_ns + t.latency_ns
                == act.buy_time_ns
            &&& act.buy_time_ns < act.ingest_time_ns ==> t.latency_ns == 0
        }),
{
}

/// Every order of the book logs one trade in the slot that the order names, and records its
/// latency; everything that was logged before and still held stays.
pub proof fn law_orders_are_logged(
    b: BookView,
    act: Act,
    target_price: u32,
    side: i64,
    signal: u32,
    rt: RoundTrip,
    ruined: bool,
    other: int,
)
    requires
        b.sized(),
        b.log.written < u64::MAX,
        0 <= other < TRADE_LOG_SIZE,
        other != b.log.next(),
    ensures
        ({
            let o = b.order(act);
            let bought = b.bought(act, target_price);
            let entered = b.entered(side, signal, act);
            let opened = b.opened(side, act);
            let exited = b.exited(rt, ruined, act);
            &&& o.sequence == act.sequence
            &&& o.order_send_ns == act.order_send_ns
            &&& o.slot == b.log.written % 1024
            &&& bought.log.entries[o.slot as int] == act.trade(target_price)
            &&& entered.log.entries[o.slot as int] == act.trade(0)
            &&& opened.log.entries[o.slot as int] == act.trade(0)
            &&& exited.log.entries[o.slot as int] == act.trade(0)
            &&& bought.log.entries[other] == b.log.entries[other]
            &&& entered.log.entries[other] == b.log.entries[other]
            &&& opened.log.entries[other] == b.log.entries[other]
            &&& exited.log.entries[other] == b.log.entries[other]
            &&& bought.log.written == b.log.written + 1
            &&& bought.hist == b.hist.record(act.latency())
            &&& entered.hist == b.hist.record(act.latency())
            &&& opened.hist == b.hist.record(act.latency())
            &&& exited.hist == b.hist.record(act.latency())
        }),
{
}

/// A buy adds one to the position and to the attempts, and sends one fill on its way, due one
/// transit after its order was sent, behind those that are on theirs; a buy beyond the 256
/// that can be measured at a time is not measured.
pub proof fn law_buy_counts(b: BookView, act: Act, target_price: u32)
    requires
        b.net_position < 10_000,
        b.attempts < u64::MAX,
        b.sized(),
        act.order_send_ns + act.transit_est_ns <= u64::MAX,
    ensures
        ({
            let r = b.bought(act, target_price);
            &&& r.net_position == b.net_position + 1
            &&& r.attempts == b.attempts + 1
            &&& r.filled == b.filled
            &&& r.halt == b.halt
            &&& b.pending.len() < 256 ==> r.pending.len() == b.pending.len() + 1
                && r.pending.drop_last() == b.pending && r.pending.last().due_ns
                == act.order_send_ns + act.transit_est_ns && r.pending.last().slot
                == b.log.written % 1024
            &&& b.pending.len() == 256 ==> r.pending == b.pending
        }),
{
    assert(b.scheduled(act).drop_last() == b.pending || b.pending.len() == 256);
}

/// A position that a model opens moves the book by its side, and closing it moves it back; a
/// ruined account halts trading and any other exit leaves the halt as it is.
pub proof fn law_model_positions(
    b: BookView,
    side: i64,
    signal: u32,
    act: Act,
    rt: RoundTrip,
    ruined: bool,
)
    requires
        -1_000_000 <= b.net_position <= 1_000_000,
        -1 <= side <= 1,
        -1 <= rt.side <= 1,
    ensures
        b.entered(side, signal, act).net_position == b.net_position + side,
        b.opened(side, act).net_position == b.net_position + side,
        b.exited(rt, ruined, act).net_position == b.net_position - rt.side,
        b.exited(rt, ruined, act).halt <==> b.halt || ruined,
        b.entered(side, signal, act).halt == b.halt,
        b.opened(side, act).halt == b.halt,
        b.entered(side, signal, act).attempts == b.attempts,
        b.opened(side, act).pending == b.pending,
{
}

/// The signal and the volatility of a tick are kept as the latest, and the signal goes into
/// the series exactly if it is sampled.
pub proof fn law_signals_are_kept(b: BookView, signal: u32, vol: u32, sample: bool)
    ensures
        b.signalled(signal, vol, sample).latest_signal == signal,
        b.signalled(signal, vol, sample).vol_ema == vol,
        b.signalled(signal, vol, false).signal == b.signal,
        b.signalled(signal, vol, true).signal.series == b.signal.series.push(signal),
        b.signalled(signal, vol, sample).net_position == b.net_position,
        b.signalled(signal, vol, sample).log == b.log,
        b.signalled(signal, vol, sample).halt == b.halt,
{
}

/// All fills of a tick are at its price, and each is counted.
pub proof fn law_due_fills_resolve(b: BookView, price: u32, now_ns: u64)
    requires
        b.sized(),
        b.filled + b.pending.len() <= u64::MAX,
        forall|i: int| 0 <= i < b.pending.len() ==> now_ns >= (#[trigger] b.pending[i]).due_ns,
    ensures
        b.resolved(price, now_ns).pending.len() == 0,
        b.resolved(price, now_ns).filled == b.filled + b.pending.len(),
{
    lemma_resolved(b, price, now_ns);
    law_fills_in_order(b, price, now_ns);
    let r = b.resolved(price, now_ns);
    if r.pending.len() > 0 {
        let k = b.pending.len() - r.pending.len();
        assert(r.pending[0] == b.pending[k]);
        assert(now_ns >= b.pending[k].due_ns);
    }
}

} // verus!

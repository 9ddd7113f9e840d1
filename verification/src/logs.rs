//! Single-writer logs and rings: a fixed number of slots and a cursor that only grows.
//!
//! Entry number `i` stands in slot `i mod size`. A reader that is less than `size`
//! entries behind the writer therefore still finds what was written.

use vstd::prelude::*;
use crate::config::{
    BUFFER_SIZE, ORDER_RING_SIZE, ROUND_TRIP_LOG_SIZE, SIGNAL_SERIES_LEN, TRADE_LOG_SIZE,
};
use crate::packet::MarketTick;

verus! {

/// Slot of entry number `idx` in a ring of `size` slots.
pub open spec fn slot_of(idx: int, size: int) -> int {
    idx % size
}

/// The contents of a log: its slots, and how many entries were written so far.
#[verifier::ext_equal]
pub ghost struct LogView<T> {
    /// The slots.
    pub entries: Seq<T>,
    /// Number of entries written so far.
    pub written: u64,
}

impl<T> LogView<T> {
    /// Entry number `idx`, as far as it was not overwritten.
    pub open spec fn entry(self, idx: int) -> T {
        self.entries[slot_of(idx, self.entries.len() as int)]
    }

    /// Slot that the next entry will stand in.
    pub open spec fn next(self) -> int {
        slot_of(self.written as int, self.entries.len() as int)
    }

    /// The log after one more entry.
    pub open spec fn push(self, e: T) -> LogView<T> {
        LogView {
            entries: self.entries.update(self.next(), e),
            written: (self.written + 1) as u64,
        }
    }

    /// The log after a sequence of entries.
    pub open spec fn push_all(self, es: Seq<T>) -> LogView<T>
        decreases es.len(),
    {
        if es.len() == 0 {
            self
        } else {
            self.push_all(es.drop_last()).push(es.last())
        }
    }

    /// Number of slots that hold an entry.
    pub open spec fn held(self) -> int {
        if self.written < self.entries.len() {
            self.written as int
        } else {
            self.entries.len() as int
        }
    }

    /// The entries that the log holds, by slot.
    pub open spec fn contents(self) -> Seq<T> {
        self.entries.take(self.held())
    }
}

/// Writing an entry keeps the last ones before it, as many as there are slots but one.
pub proof fn law_log_keeps<T>(log: LogView<T>, e: T, idx: int)
    requires
        log.entries.len() > 0,
        log.written < u64::MAX,
        0 <= idx < log.written,
        log.written - idx < log.entries.len(),
    ensures
        log.push(e).entry(idx) == log.entry(idx),
        log.push(e).entry(log.written as int) == e,
        log.push(e).written == log.written + 1,
{
    law_slots_distinct(idx, log.written as int, log.entries.len() as int);
}

/// A reader that is no more entries behind than there are slots reads back every entry
/// that was written, in order.
pub proof fn law_ring_reads_back<T>(log: LogView<T>, es: Seq<T>, k: int)
    requires
        log.entries.len() > 0,
        0 <= k < es.len() <= log.entries.len(),
        log.written + es.len() <= u64::MAX,
    ensures
        log.push_all(es).entry(log.written + k) == es[k],
        log.push_all(es).written == log.written + es.len(),
    decreases es.len(),
{
    let before = log.push_all(es.drop_last());
    lemma_push_all(log, es.drop_last());
    if k < es.len() - 1 {
        law_ring_reads_back(log, es.drop_last(), k);
        law_log_keeps(before, es.last(), log.written + k);
    }
}

/// Writing a sequence of entries counts them and keeps the slots.
pub proof fn lemma_push_all<T>(log: LogView<T>, es: Seq<T>)
    requires
        log.entries.len() > 0,
        log.written + es.len() <= u64::MAX,
    ensures
        log.push_all(es).written == log.written + es.len(),
        log.push_all(es).entries.len() == log.entries.len(),
    decreases es.len(),
{
    if es.len() > 0 {
        lemma_push_all(log, es.drop_last());
    }
}

/// Entries that are less than a ring's size apart stand in different slots.
pub proof fn law_slots_distinct(i: int, j: int, size: int)
    requires
        0 <= i < j,
        j - i < size,
    ensures
        slot_of(i, size) != slot_of(j, size),
{
    vstd::arithmetic::div_mod::lemma_fundamental_div_mod(i, size);
    vstd::arithmetic::div_mod::lemma_fundamental_div_mod(j, size);
    if slot_of(i, size) == slot_of(j, size) {
        let a = i / size;
        let b = j / size;
        assert(j - i == size * (b - a)) by (nonlinear_arith)
            requires
                i == size * a + i % size,
                j == size * b + j % size,
                i % size == j % size,
        ;
        assert(false) by (nonlinear_arith)
            requires
                j - i == size * (b - a),
                0 < j - i < size,
        ;
    }
}

/// Ring of ticks from the ingestor to the strategy.
pub struct RingBuffer {
    /// The slots.
    pub ticks: Vec<MarketTick>,
    /// Number of the latest tick; 0 before the first.
    pub latest_idx: u64,
}

/// The tick of a slot that was never written.
pub open spec fn blank_tick() -> MarketTick {
    MarketTick {
        price: 0,
        volume: 0,
        sequence: 0,
        timestamp: 0,
        origin_ts_ns: 0,
        transit_est_ns: 0,
        bid: 0,
        ask: 0,
        mark_price: 0,
        funding_rate: 0,
    }
}

/// The slots of a ring after tick number `idx` was published.
pub open spec fn published(ticks: Seq<MarketTick>, idx: int, tick: MarketTick) -> Seq<MarketTick> {
    ticks.update(slot_of(idx, BUFFER_SIZE as int), tick)
}

impl RingBuffer {
    /// The ring has all its slots.
    pub open spec fn wf(&self) -> bool {
        self.ticks@.len() == BUFFER_SIZE
    }

    /// What tick number `idx` reads as.
    pub open spec fn tick(&self, idx: int) -> MarketTick {
        self.ticks@[slot_of(idx, BUFFER_SIZE as int)]
    }

    /// A ring without ticks.
    pub fn new() -> (ring: RingBuffer)
        ensures
            ring.wf(),
            ring.latest_idx == 0,
            ring.ticks@ == Seq::new(BUFFER_SIZE as nat, |i: int| blank_tick()),
    {
        let blank = MarketTick {
            price: 0,
            volume: 0,
            sequence: 0,
            timestamp: 0,
            origin_ts_ns: 0,
            transit_est_ns: 0,
            bid: 0,
            ask: 0,
            mark_price: 0,
            funding_rate: 0,
        };
        let mut ticks: Vec<MarketTick> = Vec::new();
        while ticks.len() < BUFFER_SIZE
            invariant
                ticks.len() <= BUFFER_SIZE,
                blank == blank_tick(),
                forall|i: int| 0 <= i < ticks@.len() ==> ticks@[i] == blank_tick(),
            decreases BUFFER_SIZE - ticks.len(),
        {
            ticks.push(blank);
        }
        RingBuffer { ticks, latest_idx: 0 }
    }

    /// Publishes a tick under a number.
    pub fn publish(&mut self, idx: u64, tick: MarketTick)
        requires
            old(self).wf(),
        ensures
            final(self).wf(),
            final(self).latest_idx == idx,
            final(self).ticks@ == published(old(self).ticks@, idx as int, tick),
    {
        let slot: usize = (idx % BUFFER_SIZE as u64) as usize;
        self.ticks.set(slot, tick);
        self.latest_idx = idx;
    }

    /// The latest tick.
    pub fn latest(&self) -> (tick: MarketTick)
        requires
            self.wf(),
        ensures
            tick == self.tick(self.latest_idx as int),
    {
        self.ticks[(self.latest_idx % BUFFER_SIZE as u64) as usize]
    }
}

/// Publishing a tick keeps the ones before it readable, as many as there are slots but one.
pub proof fn law_ticks_in_flight(before: RingBuffer, after: RingBuffer, tick: MarketTick, n: int, idx: int)
    requires
        before.wf(),
        0 <= idx < n,
        n - idx < BUFFER_SIZE,
        after.ticks@ == published(before.ticks@, n, tick),
    ensures
        after.tick(n) == tick,
        after.tick(idx) == before.tick(idx),
{
    law_slots_distinct(idx, n, BUFFER_SIZE as int);
}

/// One committed trade. Prices are bit patterns of binary32 numbers.
#[derive(Clone, Copy, Debug, PartialEq, Eq, Structural)]
pub struct TradeExecution {
    /// Sequence of the tick that was acted on.
    pub sequence: u64,
    /// When that tick was ingested.
    pub ingest_time_ns: u64,
    /// When the decision to buy fell.
    pub buy_time_ns: u64,
    /// From ingest to decision.
    pub latency_ns: u64,
    /// When the order was sent.
    pub order_send_ns: u64,
    /// From sending to confirmation; 0 until confirmed.
    pub round_trip_ns: u64,
    /// One-way transit estimate of the tick; 0 if the feed gave none.
    pub transit_est_ns: u64,
    /// Price that the order aimed at; 0 if slippage is not measured.
    pub target_price: u32,
    /// Market price one transit later; 0 until filled.
    pub fill_price: u32,
}

/// The trade of a slot that was never written.
pub open spec fn blank_trade() -> TradeExecution {
    TradeExecution {
        sequence: 0,
        ingest_time_ns: 0,
        buy_time_ns: 0,
        latency_ns: 0,
        order_send_ns: 0,
        round_trip_ns: 0,
        transit_est_ns: 0,
        target_price: 0,
        fill_price: 0,
    }
}

/// Log of committed trades. The strategy alone advances its cursor.
pub struct TradeLog {
    /// The slots.
    pub entries: Vec<TradeExecution>,
    /// Number of trades committed so far.
    pub write_idx: u64,
}

impl View for TradeLog {
    type V = LogView<TradeExecution>;

    open spec fn view(&self) -> LogView<TradeExecution> {
        LogView { entries: self.entries@, written: self.write_idx }
    }
}

/// A log of the given size in which nothing was written.
pub open spec fn empty_log<T>(size: nat, blank: T) -> LogView<T> {
    LogView { entries: Seq::new(size, |i: int| blank), written: 0 }
}

/// The log with the fill price of a slot recorded.
pub open spec fn filled(log: LogView<TradeExecution>, slot: int, price: u32) -> LogView<
    TradeExecution,
> {
    LogView {
        entries: log.entries.update(
            slot,
            TradeExecution { fill_price: price, ..log.entries[slot] },
        ),
        ..log
    }
}

/// The log with the round trip of a slot recorded.
pub open spec fn confirmed(log: LogView<TradeExecution>, slot: int, ns: u64) -> LogView<
    TradeExecution,
> {
    LogView {
        entries: log.entries.update(
            slot,
            TradeExecution { round_trip_ns: ns, ..log.entries[slot] },
        ),
        ..log
    }
}

impl TradeLog {
    /// The log has all its slots.
    pub open spec fn wf(&self) -> bool {
        self@.entries.len() == TRADE_LOG_SIZE
    }

    /// An empty log.
    pub fn new() -> (log: TradeLog)
        ensures
            log.wf(),
            log@ == empty_log(TRADE_LOG_SIZE as nat, blank_trade()),
    {
        let blank = TradeExecution {
            sequence: 0,
            ingest_time_ns: 0,
            buy_time_ns: 0,
            latency_ns: 0,
            order_send_ns: 0,
            round_trip_ns: 0,
            transit_est_ns: 0,
            target_price: 0,
            fill_price: 0,
        };
        let mut entries: Vec<TradeExecution> = Vec::new();
        while entries.len() < TRADE_LOG_SIZE
            invariant
                entries.len() <= TRADE_LOG_SIZE,
                blank == blank_trade(),
                forall|i: int| 0 <= i < entries@.len() ==> entries@[i] == blank_trade(),
            decreases TRADE_LOG_SIZE - entries.len(),
        {
            entries.push(blank);
        }
        TradeLog { entries, write_idx: 0 }
    }

    /// Number of slots that hold a trade.
    pub fn count(&self) -> (n: usize)
        ensures
            self.wf() ==> n == self@.held(),
    {
        if self.write_idx < TRADE_LOG_SIZE as u64 {
            self.write_idx as usize
        } else {
            TRADE_LOG_SIZE
        }
    }

    /// Commits a trade and tells its slot.
    pub fn push(&mut self, trade: TradeExecution) -> (slot: usize)
        requires
            old(self).wf(),
            old(self).write_idx < u64::MAX,
        ensures
            final(self).wf(),
            final(self)@ == old(self)@.push(trade),
            slot == old(self)@.next(),
            slot < TRADE_LOG_SIZE,
    {
        let slot: usize = (self.write_idx % TRADE_LOG_SIZE as u64) as usize;
        self.entries.set(slot, trade);
        self.write_idx = self.write_idx + 1;
        slot
    }

    /// Records the fill price of the trade in a slot.
    pub fn fill(&mut self, slot: usize, price: u32)
        requires
            old(self).wf(),
            slot < TRADE_LOG_SIZE,
        ensures
            final(self).wf(),
            final(self)@ == filled(old(self)@, slot as int, price),
    {
        let mut trade = self.entries[slot];
        trade.fill_price = price;
        self.entries.set(slot, trade);
    }

    /// Records the round trip of the trade in a slot.
    pub fn confirm(&mut self, slot: usize, round_trip_ns: u64)
        requires
            old(self).wf(),
            slot < TRADE_LOG_SIZE,
        ensures
            final(self).wf(),
            final(self)@ == confirmed(old(self)@, slot as int, round_trip_ns),
    {
        let mut trade = self.entries[slot];
        trade.round_trip_ns = round_trip_ns;
        self.entries.set(slot, trade);
    }
}

/// One order on its way from the strategy to the exchange.
#[derive(Clone, Copy, Debug, PartialEq, Eq, Structural)]
pub struct OrderEntry {
    /// Sequence of the tick that was acted on.
    pub sequence: u64,
    /// Slot of the trade log that the order belongs to.
    pub slot: u64,
    /// When the order was sent.
    pub order_send_ns: u64,
}

/// Ring of orders from the strategy to the exchange.
pub struct OrderRing {
    /// The slots.
    pub entries: Vec<OrderEntry>,
    /// Number of orders submitted so far.
    pub write_idx: u64,
}

impl View for OrderRing {
    type V = LogView<OrderEntry>;

    open spec fn view(&self) -> LogView<OrderEntry> {
        LogView { entries: self.entries@, written: self.write_idx }
    }
}

/// The order of a slot that was never written.
pub open spec fn blank_order() -> OrderEntry {
    OrderEntry { sequence: 0, slot: 0, order_send_ns: 0 }
}

/// The next order for a reader that has taken `read_idx` orders, if there is one.
pub open spec fn unread(ring: LogView<OrderEntry>, read_idx: u64) -> Option<OrderEntry> {
    if ring.written > read_idx {
        Some(ring.entry(read_idx as int))
    } else {
        None
    }
}

/// Orders are taken in the order in which they were submitted, each once, as long as the
/// reader is not further behind than the ring has slots; a reader that has taken all finds
/// none.
pub proof fn law_orders_are_taken_in_order(ring: LogView<OrderEntry>, orders: Seq<OrderEntry>, k: int)
    requires
        ring.entries.len() > 0,
        0 <= k <= orders.len() <= ring.entries.len(),
        ring.written + orders.len() <= u64::MAX,
    ensures
        k < orders.len() ==> unread(ring.push_all(orders), (ring.written + k) as u64) == Some(
            orders[k],
        ),
        k == orders.len() ==> unread(ring.push_all(orders), (ring.written + k) as u64) is None,
{
    lemma_push_all(ring, orders);
    if k < orders.len() {
        law_ring_reads_back(ring, orders, k);
    }
}

impl OrderRing {
    /// The ring has all its slots.
    pub open spec fn wf(&self) -> bool {
        self@.entries.len() == ORDER_RING_SIZE
    }

    /// An empty ring.
    pub fn new() -> (ring: OrderRing)
        ensures
            ring.wf(),
            ring@ == empty_log(ORDER_RING_SIZE as nat, blank_order()),
    {
        let blank = OrderEntry { sequence: 0, slot: 0, order_send_ns: 0 };
        let mut entries: Vec<OrderEntry> = Vec::new();
        while entries.len() < ORDER_RING_SIZE
            invariant
                entries.len() <= ORDER_RING_SIZE,
                forall|i: int| 0 <= i < entries@.len() ==> entries@[i] == blank,
            decreases ORDER_RING_SIZE - entries.len(),
        {
            entries.push(blank);
        }
        OrderRing { entries, write_idx: 0 }
    }

    /// Submits an order.
    pub fn push(&mut self, order: OrderEntry)
        requires
            old(self).wf(),
            old(self).write_idx < u64::MAX,
        ensures
            final(self).wf(),
            final(self)@ == old(self)@.push(order),
    {
        let slot: usize = (self.write_idx % ORDER_RING_SIZE as u64) as usize;
        self.entries.set(slot, order);
        self.write_idx = self.write_idx + 1;
    }

    /// The next order for a reader that has taken `read_idx` orders, if there is one.
    pub fn next(&self, read_idx: u64) -> (order: Option<OrderEntry>)
        requires
            self.wf(),
        ensures
            order == unread(self@, read_idx),
    {
        if self.write_idx > read_idx {
            Some(self.entries[(read_idx % ORDER_RING_SIZE as u64) as usize])
        } else {
            None
        }
    }
}

/// One completed round trip. All but times and side are bit patterns of binary32 numbers.
#[derive(Clone, Copy, Debug, PartialEq, Eq, Structural)]
pub struct RoundTrip {
    /// When the position was opened.
    pub entry_time_ns: u64,
    /// When it was closed.
    pub exit_time_ns: u64,
    /// What spread and slippage cost, in basis points.
    pub spread_cost_bps: u32,
    /// 1 for a long position, -1 for a short one.
    pub side: i64,
    /// Fill of the entry.
    pub entry_price: u32,
    /// Fill of the exit.
    pub exit_price: u32,
    /// Units held.
    pub size: u32,
    /// Favourable move before fees, in basis points.
    pub gross_bps: u32,
    /// Favourable move after fees, in basis points.
    pub net_bps: u32,
    /// Profit after fees, in quote currency.
    pub pnl_quote: u32,
    /// Fees of both sides, in quote currency.
    pub fees_quote: u32,
    /// 1 if the position was liquidated, else 0.
    pub flags: u32,
}

impl RoundTrip {
    /// How long the position was held.
    pub open spec fn hold(&self) -> int {
        if self.exit_time_ns >= self.entry_time_ns {
            self.exit_time_ns - self.entry_time_ns
        } else {
            0
        }
    }

    /// How long the position was held.
    pub fn hold_ns(&self) -> (ns: u64)
        ensures
            ns == self.hold(),
    {
        self.exit_time_ns.saturating_sub(self.entry_time_ns)
    }
}

/// Log of completed round trips.
pub struct RoundTripLog {
    /// The slots.
    pub entries: Vec<RoundTrip>,
    /// Number of round trips committed so far.
    pub write_idx: u64,
}

/// The round trip of a slot that was never written.
pub open spec fn blank_round_trip() -> RoundTrip {
    RoundTrip {
        entry_time_ns: 0,
        exit_time_ns: 0,
        spread_cost_bps: 0,
        side: 0,
        entry_price: 0,
        exit_price: 0,
        size: 0,
        gross_bps: 0,
        net_bps: 0,
        pnl_quote: 0,
        fees_quote: 0,
        flags: 0,
    }
}

impl View for RoundTripLog {
    type V = LogView<RoundTrip>;

    open spec fn view(&self) -> LogView<RoundTrip> {
        LogView { entries: self.entries@, written: self.write_idx }
    }
}

impl RoundTripLog {
    /// The log has all its slots.
    pub open spec fn wf(&self) -> bool {
        self@.entries.len() == ROUND_TRIP_LOG_SIZE
    }

    /// An empty log.
    pub fn new() -> (log: RoundTripLog)
        ensures
            log.wf(),
            log@ == empty_log(ROUND_TRIP_LOG_SIZE as nat, blank_round_trip()),
    {
        let blank = RoundTrip {
            entry_time_ns: 0,
            exit_time_ns: 0,
            spread_cost_bps: 0,
            side: 0,
            entry_price: 0,
            exit_price: 0,
            size: 0,
            gross_bps: 0,
            net_bps: 0,
            pnl_quote: 0,
            fees_quote: 0,
            flags: 0,
        };
        let mut entries: Vec<RoundTrip> = Vec::new();
        while entries.len() < ROUND_TRIP_LOG_SIZE
            invariant
                entries.len() <= ROUND_TRIP_LOG_SIZE,
                blank == blank_round_trip(),
                forall|i: int| 0 <= i < entries@.len() ==> entries@[i] == blank_round_trip(),
            decreases ROUND_TRIP_LOG_SIZE - entries.len(),
        {
            entries.push(blank);
        }
        RoundTripLog { entries, write_idx: 0 }
    }

    /// Number of slots that hold a round trip.
    pub fn count(&self) -> (n: usize)
        ensures
            self.wf() ==> n == self@.held(),
    {
        if self.write_idx < ROUND_TRIP_LOG_SIZE as u64 {
            self.write_idx as usize
        } else {
            ROUND_TRIP_LOG_SIZE
        }
    }

    /// Slot that the next round trip will stand in.
    pub fn next_slot(&self) -> (slot: usize)
        ensures
            self.wf() ==> slot == self@.next(),
            slot < ROUND_TRIP_LOG_SIZE,
    {
        (self.write_idx % ROUND_TRIP_LOG_SIZE as u64) as usize
    }

    /// Commits a round trip.
    pub fn push(&mut self, rt: RoundTrip)
        requires
            old(self).wf(),
            old(self).write_idx < u64::MAX,
        ensures
            final(self).wf(),
            final(self)@ == old(self)@.push(rt),
    {
        let slot = self.next_slot();
        self.entries.set(slot, rt);
        self.write_idx = self.write_idx + 1;
    }
}

/// The composite signal over time, and at the entry of each round trip (bit patterns).
pub struct SignalLog {
    /// Every eighth value of the signal, in a ring.
    pub series: Vec<u32>,
    /// Number of values sampled so far.
    pub series_idx: u64,
    /// The signal at the entry of the round trip of each slot.
    pub at_entry: Vec<u32>,
}

/// The contents of a signal log.
#[verifier::ext_equal]
pub ghost struct SignalView {
    /// Every eighth value of the signal.
    pub series: LogView<u32>,
    /// The signal at the entry of the round trip of each slot.
    pub at_entry: Seq<u32>,
}

impl View for SignalLog {
    type V = SignalView;

    open spec fn view(&self) -> SignalView {
        SignalView {
            series: LogView { entries: self.series@, written: self.series_idx },
            at_entry: self.at_entry@,
        }
    }
}

impl SignalLog {
    /// The log has all its slots.
    pub open spec fn wf(&self) -> bool {
        self@.series.entries.len() == SIGNAL_SERIES_LEN && self@.at_entry.len()
            == ROUND_TRIP_LOG_SIZE
    }

    /// An empty log.
    pub fn new() -> (log: SignalLog)
        ensures
            log.wf(),
            log@ == (SignalView {
                series: empty_log(SIGNAL_SERIES_LEN as nat, 0u32),
                at_entry: Seq::new(ROUND_TRIP_LOG_SIZE as nat, |i: int| 0u32),
            }),
    {
        let mut series: Vec<u32> = Vec::new();
        while series.len() < SIGNAL_SERIES_LEN
            invariant
                series.len() <= SIGNAL_SERIES_LEN,
                forall|i: int| 0 <= i < series@.len() ==> series@[i] == 0,
            decreases SIGNAL_SERIES_LEN - series.len(),
        {
            series.push(0);
        }
        let mut at_entry: Vec<u32> = Vec::new();
        while at_entry.len() < ROUND_TRIP_LOG_SIZE
            invariant
                at_entry.len() <= ROUND_TRIP_LOG_SIZE,
                forall|i: int| 0 <= i < at_entry@.len() ==> at_entry@[i] == 0,
            decreases ROUND_TRIP_LOG_SIZE - at_entry.len(),
        {
            at_entry.push(0);
        }
        SignalLog { series, series_idx: 0, at_entry }
    }

    /// Number of slots of the series that hold a value.
    pub fn count(&self) -> (n: usize)
        ensures
            self.wf() ==> n == self@.series.held(),
    {
        if self.series_idx < SIGNAL_SERIES_LEN as u64 {
            self.series_idx as usize
        } else {
            SIGNAL_SERIES_LEN
        }
    }

    /// Appends a value to the series.
    pub fn sample(&mut self, signal: u32)
        requires
            old(self).wf(),
            old(self).series_idx < u64::MAX,
        ensures
            final(self).wf(),
            final(self)@ == (SignalView {
                series: old(self)@.series.push(signal),
                ..old(self)@
            }),
    {
        let slot: usize = (self.series_idx % SIGNAL_SERIES_LEN as u64) as usize;
        self.series.set(slot, signal);
        self.series_idx = self.series_idx + 1;
    }

    /// Records the signal at the entry of the round trip of a slot.
    pub fn enter(&mut self, slot: usize, signal: u32)
        requires
            old(self).wf(),
            slot < ROUND_TRIP_LOG_SIZE,
        ensures
            final(self).wf(),
            final(self)@ == (SignalView {
                at_entry: old(self)@.at_entry.update(slot as int, signal),
                ..old(self)@
            }),
    {
        self.at_entry.set(slot, signal);
    }
}

/// A slot lies in its ring, the next entry stands in the next slot, and behind the last slot
/// comes the first.
pub proof fn law_slots_go_round(idx: int, size: int)
    requires
        idx >= 0,
        size > 0,
    ensures
        0 <= slot_of(idx, size) < size,
        idx < size ==> slot_of(idx, size) == idx,
        slot_of(idx, size) + 1 < size ==> slot_of(idx + 1, size) == slot_of(idx, size) + 1,
        slot_of(idx, size) + 1 == size ==> slot_of(idx + 1, size) == 0,
        slot_of(idx + size, size) == slot_of(idx, size),
{
    vstd::arithmetic::div_mod::lemma_mod_bound(idx, size);
    if idx < size {
        vstd::arithmetic::div_mod::lemma_small_mod(idx as nat, size as nat);
    }
    vstd::arithmetic::div_mod::lemma_add_mod_noop(idx, 1, size);
    vstd::arithmetic::div_mod::lemma_mod_add_multiples_vanish(idx, size);
    vstd::arithmetic::div_mod::lemma_fundamental_div_mod(idx, size);
    let q = idx / size;
    let r = idx % size;
    if r + 1 < size {
        vstd::arithmetic::div_mod::lemma_fundamental_div_mod_converse(idx + 1, size, q, r + 1);
    } else {
        assert(idx + 1 == (q + 1) * size + 0) by (nonlinear_arith)
            requires
                idx == size * q + r,
                r + 1 == size,
        ;
        vstd::arithmetic::div_mod::lemma_fundamental_div_mod_converse(idx + 1, size, q + 1, 0);
    }
}

/// A log that has not gone round holds exactly what was written, in order; one that has holds
/// as many entries as it has slots.
pub proof fn law_log_contents<T>(size: nat, blank: T, es: Seq<T>)
    requires
        size > 0,
        es.len() <= u64::MAX,
    ensures
        ({
            let log = empty_log(size, blank).push_all(es);
            &&& es.len() <= size ==> log.contents() == es
            &&& es.len() >= size ==> log.contents().len() == size
            &&& forall|k: int|
                0 <= k < es.len() && es.len() - k <= size ==> #[trigger] log.entry(k) == es[k]
        }),
    decreases es.len(),
{
    let start = empty_log(size, blank);
    let log = start.push_all(es);
    lemma_push_all(start, es);
    if es.len() == 0 {
        assert(log.contents() == es);
    } else {
        let head = es.drop_last();
        law_log_contents(size, blank, head);
        lemma_push_all(start, head);
        let before = start.push_all(head);
        let n = es.len() - 1;
        assert forall|k: int| 0 <= k < es.len() && es.len() - k <= size implies #[trigger] log.entry(
            k,
        ) == es[k] by {
            if k < n {
                law_log_keeps(before, es.last(), k);
                assert(before.entry(k) == head[k]);
            }
        }
        if es.len() <= size {
            law_slots_go_round(n, size as int);
            assert forall|k: int| 0 <= k < es.len() implies log.contents()[k] == es[k] by {
                law_slots_go_round(k, size as int);
                assert(log.entry(k) == es[k]);
            }
            assert(log.contents() == es);
        }
    }
}

/// A fill and a confirmation each change one field of one trade and nothing else.
pub proof fn law_fills_and_confirmations(
    log: LogView<TradeExecution>,
    slot: int,
    price: u32,
    ns: u64,
    other: int,
)
    requires
        0 <= slot < log.entries.len(),
        0 <= other < log.entries.len(),
    ensures
        filled(log, slot, price).entries[slot].fill_price == price,
        confirmed(log, slot, ns).entries[slot].round_trip_ns == ns,
        filled(log, slot, price).entries[slot].round_trip_ns == log.entries[slot].round_trip_ns,
        filled(log, slot, price).entries[slot].target_price == log.entries[slot].target_price,
        filled(log, slot, price).entries[slot].latency_ns == log.entries[slot].latency_ns,
        confirmed(log, slot, ns).entries[slot].fill_price == log.entries[slot].fill_price,
        confirmed(log, slot, ns).entries[slot].latency_ns == log.entries[slot].latency_ns,
        filled(confirmed(log, slot, ns), slot, price) == confirmed(
            filled(log, slot, price),
            slot,
            ns,
        ),
        other != slot ==> filled(log, slot, price).entries[other] == log.entries[other]
            && confirmed(log, slot, ns).entries[other] == log.entries[other],
        filled(log, slot, price).written == log.written,
        confirmed(log, slot, ns).written == log.written,
{
    assert(filled(confirmed(log, slot, ns), slot, price).entries == confirmed(
        filled(log, slot, price),
        slot,
        ns,
    ).entries);
}

/// A position is held from its entry to its exit.
pub proof fn law_hold_time(rt: RoundTrip)
    ensures
        rt.entry_time_ns <= rt.exit_time_ns ==> rt.entry_time_ns + rt.hold() == rt.exit_time_ns,
        rt.exit_time_ns < rt.entry_time_ns ==> rt.hold() == 0,
{
}

} // verus!

//! The in-process exchange: it confirms orders in the order in which they were submitted.

use vstd::prelude::*;
use crate::config::{MIN_ORDER_PACKET_SIZE, ORDER_RING_SIZE, TRADE_LOG_SIZE};
use crate::histogram::LatencyHistogram;
use crate::logs::OrderEntry;

verus! {

/// The exchange's cursor and the round trips it measured.
pub struct Exchange {
    /// Number of orders confirmed so far.
    pub read_idx: u64,
    /// Round trips of the confirmed orders.
    pub rt_hist: LatencyHistogram,
}

/// What the exchange reports of an order.
#[derive(Clone, Copy, Debug, PartialEq, Eq, Structural)]
pub struct Confirmation {
    /// Slot of the trade log that the order belongs to.
    pub slot: usize,
    /// From sending to confirmation.
    pub round_trip_ns: u64,
}

/// What is reported of an order that is confirmed at `now_ns`.
pub open spec fn confirmation(order: OrderEntry, now_ns: u64) -> Confirmation {
    Confirmation {
        slot: (order.slot % TRADE_LOG_SIZE as u64) as usize,
        round_trip_ns: crate::book::minus(now_ns, order.order_send_ns),
    }
}

/// The slot of the order ring that the next order stands in, if more were submitted than
/// confirmed.
pub open spec fn waiting(read_idx: u64, write_idx: u64) -> Option<usize> {
    if write_idx > read_idx {
        Some(crate::logs::slot_of(read_idx as int, ORDER_RING_SIZE as int) as usize)
    } else {
        None
    }
}

/// An order waits exactly if more were submitted than confirmed, and stands where the ring
/// keeps the first of them.
pub proof fn law_waiting_orders(ring: crate::logs::LogView<OrderEntry>, read_idx: u64)
    requires
        ring.entries.len() == 1024,
    ensures
        waiting(read_idx, ring.written) is Some <==> read_idx < ring.written,
        waiting(read_idx, ring.written) matches Some(slot) ==> slot == read_idx % 1024
            && crate::logs::unread(ring, read_idx) == Some(ring.entries[slot as int]),
{
}

impl Exchange {
    /// The histogram holds one round trip per confirmed order.
    pub open spec fn wf(&self) -> bool {
        self.rt_hist.wf() && self.rt_hist.observations() == self.read_idx
    }

    /// An exchange that has confirmed nothing.
    pub fn new() -> (e: Exchange)
        ensures
            e.wf(),
            e.read_idx == 0,
            e.rt_hist@ == crate::histogram::empty_histogram(),
    {
        Exchange { read_idx: 0, rt_hist: LatencyHistogram::new() }
    }

    /// The slot of the order ring that the next order stands in, if one was submitted.
    pub fn next_slot(&self, write_idx: u64) -> (slot: Option<usize>)
        ensures
            slot == waiting(self.read_idx, write_idx),
    {
        if write_idx > self.read_idx {
            Some((self.read_idx % ORDER_RING_SIZE as u64) as usize)
        } else {
            None
        }
    }

    /// Confirms the next order at `now_ns`.
    pub fn confirm(&mut self, order: &OrderEntry, now_ns: u64) -> (c: Confirmation)
        requires
            old(self).wf(),
            old(self).read_idx < u64::MAX,
        ensures
            final(self).wf(),
            c == confirmation(*order, now_ns),
            c.slot < TRADE_LOG_SIZE,
            final(self).read_idx == old(self).read_idx + 1,
            final(self).rt_hist@ == old(self).rt_hist@.record(c.round_trip_ns),
    {
        let slot: usize = (order.slot % TRADE_LOG_SIZE as u64) as usize;
        let round_trip_ns: u64 = now_ns.saturating_sub(order.order_send_ns);
        self.rt_hist.record(round_trip_ns);
        self.read_idx = self.read_idx + 1;
        Confirmation { slot, round_trip_ns }
    }
}

/// A packet to the standalone exchange is an order.
pub open spec fn holds_order(len: int) -> bool {
    len >= MIN_ORDER_PACKET_SIZE
}

/// A packet is an order exactly if it has room for three numbers of eight bytes.
pub proof fn law_order_packets(len: int)
    ensures
        holds_order(len) <==> len >= 3 * 8,
{
}

/// Whether a packet to the standalone exchange is an order; shorter ones keep the path warm.
pub fn is_order_packet(len: usize) -> (r: bool)
    ensures
        r == holds_order(len as int),
{
    len >= MIN_ORDER_PACKET_SIZE
}

/// An order is confirmed in the slot of its trade, and changes nothing there but the round
/// trip, as long as fewer trades were logged since than the log has slots.
pub proof fn law_confirmation_finds_trade(
    b: crate::book::BookView,
    act: crate::book::Act,
    target_price: u32,
    later: Seq<crate::logs::TradeExecution>,
    now_ns: u64,
)
    requires
        b.sized(),
        later.len() < TRADE_LOG_SIZE,
        b.log.written + 1 + later.len() <= u64::MAX,
    ensures
        ({
            let c = confirmation(b.order(act), now_ns);
            let log = b.log.push_all(seq![act.trade(target_price)] + later);
            crate::logs::confirmed(log, c.slot as int, c.round_trip_ns).entry(b.log.written as int)
                == (crate::logs::TradeExecution {
                round_trip_ns: crate::book::minus(now_ns, act.order_send_ns),
                ..act.trade(target_price)
            })
        }),
{
    let n = b.log.next();
    let c = confirmation(b.order(act), now_ns);
    let trades = seq![act.trade(target_price)] + later;
    let log = b.log.push_all(trades);
    assert(0 <= n < TRADE_LOG_SIZE);
    assert(b.order(act).slot == n);
    vstd::arithmetic::div_mod::lemma_small_mod(n as nat, TRADE_LOG_SIZE as nat);
    assert(c.slot == n);
    crate::logs::lemma_push_all(b.log, trades);
    crate::logs::law_ring_reads_back(b.log, trades, 0);
    assert(trades[0] == act.trade(target_price));
    assert(log.entry(b.log.written as int) == log.entries[n]);
}

/// The round trip of an order runs from its sending to its confirmation, and is reported for
/// the slot that the order names.
pub proof fn law_round_trip_is_measured(order: OrderEntry, now_ns: u64)
    ensures
        order.order_send_ns <= now_ns ==> order.order_send_ns + confirmation(
            order,
            now_ns,
        ).round_trip_ns == now_ns,
        now_ns < order.order_send_ns ==> confirmation(order, now_ns).round_trip_ns == 0,
        order.slot < 1024 ==> confirmation(order, now_ns).slot == order.slot,
        confirmation(order, now_ns).slot < 1024,
{
}

} // verus!

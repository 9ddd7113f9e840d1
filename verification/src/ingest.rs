//! The ingestor's decisions: where a packet goes, whether the feed has a gap, and what
//! range prices and spreads have covered.

use vstd::prelude::*;
use crate::config::{BUFFER_SIZE, INGEST_PACKET_SIZE_V4};
use crate::ieee::{is_finite, is_le, is_lt, is_positive, INFINITY, NEG_INFINITY, ZERO};
use crate::packet::{decode, instrument, MarketTick};

verus! {

/// What was observed on the traded instrument. All but the count are bit patterns of
/// binary32 numbers; the ranges start out empty, from infinity down to its negation.
#[derive(Clone, Copy, Debug, PartialEq, Eq, Structural)]
pub struct FeedStats {
    /// Sequence gaps, modulo 2^64.
    pub gap_count: u64,
    /// Lowest finite price.
    pub price_lo: u32,
    /// Highest finite price.
    pub price_hi: u32,
    /// Narrowest spread, in basis points.
    pub spread_lo: u32,
    /// Widest spread, in basis points.
    pub spread_hi: u32,
    /// Latest finite funding rate.
    pub funding: u32,
}

/// The smaller of a bound and a value; the bound if they cannot be compared.
pub open spec fn lowered_to(bound: u32, value: u32) -> u32 {
    if crate::ieee::lt(value, bound) {
        value
    } else {
        bound
    }
}

/// The larger of a bound and a value; the bound if they cannot be compared.
pub open spec fn raised_to(bound: u32, value: u32) -> u32 {
    if crate::ieee::lt(bound, value) {
        value
    } else {
        bound
    }
}

/// A quote whose spread counts: bid and mid are positive, and the ask is not below the bid.
pub open spec fn usable_quote(bid: u32, ask: u32, mid: u32) -> bool {
    crate::ieee::positive(mid) && crate::ieee::positive(bid) && crate::ieee::le(bid, ask)
}

impl FeedStats {
    /// The statistics after a price of the traded instrument.
    pub open spec fn with_price(self, price: u32) -> FeedStats {
        if crate::ieee::finite(price) {
            FeedStats {
                price_lo: lowered_to(self.price_lo, price),
                price_hi: raised_to(self.price_hi, price),
                ..self
            }
        } else {
            self
        }
    }

    /// The statistics after a quote whose mid and spread were computed.
    pub open spec fn with_quote(self, bid: u32, ask: u32, mid: u32, spread: u32) -> FeedStats {
        if usable_quote(bid, ask, mid) {
            FeedStats {
                spread_lo: lowered_to(self.spread_lo, spread),
                spread_hi: raised_to(self.spread_hi, spread),
                ..self
            }
        } else {
            self
        }
    }

    /// The statistics after a funding rate.
    pub open spec fn with_funding(self, rate: u32) -> FeedStats {
        if crate::ieee::finite(rate) {
            FeedStats { funding: rate, ..self }
        } else {
            self
        }
    }

    /// The statistics after a gap, if there was one.
    pub open spec fn with_gap(self, gap: bool) -> FeedStats {
        if gap {
            FeedStats { gap_count: crate::wrap::next(self.gap_count), ..self }
        } else {
            self
        }
    }

    /// The statistics after a packet of the traded instrument.
    pub open spec fn after(self, tick: MarketTick, len: int, mid: u32, spread: u32) -> FeedStats {
        let priced = self.with_price(tick.price);
        if len >= INGEST_PACKET_SIZE_V4 {
            priced.with_quote(tick.bid, tick.ask, mid, spread).with_funding(tick.funding_rate)
        } else {
            priced
        }
    }

    /// Statistics before the first packet.
    pub fn new() -> (s: FeedStats)
        ensures
            s == (FeedStats {
                gap_count: 0,
                price_lo: INFINITY,
                price_hi: NEG_INFINITY,
                spread_lo: INFINITY,
                spread_hi: NEG_INFINITY,
                funding: ZERO,
            }),
    {
        FeedStats {
            gap_count: 0,
            price_lo: INFINITY,
            price_hi: NEG_INFINITY,
            spread_lo: INFINITY,
            spread_hi: NEG_INFINITY,
            funding: ZERO,
        }
    }

    fn observe(&mut self, tick: &MarketTick, len: usize, mid: u32, spread: u32)
        ensures
            *final(self) == old(self).after(*tick, len as int, mid, spread),
    {
        if is_finite(tick.price) {
            if is_lt(tick.price, self.price_lo) {
                self.price_lo = tick.price;
            }
            if is_lt(self.price_hi, tick.price) {
                self.price_hi = tick.price;
            }
        }
        if len >= INGEST_PACKET_SIZE_V4 {
            if is_positive(mid) && is_positive(tick.bid) && is_le(tick.bid, tick.ask) {
                if is_lt(spread, self.spread_lo) {
                    self.spread_lo = spread;
                }
                if is_lt(self.spread_hi, spread) {
                    self.spread_hi = spread;
                }
            }
            if is_finite(tick.funding_rate) {
                self.funding = tick.funding_rate;
            }
        }
    }
}

/// The ingestor's cursors, one pair per instrument, and what it observed.
#[derive(Clone, Copy)]
pub struct Ingestor {
    /// Number that the next tick of the traded instrument is published under.
    pub traded_next: u64,
    /// Number that the next tick of the reference is published under.
    pub reference_next: u64,
    /// Sequence of the last packet of the traded instrument; 0 before the first.
    pub traded_last: u64,
    /// Sequence of the last packet of the reference; 0 before the first.
    pub reference_last: u64,
    /// What was observed on the traded instrument.
    pub stats: FeedStats,
}

/// Where a tick goes.
#[derive(Clone, Copy, Debug, PartialEq, Eq, Structural)]
pub struct Publication {
    /// The instrument: 0 is traded, 1 is the reference.
    pub instrument: usize,
    /// The number that the tick is published under.
    pub index: u64,
    /// Its slot in the instrument's ring buffer.
    pub slot: usize,
    /// The tick.
    pub tick: MarketTick,
    /// The packet left a gap in the traded instrument's sequence.
    pub gap: bool,
}

impl Ingestor {
    /// A packet with this sequence leaves a gap in the traded instrument.
    pub open spec fn gap_at(self, id: int, sequence: u64) -> bool {
        id == 0 && self.traded_last > 0 && sequence != crate::wrap::next(self.traded_last)
    }

    /// What happens to a packet of at least 16 bytes.
    pub open spec fn publication(self, pkt: Seq<u8>, timestamp: u64) -> Publication {
        let id = crate::packet::instrument_of(pkt);
        let tick = crate::packet::tick_of(pkt, timestamp);
        let index = if id == 0 {
            self.traded_next
        } else {
            self.reference_next
        };
        Publication {
            instrument: id as usize,
            index,
            slot: crate::logs::slot_of(index as int, BUFFER_SIZE as int) as usize,
            tick,
            gap: self.gap_at(id, tick.sequence),
        }
    }

    /// The ingestor after a packet of at least 16 bytes.
    pub open spec fn after(self, pkt: Seq<u8>, mid: u32, spread: u32) -> Ingestor {
        let tick = crate::packet::tick_of(pkt, 0);
        if crate::packet::instrument_of(pkt) == 0 {
            Ingestor {
                traded_next: crate::wrap::next(self.traded_next),
                traded_last: tick.sequence,
                stats: self.stats.with_gap(self.gap_at(0, tick.sequence)).after(
                    tick,
                    pkt.len() as int,
                    mid,
                    spread,
                ),
                ..self
            }
        } else {
            Ingestor {
                reference_next: crate::wrap::next(self.reference_next),
                reference_last: tick.sequence,
                ..self
            }
        }
    }

    /// An ingestor before the first packet: numbers start at 1.
    pub fn new() -> (i: Ingestor)
        ensures
            i.traded_next == 1,
            i.reference_next == 1,
            i.traded_last == 0,
            i.reference_last == 0,
            i.stats == (FeedStats {
                gap_count: 0,
                price_lo: INFINITY,
                price_hi: NEG_INFINITY,
                spread_lo: INFINITY,
                spread_hi: NEG_INFINITY,
                funding: ZERO,
            }),
    {
        Ingestor {
            traded_next: 1,
            reference_next: 1,
            traded_last: 0,
            reference_last: 0,
            stats: FeedStats::new(),
        }
    }

    /// Takes in a packet that arrived at `timestamp`; `mid` and `spread` are the mid price
    /// and the spread in basis points of its quote. A packet under 16 bytes is dropped.
    pub fn accept(&mut self, pkt: &[u8], mid: u32, spread: u32, timestamp: u64) -> (r: Option<
        Publication,
    >)
        ensures
            pkt@.len() < 16 ==> r is None && *final(self) == *old(self),
            pkt@.len() >= 16 ==> r == Some(old(self).publication(pkt@, timestamp))
                && *final(self) == old(self).after(pkt@, mid, spread),
    {
        let tick = match decode(pkt, timestamp) {
            Some(t) => t,
            None => {
                return None;
            },
        };
        let id = instrument(pkt);
        if id == 0 {
            let index: u64 = self.traded_next;
            let gap: bool = self.traded_last > 0 && tick.sequence != crate::wrap::increment(
                self.traded_last,
            );
            if gap {
                self.stats.gap_count = crate::wrap::increment(self.stats.gap_count);
            }
            self.traded_last = tick.sequence;
            self.stats.observe(&tick, pkt.len(), mid, spread);
            self.traded_next = crate::wrap::increment(index);
            Some(
                Publication {
                    instrument: 0,
                    index,
                    slot: (index % BUFFER_SIZE as u64) as usize,
                    tick,
                    gap,
                },
            )
        } else {
            let index: u64 = self.reference_next;
            self.reference_last = tick.sequence;
            self.reference_next = crate::wrap::increment(index);
            Some(
                Publication {
                    instrument: id,
                    index,
                    slot: (index % BUFFER_SIZE as u64) as usize,
                    tick,
                    gap: false,
                },
            )
        }
    }
}

/// The statistics after a sequence of prices.
pub open spec fn with_prices(s: FeedStats, prices: Seq<u32>) -> FeedStats
    decreases prices.len(),
{
    if prices.len() == 0 {
        s
    } else {
        with_prices(s, prices.drop_last()).with_price(prices.last())
    }
}

/// The range of prices takes in every finite price that came, and only ever widens.
pub proof fn law_price_range(s: FeedStats, prices: Seq<u32>)
    requires
        !crate::ieee::nan(s.price_lo),
        !crate::ieee::nan(s.price_hi),
    ensures
        ({
            let r = with_prices(s, prices);
            &&& crate::ieee::le(r.price_lo, s.price_lo)
            &&& crate::ieee::le(s.price_hi, r.price_hi)
            &&& forall|i: int|
                0 <= i < prices.len() && crate::ieee::finite(#[trigger] prices[i])
                    ==> crate::ieee::le(r.price_lo, prices[i]) && crate::ieee::le(
                    prices[i],
                    r.price_hi,
                )
        }),
    decreases prices.len(),
{
    if prices.len() > 0 {
        law_price_range(s, prices.drop_last());
        let before = with_prices(s, prices.drop_last());
        let r = with_prices(s, prices);
        assert forall|i: int|
            0 <= i < prices.len() && crate::ieee::finite(#[trigger] prices[i]) implies
            crate::ieee::le(r.price_lo, prices[i]) && crate::ieee::le(prices[i], r.price_hi) by {
            if i < prices.len() - 1 {
                assert(prices.drop_last()[i] == prices[i]);
            }
        }
    }
}

/// A gap in the reference, or in its sequence numbers, is never reported.
pub proof fn law_reference_gap(i: Ingestor, pkt: Seq<u8>, mid: u32, spread: u32, timestamp: u64)
    requires
        pkt.len() >= 16,
        crate::packet::instrument_of(pkt) != 0,
    ensures
        !i.publication(pkt, timestamp).gap,
        i.after(pkt, mid, spread).stats == i.stats,
{
}

/// The ingestor after a sequence of packets, each with the mid and the spread of its quote.
pub open spec fn fed(i: Ingestor, feed: Seq<(Seq<u8>, u32, u32)>) -> Ingestor
    decreases feed.len(),
{
    if feed.len() == 0 {
        i
    } else {
        fed(i, feed.drop_last()).after(feed.last().0, feed.last().1, feed.last().2)
    }
}

/// The sequence numbers of the traded instrument's packets, in order.
pub open spec fn traded_sequences(feed: Seq<(Seq<u8>, u32, u32)>) -> Seq<u64>
    decreases feed.len(),
{
    if feed.len() == 0 {
        Seq::empty()
    } else if crate::packet::instrument_of(feed.last().0) == 0 {
        traded_sequences(feed.drop_last()).push(crate::packet::tick_of(feed.last().0, 0).sequence)
    } else {
        traded_sequences(feed.drop_last())
    }
}

/// A feed in which each number of the traded instrument follows the one before it has no
/// gap, whatever the reference sends in between.
pub proof fn law_no_gap(i: Ingestor, feed: Seq<(Seq<u8>, u32, u32)>)
    requires
        i.traded_last > 0 && traded_sequences(feed).len() > 0 ==> traded_sequences(feed)[0]
            == crate::wrap::next(i.traded_last),
        forall|a: int, b: int|
            0 <= a && b == a + 1 && b < traded_sequences(feed).len()
                ==> #[trigger] traded_sequences(feed)[b] == crate::wrap::next(
                #[trigger] traded_sequences(feed)[a],
            ),
    ensures
        fed(i, feed).stats.gap_count == i.stats.gap_count,
        fed(i, feed).traded_last == if traded_sequences(feed).len() == 0 {
            i.traded_last
        } else {
            traded_sequences(feed).last()
        },
    decreases feed.len(),
{
    if feed.len() > 0 {
        let head = feed.drop_last();
        let all = traded_sequences(feed);
        let before = traded_sequences(head);
        assert(forall|a: int| 0 <= a < before.len() ==> before[a] == all[a]);
        assert forall|a: int, b: int|
            0 <= a && b == a + 1 && b < before.len() implies #[trigger] before[b]
            == crate::wrap::next(#[trigger] before[a]) by {
            assert(all[b] == crate::wrap::next(all[a]));
        }
        law_no_gap(i, head);
        if all.len() > before.len() && before.len() > 0 {
            assert(all[before.len() as int] == crate::wrap::next(all[before.len() - 1]));
        }
    }
}

/// A packet of the traded instrument leaves a gap exactly if there was one before it and its
/// number is not the next; the gap is counted once, and published with the tick.
pub proof fn law_gaps_are_counted(i: Ingestor, pkt: Seq<u8>, mid: u32, spread: u32, timestamp: u64)
    requires
        crate::packet::instrument_of(pkt) == 0,
        i.traded_last < u64::MAX,
        i.stats.gap_count < u64::MAX,
    ensures
        ({
            let sequence = crate::packet::tick_of(pkt, timestamp).sequence;
            let gap = i.traded_last > 0 && sequence != i.traded_last + 1;
            let after = i.after(pkt, mid, spread);
            &&& i.publication(pkt, timestamp).gap <==> gap
            &&& gap ==> after.stats.gap_count == i.stats.gap_count + 1
            &&& !gap ==> after.stats.gap_count == i.stats.gap_count
            &&& after.traded_last == sequence
        }),
{
}

/// Each instrument numbers its ticks on its own, one after the other, and a tick is published
/// under the number of its instrument, in the slot of that number, as the packet says.
pub proof fn law_ticks_are_numbered(i: Ingestor, pkt: Seq<u8>, mid: u32, spread: u32, timestamp: u64)
    requires
        i.traded_next < u64::MAX,
        i.reference_next < u64::MAX,
    ensures
        ({
            let id = crate::packet::instrument_of(pkt);
            let p = i.publication(pkt, timestamp);
            let after = i.after(pkt, mid, spread);
            &&& p.tick == crate::packet::tick_of(pkt, timestamp)
            &&& p.tick.timestamp == timestamp
            &&& id == 0 ==> p.instrument == 0 && p.index == i.traded_next && after.traded_next
                == i.traded_next + 1 && after.reference_next == i.reference_next
                && after.reference_last == i.reference_last
            &&& id == 1 ==> p.instrument == 1 && p.index == i.reference_next
                && after.reference_next == i.reference_next + 1 && after.traded_next
                == i.traded_next && after.traded_last == i.traded_last
            &&& p.slot == p.index % 1024
        }),
{
}

/// The bounds of the range are prices that came, or still those at the start.
pub proof fn law_price_range_is_attained(s: FeedStats, prices: Seq<u32>)
    ensures
        ({
            let r = with_prices(s, prices);
            &&& r.price_lo == s.price_lo || prices.contains(r.price_lo)
            &&& r.price_hi == s.price_hi || prices.contains(r.price_hi)
            &&& r.gap_count == s.gap_count
            &&& r.funding == s.funding
        }),
    decreases prices.len(),
{
    if prices.len() > 0 {
        let head = prices.drop_last();
        let n = prices.len() - 1;
        law_price_range_is_attained(s, head);
        let q = with_prices(s, head);
        let r = with_prices(s, prices);
        assert(prices[n] == prices.last());
        if r.price_lo == q.price_lo && q.price_lo != s.price_lo {
            let k = choose|k: int| 0 <= k < head.len() && head[k] == q.price_lo;
            assert(prices[k] == r.price_lo);
        }
        if r.price_hi == q.price_hi && q.price_hi != s.price_hi {
            let k = choose|k: int| 0 <= k < head.len() && head[k] == q.price_hi;
            assert(prices[k] == r.price_hi);
        }
    }
}

/// A price that is not finite leaves the range as it is.
pub proof fn law_only_finite_prices_count(s: FeedStats, price: u32)
    requires
        crate::ieee::nan(price) || price == INFINITY || price == NEG_INFINITY,
    ensures
        s.with_price(price) == s,
{
}

/// The range of spreads takes in the spread of every usable quote, and of no other: bid and
/// mid have to be positive and the bid not above the ask.
pub proof fn law_spread_range(s: FeedStats, bid: u32, ask: u32, mid: u32, spread: u32)
    requires
        !crate::ieee::nan(s.spread_lo),
        !crate::ieee::nan(s.spread_hi),
        !crate::ieee::nan(spread),
    ensures
        ({
            let r = s.with_quote(bid, ask, mid, spread);
            let usable = crate::ieee::lt(0, mid) && crate::ieee::lt(0, bid) && crate::ieee::le(
                bid,
                ask,
            );
            &&& usable ==> crate::ieee::le(r.spread_lo, spread) && crate::ieee::le(
                spread,
                r.spread_hi,
            )
            &&& usable ==> crate::ieee::le(r.spread_lo, s.spread_lo) && crate::ieee::le(
                s.spread_hi,
                r.spread_hi,
            )
            &&& usable ==> (r.spread_lo == spread || r.spread_lo == s.spread_lo)
            &&& usable ==> (r.spread_hi == spread || r.spread_hi == s.spread_hi)
            &&& !usable ==> r == s
            &&& r.price_lo == s.price_lo && r.price_hi == s.price_hi
        }),
{
}

/// The funding rate is the latest finite one.
pub proof fn law_latest_funding(s: FeedStats, rate: u32)
    ensures
        crate::ieee::finite(rate) ==> s.with_funding(rate).funding == rate,
        !crate::ieee::finite(rate) ==> s.with_funding(rate) == s,
        s.with_funding(rate).price_lo == s.price_lo,
{
}

/// Quotes and funding are read from packets of at least 49 bytes, prices from all.
pub proof fn law_what_packets_carry(s: FeedStats, tick: MarketTick, len: int, mid: u32, spread: u32)
    ensures
        len < 49 ==> s.after(tick, len, mid, spread) == s.with_price(tick.price),
        len >= 49 ==> s.after(tick, len, mid, spread) == s.with_price(tick.price).with_quote(
            tick.bid,
            tick.ask,
            mid,
            spread,
        ).with_funding(tick.funding_rate),
{
}

} // verus!

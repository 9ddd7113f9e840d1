//! Market-data packets and the ticks made of them.
//!
//! All numbers in a packet are little-endian. A packet grows at its end:
//!
//! | bytes | content |
//! |-------|---------|
//! | 0..4, 4..8 | price, volume (binary32) |
//! | 8..16 | sequence |
//! | 16..24, 24..32 | origin time, transit estimate (from 32 bytes on) |
//! | 32 | instrument (from 33 bytes on) |
//! | 33..49 | bid, ask, mark price, funding rate (binary32, from 49 bytes on) |

use vstd::prelude::*;
use crate::bytes::{
    le_bytes, le_value, push_le, read_le, law_le_round_trip, lemma_byte_range,
    lemma_le_bytes_len, lemma_le_value_bound,
};
use crate::config::{
    INGEST_PACKET_SIZE_V2, INGEST_PACKET_SIZE_V3, INGEST_PACKET_SIZE_V4, N_INSTRUMENTS,
};

verus! {

/// One market tick. Prices, volume and funding rate are bit patterns of binary32 numbers.
#[derive(Clone, Copy, Debug, PartialEq, Eq, Structural)]
pub struct MarketTick {
    /// Last price.
    pub price: u32,
    /// Traded volume, negative for a sale.
    pub volume: u32,
    /// Sequence that the feed gave the tick.
    pub sequence: u64,
    /// When the tick was ingested.
    pub timestamp: u64,
    /// When the exchange traded; 0 if the feed does not say.
    pub origin_ts_ns: u64,
    /// One-way transit estimate; 0 if the feed gives none.
    pub transit_est_ns: u64,
    /// Best bid; 0 if the feed gives no quote.
    pub bid: u32,
    /// Best ask; 0 if the feed gives no quote.
    pub ask: u32,
    /// Mark price; 0 if the feed gives none.
    pub mark_price: u32,
    /// Funding rate; 0 if the feed gives none.
    pub funding_rate: u32,
}

/// A compact instrument identifier: the index of its ring buffer.
#[derive(Clone, Copy, Debug, PartialEq, Eq, Structural)]
pub struct InstrumentId(pub u8);

impl InstrumentId {
    /// The index of the instrument's ring buffer.
    pub fn as_index(self) -> (i: usize)
        ensures
            i == self.0,
    {
        self.0 as usize
    }
}

/// The number in `n` bytes of a packet from `off` on.
pub open spec fn field(pkt: Seq<u8>, off: int, n: int) -> nat {
    le_value(pkt.subrange(off, off + n))
}

/// The instrument that a packet belongs to: 0 is traded, 1 is the reference.
pub open spec fn instrument_of(pkt: Seq<u8>) -> int {
    if pkt.len() >= INGEST_PACKET_SIZE_V3 && pkt[32] < N_INSTRUMENTS {
        pkt[32] as int
    } else {
        0
    }
}

/// The tick in a packet of at least 16 bytes, ingested at `timestamp`.
pub open spec fn tick_of(pkt: Seq<u8>, timestamp: u64) -> MarketTick {
    MarketTick {
        price: field(pkt, 0, 4) as u32,
        volume: field(pkt, 4, 4) as u32,
        sequence: field(pkt, 8, 8) as u64,
        timestamp,
        origin_ts_ns: if pkt.len() >= INGEST_PACKET_SIZE_V2 {
            field(pkt, 16, 8) as u64
        } else {
            0
        },
        transit_est_ns: if pkt.len() >= INGEST_PACKET_SIZE_V2 {
            field(pkt, 24, 8) as u64
        } else {
            0
        },
        bid: if pkt.len() >= INGEST_PACKET_SIZE_V4 {
            field(pkt, 33, 4) as u32
        } else {
            0
        },
        ask: if pkt.len() >= INGEST_PACKET_SIZE_V4 {
            field(pkt, 37, 4) as u32
        } else {
            0
        },
        mark_price: if pkt.len() >= INGEST_PACKET_SIZE_V4 {
            field(pkt, 41, 4) as u32
        } else {
            0
        },
        funding_rate: if pkt.len() >= INGEST_PACKET_SIZE_V4 {
            field(pkt, 45, 4) as u32
        } else {
            0
        },
    }
}

/// The bytes of a packet that names its instrument.
pub open spec fn packet_bytes(
    price: u32,
    volume: u32,
    seq: u64,
    origin_ts_ns: u64,
    transit_est_ns: u64,
    instrument: u8,
) -> Seq<u8> {
    le_bytes(price as nat, 4) + le_bytes(volume as nat, 4) + le_bytes(seq as nat, 8) + le_bytes(
        origin_ts_ns as nat,
        8,
    ) + le_bytes(transit_est_ns as nat, 8) + seq![instrument]
}

fn read_u32(pkt: &[u8], off: usize) -> (x: u32)
    requires
        off + 4 <= pkt.len(),
    ensures
        x == field(pkt@, off as int, 4),
{
    proof {
        lemma_le_value_bound(pkt@.subrange(off as int, off + 4));
        lemma_byte_range();
    }
    read_le(pkt, off, 4) as u32
}

fn read_u64(pkt: &[u8], off: usize) -> (x: u64)
    requires
        off + 8 <= pkt.len(),
    ensures
        x == field(pkt@, off as int, 8),
{
    read_le(pkt, off, 8)
}

/// The instrument that a packet belongs to.
pub fn instrument(pkt: &[u8]) -> (id: usize)
    ensures
        id == instrument_of(pkt@),
        id < N_INSTRUMENTS,
{
    if pkt.len() >= INGEST_PACKET_SIZE_V3 && (pkt[32] as usize) < N_INSTRUMENTS {
        pkt[32] as usize
    } else {
        0
    }
}

/// The tick in a packet, or nothing if the packet is too short to hold one.
pub fn decode(pkt: &[u8], timestamp: u64) -> (tick: Option<MarketTick>)
    ensures
        tick == if pkt@.len() >= 16 {
            Some(tick_of(pkt@, timestamp))
        } else {
            None::<MarketTick>
        },
{
    if pkt.len() < 16 {
        return None;
    }
    let mut tick = MarketTick {
        price: read_u32(pkt, 0),
        volume: read_u32(pkt, 4),
        sequence: read_u64(pkt, 8),
        timestamp,
        origin_ts_ns: 0,
        transit_est_ns: 0,
        bid: 0,
        ask: 0,
        mark_price: 0,
        funding_rate: 0,
    };
    if pkt.len() >= INGEST_PACKET_SIZE_V2 {
        tick.origin_ts_ns = read_u64(pkt, 16);
        tick.transit_est_ns = read_u64(pkt, 24);
    }
    if pkt.len() >= INGEST_PACKET_SIZE_V4 {
        tick.bid = read_u32(pkt, 33);
        tick.ask = read_u32(pkt, 37);
        tick.mark_price = read_u32(pkt, 41);
        tick.funding_rate = read_u32(pkt, 45);
    }
    Some(tick)
}

/// Builds the packet of a trade.
pub fn build_packet(
    price: u32,
    volume: u32,
    seq: u64,
    origin_ts_ns: u64,
    transit_est_ns: u64,
    instrument: u8,
) -> (pkt: [u8; 33])
    ensures
        pkt@ == packet_bytes(price, volume, seq, origin_ts_ns, transit_est_ns, instrument),
{
    let mut out: Vec<u8> = Vec::new();
    push_le(&mut out, price as u64, 4);
    push_le(&mut out, volume as u64, 4);
    push_le(&mut out, seq, 8);
    push_le(&mut out, origin_ts_ns, 8);
    push_le(&mut out, transit_est_ns, 8);
    out.push(instrument);
    let ghost bytes = packet_bytes(price, volume, seq, origin_ts_ns, transit_est_ns, instrument);
    assert(out@ == bytes);
    proof {
        lemma_packet_len(price, volume, seq, origin_ts_ns, transit_est_ns, instrument);
    }
    let mut pkt: [u8; 33] = [0u8; 33];
    let mut i: usize = 0;
    while i < 33
        invariant
            i <= 33,
            out@ == bytes,
            bytes.len() == 33,
            forall|k: int| 0 <= k < i ==> pkt@[k] == bytes[k],
        decreases 33 - i,
    {
        pkt[i] = out[i];
        i = i + 1;
    }
    assert(pkt@ == bytes);
    pkt
}

/// A packet that names its instrument has 33 bytes.
pub proof fn lemma_packet_len(
    price: u32,
    volume: u32,
    seq: u64,
    origin_ts_ns: u64,
    transit_est_ns: u64,
    instrument: u8,
)
    ensures
        packet_bytes(price, volume, seq, origin_ts_ns, transit_est_ns, instrument).len() == 33,
{
    lemma_le_bytes_len(price as nat, 4);
    lemma_le_bytes_len(volume as nat, 4);
    lemma_le_bytes_len(seq as nat, 8);
    lemma_le_bytes_len(origin_ts_ns as nat, 8);
    lemma_le_bytes_len(transit_est_ns as nat, 8);
}

/// What a packet was built from is what its tick holds.
pub proof fn law_packet_round_trip(
    price: u32,
    volume: u32,
    seq: u64,
    origin_ts_ns: u64,
    transit_est_ns: u64,
    instrument: u8,
    timestamp: u64,
)
    ensures
        tick_of(
            packet_bytes(price, volume, seq, origin_ts_ns, transit_est_ns, instrument),
            timestamp,
        ) == (MarketTick {
            price,
            volume,
            sequence: seq,
            timestamp,
            origin_ts_ns,
            transit_est_ns,
            bid: 0,
            ask: 0,
            mark_price: 0,
            funding_rate: 0,
        }),
        instrument < 2 ==> instrument_of(
            packet_bytes(price, volume, seq, origin_ts_ns, transit_est_ns, instrument),
        ) == instrument,
{
    let p = packet_bytes(price, volume, seq, origin_ts_ns, transit_est_ns, instrument);
    lemma_packet_len(price, volume, seq, origin_ts_ns, transit_est_ns, instrument);
    lemma_le_bytes_len(price as nat, 4);
    lemma_le_bytes_len(volume as nat, 4);
    lemma_le_bytes_len(seq as nat, 8);
    lemma_le_bytes_len(origin_ts_ns as nat, 8);
    lemma_le_bytes_len(transit_est_ns as nat, 8);
    lemma_byte_range();
    law_le_round_trip(price as nat, 4);
    law_le_round_trip(volume as nat, 4);
    law_le_round_trip(seq as nat, 8);
    law_le_round_trip(origin_ts_ns as nat, 8);
    law_le_round_trip(transit_est_ns as nat, 8);
    assert(p.subrange(0, 4) == le_bytes(price as nat, 4));
    assert(p.subrange(4, 8) == le_bytes(volume as nat, 4));
    assert(p.subrange(8, 16) == le_bytes(seq as nat, 8));
    assert(p.subrange(16, 24) == le_bytes(origin_ts_ns as nat, 8));
    assert(p.subrange(24, 32) == le_bytes(transit_est_ns as nat, 8));
}

/// A longer packet reads, in every field that a shorter one has, as the shorter one does.
pub proof fn law_packet_prefix(pkt: Seq<u8>, n: int, timestamp: u64)
    requires
        16 <= n <= pkt.len(),
    ensures
        ({
            let short = tick_of(pkt.take(n), timestamp);
            let long = tick_of(pkt, timestamp);
            &&& short.price == long.price
            &&& short.volume == long.volume
            &&& short.sequence == long.sequence
            &&& short.timestamp == long.timestamp
            &&& n >= 32 ==> short.origin_ts_ns == long.origin_ts_ns
            &&& n >= 32 ==> short.transit_est_ns == long.transit_est_ns
            &&& n >= 49 ==> short == long
            &&& n < 32 ==> short.origin_ts_ns == 0 && short.transit_est_ns == 0
            &&& n < 49 ==> short.bid == 0 && short.ask == 0 && short.mark_price == 0
                && short.funding_rate == 0
        }),
        n >= 33 ==> instrument_of(pkt.take(n)) == instrument_of(pkt),
        n < 33 ==> instrument_of(pkt.take(n)) == 0,
{
    let short = pkt.take(n);
    assert(short.subrange(0, 4) == pkt.subrange(0, 4));
    assert(short.subrange(4, 8) == pkt.subrange(4, 8));
    assert(short.subrange(8, 16) == pkt.subrange(8, 16));
    if n >= 32 {
        assert(short.subrange(16, 24) == pkt.subrange(16, 24));
        assert(short.subrange(24, 32) == pkt.subrange(24, 32));
    }
    if n >= 49 {
        assert(short.subrange(33, 37) == pkt.subrange(33, 37));
        assert(short.subrange(37, 41) == pkt.subrange(37, 41));
        assert(short.subrange(41, 45) == pkt.subrange(41, 45));
        assert(short.subrange(45, 49) == pkt.subrange(45, 49));
    }
}

/// The bytes of a simulated packet without an instrument.
pub open spec fn simulated_bytes(price: u32, volume: u32, seq: u64, transit_est_ns: u64) -> Seq<u8> {
    packet_bytes(price, volume, seq, 0, transit_est_ns, 0).take(32)
}

/// Builds a packet of the built-in simulator: no origin time, no instrument.
pub fn build_simulated_packet(price: u32, volume: u32, seq: u64, transit_est_ns: u64) -> (pkt: [u8;
    32])
    ensures
        pkt@ == simulated_bytes(price, volume, seq, transit_est_ns),
{
    let full = build_packet(price, volume, seq, 0, transit_est_ns, 0);
    let mut pkt: [u8; 32] = [0u8; 32];
    let mut i: usize = 0;
    while i < 32
        invariant
            i <= 32,
            forall|k: int| 0 <= k < i ==> pkt@[k] == full@[k],
        decreases 32 - i,
    {
        pkt[i] = full[i];
        i = i + 1;
    }
    assert(pkt@ == full@.take(32));
    pkt
}

/// The bytes of a packet of price, volume and sequence alone.
pub open spec fn legacy_bytes(price: u32, volume: u32, seq: u64) -> Seq<u8> {
    le_bytes(price as nat, 4) + le_bytes(volume as nat, 4) + le_bytes(seq as nat, 8)
}

/// Builds a packet of price, volume and sequence alone.
pub fn build_legacy_packet(price: u32, volume: u32, seq: u64) -> (pkt: Vec<u8>)
    ensures
        pkt@ == legacy_bytes(price, volume, seq),
{
    let mut pkt: Vec<u8> = Vec::new();
    push_le(&mut pkt, price as u64, 4);
    push_le(&mut pkt, volume as u64, 4);
    push_le(&mut pkt, seq, 8);
    assert(pkt@ == legacy_bytes(price, volume, seq));
    pkt
}

/// Every packet starts with the bytes of the shorter forms.
pub proof fn law_packets_extend(
    price: u32,
    volume: u32,
    seq: u64,
    origin_ts_ns: u64,
    transit_est_ns: u64,
    instrument: u8,
)
    ensures
        packet_bytes(price, volume, seq, origin_ts_ns, transit_est_ns, instrument).take(16)
            == legacy_bytes(price, volume, seq),
        simulated_bytes(price, volume, seq, transit_est_ns).take(16) == legacy_bytes(
            price,
            volume,
            seq,
        ),
        simulated_bytes(price, volume, seq, transit_est_ns).len() == 32,
        legacy_bytes(price, volume, seq).len() == 16,
{
    lemma_packet_len(price, volume, seq, origin_ts_ns, transit_est_ns, instrument);
    lemma_packet_len(price, volume, seq, 0, transit_est_ns, 0);
    lemma_le_bytes_len(price as nat, 4);
    lemma_le_bytes_len(volume as nat, 4);
    lemma_le_bytes_len(seq as nat, 8);
    assert(packet_bytes(price, volume, seq, origin_ts_ns, transit_est_ns, instrument).take(16)
        == legacy_bytes(price, volume, seq));
    assert(simulated_bytes(price, volume, seq, transit_est_ns).take(16) == legacy_bytes(
        price,
        volume,
        seq,
    ));
}

// A tick as eight 64-bit words: its 64-byte image in little-endian order.
/// Two 32-bit halves as one word.
pub open spec fn joined(low: u32, high: u32) -> u64 {
    (low + high * 0x1_0000_0000) as u64
}

/// The words of a tick.
pub open spec fn words_of(t: MarketTick) -> Seq<u64> {
    seq![
        joined(t.price, t.volume),
        t.sequence,
        t.timestamp,
        t.origin_ts_ns,
        t.transit_est_ns,
        joined(t.bid, t.ask),
        joined(t.mark_price, t.funding_rate),
        0u64,
    ]
}

fn join(low: u32, high: u32) -> (w: u64)
    ensures
        w == joined(low, high),
{
    low as u64 + high as u64 * 0x1_0000_0000
}

impl MarketTick {
    /// The words of the tick.
    pub fn to_words(&self) -> (w: [u64; 8])
        ensures
            w@ == words_of(*self),
    {
        let w: [u64; 8] = [
            join(self.price, self.volume),
            self.sequence,
            self.timestamp,
            self.origin_ts_ns,
            self.transit_est_ns,
            join(self.bid, self.ask),
            join(self.mark_price, self.funding_rate),
            0,
        ];
        assert(w@ == words_of(*self));
        w
    }

    /// The tick that the words stand for.
    pub fn from_words(w: &[u64; 8]) -> (t: MarketTick)
        ensures
            forall|x: MarketTick| w@ == words_of(x) ==> t == x,
            w@[7] == 0 ==> words_of(t) == w@,
    {
        let t = MarketTick {
            price: (w[0] % 0x1_0000_0000) as u32,
            volume: (w[0] / 0x1_0000_0000) as u32,
            sequence: w[1],
            timestamp: w[2],
            origin_ts_ns: w[3],
            transit_est_ns: w[4],
            bid: (w[5] % 0x1_0000_0000) as u32,
            ask: (w[5] / 0x1_0000_0000) as u32,
            mark_price: (w[6] % 0x1_0000_0000) as u32,
            funding_rate: (w[6] / 0x1_0000_0000) as u32,
        };
        assert forall|x: MarketTick| w@ == words_of(x) implies t == x by {
            assert(w@[0] == words_of(x)[0]);
            assert(w@[1] == words_of(x)[1]);
            assert(w@[2] == words_of(x)[2]);
            assert(w@[3] == words_of(x)[3]);
            assert(w@[4] == words_of(x)[4]);
            assert(w@[5] == words_of(x)[5]);
            assert(w@[6] == words_of(x)[6]);
        }
        if w[7] == 0 {
            assert(words_of(t) == w@);
        }
        t
    }
}

/// A packet with a quote holds what it was built from: behind the instrument stand bid, ask,
/// mark price and funding rate.
pub proof fn law_quote_round_trip(front: Seq<u8>, bid: u32, ask: u32, mark: u32, funding: u32, timestamp: u64)
    requires
        front.len() == 33,
    ensures
        ({
            let pkt = front + le_bytes(bid as nat, 4) + le_bytes(ask as nat, 4) + le_bytes(
                mark as nat,
                4,
            ) + le_bytes(funding as nat, 4);
            let t = tick_of(pkt, timestamp);
            let f = tick_of(front, timestamp);
            &&& pkt.len() == 49
            &&& t == (MarketTick {
                bid,
                ask,
                mark_price: mark,
                funding_rate: funding,
                ..f
            })
            &&& instrument_of(pkt) == instrument_of(front)
        }),
{
    let pkt = front + le_bytes(bid as nat, 4) + le_bytes(ask as nat, 4) + le_bytes(mark as nat, 4)
        + le_bytes(funding as nat, 4);
    lemma_le_bytes_len(bid as nat, 4);
    lemma_le_bytes_len(ask as nat, 4);
    lemma_le_bytes_len(mark as nat, 4);
    lemma_le_bytes_len(funding as nat, 4);
    lemma_byte_range();
    law_le_round_trip(bid as nat, 4);
    law_le_round_trip(ask as nat, 4);
    law_le_round_trip(mark as nat, 4);
    law_le_round_trip(funding as nat, 4);
    assert(pkt.take(33) == front);
    law_packet_prefix(pkt, 33, timestamp);
    assert(pkt.subrange(33, 37) == le_bytes(bid as nat, 4));
    assert(pkt.subrange(37, 41) == le_bytes(ask as nat, 4));
    assert(pkt.subrange(41, 45) == le_bytes(mark as nat, 4));
    assert(pkt.subrange(45, 49) == le_bytes(funding as nat, 4));
}

/// A packet that does not name its instrument, or names one that is not in use, is of the
/// traded one.
pub proof fn law_unknown_instruments(pkt: Seq<u8>)
    ensures
        pkt.len() < 33 ==> instrument_of(pkt) == 0,
        pkt.len() >= 33 && pkt[32] >= 2 ==> instrument_of(pkt) == 0,
        pkt.len() >= 33 && pkt[32] == 1 ==> instrument_of(pkt) == 1,
        pkt.len() >= 33 && pkt[32] == 0 ==> instrument_of(pkt) == 0,
{
}

/// A simulated packet and a packet of price, volume and sequence alone hold what they were
/// built from, and nothing that they do not carry.
pub proof fn law_short_packets(price: u32, volume: u32, seq: u64, transit_est_ns: u64, timestamp: u64)
    ensures
        tick_of(simulated_bytes(price, volume, seq, transit_est_ns), timestamp) == (MarketTick {
            price,
            volume,
            sequence: seq,
            timestamp,
            origin_ts_ns: 0,
            transit_est_ns,
            bid: 0,
            ask: 0,
            mark_price: 0,
            funding_rate: 0,
        }),
        tick_of(legacy_bytes(price, volume, seq), timestamp) == (MarketTick {
            price,
            volume,
            sequence: seq,
            timestamp,
            origin_ts_ns: 0,
            transit_est_ns: 0,
            bid: 0,
            ask: 0,
            mark_price: 0,
            funding_rate: 0,
        }),
        instrument_of(simulated_bytes(price, volume, seq, transit_est_ns)) == 0,
        instrument_of(legacy_bytes(price, volume, seq)) == 0,
{
    let full = packet_bytes(price, volume, seq, 0, transit_est_ns, 0);
    lemma_packet_len(price, volume, seq, 0, transit_est_ns, 0);
    law_packet_round_trip(price, volume, seq, 0, transit_est_ns, 0, timestamp);
    law_packet_prefix(full, 32, timestamp);
    law_packets_extend(price, volume, seq, 0, transit_est_ns, 0);
    law_packet_prefix(full, 16, timestamp);
}

/// Where a packet keeps its fields: every number in little-endian order, at the offsets of
/// the table above.
pub proof fn law_packet_layout(
    price: u32,
    volume: u32,
    seq: u64,
    origin_ts_ns: u64,
    transit_est_ns: u64,
    instrument: u8,
)
    ensures
        ({
            let p = packet_bytes(price, volume, seq, origin_ts_ns, transit_est_ns, instrument);
            &&& p.len() == 33
            &&& p.subrange(0, 4) == le_bytes(price as nat, 4)
            &&& p.subrange(4, 8) == le_bytes(volume as nat, 4)
            &&& p.subrange(8, 16) == le_bytes(seq as nat, 8)
            &&& p.subrange(16, 24) == le_bytes(origin_ts_ns as nat, 8)
            &&& p.subrange(24, 32) == le_bytes(transit_est_ns as nat, 8)
            &&& p[32] == instrument
        }),
{
    let p = packet_bytes(price, volume, seq, origin_ts_ns, transit_est_ns, instrument);
    lemma_packet_len(price, volume, seq, origin_ts_ns, transit_est_ns, instrument);
    lemma_le_bytes_len(price as nat, 4);
    lemma_le_bytes_len(volume as nat, 4);
    lemma_le_bytes_len(seq as nat, 8);
    lemma_le_bytes_len(origin_ts_ns as nat, 8);
    lemma_le_bytes_len(transit_est_ns as nat, 8);
    assert(p.subrange(0, 4) == le_bytes(price as nat, 4));
    assert(p.subrange(4, 8) == le_bytes(volume as nat, 4));
    assert(p.subrange(8, 16) == le_bytes(seq as nat, 8));
    assert(p.subrange(16, 24) == le_bytes(origin_ts_ns as nat, 8));
    assert(p.subrange(24, 32) == le_bytes(transit_est_ns as nat, 8));
}

} // verus!

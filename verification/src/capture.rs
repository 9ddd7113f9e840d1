//! Captures: recorded packets with the time between them.
//!
//! A capture is a magic number, a version byte, and records of an 8-byte gap in
//! nanoseconds, a 2-byte length and a packet, all little-endian. What is left behind the
//! last complete record is ignored.

use vstd::prelude::*;
use crate::bytes::{push_le, read_le};
use crate::packet::build_packet;
use crate::rng::{synth_origin_ns, synth_transit_ns};
use crate::sort::stable_order;

verus! {

/// One recorded packet.
pub struct Record {
    /// Time since the record before it.
    pub delta_ns: u64,
    /// The packet.
    pub packet: Vec<u8>,
}

/// What a record says.
#[verifier::ext_equal]
pub ghost struct RecordView {
    /// Time since the record before it.
    pub delta_ns: u64,
    /// The packet.
    pub packet: Seq<u8>,
}

impl View for Record {
    type V = RecordView;

    open spec fn view(&self) -> RecordView {
        RecordView { delta_ns: self.delta_ns, packet: self.packet@ }
    }
}

/// The views of records.
pub open spec fn record_views(v: Seq<Record>) -> Seq<RecordView> {
    Seq::new(v.len(), |i: int| v[i]@)
}

/// The first bytes of a capture: the magic number and the version.
pub open spec fn header() -> Seq<u8> {
    seq![0x4Bu8, 0x52u8, 0x4Bu8, 0x52u8, 1u8]
}

/// The bytes of a record.
pub open spec fn record_bytes(r: RecordView) -> Seq<u8> {
    crate::bytes::le_bytes(r.delta_ns as nat, 8) + crate::bytes::le_bytes(
        (r.packet.len() % 0x1_0000) as nat,
        2,
    ) + r.packet
}

/// The bytes of records.
pub open spec fn records_bytes(r: Seq<RecordView>) -> Seq<u8>
    decreases r.len(),
{
    if r.len() == 0 {
        Seq::empty()
    } else {
        record_bytes(r[0]) + records_bytes(r.drop_first())
    }
}

/// Data that starts as a capture does.
pub open spec fn is_capture(data: Seq<u8>) -> bool {
    data.len() >= 5 && data[0] == 0x4B && data[1] == 0x52 && data[2] == 0x4B && data[3] == 0x52
}

/// Length of the packet of the record at `i`.
pub open spec fn packet_len(data: Seq<u8>, i: int) -> nat {
    crate::bytes::le_value(data.subrange(i + 8, i + 10))
}

/// The record at `i`.
pub open spec fn record_at(data: Seq<u8>, i: int) -> RecordView {
    RecordView {
        delta_ns: crate::bytes::le_value(data.subrange(i, i + 8)) as u64,
        packet: data.subrange(i + 10, i + 10 + packet_len(data, i)),
    }
}

/// The complete records from position `i` on.
pub open spec fn records_from(data: Seq<u8>, i: int) -> Seq<RecordView>
    decreases data.len() - i,
{
    if i < 0 || i + 10 > data.len() || i + 10 + packet_len(data, i) > data.len() {
        Seq::empty()
    } else {
        seq![record_at(data, i)] + records_from(data, i + 10 + packet_len(data, i))
    }
}

/// The records of a capture.
pub open spec fn records_of(data: Seq<u8>) -> Seq<RecordView> {
    records_from(data, 5)
}

/// Appends the header of a capture.
pub fn push_header(out: &mut Vec<u8>)
    ensures
        final(out)@ == old(out)@ + header(),
{
    out.push(0x4B);
    out.push(0x52);
    out.push(0x4B);
    out.push(0x52);
    out.push(1);
    assert(out@ == old(out)@ + header());
}

/// Appends a record; its length field holds the low 16 bits of the packet's length.
pub fn push_record(out: &mut Vec<u8>, delta_ns: u64, packet: &[u8])
    ensures
        final(out)@ == old(out)@ + record_bytes(RecordView { delta_ns, packet: packet@ }),
{
    push_le(out, delta_ns, 8);
    push_le(out, packet.len() as u64 % 0x1_0000, 2);
    let mut i: usize = 0;
    let ghost head = out@;
    while i < packet.len()
        invariant
            i <= packet.len(),
            out@ == head + packet@.take(i as int),
        decreases packet.len() - i,
    {
        out.push(packet[i]);
        i = i + 1;
        assert(out@ == head + packet@.take(i as int));
    }
    assert(packet@.take(packet@.len() as int) == packet@);
    assert(out@ == old(out)@ + record_bytes(RecordView { delta_ns, packet: packet@ }));
}

/// Stamps packets with the time since the packet before.
#[derive(Clone, Copy, Debug, PartialEq, Eq, Structural)]
pub struct Recorder {
    /// When the last packet was recorded, if there was one.
    pub last_ns: Option<u64>,
}

impl Recorder {
    /// The gap that a packet at `now_ns` is recorded with; 0 for the first.
    pub open spec fn gap(self, now_ns: u64) -> u64 {
        match self.last_ns {
            Some(last) => crate::book::minus(now_ns, last),
            None => 0,
        }
    }

    /// The recorder after a packet at `now_ns`.
    pub open spec fn after(self, now_ns: u64) -> Recorder {
        Recorder { last_ns: Some(now_ns) }
    }

    /// A recorder before the first packet.
    pub fn new() -> (r: Recorder)
        ensures
            r == (Recorder { last_ns: None }),
    {
        Recorder { last_ns: None }
    }

    /// The bytes of the record of a packet at `now_ns`.
    pub fn write(&mut self, now_ns: u64, packet: &[u8]) -> (out: Vec<u8>)
        ensures
            out@ == record_bytes(
                RecordView { delta_ns: old(self).gap(now_ns), packet: packet@ },
            ),
            *final(self) == old(self).after(now_ns),
    {
        let delta_ns: u64 = match self.last_ns {
            Some(last) => now_ns.saturating_sub(last),
            None => 0,
        };
        self.last_ns = Some(now_ns);
        let mut out: Vec<u8> = Vec::new();
        push_record(&mut out, delta_ns, packet);
        assert(out@ == record_bytes(RecordView { delta_ns, packet: packet@ }));
        out
    }
}

/// Parses a capture; nothing if the data does not start as one does.
pub fn parse_capture(data: &[u8]) -> (r: Option<Vec<Record>>)
    ensures
        r is Some <==> is_capture(data@),
        r matches Some(v) ==> record_views(v@) == records_of(data@),
{
    let n: usize = data.len();
    if n < 5 || data[0] != 0x4B || data[1] != 0x52 || data[2] != 0x4B || data[3] != 0x52 {
        return None;
    }
    let mut out: Vec<Record> = Vec::new();
    let mut i: usize = 5;
    assert(record_views(out@) == Seq::<RecordView>::empty());
    while n - i >= 10
        invariant
            n == data.len(),
            5 <= i <= n,
            record_views(out@) + records_from(data@, i as int) == records_of(data@),
        ensures
            record_views(out@) == records_of(data@),
        decreases n - i,
    {
        let delta_ns: u64 = read_le(data, i, 8);
        proof {
            crate::bytes::lemma_le_value_bound(data@.subrange(i + 8, i + 10));
            crate::bytes::lemma_byte_range();
        }
        let len: usize = read_le(data, i + 8, 2) as usize;
        if len > n - i - 10 {
            assert(records_from(data@, i as int) == Seq::<RecordView>::empty());
            assert(record_views(out@) == records_of(data@));
            break;
        }
        let mut packet: Vec<u8> = Vec::new();
        let start: usize = i + 10;
        let mut k: usize = 0;
        let ghost whole = data@.subrange(start as int, start + len);
        while k < len
            invariant
                k <= len,
                start + len <= data.len(),
                whole == data@.subrange(start as int, start + len),
                packet@ == whole.take(k as int),
            decreases len - k,
        {
            packet.push(data[start + k]);
            k = k + 1;
            assert(packet@ == whole.take(k as int));
        }
        assert(packet@ == whole);
        let ghost before = record_views(out@);
        let rec = Record { delta_ns, packet };
        let ghost rv = rec@;
        assert(rv == record_at(data@, i as int));
        out.push(rec);
        assert(record_views(out@) == before.push(rv));
        assert(before.push(rv) + records_from(data@, start + len) == before + (seq![rv]
            + records_from(data@, start + len)));
        i = start + len;
    }
    Some(out)
}

proof fn lemma_record_len(r: RecordView)
    ensures
        record_bytes(r).len() == 10 + r.packet.len(),
{
    crate::bytes::lemma_le_bytes_len(r.delta_ns as nat, 8);
    crate::bytes::lemma_le_bytes_len((r.packet.len() % 0x1_0000) as nat, 2);
}

proof fn lemma_record_read(front: Seq<u8>, r: RecordView, rest: Seq<u8>)
    requires
        r.packet.len() < 0x1_0000,
    ensures
        ({
            let data = front + record_bytes(r) + rest;
            let i = front.len() as int;
            &&& packet_len(data, i) == r.packet.len()
            &&& record_at(data, i) == r
        }),
{
    let data = front + record_bytes(r) + rest;
    let i = front.len() as int;
    lemma_record_len(r);
    crate::bytes::lemma_le_bytes_len(r.delta_ns as nat, 8);
    crate::bytes::lemma_le_bytes_len(r.packet.len(), 2);
    crate::bytes::lemma_byte_range();
    crate::bytes::law_le_round_trip(r.delta_ns as nat, 8);
    crate::bytes::law_le_round_trip(r.packet.len(), 2);
    assert(data.subrange(i, i + 8) == crate::bytes::le_bytes(r.delta_ns as nat, 8));
    assert(data.subrange(i + 8, i + 10) == crate::bytes::le_bytes(r.packet.len(), 2));
    assert(data.subrange(i + 10, i + 10 + r.packet.len()) == r.packet);
}

proof fn lemma_records_read(front: Seq<u8>, r: Seq<RecordView>, rest: Seq<u8>)
    requires
        forall|k: int| 0 <= k < r.len() ==> (#[trigger] r[k]).packet.len() < 0x1_0000,
        records_from(front + records_bytes(r) + rest, (front + records_bytes(r)).len() as int)
            == Seq::<RecordView>::empty(),
    ensures
        records_from(front + records_bytes(r) + rest, front.len() as int) == r,
    decreases r.len(),
{
    let data = front + records_bytes(r) + rest;
    if r.len() == 0 {
        assert(front + records_bytes(r) == front);
    } else {
        let tail = r.drop_first();
        let front2 = front + record_bytes(r[0]);
        assert(front2 + records_bytes(tail) == front + records_bytes(r));
        assert(front2 + records_bytes(tail) + rest == data);
        assert forall|k: int| 0 <= k < tail.len() implies (#[trigger] tail[k]).packet.len()
            < 0x1_0000 by {
            assert(tail[k] == r[k + 1]);
        }
        lemma_records_read(front2, tail, rest);
        lemma_record_read(front, r[0], records_bytes(tail) + rest);
        assert(front + record_bytes(r[0]) + (records_bytes(tail) + rest) == data);
        lemma_record_len(r[0]);
        assert(records_from(data, front.len() as int) == seq![r[0]] + tail);
        assert(seq![r[0]] + tail == r);
    }
}

/// A capture reads back as the records it was written from.
pub proof fn law_capture_round_trip(r: Seq<RecordView>)
    requires
        forall|k: int| 0 <= k < r.len() ==> (#[trigger] r[k]).packet.len() < 0x1_0000,
    ensures
        is_capture(header() + records_bytes(r)),
        records_of(header() + records_bytes(r)) == r,
{
    let data = header() + records_bytes(r);
    assert(data + Seq::<u8>::empty() == data);
    lemma_records_read(header(), r, Seq::empty());
}

/// A capture that was cut inside a record reads back as the records before it.
pub proof fn law_capture_cut_short(r: Seq<RecordView>, last: RecordView, k: int)
    requires
        forall|i: int| 0 <= i < r.len() ==> (#[trigger] r[i]).packet.len() < 0x1_0000,
        last.packet.len() < 0x1_0000,
        0 <= k < record_bytes(last).len(),
    ensures
        records_of(header() + records_bytes(r) + record_bytes(last).take(k)) == r,
{
    let front = header() + records_bytes(r);
    let cut = record_bytes(last).take(k);
    let data = front + cut;
    let i = front.len() as int;
    lemma_record_len(last);
    if k >= 10 {
        let full = front + record_bytes(last) + Seq::<u8>::empty();
        lemma_record_read(front, last, Seq::empty());
        assert(data.subrange(i + 8, i + 10) == full.subrange(i + 8, i + 10));
    }
    assert(records_from(data, i) == Seq::<RecordView>::empty());
    lemma_records_read(header(), r, cut);
}

/// Time between two records of a synthetic capture.
pub const SYNTH_GAP_NS: u64 = 2_500_000;

/// Prices and volumes of one round of a synthetic capture (binary32).
#[derive(Clone, Copy)]
pub struct SynthRound {
    /// Price of the reference.
    pub ref_price: u32,
    /// Volume of the reference.
    pub ref_volume: u32,
    /// Price of the traded instrument.
    pub traded_price: u32,
    /// Volume of the traded instrument.
    pub traded_volume: u32,
}

/// The record of one instrument in round `seq` of a synthetic capture.
pub open spec fn synth_record(price: u32, volume: u32, seq: u64, id: u8) -> RecordView {
    RecordView {
        delta_ns: SYNTH_GAP_NS,
        packet: crate::packet::packet_bytes(
            price,
            volume,
            seq,
            crate::rng::synth_origin(seq),
            crate::rng::synth_transit(seq),
            id,
        ),
    }
}

/// Appends round `seq` of a synthetic capture: the reference, then the traded instrument.
pub fn push_synth_round(out: &mut Vec<u8>, seq: u64, r: &SynthRound)
    ensures
        final(out)@ == old(out)@ + record_bytes(synth_record(r.ref_price, r.ref_volume, seq, 1))
            + record_bytes(synth_record(r.traded_price, r.traded_volume, seq, 0)),
        forall|rounds: Seq<SynthRound>|
            old(out)@ == synth_capture(rounds) && seq == rounds.len() + 1 ==> final(out)@
                == #[trigger] synth_capture(rounds.push(*r)),
{
    let origin: u64 = synth_origin_ns(seq);
    let transit: u64 = synth_transit_ns(seq);
    let reference = build_packet(r.ref_price, r.ref_volume, seq, origin, transit, 1);
    push_record(out, SYNTH_GAP_NS, reference.as_slice());
    let traded = build_packet(r.traded_price, r.traded_volume, seq, origin, transit, 0);
    push_record(out, SYNTH_GAP_NS, traded.as_slice());
    assert forall|rounds: Seq<SynthRound>|
        old(out)@ == synth_capture(rounds) && seq == rounds.len() + 1 implies out@
        == #[trigger] synth_capture(rounds.push(*r)) by {
        assert(rounds.push(*r).drop_last() == rounds);
    }
}

/// A synthetic capture: the header, and each round as it is appended to what stands before
/// it. Rounds are numbered from 1 on.
pub open spec fn synth_capture(rounds: Seq<SynthRound>) -> Seq<u8>
    decreases rounds.len(),
{
    if rounds.len() == 0 {
        header()
    } else {
        let r = rounds.last();
        let seq = rounds.len() as u64;
        synth_capture(rounds.drop_last()) + record_bytes(
            synth_record(r.ref_price, r.ref_volume, seq, 1),
        ) + record_bytes(synth_record(r.traded_price, r.traded_volume, seq, 0))
    }
}

/// The records of a synthetic capture: two for each round, the reference first.
pub open spec fn synth_records(rounds: Seq<SynthRound>) -> Seq<RecordView> {
    Seq::new(
        2 * rounds.len(),
        |i: int|
            {
                let r = rounds[i / 2];
                let seq = (i / 2 + 1) as u64;
                if i % 2 == 0 {
                    synth_record(r.ref_price, r.ref_volume, seq, 1)
                } else {
                    synth_record(r.traded_price, r.traded_volume, seq, 0)
                }
            },
    )
}

proof fn lemma_records_push(r: Seq<RecordView>, last: RecordView)
    ensures
        records_bytes(r.push(last)) == records_bytes(r) + record_bytes(last),
    decreases r.len(),
{
    let all = r.push(last);
    if r.len() == 0 {
        assert(all.drop_first() == Seq::<RecordView>::empty());
        assert(records_bytes(r) == Seq::<u8>::empty());
        assert(records_bytes(all.drop_first()) == Seq::<u8>::empty());
        assert(records_bytes(all) == records_bytes(r) + record_bytes(last));
    } else {
        assert(all.drop_first() == r.drop_first().push(last));
        lemma_records_push(r.drop_first(), last);
        assert(records_bytes(all) == records_bytes(r) + record_bytes(last));
    }
}

proof fn lemma_synth_capture(rounds: Seq<SynthRound>)
    ensures
        synth_capture(rounds) == header() + records_bytes(synth_records(rounds)),
    decreases rounds.len(),
{
    if rounds.len() == 0 {
        assert(synth_records(rounds) == Seq::<RecordView>::empty());
        assert(synth_capture(rounds) == header() + records_bytes(synth_records(rounds)));
    } else {
        let head = rounds.drop_last();
        let r = rounds.last();
        let seq = rounds.len() as u64;
        let a = synth_record(r.ref_price, r.ref_volume, seq, 1);
        let b = synth_record(r.traded_price, r.traded_volume, seq, 0);
        lemma_synth_capture(head);
        lemma_records_push(synth_records(head), a);
        lemma_records_push(synth_records(head).push(a), b);
        assert(synth_records(rounds) == synth_records(head).push(a).push(b));
        assert(synth_capture(rounds) == header() + records_bytes(synth_records(rounds)));
    }
}

/// A record of round `k` of a synthetic capture: its gap, and what its packet holds.
pub open spec fn is_synth_record(r: RecordView, price: u32, volume: u32, k: u64, id: u8) -> bool {
    let t = crate::packet::tick_of(r.packet, 0);
    &&& r.delta_ns == SYNTH_GAP_NS
    &&& r.packet.len() == 33
    &&& crate::packet::instrument_of(r.packet) == id
    &&& t.price == price
    &&& t.volume == volume
    &&& t.sequence == k
    &&& t.origin_ts_ns == (1_700_000_000_000_000_000 + 5_000_000 * k) % 0x1_0000_0000_0000_0000
    &&& t.transit_est_ns == crate::rng::synth_transit(k)
    &&& 33_000_000 <= t.transit_est_ns < 41_000_000
}

proof fn lemma_synth_record(price: u32, volume: u32, k: u64, id: u8)
    requires
        id < 2,
    ensures
        is_synth_record(synth_record(price, volume, k, id), price, volume, k, id),
{
    let origin = crate::rng::synth_origin(k);
    let transit = crate::rng::synth_transit(k);
    crate::packet::lemma_packet_len(price, volume, k, origin, transit, id);
    crate::packet::law_packet_round_trip(price, volume, k, origin, transit, id, 0);
}

/// A synthetic capture of `n` rounds reads back as `2 n` records. Those of round `k` are the
/// ones at `2 k - 2`, the reference, and `2 k - 1`, the traded instrument: they have
/// sequence `k`, the same origin and the same transit estimate, between 33 and 41 ms.
pub proof fn law_synth_capture(rounds: Seq<SynthRound>)
    requires
        rounds.len() <= u64::MAX,
    ensures
        is_capture(synth_capture(rounds)),
        ({
            let r = records_of(synth_capture(rounds));
            &&& r.len() == 2 * rounds.len()
            &&& forall|k: int|
                1 <= k <= rounds.len() ==> {
                    let round = #[trigger] rounds[k - 1];
                    &&& is_synth_record(
                        r[2 * k - 2],
                        round.ref_price,
                        round.ref_volume,
                        k as u64,
                        1,
                    )
                    &&& is_synth_record(
                        r[2 * k - 1],
                        round.traded_price,
                        round.traded_volume,
                        k as u64,
                        0,
                    )
                }
        }),
{
    let r = synth_records(rounds);
    lemma_synth_capture(rounds);
    assert forall|i: int| 0 <= i < r.len() implies (#[trigger] r[i]).packet.len() < 0x1_0000 by {
        let round = rounds[i / 2];
        let k = (i / 2 + 1) as u64;
        lemma_synth_record(round.ref_price, round.ref_volume, k, 1);
        lemma_synth_record(round.traded_price, round.traded_volume, k, 0);
    }
    law_capture_round_trip(r);
    assert forall|k: int| 1 <= k <= rounds.len() implies {
        let round = #[trigger] rounds[k - 1];
        &&& is_synth_record(r[2 * k - 2], round.ref_price, round.ref_volume, k as u64, 1)
        &&& is_synth_record(r[2 * k - 1], round.traded_price, round.traded_volume, k as u64, 0)
    } by {
        let round = rounds[k - 1];
        assert((2 * k - 2) / 2 == k - 1 && (2 * k - 2) % 2 == 0);
        assert((2 * k - 1) / 2 == k - 1 && (2 * k - 1) % 2 == 1);
        lemma_synth_record(round.ref_price, round.ref_volume, k as u64, 1);
        lemma_synth_record(round.traded_price, round.traded_volume, k as u64, 0);
    }
}

// Ticks for a backtest.
/// A tick of a capture. Prices and volume are bit patterns of binary32 numbers.
#[derive(Clone, Copy, Debug, PartialEq, Eq, Structural)]
pub struct BtTick {
    /// The instrument: 0 is traded, 1 is the reference.
    pub id: u8,
    /// Price.
    pub price: u32,
    /// Volume, negative for a sale.
    pub vol: u32,
    /// Time since the start of the capture, modulo 2^64.
    pub t_ns: u64,
    /// Best bid; 0 if the packet has no quote.
    pub bid: u32,
    /// Best ask; 0 if the packet has no quote.
    pub ask: u32,
}

/// The tick of a recorded packet of at least 8 bytes.
pub open spec fn bt_tick(packet: Seq<u8>, t_ns: u64) -> BtTick {
    BtTick {
        id: if packet.len() >= 33 {
            packet[32]
        } else {
            0
        },
        price: crate::packet::field(packet, 0, 4) as u32,
        vol: crate::packet::field(packet, 4, 4) as u32,
        t_ns,
        bid: if packet.len() >= 49 {
            crate::packet::field(packet, 33, 4) as u32
        } else {
            0
        },
        ask: if packet.len() >= 49 {
            crate::packet::field(packet, 37, 4) as u32
        } else {
            0
        },
    }
}

/// The time of record `n`: the gaps up to it, modulo 2^64.
pub open spec fn time_of(r: Seq<RecordView>, n: int) -> u64
    decreases n + 1,
{
    if n < 0 {
        0
    } else {
        crate::wrap::sum(time_of(r, n - 1), r[n].delta_ns)
    }
}

/// Records before the first whose packet is too short for a tick.
pub open spec fn usable(r: Seq<RecordView>) -> nat
    decreases r.len(),
{
    if r.len() == 0 || r[0].packet.len() < 8 {
        0
    } else {
        1 + usable(r.drop_first())
    }
}

/// The ticks of records: up to the first whose packet is too short.
pub open spec fn ticks_of(r: Seq<RecordView>) -> Seq<BtTick> {
    Seq::new(usable(r), |i: int| bt_tick(r[i].packet, time_of(r, i)))
}

fn read_word(packet: &Vec<u8>, off: usize) -> (x: u32)
    requires
        off + 4 <= packet.len(),
    ensures
        x == crate::packet::field(packet@, off as int, 4),
{
    proof {
        crate::bytes::lemma_le_value_bound(packet@.subrange(off as int, off + 4));
        crate::bytes::lemma_byte_range();
    }
    read_le(packet.as_slice(), off, 4) as u32
}

proof fn lemma_usable(r: Seq<RecordView>, n: int)
    requires
        0 <= n <= r.len(),
        forall|i: int| 0 <= i < n ==> (#[trigger] r[i]).packet.len() >= 8,
        n == r.len() || r[n].packet.len() < 8,
    ensures
        usable(r) == n,
    decreases r.len(),
{
    if n > 0 {
        assert(r[0].packet.len() >= 8);
        let tail = r.drop_first();
        assert forall|i: int| 0 <= i < n - 1 implies (#[trigger] tail[i]).packet.len() >= 8 by {
            assert(tail[i] == r[i + 1]);
        }
        lemma_usable(tail, n - 1);
    }
}

/// The ticks of a capture; nothing if the data does not start as one does.
pub fn load_capture(data: &[u8]) -> (r: Option<Vec<BtTick>>)
    ensures
        r is Some <==> is_capture(data@),
        r matches Some(v) ==> v@ == ticks_of(records_of(data@)),
{
    let records = match parse_capture(data) {
        Some(v) => v,
        None => {
            return None;
        },
    };
    let ghost rs = records_of(data@);
    let mut out: Vec<BtTick> = Vec::new();
    let mut t: u64 = 0;
    let mut i: usize = 0;
    while i < records.len()
        invariant
            i <= records.len(),
            record_views(records@) == rs,
            out@.len() == i,
            t == time_of(rs, i - 1),
            forall|k: int| 0 <= k < i ==> (#[trigger] rs[k]).packet.len() >= 8,
            forall|k: int| 0 <= k < i ==> out@[k] == bt_tick(rs[k].packet, time_of(rs, k)),
        ensures
            out@.len() == i,
            i <= records.len(),
            record_views(records@) == rs,
            forall|k: int| 0 <= k < i ==> (#[trigger] rs[k]).packet.len() >= 8,
            forall|k: int| 0 <= k < i ==> out@[k] == bt_tick(rs[k].packet, time_of(rs, k)),
            i == records.len() || rs[i as int].packet.len() < 8,
        decreases records.len() - i,
    {
        let rec = &records[i];
        assert(rs[i as int] == rec@);
        let len: usize = rec.packet.len();
        if len < 8 {
            break;
        }
        t = t.wrapping_add(rec.delta_ns);
        out.push(
            BtTick {
                id: if len >= 33 {
                    rec.packet[32]
                } else {
                    0
                },
                price: read_word(&rec.packet, 0),
                vol: read_word(&rec.packet, 4),
                t_ns: t,
                bid: if len >= 49 {
                    read_word(&rec.packet, 33)
                } else {
                    0
                },
                ask: if len >= 49 {
                    read_word(&rec.packet, 37)
                } else {
                    0
                },
            },
        );
        i = i + 1;
    }
    proof {
        lemma_usable(rs, i as int);
        assert(out@ == ticks_of(rs));
    }
    Some(out)
}

// Captures of historical trades.
/// A historical trade. Price and volume are bit patterns of binary32 numbers.
#[derive(Clone, Copy, Debug, PartialEq, Eq, Structural)]
pub struct HistoryTrade {
    /// When the exchange traded.
    pub time_ns: u64,
    /// The instrument: 0 is traded, 1 is the reference.
    pub id: u8,
    /// Price.
    pub price: u32,
    /// Volume, negative for a sale.
    pub volume: u32,
}

/// Longest gap that a capture of history keeps.
pub const MAX_HISTORY_GAP_NS: u64 = 1_000_000_000;

/// Trades of an instrument among the first `n`.
pub open spec fn trades_before(t: Seq<HistoryTrade>, n: int, id: u8) -> nat
    decreases n,
{
    if n <= 0 {
        0
    } else {
        trades_before(t, n - 1, id) + if t[n - 1].id == id {
            1nat
        } else {
            0nat
        }
    }
}

/// The gap before trade `n`, with idle time cut.
pub open spec fn history_gap(t: Seq<HistoryTrade>, n: int) -> u64 {
    if n <= 0 {
        0
    } else {
        let g = crate::book::minus(t[n].time_ns, t[n - 1].time_ns);
        if g < MAX_HISTORY_GAP_NS {
            g
        } else {
            MAX_HISTORY_GAP_NS
        }
    }
}

/// The record of trade `n`: sequence numbers count up from 1 per instrument.
pub open spec fn history_record(t: Seq<HistoryTrade>, n: int) -> RecordView {
    RecordView {
        delta_ns: history_gap(t, n),
        packet: crate::packet::packet_bytes(
            t[n].price,
            t[n].volume,
            (1 + trades_before(t, n, t[n].id)) as u64,
            t[n].time_ns,
            0,
            t[n].id,
        ),
    }
}

/// The records of trades in the order given.
pub open spec fn history_records(t: Seq<HistoryTrade>) -> Seq<RecordView> {
    Seq::new(t.len(), |n: int| history_record(t, n))
}

/// Times of trades, as sorting keys.
pub open spec fn time_keys(t: Seq<HistoryTrade>) -> Seq<i128> {
    Seq::new(t.len(), |i: int| t[i].time_ns as i128)
}

/// Trades in the order of their times, those at the same time in the order given.
pub open spec fn by_time(t: Seq<HistoryTrade>) -> Seq<HistoryTrade> {
    crate::sort::arranged(t, crate::sort::order_of(time_keys(t)))
}

proof fn lemma_trades_before(t: Seq<HistoryTrade>, n: int, id: u8)
    ensures
        n >= 0 ==> trades_before(t, n, id) <= n,
    decreases n,
{
    if n > 0 {
        lemma_trades_before(t, n - 1, id);
    }
}

/// The capture of historical trades, in the order of their times; trades at the same time
/// keep the order given.
pub fn history_capture(trades: &Vec<HistoryTrade>) -> (out: Vec<u8>)
    requires
        trades.len() < u64::MAX,
        forall|i: int| 0 <= i < trades.len() ==> (#[trigger] trades@[i]).id < 2,
    ensures
        out@ == header() + records_bytes(history_records(by_time(trades@))),
{
    let n: usize = trades.len();
    let mut keys: Vec<i128> = Vec::new();
    let mut i: usize = 0;
    while i < n
        invariant
            n == trades.len(),
            i <= n,
            keys@ == time_keys(trades@).take(i as int),
        decreases n - i,
    {
        keys.push(trades[i].time_ns as i128);
        i = i + 1;
        assert(keys@ == time_keys(trades@).take(i as int));
    }
    assert(keys@ == time_keys(trades@));
    let order = stable_order(&keys);
    let ghost sorted = crate::sort::arranged(trades@, order@);
    let mut out: Vec<u8> = Vec::new();
    push_header(&mut out);
    assert(out@ == header());
    let mut next0: u64 = 1;
    let mut next1: u64 = 1;
    let mut prev_t: u64 = 0;
    let mut k: usize = 0;
    proof {
        assert(history_records(sorted).take(0) == Seq::<RecordView>::empty());
        assert(out@ == header() + records_bytes(history_records(sorted).take(0)));
    }
    while k < n
        invariant
            n == trades.len(),
            n < u64::MAX,
            k <= n,
            forall|i: int| 0 <= i < trades.len() ==> (#[trigger] trades@[i]).id < 2,
            crate::sort::is_stable_order(time_keys(trades@), order@),
            sorted == crate::sort::arranged(trades@, order@),
            sorted == by_time(trades@),
            next0 == 1 + trades_before(sorted, k as int, 0),
            next1 == 1 + trades_before(sorted, k as int, 1),
            k > 0 ==> prev_t == sorted[k - 1].time_ns,
            out@ == header() + records_bytes(history_records(sorted).take(k as int)),
        decreases n - k,
    {
        assert(order@[k as int] < n);
        let t = trades[order[k]];
        assert(t == sorted[k as int]);
        assert(trades@[order@[k as int] as int].id < 2);
        let gap: u64 = if k == 0 {
            0
        } else {
            t.time_ns.saturating_sub(prev_t)
        };
        let delta: u64 = if gap < MAX_HISTORY_GAP_NS {
            gap
        } else {
            MAX_HISTORY_GAP_NS
        };
        prev_t = t.time_ns;
        let seq: u64 = if t.id == 0 {
            next0
        } else {
            next1
        };
        let pkt = build_packet(t.price, t.volume, seq, t.time_ns, 0, t.id);
        let ghost before = history_records(sorted).take(k as int);
        push_record(&mut out, delta, pkt.as_slice());
        proof {
            let rec = history_record(sorted, k as int);
            assert(rec == (RecordView { delta_ns: delta, packet: pkt@ }));
            assert(history_records(sorted).take(k + 1) == before.push(rec));
            lemma_records_push(before, rec);
            assert(out@ == header() + records_bytes(before.push(rec)));
            lemma_trades_before(sorted, k as int, 0);
            lemma_trades_before(sorted, k as int, 1);
        }
        if t.id == 0 {
            next0 = next0 + 1;
        } else {
            next1 = next1 + 1;
        }
        k = k + 1;
    }
    proof {
        assert(history_records(sorted).take(n as int) == history_records(sorted));
    }
    out
}

/// Arranging trades by time keeps all of them, and none comes before an earlier one.
pub proof fn law_by_time(t: Seq<HistoryTrade>)
    requires
        t.len() <= usize::MAX,
    ensures
        by_time(t).len() == t.len(),
        by_time(t).to_multiset() == t.to_multiset(),
        forall|i: int, j: int|
            0 <= i < j < t.len() ==> by_time(t)[i].time_ns <= by_time(t)[j].time_ns,
{
    let keys = time_keys(t);
    let order = crate::sort::order_of(keys);
    crate::sort::law_stable_order_exists(keys);
    crate::sort::law_arranged_keeps_elements(t, order);
    assert forall|i: int, j: int| 0 <= i < j < t.len() implies by_time(t)[i].time_ns <= by_time(
        t,
    )[j].time_ns by {
        assert(order[i] < t.len() && order[j] < t.len());
        assert(crate::sort::precedes(keys, order[i] as int, order[j] as int));
    }
}

/// A capture of trades gives back every one of them, in the order in which they were
/// recorded.
pub proof fn law_history_round_trip(t: Seq<HistoryTrade>)
    ensures
        records_of(header() + records_bytes(history_records(t))) == history_records(t),
        ticks_of(history_records(t)).len() == t.len(),
        forall|i: int|
            0 <= i < t.len() ==> (#[trigger] ticks_of(history_records(t))[i]).price == t[i].price
                && ticks_of(history_records(t))[i].vol == t[i].volume && ticks_of(
                history_records(t),
            )[i].id == t[i].id,
{
    let r = history_records(t);
    assert forall|k: int| 0 <= k < r.len() implies (#[trigger] r[k]).packet.len() == 33 by {
        crate::packet::lemma_packet_len(
            t[k].price,
            t[k].volume,
            (1 + trades_before(t, k, t[k].id)) as u64,
            t[k].time_ns,
            0,
            t[k].id,
        );
    }
    law_capture_round_trip(r);
    lemma_usable(r, r.len() as int);
    assert forall|i: int| 0 <= i < t.len() implies (#[trigger] ticks_of(r)[i]).price == t[i].price
        && ticks_of(r)[i].vol == t[i].volume && ticks_of(r)[i].id == t[i].id by {
        assert(r[i].packet.len() == 33);
        crate::packet::law_packet_round_trip(
            t[i].price,
            t[i].volume,
            (1 + trades_before(t, i, t[i].id)) as u64,
            t[i].time_ns,
            0,
            t[i].id,
            0,
        );
        let p = r[i].packet;
        assert(crate::packet::tick_of(p, 0).price == t[i].price);
        assert(p[32] == t[i].id);
    }
}

// Times and numbers of captures.
/// A recorder after the first `n` packets at the given times.
pub open spec fn recorder_after(times: Seq<u64>, n: int) -> Recorder
    decreases n,
{
    if n <= 0 {
        Recorder { last_ns: None }
    } else {
        recorder_after(times, n - 1).after(times[n - 1])
    }
}

/// What a recorder writes reads back with the right times: each packet comes as long after
/// the first as it was recorded after the first.
pub proof fn law_recorded_times(times: Seq<u64>, r: Seq<RecordView>, n: int)
    requires
        0 <= n < times.len(),
        r.len() == times.len(),
        forall|k: int|
            0 <= k < times.len() ==> (#[trigger] r[k]).delta_ns == recorder_after(times, k).gap(
                times[k],
            ),
        forall|i: int, j: int| 0 <= i <= j < times.len() ==> times[i] <= times[j],
    ensures
        time_of(r, n) == times[n] - times[0],
    decreases n,
{
    assert(r[n].delta_ns == recorder_after(times, n).gap(times[n]));
    if n > 0 {
        law_recorded_times(times, r, n - 1);
        assert(times[n - 1] <= times[n]);
        assert(times[0] <= times[n - 1]);
    } else {
        assert(time_of(r, -1) == 0);
    }
}

/// The time of a record is the sum of all gaps up to it, its own among them, modulo 2^64.
pub proof fn law_times_add_up(r: Seq<RecordView>, n: int)
    requires
        0 <= n < r.len(),
    ensures
        time_of(r, n) == crate::stats::sum_of(
            r.take(n + 1).map_values(|x: RecordView| x.delta_ns),
        ) % 0x1_0000_0000_0000_0000,
    decreases n,
{
    let f = |x: RecordView| x.delta_ns;
    let all = r.take(n + 1).map_values(f);
    assert(all.drop_last() == r.take(n).map_values(f));
    assert(all.last() == r[n].delta_ns);
    let before = crate::stats::sum_of(r.take(n).map_values(f)) as int;
    if n > 0 {
        law_times_add_up(r, n - 1);
    } else {
        assert(time_of(r, -1) == 0);
        assert(r.take(0).map_values(f) == Seq::<u64>::empty());
        assert(before == 0);
    }
    vstd::arithmetic::div_mod::lemma_add_mod_noop_right(
        r[n].delta_ns as int,
        before,
        0x1_0000_0000_0000_0000,
    );
}

/// A capture is read up to its first packet that is too short for a price and a volume, and
/// not further.
pub proof fn law_usable_records(r: Seq<RecordView>)
    ensures
        usable(r) <= r.len(),
        forall|i: int| 0 <= i < usable(r) ==> (#[trigger] r[i]).packet.len() >= 8,
        usable(r) < r.len() ==> r[usable(r) as int].packet.len() < 8,
        ticks_of(r).len() == usable(r),
    decreases r.len(),
{
    if r.len() > 0 && r[0].packet.len() >= 8 {
        let tail = r.drop_first();
        law_usable_records(tail);
        assert forall|i: int| 0 <= i < usable(r) implies (#[trigger] r[i]).packet.len() >= 8 by {
            if i > 0 {
                assert(tail[i - 1] == r[i]);
            }
        }
        if usable(r) < r.len() {
            assert(tail[usable(tail) as int] == r[usable(r) as int]);
        }
    }
}

/// A tick of a backtest is the tick that the engine makes of the same packet: its price, its
/// volume and its quote, with the instrument that the packet names.
pub proof fn law_backtest_ticks(packet: Seq<u8>, t_ns: u64)
    requires
        packet.len() >= 16,
    ensures
        ({
            let b = bt_tick(packet, t_ns);
            let t = crate::packet::tick_of(packet, t_ns);
            &&& b.price == t.price
            &&& b.vol == t.volume
            &&& b.bid == t.bid
            &&& b.ask == t.ask
            &&& b.t_ns == t_ns
            &&& packet.len() >= 33 ==> b.id == packet[32]
            &&& packet.len() < 33 ==> b.id == 0
            &&& b.id < 2 ==> b.id == crate::packet::instrument_of(packet)
        }),
{
}

/// Idle time in a capture of history is cut to one second, and any shorter gap is kept.
pub proof fn law_history_gaps(t: Seq<HistoryTrade>, n: int)
    requires
        0 < n < t.len(),
        t[n - 1].time_ns <= t[n].time_ns,
    ensures
        history_gap(t, 0) == 0,
        history_gap(t, n) <= 1_000_000_000,
        t[n].time_ns - t[n - 1].time_ns <= 1_000_000_000 ==> t[n - 1].time_ns + history_gap(t, n)
            == t[n].time_ns,
        t[n].time_ns - t[n - 1].time_ns >= 1_000_000_000 ==> history_gap(t, n) == 1_000_000_000,
{
}

proof fn lemma_trades_counted(t: Seq<HistoryTrade>, n: int, id: u8)
    requires
        0 <= n <= t.len(),
    ensures
        trades_before(t, n, id) == t.take(n).filter(|x: HistoryTrade| x.id == id).len(),
    decreases n,
{
    reveal(Seq::filter);
    if n > 0 {
        lemma_trades_counted(t, n - 1, id);
        assert(t.take(n).drop_last() == t.take(n - 1));
    }
}

/// The packet of a trade of history holds its price, volume, time and instrument, no transit
/// estimate, and as its number how many trades of its instrument there were up to it.
pub proof fn law_history_packets(t: Seq<HistoryTrade>, n: int)
    requires
        0 <= n < t.len() < u64::MAX,
        t[n].id < 2,
    ensures
        ({
            let pkt = history_record(t, n).packet;
            let tick = crate::packet::tick_of(pkt, 0);
            &&& pkt.len() == 33
            &&& crate::packet::instrument_of(pkt) == t[n].id
            &&& tick.price == t[n].price
            &&& tick.volume == t[n].volume
            &&& tick.origin_ts_ns == t[n].time_ns
            &&& tick.transit_est_ns == 0
            &&& tick.sequence == 1 + t.take(n).filter(|x: HistoryTrade| x.id == t[n].id).len()
        }),
{
    let seq = (1 + trades_before(t, n, t[n].id)) as u64;
    lemma_trades_before(t, n, t[n].id);
    lemma_trades_counted(t, n, t[n].id);
    crate::packet::lemma_packet_len(t[n].price, t[n].volume, seq, t[n].time_ns, 0, t[n].id);
    crate::packet::law_packet_round_trip(
        t[n].price,
        t[n].volume,
        seq,
        t[n].time_ns,
        0,
        t[n].id,
        0,
    );
}

/// Trades at the same time keep the order given.
pub proof fn law_by_time_is_stable(t: Seq<HistoryTrade>, i: int, j: int)
    requires
        t.len() <= usize::MAX,
        0 <= i < j < t.len(),
    ensures
        ({
            let o = crate::sort::order_of(time_keys(t));
            &&& by_time(t)[i] == t[o[i] as int]
            &&& by_time(t)[j] == t[o[j] as int]
            &&& by_time(t)[i].time_ns == by_time(t)[j].time_ns ==> o[i] < o[j]
        }),
{
    crate::sort::law_stable_order_exists(time_keys(t));
    crate::sort::law_stable_order(time_keys(t), i, j);
}

/// Data is a capture exactly if it has at least five bytes and begins with the magic number;
/// a capture without records is its header.
pub proof fn law_what_is_a_capture(data: Seq<u8>)
    ensures
        is_capture(data) <==> data.len() >= 5 && data.take(4) == header().take(4),
        header().len() == 5,
        records_of(header()) == Seq::<RecordView>::empty(),
{
    let h = header();
    assert(h.take(4) == seq![0x4Bu8, 0x52u8, 0x4Bu8, 0x52u8]);
    if data.len() >= 5 {
        let d = data.take(4);
        assert(d[0] == data[0] && d[1] == data[1] && d[2] == data[2] && d[3] == data[3]);
        if is_capture(data) {
            assert(d == h.take(4));
        } else {
            assert(d[0] != h.take(4)[0] || d[1] != h.take(4)[1] || d[2] != h.take(4)[2] || d[3]
                != h.take(4)[3]);
        }
    }
}

/// The two records of a round of a synthetic capture are as far apart as the two halves of
/// the time between two rounds.
pub proof fn law_synth_rounds_last(seq: u64)
    requires
        seq < 1_000_000_000_000,
    ensures
        crate::rng::synth_origin((seq + 1) as u64) - crate::rng::synth_origin(seq) == 2
            * SYNTH_GAP_NS,
{
    crate::rng::law_synth_origins(seq);
}

/// A load of a capture of history gives the trades back at their times: each tick comes as
/// long after the one before it as the trades were apart, but no more than a second.
pub proof fn law_history_times(t: Seq<HistoryTrade>, n: int)
    requires
        0 < n < t.len(),
        t.len() <= 1_000_000_000,
    ensures
        ({
            let ticks = ticks_of(history_records(t));
            let apart = crate::book::minus(t[n].time_ns, t[n - 1].time_ns);
            &&& ticks[n].t_ns - ticks[n - 1].t_ns == if apart < 1_000_000_000 {
                apart as int
            } else {
                1_000_000_000
            }
            &&& ticks[0].t_ns == 0
        }),
{
    let r = history_records(t);
    assert(usable(r) == t.len()) by {
        law_history_round_trip(t);
    }
    lemma_history_time(t, 0);
    lemma_history_time(t, n);
    lemma_tick_time(r, 0);
    lemma_tick_time(r, n - 1);
    lemma_tick_time(r, n);
}

proof fn lemma_tick_time(r: Seq<RecordView>, n: int)
    requires
        0 <= n < usable(r),
    ensures
        ticks_of(r)[n].t_ns == time_of(r, n),
{
}

proof fn lemma_history_time(t: Seq<HistoryTrade>, n: int)
    requires
        0 <= n < t.len(),
        t.len() <= 1_000_000_000,
    ensures
        time_of(history_records(t), n) <= n * 1_000_000_000,
        n == 0 ==> time_of(history_records(t), n) == 0,
        n > 0 ==> time_of(history_records(t), n) == time_of(history_records(t), n - 1)
            + history_gap(t, n),
    decreases n,
{
    let r = history_records(t);
    assert(r[n].delta_ns == history_gap(t, n));
    if n > 0 {
        lemma_history_time(t, n - 1);
    } else {
        assert(time_of(r, -1) == 0);
    }
}

/// Where a record keeps its fields: the gap in eight bytes, the length of the packet in two,
/// both in little-endian order, and the packet. A capture begins with the letters `KRKR` and
/// version 1.
pub proof fn law_record_layout(r: RecordView)
    requires
        r.packet.len() < 0x1_0000,
    ensures
        record_bytes(r).len() == 10 + r.packet.len(),
        record_bytes(r).subrange(0, 8) == crate::bytes::le_bytes(r.delta_ns as nat, 8),
        record_bytes(r).subrange(8, 10) == crate::bytes::le_bytes(r.packet.len(), 2),
        record_bytes(r).skip(10) == r.packet,
        header() == seq!['K' as u8, 'R' as u8, 'K' as u8, 'R' as u8, 1u8],
{
    crate::bytes::lemma_le_bytes_len(r.delta_ns as nat, 8);
    crate::bytes::lemma_le_bytes_len(r.packet.len(), 2);
    assert(record_bytes(r).subrange(0, 8) == crate::bytes::le_bytes(r.delta_ns as nat, 8));
    assert(record_bytes(r).subrange(8, 10) == crate::bytes::le_bytes(r.packet.len(), 2));
    assert(record_bytes(r).skip(10) == r.packet);
}

} // verus!

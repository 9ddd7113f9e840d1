//! The feed adapter's decisions: what a frame of the feed means, and which page of
//! history to ask for next.

use vstd::prelude::*;
use crate::bytes::{push_le, read_le};
use crate::config::{BURST_SIZE, NUM_BURSTS, WARMUP_PACKETS};
use crate::frame::parse_frame;
use crate::handshake::decode_text;
use crate::ieee::negate;
use crate::packet::build_packet;
use crate::text::{chars_of, parse_u64, same_chars};
use crate::trades::{frame_pair, parse_trades, Trade};

verus! {

/// The frame at the front of a buffer, if it is complete: opcode, payload, and what is left
/// of the buffer.
pub open spec fn taken(buf: Seq<u8>) -> Option<(u8, Seq<u8>, Seq<u8>)> {
    match crate::frame::parsed(buf) {
        Some((opcode, payload, size)) => Some((opcode, payload, buf.skip(size))),
        None => None,
    }
}

/// Takes the frame at the front of a buffer out of it, if it is complete.
pub fn next_frame(acc: &mut Vec<u8>) -> (r: Option<(u8, Vec<u8>)>)
    ensures
        r is Some <==> crate::frame::complete(old(acc)@),
        r is Some <==> taken(old(acc)@) is Some,
        r is None ==> final(acc)@ == old(acc)@,
        r matches Some((opcode, payload)) ==> taken(old(acc)@) == Some(
            (opcode, payload@, final(acc)@),
        ),
        r matches Some((opcode, payload)) ==> crate::frame::parsed(old(acc)@) == Some(
            (opcode, payload@, crate::frame::frame_size(old(acc)@)),
        ) && final(acc)@ == old(acc)@.skip(crate::frame::frame_size(old(acc)@)),
{
    match parse_frame(acc.as_slice()) {
        Some((opcode, payload, consumed)) => {
            let mut rest: Vec<u8> = Vec::new();
            let n: usize = acc.len();
            let mut i: usize = consumed;
            let ghost all = acc@.skip(consumed as int);
            while i < n
                invariant
                    n == acc.len(),
                    consumed <= i <= n,
                    all == acc@.skip(consumed as int),
                    rest@ == all.take(i - consumed),
                decreases n - i,
            {
                rest.push(acc[i]);
                i = i + 1;
                assert(rest@ == all.take(i - consumed));
            }
            assert(rest@ == all);
            *acc = rest;
            Some((opcode, payload))
        },
        None => None,
    }
}

/// The state of a live session.
#[derive(Clone, Copy, Debug, PartialEq, Eq, Structural)]
pub struct Session {
    /// Sequence of the next trade of the traded pair.
    pub traded_seq: u64,
    /// Sequence of the next trade of the reference pair.
    pub reference_seq: u64,
    /// One-way transit estimate: half of the last round trip.
    pub transit_est_ns: u64,
}

/// What a frame asks for.
pub enum Reaction {
    /// Nothing.
    Ignore,
    /// Send trades on.
    Trades {
        /// The instrument: 0 is traded, 1 is the reference.
        id: u8,
        /// The trades.
        trades: Vec<Trade>,
    },
    /// Answer a ping.
    Pong {
        /// The payload of the ping.
        payload: Vec<u8>,
    },
    /// The server has closed the connection.
    Closed,
}

/// The instrument of a message: by its pair, the traded one first.
pub open spec fn instrument_for(msg: Seq<char>, pair: Seq<char>, ref_pair: Seq<char>) -> Option<
    u8,
> {
    match crate::trades::pair_of(msg) {
        Some(p) => if p == pair {
            Some(0u8)
        } else if p == ref_pair {
            Some(1u8)
        } else {
            None
        },
        None => None,
    }
}

/// A reaction to a text message.
pub open spec fn text_reaction(
    r: Reaction,
    msg: Seq<char>,
    pair: Seq<char>,
    ref_pair: Seq<char>,
) -> bool {
    match instrument_for(msg, pair, ref_pair) {
        Some(id) => r matches Reaction::Trades { id: i, trades } && i == id
            && crate::trades::trade_views(trades@) == crate::trades::trades_of(msg),
        None => r is Ignore,
    }
}

/// Half of the round trip of a probe sent at `sent_ns`.
pub open spec fn half_trip(now_ns: u64, sent_ns: u64) -> u64 {
    crate::book::minus(now_ns, sent_ns) / 2
}

/// What a text message of the feed asks for.
pub fn on_text(msg: &str, pair: &str, ref_pair: &str) -> (r: Reaction)
    ensures
        text_reaction(r, msg@, pair@, ref_pair@),
{
    match frame_pair(msg) {
        Some(p) => {
            let name = chars_of(p.as_str());
            let traded = chars_of(pair);
            let reference = chars_of(ref_pair);
            if same_chars(&name, &traded) {
                Reaction::Trades { id: 0, trades: parse_trades(msg) }
            } else if same_chars(&name, &reference) {
                Reaction::Trades { id: 1, trades: parse_trades(msg) }
            } else {
                Reaction::Ignore
            }
        },
        None => Reaction::Ignore,
    }
}

impl Session {
    /// The session after a pong: one of at least 8 bytes carries the time of its ping.
    pub open spec fn after_pong(self, payload: Seq<u8>, now_ns: u64) -> Session {
        if payload.len() >= 8 {
            Session {
                transit_est_ns: half_trip(
                    now_ns,
                    crate::bytes::le_value(payload.subrange(0, 8)) as u64,
                ),
                ..self
            }
        } else {
            self
        }
    }

    /// A frame asks for `r` and leaves the session as `after`.
    pub open spec fn reacts(
        self,
        opcode: u8,
        payload: Seq<u8>,
        pair: Seq<char>,
        ref_pair: Seq<char>,
        now_ns: u64,
        r: Reaction,
        after: Session,
    ) -> bool {
        if opcode == 0x1 {
            after == self && text_reaction(r, crate::handshake::lossy(payload), pair, ref_pair)
        } else if opcode == 0x9 {
            after == self && (r matches Reaction::Pong { payload: p } && p@ == payload)
        } else if opcode == 0xA {
            after == self.after_pong(payload, now_ns) && r is Ignore
        } else if opcode == 0x8 {
            after == self && r is Closed
        } else {
            after == self && r is Ignore
        }
    }

    /// A session before the first frame.
    pub fn new() -> (s: Session)
        ensures
            s == (Session { traded_seq: 1, reference_seq: 1, transit_est_ns: 0 }),
    {
        Session { traded_seq: 1, reference_seq: 1, transit_est_ns: 0 }
    }

    /// Reacts to a frame that arrived at `now_ns`.
    pub fn on_frame(
        &mut self,
        opcode: u8,
        payload: Vec<u8>,
        pair: &str,
        ref_pair: &str,
        now_ns: u64,
    ) -> (r: Reaction)
        ensures
            old(self).reacts(
                opcode,
                payload@,
                pair@,
                ref_pair@,
                now_ns,
                r,
                *final(self),
            ),
    {
        if opcode == 0x1 {
            let msg = decode_text(payload.as_slice());
            on_text(msg.as_str(), pair, ref_pair)
        } else if opcode == 0x9 {
            Reaction::Pong { payload }
        } else if opcode == 0xA {
            if payload.len() >= 8 {
                let sent: u64 = read_le(payload.as_slice(), 0, 8);
                self.transit_est_ns = now_ns.saturating_sub(sent) / 2;
            }
            Reaction::Ignore
        } else if opcode == 0x8 {
            Reaction::Closed
        } else {
            Reaction::Ignore
        }
    }

    /// The number of the next packet of an instrument.
    pub open spec fn next_seq(self, id: u8) -> u64 {
        if id == 0 {
            self.traded_seq
        } else {
            self.reference_seq
        }
    }

    /// The packet of a trade: a sale has a negative volume.
    pub open spec fn packet_of(
        self,
        id: u8,
        price: u32,
        volume: u32,
        sell: bool,
        time_ns: u64,
    ) -> Seq<u8> {
        crate::packet::packet_bytes(
            price,
            if sell {
                crate::ieee::negated(volume)
            } else {
                volume
            },
            self.next_seq(id),
            time_ns,
            self.transit_est_ns,
            id,
        )
    }

    /// The session after a packet of an instrument.
    pub open spec fn after_packet(self, id: u8) -> Session {
        if id == 0 {
            Session { traded_seq: crate::wrap::next(self.traded_seq), ..self }
        } else {
            Session { reference_seq: crate::wrap::next(self.reference_seq), ..self }
        }
    }

    /// The packet of a trade, whose price and volume (binary32) were read. A sale has a
    /// negative volume, and each instrument counts its own trades.
    pub fn packet(&mut self, id: u8, price: u32, volume: u32, sell: bool, time_ns: u64) -> (pkt:
        [u8; 33])
        ensures
            pkt@ == old(self).packet_of(id, price, volume, sell, time_ns),
            *final(self) == old(self).after_packet(id),
    {
        let signed: u32 = if sell {
            negate(volume)
        } else {
            volume
        };
        let seq: u64 = if id == 0 {
            self.traded_seq
        } else {
            self.reference_seq
        };
        let pkt = build_packet(price, signed, seq, time_ns, self.transit_est_ns, id);
        if id == 0 {
            self.traded_seq = crate::wrap::increment(seq);
        } else {
            self.reference_seq = crate::wrap::increment(seq);
        }
        pkt
    }
}

/// The payload of a probe: when it is sent.
pub open spec fn probe_of(now_ns: u64) -> Seq<u8> {
    crate::bytes::le_bytes(now_ns as nat, 8)
}

/// The payload of a probe: when it is sent.
pub fn ping_payload(now_ns: u64) -> (p: Vec<u8>)
    ensures
        p@ == probe_of(now_ns),
{
    let mut p: Vec<u8> = Vec::new();
    push_le(&mut p, now_ns, 8);
    assert(p@ == crate::bytes::le_bytes(now_ns as nat, 8));
    p
}

/// A probe that comes back sets the transit estimate to half of its round trip.
pub proof fn law_probe_measures_transit(s: Session, sent_ns: u64, now_ns: u64, rest: Seq<u8>)
    requires
        sent_ns <= now_ns,
    ensures
        s.after_pong(probe_of(sent_ns) + rest, now_ns).transit_est_ns == (now_ns - sent_ns) / 2,
{
    let payload = probe_of(sent_ns) + rest;
    crate::bytes::lemma_le_bytes_len(sent_ns as nat, 8);
    crate::bytes::lemma_byte_range();
    crate::bytes::law_le_round_trip(sent_ns as nat, 8);
    assert(payload.subrange(0, 8) == crate::bytes::le_bytes(sent_ns as nat, 8));
}

/// A trade that a session sends on, and what the receiver makes of its quote.
pub struct Sent {
    /// The instrument: 0 is traded, 1 is the reference.
    pub id: u8,
    /// Price (binary32).
    pub price: u32,
    /// Volume (binary32).
    pub volume: u32,
    /// When the trade took place.
    pub time_ns: u64,
    /// Transit estimate at that time.
    pub transit_est_ns: u64,
    /// Mid price (binary32).
    pub mid: u32,
    /// Spread in basis points (binary32).
    pub spread: u32,
}

/// The session after a sequence of trades.
pub open spec fn after_trades(s: Session, sent: Seq<Sent>) -> Session
    decreases sent.len(),
{
    if sent.len() == 0 {
        s
    } else {
        after_trades(s, sent.drop_last()).after_packet(sent.last().id)
    }
}

/// What a session sends for a sequence of trades.
pub open spec fn feed_of(s: Session, sent: Seq<Sent>) -> Seq<(Seq<u8>, u32, u32)>
    decreases sent.len(),
{
    if sent.len() == 0 {
        Seq::empty()
    } else {
        let t = sent.last();
        let seq = after_trades(s, sent.drop_last()).next_seq(t.id);
        feed_of(s, sent.drop_last()).push(
            (
                crate::packet::packet_bytes(
                    t.price,
                    t.volume,
                    seq,
                    t.time_ns,
                    t.transit_est_ns,
                    t.id,
                ),
                t.mid,
                t.spread,
            ),
        )
    }
}

/// What a live session sends passes the ingestor without a gap, however the trades of the
/// two instruments mix: from a fresh ingestor on, or from one that saw the session so far.
pub proof fn law_live_feed_has_no_gap(i: crate::ingest::Ingestor, s: Session, sent: Seq<Sent>)
    requires
        i.traded_last == 0 || s.traded_seq == crate::wrap::next(i.traded_last),
        forall|k: int| 0 <= k < sent.len() ==> (#[trigger] sent[k]).id < 2,
    ensures
        ({
            let j = crate::ingest::fed(i, feed_of(s, sent));
            &&& j.stats.gap_count == i.stats.gap_count
            &&& j.traded_last == 0 || after_trades(s, sent).traded_seq == crate::wrap::next(
                j.traded_last,
            )
        }),
    decreases sent.len(),
{
    if sent.len() > 0 {
        let head = sent.drop_last();
        assert forall|k: int| 0 <= k < head.len() implies (#[trigger] head[k]).id < 2 by {
            assert(head[k] == sent[k]);
        }
        law_live_feed_has_no_gap(i, s, head);
        assert(sent[sent.len() - 1].id < 2);
        let t = sent.last();
        let seq = after_trades(s, head).next_seq(t.id);
        let feed = feed_of(s, sent);
        assert(feed.drop_last() == feed_of(s, head));
        crate::packet::lemma_packet_len(t.price, t.volume, seq, t.time_ns, t.transit_est_ns, t.id);
        crate::packet::law_packet_round_trip(
            t.price,
            t.volume,
            seq,
            t.time_ns,
            t.transit_est_ns,
            t.id,
            0,
        );
    }
}

// Pages of history.
/// Most pages that are fetched per pair.
pub const MAX_PAGES: u32 = 500;

/// Where the collection of one pair's history stands.
#[derive(Clone, Copy, Debug, PartialEq, Eq, Structural)]
pub struct Pager {
    /// The next page starts here.
    pub since: u64,
    /// Pages with trades so far.
    pub pages: u32,
    /// Trades so far.
    pub total: usize,
}

/// The number in a cursor; 0 if there is none.
pub open spec fn cursor_value(last: Seq<char>) -> u64 {
    match crate::text::parsed_u64(last) {
        Some(n) => n,
        None => 0,
    }
}

impl Pager {
    /// There is another page to fetch behind one with trades.
    pub open spec fn goes_on(self, next: u64, now_ns: u64) -> bool {
        self.since < next < now_ns && self.pages + 1 < MAX_PAGES
    }

    /// Whether another page is fetched behind one of `count` trades with a cursor, and the
    /// collection after it.
    pub open spec fn after_page(self, count: usize, next: u64, now_ns: u64) -> (bool, Pager) {
        if count == 0 {
            (false, self)
        } else {
            let more = self.goes_on(next, now_ns);
            (
                more,
                Pager {
                    since: if more {
                        next
                    } else {
                        self.since
                    },
                    pages: (self.pages + 1) as u32,
                    total: (self.total + count) as usize,
                },
            )
        }
    }

    /// A collection that starts at a time.
    pub fn new(since: u64) -> (p: Pager)
        ensures
            p == (Pager { since, pages: 0, total: 0 }),
    {
        Pager { since, pages: 0, total: 0 }
    }

    /// Takes in a page of `count` trades with its cursor; tells whether to fetch another.
    pub fn on_page(&mut self, count: usize, last: &str, now_ns: u64) -> (more: bool)
        requires
            old(self).pages < MAX_PAGES,
            old(self).total + count <= usize::MAX,
        ensures
            (more, *final(self)) == old(self).after_page(count, cursor_value(last@), now_ns),
            more ==> final(self).pages < MAX_PAGES,
    {
        if count == 0 {
            return false;
        }
        self.total = self.total + count;
        self.pages = self.pages + 1;
        let cs = chars_of(last);
        let next: u64 = match parse_u64(&cs) {
            Some(n) => n,
            None => 0,
        };
        if next <= self.since || next >= now_ns || self.pages >= MAX_PAGES {
            return false;
        }
        self.since = next;
        true
    }
}

/// Where a collection stands after pages with trades whose cursors all led on; nothing if
/// one did not.
pub open spec fn led_on(p: Pager, cursors: Seq<u64>, now_ns: u64) -> Option<Pager>
    decreases cursors.len(),
{
    if cursors.len() == 0 {
        Some(p)
    } else {
        match led_on(p, cursors.drop_last(), now_ns) {
            Some(q) => {
                let (more, after) = q.after_page(1, cursors.last(), now_ns);
                if more {
                    Some(Pager { total: q.total, ..after })
                } else {
                    None
                }
            },
            None => None,
        }
    }
}

/// Pages start later and later, before the present, and there is an end to them: fewer
/// than the most that are fetched lead on to another.
pub proof fn law_pages_advance(p: Pager, cursors: Seq<u64>, now_ns: u64)
    requires
        p.pages < MAX_PAGES,
        led_on(p, cursors, now_ns) is Some,
    ensures
        p.pages + cursors.len() < MAX_PAGES,
        led_on(p, cursors, now_ns)->0.pages == p.pages + cursors.len(),
        forall|i: int| 0 <= i < cursors.len() ==> p.since < #[trigger] cursors[i] < now_ns,
        forall|i: int, j: int| 0 <= i < j < cursors.len() ==> cursors[i] < cursors[j],
        cursors.len() > 0 ==> led_on(p, cursors, now_ns)->0.since == cursors.last(),
    decreases cursors.len(),
{
    if cursors.len() > 0 {
        let before = cursors.drop_last();
        law_pages_advance(p, before, now_ns);
        let q = led_on(p, before, now_ns)->0;
        let n = before.len() as int;
        if n > 0 {
            assert(before.last() == cursors[n - 1]);
            assert(p.since < before[n - 1]);
        } else {
            assert(q == p);
        }
        assert forall|i: int| 0 <= i < cursors.len() implies p.since < #[trigger] cursors[i]
            < now_ns by {
            if i < n {
                assert(before[i] == cursors[i]);
            }
        }
        assert forall|i: int, j: int| 0 <= i < j < cursors.len() implies cursors[i]
            < cursors[j] by {
            if j < n {
                assert(before[i] < before[j]);
            } else if i < n - 1 {
                assert(before[i] < before[n - 1]);
            }
        }
    }
}

/// Where a history of so many hours starts.
pub fn history_start(now_ns: u64, hours: u64) -> (since: u64)
    ensures
        since == crate::book::minus(
            now_ns,
            ((hours * 3_600_000_000_000) % 0x1_0000_0000_0000_0000) as u64,
        ),
        hours * 3600 * 1_000_000_000 <= now_ns ==> since + hours * 3600 * 1_000_000_000 == now_ns,
{
    now_ns.saturating_sub(hours.wrapping_mul(3_600_000_000_000))
}

// Replay and simulation.
/// How to wait for a gap between two packets.
#[derive(Clone, Copy, Debug, PartialEq, Eq, Structural)]
pub enum Pause {
    /// Not at all.
    Skip,
    /// Spin: the gap is too short to sleep.
    Spin {
        /// How long.
        ns: u64,
    },
    /// Sleep for the bulk of the gap, then spin for what is left of it.
    Sleep {
        /// How long to sleep.
        ns: u64,
        /// How long to spin.
        spin: u64,
    },
}

impl Pause {
    /// How long the wait is.
    pub open spec fn length(self) -> int {
        match self {
            Pause::Skip => 0,
            Pause::Spin { ns } => ns as int,
            Pause::Sleep { ns, spin } => ns + spin,
        }
    }
}

/// How to wait for a gap between two packets: from two milliseconds on it is slept but for
/// the last millisecond, which is spun.
pub open spec fn pause_of(ns: u64) -> Pause {
    if ns == 0 {
        Pause::Skip
    } else if ns >= 2_000_000 {
        Pause::Sleep { ns: (ns - 1_000_000) as u64, spin: 1_000_000 }
    } else {
        Pause::Spin { ns }
    }
}

/// Every gap is waited for in full; none is slept to its end, and the last millisecond of one
/// that is slept is spun.
pub proof fn law_pauses_last(ns: u64)
    ensures
        pause_of(ns).length() == ns,
        pause_of(ns) is Sleep <==> ns >= 2_000_000,
        pause_of(ns) matches Pause::Sleep { ns: slept, spin } ==> spin == 1_000_000 && slept + spin
            == ns,
{
}

/// How to wait for a gap between two packets. The wait is as long as the gap.
pub fn pause(ns: u64) -> (p: Pause)
    ensures
        p == pause_of(ns),
        p.length() == ns,
{
    if ns == 0 {
        Pause::Skip
    } else if ns >= 2_000_000 {
        Pause::Sleep { ns: ns - 1_000_000, spin: 1_000_000 }
    } else {
        Pause::Spin { ns }
    }
}

/// The sequence of packet `i` of a burst of the simulator.
pub open spec fn burst_sequence(burst: int, i: int) -> int {
    WARMUP_PACKETS + 1 + burst * BURST_SIZE + i
}

/// The sequence of packet `i` of a burst of the simulator.
pub fn burst_seq(burst: u64, i: u64) -> (seq: u64)
    requires
        burst < NUM_BURSTS,
        i < BURST_SIZE,
    ensures
        seq == burst_sequence(burst as int, i as int),
{
    WARMUP_PACKETS + 1 + burst * BURST_SIZE + i
}

/// Silence follows a burst: it does after each but the last.
pub open spec fn silence_after(burst: u64) -> bool {
    burst + 1 < NUM_BURSTS
}

/// Of the twenty bursts of 50 packets each all but the last are followed by silence.
pub proof fn law_bursts(burst: u64)
    requires
        burst < 20,
    ensures
        silence_after(burst) <==> burst != 19,
        burst_sequence(19, 49) - burst_sequence(0, 0) + 1 == 20 * 50,
{
}

/// Whether silence follows a burst: it does after each but the last.
pub fn gap_follows(burst: u64) -> (r: bool)
    requires
        burst < NUM_BURSTS,
    ensures
        r == silence_after(burst),
{
    burst + 1 < NUM_BURSTS
}

/// The simulator's sequences follow each other: bursts start where the warmup ends, and
/// each starts where the one before it ends.
pub proof fn law_bursts_follow(burst: int, i: int)
    requires
        0 <= burst < NUM_BURSTS,
        0 <= i < BURST_SIZE,
    ensures
        burst_sequence(0, 0) == WARMUP_PACKETS + 1,
        i + 1 < BURST_SIZE ==> burst_sequence(burst, i + 1) == burst_sequence(burst, i) + 1,
        burst_sequence(burst + 1, 0) == burst_sequence(burst, BURST_SIZE - 1) + 1,
{
}

/// A message of the traded pair is of instrument 0, one of the reference pair of instrument
/// 1, and one of any other pair, or of none, of neither.
pub proof fn law_instruments_by_pair(msg: Seq<char>, pair: Seq<char>, ref_pair: Seq<char>)
    ensures
        crate::trades::pair_of(msg) == Some(pair) ==> instrument_for(msg, pair, ref_pair) == Some(
            0u8,
        ),
        crate::trades::pair_of(msg) == Some(ref_pair) && pair != ref_pair ==> instrument_for(
            msg,
            pair,
            ref_pair,
        ) == Some(1u8),
        crate::trades::pair_of(msg) is None ==> instrument_for(msg, pair, ref_pair) is None,
        instrument_for(msg, pair, ref_pair) is Some ==> crate::trades::pair_of(msg) == Some(pair)
            || crate::trades::pair_of(msg) == Some(ref_pair),
{
}

/// A trade message that the exchange writes for the traded pair, or for the reference pair,
/// is answered with all of its trades, in order, under the instrument of its pair.
pub proof fn law_messages_give_their_trades(
    r: Reaction,
    channel: Seq<char>,
    rows: Seq<Seq<Seq<char>>>,
    pair: Seq<char>,
    ref_pair: Seq<char>,
    traded: bool,
)
    requires
        rows.len() > 0,
        forall|i: int| 0 <= i < rows.len() ==> crate::trades::sound_fields(#[trigger] rows[i]),
        forall|k: int| 0 <= k < channel.len() ==> #[trigger] channel[k] != '[',
        crate::trades::plain(pair),
        crate::trades::plain(ref_pair),
        pair != "trade"@,
        ref_pair != "trade"@,
        pair != ref_pair,
        text_reaction(
            r,
            crate::trades::message_text(
                channel,
                rows,
                if traded {
                    pair
                } else {
                    ref_pair
                },
            ),
            pair,
            ref_pair,
        ),
    ensures
        r matches Reaction::Trades { id, trades } && id == (if traded {
            0u8
        } else {
            1u8
        }) && trades@.len() == rows.len() && forall|i: int|
            0 <= i < rows.len() ==> crate::trades::says((#[trigger] trades@[i])@, rows[i]),
{
    let name = if traded {
        pair
    } else {
        ref_pair
    };
    let msg = crate::trades::message_text(channel, rows, name);
    crate::trades::law_trades_round_trip(channel, rows, name);
    if let Reaction::Trades { id, trades } = r {
        assert(crate::trades::trade_views(trades@).len() == rows.len());
        assert forall|i: int| 0 <= i < rows.len() implies crate::trades::says(
            (#[trigger] trades@[i])@,
            rows[i],
        ) by {
            assert(crate::trades::trade_views(trades@)[i] == trades@[i]@);
            assert(crate::trades::says(crate::trades::trades_of(msg)[i], rows[i]));
        }
    }
}

/// The transit estimate is half of a round trip, rounded down, and never negative; a pong
/// that is too short to carry a time changes nothing, and none changes the numbering.
pub proof fn law_transit_estimates(s: Session, payload: Seq<u8>, now_ns: u64, sent_ns: u64)
    ensures
        sent_ns <= now_ns ==> 2 * half_trip(now_ns, sent_ns) <= now_ns - sent_ns <= 2 * half_trip(
            now_ns,
            sent_ns,
        ) + 1,
        now_ns < sent_ns ==> half_trip(now_ns, sent_ns) == 0,
        payload.len() < 8 ==> s.after_pong(payload, now_ns) == s,
        s.after_pong(payload, now_ns).traded_seq == s.traded_seq,
        s.after_pong(payload, now_ns).reference_seq == s.reference_seq,
{
}

/// Each instrument counts its own packets, one after the other, from 1 on.
pub proof fn law_sessions_number_packets(s: Session, sent: Seq<Sent>)
    requires
        s.traded_seq + sent.len() <= u64::MAX,
        s.reference_seq + sent.len() <= u64::MAX,
    ensures
        after_trades(s, sent).traded_seq == s.traded_seq + sent.filter(
            |t: Sent| t.id == 0,
        ).len(),
        after_trades(s, sent).reference_seq == s.reference_seq + sent.filter(
            |t: Sent| t.id != 0,
        ).len(),
        after_trades(s, sent).transit_est_ns == s.transit_est_ns,
        s.next_seq(0) == s.traded_seq,
        s.next_seq(1) == s.reference_seq,
    decreases sent.len(),
{
    reveal(Seq::filter);
    let p = |t: Sent| t.id == 0;
    let q = |t: Sent| t.id != 0;
    if sent.len() > 0 {
        let head = sent.drop_last();
        law_sessions_number_packets(s, head);
        head.lemma_filter_len(p);
        head.lemma_filter_len(q);
    }
}

/// What a session sends for a trade is what the receiver reads: its price, volume, time,
/// instrument and transit estimate, under the next number of its instrument.
pub proof fn law_sent_trades_are_read(s: Session, sent: Seq<Sent>, t: Sent)
    requires
        t.id < 2,
    ensures
        ({
            let pkt = feed_of(s, sent.push(t)).last().0;
            let tick = crate::packet::tick_of(pkt, 0);
            let before = after_trades(s, sent);
            &&& feed_of(s, sent.push(t)).drop_last() == feed_of(s, sent)
            &&& crate::packet::instrument_of(pkt) == t.id
            &&& tick.price == t.price
            &&& tick.volume == t.volume
            &&& tick.origin_ts_ns == t.time_ns
            &&& tick.transit_est_ns == t.transit_est_ns
            &&& t.id == 0 ==> tick.sequence == before.traded_seq
            &&& t.id == 1 ==> tick.sequence == before.reference_seq
        }),
{
    let all = sent.push(t);
    assert(all.drop_last() == sent);
    assert(all.last() == t);
    let seq = after_trades(s, sent).next_seq(t.id);
    assert(feed_of(s, all).drop_last() == feed_of(s, sent));
    crate::packet::law_packet_round_trip(
        t.price,
        t.volume,
        seq,
        t.time_ns,
        t.transit_est_ns,
        t.id,
        0,
    );
}

/// Another page is fetched exactly if the cursor has moved on, has not reached the present,
/// and fewer than 500 pages were fetched with this one.
pub proof fn law_pages_go_on(p: Pager, next: u64, now_ns: u64)
    ensures
        p.goes_on(next, now_ns) <==> p.since < next && next < now_ns && p.pages < 499,
{
}

/// A cursor written in decimal is its number, and a text that is no number is none.
pub proof fn law_cursor_value(n: u64, last: Seq<char>)
    ensures
        cursor_value(crate::text::decimal(n as nat)) == n,
        last.len() == 0 ==> cursor_value(last) == 0,
        last.len() > 0 && !crate::text::is_digit(last.last()) ==> cursor_value(last) == 0,
{
    crate::text::law_decimal_round_trip(n);
    crate::text::law_unsigned_numbers(last);
}

/// The packet of a trade says what the trade was: price, time and instrument as they are, the
/// volume with the sign of its side, the number of the instrument's next packet, and the
/// latest transit estimate.
pub proof fn law_packets_of_trades(
    s: Session,
    id: u8,
    price: u32,
    volume: u32,
    sell: bool,
    time_ns: u64,
)
    requires
        id < 2,
    ensures
        ({
            let pkt = s.packet_of(id, price, volume, sell, time_ns);
            let tick = crate::packet::tick_of(pkt, 0);
            &&& pkt.len() == 33
            &&& crate::packet::instrument_of(pkt) == id
            &&& tick.price == price
            &&& tick.origin_ts_ns == time_ns
            &&& tick.transit_est_ns == s.transit_est_ns
            &&& id == 0 ==> tick.sequence == s.traded_seq
            &&& id == 1 ==> tick.sequence == s.reference_seq
            &&& !sell ==> tick.volume == volume
            &&& crate::ieee::finite(volume) && sell ==> crate::ieee::number(tick.volume)
                == -crate::ieee::number(volume)
        }),
{
    let signed = if sell {
        crate::ieee::negated(volume)
    } else {
        volume
    };
    let seq = s.next_seq(id);
    crate::packet::lemma_packet_len(price, signed, seq, time_ns, s.transit_est_ns, id);
    crate::packet::law_packet_round_trip(price, signed, seq, time_ns, s.transit_est_ns, id, 0);
    if crate::ieee::finite(volume) {
        crate::ieee::law_patterns_compare_as_numbers(volume, volume);
    }
}

/// The frame at the front of a buffer is taken out whole and alone: what stands behind it
/// stays, and a buffer with several gives them one after the other.
pub proof fn law_frames_are_taken_in_order(opcode: u8, payload: Seq<u8>, rest: Seq<u8>)
    requires
        payload.len() <= u64::MAX,
    ensures
        taken(crate::frame::server_bytes(opcode, payload) + rest) == Some(
            ((opcode % 16) as u8, payload, rest),
        ),
{
    let f = crate::frame::server_bytes(opcode, payload);
    crate::frame::law_server_frames(opcode, payload, rest);
    assert((f + rest).skip(f.len() as int) == rest);
}

/// A page without trades ends a collection and changes nothing; any other is counted with all
/// of its trades, and the next one starts at its cursor, if there is a next one.
pub proof fn law_pages_are_counted(p: Pager, count: usize, next: u64, now_ns: u64)
    requires
        p.pages < 500,
        p.total + count <= usize::MAX,
    ensures
        ({
            let (more, after) = p.after_page(count, next, now_ns);
            &&& count == 0 ==> !more && after == p
            &&& count > 0 ==> after.total == p.total + count && after.pages == p.pages + 1
            &&& more <==> count > 0 && p.since < next && next < now_ns && p.pages < 499
            &&& more ==> after.since == next
            &&& !more ==> after.since == p.since
        }),
{
}

/// What the frames of the feed ask for: a ping is answered with its own payload, a close
/// closes, a pong that carries the time of its probe sets the transit estimate and nothing
/// else, a text may bring trades, and every other frame is ignored. Only a pong changes the
/// session.
pub proof fn law_frames_are_answered(
    s: Session,
    opcode: u8,
    payload: Seq<u8>,
    pair: Seq<char>,
    ref_pair: Seq<char>,
    now_ns: u64,
    r: Reaction,
    after: Session,
)
    requires
        s.reacts(opcode, payload, pair, ref_pair, now_ns, r, after),
    ensures
        r is Closed <==> opcode == 8,
        r is Pong <==> opcode == 9,
        r matches Reaction::Pong { payload: p } ==> p@ == payload,
        r is Trades ==> opcode == 1,
        opcode != 10 ==> after == s,
        opcode == 10 && payload.len() >= 8 ==> after.transit_est_ns == half_trip(
            now_ns,
            crate::bytes::le_value(payload.take(8)) as u64,
        ),
        after.traded_seq == s.traded_seq,
        after.reference_seq == s.reference_seq,
        opcode == 1 && crate::trades::pair_of(crate::handshake::lossy(payload)) == Some(pair)
            ==> r is Trades,
        opcode == 1 && crate::trades::pair_of(crate::handshake::lossy(payload)) == Some(ref_pair)
            ==> r is Trades,
{
    if payload.len() >= 8 {
        assert(payload.take(8) == payload.subrange(0, 8));
    }
}

} // verus!

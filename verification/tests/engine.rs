use rust_hft_software::affinity::{core_for_tag, core_mask};
use rust_hft_software::bench::{
    mode_name, ops_per_instruction, select_mode, Arch, ComputeMode, Cpu,
};
use rust_hft_software::book::{Act, OrderBook, Risk};
use rust_hft_software::clock::{elapsed_ns, interval_passed, low_nanos};
use rust_hft_software::exchange::{is_order_packet, Exchange};
use rust_hft_software::ieee::{
    is_finite, is_finite64, is_le, is_le64, is_lt, is_lt64, is_nan, is_nan64, is_positive, negate,
};
use rust_hft_software::ingest::Ingestor;
use rust_hft_software::logs::{OrderEntry, OrderRing, RingBuffer, RoundTrip, RoundTripLog, SignalLog};
use rust_hft_software::packet::{
    build_legacy_packet, build_packet, build_simulated_packet, decode, instrument, InstrumentId,
    MarketTick,
};
use rust_hft_software::strategy::{
    buy_rule, Arrival, BuyRule, Levels, Strategy, Trigger, Window,
};
use rust_hft_software::watchdog::{Verdict, Watchdog};

fn bits(x: f32) -> u32 {
    x.to_bits()
}

fn levels(breakout: f32, dip: f32, reference: f32) -> Levels {
    Levels { breakout: bits(breakout), dip: bits(dip), reference: bits(reference) }
}

fn act(sequence: u64, send: u64, transit: u64) -> Act {
    Act {
        sequence,
        ingest_time_ns: 100,
        transit_est_ns: transit,
        buy_time_ns: 150,
        order_send_ns: send,
    }
}

fn trip(side: i64) -> RoundTrip {
    RoundTrip {
        entry_time_ns: 10,
        exit_time_ns: 40,
        spread_cost_bps: 0,
        side,
        entry_price: bits(100.0),
        exit_price: bits(101.0),
        size: bits(1.0),
        gross_bps: bits(100.0),
        net_bps: bits(95.0),
        pnl_quote: bits(9.5),
        fees_quote: bits(0.5),
        flags: 0,
    }
}

#[test]
fn comparisons_agree_with_the_numbers() {
    let values = [
        0.0f32, -0.0, 1.0, -1.0, 1.5e-40, -1.5e-40, f32::MAX, f32::MIN, f32::INFINITY,
        f32::NEG_INFINITY, f32::NAN, 100.25, 99.75,
    ];
    for a in values {
        assert_eq!(is_nan(bits(a)), a.is_nan());
        assert_eq!(is_finite(bits(a)), a.is_finite());
        assert_eq!(is_positive(bits(a)), a > 0.0);
        assert_eq!(negate(bits(a)), bits(-a));
        for b in values {
            assert_eq!(is_lt(bits(a), bits(b)), a < b);
            assert_eq!(is_le(bits(a), bits(b)), a <= b);
        }
    }
    let wide = [0.0f64, -0.0, 2.5, -2.5, f64::MAX, f64::MIN, f64::INFINITY, f64::NAN, 1e-310];
    for a in wide {
        assert_eq!(is_nan64(a.to_bits()), a.is_nan());
        assert_eq!(is_finite64(a.to_bits()), a.is_finite());
        for b in wide {
            assert_eq!(is_lt64(a.to_bits(), b.to_bits()), a < b);
            assert_eq!(is_le64(a.to_bits(), b.to_bits()), a <= b);
        }
    }
}

#[test]
fn packet_layout() {
    let p = build_packet(bits(100.5), bits(-2.0), 7, 8, 9, 1);
    assert_eq!(&p[0..4], &100.5f32.to_le_bytes());
    assert_eq!(&p[4..8], &(-2.0f32).to_le_bytes());
    assert_eq!(&p[8..16], &7u64.to_le_bytes());
    assert_eq!(&p[16..24], &8u64.to_le_bytes());
    assert_eq!(&p[24..32], &9u64.to_le_bytes());
    assert_eq!(p[32], 1);
    let t = decode(&p, 55).unwrap();
    assert_eq!(f32::from_bits(t.price), 100.5);
    assert_eq!(f32::from_bits(t.volume), -2.0);
    assert_eq!((t.sequence, t.timestamp, t.origin_ts_ns, t.transit_est_ns), (7, 55, 8, 9));
    assert_eq!((t.bid, t.ask, t.mark_price, t.funding_rate), (0, 0, 0, 0));
    assert_eq!(instrument(&p), 1);
}

#[test]
fn packet_forms_share_their_front() {
    let legacy = build_legacy_packet(bits(1.0), bits(2.0), 3);
    let sim = build_simulated_packet(bits(1.0), bits(2.0), 3, 44);
    let full = build_packet(bits(1.0), bits(2.0), 3, 5, 44, 9);
    assert_eq!(legacy, sim[..16].to_vec());
    assert_eq!(legacy, full[..16].to_vec());
    assert_eq!(decode(&sim, 0).unwrap().transit_est_ns, 44);
    assert_eq!(decode(&legacy, 0).unwrap().transit_est_ns, 0);
    assert_eq!(instrument(&full), 0);
    assert_eq!(instrument(&sim), 0);
    assert!(decode(&legacy[..15], 0).is_none());
    let mut quoted = full.to_vec();
    for x in [10.0f32, 11.0, 10.5, 0.0001] {
        quoted.extend_from_slice(&x.to_le_bytes());
    }
    let t = decode(&quoted, 0).unwrap();
    assert_eq!(f32::from_bits(t.bid), 10.0);
    assert_eq!(f32::from_bits(t.ask), 11.0);
    assert_eq!(f32::from_bits(t.mark_price), 10.5);
    assert_eq!(f32::from_bits(t.funding_rate), 0.0001);
    assert_eq!(decode(&quoted[..48], 0).unwrap().bid, 0);
}

#[test]
fn ticks_survive_as_words() {
    let t = MarketTick {
        price: 1,
        volume: 0xFFFF_FFFF,
        sequence: 3,
        timestamp: 4,
        origin_ts_ns: 5,
        transit_est_ns: u64::MAX,
        bid: 7,
        ask: 8,
        mark_price: 9,
        funding_rate: 10,
    };
    let w = t.to_words();
    assert_eq!(w[0], 0xFFFF_FFFF_0000_0001);
    assert_eq!(w[7], 0);
    assert_eq!(MarketTick::from_words(&w), t);
    assert_eq!(InstrumentId(7).as_index(), 7);
}

#[test]
fn ingestor_routes_and_numbers() {
    let mut i = Ingestor::new();
    assert!(i.accept(&[0; 15], 0, 0, 1).is_none());
    let a = i.accept(&build_packet(bits(5.0), 0, 1, 0, 0, 0), 0, 0, 77).unwrap();
    assert_eq!((a.instrument, a.index, a.slot, a.gap, a.tick.timestamp), (0, 1, 1, false, 77));
    let b = i.accept(&build_packet(bits(6.0), 0, 9, 0, 0, 1), 0, 0, 78).unwrap();
    assert_eq!((b.instrument, b.index, b.gap), (1, 1, false));
    let c = i.accept(&build_packet(bits(4.0), 0, 2, 0, 0, 0), 0, 0, 79).unwrap();
    assert_eq!((c.index, c.gap), (2, false));
    let d = i.accept(&build_packet(bits(f32::NAN), 0, 4, 0, 0, 0), 0, 0, 80).unwrap();
    assert!(d.gap);
    assert_eq!(i.stats.gap_count, 1);
    let e = i.accept(&build_packet(bits(900.0), 0, 50, 0, 0, 1), 0, 0, 81).unwrap();
    assert!(!e.gap);
    assert_eq!(f32::from_bits(i.stats.price_lo), 4.0);
    assert_eq!(f32::from_bits(i.stats.price_hi), 5.0);
    assert_eq!(f32::from_bits(i.stats.spread_lo), f32::INFINITY);
}

#[test]
fn ingestor_tracks_quotes() {
    let mut i = Ingestor::new();
    let quote = |seq: u64, bid: f32, ask: f32, funding: f32| -> Vec<u8> {
        let mut p = build_packet(bits(100.0), 0, seq, 0, 0, 0).to_vec();
        for x in [bid, ask, 100.0, funding] {
            p.extend_from_slice(&x.to_le_bytes());
        }
        p
    };
    i.accept(&quote(1, 99.0, 101.0, 0.5), bits(100.0), bits(200.0), 0);
    i.accept(&quote(2, 99.5, 100.5, f32::NAN), bits(100.0), bits(100.0), 0);
    i.accept(&quote(3, 101.0, 99.0, 0.25), bits(100.0), bits(-200.0), 0);
    i.accept(&quote(4, 0.0, 0.0, 0.125), bits(0.0), bits(f32::NAN), 0);
    assert_eq!(f32::from_bits(i.stats.spread_lo), 100.0);
    assert_eq!(f32::from_bits(i.stats.spread_hi), 200.0);
    assert_eq!(f32::from_bits(i.stats.funding), 0.125);
}

#[test]
fn ingestor_wraps_at_the_end_of_sequences() {
    let mut i = Ingestor::new();
    i.accept(&build_legacy_packet(0, 0, u64::MAX), 0, 0, 0);
    let p = i.accept(&build_legacy_packet(0, 0, 0), 0, 0, 0).unwrap();
    assert!(!p.gap);
    i.traded_next = 1024;
    let q = i.accept(&build_legacy_packet(0, 0, 1), 0, 0, 0).unwrap();
    assert_eq!((q.index, q.slot), (1024, 0));
}

#[test]
fn ring_buffer_keeps_recent_ticks() {
    let mut r = RingBuffer::new();
    assert_eq!(r.latest().price, 0);
    for n in 1..=1025u64 {
        let t = decode(&build_legacy_packet(n as u32, 0, n), 0).unwrap();
        r.publish(n, t);
        assert_eq!(r.latest().sequence, n);
    }
    assert_eq!(r.ticks[2].sequence, 2);
    assert_eq!(r.ticks[1].sequence, 1025);
}

#[test]
fn order_ring_is_first_in_first_out() {
    let mut r = OrderRing::new();
    assert!(r.next(0).is_none());
    for n in 0..1000u64 {
        r.push(OrderEntry { sequence: n, slot: n, order_send_ns: 2 * n });
    }
    for n in 0..1000u64 {
        assert_eq!(r.next(n).unwrap().sequence, n);
    }
    assert!(r.next(1000).is_none());
}

#[test]
fn round_trip_and_signal_logs_wrap() {
    let mut log = RoundTripLog::new();
    assert_eq!(log.count(), 0);
    for n in 0..4097i64 {
        let mut t = trip(1);
        t.side = n;
        log.push(t);
    }
    assert_eq!(log.count(), 4096);
    assert_eq!(log.entries[0].side, 4096);
    assert_eq!(log.entries[1].side, 1);
    assert_eq!(log.next_slot(), 1);
    assert_eq!(trip(1).hold_ns(), 30);
    let mut s = SignalLog::new();
    for n in 0..2049u32 {
        s.sample(n);
    }
    assert_eq!((s.count(), s.series[0], s.series[1]), (2048, 2048, 1));
}

#[test]
fn buys_are_logged_and_filled_one_transit_later() {
    let mut b = OrderBook::new();
    assert_eq!(b.check_risk(11), Risk::Commit);
    let order = b.commit_buy(&act(11, 200, 1000), bits(99.0));
    assert_eq!(order, OrderEntry { sequence: 11, slot: 0, order_send_ns: 200 });
    assert_eq!((b.net_position, b.attempts, b.filled), (1, 1, 0));
    assert_eq!(b.trade_log.entries[0].latency_ns, 50);
    assert_eq!(b.sig_hist.buckets[50], 1);
    b.resolve_fills(bits(98.0), 1199);
    assert_eq!(b.trade_log.entries[0].fill_price, 0);
    b.resolve_fills(bits(97.0), 1200);
    assert_eq!(f32::from_bits(b.trade_log.entries[0].fill_price), 97.0);
    assert_eq!(b.filled, 1);
}

#[test]
fn fills_resolve_oldest_first() {
    let mut b = OrderBook::new();
    b.commit_buy(&act(11, 500, 0), bits(1.0));
    b.commit_buy(&act(12, 100, 0), bits(1.0));
    b.resolve_fills(bits(5.0), 300);
    assert_eq!(b.filled, 0);
    b.resolve_fills(bits(6.0), 500);
    assert_eq!(b.filled, 2);
    assert_eq!(f32::from_bits(b.trade_log.entries[1].fill_price), 6.0);
}

#[test]
fn fills_beyond_the_capacity_are_not_scheduled() {
    let mut b = OrderBook::new();
    for n in 0..300u64 {
        b.commit_buy(&act(11 + n, 10, 0), bits(1.0));
    }
    assert_eq!(b.pending.len(), 256);
    b.resolve_fills(bits(2.0), 10);
    assert_eq!((b.attempts, b.filled), (300, 256));
}

#[test]
fn risk_limits() {
    let mut b = OrderBook::new();
    assert_eq!(b.check_risk(10), Risk::Warmup);
    b.net_position = 9_999;
    assert_eq!(b.check_risk(11), Risk::Commit);
    b.commit_buy(&act(11, 0, 0), bits(1.0));
    assert_eq!(b.net_position, 10_000);
    assert_eq!(b.check_risk(12), Risk::PositionLimit);
    assert!(b.halt);
    b.net_position = 0;
    assert_eq!(b.check_risk(13), Risk::Halted);
}

#[test]
fn model_orders_move_the_position() {
    let mut b = OrderBook::new();
    b.enter(-1, bits(-6.5), &act(20, 1, 1));
    assert_eq!(b.net_position, -1);
    assert_eq!(f32::from_bits(b.signal.at_entry[0]), -6.5);
    assert_eq!(b.trade_log.entries[0].target_price, 0);
    assert_eq!((b.attempts, b.pending.len()), (0, 0));
    b.exit(trip(-1), false, &act(21, 2, 1));
    assert_eq!(b.net_position, 0);
    assert_eq!(b.round_trips.count(), 1);
    assert!(!b.halt);
    b.open(1, &act(22, 3, 1));
    b.exit(trip(1), true, &act(23, 4, 1));
    assert!(b.halt);
    assert_eq!(b.trade_log.count(), 4);
    let order = b.emit_latency_order(&act(24, 5, 1));
    assert_eq!(order.slot, 4);
    assert!(b.room());
}

#[test]
fn dirty_feed_lets_ticks_pass() {
    let mut s = Strategy::new(BuyRule::Breakout, 0);
    assert_eq!(s.arrive(0, false, 0), Arrival::Idle);
    assert_eq!(s.arrive(1, false, 0), Arrival::Process);
    assert_eq!(s.arrive(1, false, 0), Arrival::Idle);
    for n in 2..6 {
        assert_eq!(
            s.arrive(n, true, 1),
            Arrival::Skipped { clear_dirty: false, halt: false }
        );
    }
    assert_eq!(s.arrive(6, true, 1), Arrival::Skipped { clear_dirty: true, halt: false });
    assert!(!s.book.halt);
    assert_eq!(s.arrive(7, true, 11), Arrival::Skipped { clear_dirty: false, halt: true });
    assert!(s.book.halt);
    assert_eq!(s.arrive(8, false, 11), Arrival::Process);
    assert_eq!(s.passed, 0);
}

#[test]
fn only_clean_ticks_in_a_row_clear_the_feed() {
    let mut s = Strategy::new(BuyRule::Breakout, 0);
    let gaps = [1u64, 1, 1, 2, 2, 2, 2, 3, 3, 3, 3, 3];
    for (n, g) in gaps.iter().enumerate() {
        let clear_dirty = n + 1 == gaps.len();
        assert_eq!(
            s.arrive(n as u64 + 1, true, *g),
            Arrival::Skipped { clear_dirty, halt: false },
            "{}",
            n
        );
    }
    assert_eq!((s.passed, s.gaps_seen), (0, 3));
}

#[test]
fn late_spins_are_stalls() {
    let mut s = Strategy::new(BuyRule::Breakout, 0);
    s.idle(10_000);
    s.idle(10_500);
    assert_eq!(s.book.stall_count, 0);
    s.idle(11_001);
    assert_eq!(s.book.stall_count, 1);
    s.idle(5);
    assert_eq!(s.book.stall_count, 1);
}

#[test]
fn window_holds_the_last_eight() {
    let mut w = Window::new();
    assert_eq!(f32::from_bits(w.max()), 0.0);
    for x in [3.0f32, 9.0, 1.0, 2.0, 4.0, 5.0, 6.0, 7.0] {
        w.push(bits(x));
    }
    assert_eq!(f32::from_bits(w.max()), 9.0);
    w.push(bits(8.0));
    assert_eq!(f32::from_bits(w.max()), 9.0);
    w.push(bits(0.5));
    assert_eq!(f32::from_bits(w.max()), 8.0);
    assert_eq!(f32::from_bits(w.prices[7]), 0.5);
}

#[test]
fn a_tick_begins_with_its_fills() {
    let mut s = Strategy::new(BuyRule::Target, bits(50.0));
    s.buy(bits(49.0), &act(11, 10, 5));
    assert_eq!(f32::from_bits(s.book.trade_log.entries[0].target_price), 50.0);
    let max = s.begin_tick(bits(48.0), 15);
    assert_eq!(max, 0);
    assert_eq!(s.book.filled, 1);
    assert_eq!(f32::from_bits(s.window.prices[7]), 48.0);
    assert!(s.warmed(11) && !s.warmed(10));
}

#[test]
fn a_tick_ends_with_the_risk_limits() {
    let mut s = Strategy::new(BuyRule::Breakout, 0);
    let l = levels(10.0, 0.0, 0.0);
    assert_eq!(s.on_tick(1, bits(9.0), 0, &l), None);
    assert_eq!(s.on_tick(2, bits(11.0), 0, &l), Some(Risk::Warmup));
    assert_eq!(s.on_tick(11, bits(11.0), 0, &l), Some(Risk::Commit));
    s.buy(bits(11.0), &act(11, 10, 5));
    assert_eq!(s.on_tick(12, bits(8.0), 15, &l), None);
    assert_eq!(f32::from_bits(s.book.trade_log.entries[0].fill_price), 8.0);
    assert_eq!(f32::from_bits(s.window.max()), 11.0);
    s.book.net_position = 10_000;
    assert_eq!(s.on_tick(13, bits(12.0), 16, &l), Some(Risk::PositionLimit));
    assert_eq!(s.on_tick(14, bits(12.0), 17, &l), Some(Risk::Halted));
}

#[test]
fn buy_rules_have_an_order() {
    let (one, none) = (bits(1.0), bits(0.0));
    assert_eq!(buy_rule(true, true, one, one), BuyRule::Model);
    assert_eq!(buy_rule(false, true, one, one), BuyRule::Downtick);
    assert_eq!(buy_rule(false, false, one, one), BuyRule::Dip);
    assert_eq!(buy_rule(false, false, none, one), BuyRule::Target);
    assert_eq!(buy_rule(false, false, none, none), BuyRule::Breakout);
}

#[test]
fn triggers_fire_as_their_rules_say() {
    let l = levels(101.0, 95.0, 100.0);
    let mut model = Trigger::new(BuyRule::Model, 0);
    assert!(!model.step(bits(1e9), &l));
    let mut breakout = Trigger::new(BuyRule::Breakout, 0);
    assert!(!breakout.step(bits(101.0), &l));
    assert!(breakout.step(bits(101.5), &l));
    assert!(!breakout.step(bits(f32::NAN), &l));
    let mut down = Trigger::new(BuyRule::Downtick, 0);
    assert!(!down.step(bits(10.0), &l));
    assert!(down.step(bits(9.0), &l));
    assert!(!down.step(bits(9.0), &l));
    assert!(!down.step(bits(9.5), &l));
    let mut dip = Trigger::new(BuyRule::Dip, 0);
    assert!(dip.step(bits(95.0), &l));
    assert!(!dip.step(bits(90.0), &l));
    assert!(!dip.step(bits(99.0), &l));
    assert!(!dip.step(bits(94.0), &l));
    assert!(!dip.step(bits(100.0), &l));
    assert!(dip.step(bits(94.0), &l));
    let mut target = Trigger::new(BuyRule::Target, bits(50.0));
    assert!(!target.step(bits(51.0), &l));
    assert!(target.step(bits(50.0), &l));
    assert!(!target.step(bits(49.0), &l));
    assert!(!target.step(bits(52.0), &l));
    assert!(target.step(bits(48.0), &l));
    assert_eq!(target.aim_at(bits(1.0)), bits(50.0));
    assert_eq!(down.aim_at(bits(1.0)), bits(1.0));
}

#[test]
fn only_the_target_rule_aims_at_the_target() {
    let target = bits(50.0);
    assert_eq!(Trigger::new(BuyRule::Target, target).aim_at(bits(49.0)), target);
    assert_eq!(Trigger::new(BuyRule::Dip, target).aim_at(bits(49.0)), bits(49.0));
    assert_eq!(Trigger::new(BuyRule::Breakout, target).aim_at(bits(49.0)), bits(49.0));
    assert_eq!(Trigger::new(BuyRule::Downtick, target).aim_at(bits(49.0)), bits(49.0));
}

#[test]
fn reference_ticks_are_looked_at_once() {
    let mut s = Strategy::new(BuyRule::Model, 0);
    assert_eq!(s.reference(0), None);
    assert_eq!(s.reference(1025), Some(1));
    assert_eq!(s.reference(1025), None);
    assert_eq!(s.reference(1026), Some(2));
}

#[test]
fn every_eighth_signal_is_sampled() {
    let mut s = Strategy::new(BuyRule::Model, 0);
    for n in 1..=20u32 {
        s.note_signal(n, 7);
    }
    assert_eq!(s.book.signal.count(), 2);
    assert_eq!((s.book.signal.series[0], s.book.signal.series[1]), (8, 16));
    assert_eq!((s.book.latest_signal, s.book.vol_ema), (20, 7));
    s.book.note_volatility(9);
    assert_eq!(s.book.vol_ema, 9);
    assert!(!s.triggered(bits(1.0), &levels(0.0, 0.0, 0.0)));
    assert_eq!(s.check_risk(1), Risk::Warmup);
    s.enter(1, 5, &act(30, 0, 0));
    s.exit(trip(1), false, &act(31, 0, 0));
    s.open(-1, &act(32, 0, 0));
    assert_eq!(s.book.net_position, -1);
}

#[test]
fn exchange_confirms_in_order() {
    let mut e = Exchange::new();
    assert_eq!(e.next_slot(0), None);
    assert_eq!(e.next_slot(1), Some(0));
    let c = e.confirm(&OrderEntry { sequence: 1, slot: 1025, order_send_ns: 100 }, 184);
    assert_eq!((c.slot, c.round_trip_ns), (1, 84));
    assert_eq!(e.next_slot(1), None);
    assert_eq!(e.next_slot(2), Some(1));
    let late = e.confirm(&OrderEntry { sequence: 2, slot: 2, order_send_ns: 500 }, 400);
    assert_eq!(late.round_trip_ns, 0);
    assert_eq!((e.rt_hist.buckets[84], e.rt_hist.buckets[0]), (1, 1));
    assert!(is_order_packet(24) && !is_order_packet(23));
    let mut b = OrderBook::new();
    let order = b.commit_buy(&act(11, 100, 0), bits(1.0));
    let done = e.confirm(&order, 141);
    b.trade_log.confirm(done.slot, done.round_trip_ns);
    assert_eq!(b.trade_log.entries[0].round_trip_ns, 41);
}

#[test]
fn late_confirmations_find_their_trade() {
    let mut e = Exchange::new();
    let mut b = OrderBook::new();
    let order = b.commit_buy(&act(11, 100, 0), bits(1.0));
    for n in 0..1023u64 {
        b.open(1, &act(12 + n, 0, 0));
    }
    let done = e.confirm(&order, 900);
    b.trade_log.confirm(done.slot, done.round_trip_ns);
    assert_eq!((b.trade_log.entries[0].sequence, b.trade_log.entries[0].round_trip_ns), (11, 800));
}

#[test]
fn entry_signals_stay_with_their_round_trip() {
    let mut b = OrderBook::new();
    b.open(1, &act(20, 0, 0));
    b.exit(trip(1), false, &act(21, 0, 0));
    b.enter(-1, bits(-4.0), &act(22, 0, 0));
    b.note_signal(bits(9.0), 0, true);
    b.resolve_fills(bits(2.0), 10);
    b.exit(trip(-1), false, &act(23, 0, 0));
    assert_eq!(f32::from_bits(b.signal.at_entry[1]), -4.0);
    assert_eq!(b.round_trips.entries[1].side, -1);
    assert_eq!((b.net_position, b.trade_log.count()), (0, 4));
}

#[test]
fn watchdog_looks_and_decides() {
    let mut w = Watchdog::new();
    w.spins = 0x00FF_FFFE;
    assert!(!w.spin());
    assert!(w.spin());
    assert!(!w.spin());
    assert_eq!(w.check(499_999_999, 0), Verdict::Wait);
    assert_eq!(w.last_check_ns, 0);
    assert_eq!(w.check(29_999_999_999, 0), Verdict::Wait);
    assert_eq!(w.last_check_ns, 29_999_999_999);
    assert_eq!(w.check(30_499_999_999, 0), Verdict::NoFeed);
    assert_eq!(w.check(31_000_000_000, 21_000_000_001), Verdict::Wait);
    assert_eq!(w.check(32_000_000_000, 22_000_000_000), Verdict::Shutdown);
    assert_eq!(w.check(32_100_000_000, 22_000_000_000), Verdict::Wait);
}

#[test]
fn clock_runs_and_is_cut_to_64_bits() {
    let start = std::time::Instant::now();
    let a = elapsed_ns(&start);
    let b = elapsed_ns(&start);
    assert!(a <= b && b < 60_000_000_000);
    assert_eq!(low_nanos(0x1_0000_0000_0000_0005), 5);
    assert!(interval_passed(1000, 1000) && !interval_passed(999, 1000));
}

#[test]
fn threads_have_their_cores() {
    assert_eq!(core_for_tag(1), Some(2));
    assert_eq!(core_for_tag(2), Some(3));
    assert_eq!(core_for_tag(3), Some(4));
    assert_eq!(core_for_tag(0), None);
    assert_eq!(core_mask(4), 16);
}

#[test]
fn benchmark_modes() {
    let cpu = |arch, a, b, c| Cpu { arch, avx512f: a, avx2: b, sse: c };
    assert_eq!(select_mode(&cpu(Arch::X86, true, true, true)), ComputeMode::Avx512);
    assert_eq!(select_mode(&cpu(Arch::X86, false, true, true)), ComputeMode::Avx2);
    assert_eq!(select_mode(&cpu(Arch::X86, false, false, true)), ComputeMode::Sse);
    assert_eq!(select_mode(&cpu(Arch::X86, false, false, false)), ComputeMode::Scalar);
    assert_eq!(select_mode(&cpu(Arch::Arm, true, true, true)), ComputeMode::Neon);
    assert_eq!(select_mode(&cpu(Arch::Other, true, true, true)), ComputeMode::Scalar);
    assert_eq!(mode_name(ComputeMode::Avx512), "AVX-512 (512-bit, 16×f32)");
    assert_eq!(mode_name(ComputeMode::Avx2), "AVX2 (256-bit, 8×f32)");
    assert_eq!(mode_name(ComputeMode::Sse), "SSE (128-bit, 4×f32)");
    assert_eq!(mode_name(ComputeMode::Scalar), "Scalar (no SIMD)");
    let lanes: Vec<usize> = vec![
        ops_per_instruction(ComputeMode::Avx512),
        ops_per_instruction(ComputeMode::Avx2),
        ops_per_instruction(ComputeMode::Sse),
        ops_per_instruction(ComputeMode::Neon),
        ops_per_instruction(ComputeMode::Scalar),
    ];
    assert_eq!(lanes, vec![16, 8, 4, 4, 1]);
}

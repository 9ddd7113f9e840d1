use rust_hft_software::backtest::{
    elite_size, grid_point, middle_time, model_events, overfit, part_ticks, part_trips, row_flag,
    scoring, split_time, traded_count, Best, GridPoint, ModelEvent, Scoring, Search, GRID_SIZE,
};
use rust_hft_software::bytes::{push_be, push_le, read_be, read_le};
use rust_hft_software::calendar::unix_to_date_time;
use rust_hft_software::capture::{
    history_capture, load_capture, parse_capture, push_header, push_record, push_synth_round,
    BtTick, HistoryTrade, Recorder, SynthRound,
};
use rust_hft_software::logs::RoundTrip;
use rust_hft_software::model::Policy;
use rust_hft_software::packet::{build_packet, decode};
use rust_hft_software::rng::{
    lcg_bytes, lcg_high48, lcg_next, sim_transit_ns, synth_origin_ns, synth_transit_ns, Rng,
};
use rust_hft_software::sort::stable_order;
use rust_hft_software::wrap::increment;

fn bits(x: f32) -> u32 {
    x.to_bits()
}

fn tick(id: u8, t_ns: u64) -> BtTick {
    BtTick { id, price: bits(10.0), vol: 0, t_ns, bid: 0, ask: 0 }
}

fn trip(entry_time_ns: u64) -> RoundTrip {
    RoundTrip {
        entry_time_ns,
        exit_time_ns: entry_time_ns,
        spread_cost_bps: 0,
        side: 1,
        entry_price: 0,
        exit_price: 0,
        size: 0,
        gross_bps: 0,
        net_bps: 0,
        pnl_quote: 0,
        fees_quote: 0,
        flags: 0,
    }
}

#[test]
fn integers_survive_as_bytes() {
    let mut le = Vec::new();
    push_le(&mut le, 0x0102_0304_0506_0708, 8);
    assert_eq!(le, 0x0102_0304_0506_0708u64.to_le_bytes().to_vec());
    assert_eq!(read_le(&le, 0, 8), 0x0102_0304_0506_0708);
    assert_eq!(read_le(&le, 2, 2), 0x0506);
    let mut be = vec![9];
    push_be(&mut be, 0x0102, 2);
    assert_eq!(be, vec![9, 1, 2]);
    assert_eq!(read_be(&be, 1, 2), 0x0102);
}

#[test]
fn counters_wrap() {
    assert_eq!((increment(4), increment(u64::MAX)), (5, 0));
}

#[test]
fn capture_bytes() {
    let mut out = Vec::new();
    push_header(&mut out);
    assert_eq!(out, b"KRKR\x01".to_vec());
    push_record(&mut out, 7, b"abc");
    assert_eq!(out[5..].to_vec(), b"\x07\0\0\0\0\0\0\0\x03\0abc".to_vec());
}

#[test]
fn capture_round_trip() {
    let packets: Vec<Vec<u8>> = vec![
        build_packet(bits(1.0), bits(2.0), 1, 2, 3, 0).to_vec(),
        Vec::new(),
        vec![5; 300],
    ];
    let mut out = Vec::new();
    push_header(&mut out);
    for (i, p) in packets.iter().enumerate() {
        push_record(&mut out, 10 * i as u64, p);
    }
    let back = parse_capture(&out).unwrap();
    assert_eq!(back.len(), 3);
    for (i, r) in back.iter().enumerate() {
        assert_eq!(r.delta_ns, 10 * i as u64);
        assert_eq!(r.packet, packets[i]);
    }
}

#[test]
fn capture_cut_short_keeps_whole_records() {
    let mut out = Vec::new();
    push_header(&mut out);
    push_record(&mut out, 1, b"first");
    let whole = out.len();
    push_record(&mut out, 2, b"second");
    for cut in whole..out.len() {
        let back = parse_capture(&out[..cut]).unwrap();
        assert_eq!(back.len(), 1);
        assert_eq!(back[0].packet, b"first".to_vec());
    }
}

#[test]
fn captures_need_their_magic() {
    assert!(parse_capture(b"KRKS\x01").is_none());
    assert!(parse_capture(b"KRKR").is_none());
    assert!(load_capture(b"krkr\x01").is_none());
    assert_eq!(parse_capture(b"KRKR\x09").unwrap().len(), 0);
}

#[test]
fn recorder_writes_the_time_between_packets() {
    let mut r = Recorder::new();
    let mut out = Vec::new();
    push_header(&mut out);
    out.extend_from_slice(&r.write(1000, b"x"));
    out.extend_from_slice(&r.write(1250, b"y"));
    out.extend_from_slice(&r.write(1300, b"z"));
    let deltas: Vec<u64> = parse_capture(&out).unwrap().iter().map(|r| r.delta_ns).collect();
    assert_eq!(deltas, vec![0, 250, 50]);
}

#[test]
fn loading_a_capture_reads_its_ticks() {
    let mut out = Vec::new();
    push_header(&mut out);
    push_record(&mut out, 5, &build_packet(bits(1.5), bits(-2.5), 1, 0, 0, 1));
    let mut quoted = build_packet(bits(3.0), 0, 1, 0, 0, 0).to_vec();
    for x in [2.5f32, 3.5, 3.0, 0.0] {
        quoted.extend_from_slice(&x.to_le_bytes());
    }
    push_record(&mut out, 6, &quoted);
    push_record(&mut out, 7, &[0; 8]);
    push_record(&mut out, 8, &[0; 7]);
    push_record(&mut out, 9, &[0; 16]);
    let ticks = load_capture(&out).unwrap();
    assert_eq!(ticks.len(), 3);
    assert_eq!(
        ticks[0],
        BtTick { id: 1, price: bits(1.5), vol: bits(-2.5), t_ns: 5, bid: 0, ask: 0 }
    );
    assert_eq!((ticks[1].t_ns, ticks[1].bid, ticks[1].ask), (11, bits(2.5), bits(3.5)));
    assert_eq!((ticks[2].t_ns, ticks[2].id), (18, 0));
}

#[test]
fn synthetic_rounds_lead_with_the_reference() {
    let mut out = Vec::new();
    push_header(&mut out);
    let round = SynthRound { ref_price: 1, ref_volume: 2, traded_price: 3, traded_volume: 4 };
    push_synth_round(&mut out, 6, &round);
    let back = parse_capture(&out).unwrap();
    assert_eq!(back.len(), 2);
    assert_eq!((back[0].delta_ns, back[1].delta_ns), (2_500_000, 2_500_000));
    assert_eq!((back[0].packet[32], back[1].packet[32]), (1, 0));
    let t = decode(&back[1].packet, 0).unwrap();
    assert_eq!((t.price, t.volume, t.sequence), (3, 4, 6));
    assert_eq!(t.origin_ts_ns, 1_700_000_000_030_000_000);
    assert_eq!(t.transit_est_ns, 33_000_000 + 6 * 2_654_435 % 8_000_000);
}

#[test]
fn synthetic_captures_hold_two_records_a_round() {
    let mut out = Vec::new();
    push_header(&mut out);
    for k in 1..=40u64 {
        let n = k as u32;
        let round = SynthRound {
            ref_price: n,
            ref_volume: n + 100,
            traded_price: n + 200,
            traded_volume: n + 300,
        };
        push_synth_round(&mut out, k, &round);
    }
    let back = parse_capture(&out).unwrap();
    assert_eq!(back.len(), 80);
    for k in 1..=40usize {
        let a = decode(&back[2 * k - 2].packet, 0).unwrap();
        let b = decode(&back[2 * k - 1].packet, 0).unwrap();
        assert_eq!((back[2 * k - 2].packet[32], back[2 * k - 1].packet[32]), (1, 0));
        assert_eq!((a.sequence, b.sequence), (k as u64, k as u64));
        assert_eq!((a.price, b.price), (k as u32, k as u32 + 200));
        assert_eq!(a.origin_ts_ns, 1_700_000_000_000_000_000 + 5_000_000 * k as u64);
        assert_eq!((a.origin_ts_ns, a.transit_est_ns), (b.origin_ts_ns, b.transit_est_ns));
        assert!(33_000_000 <= a.transit_est_ns && a.transit_est_ns < 41_000_000);
    }
}

#[test]
fn history_is_sorted_and_numbered() {
    let h = |time_ns: u64, id: u8, price: u32| HistoryTrade { time_ns, id, price, volume: 0 };
    let trades = vec![
        h(5_000_000_000, 0, 1),
        h(1_000_000_000, 1, 2),
        h(1_000_000_000, 0, 3),
        h(1_500_000_000, 0, 4),
    ];
    let back = parse_capture(&history_capture(&trades)).unwrap();
    let seen: Vec<(u64, u32, u64, u8)> = back
        .iter()
        .map(|r| {
            let t = decode(&r.packet, 0).unwrap();
            (r.delta_ns, t.price, t.sequence, r.packet[32])
        })
        .collect();
    assert_eq!(
        seen,
        vec![(0, 2, 1, 1), (0, 3, 1, 0), (500_000_000, 4, 2, 0), (1_000_000_000, 1, 3, 0)]
    );
    assert_eq!(decode(&back[3].packet, 0).unwrap().origin_ts_ns, 5_000_000_000);
}

#[test]
fn model_sees_references_and_warms_up() {
    let mut ticks = vec![tick(1, 0)];
    for n in 1..=11 {
        ticks.push(tick(0, n));
    }
    ticks.push(tick(7, 12));
    let events = model_events(&ticks);
    assert_eq!(events.len(), 13);
    assert_eq!(events[0], ModelEvent::Reference { price: bits(10.0) });
    assert_eq!(events[10], ModelEvent::Traded { tick: tick(0, 10), warmed: false });
    assert_eq!(events[11], ModelEvent::Traded { tick: tick(0, 11), warmed: true });
    assert_eq!(events[12], ModelEvent::Traded { tick: tick(7, 12), warmed: true });
    assert_eq!(traded_count(&ticks), 11);
}

#[test]
fn captures_split_by_time() {
    let ticks: Vec<BtTick> = (0..10).map(|n| tick(0, 100 + n)).collect();
    let split = split_time(&ticks);
    assert_eq!(split, 107);
    let early = part_ticks(&ticks, split, false);
    let late = part_ticks(&ticks, split, true);
    assert_eq!((early.len(), late.len()), (7, 3));
    assert_eq!(late[0].t_ns, 107);
    assert_eq!(middle_time(&ticks), 104);
    let none: Vec<BtTick> = Vec::new();
    assert_eq!(split_time(&none), u64::MAX);
    assert_eq!(middle_time(&none), 0);
    let trips: Vec<RoundTrip> = vec![trip(106), trip(107), trip(108)];
    let late_trips = part_trips(&trips, split, true);
    assert_eq!((part_trips(&trips, split, false).len(), late_trips.len()), (1, 2));
    assert_eq!(late_trips[0].entry_time_ns, 107);
}

#[test]
fn sweep_visits_every_setting_once() {
    let first = GridPoint {
        maker: false,
        signal_thr_bps: bits(3.0),
        trail_bps: bits(6.0),
        fee_gate: false,
        min_edge_bps: bits(0.0),
    };
    let last = GridPoint {
        maker: true,
        signal_thr_bps: bits(10.0),
        trail_bps: bits(10.0),
        fee_gate: true,
        min_edge_bps: bits(2.0),
    };
    assert_eq!((grid_point(0), grid_point(23)), (first, last));
    let mut k = 0;
    for maker in [false, true] {
        for thr in [3.0f32, 5.0, 10.0] {
            for trail in [6.0f32, 10.0] {
                for gate in [false, true] {
                    let p = grid_point(k);
                    assert_eq!((p.maker, p.fee_gate), (maker, gate));
                    assert_eq!((p.signal_thr_bps, p.trail_bps), (bits(thr), bits(trail)));
                    k += 1;
                }
            }
        }
    }
    assert_eq!(k, GRID_SIZE);
}

#[test]
fn flags_of_a_row() {
    let b = |x: f64| x.to_bits();
    assert_eq!(row_flag(b(1.0), b(-1.0)), "overfit");
    assert_eq!(row_flag(b(-1.0), b(1.0)), "OOS+");
    assert_eq!(row_flag(b(1.0), b(0.0)), "");
    assert_eq!(row_flag(b(-1.0), b(f64::NAN)), "");
    assert!(overfit(b(0.5), b(-0.5)) && !overfit(b(0.0), b(-0.5)) && !overfit(b(0.5), b(0.0)));
}

#[test]
fn search_keeps_its_best() {
    assert_eq!(scoring(0, false), Scoring::NoTrade);
    assert_eq!(scoring(50, true), Scoring::NoTrade);
    assert_eq!(scoring(29, false), Scoring::Scaled);
    assert_eq!(scoring(30, false), Scoring::Full);
    assert_eq!((elite_size(256), elite_size(31), elite_size(0)), (32, 4, 4));
    let mut best = Best::new();
    assert!(!best.found);
    assert!(!best.offer(f64::MIN.to_bits()));
    assert!(best.offer((-100.0f64).to_bits()));
    assert!(!best.offer((-100.0f64).to_bits()));
    assert!(!best.offer(f64::NAN.to_bits()));
    assert!(best.offer(0.25f64.to_bits()));
    assert_eq!((f64::from_bits(best.score), best.found), (0.25, true));
}

#[test]
fn search_ends_with_the_best_candidate() {
    let policy = |n: u32| Policy { p: [n; 65] };
    let scores = |v: &[f64]| v.iter().map(|x| x.to_bits()).collect::<Vec<u64>>();
    let mut s = Search::new();
    assert_eq!(s.policy.p, [0; 65]);
    let first = vec![policy(1), policy(2), policy(3)];
    assert_eq!(s.generation(&first, &scores(&[-100.0, 0.5, 0.25])), vec![1, 2, 0]);
    assert_eq!((s.policy.p[0], f64::from_bits(s.best.score)), (2, 0.5));
    let second = vec![policy(4), policy(5)];
    assert_eq!(s.generation(&second, &scores(&[0.5, 0.25])), vec![0, 1]);
    assert_eq!(s.policy.p[64], 2);
    s.generation(&second, &scores(&[0.75, 1.5]));
    assert_eq!((s.policy.p[7], f64::from_bits(s.best.score)), (5, 1.5));
}

#[test]
fn generators_give_known_values() {
    let mut r = Rng(0);
    assert_eq!(r.u64(), 0xE220_A839_7B1D_CDAF);
    assert_eq!(r.u64(), 0x6E78_9E6A_A1B9_65F4);
    assert_eq!(r.high53(), 0x06C4_5D18_8009_454F >> 11);
    assert_eq!(lcg_next(0), 1_442_695_040_888_963_407);
    assert_eq!(lcg_high48(0x0001_0000), 1);
    let first = lcg_next(1);
    let second = lcg_next(first);
    assert_eq!(lcg_bytes(1, 2), vec![(first >> 33) as u8, (second >> 33) as u8]);
}

#[test]
fn stand_in_transits() {
    assert_eq!(sim_transit_ns(1), 31_618_033);
    assert_eq!(sim_transit_ns(4), 30_000_000 + 6_472_132 - 6_000_000);
    assert_eq!(sim_transit_ns(u64::MAX), 30_000_000 + 1_618_033u64.wrapping_neg() % 6_000_000);
    assert_eq!(synth_transit_ns(1), 35_654_435);
    assert_eq!(synth_origin_ns(2), 1_700_000_000_010_000_000);
}

#[test]
fn sorting_is_stable() {
    assert_eq!(stable_order(&vec![3, -1, 3, 2, -1]), vec![1, 4, 3, 0, 2]);
    assert_eq!(stable_order(&Vec::new()), Vec::<usize>::new());
}

#[test]
fn dates_of_seconds() {
    let at = |s: u64| -> (String, String) { unix_to_date_time(s) };
    let pair = |d: &str, t: &str| (d.to_string(), t.to_string());
    assert_eq!(at(0), pair("1970-01-01", "00-00-00"));
    assert_eq!(at(86_399), pair("1970-01-01", "23-59-59"));
    assert_eq!(at(951_782_400), pair("2000-02-29", "00-00-00"));
    assert_eq!(at(951_868_800), pair("2000-03-01", "00-00-00"));
    assert_eq!(at(1_709_164_799), pair("2024-02-28", "23-59-59"));
    assert_eq!(at(1_700_000_000), pair("2023-11-14", "22-13-20"));
    assert_eq!(at(4_107_542_400), pair("2100-03-01", "00-00-00"));
    assert_eq!(at(253_402_300_800), pair("10000-01-01", "00-00-00"));
}

use rust_hft_software::backtest::grid_point;
use rust_hft_software::book::{Act, OrderBook};
use rust_hft_software::histogram::LatencyHistogram;
use rust_hft_software::ingest::{FeedStats, Ingestor};
use rust_hft_software::journal::{
    push_stat_json, write_log, LogFigures, LogModelTexts, LogScoreTexts, LogTexts, TradeTexts,
    TripTexts,
};
use rust_hft_software::logs::{RoundTrip, TradeExecution};
use rust_hft_software::report::{
    counters_from, peak_rss_bytes, physical_memory, print_stats, BuyTexts, MarketTexts, Memory,
    ModelTexts, ReportConfig, ReportTexts, ScoreTexts, SlippageTexts,
};
use rust_hft_software::stats::{
    end_to_end_ns, end_to_end_samples, latencies, magnitude_percentiles, outcome, profit_factor,
    ranking, slippage_pairs, slipped, summarize, tally, transit_samples, EquityPath, Outcome,
    ProfitFactor,
};
use rust_hft_software::strategy::BuyRule;
use rust_hft_software::tables::{
    push_eval_foot, push_eval_head, push_eval_line, push_search_foot, push_search_head,
    push_search_row, push_sweep_foot, push_sweep_head, push_sweep_row, EvalTexts, RowTexts,
    SearchSize, SweepTexts,
};

fn bits(x: f32) -> u32 {
    x.to_bits()
}

fn line(n: usize) -> String {
    format!("{}\n", "─".repeat(n))
}

fn act(sequence: u64, ingest: u64, buy: u64, send: u64, transit: u64) -> Act {
    Act {
        sequence,
        ingest_time_ns: ingest,
        transit_est_ns: transit,
        buy_time_ns: buy,
        order_send_ns: send,
    }
}

fn trip(side: i64, gross: f32, net: f32, pnl: f32, flags: f32) -> RoundTrip {
    RoundTrip {
        entry_time_ns: 1_000,
        exit_time_ns: 3_500,
        spread_cost_bps: 0,
        side,
        entry_price: bits(100.0),
        exit_price: bits(101.0),
        size: bits(2.0),
        gross_bps: bits(gross),
        net_bps: bits(net),
        pnl_quote: bits(pnl),
        fees_quote: bits(0.5),
        flags: bits(flags),
    }
}

/// Two buys: the first filled and confirmed, the second without a transit estimate.
fn bought() -> (OrderBook, LatencyHistogram) {
    let mut book = OrderBook::new();
    let mut rt_hist = LatencyHistogram::new();
    book.commit_buy(&act(11, 100, 150, 160, 30_000_000), bits(100.0));
    book.commit_buy(&act(12, 200, 230, 240, 0), bits(200.0));
    book.pending.pop_back();
    book.resolve_fills(bits(100.5), 40_000_000);
    book.trade_log.confirm(0, 84);
    rt_hist.record(84);
    (book, rt_hist)
}

fn feed() -> FeedStats {
    let mut i = Ingestor::new();
    i.stats.gap_count = 3;
    i.stats.price_lo = bits(99.5);
    i.stats.price_hi = bits(101.25);
    i.stats
}

fn quoted_feed() -> FeedStats {
    let mut f = feed();
    f.spread_lo = bits(0.5);
    f.spread_hi = bits(2.25);
    f.funding = bits(0.0001);
    f
}

fn config(trading: bool, momentum: bool, rule: BuyRule) -> ReportConfig {
    ReportConfig { trading, momentum, allow_short: true, adaptive: false, use_flow: true, rule }
}

fn memory() -> Memory {
    Memory {
        total_ram: 16 << 30,
        rss_start: 2 << 20,
        rss_ready: (3 << 20) + 5,
        rss_pre_log: 4 << 20,
    }
}

fn report_texts() -> ReportTexts {
    let s = |x: &str| x.to_string();
    ReportTexts {
        model: ModelTexts {
            leverage: s("5"),
            fee: s("2.6"),
            w_trend: s("1.0"),
            w_flow: s("0.5"),
            w_basket: s("0.4"),
            w_leadlag: s("0.3"),
            threshold: s("5.0"),
            latest_signal: s("+6.25"),
            entry: s("3.0"),
            take_profit: s("10.0"),
            stop_loss: s("12.0"),
        },
        market: MarketTexts {
            price_lo: s("99.50"),
            price_hi: s("101.25"),
            range_bps: s("175.9"),
            volatility: s("1.50"),
            spread_lo: s("0.50"),
            spread_hi: s("2.25"),
            funding: s("0.00010000"),
        },
        score: ScoreTexts {
            ruined: false,
            return_bits: 1.5f64.to_bits(),
            hit_rate: s("50.0"),
            win_rate: s("40.0"),
            capital: s("10000.00"),
            final_equity: s("10150.00"),
            return_pct: s("+1.50"),
            total_pnl: s("+150.00"),
            gross_bps: s("+7.00"),
            net_bps: s("+1.80"),
            avg_win: s("+9.00"),
            avg_loss: s("-4.00"),
            profit_factor: s("2.00"),
            max_drawdown: s("12.00"),
            max_dd_pct: s("0.1"),
            sharpe: s("0.70"),
            fees: s("33.00"),
            hold_ms: s("4.5"),
        },
        slippage: SlippageTexts {
            mean: s("+50.00"),
            abs_p50: s("51.00"),
            abs_p95: s("52.00"),
            max: s("+53.00"),
            min: s("-54.00"),
        },
        buy: BuyTexts { dip_bps: s("3.5"), target: s("100.2500") },
    }
}

fn trade_table() -> String {
    let mut e = String::new();
    e += "Total trades executed: 2\n\n";
    e += &format!(
        "{:<10} {:>14} {:>14} {:>16} {:>14}\n",
        "Sequence", "Sig Lat (ns)", "Round Trip(ns)", "Transit (µs)", "End-End (µs)"
    );
    e += &line(72);
    e += &format!("{:<10} {:>14} {:>14} {:>16} {:>14}\n", 11, 50, "84", "30000", "30000");
    e += &format!("{:<10} {:>14} {:>14} {:>16} {:>14}\n", 12, 30, "—", "—", "—");
    e += &line(55);
    e += &format!("Signal latency — Avg: {:>7} ns  Min: {:>7} ns  Max: {:>7} ns\n", 40, 30, 50);
    e += &format!(
        "                p50: {:>7} ns  p95: {:>7} ns  p99: {:>7} ns  p99.9: {:>7} ns\n",
        30, 50, 50, 50
    );
    e += &format!("Round trip     — Avg: {:>7} ns  Min: {:>7} ns  Max: {:>7} ns\n", 84, 84, 84);
    e += &format!(
        "                p50: {:>7} ns  p95: {:>7} ns  p99: {:>7} ns  p99.9: {:>7} ns\n",
        84, 84, 84, 84
    );
    e += &line(55);
    e += &format!(
        "Transit (RTT/2)— Avg: {:>7} µs  Min: {:>7} µs  Max: {:>7} µs  (n={})\n",
        30000, 30000, 30000, 1
    );
    e += &format!(
        "                p50: {:>7} µs  p95: {:>7} µs  p99: {:>7} µs  p99.9: {:>7} µs\n",
        30000, 30000, 30000, 30000
    );
    e += &format!(
        "End-to-end     — Avg: {:>7} µs  Min: {:>7} µs  Max: {:>7} µs  (n={})\n",
        30000, 30000, 30000, 1
    );
    e += &format!(
        "                p50: {:>7} µs  p95: {:>7} µs  p99: {:>7} µs  p99.9: {:>7} µs\n",
        30000, 30000, 30000, 30000
    );
    e += "  (end-to-end ≈ transit + signal + round-trip; the engine's own\n";
    e += "   reaction is the ns-scale signal+round-trip — a rounding error vs transit)\n";
    e
}

#[test]
fn histogram_percentiles() {
    let mut h = LatencyHistogram::new();
    assert_eq!(h.percentile(50, 100, 0), 0);
    for ns in [0, 5, 5, 10_000, 10_001, 99_999] {
        h.record(ns);
    }
    assert_eq!((h.buckets[5], h.buckets[10_000], h.overflow), (2, 1, 2));
    assert_eq!(h.percentile(1, 100, 6), 0);
    assert_eq!(h.percentile(50, 100, 6), 5);
    assert_eq!(h.percentile(51, 100, 6), 10_000);
    assert_eq!(h.percentile(67, 100, 6), 10_001);
    assert_eq!(h.percentile(999, 1000, 6), 10_001);
    assert!(h.percentile(20, 100, 6) <= h.percentile(80, 100, 6));
    assert_eq!(h.percentile(u64::MAX, u64::MAX, 1), 0);
    assert_eq!(h.percentile(u64::MAX, 1, u64::MAX), 10_001);
    assert_eq!((h.count(), LatencyHistogram::new().count()), (6, 0));
}

/// Twice as many buys as the log holds: the earlier half took 10 ns, the later half 90 ns.
fn outlived() -> (OrderBook, LatencyHistogram) {
    let mut book = OrderBook::new();
    let mut rt_hist = LatencyHistogram::new();
    for i in 0..2048u64 {
        let signal_ns: u64 = if i < 1024 { 10 } else { 90 };
        book.commit_buy(&act(i, 100, 100 + signal_ns, 200, 0), bits(100.0));
    }
    book.trade_log.confirm(1023, 70);
    for ns in [40, 40, 70] {
        rt_hist.record(ns);
    }
    (book, rt_hist)
}

#[test]
fn percentiles_count_trades_that_left_the_log() {
    let (book, rt_hist) = outlived();
    assert_eq!((book.sig_hist.count(), rt_hist.count()), (2048, 3));
    let c = config(false, false, BuyRule::Downtick);
    let out = print_stats(&book, &rt_hist, &feed(), &c, &memory(), &report_texts());
    let mut e = format!("Signal latency — Avg: {:>7} ns  Min: {:>7} ns  Max: {:>7} ns\n", 90, 90, 90);
    e += &format!(
        "                p50: {:>7} ns  p95: {:>7} ns  p99: {:>7} ns  p99.9: {:>7} ns\n",
        10, 90, 90, 90
    );
    e += &format!("Round trip     — Avg: {:>7} ns  Min: {:>7} ns  Max: {:>7} ns\n", 70, 70, 70);
    e += &format!(
        "                p50: {:>7} ns  p95: {:>7} ns  p99: {:>7} ns  p99.9: {:>7} ns\n",
        40, 70, 70, 70
    );
    assert!(out.contains(&e));
    let log = write_log(
        "0.1.0",
        0,
        &book,
        &rt_hist,
        &feed(),
        &c,
        &memory(),
        &log_figures(0, 0, 1024),
    );
    let stages = r#"  "signal_latency": {
    "avg_ns": 90,
    "min_ns": 90,
    "max_ns": 90,
    "p50_ns": 10,
    "p95_ns": 90,
    "p99_ns": 90,
    "p999_ns": 90
  },
  "round_trip": {
    "avg_ns": 70,
    "min_ns": 70,
    "max_ns": 70,
    "p50_ns": 40,
    "p95_ns": 70,
    "p99_ns": 70,
    "p999_ns": 70
  },
"#;
    assert!(log.json.contains(stages));
}

#[test]
fn summaries_of_samples() {
    assert!(summarize(Vec::new()).is_none());
    let s = summarize((1..=1000).rev().collect()).unwrap();
    assert_eq!((s.avg, s.min, s.max, s.count), (500, 1, 1000, 1000));
    assert_eq!((s.p50, s.p95, s.p99, s.p999), (500, 950, 990, 999));
    let t = summarize(vec![u64::MAX, u64::MAX - 2]).unwrap();
    assert_eq!((t.avg, t.p50, t.p95), (u64::MAX - 1, u64::MAX - 2, u64::MAX));
    assert_eq!(summarize(vec![7]).unwrap().p999, 7);
}

#[test]
fn samples_of_trades() {
    let (book, _) = bought();
    let trades: Vec<TradeExecution> = book.trade_log.entries[..2].to_vec();
    assert_eq!(transit_samples(&trades), vec![30_000_000]);
    assert_eq!(end_to_end_samples(&trades), vec![30_000_134]);
    assert_eq!(end_to_end_ns(&trades[1]), 30);
    let l = latencies(&trades);
    assert_eq!((l.sig_sum, l.sig_min, l.sig_max), (80, 30, 50));
    assert_eq!((l.rt_sum, l.rt_min, l.rt_max, l.rt_count), (84, 84, 84, 1));
    assert!(slipped(&trades[0]) && !slipped(&trades[1]));
    assert_eq!(slippage_pairs(&trades), vec![(bits(100.5), bits(100.0))]);
}

#[test]
fn magnitudes_and_rankings() {
    let v: Vec<u64> = [3.0f64, 1.0, 2.0, 4.0].iter().map(|x| x.to_bits()).collect();
    let (p50, p95) = magnitude_percentiles(&v).unwrap();
    assert_eq!((f64::from_bits(p50), f64::from_bits(p95)), (2.0, 4.0));
    assert!(magnitude_percentiles(&Vec::new()).is_none());
    let scores: Vec<u64> = [1.0f64, -5.0, 3.0, 1.0].iter().map(|x| x.to_bits()).collect();
    assert_eq!(ranking(&scores), vec![2, 0, 3, 1]);
    let zeros: Vec<u64> = [0.0f64, -0.0, 0.0].iter().map(|x| x.to_bits()).collect();
    assert_eq!(ranking(&zeros), vec![0, 1, 2]);
}

#[test]
fn tallies_count_both_ways() {
    let t = tally(&[
        trip(1, 5.0, 1.0, 10.0, 0.0),
        trip(-1, 3.0, -2.0, -5.0, 0.0),
        trip(-1, -9.0, f32::NAN, -50.0, 1.0),
    ]);
    assert_eq!((t.n, t.wins, t.losses), (3, 1, 2));
    assert_eq!((t.longs, t.shorts, t.liquidations, t.gross_wins), (1, 2, 1, 2));
    assert_eq!(t.wins + t.losses, t.n);
    assert_eq!(t.longs + t.shorts, t.n);
}

#[test]
fn equity_path_follows_the_account() {
    let b = |x: f64| x.to_bits();
    let mut p = EquityPath::new(b(100.0));
    for equity in [110.0f64, 90.0, 120.0, 40.0] {
        p.raise(b(equity));
        let below = f64::from_bits(p.peak) - equity;
        p.fall(b(equity), b(below));
    }
    assert_eq!(f64::from_bits(p.peak), 120.0);
    assert_eq!(f64::from_bits(p.drawdown), 80.0);
    assert_eq!(f64::from_bits(p.low), 40.0);
    assert!(!p.ruined());
    p.fall(b(0.0), b(120.0));
    assert!(p.ruined());
}

#[test]
fn verdicts() {
    let b = |x: f64| x.to_bits();
    assert_eq!(outcome(true, b(5.0)), Outcome::Ruined);
    assert_eq!(outcome(false, b(5.0)), Outcome::Profitable);
    assert_eq!(outcome(false, b(0.0)), Outcome::Loss);
    assert_eq!(profit_factor(b(10.0), b(-5.0)), ProfitFactor::Ratio);
    assert_eq!(profit_factor(b(10.0), b(0.0)), ProfitFactor::Infinite);
    assert_eq!(profit_factor(b(0.0), b(0.0)), ProfitFactor::Zero);
}

#[test]
fn memory_figures() {
    assert_eq!((peak_rss_bytes(7, true), peak_rss_bytes(7, false)), (7, 7168));
    assert_eq!(physical_memory(10, 4096), 40_960);
    assert_eq!((physical_memory(-1, 4096), physical_memory(10, 0)), (0, 0));
}

#[test]
fn report_of_a_target_run() {
    let (book, rt_hist) = bought();
    let out = print_stats(
        &book,
        &rt_hist,
        &quoted_feed(),
        &config(false, false, BuyRule::Target),
        &memory(),
        &report_texts(),
    );
    let mut e = trade_table();
    e += &line(72);
    e += "Target buy @ 100.2500  |  attempts: 2  filled: 1  pending: 1\n";
    e += "Observed price range: [99.50, 101.25]  (175.9 bps span)\n";
    e += "Market data: spread 0.50–2.25 bps  |  funding 0.00010000 (raw, latest)\n";
    e += "Slippage (fill−target) — mean: +50.00 bps   |slip|: p50 51.00  p95 52.00 bps   (n=1)\n";
    e += "                         worst adverse: +53.00 bps   best: -54.00 bps\n";
    e += &line(55);
    e += "OS stalls (>500ns spin gap): 0  |  Sequence gaps: 3  |  Net position: 2  |  Halt: false\n";
    e += &line(55);
    e += "Memory — Total RAM: 16384 MB\n";
    e += "  [1] start          Peak RSS: 2 MB\n";
    e += "  [2] after ready    Peak RSS: 3 MB\n";
    e += "  [3] before log     Peak RSS: 4 MB\n";
    assert_eq!(out, e);
}

#[test]
fn report_names_the_buy_rule() {
    let (book, rt_hist) = bought();
    let report = |rule: BuyRule| {
        print_stats(
            &book,
            &rt_hist,
            &feed(),
            &config(false, false, rule),
            &memory(),
            &report_texts(),
        )
    };
    assert!(report(BuyRule::Downtick).contains(
        "\nDowntick buys  |  attempts: 2  filled: 1  pending: 1  (slippage vs the price we acted on)\nObserved"
    ));
    assert!(report(BuyRule::Dip).contains(
        "\nDip buys (3.5 bps)  |  attempts: 2  filled: 1  pending: 1  (slippage vs the price we acted on)\n"
    ));
    assert!(report(BuyRule::Breakout).contains(
        "\nBreakout buys  |  attempts: 2  filled: 1  pending: 1  (slippage measured vs entry price)\n"
    ));
    assert!(!report(BuyRule::Breakout).contains("Market data"));
}

#[test]
fn report_of_an_empty_run() {
    let out = print_stats(
        &OrderBook::new(),
        &LatencyHistogram::new(),
        &feed(),
        &config(false, false, BuyRule::Breakout),
        &memory(),
        &report_texts(),
    );
    let mut e = String::from("Total trades executed: 0\n\n");
    e += &format!(
        "{:<10} {:>14} {:>14} {:>16} {:>14}\n",
        "Sequence", "Sig Lat (ns)", "Round Trip(ns)", "Transit (µs)", "End-End (µs)"
    );
    e += &line(72);
    e += &line(72);
    e += "Breakout buys  |  attempts: 0  filled: 0  pending: 0  (slippage measured vs entry price)\n";
    e += "Observed price range: [99.50, 101.25]  (175.9 bps span)\n";
    e += "  → no buys triggered. The market moved only 175.9 bps this run; try\n";
    e += "    a smaller HFT_TARGET_DIP_BPS, HFT_DOWNTICK=1, a busier pair, or a longer run.\n";
    e += &line(55);
    e += "OS stalls (>500ns spin gap): 0  |  Sequence gaps: 3  |  Net position: 0  |  Halt: false\n";
    e += &line(55);
    e += "Memory — Total RAM: 16384 MB\n";
    e += "  [1] start          Peak RSS: 2 MB\n";
    e += "  [2] after ready    Peak RSS: 3 MB\n";
    e += "  [3] before log     Peak RSS: 4 MB\n";
    assert_eq!(out, e);
}

#[test]
fn report_of_orders_in_flight() {
    let mut book = OrderBook::new();
    book.commit_buy(&act(11, 0, 5, 6, 0), bits(1.0));
    let out = print_stats(
        &book,
        &LatencyHistogram::new(),
        &Ingestor::new().stats,
        &config(false, false, BuyRule::Breakout),
        &memory(),
        &report_texts(),
    );
    assert!(out.contains("Round trip     — no confirmations received\n"));
    assert!(out.contains(
        "Transit (RTT/2)— no transit estimates (legacy/simulated feed without RTT)\n"
    ));
    assert!(out.contains("Slippage: no fills resolved before shutdown (orders still in flight)\n"));
    assert!(!out.contains("Observed price range"));
    assert!(!out.contains("End-to-end"));
}

#[test]
fn report_of_the_trend_model() {
    let (mut book, rt_hist) = bought();
    book.exit(trip(1, 5.0, 1.0, 10.0, 0.0), false, &act(13, 0, 1, 2, 0));
    let out = print_stats(
        &book,
        &rt_hist,
        &quoted_feed(),
        &config(true, true, BuyRule::Model),
        &memory(),
        &report_texts(),
    );
    let mut e = line(72);
    e += "TRADING SCORECARD  (long&short TREND-FOLLOWING + cross-market, 5x lev, 2.6 bps/side fee)\n";
    e += "Signal: S = 1.0·trend + 0.5·flow + 0.4·basket + 0.3·leadlag   gate ±5.0 bps   latest S +6.25 bps\n";
    e += "Observed price range: [99.50, 101.25]  (175.9 bps span)  |  volatility ~1.50 bps/tick\n";
    e += "Market data: spread 0.50–2.25 bps  |  funding 0.00010000 (raw, latest)\n";
    e += "Round-trips: 1  (1 long / 0 short)  |  liquidations 0\n";
    e += "Hit rate (signal accuracy, gross): 50.0% (1/1)   |   net-win rate (after fees): 40.0% (1W/0L)\n";
    e += "Capital 10000.00 → equity 10150.00   (+1.50% return on capital)\n";
    e += "Net P&L: +150.00 quote   (gross +7.00 bps/trade, net +1.80 bps/trade after fees)\n";
    e += "Avg win +9.00 bps  |  avg loss -4.00 bps  |  profit factor 2.00\n";
    e += "Max drawdown 12.00 quote (0.1%)  |  Sharpe(/trade) 0.70  |  fees 33.00  |  avg hold 4.5 ms\n";
    e += "→ net PROFITABLE after fees over this run.\n";
    e += &line(72);
    e += "OS stalls (>500ns spin gap): 0  |  Sequence gaps: 3  |  Net position: 1  |  Halt: false\n";
    e += &line(72);
    e += "Memory — Total RAM: 16384 MB  |  Peak RSS: 4 MB\n";
    assert!(out.ends_with(&e), "{}", out);
}

#[test]
fn report_of_the_reversion_model() {
    let mut book = OrderBook::new();
    let mut texts = report_texts();
    let mut c = config(true, false, BuyRule::Model);
    let empty = print_stats(&book, &LatencyHistogram::new(), &feed(), &c, &memory(), &texts);
    assert!(empty.contains(
        "TRADING SCORECARD  (long&short mean-reversion, entry 3.0/TP 10.0/SL 12.0 bps +order-flow, 5x lev, 2.6 bps/side fee)\n"
    ));
    assert!(empty.contains(
        "No round-trips closed (try a busier pair, longer run, or smaller HFT_ENTRY_BPS).\n"
    ));
    c.adaptive = true;
    c.use_flow = false;
    c.allow_short = false;
    texts.score.ruined = true;
    book.exit(trip(-1, -5.0, -8.0, -10.0, 1.0), true, &act(13, 0, 1, 2, 0));
    let ruined = print_stats(&book, &LatencyHistogram::new(), &feed(), &c, &memory(), &texts);
    assert!(ruined.contains(
        "TRADING SCORECARD  (long-only mean-reversion, ADAPTIVE (entry 1σ/TP 1.5σ/SL 2.5σ), 5x lev, 2.6 bps/side fee)\n"
    ));
    assert!(ruined.contains("(+1.50% return on capital, RUINED ☠)\n"));
    assert!(ruined.contains("→ BLOWN UP (account ruined) after fees over this run.\n"));
    assert!(ruined.contains("Net position: 1  |  Halt: true\n"));
    assert_eq!(counters_from(&book, &feed()).gap_count, 3);
}

fn log_figures(trips: usize, series: usize, trades: usize) -> LogFigures {
    let s = |x: &str| x.to_string();
    LogFigures {
        target: bits(0.0),
        run: LogTexts {
            target_price: s("100.25"),
            price_lo: s("99.5"),
            price_hi: s("101.25"),
            spread_lo: s("0.5"),
            spread_hi: s("2.25"),
            funding: s("0.0001"),
            slip_mean: s("50.0000"),
            slip_min: s("49.0000"),
            slip_max: s("51.0000"),
            slip_p50: s("50.5000"),
            slip_p95: s("50.9000"),
        },
        model: LogModelTexts {
            leverage: s("5"),
            fee_bps: s("2.6"),
            capital: s("10000"),
            risk_frac: s("0.1"),
            entry_dip_bps: s("3"),
            tp_bps: s("10"),
            sl_bps: s("12"),
            w_trend: s("1"),
            w_flow: s("0.5"),
            w_basket: s("0.4"),
            w_leadlag: s("0.3"),
            signal_thr_bps: s("5"),
            pullback_bps: s("2"),
            trail_bps: s("8"),
            latest_signal: s("6.2500"),
        },
        score: LogScoreTexts {
            ruined: false,
            profit_factor_bits: f64::INFINITY.to_bits(),
            hit_rate: s("50.00"),
            win_rate: s("40.00"),
            capital: s("10000.0000"),
            final_equity: s("10150.0000"),
            return_pct: s("1.5000"),
            net_pnl: s("150.0000"),
            total_fees: s("33.0000"),
            gross_bps: s("7.0000"),
            net_bps: s("1.8000"),
            avg_win: s("9.0000"),
            avg_loss: s("-4.0000"),
            profit_factor: s("inf"),
            max_drawdown: s("12.0000"),
            max_dd_pct: s("0.1000"),
            sharpe: s("0.7000"),
            hold_ms: s("4.500"),
        },
        trips: (0..trips)
            .map(|i| TripTexts {
                equity: format!("{}.0000", 10_010 + i),
                entry_price: s("100"),
                exit_price: s("101"),
                size: s("2"),
                gross_bps: s("5.0000"),
                net_bps: s("1.0000"),
                pnl_quote: s("10.0000"),
                signal: s("6.5000"),
            })
            .collect(),
        series: (0..series).map(|i| format!("{}.500", i)).collect(),
        trades: (0..trades)
            .map(|i| TradeTexts {
                target_price: format!("{}", 100 * (i + 1)),
                fill_price: s("100.5"),
                slippage_bps: s("50.0000"),
            })
            .collect(),
    }
}

#[test]
fn log_of_a_run() {
    let (book, rt_hist) = bought();
    let mut figures = log_figures(0, 0, 2);
    figures.target = bits(100.25);
    let log = write_log(
        "0.1.0",
        1_700_000_000,
        &book,
        &rt_hist,
        &quoted_feed(),
        &config(false, false, BuyRule::Target),
        &memory(),
        &figures,
    );
    assert_eq!(log.dir, "logs/v0.1.0/2023-11-14");
    assert_eq!(log.path, "logs/v0.1.0/2023-11-14/22-13-20.json");
    let expected = r#"{
  "version": "0.1.0",
  "date": "2023-11-14",
  "timestamp": "2023-11-14T22-13-20Z",
  "total_trades": 2,
  "net_position": 2,
  "halted": false,
  "stall_count": 0,
  "gap_count": 3,
  "memory": {
    "total_ram_mb": 16384,
    "peak_rss_start_mb": 2,
    "peak_rss_ready_mb": 3,
    "peak_rss_pre_log_mb": 4
  },
  "signal_latency": {
    "avg_ns": 40,
    "min_ns": 30,
    "max_ns": 50,
    "p50_ns": 30,
    "p95_ns": 50,
    "p99_ns": 50,
    "p999_ns": 50
  },
  "round_trip": {
    "avg_ns": 84,
    "min_ns": 84,
    "max_ns": 84,
    "p50_ns": 84,
    "p95_ns": 84,
    "p99_ns": 84,
    "p999_ns": 84
  },
  "transit": {
    "avg_ns": 30000000,
    "min_ns": 30000000,
    "max_ns": 30000000,
    "p50_ns": 30000000,
    "p95_ns": 30000000,
    "p99_ns": 30000000,
    "p999_ns": 30000000,
    "count": 1
  },
  "end_to_end": {
    "avg_ns": 30000134,
    "min_ns": 30000134,
    "max_ns": 30000134,
    "p50_ns": 30000134,
    "p95_ns": 30000134,
    "p99_ns": 30000134,
    "p999_ns": 30000134,
    "count": 1
  },
  "target_price": 100.25,
  "attempts": 2,
  "filled": 1,
  "pending": 1,
  "price_range": {"min": 99.5, "max": 101.25},
  "spread_bps": {"min": 0.5, "max": 2.25},
  "funding_rate": 0.0001,
  "slippage_bps": {
    "mean": 50.0000,
    "min": 49.0000,
    "max": 51.0000,
    "abs_p50": 50.5000,
    "abs_p95": 50.9000,
    "count": 1
  },
  "trades": [
    {"sequence": 11, "sig_latency_ns": 50, "round_trip_ns": 84, "transit_est_ns": 30000000, "end_to_end_ns": 30000134, "target_price": 100, "fill_price": 100.5, "slippage_bps": 50.0000},
    {"sequence": 12, "sig_latency_ns": 30, "round_trip_ns": null, "transit_est_ns": null, "end_to_end_ns": null, "target_price": 200, "fill_price": null, "slippage_bps": null}
  ]
}
"#;
    assert_eq!(log.json, expected);
}

#[test]
fn log_of_an_empty_trading_run() {
    let log = write_log(
        "1",
        0,
        &OrderBook::new(),
        &LatencyHistogram::new(),
        &Ingestor::new().stats,
        &config(true, false, BuyRule::Model),
        &memory(),
        &log_figures(0, 0, 0),
    );
    assert_eq!(log.path, "logs/v1/1970-01-01/00-00-00.json");
    let expected = r#"  "signal_latency": null,
  "round_trip": null,
  "transit": null,
  "end_to_end": null,
  "target_price": null,
  "attempts": 0,
  "filled": 0,
  "pending": 0,
  "price_range": null,
  "spread_bps": null,
  "funding_rate": 0.0001,
  "slippage_bps": null,
  "trading": {
    "enabled": true, "momentum": false, "allow_short": true, "adaptive": false, "use_flow": true,
    "leverage": 5, "fee_bps": 2.6, "capital": 10000, "risk_frac": 0.1,
    "entry_dip_bps": 3, "tp_bps": 10, "sl_bps": 12,
    "round_trips": 0
  },
  "equity_curve": [],
  "round_trip_log": [
  ],
  "signal_series": [],
  "trades": [
  ]
}
"#;
    assert!(log.json.ends_with(expected), "{}", log.json);
}

#[test]
fn log_of_the_trend_model() {
    let mut book = OrderBook::new();
    for n in 0..2u64 {
        book.exit(trip(1, 5.0, 1.0, 10.0, 0.0), false, &act(13 + n, 0, 1, 2, 0));
    }
    book.net_position = -2;
    book.signal.sample(bits(0.5));
    book.signal.sample(bits(1.5));
    let log = write_log(
        "1",
        0,
        &book,
        &LatencyHistogram::new(),
        &Ingestor::new().stats,
        &config(true, true, BuyRule::Model),
        &memory(),
        &log_figures(2, 2, 2),
    );
    assert!(log.json.contains("  \"net_position\": -2,\n"));
    assert!(log.json.contains("  \"round_trip\": {\n    \"avg_ns\": null,\n    \"min_ns\": null,\n    \"max_ns\": null,\n    \"p50_ns\": null,\n    \"p95_ns\": null,\n    \"p99_ns\": null,\n    \"p999_ns\": null\n  },\n"));
    let expected = r#"  "trading": {
    "enabled": true, "momentum": true, "allow_short": true, "adaptive": false, "use_flow": true,
    "leverage": 5, "fee_bps": 2.6, "capital": 10000, "risk_frac": 0.1,
    "entry_dip_bps": 3, "tp_bps": 10, "sl_bps": 12,
    "w_trend": 1, "w_flow": 0.5, "w_basket": 0.4, "w_leadlag": 0.3, "signal_thr_bps": 5, "pullback_bps": 2, "trail_bps": 8, "latest_signal_bps": 6.2500,
    "round_trips": 2, "longs": 2, "shorts": 0, "liquidations": 0,
    "gross_wins": 2, "hit_rate_pct": 50.00, "net_wins": 2, "net_win_rate_pct": 40.00,
    "capital": 10000.0000, "final_equity": 10150.0000, "return_pct": 1.5000, "ruined": false,
    "net_pnl_quote": 150.0000, "total_fees_quote": 33.0000,
    "gross_bps_mean": 7.0000, "net_bps_mean": 1.8000, "avg_win_bps": 9.0000, "avg_loss_bps": -4.0000,
    "profit_factor": null, "max_drawdown_quote": 12.0000, "max_dd_pct": 0.1000, "sharpe_per_trade": 0.7000, "avg_hold_ms": 4.500
  },
  "equity_curve": [10010.0000, 10011.0000],
  "round_trip_log": [
    {"side": 1, "entry_price": 100, "exit_price": 101, "size": 2, "gross_bps": 5.0000, "net_bps": 1.0000, "pnl_quote": 10.0000, "hold_ns": 2500, "signal_at_entry": 6.5000},
    {"side": 1, "entry_price": 100, "exit_price": 101, "size": 2, "gross_bps": 5.0000, "net_bps": 1.0000, "pnl_quote": 10.0000, "hold_ns": 2500, "signal_at_entry": 6.5000}
  ],
  "signal_series": [0.500, 1.500],
  "trades": [
"#;
    assert!(log.json.contains(expected), "{}", log.json);
}

#[test]
fn stages_as_json() {
    let mut out = String::from("x");
    push_stat_json(&mut out, "a", &None, true);
    push_stat_json(&mut out, "b", &summarize(vec![1, 3]), false);
    assert_eq!(
        out,
        "x  \"a\": null,\n  \"b\": {\n    \"avg_ns\": 2,\n    \"min_ns\": 1,\n    \"max_ns\": 3,\n    \"p50_ns\": 1,\n    \"p95_ns\": 3,\n    \"p99_ns\": 3,\n    \"p999_ns\": 3,\n    \"count\": 2\n  }\n"
    );
}

fn eval_texts(ruined: bool, return_pct: f64) -> EvalTexts {
    EvalTexts {
        ruined,
        return_bits: return_pct.to_bits(),
        hit_rate: format!("{:.1}", 55.5),
        win_rate: format!("{:.1}", 44.4),
        return_pct: format!("{:+.2}", return_pct),
        net_pnl: format!("{:+.2}", 123.456),
        profit_factor: format!("{:.2}", f64::INFINITY),
        sharpe: format!("{:.2}", 0.25),
        max_dd_pct: format!("{:.1}", 12.5),
        avg_win: format!("{:+.2}", 3.0),
        avg_loss: format!("{:+.2}", -2.0),
        hold_ms: format!("{:.1}", 15.0),
        net_bps: format!("{:+.2}", 0.5),
        gross_bps: format!("{:+.2}", 5.7),
        fees: format!("{:.2}", 99.0),
    }
}

#[test]
fn sweep_table() {
    let mut out = String::new();
    let k = SweepTexts {
        capital: "10000".to_string(),
        fee: "2.6".to_string(),
        leverage: "1".to_string(),
        normalize: true,
    };
    push_sweep_head(&mut out, 100, 60, "a.krkr", &k);
    let row = RowTexts {
        threshold: "5".to_string(),
        trail: "10".to_string(),
        in_sample: "1.25".to_string(),
        out_of_sample: "-0.50".to_string(),
        hit_rate: "48.0".to_string(),
    };
    push_sweep_row(&mut out, &grid_point(23), &row, 17, "overfit");
    out.push('\n');
    push_sweep_foot(&mut out, "-0.50", 1, "0.0");
    let mut e = String::from("[backtest] 100 ticks (60 traded) from a.krkr\n");
    e += &format!(
        "  walk-forward split at {:.0}% of the capture  |  capital {:.0}, fee {:.1} bps/side, {:.0}x lev{}\n",
        70.0, 10000.0, 2.6, 1.0, ", normalized signal"
    );
    e += &line(86);
    e += &format!(
        "{:<6} {:<5} {:<6} {:<5} | {:>9} {:>9} {:>8} {:>6} | flag\n",
        "maker", "thr", "trail", "gate", "IS ret%", "OOS ret%", "OOS hit", "OOS n"
    );
    e += &line(86);
    e += &format!(
        "{:<6} {:<5.0} {:<6.0} {:<5} | {:>8.2}% {:>8.2}% {:>7.1}% {:>6} | {}\n",
        true, 5.0, 10.0, true, 1.25, -0.5, 48.0, 17, "overfit"
    );
    e += &line(86);
    e += "Best out-of-sample return: -0.50%  (1 configs; ranked by OOS, not in-sample)\n";
    e += "(maker fee = HFT_MAKER_BPS=0.0; set HFT_NORMALIZE=1 to sweep the z-scored signal)\n";
    assert_eq!(out, e);
}

#[test]
fn evaluation_table() {
    let mut out = String::new();
    let k = SweepTexts {
        capital: "10000".to_string(),
        fee: "2.6".to_string(),
        leverage: "1".to_string(),
        normalize: false,
    };
    push_eval_head(&mut out, 100, 60, "a.krkr", &k);
    push_eval_line(&mut out, "first-half", 0, &eval_texts(false, 0.0));
    push_eval_line(&mut out, "second-half", 12, &eval_texts(false, 1.5));
    let y = tally(&[trip(1, 5.0, 1.0, 10.0, 0.0), trip(-1, -5.0, -8.0, -10.0, 1.0)]);
    push_eval_foot(&mut out, &y, &eval_texts(false, 1.5));
    let row = |tag: &str, n: u64, ret: f64| {
        format!(
            "{:<11} n={:<4} hit={:>5.1}%  win={:>5.1}%  ret={:>+7.2}%  netP&L={:>+9.2}  PF={:>5.2}  Sharpe={:>5.2}  maxDD={:>4.1}%\n",
            tag, n, 55.5, 44.4, ret, 123.456, f64::INFINITY, 0.25, 12.5
        )
    };
    let mut e = String::from("[eval] learned policy over 100 ticks (60 traded) from a.krkr\n");
    e += "       capital 10000, fee 2.6 bps/side, 1x lev  (this capture is held out — train was on a different one)\n";
    e += &line(78);
    e += "first-half  no round-trips\n";
    e += &row("second-half", 12, 1.5);
    e += &line(78);
    e += &row("FULL", 2, 1.5);
    e += "  1 long / 1 short  |  liquidations 1  |  avg win +3.00 / avg loss -2.00 bps  |  avg hold 15.0 ms\n";
    e += "  net +0.50 bps/trade after fees  |  gross +5.70 bps/trade  |  total fees 99.00\n";
    e += "→ net PROFITABLE after fees over this held-out capture.\n";
    assert_eq!(out, e);
    let mut none = String::new();
    push_eval_foot(&mut none, &tally(&[]), &eval_texts(false, 0.0));
    assert_eq!(none, line(78) + "FULL        no round-trips (the policy never fired on this capture).\n");
    let mut lost = String::new();
    push_eval_foot(&mut lost, &y, &eval_texts(true, -100.0));
    assert!(lost.ends_with("→ BLOWN UP (ruined) after fees over this held-out capture.\n"));
}

#[test]
fn search_table() {
    let mut out = String::new();
    let size = SearchSize {
        ticks: 100,
        in_sample: 70,
        out_of_sample: 30,
        pop: 256,
        gens: 40,
        elite: 32,
        seed: 7,
    };
    push_search_head(&mut out, &size);
    push_search_row(&mut out, 3, "0.1250", "-0.5000", 31);
    push_search_foot(&mut out, 10, &eval_texts(false, 1.5), 0, &eval_texts(false, -3.0));
    let mut e = String::from(
        "[train] CEM  |  100 ticks (70 IS / 30 OOS)  pop=256 gens=40 elite=32 seed=7\n",
    );
    e += "        65 params (tiny MLP 6→8→1), fitness = Sharpe (penalized < 30 trades)\n";
    e += &line(64);
    e += &format!("{:<5} {:>10} {:>10} {:>8}\n", "gen", "best fit", "elite μ", "IS n");
    e += &line(64);
    e += &format!("{:<5} {:>10.4} {:>10.4} {:>8}\n", 3, 0.125, -0.5, 31);
    e += &line(64);
    e += &format!(
        "  in-sample : n={:<4} hit={:>5.1}%  ret={:>+7.2}%  sharpe={:>6.2}  PF={:>5.2}\n",
        10, 55.5, 1.5, 0.25, f64::INFINITY
    );
    e += "  out-sample: no trades\n";
    assert_eq!(out, e);
    let mut foot = String::new();
    push_search_foot(&mut foot, 10, &eval_texts(false, 1.5), 5, &eval_texts(false, -3.0));
    assert!(foot.ends_with("\n  ⚠ overfit: in-sample positive, out-of-sample negative\n"));
}

//! The report that the engine prints when it shuts down.
//!
//! Figures that are floating-point numbers come in as formatted text; what is printed,
//! where and when, is decided here.

use vstd::prelude::*;
use vstd::string::StringExecFns;
use crate::book::{minus, OrderBook};
use crate::config::TRADE_LOG_SIZE;
use crate::histogram::{HistogramView, LatencyHistogram};
use crate::ieee::{finite, is_finite};
use crate::ingest::FeedStats;
use crate::logs::{RoundTrip, TradeExecution};
use crate::stats::{
    end_to_end, end_to_end_ns, end_to_end_samples, ends_to_ends, has_end_to_end, latencies,
    latencies_of, outcome, outcome_of, slippage_pairs, slippages, summarize, summary, tally,
    tally_of, transit_samples, transits, Outcome, Stat, Tally,
};
use crate::strategy::BuyRule;
use crate::text::{
    bool_text, decimal, padded_left, padded_right, push_bool, push_decimal, push_left,
    push_padded_left, push_padded_right, push_repeated, push_right, push_signed, repeated,
    signed_decimal, u64_text,
};

verus! {

/// Memory figures, in bytes.
#[derive(Clone, Copy, Debug, PartialEq, Eq, Structural)]
pub struct Memory {
    /// Physical memory of the machine.
    pub total_ram: u64,
    /// Peak resident size at the start.
    pub rss_start: u64,
    /// Peak resident size once all buffers were touched.
    pub rss_ready: u64,
    /// Peak resident size before the log is written.
    pub rss_pre_log: u64,
}

/// Peak resident size in bytes, modulo 2^64, from what the system reports: bytes, or blocks
/// of 1024.
pub open spec fn resident(reported: u64, in_bytes: bool) -> int {
    if in_bytes {
        reported as int
    } else {
        (reported * 1024) % 0x1_0000_0000_0000_0000
    }
}

/// Physical memory in bytes, modulo 2^64, from pages and their size; 0 if either is unknown.
pub open spec fn physical(pages: i64, page_size: i64) -> int {
    if pages > 0 && page_size > 0 {
        (pages * page_size) % 0x1_0000_0000_0000_0000
    } else {
        0
    }
}

/// Memory is reported in bytes: blocks count 1024 each, pages their size each, and what the
/// system does not know counts nothing.
pub proof fn law_memory_in_bytes(reported: u64, pages: i64, page_size: i64)
    ensures
        resident(reported, true) == reported,
        reported * 1024 <= u64::MAX ==> resident(reported, false) == reported * 1024,
        pages > 0 && page_size > 0 && pages * page_size <= u64::MAX ==> physical(pages, page_size)
            == pages * page_size,
        pages <= 0 || page_size <= 0 ==> physical(pages, page_size) == 0,
{
    if pages > 0 && page_size > 0 {
        assert(pages * page_size > 0) by (nonlinear_arith)
            requires
                pages > 0,
                page_size > 0,
        ;
    }
}

/// Peak resident size in bytes, from what the system reports: bytes, or blocks of 1024.
pub fn peak_rss_bytes(reported: u64, in_bytes: bool) -> (n: u64)
    ensures
        n == resident(reported, in_bytes),
{
    if in_bytes {
        reported
    } else {
        reported.wrapping_mul(1024)
    }
}

/// Physical memory in bytes, from pages and their size; 0 if either is unknown.
pub fn physical_memory(pages: i64, page_size: i64) -> (n: u64)
    ensures
        n == physical(pages, page_size),
{
    if pages > 0 && page_size > 0 {
        (pages as u64).wrapping_mul(page_size as u64)
    } else {
        0
    }
}

/// What the report has to know of how the engine was set up.
#[derive(Clone, Copy, Debug, PartialEq, Eq, Structural)]
pub struct ReportConfig {
    /// A trading model was on.
    pub trading: bool,
    /// It was the trend model, not the reversion model.
    pub momentum: bool,
    /// Short positions were allowed.
    pub allow_short: bool,
    /// Thresholds were multiples of the volatility.
    pub adaptive: bool,
    /// Order flow had to confirm an entry.
    pub use_flow: bool,
    /// The buy rule without a trading model.
    pub rule: BuyRule,
}

/// Counters of a run.
#[derive(Clone, Copy, Debug, PartialEq, Eq, Structural)]
pub struct Counters {
    /// Gaps between idle spins.
    pub stall_count: u64,
    /// Sequence gaps.
    pub gap_count: u64,
    /// Net position in trades.
    pub net_position: i64,
    /// Trading has halted.
    pub halt: bool,
    /// Buys attempted.
    pub attempts: u64,
    /// Buys filled.
    pub filled: u64,
}

/// Settings and state of the trading model, as text.
pub struct ModelTexts {
    /// Leverage, no decimals.
    pub leverage: String,
    /// Fee per side in basis points, one decimal.
    pub fee: String,
    /// Weight of the trend, one decimal.
    pub w_trend: String,
    /// Weight of the order flow, one decimal.
    pub w_flow: String,
    /// Weight of the reference's trend, one decimal.
    pub w_basket: String,
    /// Weight of the reference's lead, one decimal.
    pub w_leadlag: String,
    /// Threshold of the signal in basis points, one decimal.
    pub threshold: String,
    /// Latest signal in basis points, with its sign and two decimals.
    pub latest_signal: String,
    /// Entry threshold in basis points, one decimal.
    pub entry: String,
    /// Take-profit in basis points, one decimal.
    pub take_profit: String,
    /// Stop-loss in basis points, one decimal.
    pub stop_loss: String,
}

/// What the market did, as text.
pub struct MarketTexts {
    /// Lowest price: two decimals under a trading model, else four.
    pub price_lo: String,
    /// Highest price, likewise.
    pub price_hi: String,
    /// Width of the range in basis points: one decimal under a trading model, else two.
    pub range_bps: String,
    /// Volatility in basis points per tick, two decimals.
    pub volatility: String,
    /// Narrowest spread in basis points, two decimals.
    pub spread_lo: String,
    /// Widest spread in basis points, two decimals.
    pub spread_hi: String,
    /// Funding rate, eight decimals.
    pub funding: String,
}

/// The scorecard's figures, as text.
pub struct ScoreTexts {
    /// The account was ruined.
    pub ruined: bool,
    /// Return on capital in percent (binary64).
    pub return_bits: u64,
    /// Share of round trips profitable before fees, one decimal.
    pub hit_rate: String,
    /// Share of round trips profitable after fees, one decimal.
    pub win_rate: String,
    /// Starting capital, two decimals.
    pub capital: String,
    /// Equity at the end, two decimals.
    pub final_equity: String,
    /// Return on capital in percent, with its sign and two decimals.
    pub return_pct: String,
    /// Profit after fees, with its sign and two decimals.
    pub total_pnl: String,
    /// Mean move before fees in basis points, with its sign and two decimals.
    pub gross_bps: String,
    /// Mean move after fees in basis points, with its sign and two decimals.
    pub net_bps: String,
    /// Mean gain in basis points, with its sign and two decimals.
    pub avg_win: String,
    /// Mean loss in basis points, with its sign and two decimals.
    pub avg_loss: String,
    /// Profit factor, two decimals.
    pub profit_factor: String,
    /// Deepest fall of the account, two decimals.
    pub max_drawdown: String,
    /// Deepest fall in percent, one decimal.
    pub max_dd_pct: String,
    /// Mean over deviation per trade, two decimals.
    pub sharpe: String,
    /// Fees, two decimals.
    pub fees: String,
    /// Mean time a position was held, in milliseconds, one decimal.
    pub hold_ms: String,
}

/// Slippage in basis points, as text.
pub struct SlippageTexts {
    /// Mean, with its sign and two decimals.
    pub mean: String,
    /// Median magnitude, two decimals.
    pub abs_p50: String,
    /// 95th percentile of the magnitude, two decimals.
    pub abs_p95: String,
    /// Largest, with its sign and two decimals.
    pub max: String,
    /// Smallest, with its sign and two decimals.
    pub min: String,
}

/// Settings of the buy rule, as text.
pub struct BuyTexts {
    /// Dip threshold in basis points, one decimal.
    pub dip_bps: String,
    /// Fixed level, four decimals.
    pub target: String,
}

/// All figures of the report that are floating-point numbers, as text.
pub struct ReportTexts {
    /// The trading model.
    pub model: ModelTexts,
    /// The market.
    pub market: MarketTexts,
    /// The scorecard.
    pub score: ScoreTexts,
    /// The slippage.
    pub slippage: SlippageTexts,
    /// The buy rule.
    pub buy: BuyTexts,
}

/// A number, or a dash if there is none.
pub open spec fn or_dash(n: u64, shown: bool) -> Seq<char> {
    if shown {
        decimal(n as nat)
    } else {
        "—"@
    }
}

fn dash_text(n: u64, shown: bool) -> (s: String)
    ensures
        s@ == or_dash(n, shown),
{
    if shown {
        u64_text(n)
    } else {
        let mut s = String::new();
        s.append("—");
        assert(s@ == "—"@);
        s
    }
}

/// The percentiles of a stage, in `unit`.
pub open spec fn quantiles_text(
    a: Seq<char>,
    p50: u64,
    p95: u64,
    p99: u64,
    p999: u64,
    unit: Seq<char>,
) -> Seq<char> {
    let a = a + "                p50: "@ + padded_left(decimal(p50 as nat), ' ', 7) + " "@ + unit
        + "  p95: "@ + padded_left(decimal(p95 as nat), ' ', 7) + " "@ + unit + "  p99: "@
        + padded_left(decimal(p99 as nat), ' ', 7) + " "@ + unit + "  p99.9: "@
        + padded_left(decimal(p999 as nat), ' ', 7) + " "@ + unit + "\n"@;
    a
}

fn quantiles(out: &mut String, p50: u64, p95: u64, p99: u64, p999: u64, unit: &str)
    ensures
        final(out)@ == quantiles_text(old(out)@, p50, p95, p99, p999, unit@),
{
    out.append("                p50: ");
    push_right(out, p50, 7);
    out.append(" ");
    out.append(unit);
    out.append("  p95: ");
    push_right(out, p95, 7);
    out.append(" ");
    out.append(unit);
    out.append("  p99: ");
    push_right(out, p99, 7);
    out.append(" ");
    out.append(unit);
    out.append("  p99.9: ");
    push_right(out, p999, 7);
    out.append(" ");
    out.append(unit);
    out.append("\n");
}

/// Mean, least and largest value of a stage, in `unit`, without the end of the line.
pub open spec fn extremes_text(
    a: Seq<char>,
    stage: Seq<char>,
    avg: u64,
    min: u64,
    max: u64,
    unit: Seq<char>,
) -> Seq<char> {
    let a = a + stage + " Avg: "@ + padded_left(decimal(avg as nat), ' ', 7) + " "@ + unit
        + "  Min: "@ + padded_left(decimal(min as nat), ' ', 7) + " "@ + unit + "  Max: "@
        + padded_left(decimal(max as nat), ' ', 7) + " "@ + unit;
    a
}

fn extremes(out: &mut String, stage: &str, avg: u64, min: u64, max: u64, unit: &str)
    ensures
        final(out)@ == extremes_text(old(out)@, stage@, avg, min, max, unit@),
{
    out.append(stage);
    out.append(" Avg: ");
    push_right(out, avg, 7);
    out.append(" ");
    out.append(unit);
    out.append("  Min: ");
    push_right(out, min, 7);
    out.append(" ");
    out.append(unit);
    out.append("  Max: ");
    push_right(out, max, 7);
    out.append(" ");
    out.append(unit);
}

/// A stage with millisecond values, in microseconds.
pub open spec fn micro_stage_text(a: Seq<char>, stage: Seq<char>, s: Stat) -> Seq<char> {
    let a = extremes_text(
        a,
        stage,
        (s.avg / 1000) as u64,
        (s.min / 1000) as u64,
        (s.max / 1000) as u64,
        "µs"@,
    );
    let a = a + "  (n="@ + decimal(s.count as nat) + ")\n"@;
    let a = quantiles_text(
        a,
        (s.p50 / 1000) as u64,
        (s.p95 / 1000) as u64,
        (s.p99 / 1000) as u64,
        (s.p999 / 1000) as u64,
        "µs"@,
    );
    a
}

fn micro_stage(out: &mut String, stage: &str, s: &Stat)
    ensures
        final(out)@ == micro_stage_text(old(out)@, stage@, *s),
{
    extremes(out, stage, s.avg / 1000, s.min / 1000, s.max / 1000, "µs");
    out.append("  (n=");
    push_decimal(out, s.count as u64);
    out.append(")\n");
    quantiles(out, s.p50 / 1000, s.p95 / 1000, s.p99 / 1000, s.p999 / 1000, "µs");
}

/// One row of the table of trades.
pub open spec fn trade_row_text(a: Seq<char>, t: TradeExecution) -> Seq<char> {
    let rt = or_dash(t.round_trip_ns, t.round_trip_ns > 0);
    let tr = or_dash((t.transit_est_ns / 1000) as u64, t.transit_est_ns > 0);
    let e2e = or_dash((end_to_end(t) / 1000) as u64, has_end_to_end(t));
    let a = a + padded_right(decimal(t.sequence as nat), 10) + " "@
        + padded_left(decimal(t.latency_ns as nat), ' ', 14) + " "@ + padded_left(rt, ' ', 14)
        + " "@ + padded_left(tr, ' ', 16) + " "@ + padded_left(e2e, ' ', 14) + "\n"@;
    a
}

fn trade_row(out: &mut String, t: &TradeExecution)
    ensures
        final(out)@ == trade_row_text(old(out)@, *t),
{
    let rt = dash_text(t.round_trip_ns, t.round_trip_ns > 0);
    let tr = dash_text(t.transit_est_ns / 1000, t.transit_est_ns > 0);
    let e2e = dash_text(end_to_end_ns(t) / 1000, t.round_trip_ns > 0 && t.transit_est_ns > 0);
    push_left(out, t.sequence, 10);
    out.append(" ");
    push_right(out, t.latency_ns, 14);
    out.append(" ");
    push_padded_left(out, rt.as_str(), ' ', 14);
    out.append(" ");
    push_padded_left(out, tr.as_str(), ' ', 16);
    out.append(" ");
    push_padded_left(out, e2e.as_str(), ' ', 14);
    out.append("\n");
}

/// The head of the table of trades.
pub open spec fn table_head_text(a: Seq<char>, count: u64) -> Seq<char> {
    let a = a + "Total trades executed: "@ + decimal(count as nat) + "\n\n"@
        + padded_right("Sequence"@, 10) + " "@ + padded_left("Sig Lat (ns)"@, ' ', 14) + " "@
        + padded_left("Round Trip(ns)"@, ' ', 14) + " "@ + padded_left("Transit (µs)"@, ' ', 16)
        + " "@ + padded_left("End-End (µs)"@, ' ', 14) + "\n"@ + repeated('─', 72) + "\n"@;
    a
}

fn table_head(out: &mut String, count: u64)
    ensures
        final(out)@ == table_head_text(old(out)@, count),
{
    out.append("Total trades executed: ");
    push_decimal(out, count);
    out.append("\n\n");
    push_padded_right(out, "Sequence", 10);
    out.append(" ");
    push_padded_left(out, "Sig Lat (ns)", ' ', 14);
    out.append(" ");
    push_padded_left(out, "Round Trip(ns)", ' ', 14);
    out.append(" ");
    push_padded_left(out, "Transit (µs)", ' ', 16);
    out.append(" ");
    push_padded_left(out, "End-End (µs)", ' ', 14);
    out.append("\n");
    push_repeated(out, '─', 72);
    out.append("\n");
}

/// The percentiles of all observations of a histogram.
pub open spec fn percentiles_text(a: Seq<char>, h: HistogramView) -> Seq<char> {
    let a = quantiles_text(
        a,
        h.quantile(50, 100) as u64,
        h.quantile(95, 100) as u64,
        h.quantile(99, 100) as u64,
        h.quantile(999, 1000) as u64,
        "ns"@,
    );
    a
}

fn percentiles(out: &mut String, h: &LatencyHistogram)
    requires
        h.wf(),
    ensures
        final(out)@ == percentiles_text(old(out)@, h@),
{
    let n: u64 = h.count();
    quantiles(
        out,
        h.percentile(50, 100, n),
        h.percentile(95, 100, n),
        h.percentile(99, 100, n),
        h.percentile(999, 1000, n),
        "ns",
    );
}

/// The lines on the transit stage.
pub open spec fn transit_lines_text(a: Seq<char>, v: Seq<u64>) -> Seq<char> {
    let a = if v.len() > 0 {
        let a = micro_stage_text(a, "Transit (RTT/2)—"@, summary(v));
        a
    } else {
        let a = a + "Transit (RTT/2)— no transit estimates (legacy/simulated feed without RTT)\n"@;
        a
    };
    a
}

fn transit_lines(out: &mut String, v: Vec<u64>)
    requires
        v@.len() <= TRADE_LOG_SIZE,
    ensures
        final(out)@ == transit_lines_text(old(out)@, v@),
{
    match summarize(v) {
        Some(s) => micro_stage(out, "Transit (RTT/2)—", &s),
        None => out.append(
            "Transit (RTT/2)— no transit estimates (legacy/simulated feed without RTT)\n",
        ),
    }
}

/// The lines on the end-to-end stage.
pub open spec fn end_to_end_lines_text(a: Seq<char>, v: Seq<u64>) -> Seq<char> {
    let a = if v.len() > 0 {
        let a = micro_stage_text(a, "End-to-end     —"@, summary(v));
        let a = a + "  (end-to-end ≈ transit + signal + round-trip; the engine's own\n"@
            + "   reaction is the ns-scale signal+round-trip — a rounding error vs transit)\n"@;
        a
    } else {
        a
    };
    a
}

fn end_to_end_lines(out: &mut String, v: Vec<u64>)
    requires
        v@.len() <= TRADE_LOG_SIZE,
    ensures
        final(out)@ == end_to_end_lines_text(old(out)@, v@),
{
    match summarize(v) {
        Some(s) => {
            micro_stage(out, "End-to-end     —", &s);
            out.append("  (end-to-end ≈ transit + signal + round-trip; the engine's own\n");
            out.append(
                "   reaction is the ns-scale signal+round-trip — a rounding error vs transit)\n",
            );
        },
        None => {},
    }
}

/// The summary of the latencies of at least one trade.
pub open spec fn latency_section_text(
    a: Seq<char>,
    trades: Seq<TradeExecution>,
    sig: HistogramView,
    rt: HistogramView,
) -> Seq<char> {
    let a = a + repeated('─', 55) + "\n"@;
    let lat = latencies_of(trades);
    let n = trades.len() as int;
    let a = extremes_text(
        a,
        "Signal latency —"@,
        (lat.sig_sum / n as u64) as u64,
        lat.sig_min,
        lat.sig_max,
        "ns"@,
    );
    let a = a + "\n"@;
    let a = percentiles_text(a, sig);
    let a = if lat.rt_count > 0 {
        let m = lat.rt_count as int;
        let a = extremes_text(
            a,
            "Round trip     —"@,
            (lat.rt_sum / m as u64) as u64,
            lat.rt_min,
            lat.rt_max,
            "ns"@,
        );
        let a = a + "\n"@;
        let a = percentiles_text(a, rt);
        a
    } else {
        let a = a + "Round trip     — no confirmations received\n"@;
        a
    };
    let a = a + repeated('─', 55) + "\n"@;
    let a = transit_lines_text(a, transits(trades));
    let a = end_to_end_lines_text(a, ends_to_ends(trades));
    a
}

fn latency_section(
    out: &mut String,
    trades: &[TradeExecution],
    sig: &LatencyHistogram,
    rt: &LatencyHistogram,
)
    requires
        1 <= trades@.len() <= TRADE_LOG_SIZE,
        sig.wf(),
        rt.wf(),
    ensures
        final(out)@ == latency_section_text(old(out)@, trades@, sig@, rt@),
{
    push_repeated(out, '─', 55);
    out.append("\n");
    let lat = latencies(trades);
    let n: u64 = trades.len() as u64;
    extremes(out, "Signal latency —", lat.sig_sum / n, lat.sig_min, lat.sig_max, "ns");
    out.append("\n");
    percentiles(out, sig);
    if lat.rt_count > 0 {
        let m: u64 = lat.rt_count as u64;
        extremes(out, "Round trip     —", lat.rt_sum / m, lat.rt_min, lat.rt_max, "ns");
        out.append("\n");
        percentiles(out, rt);
    } else {
        out.append("Round trip     — no confirmations received\n");
    }
    push_repeated(out, '─', 55);
    out.append("\n");
    transit_lines(out, transit_samples(trades));
    end_to_end_lines(out, end_to_end_samples(trades));
}

/// The head of the scorecard: which model traded.
pub open spec fn model_head_text(a: Seq<char>, c: ReportConfig, m: ModelTexts) -> Seq<char> {
    let a = a + repeated('─', 72) + "\n"@;
    let a = if c.momentum {
        let a = a + "TRADING SCORECARD  ("@;
        let a = if c.allow_short {
            let a = a + "long&short"@;
            a
        } else {
            let a = a + "long-only"@;
            a
        };
        let a = a + " TREND-FOLLOWING + cross-market, "@ + m.leverage@ + "x lev, "@ + m.fee@
            + " bps/side fee)\nSignal: S = "@ + m.w_trend@ + "·trend + "@ + m.w_flow@
            + "·flow + "@ + m.w_basket@ + "·basket + "@ + m.w_leadlag@ + "·leadlag   gate ±"@
            + m.threshold@ + " bps   latest S "@ + m.latest_signal@ + " bps\n"@;
        a
    } else {
        let a = a + "TRADING SCORECARD  ("@;
        let a = if c.allow_short {
            let a = a + "long&short"@;
            a
        } else {
            let a = a + "long-only"@;
            a
        };
        let a = a + " mean-reversion, "@;
        let a = if c.adaptive {
            let a = a + "ADAPTIVE (entry 1σ/TP 1.5σ/SL 2.5σ)"@;
            a
        } else {
            let a = a + "entry "@ + m.entry@ + "/TP "@ + m.take_profit@ + "/SL "@ + m.stop_loss@
                + " bps"@;
            a
        };
        let a = if c.use_flow {
            let a = a + " +order-flow"@;
            a
        } else {
            a
        };
        let a = a + ", "@ + m.leverage@ + "x lev, "@ + m.fee@ + " bps/side fee)\n"@;
        a
    };
    a
}

fn model_head(out: &mut String, c: &ReportConfig, m: &ModelTexts)
    ensures
        final(out)@ == model_head_text(old(out)@, *c, *m),
{
    push_repeated(out, '─', 72);
    out.append("\n");
    if c.momentum {
        out.append("TRADING SCORECARD  (");
        if c.allow_short {
            out.append("long&short");
        } else {
            out.append("long-only");
        }
        out.append(" TREND-FOLLOWING + cross-market, ");
        out.append(m.leverage.as_str());
        out.append("x lev, ");
        out.append(m.fee.as_str());
        out.append(" bps/side fee)\nSignal: S = ");
        out.append(m.w_trend.as_str());
        out.append("·trend + ");
        out.append(m.w_flow.as_str());
        out.append("·flow + ");
        out.append(m.w_basket.as_str());
        out.append("·basket + ");
        out.append(m.w_leadlag.as_str());
        out.append("·leadlag   gate ±");
        out.append(m.threshold.as_str());
        out.append(" bps   latest S ");
        out.append(m.latest_signal.as_str());
        out.append(" bps\n");
    } else {
        out.append("TRADING SCORECARD  (");
        if c.allow_short {
            out.append("long&short");
        } else {
            out.append("long-only");
        }
        out.append(" mean-reversion, ");
        if c.adaptive {
            out.append("ADAPTIVE (entry 1σ/TP 1.5σ/SL 2.5σ)");
        } else {
            out.append("entry ");
            out.append(m.entry.as_str());
            out.append("/TP ");
            out.append(m.take_profit.as_str());
            out.append("/SL ");
            out.append(m.stop_loss.as_str());
            out.append(" bps");
        }
        if c.use_flow {
            out.append(" +order-flow");
        }
        out.append(", ");
        out.append(m.leverage.as_str());
        out.append("x lev, ");
        out.append(m.fee.as_str());
        out.append(" bps/side fee)\n");
    }
}

/// The line on spread and funding, if a spread was observed.
pub open spec fn spread_line_text(a: Seq<char>, feed: FeedStats, k: MarketTexts) -> Seq<char> {
    let a = if finite(feed.spread_lo) && finite(feed.spread_hi) {
        let a = a + "Market data: spread "@ + k.spread_lo@ + "–"@ + k.spread_hi@
            + " bps  |  funding "@ + k.funding@ + " (raw, latest)\n"@;
        a
    } else {
        a
    };
    a
}

fn spread_line(out: &mut String, feed: &FeedStats, k: &MarketTexts)
    ensures
        final(out)@ == spread_line_text(old(out)@, *feed, *k),
{
    if is_finite(feed.spread_lo) && is_finite(feed.spread_hi) {
        out.append("Market data: spread ");
        out.append(k.spread_lo.as_str());
        out.append("–");
        out.append(k.spread_hi.as_str());
        out.append(" bps  |  funding ");
        out.append(k.funding.as_str());
        out.append(" (raw, latest)\n");
    }
}

/// The lines on the market under a trading model.
pub open spec fn model_market_text(a: Seq<char>, feed: FeedStats, k: MarketTexts) -> Seq<char> {
    let a = if finite(feed.price_lo) && finite(feed.price_hi) {
        let a = a + "Observed price range: ["@ + k.price_lo@ + ", "@ + k.price_hi@ + "]  ("@
            + k.range_bps@ + " bps span)  |  volatility ~"@ + k.volatility@ + " bps/tick\n"@;
        let a = spread_line_text(a, feed, k);
        a
    } else {
        a
    };
    a
}

fn model_market(out: &mut String, feed: &FeedStats, k: &MarketTexts)
    ensures
        final(out)@ == model_market_text(old(out)@, *feed, *k),
{
    if is_finite(feed.price_lo) && is_finite(feed.price_hi) {
        out.append("Observed price range: [");
        out.append(k.price_lo.as_str());
        out.append(", ");
        out.append(k.price_hi.as_str());
        out.append("]  (");
        out.append(k.range_bps.as_str());
        out.append(" bps span)  |  volatility ~");
        out.append(k.volatility.as_str());
        out.append(" bps/tick\n");
        spread_line(out, feed, k);
    }
}

/// The scorecard of at least one round trip.
pub open spec fn score_lines_text(a: Seq<char>, y: Tally, s: ScoreTexts) -> Seq<char> {
    let a = a + "Round-trips: "@ + decimal(y.n as nat) + "  ("@ + decimal(y.longs as nat)
        + " long / "@ + decimal(y.shorts as nat) + " short)  |  liquidations "@
        + decimal(y.liquidations as nat) + "\nHit rate (signal accuracy, gross): "@ + s.hit_rate@
        + "% ("@ + decimal(y.gross_wins as nat) + "/"@ + decimal(y.n as nat)
        + ")   |   net-win rate (after fees): "@ + s.win_rate@ + "% ("@ + decimal(y.wins as nat)
        + "W/"@ + decimal(y.losses as nat) + "L)\n"@ + "Capital "@ + s.capital@ + " → equity "@
        + s.final_equity@ + "   ("@ + s.return_pct@ + "% return on capital"@;
    let a = if s.ruined {
        let a = a + ", RUINED ☠"@;
        a
    } else {
        a
    };
    let a = a + ")\n"@ + "Net P&L: "@ + s.total_pnl@ + " quote   (gross "@ + s.gross_bps@
        + " bps/trade, net "@ + s.net_bps@ + " bps/trade after fees)\n"@ + "Avg win "@
        + s.avg_win@ + " bps  |  avg loss "@ + s.avg_loss@ + " bps  |  profit factor "@
        + s.profit_factor@ + "\nMax drawdown "@ + s.max_drawdown@ + " quote ("@ + s.max_dd_pct@
        + "%)  |  Sharpe(/trade) "@ + s.sharpe@ + "  |  fees "@ + s.fees@ + "  |  avg hold "@
        + s.hold_ms@ + " ms\n→ "@;
    let a = match outcome_of(s.ruined, s.return_bits) {
        Outcome::Ruined => {
            let a = a + "BLOWN UP (account ruined)"@;
            a
        },
        Outcome::Profitable => {
            let a = a + "net PROFITABLE"@;
            a
        },
        Outcome::Loss => {
            let a = a + "net LOSS"@;
            a
        },
    };
    let a = a + " after fees over this run.\n"@;
    a
}

fn score_lines(out: &mut String, y: &Tally, s: &ScoreTexts)
    ensures
        final(out)@ == score_lines_text(old(out)@, *y, *s),
{
    out.append("Round-trips: ");
    push_decimal(out, y.n as u64);
    out.append("  (");
    push_decimal(out, y.longs as u64);
    out.append(" long / ");
    push_decimal(out, y.shorts as u64);
    out.append(" short)  |  liquidations ");
    push_decimal(out, y.liquidations as u64);
    out.append("\nHit rate (signal accuracy, gross): ");
    out.append(s.hit_rate.as_str());
    out.append("% (");
    push_decimal(out, y.gross_wins as u64);
    out.append("/");
    push_decimal(out, y.n as u64);
    out.append(")   |   net-win rate (after fees): ");
    out.append(s.win_rate.as_str());
    out.append("% (");
    push_decimal(out, y.wins as u64);
    out.append("W/");
    push_decimal(out, y.losses as u64);
    out.append("L)\n");
    out.append("Capital ");
    out.append(s.capital.as_str());
    out.append(" → equity ");
    out.append(s.final_equity.as_str());
    out.append("   (");
    out.append(s.return_pct.as_str());
    out.append("% return on capital");
    if s.ruined {
        out.append(", RUINED ☠");
    }
    out.append(")\n");
    out.append("Net P&L: ");
    out.append(s.total_pnl.as_str());
    out.append(" quote   (gross ");
    out.append(s.gross_bps.as_str());
    out.append(" bps/trade, net ");
    out.append(s.net_bps.as_str());
    out.append(" bps/trade after fees)\n");
    out.append("Avg win ");
    out.append(s.avg_win.as_str());
    out.append(" bps  |  avg loss ");
    out.append(s.avg_loss.as_str());
    out.append(" bps  |  profit factor ");
    out.append(s.profit_factor.as_str());
    out.append("\nMax drawdown ");
    out.append(s.max_drawdown.as_str());
    out.append(" quote (");
    out.append(s.max_dd_pct.as_str());
    out.append("%)  |  Sharpe(/trade) ");
    out.append(s.sharpe.as_str());
    out.append("  |  fees ");
    out.append(s.fees.as_str());
    out.append("  |  avg hold ");
    out.append(s.hold_ms.as_str());
    out.append(" ms\n→ ");
    match outcome(s.ruined, s.return_bits) {
        Outcome::Ruined => {
            out.append("BLOWN UP (account ruined)");
        },
        Outcome::Profitable => {
            out.append("net PROFITABLE");
        },
        Outcome::Loss => {
            out.append("net LOSS");
        },
    }
    out.append(" after fees over this run.\n");
}

/// The line on stalls, gaps, position and halt.
pub open spec fn counters_text(a: Seq<char>, c: Counters) -> Seq<char> {
    let a = a + "OS stalls (>500ns spin gap): "@ + decimal(c.stall_count as nat)
        + "  |  Sequence gaps: "@ + decimal(c.gap_count as nat) + "  |  Net position: "@
        + signed_decimal(c.net_position as int) + "  |  Halt: "@ + bool_text(c.halt) + "\n"@;
    a
}

fn counters(out: &mut String, c: &Counters)
    ensures
        final(out)@ == counters_text(old(out)@, *c),
{
    out.append("OS stalls (>500ns spin gap): ");
    push_decimal(out, c.stall_count);
    out.append("  |  Sequence gaps: ");
    push_decimal(out, c.gap_count);
    out.append("  |  Net position: ");
    push_signed(out, c.net_position);
    out.append("  |  Halt: ");
    push_bool(out, c.halt);
    out.append("\n");
}

/// The report of a trading model.
pub open spec fn model_section_text(
    a: Seq<char>,
    x: ReportConfig,
    k: ReportTexts,
    feed: FeedStats,
    trips: Seq<RoundTrip>,
    c: Counters,
    mem: Memory,
) -> Seq<char> {
    let a = model_head_text(a, x, k.model);
    let a = model_market_text(a, feed, k.market);
    let a = if trips.len() > 0 {
        let y = tally_of(trips);
        let a = score_lines_text(a, y, k.score);
        a
    } else {
        let a = a
            + "No round-trips closed (try a busier pair, longer run, or smaller HFT_ENTRY_BPS).\n"@;
        a
    };
    let a = a + repeated('─', 72) + "\n"@;
    let a = counters_text(a, c);
    let a = a + repeated('─', 72) + "\n"@ + "Memory — Total RAM: "@
        + decimal((mem.total_ram / 1_048_576) as nat) + " MB  |  Peak RSS: "@
        + decimal((mem.rss_pre_log / 1_048_576) as nat) + " MB\n"@;
    a
}

fn model_section(
    out: &mut String,
    x: &ReportConfig,
    k: &ReportTexts,
    feed: &FeedStats,
    trips: &[RoundTrip],
    c: &Counters,
    mem: &Memory,
)
    ensures
        final(out)@ == model_section_text(old(out)@, *x, *k, *feed, trips@, *c, *mem),
{
    model_head(out, x, &k.model);
    model_market(out, feed, &k.market);
    if trips.len() > 0 {
        let y = tally(trips);
        score_lines(out, &y, &k.score);
    } else {
        out.append("No round-trips closed (try a busier pair, longer run, or smaller HFT_ENTRY_BPS).\n");
    }
    push_repeated(out, '─', 72);
    out.append("\n");
    counters(out, c);
    push_repeated(out, '─', 72);
    out.append("\n");
    out.append("Memory — Total RAM: ");
    push_decimal(out, mem.total_ram / 1_048_576);
    out.append(" MB  |  Peak RSS: ");
    push_decimal(out, mem.rss_pre_log / 1_048_576);
    out.append(" MB\n");
}

/// The line on the buy rule and its fills.
pub open spec fn buy_head_text(
    a: Seq<char>,
    rule: BuyRule,
    b: BuyTexts,
    attempts: u64,
    filled: u64,
) -> Seq<char> {
    let a = match rule {
        BuyRule::Downtick => {
            let a = a + "Downtick buys"@;
            a
        },
        BuyRule::Dip => {
            let a = a + "Dip buys ("@ + b.dip_bps@ + " bps)"@;
            a
        },
        BuyRule::Target => {
            let a = a + "Target buy @ "@ + b.target@;
            a
        },
        _ => {
            let a = a + "Breakout buys"@;
            a
        },
    };
    let a = a + "  |  attempts: "@ + decimal(attempts as nat) + "  filled: "@
        + decimal(filled as nat) + "  pending: "@ + decimal(minus(attempts, filled) as nat);
    let a = match rule {
        BuyRule::Downtick => {
            let a = a + "  (slippage vs the price we acted on)\n"@;
            a
        },
        BuyRule::Dip => {
            let a = a + "  (slippage vs the price we acted on)\n"@;
            a
        },
        BuyRule::Target => {
            let a = a + "\n"@;
            a
        },
        _ => {
            let a = a + "  (slippage measured vs entry price)\n"@;
            a
        },
    };
    a
}

fn buy_head(out: &mut String, rule: BuyRule, b: &BuyTexts, attempts: u64, filled: u64)
    ensures
        final(out)@ == buy_head_text(old(out)@, rule, *b, attempts, filled),
{
    match rule {
        BuyRule::Downtick => {
            out.append("Downtick buys");
        },
        BuyRule::Dip => {
            out.append("Dip buys (");
            out.append(b.dip_bps.as_str());
            out.append(" bps)");
        },
        BuyRule::Target => {
            out.append("Target buy @ ");
            out.append(b.target.as_str());
        },
        _ => {
            out.append("Breakout buys");
        },
    }
    out.append("  |  attempts: ");
    push_decimal(out, attempts);
    out.append("  filled: ");
    push_decimal(out, filled);
    out.append("  pending: ");
    push_decimal(out, attempts.saturating_sub(filled));
    match rule {
        BuyRule::Downtick => {
            out.append("  (slippage vs the price we acted on)\n");
        },
        BuyRule::Dip => {
            out.append("  (slippage vs the price we acted on)\n");
        },
        BuyRule::Target => {
            out.append("\n");
        },
        _ => {
            out.append("  (slippage measured vs entry price)\n");
        },
    }
}

/// The lines on the market under a buy rule.
pub open spec fn buy_market_text(
    a: Seq<char>,
    feed: FeedStats,
    k: MarketTexts,
    attempts: u64,
) -> Seq<char> {
    let a = if finite(feed.price_lo) && finite(feed.price_hi) {
        let a = a + "Observed price range: ["@ + k.price_lo@ + ", "@ + k.price_hi@ + "]  ("@
            + k.range_bps@ + " bps span)\n"@;
        let a = spread_line_text(a, feed, k);
        let a = if attempts == 0 {
            let a = a + "  → no buys triggered. The market moved only "@ + k.range_bps@
                + " bps this run; try\n    a smaller HFT_TARGET_DIP_BPS, HFT_DOWNTICK=1, a busier pair, or a longer run.\n"@;
            a
        } else {
            a
        };
        a
    } else {
        a
    };
    a
}

fn buy_market(out: &mut String, feed: &FeedStats, k: &MarketTexts, attempts: u64)
    ensures
        final(out)@ == buy_market_text(old(out)@, *feed, *k, attempts),
{
    if is_finite(feed.price_lo) && is_finite(feed.price_hi) {
        out.append("Observed price range: [");
        out.append(k.price_lo.as_str());
        out.append(", ");
        out.append(k.price_hi.as_str());
        out.append("]  (");
        out.append(k.range_bps.as_str());
        out.append(" bps span)\n");
        spread_line(out, feed, k);
        if attempts == 0 {
            out.append("  → no buys triggered. The market moved only ");
            out.append(k.range_bps.as_str());
            out.append(" bps this run; try\n    a smaller HFT_TARGET_DIP_BPS, HFT_DOWNTICK=1, a busier pair, or a longer run.\n");
        }
    }
}

/// The lines on slippage.
pub open spec fn slippage_lines_text(
    a: Seq<char>,
    n: u64,
    s: SlippageTexts,
    attempts: u64,
) -> Seq<char> {
    let a = if n > 0 {
        let a = a + "Slippage (fill−target) — mean: "@ + s.mean@ + " bps   |slip|: p50 "@
            + s.abs_p50@ + "  p95 "@ + s.abs_p95@ + " bps   (n="@ + decimal(n as nat)
            + ")\n                         worst adverse: "@ + s.max@ + " bps   best: "@ + s.min@
            + " bps\n"@;
        a
    } else {
        let a = if attempts > 0 {
            let a = a + "Slippage: no fills resolved before shutdown (orders still in flight)\n"@;
            a
        } else {
            a
        };
        a
    };
    a
}

fn slippage_lines(out: &mut String, n: u64, s: &SlippageTexts, attempts: u64)
    ensures
        final(out)@ == slippage_lines_text(old(out)@, n, *s, attempts),
{
    if n > 0 {
        out.append("Slippage (fill−target) — mean: ");
        out.append(s.mean.as_str());
        out.append(" bps   |slip|: p50 ");
        out.append(s.abs_p50.as_str());
        out.append("  p95 ");
        out.append(s.abs_p95.as_str());
        out.append(" bps   (n=");
        push_decimal(out, n);
        out.append(")\n                         worst adverse: ");
        out.append(s.max.as_str());
        out.append(" bps   best: ");
        out.append(s.min.as_str());
        out.append(" bps\n");
    } else {
        if attempts > 0 {
            out.append("Slippage: no fills resolved before shutdown (orders still in flight)\n");
        }
    }
}

/// The report of a buy rule.
pub open spec fn buy_section_text(
    a: Seq<char>,
    x: ReportConfig,
    k: ReportTexts,
    feed: FeedStats,
    trades: Seq<TradeExecution>,
    c: Counters,
    mem: Memory,
) -> Seq<char> {
    let a = a + repeated('─', 72) + "\n"@;
    let a = buy_head_text(a, x.rule, k.buy, c.attempts, c.filled);
    let a = buy_market_text(a, feed, k.market, c.attempts);
    let n = slippages(trades).len() as u64;
    let a = slippage_lines_text(a, n, k.slippage, c.attempts);
    let a = a + repeated('─', 55) + "\n"@;
    let a = counters_text(a, c);
    let a = a + repeated('─', 55) + "\n"@ + "Memory — Total RAM: "@
        + decimal((mem.total_ram / 1_048_576) as nat) + " MB\n  [1] start          Peak RSS: "@
        + decimal((mem.rss_start / 1_048_576) as nat) + " MB\n  [2] after ready    Peak RSS: "@
        + decimal((mem.rss_ready / 1_048_576) as nat) + " MB\n  [3] before log     Peak RSS: "@
        + decimal((mem.rss_pre_log / 1_048_576) as nat) + " MB\n"@;
    a
}

fn buy_section(
    out: &mut String,
    x: &ReportConfig,
    k: &ReportTexts,
    feed: &FeedStats,
    trades: &[TradeExecution],
    c: &Counters,
    mem: &Memory,
)
    ensures
        final(out)@ == buy_section_text(old(out)@, *x, *k, *feed, trades@, *c, *mem),
{
    push_repeated(out, '─', 72);
    out.append("\n");
    buy_head(out, x.rule, &k.buy, c.attempts, c.filled);
    buy_market(out, feed, &k.market, c.attempts);
    let n: u64 = slippage_pairs(trades).len() as u64;
    slippage_lines(out, n, &k.slippage, c.attempts);
    push_repeated(out, '─', 55);
    out.append("\n");
    counters(out, c);
    push_repeated(out, '─', 55);
    out.append("\n");
    out.append("Memory — Total RAM: ");
    push_decimal(out, mem.total_ram / 1_048_576);
    out.append(" MB\n  [1] start          Peak RSS: ");
    push_decimal(out, mem.rss_start / 1_048_576);
    out.append(" MB\n  [2] after ready    Peak RSS: ");
    push_decimal(out, mem.rss_ready / 1_048_576);
    out.append(" MB\n  [3] before log     Peak RSS: ");
    push_decimal(out, mem.rss_pre_log / 1_048_576);
    out.append(" MB\n");
}

/// The rows of the first `n` trades.
pub open spec fn rows_text(a: Seq<char>, trades: Seq<TradeExecution>, n: int) -> Seq<char>
    decreases n,
{
    if n <= 0 {
        a
    } else {
        trade_row_text(rows_text(a, trades, n - 1), trades[n - 1])
    }
}

/// The whole report.
pub open spec fn stats_text(
    trades: Seq<TradeExecution>,
    trips: Seq<RoundTrip>,
    sig: HistogramView,
    rt: HistogramView,
    c: Counters,
    feed: FeedStats,
    x: ReportConfig,
    mem: Memory,
    k: ReportTexts,
) -> Seq<char> {
    let a = table_head_text(Seq::empty(), trades.len() as u64);
    let a = rows_text(a, trades, trades.len() as int);
    let a = if trades.len() > 0 {
        latency_section_text(a, trades, sig, rt)
    } else {
        a
    };
    if x.trading {
        model_section_text(a, x, k, feed, trips, c, mem)
    } else {
        buy_section_text(a, x, k, feed, trades, c, mem)
    }
}

/// The counters of a run.
pub open spec fn counters_of(book: crate::book::BookView, feed: FeedStats) -> Counters {
    Counters {
        stall_count: book.stall_count,
        gap_count: feed.gap_count,
        net_position: book.net_position,
        halt: book.halt,
        attempts: book.attempts,
        filled: book.filled,
    }
}

/// The counters of a run.
pub fn counters_from(book: &OrderBook, feed: &FeedStats) -> (c: Counters)
    ensures
        c == counters_of(book@, *feed),
{
    Counters {
        stall_count: book.stall_count,
        gap_count: feed.gap_count,
        net_position: book.net_position,
        halt: book.halt,
        attempts: book.attempts,
        filled: book.filled,
    }
}

/// The report of a run.
pub fn print_stats(
    book: &OrderBook,
    rt_hist: &LatencyHistogram,
    feed: &FeedStats,
    config: &ReportConfig,
    mem: &Memory,
    texts: &ReportTexts,
) -> (out: String)
    requires
        book.wf(),
        rt_hist.wf(),
    ensures
        out@ == stats_text(
            book@.log.contents(),
            book@.round_trips.contents(),
            book@.hist,
            rt_hist@,
            counters_of(book@, *feed),
            *feed,
            *config,
            *mem,
            *texts,
        ),
{
    let count: usize = book.trade_log.count();
    let trades = vstd::slice::slice_subrange(book.trade_log.entries.as_slice(), 0, count);
    let n_trips: usize = book.round_trips.count();
    let trips = vstd::slice::slice_subrange(book.round_trips.entries.as_slice(), 0, n_trips);
    assert(trades@ == book@.log.contents());
    assert(trips@ == book@.round_trips.contents());
    let c = counters_from(book, feed);
    let mut out = String::new();
    assert(out@ == Seq::<char>::empty());
    table_head(&mut out, count as u64);
    let ghost head = out@;
    let mut i: usize = 0;
    while i < count
        invariant
            i <= count,
            count == trades@.len(),
            out@ == rows_text(head, trades@, i as int),
        decreases count - i,
    {
        trade_row(&mut out, &trades[i]);
        i = i + 1;
    }
    if count > 0 {
        latency_section(&mut out, trades, &book.sig_hist, rt_hist);
    }
    if config.trading {
        model_section(&mut out, config, texts, feed, trips, &c, mem);
    } else {
        buy_section(&mut out, config, texts, feed, trades, &c, mem);
    }
    out
}

// What the report shows.
/// The table has a row for every trade, in order: the rows of two parts of the trades are
/// those of the first part and then those of the second.
pub proof fn law_every_trade_has_a_row(a: Seq<char>, s: Seq<TradeExecution>, t: Seq<TradeExecution>)
    ensures
        rows_text(a, s + t, (s + t).len() as int) == rows_text(
            rows_text(a, s, s.len() as int),
            t,
            t.len() as int,
        ),
        s.len() == 1 ==> rows_text(a, s, 1) == trade_row_text(a, s[0]),
        rows_text(a, s, 0) == a,
{
    lemma_rows_front(a, s, t, s.len() as int);
    lemma_rows_back(a, s, t, t.len() as int);
    if s.len() == 1 {
        assert(rows_text(a, s, 1) == trade_row_text(rows_text(a, s, 0), s[0]));
    }
}

proof fn lemma_rows_front(a: Seq<char>, s: Seq<TradeExecution>, t: Seq<TradeExecution>, n: int)
    requires
        0 <= n <= s.len(),
    ensures
        rows_text(a, s + t, n) == rows_text(a, s, n),
    decreases n,
{
    if n > 0 {
        lemma_rows_front(a, s, t, n - 1);
        assert((s + t)[n - 1] == s[n - 1]);
    }
}

proof fn lemma_rows_back(a: Seq<char>, s: Seq<TradeExecution>, t: Seq<TradeExecution>, n: int)
    requires
        0 <= n <= t.len(),
    ensures
        rows_text(a, s + t, s.len() + n) == rows_text(rows_text(a, s, s.len() as int), t, n),
    decreases n,
{
    if n > 0 {
        lemma_rows_back(a, s, t, n - 1);
        assert((s + t)[s.len() + n - 1] == t[n - 1]);
    } else {
        lemma_rows_front(a, s, t, s.len() as int);
    }
}

/// A row is as wide as the table's head: 72 characters and the end of the line, as long as
/// its numbers fit their columns. Its columns are the sequence, the signal latency, the round
/// trip, the transit and the end-to-end latency, the last two in microseconds; what was not
/// measured is a dash.
pub proof fn law_row_columns(t: TradeExecution)
    requires
        decimal(t.sequence as nat).len() <= 10,
        decimal(t.latency_ns as nat).len() <= 14,
        t.round_trip_ns > 0,
        t.transit_est_ns > 0,
        t.transit_est_ns + t.latency_ns + t.round_trip_ns <= u64::MAX,
        decimal(t.round_trip_ns as nat).len() <= 14,
        decimal((t.transit_est_ns / 1000) as nat).len() <= 16,
        decimal(((t.transit_est_ns + t.latency_ns + t.round_trip_ns) / 1000) as nat).len() <= 14,
    ensures
        ({
            let row = trade_row_text(Seq::empty(), t);
            let e2e = (t.transit_est_ns + t.latency_ns + t.round_trip_ns) / 1000;
            &&& row.len() == 73
            &&& row.subrange(0, 10) == padded_right(decimal(t.sequence as nat), 10)
            &&& row.subrange(11, 25) == padded_left(decimal(t.latency_ns as nat), ' ', 14)
            &&& row.subrange(26, 40) == padded_left(decimal(t.round_trip_ns as nat), ' ', 14)
            &&& row.subrange(41, 57) == padded_left(
                decimal((t.transit_est_ns / 1000) as nat),
                ' ',
                16,
            )
            &&& row.subrange(58, 72) == padded_left(decimal(e2e as nat), ' ', 14)
        }),
{
    let row = trade_row_text(Seq::empty(), t);
    let e2e = ((t.transit_est_ns + t.latency_ns + t.round_trip_ns) / 1000) as nat;
    crate::stats::law_end_to_end(t);
    let c0 = padded_right(decimal(t.sequence as nat), 10);
    let c1 = padded_left(decimal(t.latency_ns as nat), ' ', 14);
    let c2 = padded_left(decimal(t.round_trip_ns as nat), ' ', 14);
    let c3 = padded_left(decimal((t.transit_est_ns / 1000) as nat), ' ', 16);
    let c4 = padded_left(decimal(e2e), ' ', 14);
    reveal_strlit(" ");
    reveal_strlit("\n");
    assert(c0.len() == 10 && c1.len() == 14 && c2.len() == 14 && c3.len() == 16 && c4.len() == 14);
    assert(row == c0 + " "@ + c1 + " "@ + c2 + " "@ + c3 + " "@ + c4 + "\n"@);
    assert(row.subrange(0, 10) == c0);
    assert(row.subrange(11, 25) == c1);
    assert(row.subrange(26, 40) == c2);
    assert(row.subrange(41, 57) == c3);
    assert(row.subrange(58, 72) == c4);
}

/// A figure that is not shown is a dash, and one that is shown is itself.
pub proof fn law_dashes(n: u64)
    ensures
        or_dash(n, true) == decimal(n as nat),
        or_dash(n, false) == "—"@,
        "—"@.len() == 1,
{
    reveal_strlit("—");
}

/// The counters of the report are those of the book and of the feed.
pub proof fn law_counters(book: crate::book::BookView, feed: FeedStats)
    ensures
        ({
            let c = counters_of(book, feed);
            &&& c.stall_count == book.stall_count
            &&& c.gap_count == feed.gap_count
            &&& c.net_position == book.net_position
            &&& c.halt == book.halt
            &&& c.attempts == book.attempts
            &&& c.filled == book.filled
        }),
{
}

/// The report of a trading model shows no figure of the buy rule, and that of a buy rule none
/// of the trading model: two sets of figures that differ only there give the same report.
pub proof fn law_report_of_the_rule_in_force(
    trades: Seq<TradeExecution>,
    trips: Seq<RoundTrip>,
    other_trips: Seq<RoundTrip>,
    sig: HistogramView,
    rt: HistogramView,
    c: Counters,
    feed: FeedStats,
    x: ReportConfig,
    mem: Memory,
    k: ReportTexts,
    j: ReportTexts,
)
    requires
        k.market == j.market,
        x.trading ==> k.model == j.model && k.score == j.score && trips == other_trips,
        !x.trading ==> k.slippage == j.slippage && k.buy == j.buy,
    ensures
        stats_text(trades, trips, sig, rt, c, feed, x, mem, k) == stats_text(
            trades,
            other_trips,
            sig,
            rt,
            c,
            feed,
            x,
            mem,
            j,
        ),
{
}

} // verus!

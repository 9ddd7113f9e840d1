//! The log that the engine writes when it shuts down, as JSON.
//!
//! Figures that are floating-point numbers come in as formatted text; what stands in the
//! log, where and when, is decided here.

use vstd::prelude::*;
use vstd::string::StringExecFns;
use crate::book::{minus, OrderBook};
use crate::calendar::unix_to_date_time;
use crate::config::TRADE_LOG_SIZE;
use crate::histogram::{HistogramView, LatencyHistogram};
use crate::ieee::{finite, finite64, is_finite, is_finite64, is_positive, positive};
use crate::ingest::FeedStats;
use crate::logs::{RoundTrip, TradeExecution};
use crate::report::{counters_from, counters_of, Counters, Memory, ReportConfig};
use crate::stats::{
    end_to_end, end_to_end_ns, end_to_end_samples, ends_to_ends, has_end_to_end, has_slippage,
    latencies, latencies_of, slippage_pairs, slippages, slipped, summarize, summary, tally,
    tally_of, transit_samples, transits, Stat, Tally,
};
use crate::text::{bool_text, decimal, push_bool, push_decimal, push_signed, signed_decimal};

verus! {

/// Prices, spreads and slippage, as text.
pub struct LogTexts {
    /// The fixed buy level.
    pub target_price: String,
    /// Lowest price.
    pub price_lo: String,
    /// Highest price.
    pub price_hi: String,
    /// Narrowest spread.
    pub spread_lo: String,
    /// Widest spread.
    pub spread_hi: String,
    /// Funding rate.
    pub funding: String,
    /// Mean slippage, four decimals.
    pub slip_mean: String,
    /// Smallest slippage, four decimals.
    pub slip_min: String,
    /// Largest slippage, four decimals.
    pub slip_max: String,
    /// Median magnitude of the slippage, four decimals.
    pub slip_p50: String,
    /// 95th percentile of its magnitude, four decimals.
    pub slip_p95: String,
}

/// Settings of the trading model, as text.
pub struct LogModelTexts {
    /// Leverage.
    pub leverage: String,
    /// Fee per side.
    pub fee_bps: String,
    /// Starting capital.
    pub capital: String,
    /// Share of the equity at risk per trade.
    pub risk_frac: String,
    /// Entry threshold.
    pub entry_dip_bps: String,
    /// Take-profit.
    pub tp_bps: String,
    /// Stop-loss.
    pub sl_bps: String,
    /// Weight of the trend.
    pub w_trend: String,
    /// Weight of the order flow.
    pub w_flow: String,
    /// Weight of the reference's trend.
    pub w_basket: String,
    /// Weight of the reference's lead.
    pub w_leadlag: String,
    /// Threshold of the signal.
    pub signal_thr_bps: String,
    /// Pullback that times an entry.
    pub pullback_bps: String,
    /// Retrace of the trailing stop.
    pub trail_bps: String,
    /// Latest signal, four decimals.
    pub latest_signal: String,
}

/// The scorecard's figures, as text.
pub struct LogScoreTexts {
    /// The account was ruined.
    pub ruined: bool,
    /// Profit factor (binary64).
    pub profit_factor_bits: u64,
    /// Share of round trips profitable before fees, two decimals.
    pub hit_rate: String,
    /// Share of round trips profitable after fees, two decimals.
    pub win_rate: String,
    /// Starting capital, four decimals.
    pub capital: String,
    /// Equity at the end, four decimals.
    pub final_equity: String,
    /// Return on capital in percent, four decimals.
    pub return_pct: String,
    /// Profit after fees, four decimals.
    pub net_pnl: String,
    /// Fees, four decimals.
    pub total_fees: String,
    /// Mean move before fees, four decimals.
    pub gross_bps: String,
    /// Mean move after fees, four decimals.
    pub net_bps: String,
    /// Mean gain, four decimals.
    pub avg_win: String,
    /// Mean loss, four decimals.
    pub avg_loss: String,
    /// Profit factor, four decimals.
    pub profit_factor: String,
    /// Deepest fall of the account, four decimals.
    pub max_drawdown: String,
    /// Deepest fall in percent, four decimals.
    pub max_dd_pct: String,
    /// Mean over deviation per trade, four decimals.
    pub sharpe: String,
    /// Mean time a position was held, in milliseconds, three decimals.
    pub hold_ms: String,
}

/// The figures of one round trip, as text.
pub struct TripTexts {
    /// The account after it, four decimals.
    pub equity: String,
    /// Fill of the entry.
    pub entry_price: String,
    /// Fill of the exit.
    pub exit_price: String,
    /// Units held.
    pub size: String,
    /// Move before fees, four decimals.
    pub gross_bps: String,
    /// Move after fees, four decimals.
    pub net_bps: String,
    /// Profit after fees, four decimals.
    pub pnl_quote: String,
    /// Signal at the entry, four decimals.
    pub signal: String,
}

/// The figures of one trade, as text.
pub struct TradeTexts {
    /// Price that the order aimed at.
    pub target_price: String,
    /// Fill.
    pub fill_price: String,
    /// Slippage, four decimals.
    pub slippage_bps: String,
}

/// All figures of the log that are floating-point numbers.
pub struct LogFigures {
    /// The fixed buy level (binary32).
    pub target: u32,
    /// Prices, spreads and slippage.
    pub run: LogTexts,
    /// The trading model.
    pub model: LogModelTexts,
    /// The scorecard.
    pub score: LogScoreTexts,
    /// One entry per round trip.
    pub trips: Vec<TripTexts>,
    /// The sampled signal, three decimals.
    pub series: Vec<String>,
    /// One entry per trade.
    pub trades: Vec<TradeTexts>,
}

/// The summary of samples, if there are any.
pub open spec fn summary_of(v: Seq<u64>) -> Option<Stat> {
    if v.len() == 0 {
        None
    } else {
        Some(summary(v))
    }
}

/// The first members of the log: version, time and counters.
pub open spec fn log_head_text(
    a: Seq<char>,
    version: Seq<char>,
    date: Seq<char>,
    time: Seq<char>,
    count: u64,
    c: Counters,
) -> Seq<char> {
    let a = a + "{\n  \"version\": \""@ + version + "\",\n  \"date\": \""@ + date
        + "\",\n  \"timestamp\": \""@ + date + "T"@ + time + "Z\",\n  \"total_trades\": "@
        + decimal(count as nat) + ",\n  \"net_position\": "@
        + signed_decimal(c.net_position as int) + ",\n  \"halted\": "@ + bool_text(c.halt)
        + ",\n  \"stall_count\": "@ + decimal(c.stall_count as nat) + ",\n  \"gap_count\": "@
        + decimal(c.gap_count as nat) + ",\n"@;
    a
}

fn log_head(out: &mut String, version: &str, date: &str, time: &str, count: u64, c: &Counters)
    ensures
        final(out)@ == log_head_text(old(out)@, version@, date@, time@, count, *c),
{
    out.append("{\n  \"version\": \"");
    out.append(version);
    out.append("\",\n  \"date\": \"");
    out.append(date);
    out.append("\",\n  \"timestamp\": \"");
    out.append(date);
    out.append("T");
    out.append(time);
    out.append("Z\",\n  \"total_trades\": ");
    push_decimal(out, count);
    out.append(",\n  \"net_position\": ");
    push_signed(out, c.net_position);
    out.append(",\n  \"halted\": ");
    push_bool(out, c.halt);
    out.append(",\n  \"stall_count\": ");
    push_decimal(out, c.stall_count);
    out.append(",\n  \"gap_count\": ");
    push_decimal(out, c.gap_count);
    out.append(",\n");
}

/// The memory figures of the log, in megabytes.
pub open spec fn log_memory_text(a: Seq<char>, mem: Memory) -> Seq<char> {
    let a = a + "  \"memory\": {\n    \"total_ram_mb\": "@
        + decimal((mem.total_ram / 1_048_576) as nat) + ",\n    \"peak_rss_start_mb\": "@
        + decimal((mem.rss_start / 1_048_576) as nat) + ",\n    \"peak_rss_ready_mb\": "@
        + decimal((mem.rss_ready / 1_048_576) as nat) + ",\n    \"peak_rss_pre_log_mb\": "@
        + decimal((mem.rss_pre_log / 1_048_576) as nat) + "\n  },\n"@;
    a
}

fn log_memory(out: &mut String, mem: &Memory)
    ensures
        final(out)@ == log_memory_text(old(out)@, *mem),
{
    out.append("  \"memory\": {\n    \"total_ram_mb\": ");
    push_decimal(out, mem.total_ram / 1_048_576);
    out.append(",\n    \"peak_rss_start_mb\": ");
    push_decimal(out, mem.rss_start / 1_048_576);
    out.append(",\n    \"peak_rss_ready_mb\": ");
    push_decimal(out, mem.rss_ready / 1_048_576);
    out.append(",\n    \"peak_rss_pre_log_mb\": ");
    push_decimal(out, mem.rss_pre_log / 1_048_576);
    out.append("\n  },\n");
}

/// Mean, range and percentiles of a latency stage; the percentiles are of all observations.
pub open spec fn stage_members_text(
    a: Seq<char>,
    avg: u64,
    min: u64,
    max: u64,
    h: HistogramView,
) -> Seq<char> {
    let a = a + "    \"avg_ns\": "@ + decimal(avg as nat) + ",\n    \"min_ns\": "@
        + decimal(min as nat) + ",\n    \"max_ns\": "@ + decimal(max as nat)
        + ",\n    \"p50_ns\": "@ + decimal(h.quantile(50, 100) as nat)
        + ",\n    \"p95_ns\": "@ + decimal(h.quantile(95, 100) as nat)
        + ",\n    \"p99_ns\": "@ + decimal(h.quantile(99, 100) as nat)
        + ",\n    \"p999_ns\": "@ + decimal(h.quantile(999, 1000) as nat) + "\n"@;
    a
}

fn stage_members(out: &mut String, avg: u64, min: u64, max: u64, h: &LatencyHistogram)
    requires
        h.wf(),
    ensures
        final(out)@ == stage_members_text(old(out)@, avg, min, max, h@),
{
    let n: u64 = h.count();
    out.append("    \"avg_ns\": ");
    push_decimal(out, avg);
    out.append(",\n    \"min_ns\": ");
    push_decimal(out, min);
    out.append(",\n    \"max_ns\": ");
    push_decimal(out, max);
    out.append(",\n    \"p50_ns\": ");
    push_decimal(out, h.percentile(50, 100, n));
    out.append(",\n    \"p95_ns\": ");
    push_decimal(out, h.percentile(95, 100, n));
    out.append(",\n    \"p99_ns\": ");
    push_decimal(out, h.percentile(99, 100, n));
    out.append(",\n    \"p999_ns\": ");
    push_decimal(out, h.percentile(999, 1000, n));
    out.append("\n");
}

/// The members of a summarized stage.
pub open spec fn stat_members_text(a: Seq<char>, s: Stat) -> Seq<char> {
    let a = a + "    \"avg_ns\": "@ + decimal(s.avg as nat) + ",\n    \"min_ns\": "@
        + decimal(s.min as nat) + ",\n    \"max_ns\": "@ + decimal(s.max as nat)
        + ",\n    \"p50_ns\": "@ + decimal(s.p50 as nat) + ",\n    \"p95_ns\": "@
        + decimal(s.p95 as nat) + ",\n    \"p99_ns\": "@ + decimal(s.p99 as nat)
        + ",\n    \"p999_ns\": "@ + decimal(s.p999 as nat) + ",\n    \"count\": "@
        + decimal(s.count as nat) + "\n"@;
    a
}

fn stat_members(out: &mut String, s: &Stat)
    ensures
        final(out)@ == stat_members_text(old(out)@, *s),
{
    out.append("    \"avg_ns\": ");
    push_decimal(out, s.avg);
    out.append(",\n    \"min_ns\": ");
    push_decimal(out, s.min);
    out.append(",\n    \"max_ns\": ");
    push_decimal(out, s.max);
    out.append(",\n    \"p50_ns\": ");
    push_decimal(out, s.p50);
    out.append(",\n    \"p95_ns\": ");
    push_decimal(out, s.p95);
    out.append(",\n    \"p99_ns\": ");
    push_decimal(out, s.p99);
    out.append(",\n    \"p999_ns\": ");
    push_decimal(out, s.p999);
    out.append(",\n    \"count\": ");
    push_decimal(out, s.count as u64);
    out.append("\n");
}

/// A summarized stage as a member of the log; null if there is none.
pub open spec fn stat_json_text(
    a: Seq<char>,
    name: Seq<char>,
    s: Option<Stat>,
    trailing_comma: bool,
) -> Seq<char> {
    let a = a + "  \""@ + name;
    let a = match s {
        Some(s) => {
            let a = a + "\": {\n"@;
            let a = stat_members_text(a, s);
            let a = a + "  }"@;
            a
        },
        None => {
            let a = a + "\": null"@;
            a
        },
    };
    let a = if trailing_comma {
        let a = a + ",\n"@;
        a
    } else {
        let a = a + "\n"@;
        a
    };
    a
}

/// A summarized stage as a member of the log; null if there is none.
pub fn push_stat_json(out: &mut String, name: &str, s: &Option<Stat>, trailing_comma: bool)
    ensures
        final(out)@ == stat_json_text(old(out)@, name@, *s, trailing_comma),
{
    out.append("  \"");
    out.append(name);
    match s {
        Some(s) => {
            out.append("\": {\n");
            stat_members(out, s);
            out.append("  }");
        },
        None => {
            out.append("\": null");
        },
    }
    if trailing_comma {
        out.append(",\n");
    } else {
        out.append("\n");
    }
}

/// The latency stages of the log.
pub open spec fn log_latencies_text(
    a: Seq<char>,
    trades: Seq<TradeExecution>,
    sig: HistogramView,
    rt: HistogramView,
) -> Seq<char> {
    let a = if trades.len() > 0 {
        let lat = latencies_of(trades);
        let n = trades.len() as int;
        let a = a + "  \"signal_latency\": {\n"@;
        let a = stage_members_text(
            a,
            (lat.sig_sum / n as u64) as u64,
            lat.sig_min,
            lat.sig_max,
            sig,
        );
        let a = a + "  },\n  \"round_trip\": {\n"@;
        let a = if lat.rt_count > 0 {
            let m = lat.rt_count as int;
            let a = stage_members_text(
                a,
                (lat.rt_sum / m as u64) as u64,
                lat.rt_min,
                lat.rt_max,
                rt,
            );
            a
        } else {
            let a = a
                + "    \"avg_ns\": null,\n    \"min_ns\": null,\n    \"max_ns\": null,\n    \"p50_ns\": null,\n    \"p95_ns\": null,\n    \"p99_ns\": null,\n    \"p999_ns\": null\n"@;
            a
        };
        let a = a + "  },\n"@;
        let a = stat_json_text(a, "transit"@, summary_of(transits(trades)), true);
        let a = stat_json_text(a, "end_to_end"@, summary_of(ends_to_ends(trades)), true);
        a
    } else {
        let a = a
            + "  \"signal_latency\": null,\n  \"round_trip\": null,\n  \"transit\": null,\n  \"end_to_end\": null,\n"@;
        a
    };
    a
}

fn log_latencies(
    out: &mut String,
    trades: &[TradeExecution],
    sig: &LatencyHistogram,
    rt: &LatencyHistogram,
)
    requires
        trades@.len() <= TRADE_LOG_SIZE,
        sig.wf(),
        rt.wf(),
    ensures
        final(out)@ == log_latencies_text(old(out)@, trades@, sig@, rt@),
{
    if trades.len() > 0 {
        let lat = latencies(trades);
        let n: u64 = trades.len() as u64;
        out.append("  \"signal_latency\": {\n");
        stage_members(out, lat.sig_sum / n, lat.sig_min, lat.sig_max, sig);
        out.append("  },\n  \"round_trip\": {\n");
        if lat.rt_count > 0 {
            let m: u64 = lat.rt_count as u64;
            stage_members(out, lat.rt_sum / m, lat.rt_min, lat.rt_max, rt);
        } else {
            out.append("    \"avg_ns\": null,\n    \"min_ns\": null,\n    \"max_ns\": null,\n    \"p50_ns\": null,\n    \"p95_ns\": null,\n    \"p99_ns\": null,\n    \"p999_ns\": null\n");
        }
        out.append("  },\n");
        push_stat_json(out, "transit", &summarize(transit_samples(trades)), true);
        push_stat_json(out, "end_to_end", &summarize(end_to_end_samples(trades)), true);
    } else {
        out.append("  \"signal_latency\": null,\n  \"round_trip\": null,\n  \"transit\": null,\n  \"end_to_end\": null,\n");
    }
}

/// Attempts, fills and the observed market.
pub open spec fn log_execution_text(
    a: Seq<char>,
    target: u32,
    c: Counters,
    feed: FeedStats,
    k: LogTexts,
) -> Seq<char> {
    let a = a + "  \"target_price\": "@;
    let a = if positive(target) {
        let a = a + k.target_price@;
        a
    } else {
        let a = a + "null"@;
        a
    };
    let a = a + ",\n  \"attempts\": "@ + decimal(c.attempts as nat) + ",\n  \"filled\": "@
        + decimal(c.filled as nat) + ",\n  \"pending\": "@
        + decimal(minus(c.attempts, c.filled) as nat);
    let a = if finite(feed.price_lo) && finite(feed.price_hi) {
        let a = a + ",\n  \"price_range\": {\"min\": "@ + k.price_lo@ + ", \"max\": "@
            + k.price_hi@ + "},\n"@;
        a
    } else {
        let a = a + ",\n  \"price_range\": null,\n"@;
        a
    };
    let a = if finite(feed.spread_lo) && finite(feed.spread_hi) {
        let a = a + "  \"spread_bps\": {\"min\": "@ + k.spread_lo@ + ", \"max\": "@ + k.spread_hi@
            + "},\n"@;
        a
    } else {
        let a = a + "  \"spread_bps\": null,\n"@;
        a
    };
    let a = a + "  \"funding_rate\": "@ + k.funding@ + ",\n"@;
    a
}

fn log_execution(out: &mut String, target: u32, c: &Counters, feed: &FeedStats, k: &LogTexts)
    ensures
        final(out)@ == log_execution_text(old(out)@, target, *c, *feed, *k),
{
    out.append("  \"target_price\": ");
    if is_positive(target) {
        out.append(k.target_price.as_str());
    } else {
        out.append("null");
    }
    out.append(",\n  \"attempts\": ");
    push_decimal(out, c.attempts);
    out.append(",\n  \"filled\": ");
    push_decimal(out, c.filled);
    out.append(",\n  \"pending\": ");
    push_decimal(out, c.attempts.saturating_sub(c.filled));
    if is_finite(feed.price_lo) && is_finite(feed.price_hi) {
        out.append(",\n  \"price_range\": {\"min\": ");
        out.append(k.price_lo.as_str());
        out.append(", \"max\": ");
        out.append(k.price_hi.as_str());
        out.append("},\n");
    } else {
        out.append(",\n  \"price_range\": null,\n");
    }
    if is_finite(feed.spread_lo) && is_finite(feed.spread_hi) {
        out.append("  \"spread_bps\": {\"min\": ");
        out.append(k.spread_lo.as_str());
        out.append(", \"max\": ");
        out.append(k.spread_hi.as_str());
        out.append("},\n");
    } else {
        out.append("  \"spread_bps\": null,\n");
    }
    out.append("  \"funding_rate\": ");
    out.append(k.funding.as_str());
    out.append(",\n");
}

/// The slippage of `n` trades.
pub open spec fn log_slippage_text(a: Seq<char>, n: u64, k: LogTexts) -> Seq<char> {
    let a = if n > 0 {
        let a = a + "  \"slippage_bps\": {\n    \"mean\": "@ + k.slip_mean@ + ",\n    \"min\": "@
            + k.slip_min@ + ",\n    \"max\": "@ + k.slip_max@ + ",\n    \"abs_p50\": "@
            + k.slip_p50@ + ",\n    \"abs_p95\": "@ + k.slip_p95@ + ",\n    \"count\": "@
            + decimal(n as nat) + "\n  },\n"@;
        a
    } else {
        let a = a + "  \"slippage_bps\": null,\n"@;
        a
    };
    a
}

fn log_slippage(out: &mut String, n: u64, k: &LogTexts)
    ensures
        final(out)@ == log_slippage_text(old(out)@, n, *k),
{
    if n > 0 {
        out.append("  \"slippage_bps\": {\n    \"mean\": ");
        out.append(k.slip_mean.as_str());
        out.append(",\n    \"min\": ");
        out.append(k.slip_min.as_str());
        out.append(",\n    \"max\": ");
        out.append(k.slip_max.as_str());
        out.append(",\n    \"abs_p50\": ");
        out.append(k.slip_p50.as_str());
        out.append(",\n    \"abs_p95\": ");
        out.append(k.slip_p95.as_str());
        out.append(",\n    \"count\": ");
        push_decimal(out, n);
        out.append("\n  },\n");
    } else {
        out.append("  \"slippage_bps\": null,\n");
    }
}

/// The settings of the trading model.
pub open spec fn log_model_text(a: Seq<char>, x: ReportConfig, m: LogModelTexts) -> Seq<char> {
    let a = a + "  \"trading\": {\n    \"enabled\": true, \"momentum\": "@ + bool_text(x.momentum)
        + ", \"allow_short\": "@ + bool_text(x.allow_short) + ", \"adaptive\": "@
        + bool_text(x.adaptive) + ", \"use_flow\": "@ + bool_text(x.use_flow)
        + ",\n    \"leverage\": "@ + m.leverage@ + ", \"fee_bps\": "@ + m.fee_bps@
        + ", \"capital\": "@ + m.capital@ + ", \"risk_frac\": "@ + m.risk_frac@
        + ",\n    \"entry_dip_bps\": "@ + m.entry_dip_bps@ + ", \"tp_bps\": "@ + m.tp_bps@
        + ", \"sl_bps\": "@ + m.sl_bps@ + ",\n"@;
    let a = if x.momentum {
        let a = a + "    \"w_trend\": "@ + m.w_trend@ + ", \"w_flow\": "@ + m.w_flow@
            + ", \"w_basket\": "@ + m.w_basket@ + ", \"w_leadlag\": "@ + m.w_leadlag@
            + ", \"signal_thr_bps\": "@ + m.signal_thr_bps@ + ", \"pullback_bps\": "@
            + m.pullback_bps@ + ", \"trail_bps\": "@ + m.trail_bps@ + ", \"latest_signal_bps\": "@
            + m.latest_signal@ + ",\n"@;
        a
    } else {
        a
    };
    a
}

fn log_model(out: &mut String, x: &ReportConfig, m: &LogModelTexts)
    ensures
        final(out)@ == log_model_text(old(out)@, *x, *m),
{
    out.append("  \"trading\": {\n    \"enabled\": true, \"momentum\": ");
    push_bool(out, x.momentum);
    out.append(", \"allow_short\": ");
    push_bool(out, x.allow_short);
    out.append(", \"adaptive\": ");
    push_bool(out, x.adaptive);
    out.append(", \"use_flow\": ");
    push_bool(out, x.use_flow);
    out.append(",\n    \"leverage\": ");
    out.append(m.leverage.as_str());
    out.append(", \"fee_bps\": ");
    out.append(m.fee_bps.as_str());
    out.append(", \"capital\": ");
    out.append(m.capital.as_str());
    out.append(", \"risk_frac\": ");
    out.append(m.risk_frac.as_str());
    out.append(",\n    \"entry_dip_bps\": ");
    out.append(m.entry_dip_bps.as_str());
    out.append(", \"tp_bps\": ");
    out.append(m.tp_bps.as_str());
    out.append(", \"sl_bps\": ");
    out.append(m.sl_bps.as_str());
    out.append(",\n");
    if x.momentum {
        out.append("    \"w_trend\": ");
        out.append(m.w_trend.as_str());
        out.append(", \"w_flow\": ");
        out.append(m.w_flow.as_str());
        out.append(", \"w_basket\": ");
        out.append(m.w_basket.as_str());
        out.append(", \"w_leadlag\": ");
        out.append(m.w_leadlag.as_str());
        out.append(", \"signal_thr_bps\": ");
        out.append(m.signal_thr_bps.as_str());
        out.append(", \"pullback_bps\": ");
        out.append(m.pullback_bps.as_str());
        out.append(", \"trail_bps\": ");
        out.append(m.trail_bps.as_str());
        out.append(", \"latest_signal_bps\": ");
        out.append(m.latest_signal.as_str());
        out.append(",\n");
    }
}

/// The scorecard of at least one round trip.
pub open spec fn log_score_text(a: Seq<char>, y: Tally, s: LogScoreTexts) -> Seq<char> {
    let a = a + "    \"round_trips\": "@ + decimal(y.n as nat) + ", \"longs\": "@
        + decimal(y.longs as nat) + ", \"shorts\": "@ + decimal(y.shorts as nat)
        + ", \"liquidations\": "@ + decimal(y.liquidations as nat) + ",\n    \"gross_wins\": "@
        + decimal(y.gross_wins as nat) + ", \"hit_rate_pct\": "@ + s.hit_rate@
        + ", \"net_wins\": "@ + decimal(y.wins as nat) + ", \"net_win_rate_pct\": "@ + s.win_rate@
        + ",\n    \"capital\": "@ + s.capital@ + ", \"final_equity\": "@ + s.final_equity@
        + ", \"return_pct\": "@ + s.return_pct@ + ", \"ruined\": "@ + bool_text(s.ruined)
        + ",\n    \"net_pnl_quote\": "@ + s.net_pnl@ + ", \"total_fees_quote\": "@ + s.total_fees@
        + ",\n    \"gross_bps_mean\": "@ + s.gross_bps@ + ", \"net_bps_mean\": "@ + s.net_bps@
        + ", \"avg_win_bps\": "@ + s.avg_win@ + ", \"avg_loss_bps\": "@ + s.avg_loss@
        + ",\n    \"profit_factor\": "@;
    let a = if finite64(s.profit_factor_bits) {
        let a = a + s.profit_factor@;
        a
    } else {
        let a = a + "null"@;
        a
    };
    let a = a + ", \"max_drawdown_quote\": "@ + s.max_drawdown@ + ", \"max_dd_pct\": "@
        + s.max_dd_pct@ + ", \"sharpe_per_trade\": "@ + s.sharpe@ + ", \"avg_hold_ms\": "@
        + s.hold_ms@ + "\n"@;
    a
}

fn log_score(out: &mut String, y: &Tally, s: &LogScoreTexts)
    ensures
        final(out)@ == log_score_text(old(out)@, *y, *s),
{
    out.append("    \"round_trips\": ");
    push_decimal(out, y.n as u64);
    out.append(", \"longs\": ");
    push_decimal(out, y.longs as u64);
    out.append(", \"shorts\": ");
    push_decimal(out, y.shorts as u64);
    out.append(", \"liquidations\": ");
    push_decimal(out, y.liquidations as u64);
    out.append(",\n    \"gross_wins\": ");
    push_decimal(out, y.gross_wins as u64);
    out.append(", \"hit_rate_pct\": ");
    out.append(s.hit_rate.as_str());
    out.append(", \"net_wins\": ");
    push_decimal(out, y.wins as u64);
    out.append(", \"net_win_rate_pct\": ");
    out.append(s.win_rate.as_str());
    out.append(",\n    \"capital\": ");
    out.append(s.capital.as_str());
    out.append(", \"final_equity\": ");
    out.append(s.final_equity.as_str());
    out.append(", \"return_pct\": ");
    out.append(s.return_pct.as_str());
    out.append(", \"ruined\": ");
    push_bool(out, s.ruined);
    out.append(",\n    \"net_pnl_quote\": ");
    out.append(s.net_pnl.as_str());
    out.append(", \"total_fees_quote\": ");
    out.append(s.total_fees.as_str());
    out.append(",\n    \"gross_bps_mean\": ");
    out.append(s.gross_bps.as_str());
    out.append(", \"net_bps_mean\": ");
    out.append(s.net_bps.as_str());
    out.append(", \"avg_win_bps\": ");
    out.append(s.avg_win.as_str());
    out.append(", \"avg_loss_bps\": ");
    out.append(s.avg_loss.as_str());
    out.append(",\n    \"profit_factor\": ");
    if is_finite64(s.profit_factor_bits) {
        out.append(s.profit_factor.as_str());
    } else {
        out.append("null");
    }
    out.append(", \"max_drawdown_quote\": ");
    out.append(s.max_drawdown.as_str());
    out.append(", \"max_dd_pct\": ");
    out.append(s.max_dd_pct.as_str());
    out.append(", \"sharpe_per_trade\": ");
    out.append(s.sharpe.as_str());
    out.append(", \"avg_hold_ms\": ");
    out.append(s.hold_ms.as_str());
    out.append("\n");
}

/// One entry of the log of round trips; a comma follows all but the last.
pub open spec fn trip_entry_text(
    a: Seq<char>,
    t: RoundTrip,
    k: TripTexts,
    more: bool,
) -> Seq<char> {
    let a = a + "    {\"side\": "@ + signed_decimal(t.side as int) + ", \"entry_price\": "@
        + k.entry_price@ + ", \"exit_price\": "@ + k.exit_price@ + ", \"size\": "@ + k.size@
        + ", \"gross_bps\": "@ + k.gross_bps@ + ", \"net_bps\": "@ + k.net_bps@
        + ", \"pnl_quote\": "@ + k.pnl_quote@ + ", \"hold_ns\": "@ + decimal(t.hold() as nat)
        + ", \"signal_at_entry\": "@ + k.signal@;
    let a = if more {
        let a = a + "},\n"@;
        a
    } else {
        let a = a + "}\n"@;
        a
    };
    a
}

fn trip_entry(out: &mut String, t: &RoundTrip, k: &TripTexts, more: bool)
    ensures
        final(out)@ == trip_entry_text(old(out)@, *t, *k, more),
{
    out.append("    {\"side\": ");
    push_signed(out, t.side);
    out.append(", \"entry_price\": ");
    out.append(k.entry_price.as_str());
    out.append(", \"exit_price\": ");
    out.append(k.exit_price.as_str());
    out.append(", \"size\": ");
    out.append(k.size.as_str());
    out.append(", \"gross_bps\": ");
    out.append(k.gross_bps.as_str());
    out.append(", \"net_bps\": ");
    out.append(k.net_bps.as_str());
    out.append(", \"pnl_quote\": ");
    out.append(k.pnl_quote.as_str());
    out.append(", \"hold_ns\": ");
    push_decimal(out, t.hold_ns());
    out.append(", \"signal_at_entry\": ");
    out.append(k.signal.as_str());
    if more {
        out.append("},\n");
    } else {
        out.append("}\n");
    }
}

/// One entry of the log of trades; a comma follows all but the last.
pub open spec fn trade_entry_text(
    a: Seq<char>,
    t: TradeExecution,
    k: TradeTexts,
    more: bool,
) -> Seq<char> {
    let a = a + "    {\"sequence\": "@ + decimal(t.sequence as nat) + ", \"sig_latency_ns\": "@
        + decimal(t.latency_ns as nat) + ", \"round_trip_ns\": "@;
    let a = if t.round_trip_ns > 0 {
        let a = a + decimal(t.round_trip_ns as nat);
        a
    } else {
        let a = a + "null"@;
        a
    };
    let a = a + ", \"transit_est_ns\": "@;
    let a = if t.transit_est_ns > 0 {
        let a = a + decimal(t.transit_est_ns as nat);
        a
    } else {
        let a = a + "null"@;
        a
    };
    let a = a + ", \"end_to_end_ns\": "@;
    let a = if has_end_to_end(t) {
        let a = a + decimal(end_to_end(t) as nat);
        a
    } else {
        let a = a + "null"@;
        a
    };
    let a = a + ", \"target_price\": "@ + k.target_price@ + ", \"fill_price\": "@;
    let a = if positive(t.fill_price) {
        let a = a + k.fill_price@;
        a
    } else {
        let a = a + "null"@;
        a
    };
    let a = a + ", \"slippage_bps\": "@;
    let a = if has_slippage(t) {
        let a = a + k.slippage_bps@;
        a
    } else {
        let a = a + "null"@;
        a
    };
    let a = if more {
        let a = a + "},\n"@;
        a
    } else {
        let a = a + "}\n"@;
        a
    };
    a
}

fn trade_entry(out: &mut String, t: &TradeExecution, k: &TradeTexts, more: bool)
    ensures
        final(out)@ == trade_entry_text(old(out)@, *t, *k, more),
{
    out.append("    {\"sequence\": ");
    push_decimal(out, t.sequence);
    out.append(", \"sig_latency_ns\": ");
    push_decimal(out, t.latency_ns);
    out.append(", \"round_trip_ns\": ");
    if t.round_trip_ns > 0 {
        push_decimal(out, t.round_trip_ns);
    } else {
        out.append("null");
    }
    out.append(", \"transit_est_ns\": ");
    if t.transit_est_ns > 0 {
        push_decimal(out, t.transit_est_ns);
    } else {
        out.append("null");
    }
    out.append(", \"end_to_end_ns\": ");
    if t.round_trip_ns > 0 && t.transit_est_ns > 0 {
        push_decimal(out, end_to_end_ns(t));
    } else {
        out.append("null");
    }
    out.append(", \"target_price\": ");
    out.append(k.target_price.as_str());
    out.append(", \"fill_price\": ");
    if is_positive(t.fill_price) {
        out.append(k.fill_price.as_str());
    } else {
        out.append("null");
    }
    out.append(", \"slippage_bps\": ");
    if slipped(t) {
        out.append(k.slippage_bps.as_str());
    } else {
        out.append("null");
    }
    if more {
        out.append("},\n");
    } else {
        out.append("}\n");
    }
}

/// The first `n` values of the equity curve.
pub open spec fn curve_text(a: Seq<char>, k: Seq<TripTexts>, n: int) -> Seq<char>
    decreases n,
{
    if n <= 0 {
        a
    } else if n == 1 {
        curve_text(a, k, 0) + k[0].equity@
    } else {
        curve_text(a, k, n - 1) + ", "@ + k[n - 1].equity@
    }
}

/// The first `n` values of the sampled signal.
pub open spec fn series_text(a: Seq<char>, k: Seq<String>, n: int) -> Seq<char>
    decreases n,
{
    if n <= 0 {
        a
    } else if n == 1 {
        series_text(a, k, 0) + k[0]@
    } else {
        series_text(a, k, n - 1) + ", "@ + k[n - 1]@
    }
}

/// The first `n` entries of the log of round trips.
pub open spec fn trips_text(a: Seq<char>, t: Seq<RoundTrip>, k: Seq<TripTexts>, n: int) -> Seq<char>
    decreases n,
{
    if n <= 0 {
        a
    } else {
        trip_entry_text(trips_text(a, t, k, n - 1), t[n - 1], k[n - 1], n < t.len())
    }
}

/// The first `n` entries of the log of trades.
pub open spec fn trades_text(
    a: Seq<char>,
    t: Seq<TradeExecution>,
    k: Seq<TradeTexts>,
    n: int,
) -> Seq<char>
    decreases n,
{
    if n <= 0 {
        a
    } else {
        trade_entry_text(trades_text(a, t, k, n - 1), t[n - 1], k[n - 1], n < t.len())
    }
}

/// The members of the log on the trading model.
pub open spec fn trading_text(
    a: Seq<char>,
    x: ReportConfig,
    trips: Seq<RoundTrip>,
    f: LogFigures,
) -> Seq<char> {
    let a = log_model_text(a, x, f.model);
    let a = if trips.len() > 0 {
        log_score_text(a, tally_of(trips), f.score)
    } else {
        a + "    \"round_trips\": 0\n"@
    };
    let a = a + "  },\n  \"equity_curve\": ["@;
    let a = curve_text(a, f.trips@, trips.len() as int);
    let a = a + "],\n  \"round_trip_log\": [\n"@;
    let a = trips_text(a, trips, f.trips@, trips.len() as int);
    let a = a + "  ],\n  \"signal_series\": ["@;
    let a = series_text(a, f.series@, f.series@.len() as int);
    a + "],\n"@
}

fn push_trading(out: &mut String, x: &ReportConfig, trips: &[RoundTrip], f: &LogFigures)
    requires
        f.trips@.len() == trips@.len(),
    ensures
        final(out)@ == trading_text(old(out)@, *x, trips@, *f),
{
    log_model(out, x, &f.model);
    if trips.len() > 0 {
        let y = tally(trips);
        log_score(out, &y, &f.score);
    } else {
        out.append("    \"round_trips\": 0\n");
    }
    out.append("  },\n  \"equity_curve\": [");
    let ghost start = out@;
    let mut i: usize = 0;
    while i < trips.len()
        invariant
            i <= trips.len(),
            f.trips@.len() == trips@.len(),
            out@ == curve_text(start, f.trips@, i as int),
        decreases trips.len() - i,
    {
        if i > 0 {
            out.append(", ");
        }
        out.append(f.trips[i].equity.as_str());
        i = i + 1;
    }
    out.append("],\n  \"round_trip_log\": [\n");
    let ghost start = out@;
    let mut j: usize = 0;
    while j < trips.len()
        invariant
            j <= trips.len(),
            f.trips@.len() == trips@.len(),
            out@ == trips_text(start, trips@, f.trips@, j as int),
        decreases trips.len() - j,
    {
        trip_entry(out, &trips[j], &f.trips[j], j + 1 < trips.len());
        j = j + 1;
    }
    out.append("  ],\n  \"signal_series\": [");
    let ghost start = out@;
    let mut k: usize = 0;
    while k < f.series.len()
        invariant
            k <= f.series.len(),
            out@ == series_text(start, f.series@, k as int),
        decreases f.series.len() - k,
    {
        if k > 0 {
            out.append(", ");
        }
        out.append(f.series[k].as_str());
        k = k + 1;
    }
    out.append("],\n");
}

/// The whole log.
pub open spec fn log_text(
    version: Seq<char>,
    date: Seq<char>,
    time: Seq<char>,
    trades: Seq<TradeExecution>,
    trips: Seq<RoundTrip>,
    sig: HistogramView,
    rt: HistogramView,
    c: Counters,
    feed: FeedStats,
    x: ReportConfig,
    mem: Memory,
    f: LogFigures,
) -> Seq<char> {
    let a = log_head_text(Seq::empty(), version, date, time, trades.len() as u64, c);
    let a = log_memory_text(a, mem);
    let a = log_latencies_text(a, trades, sig, rt);
    let a = log_execution_text(a, f.target, c, feed, f.run);
    let a = log_slippage_text(a, slippages(trades).len() as u64, f.run);
    let a = if x.trading {
        trading_text(a, x, trips, f)
    } else {
        a
    };
    let a = a + "  \"trades\": [\n"@;
    let a = trades_text(a, trades, f.trades@, trades.len() as int);
    a + "  ]\n}\n"@
}

/// Where the log of a version and a date goes.
pub open spec fn log_dir(version: Seq<char>, date: Seq<char>) -> Seq<char> {
    "logs/v"@ + version + "/"@ + date
}

/// A log and where it goes.
pub struct Log {
    /// The directory.
    pub dir: String,
    /// The file.
    pub path: String,
    /// The contents.
    pub json: String,
}

/// The log of a run that ends at `secs` seconds since the epoch.
pub fn write_log(
    version: &str,
    secs: u64,
    book: &OrderBook,
    rt_hist: &LatencyHistogram,
    feed: &FeedStats,
    config: &ReportConfig,
    mem: &Memory,
    figures: &LogFigures,
) -> (log: Log)
    requires
        book.wf(),
        rt_hist.wf(),
        figures.trades@.len() == book@.log.held(),
        figures.trips@.len() == book@.round_trips.held(),
        figures.series@.len() == book@.signal.series.held(),
    ensures
        ({
            let date = crate::calendar::date_text(crate::calendar::date_of(secs as int / 86400));
            let time = crate::calendar::time_text(secs as int);
            &&& log.dir@ == log_dir(version@, date)
            &&& log.path@ == log_dir(version@, date) + "/"@ + time + ".json"@
            &&& log.json@ == log_text(
                version@,
                date,
                time,
                book@.log.contents(),
                book@.round_trips.contents(),
                book@.hist,
                rt_hist@,
                counters_of(book@, *feed),
                *feed,
                *config,
                *mem,
                *figures,
            )
        }),
{
    let (date, time) = unix_to_date_time(secs);
    let mut dir = String::new();
    dir.append("logs/v");
    dir.append(version);
    dir.append("/");
    dir.append(date.as_str());
    assert(dir@ == log_dir(version@, date@));
    let mut path = String::new();
    path.append(dir.as_str());
    path.append("/");
    path.append(time.as_str());
    path.append(".json");
    assert(path@ == log_dir(version@, date@) + "/"@ + time@ + ".json"@);
    let count: usize = book.trade_log.count();
    let trades = vstd::slice::slice_subrange(book.trade_log.entries.as_slice(), 0, count);
    let n_trips: usize = book.round_trips.count();
    let trips = vstd::slice::slice_subrange(book.round_trips.entries.as_slice(), 0, n_trips);
    assert(trades@ == book@.log.contents());
    assert(trips@ == book@.round_trips.contents());
    let c = counters_from(book, feed);
    let mut json = String::new();
    assert(json@ == Seq::<char>::empty());
    log_head(&mut json, version, date.as_str(), time.as_str(), count as u64, &c);
    log_memory(&mut json, mem);
    log_latencies(&mut json, trades, &book.sig_hist, rt_hist);
    log_execution(&mut json, figures.target, &c, feed, &figures.run);
    let n: u64 = slippage_pairs(trades).len() as u64;
    log_slippage(&mut json, n, &figures.run);
    if config.trading {
        push_trading(&mut json, config, trips, figures);
    }
    json.append("  \"trades\": [\n");
    let ghost start = json@;
    let mut i: usize = 0;
    while i < count
        invariant
            i <= count,
            count == trades@.len(),
            figures.trades@.len() == trades@.len(),
            json@ == trades_text(start, trades@, figures.trades@, i as int),
        decreases count - i,
    {
        trade_entry(&mut json, &trades[i], &figures.trades[i], i + 1 < count);
        i = i + 1;
    }
    json.append("  ]\n}\n");
    Log { dir, path, json }
}

// What the log holds.
/// The log has an entry for every trade and every round trip, in order, with a comma behind
/// all but the last.
pub proof fn law_every_entry_is_logged(
    a: Seq<char>,
    t: Seq<TradeExecution>,
    k: Seq<TradeTexts>,
    rt: Seq<RoundTrip>,
    kt: Seq<TripTexts>,
    n: int,
)
    requires
        n >= 0,
    ensures
        n < t.len() ==> trades_text(a, t, k, n + 1) == trade_entry_text(
            trades_text(a, t, k, n),
            t[n],
            k[n],
            n + 1 != t.len(),
        ),
        n < rt.len() ==> trips_text(a, rt, kt, n + 1) == trip_entry_text(
            trips_text(a, rt, kt, n),
            rt[n],
            kt[n],
            n + 1 != rt.len(),
        ),
        trades_text(a, t, k, 0) == a,
        trips_text(a, rt, kt, 0) == a,
{
}

/// The equity curve and the signal series hold every value, with a comma between each and the
/// next.
pub proof fn law_every_value_is_logged(a: Seq<char>, k: Seq<TripTexts>, s: Seq<String>, n: int)
    requires
        n >= 1,
    ensures
        curve_text(a, k, n + 1) == curve_text(a, k, n) + ", "@ + k[n].equity@,
        series_text(a, s, n + 1) == series_text(a, s, n) + ", "@ + s[n]@,
        curve_text(a, k, 1) == a + k[0].equity@,
        series_text(a, s, 1) == a + s[0]@,
        curve_text(a, k, 0) == a,
        series_text(a, s, 0) == a,
{
    assert(curve_text(a, k, 0) == a);
    assert(series_text(a, s, 0) == a);
}

/// Samples are summarized exactly if there are any.
pub proof fn law_summaries_of_samples(v: Seq<u64>)
    ensures
        summary_of(v) is None <==> v.len() == 0,
        v.len() > 0 ==> summary_of(v) == Some(summary(v)),
{
}

/// The log has the members of a trading model exactly if one traded.
pub proof fn law_log_of_the_rule_in_force(
    version: Seq<char>,
    date: Seq<char>,
    time: Seq<char>,
    trades: Seq<TradeExecution>,
    trips: Seq<RoundTrip>,
    other_trips: Seq<RoundTrip>,
    sig: HistogramView,
    rt: HistogramView,
    c: Counters,
    feed: FeedStats,
    x: ReportConfig,
    mem: Memory,
    f: LogFigures,
    g: LogFigures,
)
    requires
        !x.trading,
        f.target == g.target,
        f.run == g.run,
        f.trades@ == g.trades@,
    ensures
        log_text(version, date, time, trades, trips, sig, rt, c, feed, x, mem, f) == log_text(
            version,
            date,
            time,
            trades,
            other_trips,
            sig,
            rt,
            c,
            feed,
            x,
            mem,
            g,
        ),
{
}

/// Logs of different days go to different directories, and each directory names its version
/// and its day.
pub proof fn law_log_directory(version: Seq<char>, date: Seq<char>)
    ensures
        ({
            let d = log_dir(version, date);
            &&& d.len() == 7 + version.len() + date.len()
            &&& d.subrange(6, 6 + version.len() as int) == version
            &&& d.skip(7 + version.len() as int) == date
        }),
{
    reveal_strlit("logs/v");
    reveal_strlit("/");
    let d = log_dir(version, date);
    assert(d.subrange(6, 6 + version.len() as int) == version);
    assert(d.skip(7 + version.len() as int) == date);
}

/// A value, or `null` if there is none.
pub open spec fn or_null(text: Seq<char>, there: bool) -> Seq<char> {
    if there {
        text
    } else {
        "null"@
    }
}

/// What a trade's entry says: its number and its signal latency always; round trip, transit
/// and end-to-end latency as far as they were measured, a fill if it was filled, the slippage
/// if it was filled and aimed at a price; and `null` for what is missing.
pub proof fn law_trade_entry(t: TradeExecution, k: TradeTexts, more: bool)
    requires
        t.transit_est_ns + t.latency_ns + t.round_trip_ns <= u64::MAX,
    ensures
        ({
            let filled = crate::ieee::lt(0, t.fill_price);
            let e2e = t.transit_est_ns + t.latency_ns + t.round_trip_ns;
            trade_entry_text(Seq::empty(), t, k, more) == "    {\"sequence\": "@ + decimal(
                t.sequence as nat,
            ) + ", \"sig_latency_ns\": "@ + decimal(t.latency_ns as nat)
                + ", \"round_trip_ns\": "@ + or_null(
                decimal(t.round_trip_ns as nat),
                t.round_trip_ns > 0,
            ) + ", \"transit_est_ns\": "@ + or_null(
                decimal(t.transit_est_ns as nat),
                t.transit_est_ns > 0,
            ) + ", \"end_to_end_ns\": "@ + or_null(
                decimal(e2e as nat),
                t.round_trip_ns > 0 && t.transit_est_ns > 0,
            ) + ", \"target_price\": "@ + k.target_price@ + ", \"fill_price\": "@ + or_null(
                k.fill_price@,
                filled,
            ) + ", \"slippage_bps\": "@ + or_null(
                k.slippage_bps@,
                filled && crate::ieee::lt(0, t.target_price),
            ) + (if more {
                "},\n"@
            } else {
                "}\n"@
            })
        }),
{
    crate::stats::law_end_to_end(t);
    let none = Seq::<char>::empty();
    assert(none + "    {\"sequence\": "@ == "    {\"sequence\": "@);
}

} // verus!

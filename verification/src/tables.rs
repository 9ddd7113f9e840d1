//! Tables of backtests, evaluations and policy searches.
//!
//! Figures that are floating-point numbers come in as formatted text.

use vstd::prelude::*;
use vstd::string::StringExecFns;
use crate::backtest::{is_overfit, overfit, GridPoint};
use crate::stats::{outcome, outcome_of, Outcome, Tally};
use crate::text::{
    bool_text, decimal, padded_left, padded_right, push_bool, push_decimal, push_left,
    push_padded_left, push_padded_right, push_repeated, push_right, repeated,
};

verus! {

/// Settings of a sweep or an evaluation, as text.
pub struct SweepTexts {
    /// Starting capital, no decimals.
    pub capital: String,
    /// Fee per side in basis points, one decimal.
    pub fee: String,
    /// Leverage, no decimals.
    pub leverage: String,
    /// The signal's terms are normalized.
    pub normalize: bool,
}

/// Figures of a row of a sweep, as text.
pub struct RowTexts {
    /// Threshold of the signal, no decimals.
    pub threshold: String,
    /// Retrace of the trailing stop, no decimals.
    pub trail: String,
    /// Return in sample in percent, two decimals.
    pub in_sample: String,
    /// Return out of sample in percent, two decimals.
    pub out_of_sample: String,
    /// Share of profitable round trips out of sample, one decimal.
    pub hit_rate: String,
}

/// Figures of an evaluation, as text.
pub struct EvalTexts {
    /// The account was ruined.
    pub ruined: bool,
    /// Return on capital in percent (binary64).
    pub return_bits: u64,
    /// Share of round trips profitable before fees, one decimal.
    pub hit_rate: String,
    /// Share of round trips profitable after fees, one decimal.
    pub win_rate: String,
    /// Return on capital in percent, with its sign and two decimals.
    pub return_pct: String,
    /// Profit after fees, with its sign and two decimals.
    pub net_pnl: String,
    /// Profit factor, two decimals.
    pub profit_factor: String,
    /// Mean over deviation per trade, two decimals.
    pub sharpe: String,
    /// Deepest fall in percent, one decimal.
    pub max_dd_pct: String,
    /// Mean gain in basis points, with its sign and two decimals.
    pub avg_win: String,
    /// Mean loss in basis points, with its sign and two decimals.
    pub avg_loss: String,
    /// Mean time a position was held, in milliseconds, one decimal.
    pub hold_ms: String,
    /// Mean move after fees in basis points, with its sign and two decimals.
    pub net_bps: String,
    /// Mean move before fees in basis points, with its sign and two decimals.
    pub gross_bps: String,
    /// Fees, two decimals.
    pub fees: String,
}

/// The size of a policy search.
#[derive(Clone, Copy, Debug, PartialEq, Eq, Structural)]
pub struct SearchSize {
    /// Ticks of the capture.
    pub ticks: u64,
    /// Ticks in sample.
    pub in_sample: u64,
    /// Ticks out of sample.
    pub out_of_sample: u64,
    /// Candidates per generation.
    pub pop: u64,
    /// Generations.
    pub gens: u64,
    /// Candidates kept per generation.
    pub elite: u64,
    /// Seed of the search.
    pub seed: u64,
}

/// The return of a part with `n` round trips (binary64); 0 without any.
pub open spec fn return_or_zero(n: u64, k: EvalTexts) -> u64 {
    if n > 0 {
        k.return_bits
    } else {
        0
    }
}

fn return_of(n: u64, k: &EvalTexts) -> (r: u64)
    ensures
        r == return_or_zero(n, *k),
{
    if n > 0 {
        k.return_bits
    } else {
        0
    }
}

fn bool_string(b: bool) -> (s: String)
    ensures
        s@ == bool_text(b),
{
    let mut s = String::new();
    push_bool(&mut s, b);
    assert(s@ == bool_text(b));
    s
}

/// The head of a sweep's table.
pub open spec fn sweep_head(
    a: Seq<char>,
    ticks: u64,
    traded: u64,
    path: Seq<char>,
    k: SweepTexts,
) -> Seq<char> {
    let a = a + "[backtest] "@ + decimal(ticks as nat) + " ticks ("@ + decimal(traded as nat)
        + " traded) from "@ + path + "\n  walk-forward split at 70% of the capture  |  capital "@
        + k.capital@ + ", fee "@ + k.fee@ + " bps/side, "@ + k.leverage@ + "x lev"@;
    let a = if k.normalize {
        let a = a + ", normalized signal\n"@;
        a
    } else {
        let a = a + "\n"@;
        a
    };
    let a = a + repeated('─', 86) + "\n"@ + padded_right("maker"@, 6) + " "@
        + padded_right("thr"@, 5) + " "@ + padded_right("trail"@, 6) + " "@
        + padded_right("gate"@, 5) + " | "@ + padded_left("IS ret%"@, ' ', 9) + " "@
        + padded_left("OOS ret%"@, ' ', 9) + " "@ + padded_left("OOS hit"@, ' ', 8) + " "@
        + padded_left("OOS n"@, ' ', 6) + " | flag\n"@ + repeated('─', 86) + "\n"@;
    a
}

/// The head of a sweep's table.
pub fn push_sweep_head(out: &mut String, ticks: u64, traded: u64, path: &str, k: &SweepTexts)
    ensures
        final(out)@ == sweep_head(old(out)@, ticks, traded, path@, *k),
{
    out.append("[backtest] ");
    push_decimal(out, ticks);
    out.append(" ticks (");
    push_decimal(out, traded);
    out.append(" traded) from ");
    out.append(path);
    out.append("\n  walk-forward split at 70% of the capture  |  capital ");
    out.append(k.capital.as_str());
    out.append(", fee ");
    out.append(k.fee.as_str());
    out.append(" bps/side, ");
    out.append(k.leverage.as_str());
    out.append("x lev");
    if k.normalize {
        out.append(", normalized signal\n");
    } else {
        out.append("\n");
    }
    push_repeated(out, '─', 86);
    out.append("\n");
    push_padded_right(out, "maker", 6);
    out.append(" ");
    push_padded_right(out, "thr", 5);
    out.append(" ");
    push_padded_right(out, "trail", 6);
    out.append(" ");
    push_padded_right(out, "gate", 5);
    out.append(" | ");
    push_padded_left(out, "IS ret%", ' ', 9);
    out.append(" ");
    push_padded_left(out, "OOS ret%", ' ', 9);
    out.append(" ");
    push_padded_left(out, "OOS hit", ' ', 8);
    out.append(" ");
    push_padded_left(out, "OOS n", ' ', 6);
    out.append(" | flag\n");
    push_repeated(out, '─', 86);
    out.append("\n");
}

/// One row of a sweep's table.
pub open spec fn sweep_row(
    a: Seq<char>,
    p: GridPoint,
    k: RowTexts,
    trips: u64,
    flag: Seq<char>,
) -> Seq<char> {
    let maker = bool_text(p.maker);
    let gate = bool_text(p.fee_gate);
    let a = a + padded_right(maker, 6) + " "@ + padded_right(k.threshold@, 5) + " "@
        + padded_right(k.trail@, 6) + " "@ + padded_right(gate, 5) + " | "@
        + padded_left(k.in_sample@, ' ', 8) + "% "@ + padded_left(k.out_of_sample@, ' ', 8)
        + "% "@ + padded_left(k.hit_rate@, ' ', 7) + "% "@
        + padded_left(decimal(trips as nat), ' ', 6) + " | "@ + flag;
    a
}

/// One row of a sweep's table.
pub fn push_sweep_row(out: &mut String, p: &GridPoint, k: &RowTexts, trips: u64, flag: &str)
    ensures
        final(out)@ == sweep_row(old(out)@, *p, *k, trips, flag@),
{
    let maker = bool_string(p.maker);
    let gate = bool_string(p.fee_gate);
    push_padded_right(out, maker.as_str(), 6);
    out.append(" ");
    push_padded_right(out, k.threshold.as_str(), 5);
    out.append(" ");
    push_padded_right(out, k.trail.as_str(), 6);
    out.append(" ");
    push_padded_right(out, gate.as_str(), 5);
    out.append(" | ");
    push_padded_left(out, k.in_sample.as_str(), ' ', 8);
    out.append("% ");
    push_padded_left(out, k.out_of_sample.as_str(), ' ', 8);
    out.append("% ");
    push_padded_left(out, k.hit_rate.as_str(), ' ', 7);
    out.append("% ");
    push_right(out, trips, 6);
    out.append(" | ");
    out.append(flag);
}

/// The end of a sweep's table.
pub open spec fn sweep_foot(
    a: Seq<char>,
    best: Seq<char>,
    rows: u64,
    maker_bps: Seq<char>,
) -> Seq<char> {
    let a = a + repeated('─', 86) + "\n"@;
    let a = if rows > 0 {
        let a = a + "Best out-of-sample return: "@ + best + "%  ("@ + decimal(rows as nat)
            + " configs; ranked by OOS, not in-sample)\n"@;
        a
    } else {
        a
    };
    let a = a + "(maker fee = HFT_MAKER_BPS="@ + maker_bps
        + "; set HFT_NORMALIZE=1 to sweep the z-scored signal)\n"@;
    a
}

/// The end of a sweep's table.
pub fn push_sweep_foot(out: &mut String, best: &str, rows: u64, maker_bps: &str)
    ensures
        final(out)@ == sweep_foot(old(out)@, best@, rows, maker_bps@),
{
    push_repeated(out, '─', 86);
    out.append("\n");
    if rows > 0 {
        out.append("Best out-of-sample return: ");
        out.append(best);
        out.append("%  (");
        push_decimal(out, rows);
        out.append(" configs; ranked by OOS, not in-sample)\n");
    }
    out.append("(maker fee = HFT_MAKER_BPS=");
    out.append(maker_bps);
    out.append("; set HFT_NORMALIZE=1 to sweep the z-scored signal)\n");
}

/// The head of a policy's evaluation.
pub open spec fn eval_head(
    a: Seq<char>,
    ticks: u64,
    traded: u64,
    path: Seq<char>,
    k: SweepTexts,
) -> Seq<char> {
    let a = a + "[eval] learned policy over "@ + decimal(ticks as nat) + " ticks ("@
        + decimal(traded as nat) + " traded) from "@ + path + "\n       capital "@ + k.capital@
        + ", fee "@ + k.fee@ + " bps/side, "@ + k.leverage@
        + "x lev  (this capture is held out — train was on a different one)\n"@
        + repeated('─', 78) + "\n"@;
    a
}

/// The head of a policy's evaluation.
pub fn push_eval_head(out: &mut String, ticks: u64, traded: u64, path: &str, k: &SweepTexts)
    ensures
        final(out)@ == eval_head(old(out)@, ticks, traded, path@, *k),
{
    out.append("[eval] learned policy over ");
    push_decimal(out, ticks);
    out.append(" ticks (");
    push_decimal(out, traded);
    out.append(" traded) from ");
    out.append(path);
    out.append("\n       capital ");
    out.append(k.capital.as_str());
    out.append(", fee ");
    out.append(k.fee.as_str());
    out.append(" bps/side, ");
    out.append(k.leverage.as_str());
    out.append("x lev  (this capture is held out — train was on a different one)\n");
    push_repeated(out, '─', 78);
    out.append("\n");
}

/// One line of a policy's evaluation, of `n` round trips.
pub open spec fn eval_line(a: Seq<char>, tag: Seq<char>, n: u64, k: EvalTexts) -> Seq<char> {
    let a = a + padded_right(tag, 11);
    let a = if n > 0 {
        let a = a + " n="@ + padded_right(decimal(n as nat), 4) + " hit="@
            + padded_left(k.hit_rate@, ' ', 5) + "%  win="@ + padded_left(k.win_rate@, ' ', 5)
            + "%  ret="@ + padded_left(k.return_pct@, ' ', 7) + "%  netP&L="@
            + padded_left(k.net_pnl@, ' ', 9) + "  PF="@ + padded_left(k.profit_factor@, ' ', 5)
            + "  Sharpe="@ + padded_left(k.sharpe@, ' ', 5) + "  maxDD="@
            + padded_left(k.max_dd_pct@, ' ', 4) + "%\n"@;
        a
    } else {
        let a = a + " no round-trips\n"@;
        a
    };
    a
}

/// One line of a policy's evaluation, of `n` round trips.
pub fn push_eval_line(out: &mut String, tag: &str, n: u64, k: &EvalTexts)
    ensures
        final(out)@ == eval_line(old(out)@, tag@, n, *k),
{
    push_padded_right(out, tag, 11);
    if n > 0 {
        out.append(" n=");
        push_left(out, n, 4);
        out.append(" hit=");
        push_padded_left(out, k.hit_rate.as_str(), ' ', 5);
        out.append("%  win=");
        push_padded_left(out, k.win_rate.as_str(), ' ', 5);
        out.append("%  ret=");
        push_padded_left(out, k.return_pct.as_str(), ' ', 7);
        out.append("%  netP&L=");
        push_padded_left(out, k.net_pnl.as_str(), ' ', 9);
        out.append("  PF=");
        push_padded_left(out, k.profit_factor.as_str(), ' ', 5);
        out.append("  Sharpe=");
        push_padded_left(out, k.sharpe.as_str(), ' ', 5);
        out.append("  maxDD=");
        push_padded_left(out, k.max_dd_pct.as_str(), ' ', 4);
        out.append("%\n");
    } else {
        out.append(" no round-trips\n");
    }
}

/// The end of a policy's evaluation.
pub open spec fn eval_foot(a: Seq<char>, y: Tally, k: EvalTexts) -> Seq<char> {
    let a = a + repeated('─', 78) + "\n"@;
    let a = if y.n > 0 {
        let a = eval_line(a, "FULL"@, y.n as u64, k);
        let a = a + "  "@ + decimal(y.longs as nat) + " long / "@ + decimal(y.shorts as nat)
            + " short  |  liquidations "@ + decimal(y.liquidations as nat) + "  |  avg win "@
            + k.avg_win@ + " / avg loss "@ + k.avg_loss@ + " bps  |  avg hold "@ + k.hold_ms@
            + " ms\n  net "@ + k.net_bps@ + " bps/trade after fees  |  gross "@ + k.gross_bps@
            + " bps/trade  |  total fees "@ + k.fees@ + "\n→ "@;
        let a = match outcome_of(k.ruined, k.return_bits) {
            Outcome::Ruined => {
                let a = a + "BLOWN UP (ruined)"@;
                a
            },
            Outcome::Profitable => {
                let a = a + "net PROFITABLE"@;
                a
            },
            Outcome::Loss => {
                let a = a + "net LOSS"@;
                a
            },
        };
        let a = a + " after fees over this held-out capture.\n"@;
        a
    } else {
        let a = a + "FULL        no round-trips (the policy never fired on this capture).\n"@;
        a
    };
    a
}

/// The end of a policy's evaluation.
pub fn push_eval_foot(out: &mut String, y: &Tally, k: &EvalTexts)
    ensures
        final(out)@ == eval_foot(old(out)@, *y, *k),
{
    push_repeated(out, '─', 78);
    out.append("\n");
    if y.n > 0 {
        push_eval_line(out, "FULL", y.n as u64, k);
        out.append("  ");
        push_decimal(out, y.longs as u64);
        out.append(" long / ");
        push_decimal(out, y.shorts as u64);
        out.append(" short  |  liquidations ");
        push_decimal(out, y.liquidations as u64);
        out.append("  |  avg win ");
        out.append(k.avg_win.as_str());
        out.append(" / avg loss ");
        out.append(k.avg_loss.as_str());
        out.append(" bps  |  avg hold ");
        out.append(k.hold_ms.as_str());
        out.append(" ms\n  net ");
        out.append(k.net_bps.as_str());
        out.append(" bps/trade after fees  |  gross ");
        out.append(k.gross_bps.as_str());
        out.append(" bps/trade  |  total fees ");
        out.append(k.fees.as_str());
        out.append("\n→ ");
        match outcome(k.ruined, k.return_bits) {
            Outcome::Ruined => {
                out.append("BLOWN UP (ruined)");
            },
            Outcome::Profitable => {
                out.append("net PROFITABLE");
            },
            Outcome::Loss => {
                out.append("net LOSS");
            },
        }
        out.append(" after fees over this held-out capture.\n");
    } else {
        out.append("FULL        no round-trips (the policy never fired on this capture).\n");
    }
}

/// The head of a policy search's table.
pub open spec fn search_head(a: Seq<char>, s: SearchSize) -> Seq<char> {
    let a = a + "[train] CEM  |  "@ + decimal(s.ticks as nat) + " ticks ("@
        + decimal(s.in_sample as nat) + " IS / "@ + decimal(s.out_of_sample as nat)
        + " OOS)  pop="@ + decimal(s.pop as nat) + " gens="@ + decimal(s.gens as nat) + " elite="@
        + decimal(s.elite as nat) + " seed="@ + decimal(s.seed as nat)
        + "\n        65 params (tiny MLP 6→8→1), fitness = Sharpe (penalized < 30 trades)\n"@
        + repeated('─', 64) + "\n"@ + padded_right("gen"@, 5) + " "@
        + padded_left("best fit"@, ' ', 10) + " "@ + padded_left("elite μ"@, ' ', 10) + " "@
        + padded_left("IS n"@, ' ', 8) + "\n"@ + repeated('─', 64) + "\n"@;
    a
}

/// The head of a policy search's table.
pub fn push_search_head(out: &mut String, s: &SearchSize)
    ensures
        final(out)@ == search_head(old(out)@, *s),
{
    out.append("[train] CEM  |  ");
    push_decimal(out, s.ticks);
    out.append(" ticks (");
    push_decimal(out, s.in_sample);
    out.append(" IS / ");
    push_decimal(out, s.out_of_sample);
    out.append(" OOS)  pop=");
    push_decimal(out, s.pop);
    out.append(" gens=");
    push_decimal(out, s.gens);
    out.append(" elite=");
    push_decimal(out, s.elite);
    out.append(" seed=");
    push_decimal(out, s.seed);
    out.append("\n        65 params (tiny MLP 6→8→1), fitness = Sharpe (penalized < 30 trades)\n");
    push_repeated(out, '─', 64);
    out.append("\n");
    push_padded_right(out, "gen", 5);
    out.append(" ");
    push_padded_left(out, "best fit", ' ', 10);
    out.append(" ");
    push_padded_left(out, "elite μ", ' ', 10);
    out.append(" ");
    push_padded_left(out, "IS n", ' ', 8);
    out.append("\n");
    push_repeated(out, '─', 64);
    out.append("\n");
}

/// One row of a policy search's table.
pub open spec fn search_row(
    a: Seq<char>,
    generation: u64,
    best: Seq<char>,
    mean: Seq<char>,
    trips: u64,
) -> Seq<char> {
    let a = a + padded_right(decimal(generation as nat), 5) + " "@ + padded_left(best, ' ', 10)
        + " "@ + padded_left(mean, ' ', 10) + " "@ + padded_left(decimal(trips as nat), ' ', 8)
        + "\n"@;
    a
}

/// One row of a policy search's table.
pub fn push_search_row(out: &mut String, generation: u64, best: &str, mean: &str, trips: u64)
    ensures
        final(out)@ == search_row(old(out)@, generation, best@, mean@, trips),
{
    push_left(out, generation, 5);
    out.append(" ");
    push_padded_left(out, best, ' ', 10);
    out.append(" ");
    push_padded_left(out, mean, ' ', 10);
    out.append(" ");
    push_right(out, trips, 8);
    out.append("\n");
}

/// The result of a policy on one part of a capture, of `n` round trips.
pub open spec fn result_line_text(a: Seq<char>, n: u64, k: EvalTexts) -> Seq<char> {
    let a = if n > 0 {
        let a = a + "n="@ + padded_right(decimal(n as nat), 4) + " hit="@
            + padded_left(k.hit_rate@, ' ', 5) + "%  ret="@ + padded_left(k.return_pct@, ' ', 7)
            + "%  sharpe="@ + padded_left(k.sharpe@, ' ', 6) + "  PF="@
            + padded_left(k.profit_factor@, ' ', 5);
        a
    } else {
        let a = a + "no trades"@;
        a
    };
    a
}

fn result_line(out: &mut String, n: u64, k: &EvalTexts)
    ensures
        final(out)@ == result_line_text(old(out)@, n, *k),
{
    if n > 0 {
        out.append("n=");
        push_left(out, n, 4);
        out.append(" hit=");
        push_padded_left(out, k.hit_rate.as_str(), ' ', 5);
        out.append("%  ret=");
        push_padded_left(out, k.return_pct.as_str(), ' ', 7);
        out.append("%  sharpe=");
        push_padded_left(out, k.sharpe.as_str(), ' ', 6);
        out.append("  PF=");
        push_padded_left(out, k.profit_factor.as_str(), ' ', 5);
    } else {
        out.append("no trades");
    }
}

/// The end of a policy search's table.
pub open spec fn search_foot(
    a: Seq<char>,
    n_in: u64,
    k_in: EvalTexts,
    n_out: u64,
    k_out: EvalTexts,
) -> Seq<char> {
    let a = a + repeated('─', 64) + "\n"@ + "  in-sample : "@;
    let a = result_line_text(a, n_in, k_in);
    let a = a + "\n  out-sample: "@;
    let a = result_line_text(a, n_out, k_out);
    let a = a + "\n"@;
    let a = if is_overfit(return_or_zero(n_in, k_in), return_or_zero(n_out, k_out)) {
        let a = a + "  ⚠ overfit: in-sample positive, out-of-sample negative\n"@;
        a
    } else {
        a
    };
    a
}

/// The end of a policy search's table.
pub fn push_search_foot(
    out: &mut String,
    n_in: u64,
    k_in: &EvalTexts,
    n_out: u64,
    k_out: &EvalTexts,
)
    ensures
        final(out)@ == search_foot(old(out)@, n_in, *k_in, n_out, *k_out),
{
    push_repeated(out, '─', 64);
    out.append("\n");
    out.append("  in-sample : ");
    result_line(out, n_in, k_in);
    out.append("\n  out-sample: ");
    result_line(out, n_out, k_out);
    out.append("\n");
    if overfit(return_of(n_in, k_in), return_of(n_out, k_out)) {
        out.append("  ⚠ overfit: in-sample positive, out-of-sample negative\n");
    }
}

/// The end of a policy search warns of overfitting exactly if the policy gained in sample and
/// lost out of sample; a part without round trips neither gains nor loses.
pub proof fn law_overfitting_is_reported(
    a: Seq<char>,
    n_in: u64,
    k_in: EvalTexts,
    n_out: u64,
    k_out: EvalTexts,
)
    ensures
        ({
            let warned = n_in > 0 && n_out > 0 && crate::ieee::lt64(0, k_in.return_bits)
                && crate::ieee::lt64(k_out.return_bits, 0);
            let warning = "  ⚠ overfit: in-sample positive, out-of-sample negative\n"@;
            let lines = result_line_text(
                result_line_text(a + repeated('─', 64) + "\n"@ + "  in-sample : "@, n_in, k_in)
                    + "\n  out-sample: "@,
                n_out,
                k_out,
            ) + "\n"@;
            search_foot(a, n_in, k_in, n_out, k_out) == if warned {
                lines + warning
            } else {
                lines
            }
        }),
{
}

/// A part without round trips has no figures, whatever was computed for it.
pub proof fn law_parts_without_trips(a: Seq<char>, tag: Seq<char>, k: EvalTexts, j: EvalTexts)
    ensures
        eval_line(a, tag, 0, k) == eval_line(a, tag, 0, j),
        result_line_text(a, 0, k) == result_line_text(a, 0, j),
        return_or_zero(0, k) == 0,
{
}

} // verus!

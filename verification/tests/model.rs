use rust_hft_software::account::{Account, Closing, Decision, Opening, ReversionTick, TrendTick};
use rust_hft_software::model::{
    capped_pnl, taker_base, ExitPlan, Policy, Position, ReversionEntry, ReversionExit, Settlement,
    TrendEntry, TrendExit,
};

fn bits(x: f32) -> u32 {
    x.to_bits()
}

fn taker_fill(mid: f32, bid: f32, ask: f32, is_buy: bool, slippage_bps: f32) -> f32 {
    let base = f32::from_bits(taker_base(bits(mid), bits(bid), bits(ask), is_buy));
    let slip = slippage_bps / 10_000.0;
    if is_buy {
        base * (1.0 + slip)
    } else {
        base * (1.0 - slip)
    }
}

fn trend_entry(signal: f32, price: f32) -> TrendEntry {
    TrendEntry {
        allow_short: true,
        fee_gate: false,
        signal: bits(signal),
        threshold: bits(5.0),
        price: bits(price),
        long_limit: bits(99.0),
        short_limit: bits(101.0),
        expected: bits(10.0),
        required: bits(7.2),
    }
}

fn trend_exit(price: f32, signal: f32, trail: f32, favourable: f32) -> TrendExit {
    TrendExit {
        price: bits(price),
        signal: bits(signal),
        trail: bits(trail),
        signal_exit: bits(0.0),
        favourable: bits(favourable),
        take_profit: bits(10.0),
        stop_loss: bits(10.0),
        liquidation: bits(10_000.0),
    }
}

fn settlement(raw: f64, margin: f64, equity: f64) -> Settlement {
    Settlement {
        now_ns: 500,
        liquidated: false,
        exit_price: bits(101.0),
        spread_cost_bps: bits(1.0),
        gross_bps: bits(100.0),
        net_bps: bits(94.8),
        pnl_quote: bits(9.48),
        fees_quote: bits(0.52),
        raw_pnl: raw.to_bits(),
        neg_margin: (-margin).to_bits(),
        equity: equity.to_bits(),
    }
}

fn long() -> Position {
    let mut p = Position::new();
    p.open(1, 100, bits(100.0), bits(99.9), bits(2.0));
    p
}

#[test]
fn taker_fill_crosses_spread() {
    assert_eq!(taker_fill(100.0, 99.95, 100.05, true, 0.0), 100.05);
    assert_eq!(taker_fill(100.0, 99.95, 100.05, false, 0.0), 99.95);
    assert_eq!(taker_fill(100.0, 0.0, 0.0, true, 0.0), 100.0);
    assert_eq!(taker_fill(100.0, 0.0, 0.0, false, 0.0), 100.0);
    assert_eq!(taker_fill(100.0, 101.0, 99.0, true, 0.0), 100.0);
    assert!((taker_fill(100.0, 0.0, 0.0, true, 10.0) - 100.1).abs() < 1e-3);
    assert!((taker_fill(100.0, 0.0, 0.0, false, 10.0) - 99.9).abs() < 1e-3);
    assert!((taker_fill(100.0, 99.95, 100.05, true, 10.0) - 100.15005).abs() < 1e-2);
}

#[test]
fn trend_model_trades_with_the_signal() {
    let p = Position::new();
    assert_eq!(p.trend_entry(true, false, &trend_entry(6.0, 99.0)), 1);
    assert_eq!(p.trend_entry(true, false, &trend_entry(5.0, 99.0)), 0);
    assert_eq!(p.trend_entry(true, false, &trend_entry(6.0, 99.5)), 0);
    assert_eq!(p.trend_entry(true, false, &trend_entry(-6.0, 101.0)), -1);
    assert_eq!(p.trend_entry(true, false, &trend_entry(-5.0, 101.0)), 0);
    assert_eq!(p.trend_entry(false, false, &trend_entry(6.0, 99.0)), 0);
    assert_eq!(p.trend_entry(true, true, &trend_entry(6.0, 99.0)), 0);
    let mut no_short = trend_entry(-6.0, 101.0);
    no_short.allow_short = false;
    assert_eq!(p.trend_entry(true, false, &no_short), 0);
    assert_eq!(p.trend_entry(true, false, &trend_entry(f32::NAN, 99.0)), 0);
    assert_eq!(long().trend_entry(true, false, &trend_entry(6.0, 99.0)), 0);
}

#[test]
fn costs_can_forbid_an_entry() {
    let p = Position::new();
    let mut q = trend_entry(6.0, 99.0);
    q.fee_gate = true;
    assert_eq!(p.trend_entry(true, false, &q), 1);
    q.expected = bits(7.0);
    assert_eq!(p.trend_entry(true, false, &q), 0);
    q.expected = bits(7.2);
    assert_eq!(p.trend_entry(true, false, &q), 1);
}

#[test]
fn trend_model_leaves_a_position() {
    let p = long();
    let close = ExitPlan::Close { liquidated: false };
    assert_eq!(p.trend_exit(true, &trend_exit(100.0, 1.0, 99.0, 0.0)), ExitPlan::Hold);
    assert_eq!(p.trend_exit(true, &trend_exit(99.0, 1.0, 99.0, 0.0)), close);
    assert_eq!(p.trend_exit(true, &trend_exit(100.0, -0.1, 99.0, 0.0)), close);
    assert_eq!(p.trend_exit(true, &trend_exit(100.0, 1.0, 99.0, 10.0)), close);
    assert_eq!(p.trend_exit(true, &trend_exit(100.0, 1.0, 99.0, -10.0)), close);
    assert_eq!(p.trend_exit(false, &trend_exit(99.0, 1.0, 99.0, 0.0)), ExitPlan::Hold);
    let mut q = trend_exit(100.0, 1.0, 99.0, -200.0);
    q.take_profit = bits(0.0);
    q.stop_loss = bits(0.0);
    assert_eq!(p.trend_exit(true, &q), ExitPlan::Hold);
    q.liquidation = bits(200.0);
    assert_eq!(p.trend_exit(true, &q), ExitPlan::Close { liquidated: true });
    assert_eq!(Position::new().trend_exit(true, &q), ExitPlan::Hold);
    let mut short = Position::new();
    short.open(-1, 0, bits(100.0), bits(100.0), bits(1.0));
    assert_eq!(short.trend_exit(true, &trend_exit(101.0, -1.0, 101.0, 0.0)), close);
    assert_eq!(short.trend_exit(true, &trend_exit(100.0, 0.1, 101.0, 0.0)), close);
    assert_eq!(short.trend_exit(true, &trend_exit(100.0, -1.0, 101.0, 0.0)), ExitPlan::Hold);
}

#[test]
fn best_price_ratchets() {
    let mut p = long();
    assert_eq!(f32::from_bits(p.best_price), 99.9);
    p.mark(bits(102.0));
    p.mark(bits(101.0));
    assert_eq!(f32::from_bits(p.best_price), 102.0);
    let mut s = Position::new();
    s.open(-1, 0, bits(100.0), bits(100.0), bits(1.0));
    s.mark(bits(98.0));
    s.mark(bits(99.0));
    s.mark(bits(f32::NAN));
    assert_eq!(f32::from_bits(s.best_price), 98.0);
}

#[test]
fn reversion_model_buys_dips_and_sells_rips() {
    let q = |price: f32, flow: f32, use_flow: bool| ReversionEntry {
        allow_short: true,
        use_flow,
        price: bits(price),
        long_limit: bits(99.0),
        short_limit: bits(101.0),
        flow: bits(flow),
    };
    let p = Position::new();
    assert_eq!(p.reversion_entry(11, false, &q(99.0, -1.0, false)), 1);
    assert_eq!(p.reversion_entry(11, false, &q(99.0, -1.0, true)), 0);
    assert_eq!(p.reversion_entry(11, false, &q(99.0, 0.0, true)), 1);
    assert_eq!(p.reversion_entry(11, false, &q(101.0, 1.0, true)), 0);
    assert_eq!(p.reversion_entry(11, false, &q(101.0, 0.0, true)), -1);
    assert_eq!(p.reversion_entry(10, false, &q(99.0, 0.0, false)), 0);
    assert_eq!(p.reversion_entry(11, true, &q(99.0, 0.0, false)), 0);
    assert_eq!(p.reversion_entry(11, false, &q(100.0, 0.0, false)), 0);
}

#[test]
fn reversion_model_leaves_a_position() {
    let q = |price: f32, favourable: f32| ReversionExit {
        price: bits(price),
        long_limit: bits(99.0),
        short_limit: bits(101.0),
        favourable: bits(favourable),
        take_profit: bits(10.0),
        stop_loss: bits(20.0),
        liquidation: bits(30.0),
    };
    let p = long();
    let close = ExitPlan::Close { liquidated: false };
    assert_eq!(p.reversion_exit(11, &q(100.0, 0.0)), ExitPlan::Hold);
    assert_eq!(p.reversion_exit(11, &q(100.0, 10.0)), close);
    assert_eq!(p.reversion_exit(11, &q(100.0, -20.0)), close);
    assert_eq!(p.reversion_exit(11, &q(101.0, 0.0)), close);
    assert_eq!(p.reversion_exit(11, &q(99.0, 0.0)), ExitPlan::Hold);
    assert_eq!(p.reversion_exit(11, &q(100.0, -30.0)), ExitPlan::Close { liquidated: true });
    assert_eq!(p.reversion_exit(10, &q(100.0, 10.0)), ExitPlan::Hold);
}

#[test]
fn closing_settles_the_account() {
    let mut p = long();
    let (rt, equity) = p.close(&settlement(9.48, 1000.0, 10_009.48));
    assert_eq!(f64::from_bits(equity), 10_009.48);
    assert_eq!((rt.entry_time_ns, rt.exit_time_ns, rt.side), (100, 500, 1));
    assert_eq!(f32::from_bits(rt.entry_price), 100.0);
    assert_eq!(f32::from_bits(rt.size), 2.0);
    assert_eq!(f32::from_bits(rt.spread_cost_bps), 1.0);
    assert_eq!(f32::from_bits(rt.flags), 0.0);
    assert_eq!((p.side, p.ruined), (0, false));
}

#[test]
fn losses_stop_at_the_margin() {
    let cap = |raw: f64, margin: f64| f64::from_bits(capped_pnl(raw.to_bits(), (-margin).to_bits()));
    assert_eq!(cap(-1500.0, 1000.0), -1000.0);
    assert_eq!(cap(-500.0, 1000.0), -500.0);
    assert_eq!(cap(20.0, 1000.0), 20.0);
    assert_eq!(cap(f64::NAN, 1000.0), -1000.0);
}

#[test]
fn ruin_is_final() {
    let mut p = long();
    let (rt, equity) = p.close(&settlement(-1500.0, 1000.0, -0.5));
    assert_eq!(f64::from_bits(equity), 0.0);
    assert_eq!(f32::from_bits(rt.flags), 1.0);
    assert!(p.ruined);
    assert_eq!(p.trend_entry(true, false, &trend_entry(6.0, 99.0)), 0);
    p.side = 1;
    assert_eq!(p.trend_exit(true, &trend_exit(99.0, 1.0, 99.0, 0.0)), ExitPlan::Hold);
}

#[test]
fn policy_survives_storage() {
    let mut p = [0u32; 65];
    for i in 0..65 {
        p[i] = bits(i as f32 * 0.25 - 3.0);
    }
    let mut b = Policy { p }.to_le_bytes();
    assert_eq!(b.len(), 260);
    assert_eq!(&b[4..8], &(-2.75f32).to_le_bytes());
    b.extend_from_slice(b"tail");
    assert_eq!(Policy::from_le_bytes(&b).unwrap().p, p);
    assert!(Policy::from_le_bytes(&b[..259]).is_none());
}

fn opening(margin: f64) -> Opening {
    Opening { entry_price: bits(100.0), size: bits(2.0), margin: margin.to_bits() }
}

fn closing(raw: f64, sum: f64) -> Closing {
    Closing {
        exit_price: bits(101.0),
        spread_cost_bps: bits(1.0),
        gross_bps: bits(100.0),
        net_bps: bits(94.8),
        pnl_quote: bits(9.48),
        fees_quote: bits(0.52),
        raw_pnl: raw.to_bits(),
        sum: sum.to_bits(),
    }
}

fn trend_tick(signal: f32, price: f32, c: Closing) -> TrendTick {
    TrendTick {
        now_ns: 700,
        price: bits(price),
        warmed: true,
        halted: false,
        entry: trend_entry(signal, price),
        exit: trend_exit(price, signal, 90.0, 0.0),
        long: opening(400.0),
        short: opening(300.0),
        closing: c,
    }
}

#[test]
fn accounts_follow_the_trend_model() {
    let mut a = Account::new(1000.0f64.to_bits());
    assert_eq!(a.on_trend_tick(&trend_tick(1.0, 99.0, closing(0.0, 0.0))), Decision::Wait);
    let enter = a.on_trend_tick(&trend_tick(6.0, 98.0, closing(0.0, 0.0)));
    assert_eq!(enter, Decision::Enter { side: 1 });
    assert_eq!(f64::from_bits(a.margin), 400.0);
    assert_eq!((a.position.side, a.position.best_price), (1, bits(98.0)));
    assert_eq!(a.on_trend_tick(&trend_tick(6.0, 99.5, closing(0.0, 0.0))), Decision::Wait);
    assert_eq!(f32::from_bits(a.position.best_price), 99.5);
    assert_eq!(f64::from_bits(a.pnl((-900.0f64).to_bits())), -400.0);
    match a.on_trend_tick(&trend_tick(-1.0, 99.0, closing(-900.0, 600.0))) {
        Decision::Exit { trip } => {
            assert_eq!((trip.side, trip.exit_time_ns), (1, 700));
            assert_eq!(f32::from_bits(trip.flags), 1.0);
        }
        _ => panic!("not closed"),
    }
    assert_eq!((f64::from_bits(a.equity), a.position.ruined), (600.0, false));
    let short = a.on_trend_tick(&trend_tick(-6.0, 102.0, closing(0.0, 0.0)));
    assert_eq!(short, Decision::Enter { side: -1 });
    assert_eq!(f64::from_bits(a.margin), 300.0);
}

#[test]
fn ruined_accounts_rest() {
    let mut a = Account::new(400.0f64.to_bits());
    a.on_trend_tick(&trend_tick(6.0, 98.0, closing(0.0, 0.0)));
    a.on_trend_tick(&trend_tick(-6.0, 98.0, closing(-900.0, 0.0)));
    assert_eq!((f64::from_bits(a.equity), a.position.ruined), (0.0, true));
    let before = a;
    for signal in [6.0, -6.0] {
        assert_eq!(a.on_trend_tick(&trend_tick(signal, 98.0, closing(5.0, 5.0))), Decision::Wait);
    }
    assert_eq!(a, before);
}

#[test]
fn accounts_follow_the_reversion_model() {
    let tick = |price: f32, favourable: f32, sum: f64| ReversionTick {
        now_ns: 9,
        price: bits(price),
        seq: 11,
        halted: false,
        entry: ReversionEntry {
            allow_short: true,
            use_flow: false,
            price: bits(price),
            long_limit: bits(99.0),
            short_limit: bits(101.0),
            flow: bits(0.0),
        },
        exit: ReversionExit {
            price: bits(price),
            long_limit: bits(99.0),
            short_limit: bits(101.0),
            favourable: bits(favourable),
            take_profit: bits(10.0),
            stop_loss: bits(20.0),
            liquidation: bits(30.0),
        },
        long: opening(50.0),
        short: opening(60.0),
        closing: closing(-55.0, sum),
    };
    let mut a = Account::new(100.0f64.to_bits());
    assert_eq!(a.on_reversion_tick(&tick(100.0, 0.0, 1.0)), Decision::Wait);
    assert_eq!(a.on_reversion_tick(&tick(98.0, 0.0, 1.0)), Decision::Enter { side: 1 });
    assert_eq!(a.on_reversion_tick(&tick(100.0, 0.0, 1.0)), Decision::Wait);
    assert!(matches!(a.on_reversion_tick(&tick(100.0, -20.0, 50.0)), Decision::Exit { .. }));
    assert_eq!(f64::from_bits(a.equity), 50.0);
    assert_eq!(a.on_reversion_tick(&tick(102.0, 0.0, 1.0)), Decision::Enter { side: -1 });
    assert_eq!(f64::from_bits(a.margin), 60.0);
}

use solana_nova_sniper::binary64::Binary64;
use solana_nova_sniper::config::{StrategyConfig, TakeProfitRung};
use solana_nova_sniper::strategy::{PositionState, SellReason, StrategyAction};

fn b(x: f64) -> Binary64 {
    Binary64::from_bits(x.to_bits())
}

fn f(x: Binary64) -> f64 {
    f64::from_bits(x.bits)
}

fn rung(multiplier: f64, sell_pct: f64) -> TakeProfitRung {
    TakeProfitRung { multiplier: b(multiplier), sell_pct: b(sell_pct) }
}

fn cfg() -> StrategyConfig {
    StrategyConfig {
        take_profit_ladder: vec![rung(2.0, 30.0), rung(5.0, 30.0), rung(10.0, 40.0)],
        stop_loss_multiplier: b(0.5),
        trailing_stop_drawdown: b(0.35),
        trailing_stop_activation: b(2.0),
        max_hold_seconds: 3600,
        price_poll_interval_ms: 500,
    }
}

fn open() -> PositionState {
    PositionState::open(b(1.0), 0, cfg())
}

#[test]
fn hold_when_price_flat() {
    let mut pos = open();
    assert_eq!(pos.on_tick(b(1.0), 1), StrategyAction::Hold);
}

#[test]
fn stop_loss_fires_and_closes() {
    let mut pos = open();
    let action = pos.on_tick(b(0.5), 10);
    assert!(matches!(action, StrategyAction::Sell { reason: SellReason::StopLoss, .. }));
    assert!(pos.is_closed());
    assert_eq!(pos.on_tick(b(0.5), 11), StrategyAction::Closed);
}

#[test]
fn take_profit_rungs_fire_in_order() {
    let mut pos = open();
    match pos.on_tick(b(2.1), 1) {
        StrategyAction::Sell { fraction, reason: SellReason::TakeProfit } => {
            assert!((f(fraction) - 0.3).abs() < 1e-9);
        }
        other => panic!("expected TP sell, got {other:?}"),
    }
    assert!((f(pos.remaining()) - 0.7).abs() < 1e-9);

    assert_eq!(pos.on_tick(b(3.0), 2), StrategyAction::Hold);

    match pos.on_tick(b(5.5), 3) {
        StrategyAction::Sell { reason: SellReason::TakeProfit, .. } => {}
        other => panic!("expected TP sell, got {other:?}"),
    }
    assert!((f(pos.remaining()) - 0.4).abs() < 1e-9);

    match pos.on_tick(b(10.1), 4) {
        StrategyAction::Sell { reason: SellReason::TakeProfit, .. } => {}
        other => panic!("expected TP sell, got {other:?}"),
    }
    assert!(pos.is_closed());
}

#[test]
fn trailing_stop_arms_after_activation() {
    let mut pos = open();
    let _ = pos.on_tick(b(2.1), 1);
    match pos.on_tick(b(1.3), 2) {
        StrategyAction::Sell { fraction, reason: SellReason::TrailingStop } => {
            assert!((f(fraction) - 0.7).abs() < 1e-6);
        }
        other => panic!("expected trailing stop, got {other:?}"),
    }
    assert!(pos.is_closed());
}

#[test]
fn trailing_stop_doesnt_arm_before_activation() {
    let mut pos = open();
    let _ = pos.on_tick(b(1.8), 1);
    assert_eq!(pos.on_tick(b(1.05), 2), StrategyAction::Hold);
}

#[test]
fn max_hold_forces_exit() {
    let mut pos = open();
    let action = pos.on_tick(b(1.1), 3600);
    assert!(matches!(action, StrategyAction::Sell { reason: SellReason::MaxHold, .. }));
    assert!(pos.is_closed());
}

#[test]
fn stop_loss_priority_over_take_profit() {
    let mut pos = open();
    let action = pos.on_tick(b(0.4), 1);
    assert!(matches!(action, StrategyAction::Sell { reason: SellReason::StopLoss, .. }));
}

#[test]
fn closed_position_is_idempotent() {
    let mut pos = open();
    let _ = pos.on_tick(b(0.4), 1);
    for t in 2..10 {
        assert_eq!(pos.on_tick(b(0.1), t), StrategyAction::Closed);
    }
}

#[test]
fn same_rung_does_not_double_fire() {
    let mut pos = open();
    let _ = pos.on_tick(b(2.5), 1);
    assert_eq!(pos.on_tick(b(2.6), 2), StrategyAction::Hold);
    assert_eq!(pos.on_tick(b(4.9), 3), StrategyAction::Hold);
}

#[test]
fn one_rung_fires_per_tick() {
    let mut pos = open();
    let action = pos.on_tick(b(100.0), 1);
    assert_eq!(
        action,
        StrategyAction::Sell { fraction: b(30.0 / 100.0), reason: SellReason::TakeProfit }
    );
    assert_eq!(f(pos.remaining()), 1.0 - 0.3);
    let second = pos.on_tick(b(100.0), 2);
    let left: f64 = 1.0 - 0.3;
    assert_eq!(
        second,
        StrategyAction::Sell { fraction: b(0.3 / left), reason: SellReason::TakeProfit }
    );
    assert_eq!(f(pos.remaining()), left - 0.3);
    let third = pos.on_tick(b(100.0), 3);
    assert!(matches!(third, StrategyAction::Sell { reason: SellReason::TakeProfit, .. }));
    assert_eq!(f(pos.remaining()), 0.0);
    assert_eq!(pos.on_tick(b(100.0), 4), StrategyAction::Closed);
}

#[test]
fn selling_out_reports_the_rest() {
    let mut pos = open();
    let _ = pos.on_tick(b(2.0), 1);
    let left = pos.remaining();
    assert_eq!(
        pos.on_tick(b(0.1), 2),
        StrategyAction::Sell { fraction: left, reason: SellReason::StopLoss }
    );
    assert_eq!(f(pos.remaining()), 0.0);
}

#[test]
fn a_clock_that_goes_back_counts_as_no_time() {
    let mut pos = PositionState::open(b(1.0), 10_000, cfg());
    assert_eq!(pos.on_tick(b(1.1), 5), StrategyAction::Hold);
    assert!(matches!(
        pos.on_tick(b(1.1), 13_600),
        StrategyAction::Sell { reason: SellReason::MaxHold, .. }
    ));
}

#[test]
fn entry_price_never_changes() {
    let mut pos = PositionState::open(b(0.25), 0, cfg());
    let _ = pos.on_tick(b(0.6), 1);
    assert_eq!(f(pos.entry_price()), 0.25);
    assert!(!pos.is_closed());
}

#[test]
fn a_price_that_is_no_number_changes_nothing() {
    let mut pos = open();
    assert_eq!(pos.on_tick(b(f64::NAN), 1), StrategyAction::Hold);
    assert_eq!(f(pos.remaining()), 1.0);
}

#[test]
fn an_overfull_rung_sells_what_is_left() {
    let mut settings = cfg();
    settings.take_profit_ladder = vec![rung(2.0, 80.0), rung(3.0, 80.0)];
    let mut pos = PositionState::open(b(1.0), 0, settings);
    let _ = pos.on_tick(b(2.0), 1);
    assert_eq!(
        pos.on_tick(b(3.0), 2),
        StrategyAction::Sell { fraction: b(1.0), reason: SellReason::TakeProfit }
    );
    assert!(pos.is_closed());
}

#[test]
fn what_is_left_never_grows() {
    let mut pos = open();
    let mut left = f(pos.remaining());
    for (t, price) in [1.0, 2.5, 1.9, 6.0, 0.9, 12.0, 50.0].iter().enumerate() {
        let _ = pos.on_tick(b(*price), t as u64);
        assert!(f(pos.remaining()) <= left);
        left = f(pos.remaining());
    }
    assert!(pos.is_closed());
}

#[test]
fn exits_are_tried_in_order() {
    let mut pos = open();
    assert!(matches!(
        pos.on_tick(b(2.0), 3600),
        StrategyAction::Sell { reason: SellReason::TakeProfit, .. }
    ));
    assert!(matches!(
        pos.on_tick(b(1.3), 3600),
        StrategyAction::Sell { reason: SellReason::TrailingStop, .. }
    ));
    let mut late = open();
    assert!(matches!(
        late.on_tick(b(0.5), 3600),
        StrategyAction::Sell { reason: SellReason::StopLoss, .. }
    ));
}

#[test]
fn a_cloned_position_goes_on_alike() {
    let mut pos = open();
    let _ = pos.on_tick(b(2.1), 1);
    let mut copy = pos.clone();
    assert_eq!(f(copy.remaining()), f(pos.remaining()));
    assert_eq!(copy.on_tick(b(2.2), 2), StrategyAction::Hold);
    assert_eq!(copy.on_tick(b(1.3), 3), pos.on_tick(b(1.3), 3));
    assert!(copy.is_closed() && pos.is_closed());
}

#[test]
fn only_the_underflowing_rung_sells_nothing() {
    let mut settings = cfg();
    settings.take_profit_ladder = vec![rung(2.0, 5e-324), rung(3.0, 50.0)];
    let mut pos = PositionState::open(b(1.0), 0, settings);
    assert_eq!(
        pos.on_tick(b(2.0), 1),
        StrategyAction::Sell { fraction: b(0.0), reason: SellReason::TakeProfit }
    );
    assert_eq!(
        pos.on_tick(b(3.0), 2),
        StrategyAction::Sell { fraction: b(0.5), reason: SellReason::TakeProfit }
    );
}

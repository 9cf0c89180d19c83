use solana_nova_sniper::binary64::Binary64;
use solana_nova_sniper::config::{
    default_commitment, default_log_level, default_max_concurrent, default_poll_ms,
    default_retries, default_tip_sol, default_true, Config, ConfigError, FilterConfig, JitoConfig,
    PumpFunTarget, RaydiumTarget, RotationStrategy, RpcConfig, RuntimeConfig, SizingConfig,
    StrategyConfig, TakeProfitRung, TargetsConfig, WalletConfig,
};

fn b(x: f64) -> Binary64 {
    Binary64::from_bits(x.to_bits())
}

fn rung(multiplier: f64, sell_pct: f64) -> TakeProfitRung {
    TakeProfitRung { multiplier: b(multiplier), sell_pct: b(sell_pct) }
}

fn minimal() -> Config {
    Config {
        runtime: RuntimeConfig {
            log_level: default_log_level(),
            json_logs: default_true(),
            max_concurrent_snipes: default_max_concurrent(),
        },
        rpc: RpcConfig {
            geyser_url: "https://geyser.example.com:443".into(),
            geyser_x_token: "".into(),
            http_url: "https://rpc.example.com".into(),
            commitment: default_commitment(),
        },
        jito: JitoConfig {
            block_engine_url: "https://mainnet.block-engine.jito.wtf".into(),
            tip_sol: default_tip_sol(),
            tip_accounts: vec!["96gYZGLnJYVFmbjzopPSU6QiEV5fGqZNyN9nmNhvrZU5".into()],
            max_bundle_retries: default_retries(),
        },
        wallets: WalletConfig {
            keypair_paths: vec!["./wallets/main.json".into()],
            rotation: RotationStrategy::default(),
        },
        sizing: SizingConfig {
            buy_sol: b(0.05),
            max_slippage_bps: 1500,
            compute_unit_price: 200_000,
            compute_unit_limit: 250_000,
        },
        targets: TargetsConfig {
            pumpfun: PumpFunTarget {
                enabled: true,
                program_id: "6EF8rrecthR5Dkzon8Nwu78hRvfCKubJ14M5uBEwF6P".into(),
                create_discriminator: "181ec828051c0777".into(),
            },
            raydium_launchlab: RaydiumTarget {
                enabled: true,
                program_id: "LanMV9sAd7wArD4vJFi2qDdfnVhFxYSUg6eADduJ3uj".into(),
                initialize_discriminator: "afaf6d1f0d989bed".into(),
            },
        },
        filters: FilterConfig {
            min_initial_liquidity_sol: b(1.0),
            max_supply: 1_000_000_000,
            require_mint_authority_renounced: true,
            require_freeze_authority_null: true,
            min_lp_locked_pct: b(90.0),
            name_allow_regex: vec![],
            name_deny_regex: vec![],
            symbol_allow_regex: vec![],
            require_socials: false,
            dev_allowlist: vec![],
            dev_blocklist: vec![],
        },
        strategy: StrategyConfig {
            take_profit_ladder: vec![rung(2.0, 30.0), rung(5.0, 30.0), rung(10.0, 40.0)],
            stop_loss_multiplier: b(0.5),
            trailing_stop_drawdown: b(0.35),
            trailing_stop_activation: b(2.0),
            max_hold_seconds: 3600,
            price_poll_interval_ms: default_poll_ms(),
        },
    }
}

fn fault(cfg: &Config) -> String {
    match cfg.validate() {
        Ok(()) => "valid".to_string(),
        Err(e) => e.message(),
    }
}

#[test]
fn example_config_validates() {
    minimal().validate().expect("example config valid");
}

#[test]
fn rejects_oversubscribed_ladder() {
    let mut cfg = minimal();
    cfg.strategy.take_profit_ladder = vec![rung(2.0, 60.0), rung(5.0, 60.0)];
    assert!(cfg.validate().is_err());
    assert_eq!(fault(&cfg), "strategy.take_profit_ladder sell_pct sums to 120.00 > 100");
}

#[test]
fn rejects_zero_buy() {
    let mut cfg = minimal();
    cfg.sizing.buy_sol = b(0.0);
    assert!(cfg.validate().is_err());
    assert_eq!(fault(&cfg), "sizing.buy_sol must be positive");
}

#[test]
fn rejects_empty_wallets() {
    let mut cfg = minimal();
    cfg.wallets.keypair_paths.clear();
    assert!(cfg.validate().is_err());
    assert_eq!(fault(&cfg), "at least one wallet keypair path must be configured");
}

#[test]
fn rejects_excessive_slippage() {
    let mut cfg = minimal();
    cfg.sizing.max_slippage_bps = 10_000;
    assert_eq!(fault(&cfg), "valid");
    cfg.sizing.max_slippage_bps = 10_001;
    assert_eq!(fault(&cfg), "sizing.max_slippage_bps must be <= 10000 (100%)");
}

#[test]
fn rejects_missing_tip_accounts() {
    let mut cfg = minimal();
    cfg.jito.tip_accounts.clear();
    assert_eq!(fault(&cfg), "jito.tip_accounts must contain at least one tip account");
}

#[test]
fn rejects_stop_loss_outside_the_open_interval() {
    for bad in [0.0, -0.5, 1.0, 1.5] {
        let mut cfg = minimal();
        cfg.strategy.stop_loss_multiplier = b(bad);
        assert_eq!(fault(&cfg), "strategy.stop_loss_multiplier must be in (0, 1)");
    }
}

#[test]
fn rejects_bad_rungs() {
    let mut cfg = minimal();
    cfg.strategy.take_profit_ladder = vec![rung(1.0, 10.0)];
    assert_eq!(fault(&cfg), "take profit rung multiplier must be > 1.0");
    cfg.strategy.take_profit_ladder = vec![rung(2.0, 0.0)];
    assert_eq!(fault(&cfg), "take profit sell_pct must be in (0, 100]");
    cfg.strategy.take_profit_ladder = vec![rung(2.0, 101.0), rung(3.0, -50.0)];
    assert_eq!(fault(&cfg), "take profit sell_pct must be in (0, 100]");
}

#[test]
fn the_first_broken_rule_is_reported() {
    let mut cfg = minimal();
    cfg.wallets.keypair_paths.clear();
    cfg.sizing.buy_sol = b(-1.0);
    cfg.jito.tip_accounts.clear();
    assert!(matches!(cfg.validate(), Err(ConfigError::NoWallets)));
}

#[test]
fn a_ladder_of_exactly_everything_is_valid() {
    let mut cfg = minimal();
    cfg.strategy.take_profit_ladder = vec![rung(2.0, 100.0)];
    assert_eq!(fault(&cfg), "valid");
    cfg.strategy.take_profit_ladder = vec![rung(2.0, 100.0), rung(3.0, 0.5)];
    assert_eq!(fault(&cfg), "strategy.take_profit_ladder sell_pct sums to 100.50 > 100");
}

#[test]
fn defaults() {
    assert_eq!(default_log_level(), "info");
    assert!(default_true());
    assert_eq!(default_max_concurrent(), 4);
    assert_eq!(default_commitment(), "processed");
    assert_eq!(f64::from_bits(default_tip_sol().bits), 0.001);
    assert_eq!(default_retries(), 3);
    assert_eq!(default_poll_ms(), 500);
    assert_eq!(RotationStrategy::default(), RotationStrategy::RoundRobin);
}

#[test]
fn at_least_one_snipe_runs() {
    let mut cfg = minimal();
    cfg.runtime.max_concurrent_snipes = 0;
    assert_eq!(cfg.runtime.concurrency(), 1);
    cfg.runtime.max_concurrent_snipes = 7;
    assert_eq!(cfg.runtime.concurrency(), 7);
}

#[test]
fn a_copied_strategy_is_the_same() {
    let cfg = minimal().strategy;
    let copy = cfg.clone();
    assert_eq!(copy.take_profit_ladder, cfg.take_profit_ladder);
    assert_eq!(copy.max_hold_seconds, 3600);
    assert_eq!(copy.price_poll_interval_ms, 500);
}

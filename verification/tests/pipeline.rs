use solana_nova_sniper::binary64::Binary64;
use solana_nova_sniper::config::{FilterConfig, RotationStrategy, WalletConfig};
use solana_nova_sniper::detector::{LaunchEvent, Venue};
use solana_nova_sniper::filters::{FilterEngine, LaunchFacts};
use solana_nova_sniper::pipeline::{
    assign_wallet, decide_launch, judge_launch, screen_launch, Decision, Judgement, Screening,
};
use solana_nova_sniper::pubkey::Pubkey;
use solana_nova_sniper::wallet::WalletPool;

fn filters(require_socials: bool) -> FilterEngine {
    let cfg = FilterConfig {
        min_initial_liquidity_sol: Binary64::zero(),
        max_supply: 0,
        require_mint_authority_renounced: false,
        require_freeze_authority_null: false,
        min_lp_locked_pct: Binary64::zero(),
        name_allow_regex: vec![],
        name_deny_regex: vec!["bad".into()],
        symbol_allow_regex: vec![],
        require_socials,
        dev_allowlist: vec![],
        dev_blocklist: vec![],
    };
    match FilterEngine::new(cfg) {
        Ok(engine) => engine,
        Err(e) => panic!("{e:?}"),
    }
}

fn pool() -> WalletPool {
    let pair = solana_sdk::signature::Keypair::new();
    let files = vec![Some(serde_json::to_string(&pair.to_bytes().to_vec()).unwrap())];
    let cfg = WalletConfig {
        keypair_paths: vec!["w".into()],
        rotation: RotationStrategy::FirstAvailable,
    };
    match WalletPool::load(&cfg, &files) {
        Ok(pool) => pool,
        Err(e) => panic!("{}", e.message()),
    }
}

fn launch(name: &str) -> LaunchEvent {
    LaunchEvent {
        venue: Venue::PumpFun,
        signature: "s".into(),
        slot: 1,
        mint: Pubkey { bytes: [1; 32] },
        creator: Pubkey { bytes: [2; 32] },
        pool: None,
        name: Some(name.into()),
        symbol: None,
        uri: None,
        observed_at_ms: 0,
    }
}

#[test]
fn screening_comes_first() {
    let f = filters(false);
    assert_eq!(screen_launch(&f, &launch("good")), Screening::FetchFacts);
    assert_eq!(
        screen_launch(&f, &launch("bad")),
        Screening::Skip { reason: "name matches deny regex: bad".into() }
    );
}

#[test]
fn accepted_launches_take_a_wallet() {
    let f = filters(false);
    let mut wallets = pool();
    let first = decide_launch(&f, &launch("good"), None, &mut wallets);
    assert!(matches!(&first, Decision::Buy { wallet } if wallet.index() == 0));
    assert!(matches!(
        decide_launch(&f, &launch("good"), None, &mut wallets),
        Decision::NoWallet
    ));
    if let Decision::Buy { wallet } = first {
        wallets.release(wallet);
    }
    assert!(matches!(
        decide_launch(&f, &launch("good"), None, &mut wallets),
        Decision::Buy { .. }
    ));
}

#[test]
fn rejected_launches_take_no_wallet() {
    let f = filters(true);
    let mut wallets = pool();
    match decide_launch(&f, &launch("good"), None, &mut wallets) {
        Decision::Skip { reason } => assert_eq!(reason, "missing required social links"),
        _ => panic!("expected a skip"),
    }
    match decide_launch(&f, &launch("bad"), None, &mut wallets) {
        Decision::Skip { reason } => assert_eq!(reason, "name matches deny regex: bad"),
        _ => panic!("expected a skip"),
    }
    let mut facts = LaunchFacts::default();
    facts.has_socials = true;
    assert!(matches!(
        decide_launch(&f, &launch("good"), Some(facts), &mut wallets),
        Decision::Buy { .. }
    ));
}

#[test]
fn judging_comes_before_the_wallet() {
    let f = filters(true);
    let missing = Judgement::Skip { reason: "missing required social links".into() };
    assert_eq!(judge_launch(&f, &launch("good"), None), missing);
    let mut facts = LaunchFacts::default();
    facts.has_socials = true;
    assert_eq!(judge_launch(&f, &launch("good"), Some(facts)), Judgement::Pass);
    let mut wallets = pool();
    match assign_wallet(missing, &mut wallets) {
        Decision::Skip { reason } => assert_eq!(reason, "missing required social links"),
        _ => panic!("expected a skip"),
    }
    assert!(matches!(assign_wallet(Judgement::Pass, &mut wallets), Decision::Buy { .. }));
    assert!(matches!(assign_wallet(Judgement::Pass, &mut wallets), Decision::NoWallet));
}

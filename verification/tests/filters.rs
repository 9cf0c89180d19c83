use solana_nova_sniper::binary64::Binary64;
use solana_nova_sniper::config::FilterConfig;
use solana_nova_sniper::detector::{LaunchEvent, Venue};
use solana_nova_sniper::filters::{
    reject, FilterEngine, FilterError, FilterVerdict, LaunchFacts, ListName, Pattern, PatternError,
};
use solana_nova_sniper::pubkey::{Pubkey, PubkeyParseError};

fn b(x: f64) -> Binary64 {
    Binary64::from_bits(x.to_bits())
}

fn unique() -> Pubkey {
    Pubkey { bytes: solana_sdk::pubkey::Pubkey::new_unique().to_bytes() }
}

fn base_cfg() -> FilterConfig {
    FilterConfig {
        min_initial_liquidity_sol: b(1.0),
        max_supply: 1_000_000_000,
        require_mint_authority_renounced: true,
        require_freeze_authority_null: true,
        min_lp_locked_pct: b(90.0),
        name_allow_regex: vec![],
        name_deny_regex: vec!["(?i)scam".into()],
        symbol_allow_regex: vec![],
        require_socials: false,
        dev_allowlist: vec![],
        dev_blocklist: vec![],
    }
}

fn event(name: &str, creator: Pubkey) -> LaunchEvent {
    LaunchEvent {
        venue: Venue::PumpFun,
        signature: "sig".into(),
        slot: 1,
        mint: unique(),
        creator,
        pool: None,
        name: Some(name.into()),
        symbol: Some("TKN".into()),
        uri: None,
        observed_at_ms: 0,
    }
}

fn good_facts() -> LaunchFacts {
    LaunchFacts {
        initial_liquidity_sol: b(5.0),
        total_supply: 100_000,
        mint_authority_renounced: true,
        freeze_authority_null: true,
        lp_locked_pct: b(100.0),
        has_socials: true,
    }
}

fn engine(cfg: FilterConfig) -> FilterEngine {
    match FilterEngine::new(cfg) {
        Ok(engine) => engine,
        Err(e) => panic!("{e:?}"),
    }
}

fn reason(verdict: FilterVerdict) -> String {
    match verdict {
        FilterVerdict::Accept => "accepted".to_string(),
        FilterVerdict::Reject { reason } => reason,
    }
}

#[test]
fn accepts_clean_launch() {
    let eng = engine(base_cfg());
    let ev = event("Doge", unique());
    assert_eq!(eng.evaluate(&ev, &good_facts()), FilterVerdict::Accept);
}

#[test]
fn deny_regex_rejects() {
    let eng = engine(base_cfg());
    let ev = event("Big SCAM Coin", unique());
    assert!(matches!(eng.prefilter(&ev), FilterVerdict::Reject { .. }));
    assert_eq!(reason(eng.prefilter(&ev)), "name matches deny regex: (?i)scam");
}

#[test]
fn low_liquidity_rejects() {
    let eng = engine(base_cfg());
    let ev = event("Doge", unique());
    let mut f = good_facts();
    f.initial_liquidity_sol = b(0.1);
    assert!(matches!(eng.evaluate(&ev, &f), FilterVerdict::Reject { .. }));
    assert_eq!(reason(eng.evaluate(&ev, &f)), "liquidity 0.100 SOL below min 1.000");
}

#[test]
fn mint_authority_not_renounced_rejects() {
    let eng = engine(base_cfg());
    let ev = event("Doge", unique());
    let mut f = good_facts();
    f.mint_authority_renounced = false;
    match eng.evaluate(&ev, &f) {
        FilterVerdict::Reject { reason } => assert!(reason.contains("mint authority")),
        _ => panic!("expected reject"),
    }
}

#[test]
fn freeze_authority_rejects() {
    let eng = engine(base_cfg());
    let ev = event("Doge", unique());
    let mut f = good_facts();
    f.freeze_authority_null = false;
    match eng.evaluate(&ev, &f) {
        FilterVerdict::Reject { reason } => assert!(reason.contains("freeze")),
        _ => panic!("expected reject"),
    }
}

#[test]
fn lp_locked_threshold_rejects() {
    let eng = engine(base_cfg());
    let ev = event("Doge", unique());
    let mut f = good_facts();
    f.lp_locked_pct = b(50.0);
    assert!(matches!(eng.evaluate(&ev, &f), FilterVerdict::Reject { .. }));
    assert_eq!(reason(eng.evaluate(&ev, &f)), "LP locked 50.00% below min 90.00%");
}

#[test]
fn blocklist_rejects() {
    let dev = unique();
    let mut cfg = base_cfg();
    cfg.dev_blocklist = vec![dev.text()];
    let eng = engine(cfg);
    let ev = event("Doge", dev);
    assert!(matches!(eng.prefilter(&ev), FilterVerdict::Reject { .. }));
    assert_eq!(reason(eng.prefilter(&ev)), "creator in dev blocklist");
}

#[test]
fn allowlist_restricts() {
    let allowed = unique();
    let stranger = unique();
    let mut cfg = base_cfg();
    cfg.dev_allowlist = vec![allowed.text()];
    let eng = engine(cfg);
    assert_eq!(eng.prefilter(&event("Doge", allowed)), FilterVerdict::Accept);
    assert!(matches!(eng.prefilter(&event("Doge", stranger)), FilterVerdict::Reject { .. }));
    assert_eq!(reason(eng.prefilter(&event("Doge", stranger))), "creator not in dev allowlist");
}

#[test]
fn disabled_thresholds_are_no_ops() {
    let mut cfg = base_cfg();
    cfg.min_initial_liquidity_sol = b(0.0);
    cfg.max_supply = 0;
    cfg.min_lp_locked_pct = b(0.0);
    cfg.require_mint_authority_renounced = false;
    cfg.require_freeze_authority_null = false;
    let eng = engine(cfg);
    let ev = event("Doge", unique());
    let facts = LaunchFacts::default();
    assert_eq!(eng.evaluate(&ev, &facts), FilterVerdict::Accept);
}

#[test]
fn supply_and_socials() {
    let mut cfg = base_cfg();
    cfg.require_socials = true;
    let eng = engine(cfg);
    let ev = event("Doge", unique());
    let mut f = good_facts();
    f.total_supply = 1_000_000_001;
    assert_eq!(
        reason(eng.evaluate(&ev, &f)),
        "supply 1000000001 exceeds max 1000000000"
    );
    let mut f = good_facts();
    f.has_socials = false;
    assert_eq!(reason(eng.evaluate(&ev, &f)), "missing required social links");
    assert!(eng.evaluate(&ev, &good_facts()).is_accept());
}

#[test]
fn allowed_patterns() {
    let mut cfg = base_cfg();
    cfg.name_allow_regex = vec!["^Doge".into(), "Cat$".into()];
    cfg.symbol_allow_regex = vec!["^T".into()];
    let eng = engine(cfg);
    assert_eq!(reason(eng.prefilter(&event("DogeMoon", unique()))), "accepted");
    assert_eq!(reason(eng.prefilter(&event("FatCat", unique()))), "accepted");
    assert_eq!(
        reason(eng.prefilter(&event("Moon", unique()))),
        "name did not match any allow regex"
    );
    let mut ev = event("DogeMoon", unique());
    ev.symbol = Some("XYZ".into());
    assert_eq!(reason(eng.prefilter(&ev)), "symbol did not match any allow regex");
    ev.symbol = None;
    ev.name = None;
    assert_eq!(reason(eng.prefilter(&ev)), "accepted");
}

#[test]
fn a_denied_name_is_rejected_even_if_allowed() {
    let mut cfg = base_cfg();
    cfg.name_allow_regex = vec![".*".into()];
    cfg.name_deny_regex = vec!["rug".into(), "(?i)scam".into()];
    let eng = engine(cfg);
    assert_eq!(
        reason(eng.prefilter(&event("rug Scam", unique()))),
        "name matches deny regex: rug"
    );
    assert_eq!(
        reason(eng.evaluate(&event("Scam", unique()), &good_facts())),
        "name matches deny regex: (?i)scam"
    );
}

#[test]
fn the_pre_check_decides_before_the_facts() {
    let dev = unique();
    let mut cfg = base_cfg();
    cfg.dev_blocklist = vec![dev.text()];
    let eng = engine(cfg);
    let bad = LaunchFacts::default();
    assert_eq!(reason(eng.evaluate(&event("Doge", dev), &bad)), "creator in dev blocklist");
}

#[test]
fn malformed_filter_settings() {
    let mut cfg = base_cfg();
    cfg.name_deny_regex = vec!["ok".into(), "(".into()];
    match FilterEngine::new(cfg) {
        Err(FilterError::Pattern { list, index, cause }) => {
            assert_eq!(list, ListName::NameDeny);
            assert_eq!(index, 1);
            assert!(matches!(cause, PatternError::Syntax(_)));
        }
        _ => panic!("expected a pattern error"),
    }
    let mut cfg = base_cfg();
    cfg.symbol_allow_regex = vec![r"\w{9999}{99}".into()];
    match FilterEngine::new(cfg) {
        Err(FilterError::Pattern { list: ListName::SymbolAllow, index: 0, cause }) => {
            assert!(matches!(cause, PatternError::TooBig(_) | PatternError::Syntax(_)));
        }
        _ => panic!("expected a pattern error"),
    }
    let mut cfg = base_cfg();
    cfg.dev_allowlist = vec![unique().text(), "nonsense!".into()];
    cfg.dev_blocklist = vec!["".into()];
    match FilterEngine::new(cfg) {
        Err(FilterError::Creator { list, index, fault }) => {
            assert_eq!((list, index), (ListName::DevAllowlist, 1));
            assert_eq!(fault, PubkeyParseError::Invalid);
        }
        _ => panic!("expected a creator error"),
    }
    let mut cfg = base_cfg();
    cfg.dev_blocklist = vec!["".into()];
    match FilterEngine::new(cfg) {
        Err(FilterError::Creator { list, index, fault }) => {
            assert_eq!((list, index), (ListName::DevBlocklist, 0));
            assert_eq!(fault, PubkeyParseError::WrongSize);
        }
        _ => panic!("expected a creator error"),
    }
}

#[test]
fn patterns_keep_their_text() {
    let p = match Pattern::compile("^a+b$") {
        Ok(p) => p,
        Err(e) => panic!("{e:?}"),
    };
    assert_eq!(p.as_str(), "^a+b$");
    assert!(p.is_match("aaab"));
    assert!(!p.is_match("aaabc"));
    assert!(Pattern::compile("a{2,1}").is_err());
}

#[test]
fn compiled_patterns_can_be_given() {
    let deny = match Pattern::compile("x") {
        Ok(p) => vec![p],
        Err(e) => panic!("{e:?}"),
    };
    let eng = match FilterEngine::with_patterns(base_cfg(), vec![], deny, vec![]) {
        Ok(eng) => eng,
        Err(e) => panic!("{e:?}"),
    };
    assert_eq!(reason(eng.prefilter(&event("xyz", unique()))), "name matches deny regex: x");
    assert_eq!(reason(eng.prefilter(&event("scam", unique()))), "accepted");
}

#[test]
fn rejections_carry_their_reason() {
    assert_eq!(reject("why"), FilterVerdict::Reject { reason: "why".into() });
    assert!(!reject("why").is_accept());
    assert!(FilterVerdict::Accept.is_accept());
}

#[test]
fn thresholds_are_inclusive() {
    let eng = engine(base_cfg());
    let ev = event("Doge", unique());
    let mut f = good_facts();
    f.initial_liquidity_sol = b(1.0);
    f.total_supply = 1_000_000_000;
    f.lp_locked_pct = b(90.0);
    assert_eq!(eng.evaluate(&ev, &f), FilterVerdict::Accept);
    f.initial_liquidity_sol = b(0.9995);
    assert_eq!(reason(eng.evaluate(&ev, &f)), "liquidity 1.000 SOL below min 1.000");
}

#[test]
fn messages_of_malformed_filters() {
    assert_eq!(
        PatternError::TooBig(10).message(),
        regex::Error::CompiledTooBig(10).to_string()
    );
    let want = regex::Regex::new("(").unwrap_err().to_string();
    let mut cfg = base_cfg();
    cfg.name_allow_regex = vec!["(".into()];
    match FilterEngine::new(cfg) {
        Err(e) => assert_eq!(e.message(), want),
        Ok(_) => panic!("expected an error"),
    }
    let bad = FilterError::Creator {
        list: ListName::DevBlocklist,
        index: 0,
        fault: PubkeyParseError::WrongSize,
    };
    assert_eq!(bad.message(), "String is the wrong size");
    assert_eq!(PatternError::Other("o".into()).message(), "o");
}

#[test]
fn refused_patterns_say_why() {
    let faulty = regex::Regex::new("[z-a]").unwrap_err().to_string();
    match Pattern::compile("[z-a]") {
        Err(PatternError::Syntax(message)) => assert_eq!(message, faulty),
        _ => panic!("expected a syntax fault"),
    }
    match Pattern::compile(r"\w{1000}{100}") {
        Err(PatternError::TooBig(limit)) => assert_eq!(limit, 10_485_760),
        _ => panic!("expected a size fault"),
    }
}

#[test]
fn the_first_faulty_pattern_is_reported() {
    let mut cfg = base_cfg();
    cfg.name_allow_regex = vec!["a".into()];
    cfg.name_deny_regex = vec!["b".into(), "[z-a]".into(), "(".into()];
    cfg.symbol_allow_regex = vec!["*".into()];
    cfg.dev_blocklist = vec!["!".into()];
    let want = regex::Regex::new("[z-a]").unwrap_err().to_string();
    match FilterEngine::new(cfg) {
        Err(FilterError::Pattern { list, index, cause }) => {
            assert_eq!((list, index), (ListName::NameDeny, 1));
            assert_eq!(cause, PatternError::Syntax(want));
        }
        _ => panic!("expected a pattern error"),
    }
}

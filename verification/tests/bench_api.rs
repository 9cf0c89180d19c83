use solana_nova_sniper::bench_api::{
    bench_decode, bench_evaluate, bench_prefilter, bench_strategy_tick, push_string, BenchFixture,
};
use solana_nova_sniper::binary64::Binary64;
use solana_nova_sniper::detector::{parse_discriminator, Venue};
use solana_nova_sniper::filters::{FilterError, ListName, PatternError};
use solana_nova_sniper::strategy::{SellReason, StrategyAction};

fn fixture() -> BenchFixture {
    match BenchFixture::new() {
        Ok(fx) => fx,
        Err(e) => panic!("{e:?}"),
    }
}

fn b(x: f64) -> Binary64 {
    Binary64::from_bits(x.to_bits())
}

#[test]
fn the_sample_is_a_launch() {
    let fx = fixture();
    let ev = bench_decode(&fx).expect("decoded");
    assert_eq!(ev.venue, Venue::PumpFun);
    assert_eq!(ev.name.as_deref(), Some("DogeMoon"));
    assert_eq!(ev.symbol.as_deref(), Some("DOGE"));
    assert_eq!(ev.uri.as_deref(), Some("https://example.com/m.json"));
    assert_eq!(ev.signature, "sig");
    assert_eq!(ev.slot, 1);
    assert_eq!(ev.mint, fx.sample_accounts[0]);
    assert_eq!(ev.creator, fx.sample_accounts[7]);
}

#[test]
fn the_sample_passes_the_filters() {
    let fx = fixture();
    assert!(bench_prefilter(&fx).is_accept());
    assert!(bench_evaluate(&fx).is_accept());
}

#[test]
fn the_sample_strategy() {
    let fx = fixture();
    assert_eq!(bench_strategy_tick(&fx, b(1.1), 1), StrategyAction::Hold);
    assert_eq!(
        bench_strategy_tick(&fx, b(2.5), 1),
        StrategyAction::Sell { fraction: b(0.3), reason: SellReason::TakeProfit }
    );
    assert!(matches!(
        bench_strategy_tick(&fx, b(0.4), 1),
        StrategyAction::Sell { reason: SellReason::StopLoss, .. }
    ));
}

#[test]
fn sample_accounts_differ() {
    let fx = fixture();
    assert_eq!(fx.sample_accounts.len(), 10);
    assert_ne!(fx.sample_accounts[0], fx.sample_accounts[1]);
    assert_ne!(fx.sample_event.mint, fx.sample_event.creator);
}

#[test]
fn strings_are_framed() {
    let mut out = vec![7];
    push_string(&mut out, "é");
    assert_eq!(out, vec![7, 2, 0, 0, 0, 0xc3, 0xa9]);
    let mut data = parse_discriminator("181ec828051c0777").unwrap().to_vec();
    for s in ["DogeMoon", "DOGE", "https://example.com/m.json"] {
        data.extend_from_slice(&(s.len() as u32).to_le_bytes());
        data.extend_from_slice(s.as_bytes());
    }
    assert_eq!(fixture().sample_ix_data, data);
}

#[test]
fn the_filters_decide_whether_there_is_a_fixture() {
    let cause = PatternError::TooBig(1);
    let refused = FilterError::Pattern { list: ListName::NameDeny, index: 0, cause };
    match BenchFixture::with_filters(Err(refused.clone())) {
        Err(e) => assert_eq!(e, refused),
        Ok(_) => panic!("expected an error"),
    }
    let fx = match BenchFixture::with_filters(Ok(fixture().filters)) {
        Ok(fx) => fx,
        Err(e) => panic!("{e:?}"),
    };
    assert!(bench_decode(&fx).is_some());
    assert!(bench_evaluate(&fx).is_accept());
    assert_eq!(fx.sample_event.name.as_deref(), Some("DogeMoon"));
}

use std::time::Duration;

use solana_nova_sniper::config::{PumpFunTarget, RaydiumTarget, RpcConfig, TargetsConfig};
use solana_nova_sniper::detector::{parse_discriminator, Detector, Venue};
use solana_nova_sniper::listener::{
    backoff_for, backoff_millis, extract_launches, parse_commitment, CommitmentLevel, Listener,
    ListenerEvent, NextStep, RawInstruction, RawMessage, Reconnector, StreamEnd, StreamUpdate,
    TransactionInfo, UpdateAction,
};
use solana_nova_sniper::pubkey::Pubkey;

const PUMPFUN: &str = "6EF8rrecthR5Dkzon8Nwu78hRvfCKubJ14M5uBEwF6P";
const RAYDIUM: &str = "LanMV9sAd7wArD4vJFi2qDdfnVhFxYSUg6eADduJ3uj";

fn detector(pumpfun: bool, raydium: bool) -> Detector {
    let targets = TargetsConfig {
        pumpfun: PumpFunTarget {
            enabled: pumpfun,
            program_id: PUMPFUN.into(),
            create_discriminator: "181ec828051c0777".into(),
        },
        raydium_launchlab: RaydiumTarget {
            enabled: raydium,
            program_id: RAYDIUM.into(),
            initialize_discriminator: "afaf6d1f0d989bed".into(),
        },
    };
    match Detector::new(&targets) {
        Ok(d) => d,
        Err(e) => panic!("{e:?}"),
    }
}

fn listener(token: &str) -> Listener {
    let cfg = RpcConfig {
        http_url: "https://rpc".into(),
        geyser_url: "https://geyser".into(),
        geyser_x_token: token.into(),
        commitment: "Confirmed".into(),
    };
    Listener::new(cfg, detector(true, true))
}

fn key_bytes(text: &str) -> Vec<u8> {
    Pubkey::parse(text).unwrap().bytes.to_vec()
}

/// Account 0 is Pump.fun, account 1 Raydium, and 2 to 11 are other accounts.
fn keys() -> Vec<Vec<u8>> {
    let mut out = vec![key_bytes(PUMPFUN), key_bytes(RAYDIUM)];
    for i in 2..12u8 {
        out.push(vec![i; 32]);
    }
    out
}

fn create(program_id_index: u32) -> RawInstruction {
    RawInstruction {
        program_id_index,
        accounts: (2..12).collect(),
        data: parse_discriminator("181ec828051c0777").unwrap().to_vec(),
    }
}

fn initialize() -> RawInstruction {
    RawInstruction {
        program_id_index: 1,
        accounts: vec![5, 6, 7],
        data: parse_discriminator("afaf6d1f0d989bed").unwrap().to_vec(),
    }
}

fn transaction(outer: Vec<RawInstruction>, inner: Vec<Vec<RawInstruction>>) -> TransactionInfo {
    TransactionInfo {
        signature: vec![0, 0, 1],
        message: Some(RawMessage { account_keys: keys(), instructions: outer }),
        inner,
    }
}

#[test]
fn backoff_grows_then_caps() {
    assert_eq!(backoff_for(1), Duration::from_millis(500));
    assert_eq!(backoff_for(2), Duration::from_millis(1000));
    assert_eq!(backoff_for(20), Duration::from_millis(250 << 6));
}

#[test]
fn parse_commitment_defaults_to_processed() {
    assert!(matches!(parse_commitment("garbage"), CommitmentLevel::Processed));
    assert!(matches!(parse_commitment("finalized"), CommitmentLevel::Finalized));
    assert!(matches!(parse_commitment("confirmed"), CommitmentLevel::Confirmed));
}

#[test]
fn commitment_names_ignore_case() {
    assert!(matches!(parse_commitment("FINALIZED"), CommitmentLevel::Finalized));
    assert!(matches!(parse_commitment("Confirmed"), CommitmentLevel::Confirmed));
    assert!(matches!(parse_commitment(""), CommitmentLevel::Processed));
}

#[test]
fn backoff_by_attempt() {
    let all: Vec<u64> = (0..9).map(backoff_millis).collect();
    assert_eq!(all, vec![250, 500, 1000, 2000, 4000, 8000, 16000, 16000, 16000]);
    assert_eq!(backoff_millis(u32::MAX), 16000);
}

#[test]
fn launches_of_outer_and_inner_instructions_in_order() {
    let info = transaction(vec![initialize(), create(0)], vec![vec![create(0)], vec![initialize()]]);
    let found = extract_launches(&detector(true, true), &info, 77).unwrap();
    let venues: Vec<Venue> = found.iter().map(|e| e.venue).collect();
    assert_eq!(
        venues,
        vec![
            Venue::RaydiumLaunchLab,
            Venue::PumpFun,
            Venue::PumpFun,
            Venue::RaydiumLaunchLab
        ]
    );
    for e in &found {
        assert_eq!(e.signature, "112");
        assert_eq!(e.slot, 77);
    }
    assert_eq!(found[0].pool.unwrap().bytes, [5; 32]);
    assert_eq!(found[0].mint.bytes, [6; 32]);
    assert_eq!(found[0].creator.bytes, [7; 32]);
    assert_eq!(found[1].mint.bytes, [2; 32]);
    assert_eq!(found[1].creator.bytes, [9; 32]);
}

#[test]
fn nothing_to_extract() {
    let det = detector(true, true);
    assert!(extract_launches(&det, &transaction(vec![], vec![]), 1).is_none());
    assert!(extract_launches(&det, &transaction(vec![create(1), create(200)], vec![]), 1).is_none());
    let empty = TransactionInfo { signature: vec![1], message: None, inner: vec![vec![create(0)]] };
    assert!(extract_launches(&det, &empty, 1).is_none());
}

#[test]
fn an_idle_detector_extracts_nothing() {
    let info = transaction(vec![initialize(), create(0)], vec![vec![create(0)]]);
    assert!(extract_launches(&detector(false, false), &info, 1).is_none());
    assert_eq!(extract_launches(&detector(false, true), &info, 1).unwrap().len(), 1);
}

#[test]
fn malformed_accounts_are_passed_over() {
    let mut info = transaction(vec![create(0)], vec![]);
    let mut raw = keys();
    raw.insert(0, vec![1, 2, 3]);
    info.message = Some(RawMessage { account_keys: raw, instructions: vec![create(0)] });
    let found = extract_launches(&detector(true, true), &info, 1).unwrap();
    assert_eq!(found[0].mint.bytes, [2; 32]);

    let mut ix = create(0);
    ix.accounts = vec![250, 2, 3, 4, 5, 6, 7, 8, 9];
    let found = extract_launches(&detector(true, true), &transaction(vec![ix], vec![]), 1).unwrap();
    assert_eq!(found[0].mint.bytes, [2; 32]);
    assert_eq!(found[0].creator.bytes, [9; 32]);
}

#[test]
fn the_subscription_asks_for_the_watched_programs() {
    let sub = listener("").subscription();
    assert_eq!(sub.label, "launches");
    assert!(!sub.vote);
    assert!(!sub.failed);
    assert_eq!(sub.account_required, vec![PUMPFUN.to_string(), RAYDIUM.to_string()]);
    assert!(matches!(sub.commitment, CommitmentLevel::Confirmed));
}

#[test]
fn the_token_is_optional() {
    assert_eq!(listener("").access_token(), None);
    assert_eq!(listener("t").access_token(), Some("t".to_string()));
}

#[test]
fn messages_of_the_stream() {
    let l = listener("");
    assert!(matches!(l.on_update(&StreamUpdate::Ping), UpdateAction::Pong { id: 1 }));
    assert!(matches!(l.on_update(&StreamUpdate::Other), UpdateAction::Ignore));
    assert!(matches!(
        l.on_update(&StreamUpdate::Transaction { info: None, slot: 1 }),
        UpdateAction::Ignore
    ));
    let info = transaction(vec![create(0)], vec![]);
    match l.on_update(&StreamUpdate::Transaction { info: Some(info), slot: 9 }) {
        UpdateAction::Emit(list) => {
            assert_eq!(list.len(), 1);
            assert_eq!(list[0].slot, 9);
        }
        _ => panic!("expected a launch"),
    }
    let none = transaction(vec![], vec![]);
    assert!(matches!(
        l.on_update(&StreamUpdate::Transaction { info: Some(none), slot: 9 }),
        UpdateAction::Ignore
    ));
}

#[test]
fn reconnects_after_every_end_but_one() {
    let mut r = Reconnector::new();
    match r.after(StreamEnd::Failed { reason: "x".into() }) {
        NextStep::Reconnect { notice: Some(ListenerEvent::Reconnecting { attempt, reason }), pause_ms } => {
            assert_eq!((attempt, reason.as_str(), pause_ms), (0, "x", 500));
        }
        _ => panic!("expected a reconnect"),
    }
    match r.after(StreamEnd::Clean) {
        NextStep::Reconnect { notice: None, pause_ms } => assert_eq!(pause_ms, 1000),
        _ => panic!("expected a reconnect"),
    }
    assert!(matches!(r.after(StreamEnd::ConsumerGone), NextStep::Stop));
    assert_eq!(r.attempt, 2);
}

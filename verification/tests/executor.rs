use solana_nova_sniper::binary64::Binary64;
use solana_nova_sniper::config::{JitoConfig, RotationStrategy, SizingConfig, WalletConfig};
use solana_nova_sniper::detector::{LaunchEvent, Venue};
use solana_nova_sniper::executor::{
    jupiter_quote_url, judge_bundle_reply, read_bundle_reply, sol_to_lamports, tip_account_from,
    BuyAction, BuyEvent, BuyOutcome, BuyStage, ExecutionMode, Executor, JsonMember, JsonReply,
    SubmitError, TipError,
};
use solana_nova_sniper::pubkey::{Pubkey, PubkeyParseError};
use solana_nova_sniper::transaction::SignedTransaction;
use solana_nova_sniper::wallet::{WalletGuard, WalletPool};
use solana_sdk::signature::Signer;

const TIP: &str = "96gYZGLnJYVFmbjzopPSU6QiEV5fGqZNyN9nmNhvrZU5";

fn b(x: f64) -> Binary64 {
    Binary64::from_bits(x.to_bits())
}

fn executor(mode: ExecutionMode, retries: u32) -> Executor {
    let jito = JitoConfig {
        block_engine_url: "https://engine.example//".into(),
        tip_sol: b(0.001),
        tip_accounts: vec![TIP.into()],
        max_bundle_retries: retries,
    };
    let sizing = SizingConfig {
        buy_sol: b(0.05),
        max_slippage_bps: 500,
        compute_unit_price: 0x0102_0304_0506,
        compute_unit_limit: 0x0a0b_0c0d,
    };
    Executor::new(jito, sizing, mode)
}

fn launch(venue: Venue) -> LaunchEvent {
    LaunchEvent {
        venue,
        signature: "src".into(),
        slot: 123,
        mint: Pubkey { bytes: [0; 32] },
        creator: Pubkey { bytes: [1; 32] },
        pool: None,
        name: None,
        symbol: None,
        uri: None,
        observed_at_ms: 0,
    }
}

fn wallet() -> (solana_sdk::signature::Keypair, WalletGuard) {
    let pair = solana_sdk::signature::Keypair::new();
    let files = vec![Some(serde_json::to_string(&pair.to_bytes().to_vec()).unwrap())];
    let cfg = WalletConfig {
        keypair_paths: vec!["w".into()],
        rotation: RotationStrategy::RoundRobin,
    };
    let mut pool = match WalletPool::load(&cfg, &files) {
        Ok(pool) => pool,
        Err(e) => panic!("{}", e.message()),
    };
    let guard = pool.acquire().unwrap();
    (pair, guard)
}

fn submitted() -> BuyOutcome {
    BuyOutcome::BundleSubmitted { bundle_id: "b".into(), signature: "s".into() }
}

#[test]
fn sol_to_lamports_round_trip() {
    assert_eq!(sol_to_lamports(b(0.001)), 1_000_000);
    assert_eq!(sol_to_lamports(b(1.0)), 1_000_000_000);
}

#[test]
fn lamports_of_odd_amounts() {
    for x in [0.0, 0.05, 0.1, 0.3, 1.5, 2.000000001, 1e-10, 5e-10, 123456.789, 18446744073.709553] {
        let want: f64 = (x as f64 * 1_000_000_000.0).round();
        assert_eq!(sol_to_lamports(b(x)), want as u64);
    }
    assert_eq!(sol_to_lamports(b(-1.0)), 0);
    assert_eq!(sol_to_lamports(b(f64::NAN)), 0);
    assert_eq!(sol_to_lamports(b(f64::INFINITY)), u64::MAX);
    assert_eq!(sol_to_lamports(b(1e300)), u64::MAX);
    for n in [1u64, 2, 9, 1000, 9_007_199] {
        assert_eq!(sol_to_lamports(b(n as f64)), n * 1_000_000_000);
    }
}

#[test]
fn a_tipped_buy_has_three_instructions() {
    let ex = executor(ExecutionMode::Live, 3);
    let (pair, guard) = wallet();
    let tip = Pubkey::parse(TIP).unwrap();
    let ixs = ex.build_buy_instructions(&launch(Venue::PumpFun), guard.keypair(), &tip, 77);
    assert_eq!(ixs.len(), 3);
    assert_eq!(ixs[0].program_id.text(), "ComputeBudget111111111111111111111111111111");
    assert_eq!(ixs[0].data, vec![2, 0x0d, 0x0c, 0x0b, 0x0a]);
    assert!(ixs[0].accounts.is_empty());
    assert_eq!(ixs[1].program_id, ixs[0].program_id);
    assert_eq!(ixs[1].data, vec![3, 6, 5, 4, 3, 2, 1, 0, 0]);
    assert_eq!(ixs[2].program_id.bytes, [0; 32]);
    assert_eq!(ixs[2].data, vec![2, 0, 0, 0, 77, 0, 0, 0, 0, 0, 0, 0]);
    assert_eq!(ixs[2].accounts.len(), 2);
    assert_eq!(ixs[2].accounts[0].pubkey.bytes, pair.pubkey().to_bytes());
    assert!(ixs[2].accounts[0].is_signer && ixs[2].accounts[0].is_writable);
    assert_eq!(ixs[2].accounts[1].pubkey, tip);
    assert!(!ixs[2].accounts[1].is_signer && ixs[2].accounts[1].is_writable);
}

#[test]
fn an_untipped_buy_has_two_instructions() {
    let ex = executor(ExecutionMode::Live, 3);
    let (_, guard) = wallet();
    let tip = Pubkey::parse(TIP).unwrap();
    let ixs = ex.build_buy_instructions(&launch(Venue::RaydiumLaunchLab), guard.keypair(), &tip, 0);
    assert_eq!(ixs.len(), 2);
}

#[test]
fn the_direct_transaction_is_signed_by_the_wallet() {
    let ex = executor(ExecutionMode::Live, 3);
    let (pair, guard) = wallet();
    let signed = ex.prepare_direct(&launch(Venue::PumpFun), &guard, &[9; 32]);
    let tx: solana_sdk::transaction::Transaction = bincode::deserialize(&signed.wire).unwrap();
    assert!(tx.verify().is_ok());
    assert_eq!(tx.signatures.len(), 1);
    assert_eq!(tx.signatures[0].to_string(), signed.signature);
    assert_eq!(tx.message.account_keys[0], pair.pubkey());
    assert_eq!(tx.message.recent_blockhash.to_bytes(), [9; 32]);
    assert_eq!(tx.message.instructions.len(), 2);
    assert_eq!(signed.wire[0], 1);
    assert_eq!(bs58::encode(&signed.wire[1..65]).into_string(), signed.signature);
    assert!(signed.wire.len() < 0x1_0000);
    assert_eq!(&signed.wire[65..], &tx.message.serialize()[..]);
    assert_eq!(&signed.wire[1..65], pair.sign_message(&signed.wire[65..]).as_ref());
}

#[test]
fn a_bundle_holds_the_signed_and_tipped_buy() {
    let ex = executor(ExecutionMode::Live, 3);
    let (pair, guard) = wallet();
    let tip = Pubkey::parse(TIP).unwrap();
    let request = ex.prepare_bundle(&launch(Venue::PumpFun), &guard, &tip, &[7; 32]);
    assert_eq!(request.url, "https://engine.example/api/v1/bundles");
    let body: serde_json::Value = serde_json::from_str(&request.body).unwrap();
    assert_eq!(body.get("jsonrpc").unwrap().as_str(), Some("2.0"));
    assert_eq!(body.get("id").unwrap().as_u64(), Some(1));
    assert_eq!(body.get("method").unwrap().as_str(), Some("sendBundle"));
    let text = body.get("params").unwrap().get(0).unwrap().get(0).unwrap().as_str().unwrap();
    let wire = base64::Engine::decode(&base64::engine::general_purpose::STANDARD, text).unwrap();
    let tx: solana_sdk::transaction::Transaction = bincode::deserialize(&wire).unwrap();
    assert!(tx.verify().is_ok());
    assert_eq!(tx.signatures[0].to_string(), request.signature);
    assert_eq!(tx.message.account_keys[0], pair.pubkey());
    assert_eq!(tx.message.instructions.len(), 3);
    let mut transfer = vec![2, 0, 0, 0];
    transfer.extend_from_slice(&1_000_000u64.to_le_bytes());
    assert_eq!(tx.message.instructions[2].data, transfer);
}

#[test]
fn base64_of_every_length() {
    let ex = executor(ExecutionMode::Live, 0);
    for (bytes, text) in [
        (vec![], ""),
        (vec![0xfb], "+w=="),
        (vec![0xfb, 0xff], "+/8="),
        (vec![0, 16, 131], "ABCD"),
        (vec![0, 16, 131, 250], "ABCD+g=="),
    ] {
        let request = ex.bundle_request(SignedTransaction { signature: "s".into(), wire: bytes });
        assert_eq!(
            request.body,
            format!(
                "{{\"id\":1,\"jsonrpc\":\"2.0\",\"method\":\"sendBundle\",\"params\":[[\"{text}\"]]}}"
            )
        );
        assert_eq!(request.signature, "s");
    }
}

#[test]
fn tip_accounts() {
    let ex = executor(ExecutionMode::Live, 0);
    assert_eq!(ex.pick_tip_account(), Ok(Pubkey::parse(TIP).unwrap()));
    let mut none = executor(ExecutionMode::Live, 0);
    none.jito.tip_accounts.clear();
    assert_eq!(none.pick_tip_account(), Err(TipError::NoAccounts));
    let mut bad = executor(ExecutionMode::Live, 0);
    bad.jito.tip_accounts = vec!["!".into()];
    assert_eq!(bad.pick_tip_account(), Err(TipError::Malformed(PubkeyParseError::Invalid)));
    assert_eq!(tip_account_from(None), Err(TipError::NoAccounts));
    assert_eq!(tip_account_from(Some(&TIP.to_string())), Ok(Pubkey::parse(TIP).unwrap()));
    assert_eq!(TipError::NoAccounts.message(), "no tip accounts configured");
    assert_eq!(
        TipError::Malformed(PubkeyParseError::WrongSize).message(),
        "String is the wrong size"
    );
}

#[test]
fn every_tip_account_is_picked_at_times() {
    let mut ex = executor(ExecutionMode::Live, 0);
    let keys: Vec<Pubkey> = (1..4).map(|i| Pubkey { bytes: [i; 32] }).collect();
    ex.jito.tip_accounts = keys.iter().map(|k| k.text()).collect();
    let mut seen = [false; 3];
    for _ in 0..300 {
        let picked = ex.pick_tip_account().unwrap();
        let at = keys.iter().position(|k| *k == picked).unwrap();
        seen[at] = true;
    }
    assert_eq!(seen, [true; 3]);
}

#[test]
fn replies_of_the_block_engine() {
    let ok = br#"{"jsonrpc":"2.0","result":"abc","id":1}"#.to_vec();
    assert_eq!(
        read_bundle_reply(200, "200 OK", &ok, "sig".into()),
        Ok(BuyOutcome::BundleSubmitted { bundle_id: "abc".into(), signature: "sig".into() })
    );
    let odd = br#"{"result":5}"#.to_vec();
    assert_eq!(
        read_bundle_reply(299, "299", &odd, "sig".into()),
        Ok(BuyOutcome::BundleSubmitted { bundle_id: "<unknown>".into(), signature: "sig".into() })
    );
    let bare = b"[]".to_vec();
    assert_eq!(
        read_bundle_reply(200, "200 OK", &bare, "sig".into()),
        Ok(BuyOutcome::BundleSubmitted { bundle_id: "<unknown>".into(), signature: "sig".into() })
    );
    let error = br#"{"error":{"code":-32097,"message":"busy"},"result":"x"}"#.to_vec();
    assert_eq!(
        read_bundle_reply(200, "200 OK", &error, "sig".into()),
        Err(r#"bundle RPC error: {"code":-32097,"message":"busy"}"#.to_string())
    );
    let null = br#"{"error":null,"result":"x"}"#.to_vec();
    assert_eq!(
        read_bundle_reply(200, "200 OK", &null, "sig".into()),
        Err("bundle RPC error: null".to_string())
    );
    assert_eq!(
        read_bundle_reply(429, "429 Too Many Requests", &ok, "sig".into()),
        Err(
            r#"bundle HTTP 429 Too Many Requests: {"id":1,"jsonrpc":"2.0","result":"abc"}"#
                .to_string()
        )
    );
    assert_eq!(
        read_bundle_reply(199, "199", &bare, "sig".into()),
        Err("bundle HTTP 199: []".to_string())
    );
    let broken = b"<html>".to_vec();
    assert_eq!(
        read_bundle_reply(500, "500", &broken, "sig".into()),
        Err("parse bundle response".to_string())
    );
}

#[test]
fn parsed_replies() {
    let reply = JsonReply {
        text: "t".into(),
        members: vec![
            JsonMember { name: "x".into(), text: "1".into(), string: None },
            JsonMember { name: "result".into(), text: "\"id\"".into(), string: Some("id".into()) },
        ],
    };
    assert_eq!(
        judge_bundle_reply(200, "200 OK", &Ok(reply), "s".into()),
        Ok(BuyOutcome::BundleSubmitted { bundle_id: "id".into(), signature: "s".into() })
    );
    assert_eq!(
        judge_bundle_reply(200, "200 OK", &Err("e".into()), "s".into()),
        Err("parse bundle response".to_string())
    );
}

#[test]
fn a_dry_run_is_over_at_once() {
    let ex = executor(ExecutionMode::DryRun, 3);
    let (flow, action) = ex.buy(&launch(Venue::RaydiumLaunchLab), "0.05");
    assert_eq!(
        action,
        BuyAction::Finish(BuyOutcome::Simulated {
            summary: "[dry-run] would buy 0.05 SOL of mint 11111111111111111111111111111111 via \
                      RaydiumLaunchLab (sig-src=src, slot=123)"
                .into()
        })
    );
    assert_eq!(flow.stage(), BuyStage::Over);
    let (_, action) = ex.buy(&launch(Venue::PumpFun), "1");
    match action {
        BuyAction::Finish(BuyOutcome::Simulated { summary }) => {
            assert!(summary.contains(" via PumpFun "));
        }
        _ => panic!("expected a simulation"),
    }
}

#[test]
fn an_accepted_bundle_ends_the_buy() {
    let ex = executor(ExecutionMode::Live, 3);
    let (mut flow, action) = ex.buy(&launch(Venue::PumpFun), "1");
    assert_eq!(action, BuyAction::SubmitBundle);
    assert_eq!(flow.stage(), BuyStage::Bundle(0));
    assert_eq!(flow.step(BuyEvent::Submitted(submitted())), BuyAction::Finish(submitted()));
    assert_eq!(flow.stage(), BuyStage::Over);
}

#[test]
fn failed_bundles_are_retried_then_sent_directly() {
    let ex = executor(ExecutionMode::Live, 2);
    let (mut flow, mut action) = ex.buy(&launch(Venue::PumpFun), "1");
    for attempt in 0..3u64 {
        assert_eq!(action, BuyAction::SubmitBundle);
        let pause = flow.step(BuyEvent::Failed(format!("e{attempt}")));
        assert_eq!(pause, BuyAction::SleepMillis(200 * (attempt + 1)));
        action = flow.step(BuyEvent::Rested);
    }
    assert_eq!(action, BuyAction::SubmitDirect);
    assert_eq!(flow.stage(), BuyStage::Direct);
    assert_eq!(
        flow.step(BuyEvent::Failed("d".into())),
        BuyAction::Finish(BuyOutcome::Dropped {
            reason: "jito failed (e2); direct fallback failed (d)".into()
        })
    );
    assert_eq!(flow.stage(), BuyStage::Over);
}

#[test]
fn the_direct_path_can_succeed() {
    let ex = executor(ExecutionMode::Live, 0);
    let (mut flow, _) = ex.buy(&launch(Venue::PumpFun), "1");
    assert_eq!(flow.step(BuyEvent::Failed("x".into())), BuyAction::SleepMillis(200));
    assert_eq!(flow.step(BuyEvent::Rested), BuyAction::SubmitDirect);
    let sent = BuyOutcome::DirectSubmitted { signature: "s".into() };
    assert_eq!(flow.step(BuyEvent::Submitted(sent.clone())), BuyAction::Finish(sent));
}

#[test]
fn a_retry_can_succeed() {
    let ex = executor(ExecutionMode::Live, 1);
    let (mut flow, _) = ex.buy(&launch(Venue::PumpFun), "1");
    let _ = flow.step(BuyEvent::Failed("x".into()));
    assert_eq!(flow.step(BuyEvent::Rested), BuyAction::SubmitBundle);
    assert_eq!(flow.stage(), BuyStage::Bundle(1));
    assert_eq!(flow.step(BuyEvent::Submitted(submitted())), BuyAction::Finish(submitted()));
}

#[test]
fn quote_addresses() {
    let zero = Pubkey { bytes: [0; 32] };
    let tip = Pubkey::parse(TIP).unwrap();
    assert_eq!(
        jupiter_quote_url(&zero, &tip, 18446744073709551615, 50),
        format!(
            "https://quote-api.jup.ag/v6/quote?inputMint=11111111111111111111111111111111&outputMint={TIP}&amount=18446744073709551615&slippageBps=50"
        )
    );
}

#[test]
fn reasons_of_failed_submissions() {
    assert_eq!(SubmitError::Tip(TipError::NoAccounts).message(), "no tip accounts configured");
    assert_eq!(SubmitError::Blockhash.message(), "fetch recent blockhash");
    assert_eq!(SubmitError::Post.message(), "POST bundle");
    assert_eq!(SubmitError::Reply("r".into()).message(), "r");
    assert_eq!(SubmitError::Send.message(), "send direct transaction");
}

#[test]
fn slashes_at_the_end_of_the_address_do_not_matter() {
    for (given, want) in [
        ("https://e", "https://e/api/v1/bundles"),
        ("https://e/", "https://e/api/v1/bundles"),
        ("https://\u{e9}///", "https://\u{e9}/api/v1/bundles"),
        ("///", "/api/v1/bundles"),
        ("", "/api/v1/bundles"),
        ("a/b", "a/b/api/v1/bundles"),
    ] {
        let mut ex = executor(ExecutionMode::Live, 0);
        ex.jito.block_engine_url = given.into();
        let signed = SignedTransaction { signature: "s".into(), wire: vec![] };
        assert_eq!(ex.bundle_request(signed).url, want);
    }
}

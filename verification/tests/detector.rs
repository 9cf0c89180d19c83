use solana_nova_sniper::config::{PumpFunTarget, RaydiumTarget, TargetsConfig};
use solana_nova_sniper::detector::{
    decode_borsh_strings, decode_pumpfun, parse_discriminator, read_borsh_string, stamp_of, Detector,
    DetectorError, DiscriminatorError, HexError, Venue,
};
use solana_nova_sniper::pubkey::{Pubkey, PubkeyParseError};

const PUMPFUN: &str = "6EF8rrecthR5Dkzon8Nwu78hRvfCKubJ14M5uBEwF6P";
const RAYDIUM: &str = "LanMV9sAd7wArD4vJFi2qDdfnVhFxYSUg6eADduJ3uj";

fn targets() -> TargetsConfig {
    TargetsConfig {
        pumpfun: PumpFunTarget {
            enabled: true,
            program_id: PUMPFUN.into(),
            create_discriminator: "181ec828051c0777".into(),
        },
        raydium_launchlab: RaydiumTarget {
            enabled: true,
            program_id: RAYDIUM.into(),
            initialize_discriminator: "afaf6d1f0d989bed".into(),
        },
    }
}

fn unique() -> Pubkey {
    Pubkey { bytes: solana_sdk::pubkey::Pubkey::new_unique().to_bytes() }
}

fn accounts(n: usize) -> Vec<Pubkey> {
    (0..n).map(|_| unique()).collect()
}

fn key(text: &str) -> Pubkey {
    Pubkey::parse(text).unwrap()
}

fn borsh(data: &mut Vec<u8>, text: &str) {
    data.extend_from_slice(&(text.len() as u32).to_le_bytes());
    data.extend_from_slice(text.as_bytes());
}

#[test]
fn parses_discriminator_hex() {
    let d = parse_discriminator("181ec828051c0777").unwrap();
    assert_eq!(d[0], 0x18);
    assert_eq!(d[7], 0x77);
}

#[test]
fn detector_reports_watched_programs() {
    let det = Detector::new(&targets()).unwrap();
    assert_eq!(det.watched_program_ids().len(), 2);
    assert_eq!(det.watched_program_ids(), vec![key(PUMPFUN), key(RAYDIUM)]);
}

#[test]
fn non_matching_discriminator_returns_none() {
    let det = Detector::new(&targets()).unwrap();
    let wrong = [0u8; 16];
    assert!(det.decode(&key(PUMPFUN), &wrong, &accounts(10), "sig".into(), 1).is_none());
}

#[test]
fn decodes_pumpfun_create_with_metadata() {
    let det = Detector::new(&targets()).unwrap();
    let mut data = Vec::from(parse_discriminator("181ec828051c0777").unwrap());
    for s in ["Doge", "DOGE", "https://x"] {
        borsh(&mut data, s);
    }
    let list = accounts(10);
    let ev = det.decode(&key(PUMPFUN), &data, &list, "sig".into(), 42).expect("decoded");
    assert_eq!(ev.venue, Venue::PumpFun);
    assert_eq!(ev.name.as_deref(), Some("Doge"));
    assert_eq!(ev.symbol.as_deref(), Some("DOGE"));
    assert_eq!(ev.uri.as_deref(), Some("https://x"));
    assert_eq!(ev.slot, 42);
    assert_eq!(ev.signature, "sig");
    assert_eq!(ev.mint, list[0]);
    assert_eq!(ev.pool, Some(list[2]));
    assert_eq!(ev.creator, list[7]);
    assert!(ev.observed_at_ms > 1_600_000_000_000);
}

#[test]
fn unknown_program_returns_none() {
    let det = Detector::new(&targets()).unwrap();
    assert!(det.decode(&unique(), &[0; 8], &[], "sig".into(), 0).is_none());
}

#[test]
fn decodes_raydium_initialize() {
    let det = Detector::new(&targets()).unwrap();
    let data = Vec::from(parse_discriminator("afaf6d1f0d989bed").unwrap());
    let list = accounts(3);
    let ev = det.decode_at(&key(RAYDIUM), &data, &list, "s".into(), 7, 99).expect("decoded");
    assert_eq!(ev.venue, Venue::RaydiumLaunchLab);
    assert_eq!(ev.pool, Some(list[0]));
    assert_eq!(ev.mint, list[1]);
    assert_eq!(ev.creator, list[2]);
    assert_eq!(ev.name, None);
    assert_eq!(ev.observed_at_ms, 99);
}

#[test]
fn missing_accounts_are_no_launch() {
    let det = Detector::new(&targets()).unwrap();
    let create = Vec::from(parse_discriminator("181ec828051c0777").unwrap());
    assert!(det.decode(&key(PUMPFUN), &create, &accounts(7), "s".into(), 1).is_none());
    assert!(det.decode(&key(PUMPFUN), &create, &accounts(8), "s".into(), 1).is_some());
    let init = Vec::from(parse_discriminator("afaf6d1f0d989bed").unwrap());
    assert!(det.decode(&key(RAYDIUM), &init, &accounts(1), "s".into(), 1).is_none());
    assert!(det.decode(&key(RAYDIUM), &init, &accounts(2), "s".into(), 1).is_some());
}

#[test]
fn short_data_is_no_launch() {
    let det = Detector::new(&targets()).unwrap();
    assert!(det.decode(&key(PUMPFUN), &[0x18, 0x1e], &accounts(10), "s".into(), 1).is_none());
}

#[test]
fn disabled_venues_are_not_watched() {
    let mut t = targets();
    t.pumpfun.enabled = false;
    t.pumpfun.program_id = "not an address".into();
    let det = Detector::new(&t).unwrap();
    assert_eq!(det.watched_program_ids(), vec![key(RAYDIUM)]);
}

#[test]
fn malformed_targets_are_reported() {
    let mut t = targets();
    t.pumpfun.program_id = "0OIl".into();
    assert!(matches!(
        Detector::new(&t),
        Err(DetectorError::ProgramId { venue: Venue::PumpFun, cause: PubkeyParseError::Invalid })
    ));
    let mut t = targets();
    t.raydium_launchlab.program_id = "abc".into();
    assert!(matches!(
        Detector::new(&t),
        Err(DetectorError::ProgramId {
            venue: Venue::RaydiumLaunchLab,
            cause: PubkeyParseError::WrongSize
        })
    ));
    let mut t = targets();
    t.raydium_launchlab.initialize_discriminator = "ab".into();
    assert!(matches!(
        Detector::new(&t),
        Err(DetectorError::Discriminator {
            venue: Venue::RaydiumLaunchLab,
            fault: DiscriminatorError::Length(1)
        })
    ));
}

#[test]
fn discriminator_prefix_and_faults() {
    assert_eq!(
        parse_discriminator("0x0x181EC828051C0777"),
        Ok([0x18, 0x1e, 0xc8, 0x28, 0x05, 0x1c, 0x07, 0x77])
    );
    assert_eq!(parse_discriminator("0x18"), Err(DiscriminatorError::Length(1)));
    assert_eq!(parse_discriminator("181"), Err(DiscriminatorError::Hex(HexError::OddLength)));
    assert_eq!(
        parse_discriminator("18zz"),
        Err(DiscriminatorError::Hex(HexError::InvalidDigit { c: 'z', index: 2 }))
    );
    assert_eq!(parse_discriminator(""), Err(DiscriminatorError::Length(0)));
}

#[test]
fn borsh_strings_are_read_back() {
    let mut data: Vec<u8> = Vec::new();
    borsh(&mut data, "Größe");
    borsh(&mut data, "");
    borsh(&mut data, "u");
    data.push(9);
    let (name, symbol, uri) = decode_borsh_strings(&data);
    assert_eq!(name.as_deref(), Some("Größe"));
    assert_eq!(symbol.as_deref(), Some(""));
    assert_eq!(uri.as_deref(), Some("u"));
}

#[test]
fn a_broken_string_is_not_consumed() {
    let data = [2u8, 0, 0, 0, 0xff, 0xfe, 1];
    let mut rest: &[u8] = &data;
    assert_eq!(read_borsh_string(&mut rest), None);
    assert_eq!(rest, &data[..]);
    let short = [5u8, 0, 0, 0, 65];
    let mut rest: &[u8] = &short;
    assert_eq!(read_borsh_string(&mut rest), None);
    assert_eq!(rest.len(), 5);
    let tiny = [1u8, 0];
    let mut rest: &[u8] = &tiny;
    assert_eq!(read_borsh_string(&mut rest), None);
}

#[test]
fn the_time_only_stamps_a_launch() {
    let det = Detector::new(&targets()).unwrap();
    let data = Vec::from(parse_discriminator("181ec828051c0777").unwrap());
    let list = accounts(10);
    let a = det.decode_at(&key(PUMPFUN), &data, &list, "s".into(), 1, 5).unwrap();
    let b = det.decode_at(&key(PUMPFUN), &data, &list, "s".into(), 1, 6).unwrap();
    assert_eq!((a.mint, a.creator, a.pool, a.slot), (b.mint, b.creator, b.pool, b.slot));
    assert_eq!((a.observed_at_ms, b.observed_at_ms), (5, 6));
}

#[test]
fn messages_of_malformed_targets() {
    assert_eq!(
        DiscriminatorError::Length(3).message(),
        "discriminator must be 8 hex-encoded bytes, got 3"
    );
    assert_eq!(
        DiscriminatorError::Hex(HexError::OddLength).message(),
        hex::FromHexError::OddLength.to_string()
    );
    assert_eq!(
        DiscriminatorError::Hex(HexError::WrongLength).message(),
        hex::FromHexError::InvalidStringLength.to_string()
    );
    assert_eq!(
        parse_discriminator("18zz").unwrap_err().message(),
        "Invalid character 'z' at position 2"
    );
    let fault = DiscriminatorError::Length(1);
    assert_eq!(
        DetectorError::Discriminator { venue: Venue::PumpFun, fault }.message(),
        "discriminator must be 8 hex-encoded bytes, got 1"
    );
    assert_eq!(
        DetectorError::ProgramId { venue: Venue::PumpFun, cause: PubkeyParseError::Invalid }
            .message(),
        "Invalid Base58 string"
    );
}

#[test]
fn clock_readings_are_clamped() {
    assert_eq!(stamp_of(1_700_000_000_123), 1_700_000_000_123);
    assert_eq!(stamp_of(i64::MAX), i64::MAX as u64);
    assert_eq!(stamp_of(0), 0);
    assert_eq!(stamp_of(-1), 0);
    assert_eq!(stamp_of(i64::MIN), 0);
}

#[test]
fn a_drifted_create_is_no_launch() {
    let list = accounts(10);
    for n in 0..8 {
        assert!(decode_pumpfun(&vec![0; n], &list, "s".into(), 1, 2).is_none());
    }
    let ev = decode_pumpfun(&[0; 8], &list, "s".into(), 1, 2).unwrap();
    assert_eq!((ev.mint, ev.name, ev.observed_at_ms), (list[0], None, 2));
    assert!(decode_pumpfun(&[0; 8], &list[..7], "s".into(), 1, 2).is_none());
}

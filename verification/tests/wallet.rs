use solana_nova_sniper::config::{RotationStrategy, WalletConfig};
use solana_nova_sniper::wallet::{load_keypair, Keypair, WalletFault, WalletPool};
use solana_sdk::signature::Signer;

fn json(kp: &solana_sdk::signature::Keypair) -> Option<String> {
    Some(serde_json::to_string(&kp.to_bytes().to_vec()).unwrap())
}

fn fresh(n: usize) -> (Vec<solana_sdk::signature::Keypair>, Vec<Option<String>>) {
    let pairs: Vec<solana_sdk::signature::Keypair> =
        (0..n).map(|_| solana_sdk::signature::Keypair::new()).collect();
    let files = pairs.iter().map(json).collect();
    (pairs, files)
}

fn config(n: usize, rotation: RotationStrategy) -> WalletConfig {
    WalletConfig {
        keypair_paths: (0..n).map(|i| format!("w{i}.json")).collect(),
        rotation,
    }
}

fn pool(n: usize, rotation: RotationStrategy) -> WalletPool {
    let (_, files) = fresh(n);
    match WalletPool::load(&config(n, rotation), &files) {
        Ok(pool) => pool,
        Err(e) => panic!("{}", e.message()),
    }
}

#[test]
fn round_robin_rotates() {
    let mut pool = pool(2, RotationStrategy::RoundRobin);
    let g1 = pool.acquire().unwrap();
    let i1 = g1.index();
    pool.release(g1);
    let g2 = pool.acquire().unwrap();
    let i2 = g2.index();
    assert_ne!(i1, i2);
}

#[test]
fn first_available_respects_busy() {
    let mut pool = pool(1, RotationStrategy::FirstAvailable);
    let g1 = pool.acquire().unwrap();
    assert!(pool.acquire().is_none());
    pool.release(g1);
    assert!(pool.acquire().is_some());
}

#[test]
fn rejects_bad_keypair_file() {
    let files = vec![Some("[1,2,3]".to_string())];
    let loaded = WalletPool::load(&config(1, RotationStrategy::RoundRobin), &files);
    assert!(loaded.is_err());
}

#[test]
fn round_robin_goes_through_all_wallets() {
    let mut pool = pool(3, RotationStrategy::RoundRobin);
    let order: Vec<usize> = (0..7).map(|_| pool.acquire().unwrap().index()).collect();
    assert_eq!(order, vec![0, 1, 2, 0, 1, 2, 0]);
}

#[test]
fn first_available_takes_the_first_idle_wallet() {
    let mut pool = pool(3, RotationStrategy::FirstAvailable);
    let a = pool.acquire().unwrap();
    let b = pool.acquire().unwrap();
    let c = pool.acquire().unwrap();
    assert_eq!((a.index(), b.index(), c.index()), (0, 1, 2));
    pool.release(b);
    assert_eq!(pool.acquire().unwrap().index(), 1);
    assert!(pool.acquire().is_none());
    pool.release(c);
    pool.release(a);
    assert_eq!(pool.acquire().unwrap().index(), 0);
    assert_eq!(pool.acquire().unwrap().index(), 2);
}

#[test]
fn random_wallets_come_from_the_pool() {
    let mut pool = pool(4, RotationStrategy::Random);
    let mut seen = [false; 4];
    for _ in 0..400 {
        seen[pool.acquire().unwrap().index()] = true;
    }
    assert_eq!(seen, [true; 4]);
    let mut empty = match WalletPool::load(&config(0, RotationStrategy::Random), &vec![]) {
        Ok(pool) => pool,
        Err(e) => panic!("{}", e.message()),
    };
    assert!(empty.is_empty());
    assert!(empty.acquire().is_none());
}

#[test]
fn guards_know_their_wallet() {
    let (pairs, files) = fresh(2);
    let mut pool = match WalletPool::load(&config(2, RotationStrategy::RoundRobin), &files) {
        Ok(pool) => pool,
        Err(e) => panic!("{}", e.message()),
    };
    assert_eq!(pool.len(), 2);
    assert!(!pool.is_empty());
    for pair in &pairs {
        let guard = pool.acquire().unwrap();
        assert_eq!(guard.pubkey().bytes, pair.pubkey().to_bytes());
        assert_eq!(guard.keypair().as_bytes(), &pair.to_bytes().to_vec());
        assert_eq!(guard.keypair().pubkey(), guard.pubkey());
    }
    let third = pool.lend(1);
    assert_eq!(third.index(), 1);
}

#[test]
fn faults_of_keypair_files() {
    assert!(matches!(load_keypair(&None), Err(WalletFault::Unreadable)));
    assert!(matches!(load_keypair(&Some("{".into())), Err(WalletFault::Json(_))));
    assert!(matches!(load_keypair(&Some("[300]".into())), Err(WalletFault::Json(_))));
    assert!(matches!(load_keypair(&Some("[1,2,3]".into())), Err(WalletFault::Length(3))));
    let zeros = serde_json::to_string(&vec![0u8; 64]).unwrap();
    match load_keypair(&Some(zeros)) {
        Err(WalletFault::Invalid(message)) => assert!(!message.is_empty()),
        _ => panic!("expected invalid bytes"),
    }
    let (_, files) = fresh(1);
    assert!(load_keypair(&files[0]).is_ok());
}

#[test]
fn keypairs_have_to_fit_together() {
    let a = solana_sdk::signature::Keypair::new().to_bytes().to_vec();
    let b = solana_sdk::signature::Keypair::new().to_bytes().to_vec();
    let mut mixed = a[..32].to_vec();
    mixed.extend_from_slice(&b[32..]);
    assert!(matches!(Keypair::from_bytes(mixed), Err(WalletFault::Invalid(_))));
    assert!(Keypair::from_bytes(a).is_ok());
}

#[test]
fn the_first_bad_file_is_reported() {
    let (_, mut files) = fresh(4);
    files[1] = Some("[1]".into());
    files[2] = None;
    let cfg = config(4, RotationStrategy::RoundRobin);
    match WalletPool::load(&cfg, &files) {
        Err(e) => assert_eq!(e.message(), "keypair at w1.json has 1 bytes, expected 64"),
        Ok(_) => panic!("expected an error"),
    }
    files[1] = None;
    match WalletPool::load(&cfg, &files) {
        Err(e) => assert_eq!(e.message(), "reading keypair file w1.json"),
        Ok(_) => panic!("expected an error"),
    }
    files[1] = Some("no".into());
    match WalletPool::load(&cfg, &files) {
        Err(e) => assert_eq!(e.message(), "parsing keypair JSON at w1.json"),
        Ok(_) => panic!("expected an error"),
    }
    files[1] = Some(serde_json::to_string(&vec![0u8; 64]).unwrap());
    match WalletPool::load(&cfg, &files) {
        Err(e) => assert_eq!(e.message(), "invalid keypair bytes in w1.json"),
        Ok(_) => panic!("expected an error"),
    }
}

use solana_nova_sniper::pubkey::{Pubkey, PubkeyParseError};

#[test]
fn addresses_are_base58() {
    let zeros = Pubkey { bytes: [0; 32] };
    assert_eq!(zeros.text(), "11111111111111111111111111111111");
    let mut bytes = [0u8; 32];
    bytes[31] = 58;
    assert_eq!(Pubkey { bytes }.text(), "111111111111111111111111111111121");
    let high = Pubkey { bytes: [0xff; 32] };
    assert_eq!(high.text(), solana_sdk::pubkey::Pubkey::from([0xff; 32]).to_string());
}

#[test]
fn address_text_is_read_back() {
    for _ in 0..20 {
        let outside = solana_sdk::pubkey::Pubkey::new_unique();
        let key = Pubkey { bytes: outside.to_bytes() };
        assert_eq!(key.text(), outside.to_string());
        assert_eq!(Pubkey::parse(&key.text()), Ok(key));
    }
}

#[test]
fn malformed_addresses() {
    assert_eq!(Pubkey::parse(""), Err(PubkeyParseError::WrongSize));
    assert_eq!(Pubkey::parse("2"), Err(PubkeyParseError::WrongSize));
    assert_eq!(Pubkey::parse("0"), Err(PubkeyParseError::Invalid));
    assert_eq!(Pubkey::parse("é"), Err(PubkeyParseError::Invalid));
    let long = "1".repeat(45);
    assert_eq!(Pubkey::parse(&long), Err(PubkeyParseError::WrongSize));
    let much = "1".repeat(33);
    assert_eq!(Pubkey::parse(&much), Err(PubkeyParseError::Invalid));
    let high = "z".repeat(44);
    assert_eq!(Pubkey::parse(&high), Err(PubkeyParseError::Invalid));
    assert_eq!(PubkeyParseError::WrongSize.message(), "String is the wrong size");
    assert_eq!(PubkeyParseError::Invalid.message(), "Invalid Base58 string");
}

#[test]
fn addresses_from_slices() {
    assert_eq!(Pubkey::from_slice(&[7; 31]), None);
    assert_eq!(Pubkey::from_slice(&[7; 33]), None);
    assert_eq!(Pubkey::from_slice(&[7; 32]), Some(Pubkey { bytes: [7; 32] }));
}

#[test]
fn sameness_of_addresses() {
    let a = Pubkey { bytes: [1; 32] };
    let mut other = [1; 32];
    other[31] = 2;
    assert!(a.same(&a));
    assert!(!a.same(&Pubkey { bytes: other }));
}

//! Account addresses.
use vstd::prelude::*;
use vstd::string::*;
use vstd::utf8::encode_utf8;

use crate::base58::{
    base58, base58_is_unambiguous, base58_value, lemma_bytes_of, lemma_digits_of_value, span,
};

verus! {

/// A 32-byte account address.
#[derive(Debug, Clone, Copy, PartialEq, Eq)]
pub struct Pubkey {
    pub bytes: [u8; 32],
}

impl View for Pubkey {
    type V = Seq<u8>;

    open spec fn view(&self) -> Seq<u8> {
        self.bytes@
    }
}

/// Why a text is not an address.
#[derive(Debug, Clone, Copy, PartialEq, Eq, Structural)]
pub enum PubkeyParseError {
    /// The text does not stand for exactly 32 bytes.
    WrongSize,
    /// The text is not base58.
    Invalid,
}

impl PubkeyParseError {
    pub open spec fn text(self) -> Seq<char> {
        match self {
            PubkeyParseError::WrongSize => "String is the wrong size"@,
            PubkeyParseError::Invalid => "Invalid Base58 string"@,
        }
    }

    pub fn message(&self) -> (r: String)
        ensures
            r@ == self.text(),
    {
        match self {
            PubkeyParseError::WrongSize => "String is the wrong size".to_owned(),
            PubkeyParseError::Invalid => "Invalid Base58 string".to_owned(),
        }
    }
}

/// The text is the base58 form of the 32-byte address.
pub open spec fn is_address(text: Seq<char>, key: Seq<u8>) -> bool {
    &&& key.len() == 32
    &&& base58(key) == text
}

/// The address that a text stands for. A text of more than 44 bytes, or one that stands for
/// fewer than 32 bytes, has the wrong size; any other text is invalid.
pub open spec fn pubkey_from_text(text: Seq<char>) -> Result<Seq<u8>, PubkeyParseError> {
    if exists|key: Seq<u8>| is_address(text, key) {
        Ok(choose|key: Seq<u8>| is_address(text, key))
    } else if encode_utf8(text).len() > 44 || exists|bytes: Seq<u8>|
        bytes.len() < 32 && #[trigger] base58(bytes) == text {
        Err(PubkeyParseError::WrongSize)
    } else {
        Err(PubkeyParseError::Invalid)
    }
}

/// A parse result with the address as its bytes.
pub open spec fn parsed(r: Result<Pubkey, PubkeyParseError>) -> Result<
    Seq<u8>,
    PubkeyParseError,
> {
    match r {
        Ok(key) => Ok(key@),
        Err(e) => Err(e),
    }
}

/// Calls `<solana_sdk::pubkey::Pubkey as FromStr>::from_str`, which reads the base58 form of
/// an address and tells a wrong size from other faults.
#[verifier::external_body]
pub(crate) fn parse_pubkey(text: &str) -> (r: Result<Pubkey, PubkeyParseError>)
    ensures
        parsed(r) == pubkey_from_text(text@),
{
    match text.parse::<solana_sdk::pubkey::Pubkey>() {
        Ok(key) => Ok(Pubkey { bytes: key.to_bytes() }),
        Err(solana_sdk::pubkey::ParsePubkeyError::WrongSize) => Err(PubkeyParseError::WrongSize),
        Err(solana_sdk::pubkey::ParsePubkeyError::Invalid) => Err(PubkeyParseError::Invalid),
    }
}

/// Calls `<solana_sdk::pubkey::Pubkey as Display>::fmt`, which writes the address in base58.
#[verifier::external_body]
pub(crate) fn show_pubkey(key: &Pubkey) -> (r: String)
    ensures
        r@ == base58(key@),
{
    solana_sdk::pubkey::Pubkey::from(key.bytes).to_string()
}

impl Pubkey {
    /// An address from its text.
    pub fn parse(text: &str) -> (r: Result<Pubkey, PubkeyParseError>)
        ensures
            parsed(r) == pubkey_from_text(text@),
    {
        parse_pubkey(text)
    }

    /// The base58 text of the address. `Pubkey::parse` reads it back.
    pub fn text(&self) -> (r: String)
        ensures
            r@ == base58(self@),
    {
        show_pubkey(self)
    }

    /// An address from exactly 32 bytes.
    pub fn from_slice(bytes: &[u8]) -> (r: Option<Pubkey>)
        ensures
            r is Some <==> bytes@.len() == 32,
            r matches Some(key) ==> key@ == bytes@,
    {
        if bytes.len() != 32 {
            return None;
        }
        let mut out: [u8; 32] = [0; 32];
        let mut i: usize = 0;
        while i < 32
            invariant
                i <= 32,
                bytes@.len() == 32,
                forall|k: int| 0 <= k < i ==> out@[k] == bytes@[k],
            decreases 32 - i,
        {
            out[i] = bytes[i];
            i = i + 1;
        }
        assert(out@ =~= bytes@);
        Some(Pubkey { bytes: out })
    }

    /// Whether two addresses are the same.
    pub fn same(&self, other: &Pubkey) -> (r: bool)
        ensures
            r == (self@ == other@),
    {
        let mut i: usize = 0;
        while i < 32
            invariant
                i <= 32,
                forall|k: int| 0 <= k < i ==> self@[k] == other@[k],
            decreases 32 - i,
        {
            if self.bytes[i] != other.bytes[i] {
                return false;
            }
            i = i + 1;
        }
        assert(self@ =~= other@);
        true
    }
}

/// Reading the text of an address gives the address back.
pub proof fn address_text_round_trip(key: Seq<u8>)
    requires
        key.len() == 32,
    ensures
        pubkey_from_text(base58(key)) == Ok::<Seq<u8>, PubkeyParseError>(key),
{
    let text = base58(key);
    assert(is_address(text, key));
    base58_is_unambiguous(key, choose|k: Seq<u8>| is_address(text, k));
}

/// A base58 text whose number needs exactly 32 bytes is an address.
pub proof fn base58_texts_are_addresses(text: Seq<char>)
    requires
        text.len() > 0,
        text[0] != '1',
        base58_value(text, text.len()) is Some,
        span(31) <= base58_value(text, text.len())->0 < span(32),
    ensures
        pubkey_from_text(text) is Ok,
{
    lemma_digits_of_value(text, text.len());
    assert(text.take(text.len() as int) =~= text);
    let key = lemma_bytes_of(base58_value(text, text.len())->0, 32);
    assert(is_address(text, key));
}

} // verus!

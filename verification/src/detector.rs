//! Recognises token launches in program instructions.
use vstd::prelude::*;
use vstd::utf8::{decode_utf8, encode_utf8, valid_utf8};

use crate::base58::base58;
use crate::config::TargetsConfig;
use crate::decimal::{decimal, push_decimal};
use crate::pubkey::{
    address_text_round_trip, is_address, pubkey_from_text, Pubkey, PubkeyParseError,
};
use crate::transaction::little_endian;

verus! {

/// A venue-agnostic description of a token launch event emitted by the detector.
#[derive(Debug, Clone)]
pub struct LaunchEvent {
    pub venue: Venue,
    pub signature: String,
    pub slot: u64,
    pub mint: Pubkey,
    pub creator: Pubkey,
    /// Bonding curve / pool account (venue-specific semantics).
    pub pool: Option<Pubkey>,
    /// Optional metadata scraped from the create instruction args.
    pub name: Option<String>,
    pub symbol: Option<String>,
    pub uri: Option<String>,
    /// Detector-observed timestamp (unix ms) for latency measurement.
    pub observed_at_ms: u64,
}

#[derive(Debug, Clone, Copy, PartialEq, Eq, Structural)]
pub enum Venue {
    PumpFun,
    RaydiumLaunchLab,
}

/// What a `LaunchEvent` says.
pub struct Launch {
    pub venue: Venue,
    pub signature: Seq<char>,
    pub slot: u64,
    pub mint: Seq<u8>,
    pub creator: Seq<u8>,
    pub pool: Option<Seq<u8>>,
    pub name: Option<Seq<char>>,
    pub symbol: Option<Seq<char>>,
    pub uri: Option<Seq<char>>,
    pub observed_at_ms: u64,
}

pub open spec fn text_of(s: Option<String>) -> Option<Seq<char>> {
    match s {
        Some(t) => Some(t@),
        None => None,
    }
}

pub open spec fn key_of(k: Option<Pubkey>) -> Option<Seq<u8>> {
    match k {
        Some(key) => Some(key@),
        None => None,
    }
}

impl View for LaunchEvent {
    type V = Launch;

    open spec fn view(&self) -> Launch {
        Launch {
            venue: self.venue,
            signature: self.signature@,
            slot: self.slot,
            mint: self.mint@,
            creator: self.creator@,
            pool: key_of(self.pool),
            name: text_of(self.name),
            symbol: text_of(self.symbol),
            uri: text_of(self.uri),
            observed_at_ms: self.observed_at_ms,
        }
    }
}

/// The addresses of a list of accounts.
pub open spec fn keys(accounts: Seq<Pubkey>) -> Seq<Seq<u8>> {
    accounts.map_values(|k: Pubkey| k@)
}

// ---- hexadecimal ---------------------------------------------------------

pub open spec fn is_hex_digit(b: u8) -> bool {
    48 <= b <= 57 || 65 <= b <= 70 || 97 <= b <= 102
}

pub open spec fn hex_digit_value(b: u8) -> int {
    if b <= 57 {
        b - 48
    } else if b <= 70 {
        b - 55
    } else {
        b - 87
    }
}

/// The bytes that pairs of hexadecimal digits stand for.
pub open spec fn hex_bytes(text: Seq<u8>) -> Seq<u8> {
    Seq::new(
        text.len() / 2,
        |i: int| (16 * hex_digit_value(text[2 * i]) + hex_digit_value(text[2 * i + 1])) as u8,
    )
}

/// Why a text is not hexadecimal.
#[derive(Debug, Clone, Copy, PartialEq, Eq, Structural)]
pub enum HexError {
    /// An odd number of digits.
    OddLength,
    /// The first byte that is no digit, and where it stands.
    InvalidDigit { c: char, index: usize },
    /// Never returned for a text of unknown length.
    WrongLength,
}

/// What `hex::decode` makes of a text.
pub open spec fn hex_outcome(text: Seq<u8>, r: Result<Vec<u8>, HexError>) -> bool {
    let digits = forall|i: int| 0 <= i < text.len() ==> is_hex_digit(text[i]);
    match r {
        Ok(bytes) => text.len() % 2 == 0 && digits && bytes@ == hex_bytes(text),
        Err(HexError::OddLength) => text.len() % 2 == 1,
        Err(HexError::InvalidDigit { c, index }) => {
            &&& text.len() % 2 == 0
            &&& index < text.len()
            &&& !is_hex_digit(text[index as int])
            &&& c as int == text[index as int]
            &&& forall|i: int| 0 <= i < index ==> is_hex_digit(text[i])
        },
        Err(HexError::WrongLength) => false,
    }
}

/// Calls `hex::decode`. It accepts an even number of digits of either case and gives one byte
/// for each pair; otherwise it reports an odd length first, then the first byte that is no
/// digit.
#[verifier::external_body]
pub(crate) fn hex_decode(text: &[u8]) -> (r: Result<Vec<u8>, HexError>)
    ensures
        hex_outcome(text@, r),
{
    match hex::decode(text) {
        Ok(bytes) => Ok(bytes),
        Err(hex::FromHexError::OddLength) => Err(HexError::OddLength),
        Err(hex::FromHexError::InvalidHexCharacter { c, index }) => {
            Err(HexError::InvalidDigit { c, index })
        },
        Err(hex::FromHexError::InvalidStringLength) => Err(HexError::WrongLength),
    }
}

/// Why a discriminator cannot be read.
#[derive(Debug, Clone, Copy, PartialEq, Eq, Structural)]
pub enum DiscriminatorError {
    Hex(HexError),
    /// The number of bytes is not eight.
    Length(usize),
}

/// How `hex` words a complaint about a character.
pub uninterp spec fn bad_digit_text(c: char, index: usize) -> Seq<char>;

/// Calls `<hex::FromHexError as Display>::fmt` for a character that is no digit. The text
/// depends on the character and its position alone.
#[verifier::external_body]
fn show_bad_digit(c: char, index: usize) -> (r: String)
    ensures
        r@ == bad_digit_text(c, index),
{
    hex::FromHexError::InvalidHexCharacter { c, index }.to_string()
}

impl DiscriminatorError {
    pub open spec fn text(self) -> Seq<char> {
        match self {
            DiscriminatorError::Hex(HexError::OddLength) => "Odd number of digits"@,
            DiscriminatorError::Hex(HexError::InvalidDigit { c, index }) => bad_digit_text(
                c,
                index,
            ),
            DiscriminatorError::Hex(HexError::WrongLength) => "Invalid string length"@,
            DiscriminatorError::Length(found) =>
                "discriminator must be 8 hex-encoded bytes, got "@ + decimal(found as nat),
        }
    }

    pub fn message(&self) -> (r: String)
        ensures
            r@ == self.text(),
    {
        match self {
            DiscriminatorError::Hex(HexError::OddLength) => "Odd number of digits".to_owned(),
            DiscriminatorError::Hex(HexError::InvalidDigit { c, index }) => show_bad_digit(
                *c,
                *index,
            ),
            DiscriminatorError::Hex(HexError::WrongLength) => "Invalid string length".to_owned(),
            DiscriminatorError::Length(found) => {
                let mut out = "discriminator must be 8 hex-encoded bytes, got ".to_owned();
                push_decimal(&mut out, *found as u64);
                out
            },
        }
    }
}

/// A text without its leading `0x` prefixes.
pub open spec fn without_0x(text: Seq<u8>) -> Seq<u8>
    decreases text.len(),
{
    if text.len() >= 2 && text[0] == 48 && text[1] == 120 {
        without_0x(text.skip(2))
    } else {
        text
    }
}

/// The outcome of reading a discriminator from the bytes of its text.
pub open spec fn discriminator_outcome(
    text: Seq<u8>,
    r: Result<Seq<u8>, DiscriminatorError>,
) -> bool {
    let digits = without_0x(text);
    let all = forall|i: int| 0 <= i < digits.len() ==> is_hex_digit(digits[i]);
    match r {
        Ok(bytes) => digits.len() == 16 && all && bytes == hex_bytes(digits),
        Err(DiscriminatorError::Length(n)) => digits.len() % 2 == 0 && all && n == digits.len() / 2
            && n != 8,
        Err(DiscriminatorError::Hex(HexError::OddLength)) => digits.len() % 2 == 1,
        Err(DiscriminatorError::Hex(HexError::InvalidDigit { c, index })) => {
            &&& digits.len() % 2 == 0
            &&& index < digits.len()
            &&& !is_hex_digit(digits[index as int])
            &&& c as int == digits[index as int]
            &&& forall|i: int| 0 <= i < index ==> is_hex_digit(digits[i])
        },
        Err(DiscriminatorError::Hex(HexError::WrongLength)) => false,
    }
}

pub open spec fn array_result(r: Result<[u8; 8], DiscriminatorError>) -> Result<
    Seq<u8>,
    DiscriminatorError,
> {
    match r {
        Ok(a) => Ok(a@),
        Err(e) => Err(e),
    }
}

/// Reads the eight bytes of an instruction discriminator.
pub fn parse_discriminator(hex_str: &str) -> (r: Result<[u8; 8], DiscriminatorError>)
    ensures
        discriminator_outcome(encode_utf8(hex_str@), array_result(r)),
{
    let text = hex_str.as_bytes();
    let mut start: usize = 0;
    assert(text@.skip(0) =~= text@);
    while text.len() - start >= 2 && text[start] == 48 && text[start + 1] == 120
        invariant
            start <= text@.len(),
            without_0x(text@.skip(start as int)) == without_0x(text@),
        decreases text@.len() - start,
    {
        assert(text@.skip(start as int).skip(2) =~= text@.skip(start + 2));
        start = start + 2;
    }
    let digits = vstd::slice::slice_subrange(text, start, text.len());
    assert(digits@ =~= text@.skip(start as int));
    match hex_decode(digits) {
        Err(e) => Err(DiscriminatorError::Hex(e)),
        Ok(b) => {
            if b.len() != 8 {
                return Err(DiscriminatorError::Length(b.len()));
            }
            let out: [u8; 8] = [b[0], b[1], b[2], b[3], b[4], b[5], b[6], b[7]];
            assert(out@ =~= b@);
            Ok(out)
        },
    }
}

// ---- length-prefixed strings ---------------------------------------------

/// A 32-bit number, lowest byte first.
pub open spec fn le_u32(bytes: Seq<u8>) -> nat {
    (bytes[0] + 256 * bytes[1] + 65536 * bytes[2] + 16777216 * bytes[3]) as nat
}

/// Reads a Borsh string: its byte count, then its UTF-8 bytes. Where the input is too short
/// or not UTF-8, nothing is consumed.
pub open spec fn borsh_string(bytes: Seq<u8>) -> (Option<Seq<char>>, Seq<u8>) {
    if bytes.len() < 4 || bytes.len() < 4 + le_u32(bytes) {
        (None, bytes)
    } else {
        let end = 4 + le_u32(bytes);
        let body = bytes.subrange(4, end as int);
        if valid_utf8(body) {
            (Some(decode_utf8(body)), bytes.skip(end as int))
        } else {
            (None, bytes)
        }
    }
}

/// Calls `String::from_utf8`, which accepts exactly the well-formed UTF-8 sequences and
/// keeps their characters.
#[verifier::external_body]
pub(crate) fn utf8_string(bytes: Vec<u8>) -> (r: Option<String>)
    ensures
        r is Some <==> valid_utf8(bytes@),
        r matches Some(s) ==> s@ == decode_utf8(bytes@),
{
    String::from_utf8(bytes).ok()
}

/// Reads one string off the front of `bytes`.
pub fn read_borsh_string(bytes: &mut &[u8]) -> (r: Option<String>)
    ensures
        (text_of(r), final(bytes)@) == borsh_string(old(bytes)@),
{
    let input: &[u8] = *bytes;
    if input.len() < 4 {
        return None;
    }
    let len: u32 = input[0] as u32 + 256 * input[1] as u32 + 65536 * input[2] as u32 + 16777216
        * input[3] as u32;
    if ((input.len() - 4) as u64) < len as u64 {
        return None;
    }
    let end: usize = 4 + len as usize;
    let body = vstd::slice::slice_to_vec(vstd::slice::slice_subrange(input, 4, end));
    match utf8_string(body) {
        None => None,
        Some(s) => {
            let rest = vstd::slice::slice_subrange(input, end, input.len());
            assert(rest@ =~= input@.skip(end as int));
            *bytes = rest;
            Some(s)
        },
    }
}

/// Three strings in a row: name, symbol and URI.
pub open spec fn borsh_strings(bytes: Seq<u8>) -> (
    Option<Seq<char>>,
    Option<Seq<char>>,
    Option<Seq<char>>,
) {
    let (name, after_name) = borsh_string(bytes);
    let (symbol, after_symbol) = borsh_string(after_name);
    (name, symbol, borsh_string(after_symbol).0)
}

pub fn decode_borsh_strings(bytes: &[u8]) -> (r: (Option<String>, Option<String>, Option<String>))
    ensures
        (text_of(r.0), text_of(r.1), text_of(r.2)) == borsh_strings(bytes@),
{
    let mut rest: &[u8] = bytes;
    let name = read_borsh_string(&mut rest);
    let symbol = read_borsh_string(&mut rest);
    let uri = read_borsh_string(&mut rest);
    (name, symbol, uri)
}

// ---- the detector --------------------------------------------------------

/// What the detector looks for at one venue.
pub struct Target {
    pub program_id: Seq<u8>,
    pub discriminator: Seq<u8>,
}

/// What the detector looks for.
pub struct Watch {
    pub pumpfun: Option<Target>,
    pub raydium: Option<Target>,
}

impl Watch {
    /// The venue and discriminator of a program. Pump.fun is asked first.
    pub open spec fn matching(self, program_id: Seq<u8>) -> Option<(Venue, Seq<u8>)> {
        if self.pumpfun matches Some(t) && t.program_id == program_id {
            Some((Venue::PumpFun, self.pumpfun->0.discriminator))
        } else if self.raydium matches Some(t) && t.program_id == program_id {
            Some((Venue::RaydiumLaunchLab, self.raydium->0.discriminator))
        } else {
            None
        }
    }

    pub open spec fn program_ids(self) -> Seq<Seq<u8>> {
        (match self.pumpfun {
            Some(t) => seq![t.program_id],
            None => Seq::empty(),
        }) + (match self.raydium {
            Some(t) => seq![t.program_id],
            None => Seq::empty(),
        })
    }

    /// The venue that an instruction is for: its program is watched, and its data start with
    /// that program's discriminator.
    pub open spec fn recognised(self, program_id: Seq<u8>, data: Seq<u8>) -> Option<Venue> {
        match self.matching(program_id) {
            None => None,
            Some((venue, discriminator)) => if data.len() < 8 || data.take(8) != discriminator {
                None
            } else {
                Some(venue)
            },
        }
    }

    /// The launch that an instruction stands for, observed at the given time.
    pub open spec fn launch(self, ix: Instruction, origin: Origin, observed_at_ms: u64) -> Option<
        Launch,
    > {
        match self.recognised(ix.program_id, ix.data) {
            None => None,
            Some(Venue::PumpFun) => pumpfun_launch(ix, origin, observed_at_ms),
            Some(Venue::RaydiumLaunchLab) => raydium_launch(ix, origin, observed_at_ms),
        }
    }
}

/// An invoked instruction.
pub struct Instruction {
    pub program_id: Seq<u8>,
    pub data: Seq<u8>,
    pub accounts: Seq<Seq<u8>>,
}

/// Where an instruction was found.
pub struct Origin {
    pub signature: Seq<char>,
    pub slot: u64,
}

/// A Pump.fun `create`: the mint is the first account, the bonding curve the third and the
/// creator the eighth; the data holds name, symbol and URI after the discriminator. Where data
/// or accounts are too short for that shape, there is no launch.
pub open spec fn pumpfun_launch(ix: Instruction, origin: Origin, observed_at_ms: u64) -> Option<
    Launch,
> {
    if ix.data.len() < 8 || ix.accounts.len() < 8 {
        None
    } else {
        let (name, symbol, uri) = borsh_strings(ix.data.skip(8));
        Some(
            Launch {
                venue: Venue::PumpFun,
                signature: origin.signature,
                slot: origin.slot,
                mint: ix.accounts[0],
                creator: ix.accounts[7],
                pool: Some(ix.accounts[2]),
                name,
                symbol,
                uri,
                observed_at_ms,
            },
        )
    }
}

/// A Raydium LaunchLab initialisation: the pool is the first account, the mint the second
/// and the creator the last.
pub open spec fn raydium_launch(ix: Instruction, origin: Origin, observed_at_ms: u64) -> Option<
    Launch,
> {
    if ix.accounts.len() < 2 {
        None
    } else {
        Some(
            Launch {
                venue: Venue::RaydiumLaunchLab,
                signature: origin.signature,
                slot: origin.slot,
                mint: ix.accounts[1],
                creator: ix.accounts.last(),
                pool: Some(ix.accounts[0]),
                name: None,
                symbol: None,
                uri: None,
                observed_at_ms,
            },
        )
    }
}

struct ProgramMatcher {
    program_id: Pubkey,
    discriminator: [u8; 8],
    venue: Venue,
}

impl ProgramMatcher {
    spec fn target(self) -> Target {
        Target { program_id: self.program_id@, discriminator: self.discriminator@ }
    }
}

spec fn target_of(m: Option<ProgramMatcher>) -> Option<Target> {
    match m {
        Some(matcher) => Some(matcher.target()),
        None => None,
    }
}

/// Decode instruction blobs into launch events.
///
/// The detector keeps the target program ids and Anchor-style instruction
/// discriminators in memory so per-transaction work is just a comparison.
pub struct Detector {
    pumpfun: Option<ProgramMatcher>,
    raydium: Option<ProgramMatcher>,
}

impl View for Detector {
    type V = Watch;

    closed spec fn view(&self) -> Watch {
        Watch { pumpfun: target_of(self.pumpfun), raydium: target_of(self.raydium) }
    }
}

/// Why a detector cannot be built.
#[derive(Debug, Clone, Copy, PartialEq, Eq, Structural)]
pub enum DetectorError {
    ProgramId { venue: Venue, cause: PubkeyParseError },
    Discriminator { venue: Venue, fault: DiscriminatorError },
}

impl DetectorError {
    pub open spec fn text(self) -> Seq<char> {
        match self {
            DetectorError::ProgramId { cause, .. } => cause.text(),
            DetectorError::Discriminator { fault, .. } => fault.text(),
        }
    }

    pub fn message(&self) -> (r: String)
        ensures
            r@ == self.text(),
    {
        match self {
            DetectorError::ProgramId { cause, .. } => cause.message(),
            DetectorError::Discriminator { fault, .. } => fault.message(),
        }
    }
}

/// The outcome of setting up one venue.
pub open spec fn target_outcome(
    venue: Venue,
    enabled: bool,
    program_id: Seq<char>,
    discriminator: Seq<char>,
    r: Result<Option<Target>, DetectorError>,
) -> bool {
    match r {
        Ok(None) => !enabled,
        Ok(Some(t)) => {
            &&& enabled
            &&& pubkey_from_text(program_id) matches Ok(key) && key == t.program_id
            &&& discriminator_outcome(encode_utf8(discriminator), Ok(t.discriminator))
        },
        Err(DetectorError::ProgramId { venue: v, cause }) => {
            &&& enabled
            &&& v == venue
            &&& pubkey_from_text(program_id) matches Err(e) && e == cause
        },
        Err(DetectorError::Discriminator { venue: v, fault }) => {
            &&& enabled
            &&& v == venue
            &&& pubkey_from_text(program_id) is Ok
            &&& discriminator_outcome(encode_utf8(discriminator), Err(fault))
        },
    }
}

pub open spec fn pumpfun_outcome(targets: TargetsConfig, r: Result<Option<Target>, DetectorError>) -> bool {
    target_outcome(
        Venue::PumpFun,
        targets.pumpfun.enabled,
        targets.pumpfun.program_id@,
        targets.pumpfun.create_discriminator@,
        r,
    )
}

pub open spec fn raydium_outcome(targets: TargetsConfig, r: Result<Option<Target>, DetectorError>) -> bool {
    target_outcome(
        Venue::RaydiumLaunchLab,
        targets.raydium_launchlab.enabled,
        targets.raydium_launchlab.program_id@,
        targets.raydium_launchlab.initialize_discriminator@,
        r,
    )
}

spec fn matcher_result(r: Result<Option<ProgramMatcher>, DetectorError>) -> Result<
    Option<Target>,
    DetectorError,
> {
    match r {
        Ok(m) => Ok(target_of(m)),
        Err(e) => Err(e),
    }
}

fn build_matcher(venue: Venue, enabled: bool, program_id: &str, discriminator: &str) -> (r: Result<
    Option<ProgramMatcher>,
    DetectorError,
>)
    ensures
        target_outcome(venue, enabled, program_id@, discriminator@, matcher_result(r)),
        r matches Ok(Some(m)) ==> m.venue == venue,
{
    if !enabled {
        return Ok(None);
    }
    let key = match Pubkey::parse(program_id) {
        Ok(key) => key,
        Err(cause) => {
            return Err(DetectorError::ProgramId { venue, cause });
        },
    };
    match parse_discriminator(discriminator) {
        Ok(d) => Ok(Some(ProgramMatcher { program_id: key, discriminator: d, venue })),
        Err(fault) => Err(DetectorError::Discriminator { venue, fault }),
    }
}

/// Calls `chrono::Utc::now` and `timestamp_millis`: the machine's clock, of which nothing is
/// promised.
#[verifier::external_body]
pub(crate) fn now_millis() -> (r: i64)
{
    chrono::Utc::now().timestamp_millis()
}

/// The time stamp for a reading of the clock in milliseconds; a clock before 1970 counts as
/// zero.
pub fn stamp_of(clock: i64) -> (r: u64)
    ensures
        r == (if clock > 0 {
            clock as u64
        } else {
            0
        }),
{
    if clock > 0 {
        clock as u64
    } else {
        0
    }
}

impl Detector {
    /// Each matcher stands in the slot of its venue.
    #[verifier::type_invariant]
    spec fn slots(self) -> bool {
        &&& self.pumpfun matches Some(m) ==> m.venue == Venue::PumpFun
        &&& self.raydium matches Some(m) ==> m.venue == Venue::RaydiumLaunchLab
    }

    /// Pump.fun is set up before Raydium; the first fault is reported.
    pub fn new(targets: &TargetsConfig) -> (r: Result<Detector, DetectorError>)
        ensures
            r matches Ok(d) ==> pumpfun_outcome(*targets, Ok(d@.pumpfun)) && raydium_outcome(
                *targets,
                Ok(d@.raydium),
            ),
            r matches Err(e) ==> pumpfun_outcome(*targets, Err(e)) || (raydium_outcome(
                *targets,
                Err(e),
            ) && exists|t: Option<Target>| pumpfun_outcome(*targets, Ok(t))),
    {
        let pumpfun = match build_matcher(
            Venue::PumpFun,
            targets.pumpfun.enabled,
            targets.pumpfun.program_id.as_str(),
            targets.pumpfun.create_discriminator.as_str(),
        ) {
            Ok(m) => m,
            Err(e) => {
                return Err(e);
            },
        };
        assert(pumpfun_outcome(*targets, Ok(target_of(pumpfun))));
        match build_matcher(
            Venue::RaydiumLaunchLab,
            targets.raydium_launchlab.enabled,
            targets.raydium_launchlab.program_id.as_str(),
            targets.raydium_launchlab.initialize_discriminator.as_str(),
        ) {
            Ok(raydium) => Ok(Detector { pumpfun, raydium }),
            Err(e) => Err(e),
        }
    }

    /// Returns all program ids this detector watches, to narrow the
    /// subscription filter.
    pub fn watched_program_ids(&self) -> (r: Vec<Pubkey>)
        ensures
            keys(r@) == self@.program_ids(),
    {
        let mut out: Vec<Pubkey> = Vec::new();
        if let Some(m) = &self.pumpfun {
            out.push(m.program_id);
        }
        if let Some(m) = &self.raydium {
            out.push(m.program_id);
        }
        assert(keys(out@) =~= self@.program_ids());
        out
    }

    /// Try to decode an instruction invocation into a launch event. The clock is read only for
    /// an instruction that is recognised.
    ///
    /// `program_id` is the invoked program, `data` the raw instruction data,
    /// `accounts` the ordered account pubkeys for the instruction.
    pub fn decode(
        &self,
        program_id: &Pubkey,
        data: &[u8],
        accounts: &[Pubkey],
        signature: String,
        slot: u64,
    ) -> (r: Option<LaunchEvent>)
        ensures
            ({
                let ix = Instruction {
                    program_id: program_id@,
                    data: data@,
                    accounts: keys(accounts@),
                };
                let origin = Origin { signature: signature@, slot };
                &&& r is Some <==> self@.launch(ix, origin, 0) is Some
                &&& r matches Some(e) ==> self@.launch(ix, origin, e.observed_at_ms) == Some(e@)
            }),
    {
        if self.recognise(program_id, data).is_none() {
            return None;
        }
        let observed_at_ms = stamp_of(now_millis());
        self.decode_at(program_id, data, accounts, signature, slot, observed_at_ms)
    }

    /// `decode` with the time of observation given.
    pub fn decode_at(
        &self,
        program_id: &Pubkey,
        data: &[u8],
        accounts: &[Pubkey],
        signature: String,
        slot: u64,
        observed_at_ms: u64,
    ) -> (r: Option<LaunchEvent>)
        ensures
            event_of(r) == self@.launch(
                Instruction { program_id: program_id@, data: data@, accounts: keys(accounts@) },
                Origin { signature: signature@, slot },
                observed_at_ms,
            ),
    {
        match self.recognise(program_id, data) {
            None => None,
            Some(Venue::PumpFun) => decode_pumpfun(
                data,
                accounts,
                signature,
                slot,
                observed_at_ms,
            ),
            Some(Venue::RaydiumLaunchLab) => decode_raydium(
                accounts,
                signature,
                slot,
                observed_at_ms,
            ),
        }
    }

    /// The venue whose program and discriminator an instruction has.
    fn recognise(&self, program_id: &Pubkey, data: &[u8]) -> (r: Option<Venue>)
        ensures
            r == self@.recognised(program_id@, data@),
    {
        let matcher = match self.matcher_for(program_id) {
            Some(m) => m,
            None => {
                return None;
            },
        };
        if data.len() < 8 || !starts_with(data, &matcher.discriminator) {
            return None;
        }
        Some(matcher.venue)
    }

    fn matcher_for(&self, program_id: &Pubkey) -> (r: Option<&ProgramMatcher>)
        ensures
            r is Some <==> self@.matching(program_id@) is Some,
            r matches Some(m) ==> self@.matching(program_id@) == Some(
                (m.venue, m.discriminator@),
            ),
    {
        proof {
            use_type_invariant(self);
        }
        if let Some(m) = &self.pumpfun {
            if m.program_id.same(program_id) {
                return Some(m);
            }
        }
        if let Some(m) = &self.raydium {
            if m.program_id.same(program_id) {
                return Some(m);
            }
        }
        None
    }
}

pub open spec fn event_of(e: Option<LaunchEvent>) -> Option<Launch> {
    match e {
        Some(event) => Some(event@),
        None => None,
    }
}

/// Whether `data` begins with the eight bytes.
fn starts_with(data: &[u8], prefix: &[u8; 8]) -> (r: bool)
    requires
        data@.len() >= 8,
    ensures
        r == (data@.take(8) == prefix@),
{
    let mut i: usize = 0;
    while i < 8
        invariant
            i <= 8,
            data@.len() >= 8,
            forall|k: int| 0 <= k < i ==> data@[k] == prefix@[k],
        decreases 8 - i,
    {
        if data[i] != prefix[i] {
            assert(data@.take(8)[i as int] != prefix@[i as int]);
            return false;
        }
        i = i + 1;
    }
    assert(data@.take(8) =~= prefix@);
    true
}

/// Reads the launch out of a `create` instruction of Pump.fun. An instruction of another shape
/// gives nothing.
pub fn decode_pumpfun(
    data: &[u8],
    accounts: &[Pubkey],
    signature: String,
    slot: u64,
    observed_at_ms: u64,
) -> (r: Option<LaunchEvent>)
    ensures
        forall|program: Seq<u8>|
            event_of(r) == #[trigger] pumpfun_launch(
                Instruction { program_id: program, data: data@, accounts: keys(accounts@) },
                Origin { signature: signature@, slot },
                observed_at_ms,
            ),
{
    if data.len() < 8 || accounts.len() < 8 {
        return None;
    }
    let mint = accounts[0];
    let pool = accounts[2];
    let creator = accounts[7];
    let args = vstd::slice::slice_subrange(data, 8, data.len());
    assert(args@ =~= data@.skip(8));
    let (name, symbol, uri) = decode_borsh_strings(args);
    Some(
        LaunchEvent {
            venue: Venue::PumpFun,
            signature,
            slot,
            mint,
            creator,
            pool: Some(pool),
            name,
            symbol,
            uri,
            observed_at_ms,
        },
    )
}

fn decode_raydium(
    accounts: &[Pubkey],
    signature: String,
    slot: u64,
    observed_at_ms: u64,
) -> (r: Option<LaunchEvent>)
    ensures
        forall|program: Seq<u8>, data: Seq<u8>|
            event_of(r) == #[trigger] raydium_launch(
                Instruction { program_id: program, data, accounts: keys(accounts@) },
                Origin { signature: signature@, slot },
                observed_at_ms,
            ),
{
    if accounts.len() < 2 {
        return None;
    }
    let pool = accounts[0];
    let mint = accounts[1];
    let creator = accounts[accounts.len() - 1];
    Some(
        LaunchEvent {
            venue: Venue::RaydiumLaunchLab,
            signature,
            slot,
            mint,
            creator,
            pool: Some(pool),
            name: None,
            symbol: None,
            uri: None,
            observed_at_ms,
        },
    )
}

// ---- laws ----------------------------------------------------------------

/// A string as its byte count and its UTF-8 bytes.
pub open spec fn borsh_bytes(text: Seq<char>) -> Seq<u8> {
    little_endian(encode_utf8(text).len(), 4) + encode_utf8(text)
}

/// Reading gives back what was written, and leaves what follows it.
pub proof fn borsh_round_trip(text: Seq<char>, rest: Seq<u8>)
    requires
        encode_utf8(text).len() <= u32::MAX,
    ensures
        borsh_string(borsh_bytes(text) + rest) == (Some(text), rest),
{
    let body = encode_utf8(text);
    let all = borsh_bytes(text) + rest;
    let n = body.len();
    reveal_with_fuel(little_endian, 5);
    assert(le_u32(all) == n);
    assert(all.subrange(4, 4 + n as int) =~= body);
    assert(all.skip(4 + n as int) =~= rest);
    vstd::utf8::encode_utf8_valid_utf8(text);
    vstd::utf8::encode_utf8_decode_utf8(text);
}

/// The metadata of a `create` instruction is read back as it was written.
pub proof fn create_metadata_round_trip(
    name: Seq<char>,
    symbol: Seq<char>,
    uri: Seq<char>,
    rest: Seq<u8>,
)
    requires
        encode_utf8(name).len() <= u32::MAX,
        encode_utf8(symbol).len() <= u32::MAX,
        encode_utf8(uri).len() <= u32::MAX,
    ensures
        borsh_strings(borsh_bytes(name) + borsh_bytes(symbol) + borsh_bytes(uri) + rest) == (
            Some(name),
            Some(symbol),
            Some(uri),
        ),
{
    let third = borsh_bytes(uri) + rest;
    let second = borsh_bytes(symbol) + third;
    assert(borsh_bytes(name) + borsh_bytes(symbol) + borsh_bytes(uri) + rest =~= borsh_bytes(name)
        + second);
    borsh_round_trip(name, second);
    borsh_round_trip(symbol, third);
    borsh_round_trip(uri, rest);
}

/// Only a watched program's instruction that starts with that program's discriminator is
/// ever taken for a launch.
pub proof fn launches_come_from_watched_programs(
    watch: Watch,
    ix: Instruction,
    origin: Origin,
    observed_at_ms: u64,
)
    requires
        watch.launch(ix, origin, observed_at_ms) is Some,
    ensures
        watch.program_ids().contains(ix.program_id),
        ix.data.len() >= 8,
        watch.matching(ix.program_id) is Some,
        ix.data.take(8) == (watch.matching(ix.program_id)->0).1,
{
    let ids = watch.program_ids();
    if watch.pumpfun matches Some(t) && t.program_id == ix.program_id {
        assert(ids[0] == ix.program_id);
    } else {
        assert(ids.last() == ix.program_id);
    }
}

/// The clock decides nothing but the time stamp.
pub proof fn time_only_stamps(watch: Watch, ix: Instruction, origin: Origin, s: u64, t: u64)
    ensures
        watch.launch(ix, origin, s) is Some <==> watch.launch(ix, origin, t) is Some,
        watch.launch(ix, origin, s) matches Some(l) ==> watch.launch(ix, origin, t) == Some(
            Launch { observed_at_ms: t, ..l },
        ),
{
}

/// Which instructions are launches: those of a watched program that start with its
/// discriminator and name enough accounts, eight for Pump.fun and two for Raydium. A program
/// that both venues are configured with counts as Pump.fun's.
pub proof fn watched_calls_are_launches(
    watch: Watch,
    ix: Instruction,
    origin: Origin,
    observed_at_ms: u64,
)
    ensures
        ({
            let starts = |t: Target| ix.data.len() >= 8 && ix.data.take(8) == t.discriminator;
            let pumpfun = watch.pumpfun is Some && (watch.pumpfun->0).program_id == ix.program_id;
            let raydium = watch.raydium is Some && (watch.raydium->0).program_id == ix.program_id;
            let launch = watch.launch(ix, origin, observed_at_ms);
            &&& pumpfun ==> (launch is Some <==> starts(watch.pumpfun->0) && ix.accounts.len()
                >= 8)
            &&& !pumpfun && raydium ==> (launch is Some <==> starts(watch.raydium->0)
                && ix.accounts.len() >= 2)
            &&& !pumpfun && !raydium ==> launch is None
            &&& launch matches Some(l) ==> {
                &&& l.venue == if pumpfun {
                    Venue::PumpFun
                } else {
                    Venue::RaydiumLaunchLab
                }
                &&& l.signature == origin.signature
                &&& l.slot == origin.slot
                &&& l.observed_at_ms == observed_at_ms
            }
        }),
{
}

/// A Raydium launch takes its roles from fixed places: the pool is the first account, the mint
/// the second and the creator the last one, however many there are. It carries no metadata.
pub proof fn raydium_creator_is_the_last_account(
    watch: Watch,
    ix: Instruction,
    origin: Origin,
    observed_at_ms: u64,
)
    requires
        watch.recognised(ix.program_id, ix.data) == Some(Venue::RaydiumLaunchLab),
        ix.accounts.len() >= 2,
    ensures
        watch.launch(ix, origin, observed_at_ms) matches Some(l) && {
            &&& l.venue == Venue::RaydiumLaunchLab
            &&& l.creator == ix.accounts[ix.accounts.len() - 1]
            &&& l.mint == ix.accounts[1]
            &&& l.pool == Some(ix.accounts[0])
            &&& l.name is None && l.symbol is None && l.uri is None
        },
{
}

/// The accounts between the second and the last one play no part in a Raydium launch: two
/// instructions of one program that agree on the first, the second and the last account, and
/// that both are recognised, give the same launch.
pub proof fn raydium_ignores_the_accounts_between(
    watch: Watch,
    a: Instruction,
    b: Instruction,
    origin: Origin,
    observed_at_ms: u64,
)
    requires
        watch.recognised(a.program_id, a.data) == Some(Venue::RaydiumLaunchLab),
        watch.recognised(b.program_id, b.data) == Some(Venue::RaydiumLaunchLab),
        a.accounts.len() >= 2,
        b.accounts.len() >= 2,
        a.accounts[0] == b.accounts[0],
        a.accounts[1] == b.accounts[1],
        a.accounts.last() == b.accounts.last(),
    ensures
        watch.launch(a, origin, observed_at_ms) == watch.launch(b, origin, observed_at_ms),
        watch.launch(a, origin, observed_at_ms) is Some,
{
}

/// A Pump.fun launch takes its roles from fixed places, the mint from the first account, the
/// bonding curve from the third and the creator from the eighth, and its metadata from the data
/// behind the discriminator as they were written there.
pub proof fn pumpfun_roles_have_fixed_places(
    watch: Watch,
    ix: Instruction,
    origin: Origin,
    observed_at_ms: u64,
    name: Seq<char>,
    symbol: Seq<char>,
    uri: Seq<char>,
    rest: Seq<u8>,
)
    requires
        watch.recognised(ix.program_id, ix.data) == Some(Venue::PumpFun),
        ix.accounts.len() >= 8,
        encode_utf8(name).len() <= u32::MAX,
        encode_utf8(symbol).len() <= u32::MAX,
        encode_utf8(uri).len() <= u32::MAX,
    ensures
        watch.launch(ix, origin, observed_at_ms) matches Some(l) && {
            &&& l.venue == Venue::PumpFun
            &&& l.mint == ix.accounts[0]
            &&& l.pool == Some(ix.accounts[2])
            &&& l.creator == ix.accounts[7]
            &&& ix.data.skip(8) == borsh_bytes(name) + borsh_bytes(symbol) + borsh_bytes(uri) + rest
                ==> l.name == Some(name) && l.symbol == Some(symbol) && l.uri == Some(uri)
        },
{
    create_metadata_round_trip(name, symbol, uri, rest);
}

/// No other account plays a part in a Pump.fun launch.
pub proof fn pumpfun_ignores_the_other_accounts(
    watch: Watch,
    a: Instruction,
    b: Instruction,
    origin: Origin,
    observed_at_ms: u64,
)
    requires
        a.program_id == b.program_id,
        a.data == b.data,
        watch.recognised(a.program_id, a.data) == Some(Venue::PumpFun),
        a.accounts.len() >= 8,
        b.accounts.len() >= 8,
        a.accounts[0] == b.accounts[0],
        a.accounts[2] == b.accounts[2],
        a.accounts[7] == b.accounts[7],
    ensures
        watch.launch(a, origin, observed_at_ms) == watch.launch(b, origin, observed_at_ms),
{
}

/// What is behind the discriminator decides the metadata and nothing else.
pub proof fn metadata_are_all_that_data_add(
    watch: Watch,
    a: Instruction,
    b: Instruction,
    origin: Origin,
    observed_at_ms: u64,
)
    requires
        a.program_id == b.program_id,
        a.accounts == b.accounts,
        a.data.len() >= 8,
        b.data.len() >= 8,
        a.data.take(8) == b.data.take(8),
    ensures
        watch.launch(a, origin, observed_at_ms) is Some <==> watch.launch(
            b,
            origin,
            observed_at_ms,
        ) is Some,
        watch.launch(a, origin, observed_at_ms) matches Some(l) ==> watch.launch(
            b,
            origin,
            observed_at_ms,
        ) == Some(
            Launch {
                name: (watch.launch(b, origin, observed_at_ms)->0).name,
                symbol: (watch.launch(b, origin, observed_at_ms)->0).symbol,
                uri: (watch.launch(b, origin, observed_at_ms)->0).uri,
                ..l
            },
        ),
{
}

/// A string is read exactly where one was written: reading succeeds only on the bytes of some
/// string followed by what is left, and where it fails nothing is consumed and there is no such
/// string.
pub proof fn borsh_reads_only_what_was_written(bytes: Seq<u8>)
    ensures
        borsh_string(bytes) matches (Some(text), rest) ==> bytes == borsh_bytes(text) + rest,
        borsh_string(bytes) matches (None, rest) ==> rest == bytes && forall|text: Seq<char>, after:
            Seq<u8>|
            encode_utf8(text).len() <= u32::MAX ==> bytes != #[trigger] (borsh_bytes(text)
                + after),
{
    let (read, rest) = borsh_string(bytes);
    match read {
        Some(text) => {
            let n = le_u32(bytes);
            let body = bytes.subrange(4, 4 + n as int);
            vstd::utf8::decode_utf8_encode_utf8(body);
            assert(encode_utf8(text) == body);
            lemma_le_u32(bytes);
            assert(little_endian(n, 4) =~= bytes.take(4));
            assert(bytes =~= borsh_bytes(text) + rest);
        },
        None => {
            assert forall|text: Seq<char>, after: Seq<u8>|
                encode_utf8(text).len() <= u32::MAX implies bytes != #[trigger] (borsh_bytes(text)
                + after) by {
                borsh_round_trip(text, after);
            }
        },
    }
}

/// The four bytes of a number, from the number that they stand for.
proof fn lemma_le_u32(bytes: Seq<u8>)
    requires
        bytes.len() >= 4,
    ensures
        little_endian(le_u32(bytes), 4) == bytes.take(4),
{
    reveal_with_fuel(little_endian, 5);
    let n = le_u32(bytes);
    assert(n % 256 == bytes[0]);
    let n1 = n / 256;
    assert(n1 == bytes[1] + 256 * bytes[2] + 65536 * bytes[3]);
    let n2 = n1 / 256;
    assert(n2 == bytes[2] + 256 * bytes[3]);
    let n3 = n2 / 256;
    assert(n3 == bytes[3]);
    assert(little_endian(n, 4) =~= bytes.take(4));
}

/// Three strings are read one after another, each from where the one before it left off.
pub proof fn metadata_are_read_in_turn(bytes: Seq<u8>, second: Seq<u8>, third: Seq<u8>)
    requires
        borsh_string(bytes).1 == second,
        borsh_string(second).1 == third,
    ensures
        borsh_strings(bytes) == (
            borsh_string(bytes).0,
            borsh_string(second).0,
            borsh_string(third).0,
        ),
{
}

/// A detector asks for the programs that it watches and for no others, Pump.fun's first.
pub proof fn watched_programs_are_listed(watch: Watch)
    ensures
        forall|id: Seq<u8>| #[trigger]
            watch.program_ids().contains(id) <==> (watch.pumpfun matches Some(t) && t.program_id
                == id) || (watch.raydium matches Some(t) && t.program_id == id),
        watch.pumpfun matches Some(t) ==> watch.program_ids()[0] == t.program_id,
        watch.program_ids().len() == (if watch.pumpfun is Some {
            1int
        } else {
            0
        }) + (if watch.raydium is Some {
            1int
        } else {
            0
        }),
{
    let ids = watch.program_ids();
    if let Some(t) = watch.pumpfun {
        assert(ids[0] == t.program_id);
    }
    if let Some(t) = watch.raydium {
        assert(ids[ids.len() - 1] == t.program_id);
    }
}

/// What is left of a text behind its `0x` prefixes does not start with another one, and a text
/// with one more prefix leaves the same.
pub proof fn prefixes_are_all_cut(text: Seq<u8>)
    ensures
        ({
            let left = without_0x(text);
            &&& !(left.len() >= 2 && left[0] == 48 && left[1] == 120)
            &&& left.len() <= text.len() && (text.len() - left.len()) % 2 == 0
            &&& left == text.skip(text.len() - left.len())
            &&& !(text.len() >= 2 && text[0] == 48 && text[1] == 120) ==> left == text
        }),
        without_0x(seq![48u8, 120u8] + text) == without_0x(text),
    decreases text.len(),
{
    assert((seq![48u8, 120u8] + text).skip(2) =~= text);
    if text.len() >= 2 && text[0] == 48 && text[1] == 120 {
        prefixes_are_all_cut(text.skip(2));
        let left = without_0x(text);
        assert(text.skip(2).skip(text.skip(2).len() - left.len()) =~= text.skip(
            text.len() - left.len(),
        ));
    } else {
        assert(text.skip(0) =~= text);
    }
}

/// The hexadecimal digit of a value below sixteen, small or capital.
pub open spec fn hex_digit(v: int, capital: bool) -> u8 {
    if v < 10 {
        (48 + v) as u8
    } else if capital {
        (55 + v) as u8
    } else {
        (87 + v) as u8
    }
}

/// Some bytes in hexadecimal, the higher digit of each first.
pub open spec fn hex_text(bytes: Seq<u8>, capital: bool) -> Seq<u8> {
    Seq::new(
        2 * bytes.len(),
        |i: int|
            hex_digit(
                if i % 2 == 0 {
                    bytes[i / 2] as int / 16
                } else {
                    bytes[i / 2] as int % 16
                },
                capital,
            ),
    )
}

/// A discriminator of eight bytes is read back from its hexadecimal text, in capital letters or
/// small ones, with or without a `0x` in front, and no other outcome is possible.
pub proof fn discriminators_read_back(
    bytes: Seq<u8>,
    capital: bool,
    prefixed: bool,
    r: Result<Seq<u8>, DiscriminatorError>,
)
    requires
        bytes.len() == 8,
        discriminator_outcome(
            (if prefixed {
                seq![48u8, 120u8]
            } else {
                Seq::empty()
            }) + hex_text(bytes, capital),
            r,
        ),
    ensures
        r == Ok::<Seq<u8>, DiscriminatorError>(bytes),
{
    let digits = hex_text(bytes, capital);
    let text = (if prefixed {
        seq![48u8, 120u8]
    } else {
        Seq::empty()
    }) + digits;
    assert forall|i: int| 0 <= i < digits.len() implies is_hex_digit(#[trigger] digits[i])
        && hex_digit_value(digits[i]) == (if i % 2 == 0 {
        bytes[i / 2] as int / 16
    } else {
        bytes[i / 2] as int % 16
    }) by {}
    assert(digits[1] != 120) by {
        assert(is_hex_digit(digits[1]));
    }
    prefixes_are_all_cut(digits);
    assert(!prefixed ==> text =~= digits);
    assert(without_0x(text) == digits);
    assert forall|i: int| 0 <= i < 8 implies #[trigger] hex_bytes(digits)[i] == bytes[i] by {
        assert(is_hex_digit(digits[2 * i]) && is_hex_digit(digits[2 * i + 1]));
        assert((2 * i) / 2 == i && (2 * i + 1) / 2 == i && (2 * i) % 2 == 0 && (2 * i + 1) % 2
            == 1);
    }
    assert(hex_bytes(digits) =~= bytes);
}

/// A text has one outcome as a discriminator.
pub proof fn discriminators_have_one_outcome(
    text: Seq<u8>,
    a: Result<Seq<u8>, DiscriminatorError>,
    b: Result<Seq<u8>, DiscriminatorError>,
)
    requires
        discriminator_outcome(text, a),
        discriminator_outcome(text, b),
    ensures
        a == b,
        a matches Ok(bytes) ==> bytes.len() == 8,
{
    let digits = without_0x(text);
    if let Err(DiscriminatorError::Hex(HexError::InvalidDigit { index: i, .. })) = a {
        if let Err(DiscriminatorError::Hex(HexError::InvalidDigit { index: k, .. })) = b {
            assert(!is_hex_digit(digits[i as int]) && !is_hex_digit(digits[k as int]));
            assert(i == k);
        }
    }
}

/// A launch event is seen as it is, field by field.
pub proof fn events_are_seen_as_they_are(e: LaunchEvent)
    ensures
        e@.venue == e.venue,
        e@.signature == e.signature@,
        e@.slot == e.slot,
        e@.mint == e.mint@,
        e@.creator == e.creator@,
        e@.observed_at_ms == e.observed_at_ms,
        e.pool is Some <==> e@.pool is Some,
        e.pool matches Some(key) ==> e@.pool == Some(key@),
        e.name is Some <==> e@.name is Some,
        e.name matches Some(text) ==> e@.name == Some(text@),
        e.symbol is Some <==> e@.symbol is Some,
        e.symbol matches Some(text) ==> e@.symbol == Some(text@),
        e.uri is Some <==> e@.uri is Some,
        e.uri matches Some(text) ==> e@.uri == Some(text@),
{
}

/// Each venue is set up from its own settings: one that is switched off is not watched, whatever
/// its texts are, and one that is switched on is watched by the program that its text spells,
/// under the discriminator that its text spells.
pub proof fn venues_follow_their_own_settings(
    targets: TargetsConfig,
    pumpfun: Result<Option<Target>, DetectorError>,
    raydium: Result<Option<Target>, DetectorError>,
)
    requires
        pumpfun_outcome(targets, pumpfun),
        raydium_outcome(targets, raydium),
    ensures
        !targets.pumpfun.enabled <==> pumpfun == Ok::<Option<Target>, DetectorError>(None),
        !targets.raydium_launchlab.enabled <==> raydium == Ok::<Option<Target>, DetectorError>(
            None,
        ),
        pumpfun matches Ok(Some(t)) ==> {
            &&& t.program_id.len() == 32 && base58(t.program_id) == targets.pumpfun.program_id@
            &&& t.discriminator.len() == 8
            &&& discriminator_outcome(
                encode_utf8(targets.pumpfun.create_discriminator@),
                Ok(t.discriminator),
            )
        },
        raydium matches Ok(Some(t)) ==> {
            &&& t.program_id.len() == 32 && base58(t.program_id)
                == targets.raydium_launchlab.program_id@
            &&& t.discriminator.len() == 8
            &&& discriminator_outcome(
                encode_utf8(targets.raydium_launchlab.initialize_discriminator@),
                Ok(t.discriminator),
            )
        },
        pumpfun matches Err(DetectorError::ProgramId { venue, .. }) ==> venue == Venue::PumpFun,
        raydium matches Err(DetectorError::ProgramId { venue, .. }) ==> venue
            == Venue::RaydiumLaunchLab,
{
    if let Ok(Some(t)) = pumpfun {
        discriminators_have_one_outcome(
            encode_utf8(targets.pumpfun.create_discriminator@),
            Ok(t.discriminator),
            Ok(t.discriminator),
        );
        let text = targets.pumpfun.program_id@;
        assert(exists|key: Seq<u8>| is_address(text, key));
    }
    if let Ok(Some(t)) = raydium {
        discriminators_have_one_outcome(
            encode_utf8(targets.raydium_launchlab.initialize_discriminator@),
            Ok(t.discriminator),
            Ok(t.discriminator),
        );
        let text = targets.raydium_launchlab.program_id@;
        assert(exists|key: Seq<u8>| is_address(text, key));
    }
}

/// A venue that is switched on, with the text of an address and a discriminator in hexadecimal,
/// is watched by exactly those; the program's text is looked at before the discriminator's.
pub proof fn well_written_venues_are_watched(
    venue: Venue,
    key: Seq<u8>,
    discriminator: Seq<char>,
    bytes: Seq<u8>,
    r: Result<Option<Target>, DetectorError>,
)
    requires
        key.len() == 32,
        discriminator_outcome(encode_utf8(discriminator), Ok(bytes)),
        target_outcome(venue, true, base58(key), discriminator, r),
    ensures
        r == Ok::<Option<Target>, DetectorError>(
            Some(Target { program_id: key, discriminator: bytes }),
        ),
{
    address_text_round_trip(key);
    match r {
        Ok(Some(t)) => discriminators_have_one_outcome(
            encode_utf8(discriminator),
            Ok(t.discriminator),
            Ok(bytes),
        ),
        Err(DetectorError::Discriminator { fault, .. }) => discriminators_have_one_outcome(
            encode_utf8(discriminator),
            Err(fault),
            Ok(bytes),
        ),
        _ => {},
    }
}

/// Accounts are seen one by one, in their order, and an event that is there is seen as itself.
pub proof fn keys_keep_their_order(accounts: Seq<Pubkey>, event: LaunchEvent)
    ensures
        keys(accounts).len() == accounts.len(),
        forall|i: int| 0 <= i < accounts.len() ==> #[trigger] keys(accounts)[i] == accounts[i]@,
        event_of(Some(event)) == Some(event@),
        event_of(None) is None,
{
}

} // verus!

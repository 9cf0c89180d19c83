//! A fixed launch and its settings, to exercise the hot path with.
use vstd::arithmetic::power2::{
    lemma2_to64, lemma2_to64_rest, lemma_pow2_adds, lemma_pow2_pos, lemma_pow2_unfold, pow2,
};
use vstd::pervasive::unreached;
use vstd::prelude::*;
use vstd::string::*;
use vstd::utf8::{encode_utf8, is_ascii_chars, is_ascii_chars_encode_utf8};

use crate::base58::{base58_value, span};
use crate::binary64::{decode_bits, equal, hundred, one, product, Binary64, Num, SIGN, STEP};
use crate::config::{
    ladder_total, whole_shares_add_up, whole_total, FilterConfig, PumpFunTarget, RaydiumTarget,
    StrategyConfig, TakeProfitRung, TargetsConfig,
};
use crate::detector::{
    borsh_bytes, discriminator_outcome, discriminators_have_one_outcome, is_hex_digit, keys,
    parse_discriminator, pumpfun_roles_have_fixed_places, target_outcome, without_0x, Detector,
    DetectorError, DiscriminatorError, Instruction, LaunchEvent, Origin, Target, Venue,
};
use crate::filters::{
    accepted_launches_break_no_rule, compile_error_fits, regex_matches, syntax_fault, FilterEngine,
    FilterError, FilterVerdict, LaunchFacts, ListName, Rules,
};
use crate::listener::texts;
use crate::pubkey::{base58_texts_are_addresses, pubkey_from_text, Pubkey};
use crate::rounding::{lemma_nearest_exact, lemma_pow2_weak, scaled};
use crate::strategy::{plan_of, Position, PositionState, StrategyAction};
use crate::transaction::little_endian;

verus! {

pub struct BenchFixture {
    pub detector: Detector,
    pub filters: FilterEngine,
    pub sample_event: LaunchEvent,
    pub sample_ix_data: Vec<u8>,
    pub sample_accounts: Vec<Pubkey>,
    pub sample_program: Pubkey,
    pub facts: LaunchFacts,
    pub strategy_cfg: StrategyConfig,
}

/// Calls `solana_sdk::pubkey::Pubkey::new_unique`, which counts up within the process: of the
/// address nothing is promised.
#[verifier::external_body]
fn unique_pubkey() -> (r: Pubkey)
{
    Pubkey { bytes: solana_sdk::pubkey::Pubkey::new_unique().to_bytes() }
}

/// Appends a length-prefixed string.
pub fn push_string(out: &mut Vec<u8>, text: &str)
    ensures
        final(out)@ == old(out)@ + borsh_bytes(text@),
{
    let ghost start = out@;
    let bytes = text.as_bytes();
    let n: usize = bytes.len();
    out.push((n % 256) as u8);
    out.push(((n / 256) % 256) as u8);
    out.push(((n / 65536) % 256) as u8);
    out.push(((n / 16777216) % 256) as u8);
    let ghost head = out@;
    proof {
        reveal_with_fuel(little_endian, 5);
    }
    assert(head =~= start + little_endian(n as nat, 4));
    let mut i: usize = 0;
    while i < bytes.len()
        invariant
            i <= bytes@.len(),
            out@ == head + bytes@.take(i as int),
        decreases bytes@.len() - i,
    {
        out.push(bytes[i]);
        i = i + 1;
        assert(out@ =~= head + bytes@.take(i as int));
    }
    assert(out@ =~= start + borsh_bytes(text@));
}

/// The outcome of watching the sample's Pump.fun program.
pub open spec fn sample_pumpfun(r: Result<Option<Target>, DetectorError>) -> bool {
    target_outcome(
        Venue::PumpFun,
        true,
        "6EF8rrecthR5Dkzon8Nwu78hRvfCKubJ14M5uBEwF6P"@,
        "181ec828051c0777"@,
        r,
    )
}

/// The outcome of watching the sample's Raydium LaunchLab program.
pub open spec fn sample_raydium(r: Result<Option<Target>, DetectorError>) -> bool {
    target_outcome(
        Venue::RaydiumLaunchLab,
        true,
        "LanMV9sAd7wArD4vJFi2qDdfnVhFxYSUg6eADduJ3uj"@,
        "afaf6d1f0d989bed"@,
        r,
    )
}

/// The sample instruction: a `create` of the Pump.fun program with the metadata of a token.
pub open spec fn sample_data(discriminator: Seq<u8>) -> Seq<u8> {
    discriminator + borsh_bytes("DogeMoon"@) + borsh_bytes("DOGE"@) + borsh_bytes("https://example.com/m.json"@)
}

/// Thirty-one and thirty-two bytes.
proof fn lemma_span_32()
    ensures
        span(31) == 452312848583266388373324160190187140051835877600158453279131187530910662656nat,
        span(32) == 115792089237316195423570985008687907853269984665640564039457584007913129639936nat,
{
    reveal_with_fuel(span, 9);
    assert(span(8) == 18446744073709551616nat);
    assert(span(16) == 340282366920938463463374607431768211456nat);
    assert(span(24) == 6277101735386680763835789423207666416102355444464034512896nat);
    assert(span(31) == 452312848583266388373324160190187140051835877600158453279131187530910662656nat);
}

/// The Pump.fun program's text is an address.
proof fn lemma_pumpfun_id()
    ensures
        pubkey_from_text("6EF8rrecthR5Dkzon8Nwu78hRvfCKubJ14M5uBEwF6P"@) is Ok,
{
    let text = "6EF8rrecthR5Dkzon8Nwu78hRvfCKubJ14M5uBEwF6P"@;
    reveal_strlit("6EF8rrecthR5Dkzon8Nwu78hRvfCKubJ14M5uBEwF6P");
    reveal_with_fuel(base58_value, 6);
    assert(base58_value(text, 5) == Some(59166487nat));
    assert(base58_value(text, 10) == Some(38834324743082202nat));
    assert(base58_value(text, 15) == Some(25489171875831864735462407nat));
    assert(base58_value(text, 20) == Some(16729990471417500049181280973384252nat));
    assert(base58_value(text, 25) == Some(10980842474490386710920466625790382254471892nat));
    assert(base58_value(text, 30) == Some(7207350276473632668649907779555640742029725187191700nat));
    assert(base58_value(text, 35) == Some(4730593133310139975614268393687196833607752183793339596503562nat));
    assert(base58_value(text, 40) == Some(3104956819702436616021780017565080116686618003099538357487502110253872nat));
    assert(base58_value(text, 43) == Some(605814335005781813025241542787157911726959411820757128006101511735853521072nat));
    lemma_span_32();
    base58_texts_are_addresses(text);
}

/// The Raydium LaunchLab program's text is an address.
proof fn lemma_raydium_id()
    ensures
        pubkey_from_text("LanMV9sAd7wArD4vJFi2qDdfnVhFxYSUg6eADduJ3uj"@) is Ok,
{
    let text = "LanMV9sAd7wArD4vJFi2qDdfnVhFxYSUg6eADduJ3uj"@;
    reveal_strlit("LanMV9sAd7wArD4vJFi2qDdfnVhFxYSUg6eADduJ3uj");
    reveal_with_fuel(base58_value, 6);
    assert(base58_value(text, 5) == Some(221604688nat));
    assert(base58_value(text, 10) == Some(145451736889648322nat));
    assert(base58_value(text, 15) == Some(95468231924875945897555623nat));
    assert(base58_value(text, 20) == Some(62661220152885994650262468415647131nat));
    assert(base58_value(text, 25) == Some(41128115938484717321111564120996232077289113nat));
    assert(base58_value(text, 30) == Some(26994717251313115878278404393881847826427408734983469nat));
    assert(base58_value(text, 35) == Some(17718165368145720493876294912165288613221718983908718534580139nat));
    assert(base58_value(text, 40) == Some(11629437755925655256392008720363652715961409539682570504378716375344697nat));
    assert(base58_value(text, 43) == Some(2269042859434166448385157605447593008716662538106545696250340109426254530850nat));
    lemma_span_32();
    base58_texts_are_addresses(text);
}

/// Sixteen hexadecimal digits are a discriminator.
proof fn lemma_sample_discriminators(r: Result<Seq<u8>, DiscriminatorError>)
    ensures
        discriminator_outcome(encode_utf8("181ec828051c0777"@), r) ==> r is Ok,
        discriminator_outcome(encode_utf8("afaf6d1f0d989bed"@), r) ==> r is Ok,
{
    reveal_strlit("181ec828051c0777");
    reveal_strlit("afaf6d1f0d989bed");
    let create = "181ec828051c0777"@;
    let initialize = "afaf6d1f0d989bed"@;
    assert(is_ascii_chars(create) && is_ascii_chars(initialize));
    is_ascii_chars_encode_utf8(create);
    is_ascii_chars_encode_utf8(initialize);
    assert forall|i: int| 0 <= i < 16 implies is_hex_digit(encode_utf8(create)[i])
        && is_hex_digit(encode_utf8(initialize)[i]) by {
        assert(create[i] as u8 == encode_utf8(create)[i]);
        assert(initialize[i] as u8 == encode_utf8(initialize)[i]);
    }
    assert(create[0] as u8 == encode_utf8(create)[0]);
    assert(initialize[0] as u8 == encode_utf8(initialize)[0]);
    assert(without_0x(encode_utf8(create)) == encode_utf8(create));
    assert(without_0x(encode_utf8(initialize)) == encode_utf8(initialize));
}

/// A detector for both venues. The addresses and discriminators are well-formed.
fn sample_detector() -> (r: Detector)
    ensures
        sample_pumpfun(Ok(r@.pumpfun)),
        sample_raydium(Ok(r@.raydium)),
{
    let targets = TargetsConfig {
        pumpfun: PumpFunTarget {
            enabled: true,
            program_id: "6EF8rrecthR5Dkzon8Nwu78hRvfCKubJ14M5uBEwF6P".to_owned(),
            create_discriminator: "181ec828051c0777".to_owned(),
        },
        raydium_launchlab: RaydiumTarget {
            enabled: true,
            program_id: "LanMV9sAd7wArD4vJFi2qDdfnVhFxYSUg6eADduJ3uj".to_owned(),
            initialize_discriminator: "afaf6d1f0d989bed".to_owned(),
        },
    };
    proof {
        lemma_pumpfun_id();
        lemma_raydium_id();
    }
    match Detector::new(&targets) {
        Ok(detector) => detector,
        Err(e) => {
            proof {
                if let DetectorError::Discriminator { fault, .. } = e {
                    lemma_sample_discriminators(Err(fault));
                }
            }
            unreached()
        },
    }
}

/// Filters that deny one name and ask for a minimum of safety.
pub open spec fn sample_rules(rules: Rules) -> bool {
    &&& rules.min_liquidity == one()
    &&& rules.max_supply == 1_000_000_000
    &&& rules.need_mint_renounced
    &&& rules.need_freeze_null
    &&& rules.min_lp_locked == decode_bits(0x4056_8000_0000_0000)
    &&& !rules.need_socials
    &&& rules.name_allow.len() == 0
    &&& rules.name_deny == seq!["(?i)scam"@]
    &&& rules.symbol_allow.len() == 0
    &&& rules.allowlist.len() == 0
    &&& rules.blocklist.len() == 0
}

/// The denied pattern was refused, for this cause.
pub open spec fn sample_refusal(e: FilterError) -> bool {
    e matches FilterError::Pattern { list, index, cause } && list == ListName::NameDeny && index
        == 0 && compile_error_fits(syntax_fault("(?i)scam"@), Some(cause))
}

fn sample_filters() -> (r: Result<FilterEngine, FilterError>)
    ensures
        r matches Ok(engine) ==> sample_rules(engine@) && syntax_fault("(?i)scam"@) is None,
        r matches Err(e) ==> sample_refusal(e),
{
    let mut name_deny_regex: Vec<String> = Vec::new();
    name_deny_regex.push("(?i)scam".to_owned());
    let cfg = FilterConfig {
        min_initial_liquidity_sol: Binary64::one(),
        max_supply: 1_000_000_000,
        require_mint_authority_renounced: true,
        require_freeze_authority_null: true,
        min_lp_locked_pct: Binary64::from_bits(0x4056_8000_0000_0000),
        name_allow_regex: Vec::new(),
        name_deny_regex,
        symbol_allow_regex: Vec::new(),
        require_socials: false,
        dev_allowlist: Vec::new(),
        dev_blocklist: Vec::new(),
    };
    assert(texts(cfg.name_deny_regex@) =~= seq!["(?i)scam"@]);
    assert(texts(cfg.name_deny_regex@)[0] == "(?i)scam"@);
    FilterEngine::new(cfg)
}

fn sample_accounts() -> (r: Vec<Pubkey>)
    ensures
        r@.len() == 10,
{
    let mut out: Vec<Pubkey> = Vec::new();
    let mut i: usize = 0;
    while i < 10
        invariant
            i <= 10,
            out@.len() == i,
        decreases 10 - i,
    {
        out.push(unique_pubkey());
        i = i + 1;
    }
    out
}

fn rung(multiplier_bits: u64, sell_pct_bits: u64) -> (r: TakeProfitRung)
    ensures
        r.multiplier.bits == multiplier_bits,
        r.sell_pct.bits == sell_pct_bits,
{
    TakeProfitRung {
        multiplier: Binary64::from_bits(multiplier_bits),
        sell_pct: Binary64::from_bits(sell_pct_bits),
    }
}

/// Sells 30 % at twice the price, 30 % at five times and 40 % at ten times, stops at half the
/// price, and trails by 35 % once the price has doubled.
pub open spec fn sample_plan(cfg: StrategyConfig) -> bool {
    let ladder = cfg.take_profit_ladder@;
    &&& ladder.len() == 3
    &&& ladder[0].multiplier.bits == 0x4000_0000_0000_0000
    &&& ladder[0].sell_pct.bits == 0x403e_0000_0000_0000
    &&& ladder[1].multiplier.bits == 0x4014_0000_0000_0000
    &&& ladder[1].sell_pct.bits == 0x403e_0000_0000_0000
    &&& ladder[2].multiplier.bits == 0x4024_0000_0000_0000
    &&& ladder[2].sell_pct.bits == 0x4044_0000_0000_0000
    &&& cfg.stop_loss_multiplier.bits == 0x3fe0_0000_0000_0000
    &&& cfg.trailing_stop_drawdown.bits == 0x3fd6_6666_6666_6666
    &&& cfg.trailing_stop_activation.bits == 0x4000_0000_0000_0000
    &&& cfg.max_hold_seconds == 3600
    &&& cfg.price_poll_interval_ms == 500
}

fn sample_strategy() -> (r: StrategyConfig)
    ensures
        sample_plan(r),
{
    let mut take_profit_ladder: Vec<TakeProfitRung> = Vec::new();
    take_profit_ladder.push(rung(0x4000_0000_0000_0000, 0x403e_0000_0000_0000));
    take_profit_ladder.push(rung(0x4014_0000_0000_0000, 0x403e_0000_0000_0000));
    take_profit_ladder.push(rung(0x4024_0000_0000_0000, 0x4044_0000_0000_0000));
    StrategyConfig {
        take_profit_ladder,
        stop_loss_multiplier: Binary64::from_bits(0x3fe0_0000_0000_0000),
        trailing_stop_drawdown: Binary64::from_bits(0x3fd6_6666_6666_6666),
        trailing_stop_activation: Binary64::from_bits(0x4000_0000_0000_0000),
        max_hold_seconds: 3600,
        price_poll_interval_ms: 500,
    }
}

/// A fixture with the sample launch, its facts and the sample strategy; the detector watches
/// both venues, and the sample instruction is one that it knows.
pub open spec fn sample_fixture(fx: BenchFixture) -> bool {
    &&& sample_pumpfun(Ok(fx.detector@.pumpfun))
    &&& sample_raydium(Ok(fx.detector@.raydium))
    &&& fx.detector@.pumpfun matches Some(target) && fx.sample_program@ == target.program_id
        && fx.sample_ix_data@ == sample_data(target.discriminator)
    &&& fx.sample_accounts@.len() == 10
    &&& fx.sample_event.venue == Venue::PumpFun
    &&& fx.sample_event@.signature == "sig"@
    &&& fx.sample_event@.slot == 1
    &&& fx.sample_event@.pool is None
    &&& fx.sample_event@.name == Some("DogeMoon"@)
    &&& fx.sample_event@.symbol == Some("DOGE"@)
    &&& fx.sample_event@.uri is None
    &&& fx.sample_event@.observed_at_ms == 0
    &&& fx.facts.initial_liquidity_sol.bits == 0x4014_0000_0000_0000
    &&& fx.facts.total_supply == 1_000
    &&& fx.facts.mint_authority_renounced
    &&& fx.facts.freeze_authority_null
    &&& fx.facts.lp_locked_pct@ == hundred()
    &&& fx.facts.has_socials
    &&& sample_plan(fx.strategy_cfg)
}

impl BenchFixture {
    /// The fixture with the sample filters. It fails only where the regex compiler refuses the
    /// denied pattern.
    pub fn new() -> (r: Result<BenchFixture, FilterError>)
        ensures
            r matches Ok(fx) ==> {
                &&& sample_fixture(fx)
                &&& sample_rules(fx.filters@)
                &&& syntax_fault("(?i)scam"@) is None
            },
            r matches Err(e) ==> sample_refusal(e),
    {
        BenchFixture::with_filters(sample_filters())
    }

    /// The fixture around filters that were built before, or the reason why they could not be.
    pub fn with_filters(filters: Result<FilterEngine, FilterError>) -> (r: Result<
        BenchFixture,
        FilterError,
    >)
        ensures
            filters matches Ok(engine) ==> (r matches Ok(fx) && sample_fixture(fx) && fx.filters
                == engine),
            filters matches Err(e) ==> r == Err::<BenchFixture, FilterError>(e),
    {
        let filters = match filters {
            Ok(filters) => filters,
            Err(e) => {
                return Err(e);
            },
        };
        let detector = sample_detector();
        let sample_program = match Pubkey::parse("6EF8rrecthR5Dkzon8Nwu78hRvfCKubJ14M5uBEwF6P") {
            Ok(key) => key,
            Err(_) => unreached(),
        };
        let discriminator = match parse_discriminator("181ec828051c0777") {
            Ok(bytes) => bytes,
            Err(fault) => {
                proof {
                    lemma_sample_discriminators(Err(fault));
                }
                unreached()
            },
        };
        let mut sample_ix_data: Vec<u8> = Vec::new();
        let mut i: usize = 0;
        while i < 8
            invariant
                i <= 8,
                discriminator@.len() == 8,
                sample_ix_data@ == discriminator@.take(i as int),
            decreases 8 - i,
        {
            sample_ix_data.push(discriminator[i]);
            i = i + 1;
            assert(sample_ix_data@ =~= discriminator@.take(i as int));
        }
        assert(sample_ix_data@ =~= discriminator@);
        push_string(&mut sample_ix_data, "DogeMoon");
        push_string(&mut sample_ix_data, "DOGE");
        push_string(&mut sample_ix_data, "https://example.com/m.json");
        let sample_event = LaunchEvent {
            venue: Venue::PumpFun,
            signature: "sig".to_owned(),
            slot: 1,
            mint: unique_pubkey(),
            creator: unique_pubkey(),
            pool: None,
            name: Some("DogeMoon".to_owned()),
            symbol: Some("DOGE".to_owned()),
            uri: None,
            observed_at_ms: 0,
        };
        let facts = LaunchFacts {
            initial_liquidity_sol: Binary64::from_bits(0x4014_0000_0000_0000),
            total_supply: 1_000,
            mint_authority_renounced: true,
            freeze_authority_null: true,
            lp_locked_pct: Binary64::hundred(),
            has_socials: true,
        };
        Ok(
            BenchFixture {
                detector,
                filters,
                sample_event,
                sample_ix_data,
                sample_accounts: sample_accounts(),
                sample_program,
                facts,
                strategy_cfg: sample_strategy(),
            },
        )
    }
}

/// Decodes the sample instruction.
pub fn bench_decode(fx: &BenchFixture) -> (r: Option<LaunchEvent>)
    ensures
        ({
            let ix = Instruction {
                program_id: fx.sample_program@,
                data: fx.sample_ix_data@,
                accounts: keys(fx.sample_accounts@),
            };
            let origin = Origin { signature: "sig"@, slot: 1 };
            &&& r is Some <==> fx.detector@.launch(ix, origin, 0) is Some
            &&& r matches Some(e) ==> fx.detector@.launch(ix, origin, e.observed_at_ms) == Some(
                e@,
            )
        }),
{
    fx.detector.decode(
        &fx.sample_program,
        fx.sample_ix_data.as_slice(),
        fx.sample_accounts.as_slice(),
        "sig".to_owned(),
        1,
    )
}

pub fn bench_prefilter(fx: &BenchFixture) -> (r: FilterVerdict)
    ensures
        r@ == fx.filters@.prefilter(fx.sample_event@),
{
    fx.filters.prefilter(&fx.sample_event)
}

pub fn bench_evaluate(fx: &BenchFixture) -> (r: FilterVerdict)
    ensures
        r@ == fx.filters@.evaluate(fx.sample_event@, fx.facts),
{
    fx.filters.evaluate(&fx.sample_event, &fx.facts)
}

/// One price update of a fresh position that was entered at the price one.
pub fn bench_strategy_tick(fx: &BenchFixture, price: Binary64, now: u64) -> (r: StrategyAction)
    ensures
        r@ == (Position {
            entry: one(),
            entry_secs: 0,
            peak: one(),
            remaining: one(),
            fired: Seq::new(fx.strategy_cfg.take_profit_ladder@.len(), |i: int| false),
            armed: false,
            plan: plan_of(fx.strategy_cfg),
        }).tick(price@, now).1,
{
    let mut position = PositionState::open(Binary64::one(), 0, fx.strategy_cfg.clone());
    assert(position@.plan.ladder =~= plan_of(fx.strategy_cfg).ladder);
    position.on_tick(price, now)
}

// ---- laws ----------------------------------------------------------------

proof fn lemma_sample_lengths()
    ensures
        encode_utf8("DogeMoon"@).len() == 8,
        encode_utf8("DOGE"@).len() == 4,
        encode_utf8("https://example.com/m.json"@).len() == 26,
{
    assert(encode_utf8("DogeMoon"@).len() == 8) by {
        reveal_strlit("DogeMoon");
        is_ascii_chars_encode_utf8("DogeMoon"@);
    }
    assert(encode_utf8("DOGE"@).len() == 4) by {
        reveal_strlit("DOGE");
        is_ascii_chars_encode_utf8("DOGE"@);
    }
    assert(encode_utf8("https://example.com/m.json"@).len() == 26) by {
        reveal_strlit("https://example.com/m.json");
        is_ascii_chars_encode_utf8("https://example.com/m.json"@);
    }
}

/// The sample instruction is a launch that the sample detector recognises, with the sample's
/// name, symbol and URI, and with the roles that its accounts have.
pub proof fn sample_launches_are_recognised(fx: BenchFixture, origin: Origin, observed_at_ms: u64)
    requires
        sample_fixture(fx),
    ensures
        fx.detector@.launch(
            Instruction {
                program_id: fx.sample_program@,
                data: fx.sample_ix_data@,
                accounts: keys(fx.sample_accounts@),
            },
            origin,
            observed_at_ms,
        ) matches Some(l) && {
            &&& l.venue == Venue::PumpFun
            &&& l.mint == fx.sample_accounts@[0]@
            &&& l.creator == fx.sample_accounts@[7]@
            &&& l.name == Some("DogeMoon"@)
            &&& l.symbol == Some("DOGE"@)
            &&& l.uri == Some("https://example.com/m.json"@)
        },
{
    let target = fx.detector@.pumpfun->0;
    let ix = Instruction {
        program_id: fx.sample_program@,
        data: fx.sample_ix_data@,
        accounts: keys(fx.sample_accounts@),
    };
    let rest = borsh_bytes("DogeMoon"@) + borsh_bytes("DOGE"@) + borsh_bytes(
        "https://example.com/m.json"@,
    );
    lemma_sample_lengths();
    discriminators_have_one_outcome(
        encode_utf8("181ec828051c0777"@),
        Ok(target.discriminator),
        Ok(target.discriminator),
    );
    assert(ix.data.take(8) =~= target.discriminator);
    assert(ix.data.skip(8) =~= rest + Seq::<u8>::empty());
    pumpfun_roles_have_fixed_places(
        fx.detector@,
        ix,
        origin,
        observed_at_ms,
        "DogeMoon"@,
        "DOGE"@,
        "https://example.com/m.json"@,
        Seq::empty(),
    );
}

/// A pattern with a whole significand stands for a multiple of one: the significand is `n`
/// shifted up by as much as the exponent lacks.
proof fn lemma_whole_pattern(bits: u64, n: nat, shift: nat)
    requires
        bits < SIGN,
        shift < 53,
        STEP <= bits,
        (bits / STEP) % 2048 < 2047,
        (bits / STEP) % 2048 + shift == 1075,
        STEP + bits % STEP == n * pow2(shift),
    ensures
        decode_bits(bits) == (Num::Finite { neg: false, mag: n * pow2(1074) }),
{
    let e = (1074 - shift) as nat;
    let sig = (STEP + bits % STEP) as nat;
    lemma_pow2_adds(shift, e);
    assert(sig * pow2(e) == n * (pow2(shift) * pow2(e))) by (nonlinear_arith)
        requires
            sig == n * pow2(shift),
    ;
}

/// The sample ladder sells everything: thirty percent at twice the entry, thirty at five times
/// and forty at ten times. The stop stands at half the entry.
pub proof fn sample_ladders_sell_everything(cfg: StrategyConfig)
    requires
        sample_plan(cfg),
    ensures
        ladder_total(cfg.take_profit_ladder@, cfg.take_profit_ladder@.len()) == hundred(),
        ({
            let whole = |n: nat| Num::Finite { neg: false, mag: n * pow2(1074) };
            let ladder = cfg.take_profit_ladder@;
            &&& ladder.len() == 3
            &&& ladder[0].multiplier@ == whole(2) && ladder[0].sell_pct@ == whole(30)
            &&& ladder[1].multiplier@ == whole(5) && ladder[1].sell_pct@ == whole(30)
            &&& ladder[2].multiplier@ == whole(10) && ladder[2].sell_pct@ == whole(40)
            &&& cfg.trailing_stop_activation@ == whole(2)
            &&& equal(product(whole(2), cfg.stop_loss_multiplier@), whole(1))
        }),
{
    lemma2_to64();
    lemma2_to64_rest();
    lemma_whole_pattern(0x4000_0000_0000_0000, 2, 51);
    lemma_whole_pattern(0x4014_0000_0000_0000, 5, 50);
    lemma_whole_pattern(0x4024_0000_0000_0000, 10, 49);
    lemma_whole_pattern(0x403e_0000_0000_0000, 30, 48);
    lemma_whole_pattern(0x4044_0000_0000_0000, 40, 47);
    let ladder = cfg.take_profit_ladder@;
    let shares = seq![30nat, 30nat, 40nat];
    assert(whole_total(shares) == 100) by {
        assert(shares.drop_last() =~= seq![30nat, 30nat]);
        assert(seq![30nat, 30nat].drop_last() =~= seq![30nat]);
        assert(seq![30nat].drop_last() =~= Seq::<nat>::empty());
        reveal_with_fuel(whole_total, 4);
    }
    whole_shares_add_up(ladder, shares);
    let unit = pow2(1074);
    let half = 0x10_0000_0000_0000 * pow2(1021);
    lemma_pow2_adds(52, 1021);
    lemma_pow2_unfold(1074);
    lemma_pow2_pos(1073);
    assert((2 * unit) * half == unit * unit) by (nonlinear_arith)
        requires
            unit == 2 * half,
    ;
    assert(scaled(1, 1074) == unit);
    lemma_nearest_exact(unit, unit);
    lemma_pow2_weak(1075, 2098);
    lemma_pow2_unfold(1075);
}

/// The sample's facts break none of the sample's rules, so that only its name is left to decide:
/// it is accepted unless the denied pattern matches.
pub proof fn sample_facts_are_good(fx: BenchFixture, rules: Rules)
    requires
        sample_fixture(fx),
        sample_rules(rules),
    ensures
        rules.evaluate(fx.sample_event@, fx.facts) == rules.prefilter(fx.sample_event@),
        rules.evaluate(fx.sample_event@, fx.facts) is None <==> !regex_matches(
            "(?i)scam"@,
            "DogeMoon"@,
        ),
{
    lemma2_to64();
    lemma2_to64_rest();
    lemma_whole_pattern(0x4014_0000_0000_0000, 5, 50);
    lemma_whole_pattern(0x4056_8000_0000_0000, 90, 46);
    lemma_pow2_pos(1074);
    accepted_launches_break_no_rule(rules, fx.sample_event@, fx.facts);
    if !regex_matches("(?i)scam"@, "DogeMoon"@) {
        assert forall|i: int| 0 <= i < rules.name_deny.len() implies !#[trigger] regex_matches(
            rules.name_deny[i],
            "DogeMoon"@,
        ) by {
            assert(rules.name_deny[i] == "(?i)scam"@);
        }
    } else {
        assert(regex_matches(rules.name_deny[0], "DogeMoon"@));
    }
}

} // verus!

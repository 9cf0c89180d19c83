//! The bot's settings and the rules they must meet.
use vstd::arithmetic::power2::{lemma2_to64_rest, lemma_pow2_adds, lemma_pow2_pos, pow2};
use vstd::prelude::*;
use vstd::string::*;

use crate::binary64::{
    at_most, below, decode_bits, epsilon, fixed, hundred, nought, one, rounded, sum, Binary64, Num,
    STEP,
};
use crate::rounding::{
    half_even, lemma_half_even_scales, lemma_nearest_lower, lemma_nearest_upper, lemma_pow2_127,
    lemma_pow2_weak, lemma_spacing_is, nearest, scaled,
};

verus! {

#[derive(Debug, Clone)]
pub struct Config {
    pub runtime: RuntimeConfig,
    pub rpc: RpcConfig,
    pub jito: JitoConfig,
    pub wallets: WalletConfig,
    pub sizing: SizingConfig,
    pub targets: TargetsConfig,
    pub filters: FilterConfig,
    pub strategy: StrategyConfig,
}

#[derive(Debug, Clone)]
pub struct RuntimeConfig {
    pub log_level: String,
    pub json_logs: bool,
    pub max_concurrent_snipes: usize,
}

#[derive(Debug, Clone)]
pub struct RpcConfig {
    pub http_url: String,
    pub geyser_url: String,
    pub geyser_x_token: String,
    pub commitment: String,
}

#[derive(Debug, Clone)]
pub struct JitoConfig {
    pub block_engine_url: String,
    pub tip_sol: Binary64,
    pub tip_accounts: Vec<String>,
    pub max_bundle_retries: u32,
}

#[derive(Debug, Clone)]
pub struct WalletConfig {
    /// Paths of the keypair files.
    pub keypair_paths: Vec<String>,
    pub rotation: RotationStrategy,
}

/// How the next wallet is picked.
#[derive(Debug, Clone, Copy, PartialEq, Eq, Structural)]
pub enum RotationStrategy {
    RoundRobin,
    Random,
    FirstAvailable,
}

impl Default for RotationStrategy {
    fn default() -> (r: RotationStrategy)
        ensures
            r == RotationStrategy::RoundRobin,
    {
        RotationStrategy::RoundRobin
    }
}

#[derive(Debug, Clone)]
pub struct SizingConfig {
    pub buy_sol: Binary64,
    pub max_slippage_bps: u32,
    pub compute_unit_price: u64,
    pub compute_unit_limit: u32,
}

#[derive(Debug, Clone)]
pub struct TargetsConfig {
    pub pumpfun: PumpFunTarget,
    pub raydium_launchlab: RaydiumTarget,
}

#[derive(Debug, Clone)]
pub struct PumpFunTarget {
    pub enabled: bool,
    pub program_id: String,
    pub create_discriminator: String,
}

#[derive(Debug, Clone)]
pub struct RaydiumTarget {
    pub enabled: bool,
    pub program_id: String,
    pub initialize_discriminator: String,
}

#[derive(Debug, Clone)]
pub struct FilterConfig {
    pub min_initial_liquidity_sol: Binary64,
    pub max_supply: u64,
    pub require_mint_authority_renounced: bool,
    pub require_freeze_authority_null: bool,
    pub min_lp_locked_pct: Binary64,
    pub name_allow_regex: Vec<String>,
    pub name_deny_regex: Vec<String>,
    pub symbol_allow_regex: Vec<String>,
    pub require_socials: bool,
    pub dev_allowlist: Vec<String>,
    pub dev_blocklist: Vec<String>,
}

#[derive(Debug)]
pub struct StrategyConfig {
    pub take_profit_ladder: Vec<TakeProfitRung>,
    pub stop_loss_multiplier: Binary64,
    pub trailing_stop_drawdown: Binary64,
    pub trailing_stop_activation: Binary64,
    pub max_hold_seconds: u64,
    pub price_poll_interval_ms: u64,
}

impl Clone for StrategyConfig {
    fn clone(&self) -> (r: StrategyConfig)
        ensures
            r.take_profit_ladder@ == self.take_profit_ladder@,
            r.stop_loss_multiplier == self.stop_loss_multiplier,
            r.trailing_stop_drawdown == self.trailing_stop_drawdown,
            r.trailing_stop_activation == self.trailing_stop_activation,
            r.max_hold_seconds == self.max_hold_seconds,
            r.price_poll_interval_ms == self.price_poll_interval_ms,
    {
        let mut take_profit_ladder: Vec<TakeProfitRung> = Vec::new();
        let mut i: usize = 0;
        while i < self.take_profit_ladder.len()
            invariant
                i <= self.take_profit_ladder@.len(),
                take_profit_ladder@ == self.take_profit_ladder@.take(i as int),
            decreases self.take_profit_ladder@.len() - i,
        {
            take_profit_ladder.push(self.take_profit_ladder[i]);
            i = i + 1;
            assert(take_profit_ladder@ =~= self.take_profit_ladder@.take(i as int));
        }
        assert(take_profit_ladder@ =~= self.take_profit_ladder@);
        StrategyConfig {
            take_profit_ladder,
            stop_loss_multiplier: self.stop_loss_multiplier,
            trailing_stop_drawdown: self.trailing_stop_drawdown,
            trailing_stop_activation: self.trailing_stop_activation,
            max_hold_seconds: self.max_hold_seconds,
            price_poll_interval_ms: self.price_poll_interval_ms,
        }
    }
}

#[derive(Debug, Clone, Copy, PartialEq)]
pub struct TakeProfitRung {
    pub multiplier: Binary64,
    pub sell_pct: Binary64,
}

/// The first rule that a configuration breaks.
#[derive(Debug, Clone, Copy)]
pub enum ConfigError {
    NoWallets,
    BuyNotPositive,
    SlippageTooHigh,
    NoTipAccounts,
    StopLossOutOfRange,
    LadderOversubscribed { total: Binary64 },
    RungMultiplierTooLow,
    RungShareOutOfRange,
}

/// What a `ConfigError` says, with the total as a number.
pub enum Fault {
    NoWallets,
    BuyNotPositive,
    SlippageTooHigh,
    NoTipAccounts,
    StopLossOutOfRange,
    LadderOversubscribed { total: Num },
    RungMultiplierTooLow,
    RungShareOutOfRange,
}

impl View for ConfigError {
    type V = Fault;

    open spec fn view(&self) -> Fault {
        match self {
            ConfigError::NoWallets => Fault::NoWallets,
            ConfigError::BuyNotPositive => Fault::BuyNotPositive,
            ConfigError::SlippageTooHigh => Fault::SlippageTooHigh,
            ConfigError::NoTipAccounts => Fault::NoTipAccounts,
            ConfigError::StopLossOutOfRange => Fault::StopLossOutOfRange,
            ConfigError::LadderOversubscribed { total } => Fault::LadderOversubscribed {
                total: total@,
            },
            ConfigError::RungMultiplierTooLow => Fault::RungMultiplierTooLow,
            ConfigError::RungShareOutOfRange => Fault::RungShareOutOfRange,
        }
    }
}

/// The shares of the first `n` rungs added up, in order.
pub open spec fn ladder_total(ladder: Seq<TakeProfitRung>, n: nat) -> Num
    decreases n,
{
    if n == 0 {
        nought()
    } else {
        sum(ladder_total(ladder, (n - 1) as nat), ladder[n - 1].sell_pct@)
    }
}

/// A rung sells at a profit.
pub open spec fn multiplier_ok(rung: TakeProfitRung) -> bool {
    !at_most(rung.multiplier@, one())
}

/// A rung sells more than nothing and at most everything.
pub open spec fn share_ok(rung: TakeProfitRung) -> bool {
    !at_most(rung.sell_pct@, nought()) && !below(hundred(), rung.sell_pct@)
}

/// The first rung from `i` on that breaks a rule, and which rule.
pub open spec fn rung_fault(ladder: Seq<TakeProfitRung>, i: int) -> Option<Fault>
    decreases ladder.len() - i,
{
    if i < 0 || i >= ladder.len() {
        None
    } else if !multiplier_ok(ladder[i]) {
        Some(Fault::RungMultiplierTooLow)
    } else if !share_ok(ladder[i]) {
        Some(Fault::RungShareOutOfRange)
    } else {
        rung_fault(ladder, i + 1)
    }
}

impl Config {
    /// The first rule that this configuration breaks, in the order of the checks.
    pub open spec fn fault(self) -> Option<Fault> {
        let ladder = self.strategy.take_profit_ladder@;
        let total = ladder_total(ladder, ladder.len());
        if self.wallets.keypair_paths@.len() == 0 {
            Some(Fault::NoWallets)
        } else if at_most(self.sizing.buy_sol@, nought()) {
            Some(Fault::BuyNotPositive)
        } else if self.sizing.max_slippage_bps > 10_000 {
            Some(Fault::SlippageTooHigh)
        } else if self.jito.tip_accounts@.len() == 0 {
            Some(Fault::NoTipAccounts)
        } else if at_most(self.strategy.stop_loss_multiplier@, nought()) || at_most(
            one(),
            self.strategy.stop_loss_multiplier@,
        ) {
            Some(Fault::StopLossOutOfRange)
        } else if below(sum(hundred(), epsilon()), total) {
            Some(Fault::LadderOversubscribed { total })
        } else {
            rung_fault(ladder, 0)
        }
    }

    /// Accepts a configuration exactly when it breaks no rule.
    pub fn validate(&self) -> (r: Result<(), ConfigError>)
        ensures
            r is Ok <==> self.fault() is None,
            r matches Err(e) ==> self.fault() == Some(e@),
    {
        let zero = Binary64::zero();
        let whole = Binary64::one();
        if self.wallets.keypair_paths.len() == 0 {
            return Err(ConfigError::NoWallets);
        }
        if self.sizing.buy_sol.le(zero) {
            return Err(ConfigError::BuyNotPositive);
        }
        if self.sizing.max_slippage_bps > 10_000 {
            return Err(ConfigError::SlippageTooHigh);
        }
        if self.jito.tip_accounts.len() == 0 {
            return Err(ConfigError::NoTipAccounts);
        }
        if self.strategy.stop_loss_multiplier.le(zero) || whole.le(
            self.strategy.stop_loss_multiplier,
        ) {
            return Err(ConfigError::StopLossOutOfRange);
        }
        let ladder = &self.strategy.take_profit_ladder;
        let mut total = zero;
        let mut i: usize = 0;
        while i < ladder.len()
            invariant
                i <= ladder@.len(),
                total@ == ladder_total(ladder@, i as nat),
            decreases ladder@.len() - i,
        {
            total = total.plus(ladder[i].sell_pct);
            i = i + 1;
        }
        if Binary64::hundred().plus(Binary64::epsilon()).lt(total) {
            return Err(ConfigError::LadderOversubscribed { total });
        }
        let mut k: usize = 0;
        while k < ladder.len()
            invariant
                k <= ladder@.len(),
                ladder == &self.strategy.take_profit_ladder,
                whole@ == one(),
                zero@ == nought(),
                rung_fault(ladder@, k as int) == rung_fault(ladder@, 0),
                rung_fault(ladder@, 0) == self.fault(),
            decreases ladder@.len() - k,
        {
            let rung = ladder[k];
            if rung.multiplier.le(whole) {
                return Err(ConfigError::RungMultiplierTooLow);
            }
            if rung.sell_pct.le(zero) || Binary64::hundred().lt(rung.sell_pct) {
                return Err(ConfigError::RungShareOutOfRange);
            }
            k = k + 1;
        }
        Ok(())
    }
}

impl Fault {
    /// The wording of each fault.
    pub open spec fn message(self) -> Seq<char> {
        match self {
            Fault::NoWallets => "at least one wallet keypair path must be configured"@,
            Fault::BuyNotPositive => "sizing.buy_sol must be positive"@,
            Fault::SlippageTooHigh => "sizing.max_slippage_bps must be <= 10000 (100%)"@,
            Fault::NoTipAccounts => "jito.tip_accounts must contain at least one tip account"@,
            Fault::StopLossOutOfRange => "strategy.stop_loss_multiplier must be in (0, 1)"@,
            Fault::LadderOversubscribed { total } =>
                "strategy.take_profit_ladder sell_pct sums to "@ + fixed(total, 2) + " > 100"@,
            Fault::RungMultiplierTooLow => "take profit rung multiplier must be > 1.0"@,
            Fault::RungShareOutOfRange => "take profit sell_pct must be in (0, 100]"@,
        }
    }
}

impl ConfigError {
    /// The message for the operator.
    pub fn message(&self) -> (r: String)
        ensures
            r@ == self@.message(),
    {
        match self {
            ConfigError::NoWallets => "at least one wallet keypair path must be configured".to_owned(),
            ConfigError::BuyNotPositive => "sizing.buy_sol must be positive".to_owned(),
            ConfigError::SlippageTooHigh => "sizing.max_slippage_bps must be <= 10000 (100%)".to_owned(),
            ConfigError::NoTipAccounts => "jito.tip_accounts must contain at least one tip account".to_owned(),
            ConfigError::StopLossOutOfRange => "strategy.stop_loss_multiplier must be in (0, 1)".to_owned(),
            ConfigError::LadderOversubscribed { total } => {
                let mut out = "strategy.take_profit_ladder sell_pct sums to ".to_owned();
                total.push_fixed(&mut out, 2);
                out.append(" > 100");
                out
            },
            ConfigError::RungMultiplierTooLow => "take profit rung multiplier must be > 1.0".to_owned(),
            ConfigError::RungShareOutOfRange => "take profit sell_pct must be in (0, 100]".to_owned(),
        }
    }
}

impl RuntimeConfig {
    /// How many launches may be handled at once: what was asked for, but at least one.
    pub fn concurrency(&self) -> (r: usize)
        ensures
            r == (if self.max_concurrent_snipes == 0 {
                1
            } else {
                self.max_concurrent_snipes
            }),
    {
        if self.max_concurrent_snipes == 0 {
            1
        } else {
            self.max_concurrent_snipes
        }
    }
}

pub fn default_log_level() -> (r: String)
    ensures
        r@ == "info"@,
{
    "info".to_owned()
}

pub fn default_true() -> (r: bool)
    ensures
        r,
{
    true
}

pub fn default_max_concurrent() -> (r: usize)
    ensures
        r == 4,
{
    4
}

pub fn default_commitment() -> (r: String)
    ensures
        r@ == "processed"@,
{
    "processed".to_owned()
}

/// The number nearest to one thousandth of a SOL.
pub fn default_tip_sol() -> (r: Binary64)
    ensures
        r@ == rounded(false, pow2(1074), 1000),
{
    proof {
        lemma_pow2_127();
        lemma2_to64_rest();
        lemma_pow2_adds(62, 1012);
        lemma_pow2_adds(52, 1012);
        lemma_pow2_adds(53, 1012);
        lemma_pow2_pos(1012);
        let low = pow2(1012);
        // 2^1074 / 1000 lies between 2^52 and 2^53 times 2^1012.
        assert(pow2(1065) * 1000 > pow2(1074) && pow2(1064) * 1000 <= pow2(1074))
            by (nonlinear_arith)
            requires
                pow2(1065) == pow2(53) * low,
                pow2(1064) == pow2(52) * low,
                pow2(1074) == pow2(62) * low,
                pow2(53) == 0x20_0000_0000_0000,
                pow2(52) == 0x10_0000_0000_0000,
                pow2(62) == 0x4000_0000_0000_0000,
                low > 0,
        ;
        lemma_spacing_is(pow2(1074), 1000, 1012);
        lemma_half_even_scales(pow2(62), 1000, low);
        assert(half_even(0x4000_0000_0000_0000, 1000) == 0x10_624d_d2f1_a9fc);
        assert(nearest(pow2(1074), 1000) == 0x10_624d_d2f1_a9fc * low);
        lemma_pow2_weak((53 + 1012) as nat, 2098);
        assert(0x10_624d_d2f1_a9fc * low < pow2(1065)) by (nonlinear_arith)
            requires
                pow2(1065) == 0x20_0000_0000_0000 * low,
                low > 0,
        ;
        let bits: u64 = 0x3f50_624d_d2f1_a9fc;
        assert((bits / STEP) % 2048 == 1013 && bits % STEP == 0x624d_d2f1_a9fc);
        assert(decode_bits(bits) == (Num::Finite { neg: false, mag: 0x10_624d_d2f1_a9fc * low }));
    }
    Binary64::from_bits(0x3f50_624d_d2f1_a9fc)
}

pub fn default_retries() -> (r: u32)
    ensures
        r == 3,
{
    3
}

pub fn default_poll_ms() -> (r: u64)
    ensures
        r == 500,
{
    500
}

// ---- laws ----------------------------------------------------------------

/// A valid configuration has a wallet to pay with, a tip account, and a ladder whose every
/// rung sells a sensible share at a profit.
pub proof fn valid_configs_are_usable(cfg: Config)
    requires
        cfg.fault() is None,
    ensures
        cfg.wallets.keypair_paths@.len() > 0,
        cfg.jito.tip_accounts@.len() > 0,
        cfg.sizing.max_slippage_bps <= 10_000,
        forall|i: int|
            0 <= i < cfg.strategy.take_profit_ladder@.len() ==> multiplier_ok(
                #[trigger] cfg.strategy.take_profit_ladder@[i],
            ) && share_ok(cfg.strategy.take_profit_ladder@[i]),
{
    lemma_no_rung_fault(cfg.strategy.take_profit_ladder@, 0);
}

proof fn lemma_no_rung_fault(ladder: Seq<TakeProfitRung>, from: int)
    requires
        0 <= from,
        rung_fault(ladder, from) is None,
    ensures
        forall|i: int|
            from <= i < ladder.len() ==> multiplier_ok(#[trigger] ladder[i]) && share_ok(ladder[i]),
    decreases ladder.len() - from,
{
    if from < ladder.len() {
        lemma_no_rung_fault(ladder, from + 1);
    }
}

/// A configuration is valid exactly when it names a wallet and a tip account, buys for a
/// positive amount, allows at most the whole price as slippage, stops out strictly between
/// nothing and the entry, sells no more than the whole position over its ladder, and every rung
/// sells at a profit a share above nothing and up to everything.
pub proof fn valid_configs_break_no_rule(cfg: Config)
    ensures
        cfg.fault() is None <==> {
            let ladder = cfg.strategy.take_profit_ladder@;
            &&& cfg.wallets.keypair_paths@.len() > 0
            &&& !at_most(cfg.sizing.buy_sol@, nought())
            &&& cfg.sizing.max_slippage_bps <= 10_000
            &&& cfg.jito.tip_accounts@.len() > 0
            &&& !at_most(cfg.strategy.stop_loss_multiplier@, nought())
            &&& !at_most(one(), cfg.strategy.stop_loss_multiplier@)
            &&& !below(sum(hundred(), epsilon()), ladder_total(ladder, ladder.len()))
            &&& forall|i: int|
                0 <= i < ladder.len() ==> {
                    &&& !at_most((#[trigger] ladder[i]).multiplier@, one())
                    &&& !at_most(ladder[i].sell_pct@, nought())
                    &&& !below(hundred(), ladder[i].sell_pct@)
                }
        },
{
    rung_faults_are_the_first(cfg.strategy.take_profit_ladder@, 0);
}

/// The rung that is reported is the first that breaks a rule, and its multiplier is looked at
/// before its share.
pub proof fn rung_faults_are_the_first(ladder: Seq<TakeProfitRung>, from: int)
    requires
        0 <= from,
    ensures
        rung_fault(ladder, from) is None <==> forall|i: int|
            from <= i < ladder.len() ==> !at_most((#[trigger] ladder[i]).multiplier@, one())
                && !at_most(ladder[i].sell_pct@, nought()) && !below(
                hundred(),
                ladder[i].sell_pct@,
            ),
        rung_fault(ladder, from) matches Some(fault) ==> exists|i: int|
            {
                &&& from <= i < ladder.len()
                &&& forall|k: int|
                    from <= k < i ==> !at_most((#[trigger] ladder[k]).multiplier@, one())
                        && !at_most(ladder[k].sell_pct@, nought()) && !below(
                        hundred(),
                        ladder[k].sell_pct@,
                    )
                &&& if at_most((#[trigger] ladder[i]).multiplier@, one()) {
                    fault == Fault::RungMultiplierTooLow
                } else {
                    &&& at_most(ladder[i].sell_pct@, nought()) || below(
                        hundred(),
                        ladder[i].sell_pct@,
                    )
                    &&& fault == Fault::RungShareOutOfRange
                }
            },
    decreases ladder.len() - from,
{
    if from < ladder.len() {
        if multiplier_ok(ladder[from]) && share_ok(ladder[from]) {
            rung_faults_are_the_first(ladder, from + 1);
        } else {
            assert(at_most(ladder[from].multiplier@, one()) || at_most(
                ladder[from].sell_pct@,
                nought(),
            ) || below(hundred(), ladder[from].sell_pct@));
        }
    }
}

/// The first rule that is broken is the one that is reported, in this order: wallets, amount,
/// slippage, tip accounts, stop-loss, the ladder's total, its rungs.
pub proof fn faults_come_in_order(cfg: Config)
    ensures
        ({
            let ladder = cfg.strategy.take_profit_ladder@;
            let total = ladder_total(ladder, ladder.len());
            let poor = cfg.wallets.keypair_paths@.len() == 0;
            let free = at_most(cfg.sizing.buy_sol@, nought());
            let loose = cfg.sizing.max_slippage_bps > 10_000;
            let tipless = cfg.jito.tip_accounts@.len() == 0;
            let stop = cfg.strategy.stop_loss_multiplier@;
            let unstopped = at_most(stop, nought()) || at_most(one(), stop);
            let oversold = below(sum(hundred(), epsilon()), total);
            let early = poor || free || loose || tipless;
            &&& cfg.fault() == Some(Fault::NoWallets) <==> poor
            &&& cfg.fault() == Some(Fault::BuyNotPositive) <==> !poor && free
            &&& cfg.fault() == Some(Fault::SlippageTooHigh) <==> !poor && !free && loose
            &&& cfg.fault() == Some(Fault::NoTipAccounts) <==> !poor && !free && !loose && tipless
            &&& cfg.fault() == Some(Fault::StopLossOutOfRange) <==> !early && unstopped
            &&& cfg.fault() == Some(Fault::LadderOversubscribed { total }) <==> !early
                && !unstopped && oversold
            &&& (cfg.fault() == Some(Fault::RungMultiplierTooLow) || cfg.fault() == Some(
                Fault::RungShareOutOfRange,
            )) ==> !early && !unstopped && !oversold
        }),
{
    rung_faults_are_the_first(cfg.strategy.take_profit_ladder@, 0);
}

/// Some whole numbers added up.
pub open spec fn whole_total(shares: Seq<nat>) -> nat
    decreases shares.len(),
{
    if shares.len() == 0 {
        0
    } else {
        whole_total(shares.drop_last()) + shares.last()
    }
}

/// Shares that are whole percentages add up exactly, whatever their order.
pub proof fn whole_shares_add_up(ladder: Seq<TakeProfitRung>, shares: Seq<nat>)
    requires
        shares.len() == ladder.len(),
        forall|i: int|
            0 <= i < ladder.len() ==> (#[trigger] ladder[i]).sell_pct@ == (Num::Finite {
                neg: false,
                mag: shares[i] * pow2(1074),
            }),
        whole_total(shares) < pow2(53),
    ensures
        ladder_total(ladder, ladder.len()) == (Num::Finite {
            neg: false,
            mag: whole_total(shares) * pow2(1074),
        }),
    decreases ladder.len(),
{
    let unit = pow2(1074);
    if ladder.len() == 0 {
        assert(0 * unit == 0) by (nonlinear_arith);
    } else {
        let a = whole_total(shares.drop_last());
        let b = shares.last();
        let n = ladder.len();
        let rest = ladder.drop_last();
        assert forall|i: int| 0 <= i < rest.len() implies (#[trigger] rest[i]).sell_pct@ == (
        Num::Finite { neg: false, mag: shares.drop_last()[i] * pow2(1074) }) by {
            assert(rest[i] == ladder[i]);
        }
        whole_shares_add_up(rest, shares.drop_last());
        lemma_ladder_prefix(ladder, rest, (n - 1) as nat);
        assert(ladder[n - 1].sell_pct@ == (Num::Finite { neg: false, mag: b * unit }));
        assert(a * unit + b * unit == (a + b) * unit) by (nonlinear_arith);
        lemma_pow2_pos(1074);
        let v = (a + b) * unit;
        assert(scaled(a + b, 1074) == v);
        assert(v * 1 == v);
        lemma_nearest_upper(v, 1, v);
        lemma_nearest_lower(v, 1, v);
        lemma_pow2_adds(53, 1074);
        lemma_pow2_weak(1127, 2098);
        assert(v < pow2(53) * unit) by (nonlinear_arith)
            requires
                v == (a + b) * unit,
                a + b < pow2(53),
                unit > 0,
        ;
    }
}

proof fn lemma_ladder_prefix(
    ladder: Seq<TakeProfitRung>,
    other: Seq<TakeProfitRung>,
    n: nat,
)
    requires
        n <= ladder.len(),
        n <= other.len(),
        forall|i: int| 0 <= i < n ==> ladder[i] == other[i],
    ensures
        ladder_total(ladder, n) == ladder_total(other, n),
    decreases n,
{
    if n > 0 {
        lemma_ladder_prefix(ladder, other, (n - 1) as nat);
    }
}

/// An error is seen as the fault of the same kind, with its total.
pub proof fn errors_are_seen_as_they_are(e: ConfigError)
    ensures
        e is NoWallets <==> e@ is NoWallets,
        e is BuyNotPositive <==> e@ is BuyNotPositive,
        e is SlippageTooHigh <==> e@ is SlippageTooHigh,
        e is NoTipAccounts <==> e@ is NoTipAccounts,
        e is StopLossOutOfRange <==> e@ is StopLossOutOfRange,
        e is LadderOversubscribed <==> e@ is LadderOversubscribed,
        e matches ConfigError::LadderOversubscribed { total } ==> e@->total == total@,
        e is RungMultiplierTooLow <==> e@ is RungMultiplierTooLow,
        e is RungShareOutOfRange <==> e@ is RungShareOutOfRange,
{
}

/// Each message starts with the setting that it is about; a ladder that sells too much is
/// reported with its total.
pub proof fn messages_name_the_setting(total: Num)
    ensures
        Fault::BuyNotPositive.message().take(14) == "sizing.buy_sol"@,
        Fault::SlippageTooHigh.message().take(23) == "sizing.max_slippage_bps"@,
        Fault::NoTipAccounts.message().take(17) == "jito.tip_accounts"@,
        Fault::StopLossOutOfRange.message().take(29) == "strategy.stop_loss_multiplier"@,
        (Fault::LadderOversubscribed { total }).message().take(27) == "strategy.take_profit_ladder"@,
        (Fault::LadderOversubscribed { total }).message().subrange(
            45,
            45 + fixed(total, 2).len() as int,
        ) == fixed(total, 2),
        Fault::RungMultiplierTooLow.message().take(27) == "take profit rung multiplier"@,
        Fault::RungShareOutOfRange.message().take(20) == "take profit sell_pct"@,
{
    reveal_strlit("sizing.buy_sol");
    reveal_strlit("sizing.buy_sol must be positive");
    reveal_strlit("sizing.max_slippage_bps");
    reveal_strlit("sizing.max_slippage_bps must be <= 10000 (100%)");
    reveal_strlit("jito.tip_accounts");
    reveal_strlit("jito.tip_accounts must contain at least one tip account");
    reveal_strlit("strategy.stop_loss_multiplier");
    reveal_strlit("strategy.stop_loss_multiplier must be in (0, 1)");
    reveal_strlit("strategy.take_profit_ladder");
    reveal_strlit("strategy.take_profit_ladder sell_pct sums to ");
    reveal_strlit("take profit rung multiplier");
    reveal_strlit("take profit rung multiplier must be > 1.0");
    reveal_strlit("take profit sell_pct");
    reveal_strlit("take profit sell_pct must be in (0, 100]");
    let text = (Fault::LadderOversubscribed { total }).message();
    assert(text.subrange(45, 45 + fixed(total, 2).len() as int) =~= fixed(total, 2));
}

} // verus!

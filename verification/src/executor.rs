//! How a launch is bought: what is signed and sent, what is tried again, and when to give up.
use vstd::arithmetic::div_mod::{lemma_fundamental_div_mod, lemma_mod_bound};
use vstd::arithmetic::power2::{
    lemma2_to64, lemma2_to64_rest, lemma_pow2_adds, lemma_pow2_pos, lemma_pow2_unfold, pow2,
};
use vstd::prelude::*;
use vstd::string::*;

use crate::base58::{base58, base58_is_unambiguous};
use crate::binary64::{below, billion, nought, product, rounded_u64, Binary64, Num};
use crate::config::{JitoConfig, SizingConfig};
use crate::decimal::{decimal, push_decimal};
use crate::detector::{text_of, Launch, LaunchEvent, Venue};
use crate::listener::texts;
use crate::pubkey::{is_address, pubkey_from_text, Pubkey, PubkeyParseError};
use crate::rounding::{
    lemma_nearest_lower, lemma_nearest_upper, lemma_pow2_127, lemma_pow2_weak, nearest,
    representable, scaled,
};
use crate::transaction::{
    base64_text, budget_call, calls, compute_unit_limit, compute_unit_price, encode_base64,
    little_endian, little_endian_round_trip, number_in, sign_transaction, signable, signed_bytes,
    transfer, transfer_call, transfers_hold_their_amount, Account, Call, SignedTransaction,
    TxInstruction,
};
use crate::wallet::{choose_item, public_half, Keypair, WalletGuard};

verus! {

/// Outcome of a buy attempt.
#[derive(Debug, Clone, PartialEq, Eq)]
pub enum BuyOutcome {
    /// Bundle accepted by Jito block engine (but not yet landed).
    BundleSubmitted { bundle_id: String, signature: String },
    /// Submitted via the normal RPC path.
    DirectSubmitted { signature: String },
    /// Dry-run mode: nothing was signed or sent.
    Simulated { summary: String },
    /// All retry attempts exhausted.
    Dropped { reason: String },
}

/// A `BuyOutcome` with its texts as sequences.
pub enum Outcome {
    BundleSubmitted { bundle_id: Seq<char>, signature: Seq<char> },
    DirectSubmitted { signature: Seq<char> },
    Simulated { summary: Seq<char> },
    Dropped { reason: Seq<char> },
}

impl View for BuyOutcome {
    type V = Outcome;

    open spec fn view(&self) -> Outcome {
        match self {
            BuyOutcome::BundleSubmitted { bundle_id, signature } => Outcome::BundleSubmitted {
                bundle_id: bundle_id@,
                signature: signature@,
            },
            BuyOutcome::DirectSubmitted { signature } => Outcome::DirectSubmitted {
                signature: signature@,
            },
            BuyOutcome::Simulated { summary } => Outcome::Simulated { summary: summary@ },
            BuyOutcome::Dropped { reason } => Outcome::Dropped { reason: reason@ },
        }
    }
}

/// How the executor should actually submit transactions.
#[derive(Debug, Clone, Copy, PartialEq, Eq, Structural)]
pub enum ExecutionMode {
    /// Sign and submit for real.
    Live,
    /// Log what would happen, never sign.
    DryRun,
}

pub struct Executor {
    pub jito: JitoConfig,
    pub sizing: SizingConfig,
    pub mode: ExecutionMode,
}

// ---- amounts -------------------------------------------------------------

/// An amount of SOL in lamports, rounded to the nearest one.
pub open spec fn lamports(sol: Num) -> u64 {
    rounded_u64(product(sol, billion()))
}

pub fn sol_to_lamports(sol: Binary64) -> (r: u64)
    ensures
        r == lamports(sol@),
{
    sol.times(Binary64::billion()).round_to_u64()
}

/// A whole number of SOL is converted exactly, as long as the lamports fit in 53 bits.
pub proof fn whole_sol_is_exact(n: nat)
    requires
        n * 1_000_000_000 < pow2(53),
    ensures
        lamports(Num::Finite { neg: false, mag: n * pow2(1074) }) == n * 1_000_000_000,
{
    let unit = pow2(1074);
    let m = n * 1_000_000_000;
    lemma_pow2_pos(1074);
    lemma_pow2_pos(1073);
    lemma_pow2_unfold(1074);
    lemma_pow2_127();
    vstd::arithmetic::power2::lemma2_to64();
    vstd::arithmetic::power2::lemma2_to64_rest();
    assert((m * unit + pow2(1073)) / unit == m) by {
        vstd::arithmetic::div_mod::lemma_fundamental_div_mod_converse(
            (m * unit + pow2(1073)) as int,
            unit as int,
            m as int,
            pow2(1073) as int,
        );
    }
    if n > 0 {
        let x = n * unit;
        let y = 1_000_000_000 * unit;
        assert(x * y == (m * unit) * unit && x > 0 && y > 0) by (nonlinear_arith)
            requires
                x == n * unit,
                y == 1_000_000_000 * unit,
                m == n * 1_000_000_000,
                unit > 0,
                n > 0,
        ;
        assert(scaled(m, 1074) == m * unit);
        assert(representable(m * unit));
        lemma_nearest_upper(x * y, unit, m * unit);
        lemma_nearest_lower(x * y, unit, m * unit);
        lemma_pow2_adds(53, 1074);
        lemma_pow2_weak(1127, 2098);
        assert(m * unit < pow2(53) * unit) by (nonlinear_arith)
            requires
                m < pow2(53),
                unit > 0,
        ;
        assert(nearest(x * y, unit) == m * unit);
    } else {
        assert(n * unit == 0) by (nonlinear_arith)
            requires
                n == 0,
        ;
        assert(m * unit == 0) by (nonlinear_arith)
            requires
                m == 0,
        ;
    }
}

// ---- what is signed ------------------------------------------------------

/// The address of the compute budget program.
pub open spec fn budget_program() -> Seq<u8> {
    choose|key: Seq<u8>| is_address("ComputeBudget111111111111111111111111111111"@, key)
}

/// The calls of a buy: the compute budget, and the tip if there is one.
pub open spec fn buy_calls(
    sizing: SizingConfig,
    payer: Seq<u8>,
    tip_account: Seq<u8>,
    tip: nat,
) -> Seq<Call> {
    let budget = seq![
        Call {
            program: budget_program(),
            accounts: Seq::empty(),
            data: seq![2u8] + little_endian(sizing.compute_unit_limit as nat, 4),
        },
        Call {
            program: budget_program(),
            accounts: Seq::empty(),
            data: seq![3u8] + little_endian(sizing.compute_unit_price as nat, 8),
        },
    ];
    if tip > 0 {
        budget.push(transfer_call(payer, tip_account, tip))
    } else {
        budget
    }
}

proof fn lemma_little_endian_len(n: nat, width: nat)
    ensures
        little_endian(n, width).len() == width,
    decreases width,
{
    if width > 0 {
        lemma_little_endian_len(n / 256, (width - 1) as nat);
    }
}

proof fn lemma_budget_call(call: Call, data: Seq<u8>)
    requires
        budget_call(call, data),
    ensures
        call == (Call { program: budget_program(), accounts: Seq::empty(), data }),
{
    base58_is_unambiguous(call.program, budget_program());
    assert(call.accounts =~= Seq::<Account>::empty());
}

/// The calls of a buy fit into a transaction that only the payer signs.
pub proof fn buys_are_signable(
    sizing: SizingConfig,
    payer: Seq<u8>,
    tip_account: Seq<u8>,
    tip: nat,
)
    ensures
        signable(buy_calls(sizing, payer, tip_account, tip), payer),
{
    lemma_little_endian_len(sizing.compute_unit_limit as nat, 4);
    lemma_little_endian_len(sizing.compute_unit_price as nat, 8);
    lemma_little_endian_len(2, 4);
    lemma_little_endian_len(tip, 8);
}

/// The swap instructions of a Pump.fun buy. None are built: the program's instruction layout
/// is left to integrators.
pub fn build_pumpfun_buy(
    event: &LaunchEvent,
    payer: &Pubkey,
    sizing: &SizingConfig,
) -> (r: Vec<TxInstruction>)
    ensures
        r@.len() == 0,
{
    Vec::new()
}

/// The swap instructions of a Raydium LaunchLab buy. None are built: the program's instruction
/// layout is left to integrators.
pub fn build_raydium_buy(
    event: &LaunchEvent,
    payer: &Pubkey,
    sizing: &SizingConfig,
) -> (r: Vec<TxInstruction>)
    ensures
        r@.len() == 0,
{
    Vec::new()
}

/// Why no tip account can be used.
#[derive(Debug, Clone, Copy, PartialEq, Eq, Structural)]
pub enum TipError {
    NoAccounts,
    Malformed(PubkeyParseError),
}

impl TipError {
    pub open spec fn text(self) -> Seq<char> {
        match self {
            TipError::NoAccounts => "no tip accounts configured"@,
            TipError::Malformed(fault) => fault.text(),
        }
    }

    pub fn message(&self) -> (r: String)
        ensures
            r@ == self.text(),
    {
        match self {
            TipError::NoAccounts => "no tip accounts configured".to_owned(),
            TipError::Malformed(fault) => fault.message(),
        }
    }
}

pub open spec fn tip_as(r: Result<Pubkey, TipError>) -> Result<Seq<u8>, TipError> {
    match r {
        Ok(key) => Ok(key@),
        Err(e) => Err(e),
    }
}

/// The tip account that the chosen configuration entry names.
pub open spec fn tip_of(choice: Option<Seq<char>>) -> Result<Seq<u8>, TipError> {
    match choice {
        None => Err(TipError::NoAccounts),
        Some(text) => match pubkey_from_text(text) {
            Ok(key) => Ok(key),
            Err(fault) => Err(TipError::Malformed(fault)),
        },
    }
}

pub open spec fn choice_of(choice: Option<&String>) -> Option<Seq<char>> {
    match choice {
        None => None,
        Some(text) => Some(text@),
    }
}

/// Reads the tip account that was chosen.
pub fn tip_account_from(choice: Option<&String>) -> (r: Result<Pubkey, TipError>)
    ensures
        tip_as(r) == tip_of(choice_of(choice)),
{
    match choice {
        None => Err(TipError::NoAccounts),
        Some(text) => match Pubkey::parse(text.as_str()) {
            Ok(key) => Ok(key),
            Err(fault) => Err(TipError::Malformed(fault)),
        },
    }
}

/// A text without the slashes at its end.
pub open spec fn without_slashes(text: Seq<char>) -> Seq<char>
    decreases text.len(),
{
    if text.len() > 0 && text.last() == '/' {
        without_slashes(text.drop_last())
    } else {
        text
    }
}

/// Takes the slashes off the end of a text.
fn trim_end_slashes(text: &str) -> (r: String)
    ensures
        r@ == without_slashes(text@),
{
    let mut end: usize = text.unicode_len();
    assert(text@.take(end as int) =~= text@);
    while end > 0 && text.get_char(end - 1) == '/'
        invariant
            end <= text@.len(),
            without_slashes(text@.take(end as int)) == without_slashes(text@),
        decreases end,
    {
        assert(text@.take(end as int).drop_last() =~= text@.take(end - 1));
        end = end - 1;
    }
    text.substring_char(0, end).to_owned()
}

/// Where bundles are posted.
pub open spec fn bundle_url(block_engine_url: Seq<char>) -> Seq<char> {
    without_slashes(block_engine_url) + "/api/v1/bundles"@
}

/// The JSON-RPC request that submits one transaction as a bundle.
pub open spec fn bundle_body(transaction: Seq<char>) -> Seq<char> {
    "{\"id\":1,\"jsonrpc\":\"2.0\",\"method\":\"sendBundle\",\"params\":[[\""@ + transaction
        + "\"]]}"@
}

/// A bundle submission: what is posted where, and the transaction's signature.
#[derive(Debug, Clone, PartialEq, Eq)]
pub struct BundleRequest {
    pub url: String,
    pub body: String,
    pub signature: String,
}

/// The request that submits a transaction's bytes as a bundle.
pub open spec fn requests(jito: JitoConfig, wire: Seq<u8>, r: BundleRequest) -> bool {
    &&& r.url@ == bundle_url(jito.block_engine_url@)
    &&& r.body@ == bundle_body(base64_text(wire))
    &&& r.signature@ == base58(wire.subrange(1, 65))
}

impl Executor {
    pub fn new(jito: JitoConfig, sizing: SizingConfig, mode: ExecutionMode) -> (r: Executor)
        ensures
            r.jito == jito,
            r.sizing == sizing,
            r.mode == mode,
    {
        Executor { jito, sizing, mode }
    }

    /// Picks one of the configured tip accounts at random.
    pub fn pick_tip_account(&self) -> (r: Result<Pubkey, TipError>)
        ensures
            self.jito.tip_accounts@.len() == 0 ==> r == Err::<Pubkey, TipError>(
                TipError::NoAccounts,
            ),
            self.jito.tip_accounts@.len() > 0 ==> exists|i: int|
                0 <= i < self.jito.tip_accounts@.len() && tip_as(r) == #[trigger] tip_of(
                    Some(texts(self.jito.tip_accounts@)[i]),
                ),
    {
        let choice = choose_item(&self.jito.tip_accounts);
        proof {
            if let Some(text) = choice {
                let i = choose|i: int|
                    0 <= i < self.jito.tip_accounts@.len() && self.jito.tip_accounts@[i] == *text;
                assert(texts(self.jito.tip_accounts@)[i] == text@);
                assert(tip_of(Some(texts(self.jito.tip_accounts@)[i])) == tip_of(
                    choice_of(choice),
                ));
            }
        }
        tip_account_from(choice)
    }

    /// Builds the instruction list for a buy: the compute budget, the venue's swap, and the tip
    /// if there is one.
    pub fn build_buy_instructions(
        &self,
        event: &LaunchEvent,
        payer: &Keypair,
        tip_account: &Pubkey,
        tip_lamports: u64,
    ) -> (r: Vec<TxInstruction>)
        ensures
            calls(r@) == buy_calls(
                self.sizing,
                public_half(payer@),
                tip_account@,
                tip_lamports as nat,
            ),
    {
        let mut ixs: Vec<TxInstruction> = Vec::new();
        let limit = compute_unit_limit(self.sizing.compute_unit_limit);
        let price = compute_unit_price(self.sizing.compute_unit_price);
        proof {
            lemma_budget_call(
                limit@,
                seq![2u8] + little_endian(self.sizing.compute_unit_limit as nat, 4),
            );
            lemma_budget_call(
                price@,
                seq![3u8] + little_endian(self.sizing.compute_unit_price as nat, 8),
            );
        }
        ixs.push(limit);
        ixs.push(price);
        let from = payer.pubkey();
        let mut swap = match event.venue {
            Venue::PumpFun => build_pumpfun_buy(event, &from, &self.sizing),
            Venue::RaydiumLaunchLab => build_raydium_buy(event, &from, &self.sizing),
        };
        ixs.append(&mut swap);
        if tip_lamports > 0 {
            ixs.push(transfer(&from, tip_account, tip_lamports));
        }
        assert(calls(ixs@) =~= buy_calls(
            self.sizing,
            public_half(payer@),
            tip_account@,
            tip_lamports as nat,
        ));
        ixs
    }

    /// Signs the transaction of a buy that tips an account.
    pub fn sign_buy(
        &self,
        event: &LaunchEvent,
        wallet: &WalletGuard,
        tip_account: &Pubkey,
        tip_lamports: u64,
        blockhash: &[u8; 32],
    ) -> (r: SignedTransaction)
        ensures
            r.wire@ == signed_bytes(
                buy_calls(
                    self.sizing,
                    public_half(wallet@.key),
                    tip_account@,
                    tip_lamports as nat,
                ),
                wallet@.key,
                blockhash@,
            ),
            65 < r.wire@.len() < 0x1_0000,
            r.signature@ == base58(r.wire@.subrange(1, 65)),
    {
        let keypair = wallet.keypair();
        let ixs = self.build_buy_instructions(event, keypair, tip_account, tip_lamports);
        proof {
            buys_are_signable(
                self.sizing,
                public_half(wallet@.key),
                tip_account@,
                tip_lamports as nat,
            );
        }
        sign_transaction(&ixs, keypair, blockhash)
    }

    /// The request that submits a signed transaction as a bundle.
    pub fn bundle_request(&self, signed: SignedTransaction) -> (r: BundleRequest)
        requires
            signed.wire@.len() <= usize::MAX / 4,
        ensures
            r.url@ == bundle_url(self.jito.block_engine_url@),
            r.body@ == bundle_body(base64_text(signed.wire@)),
            r.signature == signed.signature,
    {
        let mut url = trim_end_slashes(self.jito.block_engine_url.as_str());
        url.append("/api/v1/bundles");
        let mut body =
            "{\"id\":1,\"jsonrpc\":\"2.0\",\"method\":\"sendBundle\",\"params\":[[\"".to_owned();
        body.append(encode_base64(&signed.wire).as_str());
        body.append("\"]]}");
        BundleRequest { url, body, signature: signed.signature }
    }

    /// Signs a buy that tips `tip_account` and frames it as a bundle.
    pub fn prepare_bundle(
        &self,
        event: &LaunchEvent,
        wallet: &WalletGuard,
        tip_account: &Pubkey,
        blockhash: &[u8; 32],
    ) -> (r: BundleRequest)
        ensures
            requests(
                self.jito,
                signed_bytes(
                    buy_calls(
                        self.sizing,
                        public_half(wallet@.key),
                        tip_account@,
                        lamports(self.jito.tip_sol@) as nat,
                    ),
                    wallet@.key,
                    blockhash@,
                ),
                r,
            ),
    {
        let tip = sol_to_lamports(self.jito.tip_sol);
        let signed = self.sign_buy(event, wallet, tip_account, tip, blockhash);
        self.bundle_request(signed)
    }

    /// Signs a buy for the direct path, which skips the tip.
    pub fn prepare_direct(
        &self,
        event: &LaunchEvent,
        wallet: &WalletGuard,
        blockhash: &[u8; 32],
    ) -> (r: SignedTransaction)
        ensures
            r.wire@ == signed_bytes(
                buy_calls(
                    self.sizing,
                    public_half(wallet@.key),
                    Seq::new(32, |i: int| 0u8),
                    0,
                ),
                wallet@.key,
                blockhash@,
            ),
            r.signature@ == base58(r.wire@.subrange(1, 65)),
    {
        let nobody = Pubkey { bytes: [0; 32] };
        assert(nobody@ =~= Seq::new(32, |i: int| 0u8));
        self.sign_buy(event, wallet, &nobody, 0, blockhash)
    }
}

/// A buy without a tip holds the compute budget alone, whatever the tip account.
pub proof fn untipped_buys_ignore_the_tip_account(
    sizing: SizingConfig,
    payer: Seq<u8>,
    a: Seq<u8>,
    b: Seq<u8>,
)
    ensures
        buy_calls(sizing, payer, a, 0) == buy_calls(sizing, payer, b, 0),
        buy_calls(sizing, payer, a, 0).len() == 2,
{
}

/// A tip is paid in full: the last call of a tipped buy goes to the system program, from the
/// payer, who signs, to the tip account, and the number in its data is the tip.
pub proof fn tips_are_paid_in_full(
    sizing: SizingConfig,
    payer: Seq<u8>,
    tip_account: Seq<u8>,
    tip: nat,
)
    requires
        0 < tip <= u64::MAX,
    ensures
        ({
            let list = buy_calls(sizing, payer, tip_account, tip);
            let call = list.last();
            &&& list.len() == 3
            &&& call.program.len() == 32
            &&& forall|i: int| 0 <= i < 32 ==> #[trigger] call.program[i] == 0
            &&& call.accounts.len() == 2
            &&& call.accounts[0].key == payer && call.accounts[0].signer
                && call.accounts[0].writable
            &&& call.accounts[1].key == tip_account && !call.accounts[1].signer
                && call.accounts[1].writable
            &&& call.data.len() == 12
            &&& number_in(call.data.subrange(0, 4)) == 2
            &&& number_in(call.data.subrange(4, 12)) == tip
        }),
{
    transfers_hold_their_amount(payer, tip_account, tip);
    assert(buy_calls(sizing, payer, tip_account, tip).last() == transfer_call(
        payer,
        tip_account,
        tip,
    ));
}

/// Different tips make different buys, and so do different tip accounts and payers.
pub proof fn buys_differ_by_their_tip(
    sizing: SizingConfig,
    payer: Seq<u8>,
    tip_account: Seq<u8>,
    tip: nat,
    other_payer: Seq<u8>,
    other_account: Seq<u8>,
    other_tip: nat,
)
    requires
        tip <= u64::MAX,
        other_tip <= u64::MAX,
        buy_calls(sizing, payer, tip_account, tip) == buy_calls(
            sizing,
            other_payer,
            other_account,
            other_tip,
        ),
    ensures
        tip == other_tip,
        tip > 0 ==> payer == other_payer && tip_account == other_account,
{
    if tip > 0 {
        tips_are_paid_in_full(sizing, payer, tip_account, tip);
    }
    if other_tip > 0 {
        tips_are_paid_in_full(sizing, other_payer, other_account, other_tip);
    }
}

/// Every buy starts with two calls of one program, without accounts, that set the configured
/// compute unit limit and price; a tip changes neither.
pub proof fn buys_set_the_configured_budget(
    sizing: SizingConfig,
    payer: Seq<u8>,
    tip_account: Seq<u8>,
    tip: nat,
)
    ensures
        ({
            let list = buy_calls(sizing, payer, tip_account, tip);
            &&& list.len() == if tip > 0 {
                3int
            } else {
                2
            }
            &&& list[0].program == list[1].program
            &&& (exists|key: Seq<u8>|
                is_address("ComputeBudget111111111111111111111111111111"@, key)) ==> is_address(
                "ComputeBudget111111111111111111111111111111"@,
                list[0].program,
            )
            &&& list[0].accounts.len() == 0 && list[1].accounts.len() == 0
            &&& list[0].data.len() == 5 && list[0].data[0] == 2
            &&& number_in(list[0].data.skip(1)) == sizing.compute_unit_limit
            &&& list[1].data.len() == 9 && list[1].data[0] == 3
            &&& number_in(list[1].data.skip(1)) == sizing.compute_unit_price
        }),
{
    let list = buy_calls(sizing, payer, tip_account, tip);
    let limit = little_endian(sizing.compute_unit_limit as nat, 4);
    let price = little_endian(sizing.compute_unit_price as nat, 8);
    lemma2_to64();
    lemma2_to64_rest();
    little_endian_round_trip(sizing.compute_unit_limit as nat, 4);
    little_endian_round_trip(sizing.compute_unit_price as nat, 8);
    assert(list[0].data.skip(1) =~= limit);
    assert(list[1].data.skip(1) =~= price);
}

/// Lamports are the nearest whole number to the product of the amount and a billion; an amount
/// below zero and a NaN are nothing.
pub proof fn lamports_are_nearest(sol: Num)
    ensures
        (sol == Num::NaN || below(sol, nought())) ==> lamports(sol) == 0,
        product(sol, billion()) matches Num::Finite { neg, mag } ==> (!neg && mag < u64::MAX as nat
            * pow2(1074) ==> 2 * lamports(sol) * pow2(1074) <= 2 * mag + pow2(1074) && 2 * mag < 2
            * lamports(sol) * pow2(1074) + pow2(1074)),
{
    let unit = pow2(1074);
    lemma_pow2_pos(1074);
    lemma_pow2_pos(1073);
    lemma_pow2_unfold(1074);
    if let Num::Finite { neg, mag } = product(sol, billion()) {
        if !neg && mag < u64::MAX as nat * unit {
            let n = mag + pow2(1073);
            let q = n / unit;
            lemma_fundamental_div_mod(n as int, unit as int);
            lemma_mod_bound(n as int, unit as int);
            assert(unit * q == q * unit) by (nonlinear_arith);
            assert(q <= u64::MAX) by (nonlinear_arith)
                requires
                    q * unit <= n,
                    2 * n < 2 * (u64::MAX as nat * unit) + unit,
                    unit > 0,
            ;
            assert(2 * q * unit == 2 * (q * unit)) by (nonlinear_arith);
        }
    }
}

/// What is left of a text without the slashes at its end is its beginning up to the last
/// character that is no slash.
pub proof fn only_slashes_are_cut(text: Seq<char>)
    ensures
        ({
            let kept = without_slashes(text);
            &&& kept.len() <= text.len() && kept == text.take(kept.len() as int)
            &&& forall|i: int| kept.len() <= i < text.len() ==> #[trigger] text[i] == '/'
            &&& kept.len() > 0 ==> kept.last() != '/'
        }),
    decreases text.len(),
{
    if text.len() > 0 && text.last() == '/' {
        let rest = text.drop_last();
        only_slashes_are_cut(rest);
        assert(rest.take(without_slashes(rest).len() as int) =~= text.take(
            without_slashes(rest).len() as int,
        ));
        assert forall|i: int| without_slashes(text).len() <= i < text.len() implies #[trigger] text[i]
            == '/' by {
            if i < rest.len() {
                assert(rest[i] == '/');
            }
        }
    } else {
        assert(text.take(text.len() as int) =~= text);
    }
}

/// Slashes at the end of the configured address make no difference to where bundles go, and
/// the rest of it is kept whole in front of a path that starts with a slash.
pub proof fn bundle_urls_ignore_trailing_slashes(base: Seq<char>)
    ensures
        bundle_url(base.push('/')) == bundle_url(base),
        bundle_url(base).len() == without_slashes(base).len() + 15,
        base.len() > 0 && base.last() != '/' ==> bundle_url(base).take(base.len() as int) == base
            && bundle_url(base)[base.len() as int] == '/',
{
    reveal_strlit("/api/v1/bundles");
    assert(base.push('/').drop_last() =~= base);
    if base.len() > 0 && base.last() != '/' {
        assert(bundle_url(base).take(base.len() as int) =~= base);
    }
}

/// A bundle request carries its transaction unchanged: what stands between its fixed opening and
/// its fixed end is the transaction, so different transactions make different requests.
pub proof fn bundle_bodies_carry_the_transaction(transaction: Seq<char>, other: Seq<char>)
    ensures
        bundle_body(transaction).len() == transaction.len() + 62,
        bundle_body(transaction).subrange(58, 58 + transaction.len() as int) == transaction,
        bundle_body(transaction).take(58) == bundle_body(other).take(58),
        bundle_body(transaction).skip(58 + transaction.len() as int) == bundle_body(other).skip(
            58 + other.len() as int,
        ),
        bundle_body(transaction) == bundle_body(other) ==> transaction == other,
{
    reveal_strlit("{\"id\":1,\"jsonrpc\":\"2.0\",\"method\":\"sendBundle\",\"params\":[[\"");
    reveal_strlit("\"]]}");
    let a = bundle_body(transaction);
    let b = bundle_body(other);
    assert(a.subrange(58, 58 + transaction.len() as int) =~= transaction);
    assert(b.subrange(58, 58 + other.len() as int) =~= other);
    assert(a.take(58) =~= b.take(58));
    assert(a.skip(58 + transaction.len() as int) =~= b.skip(58 + other.len() as int));
}

// ---- the block engine's reply --------------------------------------------

/// A member of a JSON object: its name, its value as JSON text, and the string it holds if
/// it is one.
#[derive(Debug, Clone, PartialEq, Eq)]
pub struct JsonMember {
    pub name: String,
    pub text: String,
    pub string: Option<String>,
}

/// A JSON value as text, with its members where it is an object.
#[derive(Debug, Clone, PartialEq, Eq)]
pub struct JsonReply {
    pub text: String,
    pub members: Vec<JsonMember>,
}

/// A `JsonMember` as plain sequences.
pub struct Member {
    pub name: Seq<char>,
    pub text: Seq<char>,
    pub string: Option<Seq<char>>,
}

/// A `JsonReply` as plain sequences.
pub struct Reply {
    pub text: Seq<char>,
    pub members: Seq<Member>,
}

impl View for JsonMember {
    type V = Member;

    open spec fn view(&self) -> Member {
        Member { name: self.name@, text: self.text@, string: text_of(self.string) }
    }
}

impl View for JsonReply {
    type V = Reply;

    open spec fn view(&self) -> Reply {
        Reply { text: self.text@, members: self.members@.map_values(|m: JsonMember| m@) }
    }
}

pub open spec fn reply_as(r: Result<JsonReply, String>) -> Result<Reply, Seq<char>> {
    match r {
        Ok(reply) => Ok(reply@),
        Err(message) => Err(message@),
    }
}

/// What `serde_json` reads from the bytes of a reply.
pub uninterp spec fn json_reply(bytes: Seq<u8>) -> Result<Reply, Seq<char>>;

/// Calls `serde_json::from_slice` for a value, and takes from it its text, and the name, text
/// and string of each member. The result depends on the bytes alone.
#[verifier::external_body]
fn parse_reply(bytes: &Vec<u8>) -> (r: Result<JsonReply, String>)
    ensures
        reply_as(r) == json_reply(bytes@),
{
    match serde_json::from_slice::<serde_json::Value>(bytes) {
        Ok(value) => Ok(JsonReply {
            text: value.to_string(),
            members: value.as_object().into_iter().flatten().map(|(name, v)| JsonMember {
                name: name.clone(),
                text: v.to_string(),
                string: v.as_str().map(str::to_owned),
            }).collect(),
        }),
        Err(e) => Err(e.to_string()),
    }
}

/// The first member of a name, from `i` on.
pub open spec fn member_from(members: Seq<Member>, name: Seq<char>, i: int) -> Option<Member>
    decreases members.len() - i,
{
    if i < 0 || i >= members.len() {
        None
    } else if members[i].name == name {
        Some(members[i])
    } else {
        member_from(members, name, i + 1)
    }
}

impl Reply {
    pub open spec fn member(self, name: Seq<char>) -> Option<Member> {
        member_from(self.members, name, 0)
    }
}

impl JsonReply {
    fn member(&self, name: &str) -> (r: Option<&JsonMember>)
        ensures
            r is None ==> self@.member(name@) is None,
            r matches Some(m) ==> self@.member(name@) == Some(m@),
    {
        let ghost members = self@.members;
        let wanted = name.to_owned();
        let mut i: usize = 0;
        while i < self.members.len()
            invariant
                i <= self.members@.len(),
                members == self@.members,
                wanted@ == name@,
                member_from(members, name@, 0) == member_from(members, name@, i as int),
            decreases self.members@.len() - i,
        {
            assert(members[i as int] == self.members@[i as int]@);
            if self.members[i].name == wanted {
                return Some(&self.members[i]);
            }
            i = i + 1;
        }
        None
    }
}

pub open spec fn outcome_as(r: Result<BuyOutcome, String>) -> Result<Outcome, Seq<char>> {
    match r {
        Ok(outcome) => Ok(outcome@),
        Err(message) => Err(message@),
    }
}

/// What the block engine's answer to a bundle means. A body that is no JSON is an error
/// before anything else, then an HTTP status other than success, then an `error` member. The
/// bundle's identifier is the string `result`.
pub open spec fn bundle_outcome(
    code: u16,
    status: Seq<char>,
    body: Result<Reply, Seq<char>>,
    signature: Seq<char>,
) -> Result<Outcome, Seq<char>> {
    match body {
        Err(_) => Err("parse bundle response"@),
        Ok(reply) => if code < 200 || code >= 300 {
            Err("bundle HTTP "@ + status + ": "@ + reply.text)
        } else {
            match reply.member("error"@) {
                Some(error) => Err("bundle RPC error: "@ + error.text),
                None => Ok(
                    Outcome::BundleSubmitted { bundle_id: bundle_id_of(reply), signature },
                ),
            }
        },
    }
}

pub open spec fn bundle_id_of(reply: Reply) -> Seq<char> {
    match reply.member("result"@) {
        Some(member) => match member.string {
            Some(id) => id,
            None => "<unknown>"@,
        },
        None => "<unknown>"@,
    }
}

/// Reads the answer to a bundle, given its JSON.
pub fn judge_bundle_reply(
    code: u16,
    status: &str,
    body: &Result<JsonReply, String>,
    signature: String,
) -> (r: Result<BuyOutcome, String>)
    ensures
        outcome_as(r) == bundle_outcome(code, status@, reply_as(*body), signature@),
{
    let reply = match body {
        Err(_) => {
            return Err("parse bundle response".to_owned());
        },
        Ok(reply) => reply,
    };
    if code < 200 || code >= 300 {
        let mut message = "bundle HTTP ".to_owned();
        message.append(status);
        message.append(": ");
        message.append(reply.text.as_str());
        return Err(message);
    }
    if let Some(error) = reply.member("error") {
        let mut message = "bundle RPC error: ".to_owned();
        message.append(error.text.as_str());
        return Err(message);
    }
    let bundle_id = match reply.member("result") {
        Some(member) => match &member.string {
            Some(id) => id.clone(),
            None => "<unknown>".to_owned(),
        },
        None => "<unknown>".to_owned(),
    };
    Ok(BuyOutcome::BundleSubmitted { bundle_id, signature })
}

/// Reads the answer to a bundle from its HTTP status and its raw body.
pub fn read_bundle_reply(
    code: u16,
    status: &str,
    body: &Vec<u8>,
    signature: String,
) -> (r: Result<BuyOutcome, String>)
    ensures
        outcome_as(r) == bundle_outcome(code, status@, json_reply(body@), signature@),
{
    let parsed = parse_reply(body);
    judge_bundle_reply(code, status, &parsed, signature)
}

/// A bundle counts as submitted only after an HTTP success without an `error` member, and
/// then under the signature of the transaction that was sent.
pub proof fn bundles_are_submitted_only_on_success(
    code: u16,
    status: Seq<char>,
    body: Result<Reply, Seq<char>>,
    signature: Seq<char>,
)
    ensures
        bundle_outcome(code, status, body, signature) is Ok <==> {
            &&& body is Ok
            &&& 200 <= code < 300
            &&& body->Ok_0.member("error"@) is None
        },
        bundle_outcome(code, status, body, signature) matches Ok(outcome) ==> (
        outcome matches Outcome::BundleSubmitted { signature: s, .. } && s == signature),
{
}

/// Why a submission did not go through.
#[derive(Debug, Clone, PartialEq, Eq)]
pub enum SubmitError {
    /// No tip account could be used.
    Tip(TipError),
    /// The recent block hash could not be fetched.
    Blockhash,
    /// The bundle could not be posted.
    Post,
    /// The block engine's reply was no success, and this says why.
    Reply(String),
    /// The transaction could not be sent directly.
    Send,
}

impl SubmitError {
    pub open spec fn text(self) -> Seq<char> {
        match self {
            SubmitError::Tip(e) => e.text(),
            SubmitError::Blockhash => "fetch recent blockhash"@,
            SubmitError::Post => "POST bundle"@,
            SubmitError::Reply(message) => message@,
            SubmitError::Send => "send direct transaction"@,
        }
    }

    pub fn message(&self) -> (r: String)
        ensures
            r@ == self.text(),
    {
        match self {
            SubmitError::Tip(e) => e.message(),
            SubmitError::Blockhash => "fetch recent blockhash".to_owned(),
            SubmitError::Post => "POST bundle".to_owned(),
            SubmitError::Reply(message) => message.clone(),
            SubmitError::Send => "send direct transaction".to_owned(),
        }
    }
}

// ---- tries and retries ---------------------------------------------------

/// What is under way for a buy.
#[derive(Debug, Clone, Copy, PartialEq, Eq, Structural)]
pub enum BuyStage {
    /// The bundle is being submitted, for this time (counted from zero).
    Bundle(u32),
    /// Waiting after this failed submission.
    Pause(u32),
    /// The transaction is being sent directly.
    Direct,
    /// Nothing is left to do.
    Over,
}

/// What has happened to a buy.
#[derive(Debug, Clone, PartialEq, Eq)]
pub enum BuyEvent {
    /// The submission went through.
    Submitted(BuyOutcome),
    /// The submission failed.
    Failed(String),
    /// The wait is over.
    Rested,
}

/// What to do next for a buy.
#[derive(Debug, Clone, PartialEq, Eq)]
pub enum BuyAction {
    SubmitBundle,
    SleepMillis(u64),
    SubmitDirect,
    Finish(BuyOutcome),
}

/// A `BuyEvent` with its texts as sequences.
pub enum Happening {
    Submitted(Outcome),
    Failed(Seq<char>),
    Rested,
}

/// A `BuyAction` with its texts as sequences.
pub enum Order {
    SubmitBundle,
    SleepMillis(nat),
    SubmitDirect,
    Finish(Outcome),
}

impl View for BuyEvent {
    type V = Happening;

    open spec fn view(&self) -> Happening {
        match self {
            BuyEvent::Submitted(outcome) => Happening::Submitted(outcome@),
            BuyEvent::Failed(reason) => Happening::Failed(reason@),
            BuyEvent::Rested => Happening::Rested,
        }
    }
}

impl View for BuyAction {
    type V = Order;

    open spec fn view(&self) -> Order {
        match self {
            BuyAction::SubmitBundle => Order::SubmitBundle,
            BuyAction::SleepMillis(millis) => Order::SleepMillis(*millis as nat),
            BuyAction::SubmitDirect => Order::SubmitDirect,
            BuyAction::Finish(outcome) => Order::Finish(outcome@),
        }
    }
}

/// The progress of a buy.
pub struct Progress {
    pub stage: BuyStage,
    /// How many times a failed bundle is submitted again.
    pub retries: u32,
    /// Why the last submission failed.
    pub last: Option<Seq<char>>,
}

/// Why a buy is given up.
pub open spec fn drop_reason(last: Option<Seq<char>>, direct: Seq<char>) -> Seq<char> {
    "jito failed ("@ + (match last {
        Some(reason) => reason,
        None => "unknown"@,
    }) + "); direct fallback failed ("@ + direct + ")"@
}

impl Progress {
    pub open spec fn wf(self) -> bool {
        match self.stage {
            BuyStage::Bundle(attempt) => attempt <= self.retries,
            BuyStage::Pause(attempt) => attempt <= self.retries,
            _ => true,
        }
    }

    /// Which events can come up.
    pub open spec fn expects(self, event: Happening) -> bool {
        match self.stage {
            BuyStage::Bundle(_) => !(event is Rested),
            BuyStage::Pause(_) => event is Rested,
            BuyStage::Direct => !(event is Rested),
            BuyStage::Over => false,
        }
    }

    /// The next step. A bundle that failed is submitted again after a pause that grows with
    /// each try; after the last one the transaction is sent directly, once.
    pub open spec fn step(self, event: Happening) -> (Progress, Order) {
        match (self.stage, event) {
            (_, Happening::Submitted(outcome)) => (
                Progress { stage: BuyStage::Over, ..self },
                Order::Finish(outcome),
            ),
            (BuyStage::Bundle(attempt), Happening::Failed(reason)) => (
                Progress { stage: BuyStage::Pause(attempt), last: Some(reason), ..self },
                Order::SleepMillis(200 * (attempt as nat + 1)),
            ),
            (BuyStage::Pause(attempt), _) => if attempt < self.retries {
                (
                    Progress { stage: BuyStage::Bundle((attempt + 1) as u32), ..self },
                    Order::SubmitBundle,
                )
            } else {
                (Progress { stage: BuyStage::Direct, ..self }, Order::SubmitDirect)
            },
            (_, Happening::Failed(reason)) => (
                Progress { stage: BuyStage::Over, ..self },
                Order::Finish(Outcome::Dropped { reason: drop_reason(self.last, reason) }),
            ),
            _ => (self, Order::SubmitDirect),
        }
    }

    /// How many more events a buy can take at most.
    pub open spec fn steps_left(self) -> nat {
        match self.stage {
            BuyStage::Bundle(attempt) => (2 * (self.retries - attempt) + 3) as nat,
            BuyStage::Pause(attempt) => (2 * (self.retries - attempt) + 2) as nat,
            BuyStage::Direct => 1,
            BuyStage::Over => 0,
        }
    }
}

/// A buy on its way: which submission is under way, and what to do when it has ended.
#[derive(Debug)]
pub struct BuyFlow {
    stage: BuyStage,
    retries: u32,
    last_err: Option<String>,
}

impl View for BuyFlow {
    type V = Progress;

    closed spec fn view(&self) -> Progress {
        Progress { stage: self.stage, retries: self.retries, last: text_of(self.last_err) }
    }
}

/// A venue's name.
pub open spec fn venue_name(venue: Venue) -> Seq<char> {
    match venue {
        Venue::PumpFun => "PumpFun"@,
        Venue::RaydiumLaunchLab => "RaydiumLaunchLab"@,
    }
}

/// What a dry run reports; `buy_sol` is the amount as text.
pub open spec fn dry_run_summary(event: Launch, buy_sol: Seq<char>) -> Seq<char> {
    "[dry-run] would buy "@ + buy_sol + " SOL of mint "@ + base58(event.mint) + " via "@
        + venue_name(event.venue) + " (sig-src="@ + event.signature + ", slot="@ + decimal(
        event.slot as nat,
    ) + ")"@
}

fn summarize(event: &LaunchEvent, buy_sol: &str) -> (r: String)
    ensures
        r@ == dry_run_summary(event@, buy_sol@),
{
    let mut out = "[dry-run] would buy ".to_owned();
    out.append(buy_sol);
    out.append(" SOL of mint ");
    out.append(event.mint.text().as_str());
    out.append(" via ");
    match event.venue {
        Venue::PumpFun => out.append("PumpFun"),
        Venue::RaydiumLaunchLab => out.append("RaydiumLaunchLab"),
    }
    out.append(" (sig-src=");
    out.append(event.signature.as_str());
    out.append(", slot=");
    push_decimal(&mut out, event.slot);
    out.append(")");
    out
}

impl Executor {
    /// Begins a buy. In a dry run the buy is over at once, with a summary; `buy_sol` is the
    /// configured amount as text.
    pub fn buy(&self, event: &LaunchEvent, buy_sol: &str) -> (r: (BuyFlow, BuyAction))
        ensures
            r.0@.wf(),
            r.0@.retries == self.jito.max_bundle_retries,
            r.0@.last is None,
            self.mode is DryRun ==> r.0@.stage is Over && r.1@ == Order::Finish(
                Outcome::Simulated { summary: dry_run_summary(event@, buy_sol@) },
            ),
            self.mode is Live ==> r.0@.stage == BuyStage::Bundle(0) && r.1@
                == Order::SubmitBundle,
    {
        let retries = self.jito.max_bundle_retries;
        match self.mode {
            ExecutionMode::DryRun => {
                let flow = BuyFlow { stage: BuyStage::Over, retries, last_err: None };
                let summary = summarize(event, buy_sol);
                (flow, BuyAction::Finish(BuyOutcome::Simulated { summary }))
            },
            ExecutionMode::Live => {
                let flow = BuyFlow { stage: BuyStage::Bundle(0), retries, last_err: None };
                (flow, BuyAction::SubmitBundle)
            },
        }
    }
}

impl BuyFlow {
    #[verifier::type_invariant]
    spec fn sound(self) -> bool {
        self@.wf()
    }

    /// What is under way.
    pub fn stage(&self) -> (r: BuyStage)
        ensures
            r == self@.stage,
    {
        self.stage
    }

    /// Takes in what has happened and says what to do next.
    pub fn step(&mut self, event: BuyEvent) -> (r: BuyAction)
        requires
            old(self)@.expects(event@),
        ensures
            final(self)@.wf(),
            (final(self)@, r@) == old(self)@.step(event@),
    {
        proof {
            use_type_invariant(&*self);
        }
        match event {
            BuyEvent::Submitted(outcome) => {
                self.stage = BuyStage::Over;
                BuyAction::Finish(outcome)
            },
            BuyEvent::Failed(reason) => {
                if let BuyStage::Bundle(attempt) = self.stage {
                    self.stage = BuyStage::Pause(attempt);
                    self.last_err = Some(reason);
                    BuyAction::SleepMillis(200 * (attempt as u64 + 1))
                } else {
                    let mut message = "jito failed (".to_owned();
                    match &self.last_err {
                        Some(last) => message.append(last.as_str()),
                        None => message.append("unknown"),
                    }
                    message.append("); direct fallback failed (");
                    message.append(reason.as_str());
                    message.append(")");
                    self.stage = BuyStage::Over;
                    BuyAction::Finish(BuyOutcome::Dropped { reason: message })
                }
            },
            BuyEvent::Rested => {
                let attempt: u32 = match self.stage {
                    BuyStage::Pause(attempt) => attempt,
                    _ => 0,
                };
                if attempt < self.retries {
                    self.stage = BuyStage::Bundle(attempt + 1);
                    BuyAction::SubmitBundle
                } else {
                    self.stage = BuyStage::Direct;
                    BuyAction::SubmitDirect
                }
            },
        }
    }
}

/// Every event brings a buy closer to its end, and it ends exactly when it is finished.
pub proof fn buys_come_to_an_end(flow: Progress, event: Happening)
    requires
        flow.wf(),
        flow.expects(event),
    ensures
        flow.step(event).0.wf(),
        flow.step(event).0.steps_left() < flow.steps_left(),
        flow.step(event).0.stage is Over <==> flow.step(event).1 is Finish,
        flow.step(event).0.retries == flow.retries,
{
}

/// A submission that went through ends the buy with its outcome, at whatever stage.
pub proof fn success_ends_a_buy(flow: Progress, outcome: Outcome)
    ensures
        flow.step(Happening::Submitted(outcome)).0.stage is Over,
        flow.step(Happening::Submitted(outcome)).1 == Order::Finish(outcome),
{
}

/// A live buy after some bundle submissions that failed, each followed by its pause.
pub open spec fn after_failures(retries: u32, reasons: Seq<Seq<char>>) -> Progress
    decreases reasons.len(),
{
    if reasons.len() == 0 {
        Progress { stage: BuyStage::Bundle(0), retries, last: None }
    } else {
        after_failures(retries, reasons.drop_last()).step(
            Happening::Failed(reasons.last()),
        ).0.step(Happening::Rested).0
    }
}

/// The bundle is submitted again as long as retries are left, one more time than there are
/// retries; then the transaction is sent directly, once, and a failure there gives the buy up
/// with the reasons of the last bundle and of the direct submission.
pub proof fn failures_lead_to_the_direct_path(
    retries: u32,
    reasons: Seq<Seq<char>>,
    direct: Seq<char>,
)
    requires
        reasons.len() <= retries + 1,
    ensures
        reasons.len() <= retries ==> after_failures(retries, reasons).stage == BuyStage::Bundle(
            reasons.len() as u32,
        ),
        reasons.len() == retries + 1 ==> {
            &&& after_failures(retries, reasons).stage == BuyStage::Direct
            &&& after_failures(retries, reasons).step(Happening::Failed(direct)).1
                == Order::Finish(
                Outcome::Dropped { reason: drop_reason(Some(reasons.last()), direct) },
            )
        },
        after_failures(retries, reasons).retries == retries,
        reasons.len() > 0 ==> after_failures(retries, reasons).last == Some(reasons.last()),
    decreases reasons.len(),
{
    if reasons.len() > 0 {
        failures_lead_to_the_direct_path(retries, reasons.drop_last(), direct);
    }
}

/// While a submission is under way its end is what comes next, during a pause the end of the
/// pause, and nothing comes after the end of a buy.
pub proof fn stages_wait_for_their_end(flow: Progress, outcome: Outcome, reason: Seq<char>)
    ensures
        flow.expects(Happening::Rested) <==> flow.stage is Pause,
        flow.expects(Happening::Failed(reason)) <==> flow.stage is Bundle || flow.stage is Direct,
        flow.expects(Happening::Submitted(outcome)) <==> flow.stage is Bundle
            || flow.stage is Direct,
{
}

/// A failed bundle is followed by a pause, a fifth of a second longer for each try before it,
/// and the reason of the failure is kept.
pub proof fn pauses_grow_with_each_try(flow: Progress, attempt: u32, reason: Seq<char>)
    requires
        flow.stage == BuyStage::Bundle(attempt),
    ensures
        flow.step(Happening::Failed(reason)).1 == Order::SleepMillis(200 * attempt as nat + 200),
        flow.step(Happening::Failed(reason)).0.stage == BuyStage::Pause(attempt),
        flow.step(Happening::Failed(reason)).0.last == Some(reason),
        flow.step(Happening::Failed(reason)).0.retries == flow.retries,
{
}

/// After a pause the bundle is submitted once more while retries are left, and else the
/// transaction is sent directly; the reason of the last failure stays known.
pub proof fn pauses_lead_on(flow: Progress, attempt: u32)
    requires
        flow.stage == BuyStage::Pause(attempt),
    ensures
        ({
            let (next, order) = flow.step(Happening::Rested);
            &&& next.last == flow.last && next.retries == flow.retries
            &&& attempt < flow.retries ==> order == Order::SubmitBundle && next.stage
                == BuyStage::Bundle((attempt + 1) as u32)
            &&& attempt >= flow.retries ==> order == Order::SubmitDirect && next.stage
                == BuyStage::Direct
        }),
{
}

/// A direct submission is not repeated: its failure drops the buy, and the reason given holds
/// the last bundle's failure, or says that it is unknown, and that of the direct submission.
pub proof fn direct_failures_drop_the_buy(flow: Progress, direct: Seq<char>)
    requires
        flow.stage == BuyStage::Direct,
    ensures
        ({
            let (next, order) = flow.step(Happening::Failed(direct));
            let why = order->Finish_0->reason;
            let bundle = match flow.last {
                Some(reason) => reason,
                None => "unknown"@,
            };
            &&& next.stage is Over
            &&& order is Finish && order->Finish_0 is Dropped
            &&& why.len() == bundle.len() + direct.len() + 41
            &&& why.subrange(13, 13 + bundle.len() as int) == bundle
            &&& why.subrange(
                40 + bundle.len() as int,
                40 + bundle.len() as int + direct.len() as int,
            ) == direct
        }),
{
    reveal_strlit("jito failed (");
    reveal_strlit("); direct fallback failed (");
    reveal_strlit(")");
    let bundle = match flow.last {
        Some(reason) => reason,
        None => "unknown"@,
    };
    let why = drop_reason(flow.last, direct);
    assert(why.subrange(13, 13 + bundle.len() as int) =~= bundle);
    assert(why.subrange(
        40 + bundle.len() as int,
        40 + bundle.len() as int + direct.len() as int,
    ) =~= direct);
}

/// The member that a name stands for is the first of that name.
pub proof fn members_are_found_by_name(members: Seq<Member>, name: Seq<char>, from: int)
    requires
        0 <= from,
    ensures
        member_from(members, name, from) matches Some(m) ==> exists|i: int|
            from <= i < members.len() && m == #[trigger] members[i] && m.name == name && forall|
                k: int,
            |
                from <= k < i ==> (#[trigger] members[k]).name != name,
        member_from(members, name, from) is None ==> forall|i: int|
            from <= i < members.len() ==> (#[trigger] members[i]).name != name,
    decreases members.len() - from,
{
    if from < members.len() && members[from].name != name {
        members_are_found_by_name(members, name, from + 1);
    }
}

/// A submitted bundle is known by the string in the reply's `result`, and by a placeholder where
/// that is missing or no string.
pub proof fn bundles_are_known_by_their_result(
    code: u16,
    status: Seq<char>,
    reply: Reply,
    signature: Seq<char>,
    i: int,
)
    requires
        200 <= code < 300,
        forall|k: int| 0 <= k < reply.members.len() ==> (#[trigger] reply.members[k]).name
            != "error"@,
        0 <= i < reply.members.len(),
        reply.members[i].name == "result"@,
        forall|k: int| 0 <= k < i ==> (#[trigger] reply.members[k]).name != "result"@,
    ensures
        bundle_outcome(code, status, Ok(reply), signature) == Ok::<Outcome, Seq<char>>(
            Outcome::BundleSubmitted {
                bundle_id: match reply.members[i].string {
                    Some(id) => id,
                    None => "<unknown>"@,
                },
                signature,
            },
        ),
{
    members_are_found_by_name(reply.members, "error"@, 0);
    members_are_found_by_name(reply.members, "result"@, 0);
    if reply.member("error"@) is Some {
        let k = choose|k: int|
            0 <= k < reply.members.len() && reply.member("error"@) == Some(
                #[trigger] reply.members[k],
            ) && reply.members[k].name == "error"@;
        assert(reply.members[k].name != "error"@);
    }
    assert(reply.member("result"@) is Some) by {
        if reply.member("result"@) is None {
            assert(reply.members[i].name != "result"@);
        }
    }
    let j = choose|j: int|
        0 <= j < reply.members.len() && reply.member("result"@) == Some(#[trigger] reply.members[j])
            && reply.members[j].name == "result"@ && forall|k: int|
            0 <= k < j ==> (#[trigger] reply.members[k]).name != "result"@;
    if i < j {
        assert(reply.members[i].name != "result"@);
    }
    assert(i == j);
}

/// A successful reply without a `result` is a submission all the same, under the placeholder, and
/// a body that is no JSON is never one, whatever the status.
pub proof fn bundles_without_a_result_are_unknown(
    code: u16,
    status: Seq<char>,
    reply: Reply,
    fault: Seq<char>,
    signature: Seq<char>,
)
    requires
        forall|k: int|
            0 <= k < reply.members.len() ==> (#[trigger] reply.members[k]).name != "error"@
                && reply.members[k].name != "result"@,
    ensures
        200 <= code < 300 ==> bundle_outcome(code, status, Ok(reply), signature) == Ok::<
            Outcome,
            Seq<char>,
        >(Outcome::BundleSubmitted { bundle_id: "<unknown>"@, signature }),
        bundle_outcome(code, status, Err(fault), signature) == Err::<Outcome, Seq<char>>(
            "parse bundle response"@,
        ),
{
    members_are_found_by_name(reply.members, "error"@, 0);
    members_are_found_by_name(reply.members, "result"@, 0);
}

/// A reply that is no success says why: the status and the whole reply for an HTTP failure, the
/// `error` member for an RPC failure, whatever else the reply holds.
pub proof fn failed_bundles_say_why(
    code: u16,
    status: Seq<char>,
    reply: Reply,
    signature: Seq<char>,
    i: int,
)
    requires
        0 <= i < reply.members.len(),
        reply.members[i].name == "error"@,
        forall|k: int| 0 <= k < i ==> (#[trigger] reply.members[k]).name != "error"@,
    ensures
        code < 200 || code >= 300 ==> bundle_outcome(code, status, Ok(reply), signature) == Err::<
            Outcome,
            Seq<char>,
        >("bundle HTTP "@ + status + ": "@ + reply.text),
        200 <= code < 300 ==> bundle_outcome(code, status, Ok(reply), signature) == Err::<
            Outcome,
            Seq<char>,
        >("bundle RPC error: "@ + reply.members[i].text),
{
    members_are_found_by_name(reply.members, "error"@, 0);
    assert(reply.member("error"@) is Some) by {
        if reply.member("error"@) is None {
            assert(reply.members[i].name != "error"@);
        }
    }
    let j = choose|j: int|
        0 <= j < reply.members.len() && reply.member("error"@) == Some(#[trigger] reply.members[j])
            && reply.members[j].name == "error"@ && forall|k: int|
            0 <= k < j ==> (#[trigger] reply.members[k]).name != "error"@;
    if i < j {
        assert(reply.members[i].name != "error"@);
    }
    assert(i == j);
}

/// A dry run's report names the amount, the mint, the source transaction and the slot of the
/// launch, in that order.
pub proof fn dry_runs_name_the_launch(event: Launch, buy_sol: Seq<char>)
    ensures
        ({
            let report = dry_run_summary(event, buy_sol);
            let mint = base58(event.mint);
            let slot = decimal(event.slot as nat);
            let venue = match event.venue {
                Venue::PumpFun => "PumpFun"@,
                Venue::RaydiumLaunchLab => "RaydiumLaunchLab"@,
            };
            let a = 20 + buy_sol.len() as int;
            let b = a + 13 + mint.len() as int;
            let c = b + 5 + venue.len() as int;
            let d = c + 10 + event.signature.len() as int;
            &&& report.len() == d + 7 + slot.len() + 1
            &&& report.subrange(20, a) == buy_sol
            &&& report.subrange(a + 13, b) == mint
            &&& report.subrange(b + 5, c) == venue
            &&& report.subrange(c + 10, d) == event.signature
            &&& report.subrange(d + 7, d + 7 + slot.len() as int) == slot
        }),
{
    reveal_strlit("[dry-run] would buy ");
    reveal_strlit(" SOL of mint ");
    reveal_strlit(" via ");
    reveal_strlit(" (sig-src=");
    reveal_strlit(", slot=");
    reveal_strlit(")");
    let report = dry_run_summary(event, buy_sol);
    let mint = base58(event.mint);
    let slot = decimal(event.slot as nat);
    let venue = venue_name(event.venue);
    let a = 20 + buy_sol.len() as int;
    let b = a + 13 + mint.len() as int;
    let c = b + 5 + venue.len() as int;
    let d = c + 10 + event.signature.len() as int;
    assert(report.subrange(20, a) =~= buy_sol);
    assert(report.subrange(a + 13, b) =~= mint);
    assert(report.subrange(b + 5, c) =~= venue);
    assert(report.subrange(c + 10, d) =~= event.signature);
    assert(report.subrange(d + 7, d + 7 + slot.len() as int) =~= slot);
}

/// Tip accounts are read from the configured text: what is an address is that address, and
/// anything else is refused with its fault.
pub proof fn tip_accounts_are_addresses(text: Seq<char>)
    ensures
        tip_of(None) == Err::<Seq<u8>, TipError>(TipError::NoAccounts),
        pubkey_from_text(text) matches Ok(key) ==> tip_of(Some(text)) == Ok::<Seq<u8>, TipError>(
            key,
        ),
        pubkey_from_text(text) matches Err(fault) ==> tip_of(Some(text)) == Err::<
            Seq<u8>,
            TipError,
        >(TipError::Malformed(fault)),
{
}

// ---- quotes --------------------------------------------------------------

/// Minimal Jupiter `/quote` response shape. Used when the direct path is unavailable or the
/// venue is non-canonical.
#[derive(Debug, Clone, PartialEq, Eq)]
pub struct JupiterQuote {
    pub out_amount: String,
    pub in_amount: String,
    pub price_impact_pct: Option<String>,
}

/// Where a quote is asked for.
pub fn jupiter_quote_url(
    input_mint: &Pubkey,
    output_mint: &Pubkey,
    amount_in: u64,
    slippage_bps: u32,
) -> (r: String)
    ensures
        r@ == "https://quote-api.jup.ag/v6/quote?inputMint="@ + base58(input_mint@)
            + "&outputMint="@ + base58(output_mint@) + "&amount="@ + decimal(amount_in as nat)
            + "&slippageBps="@ + decimal(slippage_bps as nat),
{
    let mut url = "https://quote-api.jup.ag/v6/quote?inputMint=".to_owned();
    url.append(input_mint.text().as_str());
    url.append("&outputMint=");
    url.append(output_mint.text().as_str());
    url.append("&amount=");
    push_decimal(&mut url, amount_in);
    url.append("&slippageBps=");
    push_decimal(&mut url, slippage_bps as u64);
    url
}

// ---- views ---------------------------------------------------------------

/// Outcomes, events and actions of a buy are seen as they are, each text in its place.
pub proof fn buys_are_seen_as_they_are(outcome: BuyOutcome, event: BuyEvent, action: BuyAction)
    ensures
        match outcome {
            BuyOutcome::BundleSubmitted { bundle_id, signature } => outcome@ == (
            Outcome::BundleSubmitted { bundle_id: bundle_id@, signature: signature@ }),
            BuyOutcome::DirectSubmitted { signature } => outcome@ == (Outcome::DirectSubmitted {
                signature: signature@,
            }),
            BuyOutcome::Simulated { summary } => outcome@ == (Outcome::Simulated {
                summary: summary@,
            }),
            BuyOutcome::Dropped { reason } => outcome@ == (Outcome::Dropped { reason: reason@ }),
        },
        match event {
            BuyEvent::Submitted(o) => event@ == Happening::Submitted(o@),
            BuyEvent::Failed(reason) => event@ == Happening::Failed(reason@),
            BuyEvent::Rested => event@ is Rested,
        },
        match action {
            BuyAction::SubmitBundle => action@ is SubmitBundle,
            BuyAction::SleepMillis(millis) => action@ == Order::SleepMillis(millis as nat),
            BuyAction::SubmitDirect => action@ is SubmitDirect,
            BuyAction::Finish(o) => action@ == Order::Finish(o@),
        },
{
}

/// A reply is seen as it is: its text, and each member with its name, text and string.
pub proof fn replies_are_seen_as_they_are(reply: JsonReply)
    ensures
        reply@.text == reply.text@,
        reply@.members.len() == reply.members@.len(),
        forall|i: int|
            0 <= i < reply.members@.len() ==> (#[trigger] reply@.members[i]).name
                == reply.members@[i].name@ && reply@.members[i].text == reply.members@[i].text@ && (
            reply.members@[i].string is Some <==> reply@.members[i].string is Some) && (
            reply.members@[i].string matches Some(text) ==> reply@.members[i].string == Some(
                text@,
            )),
{
}

} // verus!

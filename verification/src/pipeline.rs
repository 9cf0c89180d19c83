//! From a launch to a buy: which checks come first, and when a wallet is taken.
use vstd::prelude::*;

use crate::binary64::nought;
use crate::detector::{Launch, LaunchEvent};
use crate::filters::{no_facts, FilterEngine, FilterVerdict, LaunchFacts, Rules};
use crate::wallet::{
    acquiring_marks_only_that_wallet, first_available_respects_use, Pool, WalletGuard, WalletPool,
};

verus! {

/// What to do with a new launch.
#[derive(Debug, Clone, PartialEq, Eq)]
pub enum Screening {
    /// The launch was filtered out.
    Skip { reason: String },
    /// The on-chain facts are needed.
    FetchFacts,
}

/// What to do with a launch whose facts are known.
pub enum Decision {
    /// The launch was filtered out.
    Skip { reason: String },
    /// No wallet is available.
    NoWallet,
    /// Buy with this wallet.
    Buy { wallet: WalletGuard },
}

/// The facts that were found, or none of them.
pub open spec fn facts_or_none(facts: Option<LaunchFacts>) -> LaunchFacts {
    match facts {
        Some(known) => known,
        None => no_facts(),
    }
}

/// Cheap pre-check of a new launch, before any chain read.
pub fn screen_launch(filters: &FilterEngine, launch: &LaunchEvent) -> (r: Screening)
    ensures
        match r {
            Screening::Skip { reason } => filters@.prefilter(launch@) == Some(reason@),
            Screening::FetchFacts => filters@.prefilter(launch@) is None,
        },
{
    match filters.prefilter(launch) {
        FilterVerdict::Reject { reason } => Screening::Skip { reason },
        FilterVerdict::Accept => Screening::FetchFacts,
    }
}

/// What is decided of a launch, with the pool before and after.
pub open spec fn decided(
    verdict: Option<Seq<char>>,
    before: Pool,
    r: Decision,
    after: Pool,
) -> bool {
    match r {
        Decision::Skip { reason } => verdict == Some(reason@) && after == before,
        Decision::NoWallet => verdict is None && before.acquires(None, after),
        Decision::Buy { wallet } => {
            &&& verdict is None
            &&& before.acquires(Some(wallet@.index as int), after)
            &&& wallet@.key == before.keys[wallet@.index as int]
        },
    }
}

/// What the full check says of a launch.
#[derive(Debug, Clone, PartialEq, Eq)]
pub enum Judgement {
    /// The launch was filtered out.
    Skip { reason: String },
    /// The launch is worth buying.
    Pass,
}

impl View for Judgement {
    type V = Option<Seq<char>>;

    /// The reason for which a launch was filtered out.
    open spec fn view(&self) -> Option<Seq<char>> {
        match self {
            Judgement::Skip { reason } => Some(reason@),
            Judgement::Pass => None,
        }
    }
}

/// Full check of a launch with its facts, or with none of them where none could be had.
pub fn judge_launch(
    filters: &FilterEngine,
    launch: &LaunchEvent,
    facts: Option<LaunchFacts>,
) -> (r: Judgement)
    ensures
        r@ == filters@.evaluate(launch@, facts_or_none(facts)),
{
    let known = match facts {
        Some(known) => known,
        None => LaunchFacts::default(),
    };
    match filters.evaluate(launch, &known) {
        FilterVerdict::Reject { reason } => Judgement::Skip { reason },
        FilterVerdict::Accept => Judgement::Pass,
    }
}

/// Takes a wallet for a launch that passed.
pub fn assign_wallet(judgement: Judgement, wallets: &mut WalletPool) -> (r: Decision)
    requires
        old(wallets)@.strategy is RoundRobin ==> old(wallets)@.keys.len() > 0,
    ensures
        decided(judgement@, old(wallets)@, r, final(wallets)@),
{
    match judgement {
        Judgement::Skip { reason } => Decision::Skip { reason },
        Judgement::Pass => match wallets.acquire() {
            None => Decision::NoWallet,
            Some(wallet) => Decision::Buy { wallet },
        },
    }
}

/// The full check, and a wallet for a launch that passes it.
pub fn decide_launch(
    filters: &FilterEngine,
    launch: &LaunchEvent,
    facts: Option<LaunchFacts>,
    wallets: &mut WalletPool,
) -> (r: Decision)
    requires
        old(wallets)@.strategy is RoundRobin ==> old(wallets)@.keys.len() > 0,
    ensures
        decided(
            filters@.evaluate(launch@, facts_or_none(facts)),
            old(wallets)@,
            r,
            final(wallets)@,
        ),
{
    assign_wallet(judge_launch(filters, launch, facts), wallets)
}

/// A launch that is bought passed the pre-check and the full check, and so its creator is not
/// on the blocklist.
pub proof fn only_accepted_launches_are_bought(
    rules: Rules,
    launch: Launch,
    facts: LaunchFacts,
    before: Pool,
    wallet: WalletGuard,
    after: Pool,
)
    requires
        decided(rules.evaluate(launch, facts), before, Decision::Buy { wallet }, after),
    ensures
        rules.prefilter(launch) is None,
        rules.evaluate(launch, facts) is None,
        !rules.blocklist.contains(launch.creator),
{
}

/// A launch that is filtered out leaves every wallet as it was.
pub proof fn skipped_launches_take_no_wallet(
    verdict: Option<Seq<char>>,
    before: Pool,
    r: Decision,
    after: Pool,
)
    requires
        decided(verdict, before, r, after),
        verdict is Some,
    ensures
        r is Skip,
        after == before,
{
}

/// A launch that passes is bought whenever a wallet can be had: it is turned away for want of
/// one only where every wallet is in use, or there is none.
pub proof fn passing_launches_wait_only_for_wallets(before: Pool, after: Pool)
    requires
        before.wf(),
        decided(None, before, Decision::NoWallet, after),
    ensures
        after == before,
        before.strategy is FirstAvailable || (before.strategy is Random && before.keys.len() == 0),
        before.strategy is FirstAvailable ==> forall|k: int|
            0 <= k < before.busy.len() ==> before.busy[k],
{
    if before.strategy is FirstAvailable {
        first_available_respects_use(before, None, after);
    }
}

/// The wallet that a launch is bought with is one of the pool's, is marked as in use, and signs
/// with its own key; the other wallets stay as they were.
pub proof fn buys_take_one_wallet(
    verdict: Option<Seq<char>>,
    before: Pool,
    wallet: WalletGuard,
    after: Pool,
)
    requires
        before.wf(),
        before.strategy is RoundRobin ==> before.keys.len() > 0,
        decided(verdict, before, Decision::Buy { wallet }, after),
    ensures
        verdict is None,
        wallet@.index < before.keys.len(),
        wallet@.key == before.keys[wallet@.index as int],
        after.busy == before.busy.update(wallet@.index as int, true),
        before.strategy is FirstAvailable ==> !before.busy[wallet@.index as int],
{
    acquiring_marks_only_that_wallet(before, Some(wallet@.index as int), after);
    if before.strategy is FirstAvailable {
        first_available_respects_use(before, Some(wallet@.index as int), after);
    }
}

/// Facts that were found are used as they are; where none were, the launch is judged as one of
/// which nothing is known.
pub proof fn missing_facts_count_as_nothing(facts: LaunchFacts)
    ensures
        facts_or_none(Some(facts)) == facts,
        ({
            let none = facts_or_none(None);
            &&& none.initial_liquidity_sol@ == nought()
            &&& none.lp_locked_pct@ == nought()
            &&& none.total_supply == 0
            &&& !none.mint_authority_renounced && !none.freeze_authority_null && !none.has_socials
        }),
{
}

} // verus!

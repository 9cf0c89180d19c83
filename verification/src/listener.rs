//! What the bot hears from the transaction stream, and when it reconnects.
use std::time::Duration;

use vstd::arithmetic::power2::{lemma2_to64, lemma_pow2_unfold, pow2};
use vstd::prelude::*;
use vstd::string::*;
use vstd::utf8::is_ascii_chars;

use crate::base58::{base58, encode_base58};
use crate::config::RpcConfig;
use crate::detector::{
    keys, time_only_stamps, Detector, Instruction, Launch, LaunchEvent, Origin, Watch,
};
use crate::pubkey::Pubkey;
use crate::rounding::lemma_pow2_weak;

verus! {

/// Hot-path event emitted by the listener for downstream consumers.
#[derive(Debug, Clone)]
pub enum ListenerEvent {
    Launch(LaunchEvent),
    /// Emitted if the stream dropped and a reconnect is attempted.
    /// The caller may want to log or alert but should not treat this as fatal.
    Reconnecting { attempt: u32, reason: String },
}

/// Subscribes to the venues' programs and picks the launches out of what arrives.
pub struct Listener {
    pub cfg: RpcConfig,
    pub detector: Detector,
}

// ---- transactions --------------------------------------------------------

/// One instruction of a transaction: the program and the accounts are given by their
/// positions in the transaction's account list.
#[derive(Debug, Clone)]
pub struct RawInstruction {
    pub program_id_index: u32,
    pub accounts: Vec<u8>,
    pub data: Vec<u8>,
}

/// The account list and the outer instructions of a transaction.
#[derive(Debug, Clone)]
pub struct RawMessage {
    pub account_keys: Vec<Vec<u8>>,
    pub instructions: Vec<RawInstruction>,
}

/// A transaction as the stream delivers it. The message is missing where the stream left
/// it out; `inner` holds, for each group, the instructions that programs invoked themselves.
#[derive(Debug, Clone)]
pub struct TransactionInfo {
    pub signature: Vec<u8>,
    pub message: Option<RawMessage>,
    pub inner: Vec<Vec<RawInstruction>>,
}

/// The entries of an account list that are addresses; others are passed over.
pub open spec fn valid_keys(raw: Seq<Vec<u8>>) -> Seq<Seq<u8>>
    decreases raw.len(),
{
    if raw.len() == 0 {
        Seq::empty()
    } else {
        let rest = valid_keys(raw.drop_last());
        if raw.last()@.len() == 32 {
            rest.push(raw.last()@)
        } else {
            rest
        }
    }
}

/// The accounts at the given positions; positions past the end are passed over.
pub open spec fn accounts_at(all: Seq<Seq<u8>>, positions: Seq<u8>) -> Seq<Seq<u8>>
    decreases positions.len(),
{
    if positions.len() == 0 {
        Seq::empty()
    } else {
        let rest = accounts_at(all, positions.drop_last());
        if positions.last() < all.len() {
            rest.push(all[positions.last() as int])
        } else {
            rest
        }
    }
}

/// The launch that one instruction stands for, without its time stamp.
pub open spec fn instruction_launch(
    watch: Watch,
    all: Seq<Seq<u8>>,
    origin: Origin,
    ix: RawInstruction,
) -> Option<Launch> {
    if ix.program_id_index < all.len() {
        watch.launch(
            Instruction {
                program_id: all[ix.program_id_index as int],
                data: ix.data@,
                accounts: accounts_at(all, ix.accounts@),
            },
            origin,
            0,
        )
    } else {
        None
    }
}

/// The launches among some instructions, in their order.
pub open spec fn launches_in(
    watch: Watch,
    all: Seq<Seq<u8>>,
    origin: Origin,
    ixs: Seq<RawInstruction>,
) -> Seq<Launch>
    decreases ixs.len(),
{
    if ixs.len() == 0 {
        Seq::empty()
    } else {
        let rest = launches_in(watch, all, origin, ixs.drop_last());
        match instruction_launch(watch, all, origin, ixs.last()) {
            Some(l) => rest.push(l),
            None => rest,
        }
    }
}

/// The launches among groups of instructions, in their order.
pub open spec fn launches_in_groups(
    watch: Watch,
    all: Seq<Seq<u8>>,
    origin: Origin,
    groups: Seq<Vec<RawInstruction>>,
) -> Seq<Launch>
    decreases groups.len(),
{
    if groups.len() == 0 {
        Seq::empty()
    } else {
        launches_in_groups(watch, all, origin, groups.drop_last()) + launches_in(
            watch,
            all,
            origin,
            groups.last()@,
        )
    }
}

/// All launches of a transaction: those of its own instructions, then those of the inner ones.
pub open spec fn transaction_launches(watch: Watch, info: TransactionInfo, slot: u64) -> Seq<
    Launch,
> {
    match info.message {
        None => Seq::empty(),
        Some(message) => {
            let all = valid_keys(message.account_keys@);
            let origin = Origin { signature: base58(info.signature@), slot };
            launches_in(watch, all, origin, message.instructions@) + launches_in_groups(
                watch,
                all,
                origin,
                info.inner@,
            )
        },
    }
}

/// Events without their time stamps.
pub open spec fn unstamped(events: Seq<LaunchEvent>) -> Seq<Launch> {
    events.map_values(|e: LaunchEvent| Launch { observed_at_ms: 0, ..e@ })
}

pub open spec fn unstamped_list(events: Option<Vec<LaunchEvent>>) -> Seq<Launch> {
    match events {
        Some(list) => unstamped(list@),
        None => Seq::empty(),
    }
}

fn collect_keys(raw: &Vec<Vec<u8>>) -> (r: Vec<Pubkey>)
    ensures
        keys(r@) == valid_keys(raw@),
{
    let mut out: Vec<Pubkey> = Vec::new();
    let mut i: usize = 0;
    assert(raw@.take(0) =~= Seq::<Vec<u8>>::empty());
    assert(keys(out@) =~= Seq::<Seq<u8>>::empty());
    while i < raw.len()
        invariant
            i <= raw@.len(),
            keys(out@) == valid_keys(raw@.take(i as int)),
        decreases raw@.len() - i,
    {
        let ghost before = out@;
        assert(raw@.take(i + 1).drop_last() =~= raw@.take(i as int));
        if let Some(key) = Pubkey::from_slice(raw[i].as_slice()) {
            out.push(key);
            assert(keys(out@) =~= keys(before).push(key@));
        }
        i = i + 1;
    }
    assert(raw@.take(raw@.len() as int) =~= raw@);
    out
}

fn collect_accounts(all: &Vec<Pubkey>, positions: &Vec<u8>) -> (r: Vec<Pubkey>)
    ensures
        keys(r@) == accounts_at(keys(all@), positions@),
{
    let mut out: Vec<Pubkey> = Vec::new();
    let mut i: usize = 0;
    assert(positions@.take(0) =~= Seq::<u8>::empty());
    assert(keys(out@) =~= Seq::<Seq<u8>>::empty());
    while i < positions.len()
        invariant
            i <= positions@.len(),
            keys(out@) == accounts_at(keys(all@), positions@.take(i as int)),
        decreases positions@.len() - i,
    {
        let ghost before = out@;
        assert(positions@.take(i + 1).drop_last() =~= positions@.take(i as int));
        let at: usize = positions[i] as usize;
        if at < all.len() {
            out.push(all[at]);
            assert(keys(out@) =~= keys(before).push(all@[at as int]@));
        }
        i = i + 1;
    }
    assert(positions@.take(positions@.len() as int) =~= positions@);
    out
}

/// Appends the launches among some instructions.
fn collect_launches(
    detector: &Detector,
    all: &Vec<Pubkey>,
    signature: &String,
    slot: u64,
    ixs: &Vec<RawInstruction>,
    out: &mut Vec<LaunchEvent>,
)
    ensures
        unstamped(final(out)@) == unstamped(old(out)@) + launches_in(
            detector@,
            keys(all@),
            Origin { signature: signature@, slot },
            ixs@,
        ),
{
    let ghost origin = Origin { signature: signature@, slot };
    let ghost start = unstamped(out@);
    let mut i: usize = 0;
    assert(ixs@.take(0) =~= Seq::<RawInstruction>::empty());
    assert(start =~= start + launches_in(detector@, keys(all@), origin, ixs@.take(0)));
    while i < ixs.len()
        invariant
            i <= ixs@.len(),
            origin == (Origin { signature: signature@, slot }),
            unstamped(out@) == start + launches_in(
                detector@,
                keys(all@),
                origin,
                ixs@.take(i as int),
            ),
        decreases ixs@.len() - i,
    {
        let ix = &ixs[i];
        let ghost before = out@;
        assert(ixs@.take(i + 1).drop_last() =~= ixs@.take(i as int));
        let at: usize = ix.program_id_index as usize;
        if at < all.len() {
            let accounts = collect_accounts(all, &ix.accounts);
            let ghost call = Instruction {
                program_id: all@[at as int]@,
                data: ix.data@,
                accounts: keys(accounts@),
            };
            if let Some(event) = detector.decode(
                &all[at],
                ix.data.as_slice(),
                accounts.as_slice(),
                signature.clone(),
                slot,
            ) {
                proof {
                    time_only_stamps(detector@, call, origin, event.observed_at_ms, 0);
                }
                out.push(event);
                assert(unstamped(out@) =~= unstamped(before).push(
                    Launch { observed_at_ms: 0, ..event@ },
                ));
            }
        }
        assert(unstamped(out@) =~= start + launches_in(
            detector@,
            keys(all@),
            origin,
            ixs@.take(i + 1),
        ));
        i = i + 1;
    }
    assert(ixs@.take(ixs@.len() as int) =~= ixs@);
}

/// Walk the transaction's instructions, matching each to the detector's
/// known programs. One transaction may contain multiple launches (rare but possible).
pub fn extract_launches(detector: &Detector, info: &TransactionInfo, slot: u64) -> (r: Option<
    Vec<LaunchEvent>,
>)
    ensures
        unstamped_list(r) == transaction_launches(detector@, *info, slot),
        r matches Some(list) ==> list@.len() > 0,
{
    let message = match &info.message {
        Some(m) => m,
        None => {
            return None;
        },
    };
    let all = collect_keys(&message.account_keys);
    let signature = encode_base58(info.signature.as_slice());
    let ghost origin = Origin { signature: signature@, slot };
    let mut out: Vec<LaunchEvent> = Vec::new();
    assert(unstamped(out@) =~= Seq::<Launch>::empty());
    collect_launches(detector, &all, &signature, slot, &message.instructions, &mut out);
    let ghost outer = unstamped(out@);
    assert(outer =~= launches_in(detector@, keys(all@), origin, message.instructions@));
    // Inner instructions: a `create` is often invoked by a wrapper program.
    let mut i: usize = 0;
    assert(info.inner@.take(0) =~= Seq::<Vec<RawInstruction>>::empty());
    assert(outer =~= outer + launches_in_groups(detector@, keys(all@), origin, info.inner@.take(0)));
    while i < info.inner.len()
        invariant
            i <= info.inner@.len(),
            origin == (Origin { signature: signature@, slot }),
            unstamped(out@) == outer + launches_in_groups(
                detector@,
                keys(all@),
                origin,
                info.inner@.take(i as int),
            ),
        decreases info.inner@.len() - i,
    {
        collect_launches(detector, &all, &signature, slot, &info.inner[i], &mut out);
        proof {
            let group = info.inner@.take(i + 1);
            assert(group.drop_last() =~= info.inner@.take(i as int));
            assert(unstamped(out@) =~= outer + launches_in_groups(
                detector@,
                keys(all@),
                origin,
                group,
            ));
        }
        i = i + 1;
    }
    assert(info.inner@.take(info.inner@.len() as int) =~= info.inner@);
    if out.len() == 0 {
        assert(unstamped(out@) =~= Seq::<Launch>::empty());
        None
    } else {
        Some(out)
    }
}

// ---- commitment ----------------------------------------------------------

/// How settled a transaction must be before it is reported.
#[derive(Debug, Clone, Copy, PartialEq, Eq, Structural)]
pub enum CommitmentLevel {
    Processed,
    Confirmed,
    Finalized,
}

/// The lowercase form of a text.
pub uninterp spec fn lowercase(text: Seq<char>) -> Seq<char>;

/// An ASCII text with its capital letters made small.
pub open spec fn ascii_lowercase(text: Seq<char>) -> Seq<char> {
    text.map_values(
        |c: char|
            if 'A' <= c <= 'Z' {
                (c as u32 + 32) as char
            } else {
                c
            },
    )
}

pub open spec fn lowercase_of_ascii(text: Seq<char>, lower: Seq<char>) -> bool {
    is_ascii_chars(text) ==> lower == ascii_lowercase(text)
}

/// Calls `str::to_lowercase`. The result depends on the text alone; of an ASCII text it only
/// makes the capital letters small.
#[verifier::external_body]
pub(crate) fn to_lowercase(text: &str) -> (r: String)
    ensures
        r@ == lowercase(text@),
        lowercase_of_ascii(text@, r@),
{
    text.to_lowercase()
}

/// The level that a lowercase name stands for; other names mean the fastest level.
pub open spec fn level_named(name: Seq<char>) -> CommitmentLevel {
    if name == "finalized"@ {
        CommitmentLevel::Finalized
    } else if name == "confirmed"@ {
        CommitmentLevel::Confirmed
    } else {
        CommitmentLevel::Processed
    }
}

/// `parse_commitment` of a name that is lowercase already.
pub fn commitment_named(name: &String) -> (r: CommitmentLevel)
    ensures
        r == level_named(name@),
{
    if *name == "finalized".to_owned() {
        CommitmentLevel::Finalized
    } else if *name == "confirmed".to_owned() {
        CommitmentLevel::Confirmed
    } else {
        CommitmentLevel::Processed
    }
}

/// Reads a commitment level, whatever its case; unknown names mean the fastest level.
pub fn parse_commitment(s: &str) -> (r: CommitmentLevel)
    ensures
        r == level_named(lowercase(s@)),
        is_ascii_chars(s@) ==> r == level_named(ascii_lowercase(s@)),
{
    commitment_named(&to_lowercase(s))
}

// ---- the subscription ----------------------------------------------------

/// What the listener asks the stream for: transactions that are neither votes nor failed and
/// that touch the required accounts.
#[derive(Debug, Clone)]
pub struct Subscription {
    pub label: String,
    pub vote: bool,
    pub failed: bool,
    pub account_required: Vec<String>,
    pub commitment: CommitmentLevel,
}

pub open spec fn texts(list: Seq<String>) -> Seq<Seq<char>> {
    list.map_values(|s: String| s@)
}

/// One message of the stream.
#[derive(Debug, Clone)]
pub enum StreamUpdate {
    Transaction { info: Option<TransactionInfo>, slot: u64 },
    Ping,
    Other,
}

/// What to do with a message.
#[derive(Debug, Clone)]
pub enum UpdateAction {
    /// Hand these launches on, in order.
    Emit(Vec<LaunchEvent>),
    /// Answer the keep-alive so that the connection stays open.
    Pong { id: i32 },
    Ignore,
}

impl Listener {
    pub fn new(cfg: RpcConfig, detector: Detector) -> (r: Listener)
        ensures
            r.cfg == cfg,
            r.detector == detector,
    {
        Listener { cfg, detector }
    }

    /// The access token, where one is configured.
    pub fn access_token(&self) -> (r: Option<String>)
        ensures
            r is Some <==> self.cfg.geyser_x_token@.len() > 0,
            r matches Some(t) ==> t@ == self.cfg.geyser_x_token@,
    {
        if self.cfg.geyser_x_token.as_str().is_empty() {
            None
        } else {
            Some(self.cfg.geyser_x_token.clone())
        }
    }

    /// The subscription: the watched programs at the configured commitment level.
    pub fn subscription(&self) -> (r: Subscription)
        ensures
            r.label@ == "launches"@,
            !r.vote,
            !r.failed,
            texts(r.account_required@) == self.detector@.program_ids().map_values(
                |k: Seq<u8>| base58(k),
            ),
            r.commitment == level_named(lowercase(self.cfg.commitment@)),
    {
        let ids = self.detector.watched_program_ids();
        let mut account_required: Vec<String> = Vec::new();
        let mut i: usize = 0;
        while i < ids.len()
            invariant
                i <= ids@.len(),
                account_required@.len() == i,
                forall|k: int|
                    0 <= k < i ==> #[trigger] account_required@[k]@ == base58(ids@[k]@),
            decreases ids@.len() - i,
        {
            account_required.push(ids[i].text());
            i = i + 1;
        }
        proof {
            let want = self.detector@.program_ids().map_values(|k: Seq<u8>| base58(k));
            assert(keys(ids@).len() == want.len());
            assert forall|k: int| 0 <= k < ids@.len() implies #[trigger] want[k] == base58(
                ids@[k]@,
            ) by {
                assert(keys(ids@)[k] == ids@[k]@);
            }
            assert(texts(account_required@) =~= want);
        }
        Subscription {
            label: "launches".to_owned(),
            vote: false,
            failed: false,
            account_required,
            commitment: parse_commitment(self.cfg.commitment.as_str()),
        }
    }

    /// Decides on one message of the stream.
    pub fn on_update(&self, update: &StreamUpdate) -> (r: UpdateAction)
        ensures
            match *update {
                StreamUpdate::Transaction { info: Some(info), slot } => {
                    let found = transaction_launches(self.detector@, info, slot);
                    if found.len() == 0 {
                        r is Ignore
                    } else {
                        r matches UpdateAction::Emit(list) && unstamped(list@) == found
                    }
                },
                StreamUpdate::Transaction { info: None, .. } => r is Ignore,
                StreamUpdate::Ping => r matches UpdateAction::Pong { id } && id == 1,
                StreamUpdate::Other => r is Ignore,
            },
    {
        match update {
            StreamUpdate::Transaction { info: Some(info), slot } => {
                match extract_launches(&self.detector, info, *slot) {
                    Some(list) => {
                        assert(unstamped(list@).len() == list@.len());
                        UpdateAction::Emit(list)
                    },
                    None => UpdateAction::Ignore,
                }
            },
            StreamUpdate::Transaction { info: None, .. } => UpdateAction::Ignore,
            StreamUpdate::Ping => UpdateAction::Pong { id: 1 },
            StreamUpdate::Other => UpdateAction::Ignore,
        }
    }
}

// ---- reconnecting --------------------------------------------------------

/// The pause before a reconnect: a quarter of a second, doubled for each attempt up to six.
pub open spec fn backoff(attempt: u32) -> nat {
    250 * pow2(if attempt < 6 {
        attempt as nat
    } else {
        6
    })
}

/// A duration of so many milliseconds.
pub uninterp spec fn duration_of_millis(millis: u64) -> Duration;

/// `Duration::from_millis`, whose result depends on the number alone.
pub assume_specification[ Duration::from_millis ](millis: u64) -> (r: Duration)
    ensures
        r == duration_of_millis(millis),
;

pub fn backoff_millis(attempt: u32) -> (r: u64)
    ensures
        r == backoff(attempt),
{
    let capped: u32 = if attempt < 6 {
        attempt
    } else {
        6
    };
    let mut millis: u64 = 250;
    let mut i: u32 = 0;
    proof {
        lemma2_to64();
    }
    while i < capped
        invariant
            i <= capped <= 6,
            millis == 250 * pow2(i as nat),
            pow2(6) == 64,
        decreases capped - i,
    {
        proof {
            lemma_pow2_unfold((i + 1) as nat);
            lemma_pow2_weak((i + 1) as nat, 6);
        }
        millis = 2 * millis;
        i = i + 1;
    }
    millis
}

pub fn backoff_for(attempt: u32) -> (r: Duration)
    ensures
        r == duration_of_millis(backoff(attempt) as u64),
{
    let millis = backoff_millis(attempt);
    Duration::from_millis(millis)
}

/// How a connection to the stream ended.
#[derive(Debug, Clone)]
pub enum StreamEnd {
    /// The server closed the stream.
    Clean,
    /// The connection failed.
    Failed { reason: String },
    /// Nobody takes the events any more.
    ConsumerGone,
}

/// What the listener does next.
#[derive(Debug, Clone)]
pub enum NextStep {
    /// Tell the consumer, if there is something to tell, pause, and connect again.
    Reconnect { notice: Option<ListenerEvent>, pause_ms: u64 },
    /// Stop listening.
    Stop,
}

/// Counts the connections made so far.
#[derive(Debug, Clone, Copy)]
pub struct Reconnector {
    pub attempt: u32,
}

impl Reconnector {
    pub fn new() -> (r: Reconnector)
        ensures
            r.attempt == 0,
    {
        Reconnector { attempt: 0 }
    }

    /// Decides what follows the end of a connection. A failure is reported with the number of
    /// the connection that failed; dropping the consumer ends the listener.
    pub fn after(&mut self, end: StreamEnd) -> (r: NextStep)
        requires
            old(self).attempt < u32::MAX,
        ensures
            match end {
                StreamEnd::ConsumerGone => r is Stop && *final(self) == *old(self),
                StreamEnd::Clean => {
                    &&& final(self).attempt == old(self).attempt + 1
                    &&& r matches NextStep::Reconnect { notice, pause_ms } && notice is None
                        && pause_ms == backoff(final(self).attempt)
                },
                StreamEnd::Failed { reason } => {
                    &&& final(self).attempt == old(self).attempt + 1
                    &&& r matches NextStep::Reconnect { notice, pause_ms } && pause_ms == backoff(
                        final(self).attempt,
                    ) && notice == Some(
                        ListenerEvent::Reconnecting { attempt: old(self).attempt, reason },
                    )
                },
            },
    {
        let notice = match end {
            StreamEnd::ConsumerGone => {
                return NextStep::Stop;
            },
            StreamEnd::Clean => None,
            StreamEnd::Failed { reason } => Some(
                ListenerEvent::Reconnecting { attempt: self.attempt, reason },
            ),
        };
        self.attempt = self.attempt + 1;
        NextStep::Reconnect { notice, pause_ms: backoff_millis(self.attempt) }
    }
}

// ---- laws ----------------------------------------------------------------

/// The pause never shrinks from one attempt to a later one, and never exceeds sixteen seconds.
pub proof fn backoff_grows_to_a_cap(a: u32, b: u32)
    requires
        a <= b,
    ensures
        250 <= backoff(a) <= backoff(b) <= 16_000,
        a >= 6 ==> backoff(a) == 16_000,
{
    lemma2_to64();
    let x: nat = if a < 6 { a as nat } else { 6 };
    let y: nat = if b < 6 { b as nat } else { 6 };
    lemma_pow2_weak(x, y);
    lemma_pow2_weak(y, 6);
}

/// A launch found among some instructions carries the transaction's signature and slot.
proof fn lemma_launches_in_origin(
    watch: Watch,
    all: Seq<Seq<u8>>,
    origin: Origin,
    ixs: Seq<RawInstruction>,
)
    ensures
        forall|i: int|
            0 <= i < launches_in(watch, all, origin, ixs).len() ==> (#[trigger] launches_in(
                watch,
                all,
                origin,
                ixs,
            )[i]).signature == origin.signature && launches_in(watch, all, origin, ixs)[i].slot
                == origin.slot,
    decreases ixs.len(),
{
    if ixs.len() > 0 {
        lemma_launches_in_origin(watch, all, origin, ixs.drop_last());
    }
}

proof fn lemma_groups_origin(
    watch: Watch,
    all: Seq<Seq<u8>>,
    origin: Origin,
    groups: Seq<Vec<RawInstruction>>,
)
    ensures
        forall|i: int|
            0 <= i < launches_in_groups(watch, all, origin, groups).len() ==> (
            #[trigger] launches_in_groups(watch, all, origin, groups)[i]).signature
                == origin.signature && launches_in_groups(watch, all, origin, groups)[i].slot
                == origin.slot,
    decreases groups.len(),
{
    if groups.len() > 0 {
        lemma_groups_origin(watch, all, origin, groups.drop_last());
        lemma_launches_in_origin(watch, all, origin, groups.last()@);
    }
}

/// Every launch of a transaction carries the transaction's signature and slot.
pub proof fn launches_carry_their_origin(watch: Watch, info: TransactionInfo, slot: u64)
    ensures
        forall|i: int|
            0 <= i < transaction_launches(watch, info, slot).len() ==> (
            #[trigger] transaction_launches(watch, info, slot)[i]).signature == base58(
                info.signature@,
            ) && transaction_launches(watch, info, slot)[i].slot == slot,
{
    if let Some(message) = info.message {
        let all = valid_keys(message.account_keys@);
        let origin = Origin { signature: base58(info.signature@), slot };
        lemma_launches_in_origin(watch, all, origin, message.instructions@);
        lemma_groups_origin(watch, all, origin, info.inner@);
    }
}

/// A detector that watches no venue finds no launch.
pub proof fn idle_detector_finds_nothing(watch: Watch, info: TransactionInfo, slot: u64)
    requires
        watch.pumpfun is None,
        watch.raydium is None,
    ensures
        transaction_launches(watch, info, slot).len() == 0,
{
    if let Some(message) = info.message {
        let all = valid_keys(message.account_keys@);
        let origin = Origin { signature: base58(info.signature@), slot };
        lemma_idle(watch, all, origin, message.instructions@);
        lemma_idle_groups(watch, all, origin, info.inner@);
    }
}

proof fn lemma_idle(
    watch: Watch,
    all: Seq<Seq<u8>>,
    origin: Origin,
    ixs: Seq<RawInstruction>,
)
    requires
        watch.pumpfun is None,
        watch.raydium is None,
    ensures
        launches_in(watch, all, origin, ixs).len() == 0,
    decreases ixs.len(),
{
    if ixs.len() > 0 {
        lemma_idle(watch, all, origin, ixs.drop_last());
    }
}

proof fn lemma_idle_groups(
    watch: Watch,
    all: Seq<Seq<u8>>,
    origin: Origin,
    groups: Seq<Vec<RawInstruction>>,
)
    requires
        watch.pumpfun is None,
        watch.raydium is None,
    ensures
        launches_in_groups(watch, all, origin, groups).len() == 0,
    decreases groups.len(),
{
    if groups.len() > 0 {
        lemma_idle_groups(watch, all, origin, groups.drop_last());
        lemma_idle(watch, all, origin, groups.last()@);
    }
}

/// The account list keeps every entry of thirty-two bytes, in order, and nothing else.
pub proof fn account_lists_keep_the_addresses(raw: Seq<Vec<u8>>)
    ensures
        valid_keys(raw) == raw.map_values(|k: Vec<u8>| k@).filter(|k: Seq<u8>| k.len() == 32),
        (forall|i: int| 0 <= i < raw.len() ==> (#[trigger] raw[i])@.len() == 32) ==> valid_keys(raw)
            == raw.map_values(|k: Vec<u8>| k@),
    decreases raw.len(),
{
    reveal(Seq::filter);
    let all = raw.map_values(|k: Vec<u8>| k@);
    if raw.len() > 0 {
        let rest = raw.drop_last();
        account_lists_keep_the_addresses(rest);
        assert(all.drop_last() =~= rest.map_values(|k: Vec<u8>| k@));
        if forall|i: int| 0 <= i < raw.len() ==> (#[trigger] raw[i])@.len() == 32 {
            assert(raw[raw.len() - 1]@.len() == 32);
            assert forall|i: int| 0 <= i < rest.len() implies (#[trigger] rest[i])@.len() == 32 by {
                assert(raw[i]@.len() == 32);
            }
            assert(valid_keys(raw) =~= all);
        }
    } else {
        assert(all =~= Seq::empty());
    }
}

/// An instruction's accounts are those at its positions that exist, in order.
pub proof fn positions_name_accounts(all: Seq<Seq<u8>>, positions: Seq<u8>)
    ensures
        accounts_at(all, positions) == positions.filter(|p: u8| p < all.len()).map_values(
            |p: u8| all[p as int],
        ),
        (forall|i: int| 0 <= i < positions.len() ==> (#[trigger] positions[i]) < all.len())
            ==> accounts_at(all, positions).len() == positions.len() && forall|i: int|
            0 <= i < positions.len() ==> #[trigger] accounts_at(all, positions)[i]
                == all[positions[i] as int],
    decreases positions.len(),
{
    reveal(Seq::filter);
    let keep = |p: u8| p < all.len();
    let name = |p: u8| all[p as int];
    if positions.len() > 0 {
        let rest = positions.drop_last();
        let last = positions.last();
        positions_name_accounts(all, rest);
        if last < all.len() {
            assert(positions.filter(keep) == rest.filter(keep).push(last));
            assert(positions.filter(keep).map_values(name) =~= rest.filter(keep).map_values(
                name,
            ).push(all[last as int]));
        } else {
            assert(positions.filter(keep) == rest.filter(keep));
        }
        if forall|i: int| 0 <= i < positions.len() ==> (#[trigger] positions[i]) < all.len() {
            assert(positions[positions.len() - 1] < all.len());
            assert forall|i: int| 0 <= i < rest.len() implies (#[trigger] rest[i]) < all.len() by {
                assert(positions[i] < all.len());
            }
            assert forall|i: int| 0 <= i < positions.len() implies #[trigger] accounts_at(
                all,
                positions,
            )[i] == all[positions[i] as int] by {
                if i < rest.len() {
                    assert(accounts_at(all, rest)[i] == all[rest[i] as int]);
                }
            }
        }
    } else {
        assert(positions.filter(keep).map_values(name) =~= Seq::empty());
    }
}

/// An instruction stands for the launch that its program, its data and its accounts make,
/// looked up in the account list; without its program it stands for none.
pub proof fn instructions_are_looked_up(
    watch: Watch,
    all: Seq<Seq<u8>>,
    origin: Origin,
    ix: RawInstruction,
    call: Instruction,
)
    requires
        ix.program_id_index < all.len() ==> call.program_id == all[ix.program_id_index as int],
        call.data == ix.data@,
        call.accounts == ix.accounts@.filter(|p: u8| p < all.len()).map_values(
            |p: u8| all[p as int],
        ),
    ensures
        ix.program_id_index < all.len() ==> instruction_launch(watch, all, origin, ix)
            == watch.launch(call, origin, 0),
        ix.program_id_index >= all.len() ==> instruction_launch(watch, all, origin, ix) is None,
{
    positions_name_accounts(all, ix.accounts@);
}

/// The launches among two runs of instructions are those of the first, then those of the second.
pub proof fn launches_join(
    watch: Watch,
    all: Seq<Seq<u8>>,
    origin: Origin,
    a: Seq<RawInstruction>,
    b: Seq<RawInstruction>,
)
    ensures
        launches_in(watch, all, origin, a + b) == launches_in(watch, all, origin, a)
            + launches_in(watch, all, origin, b),
    decreases b.len(),
{
    if b.len() > 0 {
        assert((a + b).drop_last() =~= a + b.drop_last());
        launches_join(watch, all, origin, a, b.drop_last());
        assert(launches_in(watch, all, origin, a + b) =~= launches_in(watch, all, origin, a)
            + launches_in(watch, all, origin, b));
    } else {
        assert(a + b =~= a);
        assert(launches_in(watch, all, origin, a) + launches_in(watch, all, origin, b)
            =~= launches_in(watch, all, origin, a));
    }
}

/// Grouping does not matter: the launches of groups are those of all their instructions.
proof fn lemma_groups_flatten(
    watch: Watch,
    all: Seq<Seq<u8>>,
    origin: Origin,
    groups: Seq<Vec<RawInstruction>>,
)
    ensures
        launches_in_groups(watch, all, origin, groups) == launches_in(
            watch,
            all,
            origin,
            groups.map_values(|g: Vec<RawInstruction>| g@).flatten(),
        ),
    decreases groups.len(),
{
    let plain = groups.map_values(|g: Vec<RawInstruction>| g@);
    plain.lemma_flatten_and_flatten_alt_are_equivalent();
    if groups.len() > 0 {
        let rest = groups.drop_last().map_values(|g: Vec<RawInstruction>| g@);
        assert(plain.drop_last() =~= rest);
        rest.lemma_flatten_and_flatten_alt_are_equivalent();
        lemma_groups_flatten(watch, all, origin, groups.drop_last());
        launches_join(watch, all, origin, rest.flatten(), groups.last()@);
        assert(plain.flatten() =~= rest.flatten() + groups.last()@);
    }
}

/// Every instruction that stands for a launch adds it, and nothing else is added.
proof fn lemma_launches_in_complete(
    watch: Watch,
    all: Seq<Seq<u8>>,
    origin: Origin,
    ixs: Seq<RawInstruction>,
)
    ensures
        forall|i: int|
            0 <= i < ixs.len() ==> (instruction_launch(
                watch,
                all,
                origin,
                #[trigger] ixs[i],
            ) matches Some(l) ==> launches_in(watch, all, origin, ixs).contains(l)),
        forall|l: Launch| #[trigger]
            launches_in(watch, all, origin, ixs).contains(l) ==> exists|i: int|
                0 <= i < ixs.len() && instruction_launch(watch, all, origin, #[trigger] ixs[i])
                    == Some(l),
        launches_in(watch, all, origin, ixs).len() == ixs.filter(
            |ix: RawInstruction| instruction_launch(watch, all, origin, ix) is Some,
        ).len(),
    decreases ixs.len(),
{
    reveal(Seq::filter);
    let found = launches_in(watch, all, origin, ixs);
    let known = |ix: RawInstruction| instruction_launch(watch, all, origin, ix) is Some;
    if ixs.len() > 0 {
        let rest = ixs.drop_last();
        let before = launches_in(watch, all, origin, rest);
        lemma_launches_in_complete(watch, all, origin, rest);
        assert forall|i: int| 0 <= i < ixs.len() implies (instruction_launch(
            watch,
            all,
            origin,
            #[trigger] ixs[i],
        ) matches Some(l) ==> found.contains(l)) by {
            if let Some(l) = instruction_launch(watch, all, origin, ixs[i]) {
                if i < rest.len() {
                    assert(rest[i] == ixs[i]);
                    let k = choose|k: int| 0 <= k < before.len() && before[k] == l;
                    assert(found[k] == l);
                } else {
                    assert(found[found.len() - 1] == l);
                }
            }
        }
        assert forall|l: Launch| #[trigger] found.contains(l) implies exists|i: int|
            0 <= i < ixs.len() && instruction_launch(watch, all, origin, #[trigger] ixs[i]) == Some(
                l,
            ) by {
            let k = choose|k: int| 0 <= k < found.len() && found[k] == l;
            if k < before.len() {
                assert(before.contains(l));
                let i = choose|i: int|
                    0 <= i < rest.len() && instruction_launch(
                        watch,
                        all,
                        origin,
                        #[trigger] rest[i],
                    ) == Some(l);
                assert(ixs[i] == rest[i]);
            } else {
                assert(instruction_launch(watch, all, origin, ixs[ixs.len() - 1]) == Some(l));
            }
        }
        assert(known(ixs.last()) <==> instruction_launch(watch, all, origin, ixs.last()) is Some);
    }
}

/// A launch that a program invokes itself is found, whatever the transaction's own instructions
/// are: each instruction of each inner group that stands for a launch adds it.
pub proof fn inner_launches_are_found(
    watch: Watch,
    info: TransactionInfo,
    slot: u64,
    group: int,
    i: int,
)
    requires
        info.message is Some,
        0 <= group < info.inner@.len(),
        0 <= i < info.inner@[group]@.len(),
    ensures
        instruction_launch(
            watch,
            valid_keys((info.message->0).account_keys@),
            Origin { signature: base58(info.signature@), slot },
            info.inner@[group]@[i],
        ) matches Some(l) ==> transaction_launches(watch, info, slot).contains(l),
{
    let all = valid_keys((info.message->0).account_keys@);
    let origin = Origin { signature: base58(info.signature@), slot };
    let outer = launches_in(watch, all, origin, (info.message->0).instructions@);
    let nested = launches_in_groups(watch, all, origin, info.inner@);
    if let Some(l) = instruction_launch(watch, all, origin, info.inner@[group]@[i]) {
        lemma_group_member(watch, all, origin, info.inner@, group, i);
        let k = choose|k: int| 0 <= k < nested.len() && nested[k] == l;
        assert((outer + nested)[outer.len() + k] == l);
    }
}

proof fn lemma_group_member(
    watch: Watch,
    all: Seq<Seq<u8>>,
    origin: Origin,
    groups: Seq<Vec<RawInstruction>>,
    group: int,
    i: int,
)
    requires
        0 <= group < groups.len(),
        0 <= i < groups[group]@.len(),
    ensures
        instruction_launch(watch, all, origin, groups[group]@[i]) matches Some(l)
            ==> launches_in_groups(watch, all, origin, groups).contains(l),
    decreases groups.len(),
{
    let rest = groups.drop_last();
    let before = launches_in_groups(watch, all, origin, rest);
    let last = launches_in(watch, all, origin, groups.last()@);
    if let Some(l) = instruction_launch(watch, all, origin, groups[group]@[i]) {
        if group < rest.len() {
            lemma_group_member(watch, all, origin, rest, group, i);
            let k = choose|k: int| 0 <= k < before.len() && before[k] == l;
            assert((before + last)[k] == l);
        } else {
            lemma_launches_in_complete(watch, all, origin, groups.last()@);
            assert(groups.last()@[i] == groups[group]@[i]);
            let k = choose|k: int| 0 <= k < last.len() && last[k] == l;
            assert((before + last)[before.len() + k] == l);
        }
    }
}

/// A launch among the transaction's own instructions is found, whatever the inner ones are.
pub proof fn outer_launches_are_found(watch: Watch, info: TransactionInfo, slot: u64, i: int)
    requires
        info.message is Some,
        0 <= i < (info.message->0).instructions@.len(),
    ensures
        instruction_launch(
            watch,
            valid_keys((info.message->0).account_keys@),
            Origin { signature: base58(info.signature@), slot },
            (info.message->0).instructions@[i],
        ) matches Some(l) ==> transaction_launches(watch, info, slot).contains(l),
{
    let all = valid_keys((info.message->0).account_keys@);
    let origin = Origin { signature: base58(info.signature@), slot };
    let ixs = (info.message->0).instructions@;
    let outer = launches_in(watch, all, origin, ixs);
    let nested = launches_in_groups(watch, all, origin, info.inner@);
    lemma_launches_in_complete(watch, all, origin, ixs);
    if let Some(l) = instruction_launch(watch, all, origin, ixs[i]) {
        assert(outer.contains(l));
        let k = choose|k: int| 0 <= k < outer.len() && outer[k] == l;
        assert((outer + nested)[k] == l);
    }
}

/// A transaction has as many launches as its own and its inner instructions together stand for,
/// and each of them is what one of those instructions stands for. Without a message there is
/// none.
pub proof fn launches_are_counted(watch: Watch, info: TransactionInfo, slot: u64)
    ensures
        info.message is None ==> transaction_launches(watch, info, slot).len() == 0,
        info.message matches Some(message) ==> {
            let all = valid_keys(message.account_keys@);
            let origin = Origin { signature: base58(info.signature@), slot };
            let known = |ix: RawInstruction| instruction_launch(watch, all, origin, ix) is Some;
            let calls = message.instructions@ + info.inner@.map_values(
                |g: Vec<RawInstruction>| g@,
            ).flatten();
            let found = transaction_launches(watch, info, slot);
            &&& found.len() == calls.filter(known).len()
            &&& forall|l: Launch| #[trigger]
                found.contains(l) ==> exists|i: int|
                    0 <= i < calls.len() && instruction_launch(
                        watch,
                        all,
                        origin,
                        #[trigger] calls[i],
                    ) == Some(l)
        },
{
    if let Some(message) = info.message {
        let all = valid_keys(message.account_keys@);
        let origin = Origin { signature: base58(info.signature@), slot };
        let inner = info.inner@.map_values(|g: Vec<RawInstruction>| g@).flatten();
        lemma_groups_flatten(watch, all, origin, info.inner@);
        launches_join(watch, all, origin, message.instructions@, inner);
        lemma_launches_in_complete(watch, all, origin, message.instructions@ + inner);
    }
}

/// It makes no difference whether instructions stand in the transaction itself or are invoked
/// by a program: two transactions with the same signature, accounts and sequence of
/// instructions have the same launches, however that sequence is split.
pub proof fn nesting_does_not_matter(
    watch: Watch,
    a: TransactionInfo,
    b: TransactionInfo,
    slot: u64,
)
    requires
        a.message is Some,
        b.message is Some,
        a.signature@ == b.signature@,
        (a.message->0).account_keys@ == (b.message->0).account_keys@,
        (a.message->0).instructions@ + a.inner@.map_values(|g: Vec<RawInstruction>| g@).flatten()
            == (b.message->0).instructions@ + b.inner@.map_values(
            |g: Vec<RawInstruction>| g@,
        ).flatten(),
    ensures
        transaction_launches(watch, a, slot) == transaction_launches(watch, b, slot),
{
    let all = valid_keys((a.message->0).account_keys@);
    let origin = Origin { signature: base58(a.signature@), slot };
    let inner_a = a.inner@.map_values(|g: Vec<RawInstruction>| g@).flatten();
    let inner_b = b.inner@.map_values(|g: Vec<RawInstruction>| g@).flatten();
    lemma_groups_flatten(watch, all, origin, a.inner@);
    lemma_groups_flatten(watch, all, origin, b.inner@);
    launches_join(watch, all, origin, (a.message->0).instructions@, inner_a);
    launches_join(watch, all, origin, (b.message->0).instructions@, inner_b);
}

/// Events lose their time stamps and nothing else.
pub proof fn unstamping_keeps_the_rest(events: Seq<LaunchEvent>)
    ensures
        unstamped(events).len() == events.len(),
        forall|i: int|
            0 <= i < events.len() ==> (#[trigger] unstamped(events)[i]).venue == events[i].venue
                && unstamped(events)[i].signature == events[i].signature@
                && unstamped(events)[i].slot == events[i].slot && unstamped(events)[i].mint
                == events[i].mint@ && unstamped(events)[i].creator == events[i].creator@
                && unstamped(events)[i].pool == events[i]@.pool && unstamped(events)[i].name
                == events[i]@.name && unstamped(events)[i].symbol == events[i]@.symbol
                && unstamped(events)[i].uri == events[i]@.uri,
{
}

/// Each pause up to the seventh is twice the one before it, from a quarter of a second on.
pub proof fn backoff_doubles(attempt: u32)
    ensures
        backoff(0) == 250,
        attempt < 6 ==> backoff((attempt + 1) as u32) == 2 * backoff(attempt),
{
    lemma2_to64();
    if attempt < 6 {
        lemma_pow2_unfold((attempt + 1) as nat);
    }
}

/// Two names, and no others, ask for more than the fastest level, in whatever case they are
/// written.
pub proof fn two_names_ask_for_more(name: Seq<char>)
    ensures
        level_named(name) == CommitmentLevel::Finalized <==> name == seq![
            'f',
            'i',
            'n',
            'a',
            'l',
            'i',
            'z',
            'e',
            'd',
        ],
        level_named(name) == CommitmentLevel::Confirmed <==> name == seq![
            'c',
            'o',
            'n',
            'f',
            'i',
            'r',
            'm',
            'e',
            'd',
        ],
        is_ascii_chars(name) ==> level_named(ascii_lowercase(ascii_lowercase(name)))
            == level_named(ascii_lowercase(name)),
{
    reveal_strlit("finalized");
    reveal_strlit("confirmed");
    assert("finalized"@ =~= seq!['f', 'i', 'n', 'a', 'l', 'i', 'z', 'e', 'd']);
    assert("confirmed"@ =~= seq!['c', 'o', 'n', 'f', 'i', 'r', 'm', 'e', 'd']);
    assert("finalized"@[0] != "confirmed"@[0]);
    if is_ascii_chars(name) {
        assert(ascii_lowercase(ascii_lowercase(name)) =~= ascii_lowercase(name));
    }
}

/// A list of events is seen as those events without their stamps, and no list as none of them.
pub proof fn missing_lists_are_empty(list: Vec<LaunchEvent>)
    ensures
        unstamped_list(Some(list)) == unstamped(list@),
        unstamped_list(None).len() == 0,
{
}

/// Texts are seen one by one, in their order.
pub proof fn texts_keep_their_order(list: Seq<String>)
    ensures
        texts(list).len() == list.len(),
        forall|i: int| 0 <= i < list.len() ==> #[trigger] texts(list)[i] == list[i]@,
{
}

proof fn lemma_launches_in_order(
    watch: Watch,
    all: Seq<Seq<u8>>,
    origin: Origin,
    ixs: Seq<RawInstruction>,
)
    ensures
        launches_in(watch, all, origin, ixs) == ixs.filter(
            |ix: RawInstruction| instruction_launch(watch, all, origin, ix) is Some,
        ).map_values(|ix: RawInstruction| instruction_launch(watch, all, origin, ix)->0),
    decreases ixs.len(),
{
    reveal(Seq::filter);
    let known = |ix: RawInstruction| instruction_launch(watch, all, origin, ix) is Some;
    let stands_for = |ix: RawInstruction| instruction_launch(watch, all, origin, ix)->0;
    if ixs.len() > 0 {
        let rest = ixs.drop_last();
        lemma_launches_in_order(watch, all, origin, rest);
        if known(ixs.last()) {
            assert(ixs.filter(known).map_values(stands_for) =~= rest.filter(known).map_values(
                stands_for,
            ).push(stands_for(ixs.last())));
        } else {
            assert(ixs.filter(known) == rest.filter(known));
        }
    } else {
        assert(ixs.filter(known).map_values(stands_for) =~= Seq::empty());
    }
}

/// Launches come in the order of the instructions that they stand for: the transaction's own
/// first, then the inner ones, group by group.
pub proof fn launches_keep_the_order(
    watch: Watch,
    info: TransactionInfo,
    message: RawMessage,
    slot: u64,
)
    requires
        info.message == Some(message),
    ensures
        ({
            let all = valid_keys(message.account_keys@);
            let origin = Origin { signature: base58(info.signature@), slot };
            let calls = message.instructions@ + info.inner@.map_values(
                |g: Vec<RawInstruction>| g@,
            ).flatten();
            transaction_launches(watch, info, slot) == calls.filter(
                |ix: RawInstruction| instruction_launch(watch, all, origin, ix) is Some,
            ).map_values(|ix: RawInstruction| instruction_launch(watch, all, origin, ix)->0)
        }),
{
    let all = valid_keys(message.account_keys@);
    let origin = Origin { signature: base58(info.signature@), slot };
    let inner = info.inner@.map_values(|g: Vec<RawInstruction>| g@).flatten();
    lemma_groups_flatten(watch, all, origin, info.inner@);
    launches_join(watch, all, origin, message.instructions@, inner);
    lemma_launches_in_order(watch, all, origin, message.instructions@ + inner);
}

} // verus!

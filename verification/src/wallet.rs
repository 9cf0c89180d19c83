//! The pool of wallets that pay for buys.
use rand::seq::SliceRandom;
use solana_sdk::signature::Signer;
use std::sync::Arc;
use vstd::arithmetic::div_mod::{
    lemma_fundamental_div_mod, lemma_fundamental_div_mod_converse, lemma_mod_bound,
};
use vstd::prelude::*;
use vstd::string::*;

use crate::config::{RotationStrategy, WalletConfig};
use crate::decimal::{decimal, push_decimal};
use crate::pubkey::Pubkey;

verus! {

// ---- keypairs ------------------------------------------------------------

/// What `serde_json` reads from the text of a keypair file: the bytes of a JSON array of
/// numbers, or what is wrong with the text.
pub uninterp spec fn json_bytes(text: Seq<char>) -> Result<Seq<u8>, Seq<char>>;

/// Why `solana_sdk` does not take some bytes for a keypair, if it does not.
pub uninterp spec fn keypair_fault(bytes: Seq<u8>) -> Option<Seq<char>>;

/// A reading with its bytes and its message as sequences.
pub open spec fn read_as(r: Result<Vec<u8>, String>) -> Result<Seq<u8>, Seq<char>> {
    match r {
        Ok(bytes) => Ok(bytes@),
        Err(message) => Err(message@),
    }
}

/// The numbers of a JSON array of bytes.
pub open spec fn json_items(bytes: Seq<u8>) -> Seq<char>
    decreases bytes.len(),
{
    if bytes.len() == 0 {
        Seq::empty()
    } else if bytes.len() == 1 {
        decimal(bytes[0] as nat)
    } else {
        json_items(bytes.drop_last()) + ","@ + decimal(bytes.last() as nat)
    }
}

/// Some bytes as a JSON array of numbers, the form of a Solana CLI keypair file.
pub open spec fn json_array(bytes: Seq<u8>) -> Seq<char> {
    "["@ + json_items(bytes) + "]"@
}

/// An array of bytes is read as those bytes.
pub open spec fn array_read(text: Seq<char>, r: Result<Vec<u8>, String>) -> bool {
    forall|bytes: Seq<u8>|
        text == #[trigger] json_array(bytes) ==> (r matches Ok(v) && v@ == bytes)
}

/// Calls `serde_json::from_str` for a list of bytes. The result depends on the text alone, and
/// an array of numbers is read as those bytes.
#[verifier::external_body]
fn parse_json_bytes(text: &str) -> (r: Result<Vec<u8>, String>)
    ensures
        read_as(r) == json_bytes(text@),
        array_read(text@, r),
{
    match serde_json::from_str::<Vec<u8>>(text) {
        Ok(bytes) => Ok(bytes),
        Err(e) => Err(e.to_string()),
    }
}

/// The message of a refusal.
pub open spec fn refusal(r: Result<[u8; 32], String>) -> Option<Seq<char>> {
    match r {
        Ok(_) => None,
        Err(message) => Some(message@),
    }
}

/// Calls `solana_sdk::signature::Keypair::from_bytes` and `Signer::pubkey`. Only 64 bytes are
/// ever taken, and the public key is the second half of them. Whether they are taken depends
/// on the bytes alone: the second half has to be the public key of the first.
#[verifier::external_body]
fn check_keypair(bytes: &Vec<u8>) -> (r: Result<[u8; 32], String>)
    ensures
        refusal(r) == keypair_fault(bytes@),
        r matches Ok(public) ==> bytes@.len() == 64 && public@ == bytes@.subrange(32, 64),
{
    match solana_sdk::signature::Keypair::from_bytes(bytes) {
        Ok(keypair) => Ok(keypair.pubkey().to_bytes()),
        Err(e) => Err(e.to_string()),
    }
}

/// A signing key with its public key.
pub struct Keypair {
    bytes: Vec<u8>,
    public: Pubkey,
}

impl View for Keypair {
    type V = Seq<u8>;

    /// The secret key followed by the public key.
    closed spec fn view(&self) -> Seq<u8> {
        self.bytes@
    }
}

/// The public key of a keypair's bytes.
pub open spec fn public_half(bytes: Seq<u8>) -> Seq<u8> {
    bytes.subrange(32, 64)
}

impl Keypair {
    #[verifier::type_invariant]
    spec fn sound(self) -> bool {
        &&& self.bytes@.len() == 64
        &&& keypair_fault(self.bytes@) is None
        &&& self.public@ == public_half(self.bytes@)
    }

    /// A keypair from the secret key followed by the public key.
    pub fn from_bytes(bytes: Vec<u8>) -> (r: Result<Keypair, WalletFault>)
        ensures
            key_as(r) == key_of_bytes(bytes@),
    {
        if bytes.len() != 64 {
            return Err(WalletFault::Length(bytes.len()));
        }
        match check_keypair(&bytes) {
            Ok(public) => Ok(Keypair { bytes, public: Pubkey { bytes: public } }),
            Err(message) => Err(WalletFault::Invalid(message)),
        }
    }

    pub fn pubkey(&self) -> (r: Pubkey)
        ensures
            r@ == public_half(self@),
    {
        proof {
            use_type_invariant(self);
        }
        self.public
    }

    /// The secret key followed by the public key.
    pub fn as_bytes(&self) -> (r: &Vec<u8>)
        ensures
            r@ == self@,
            r@.len() == 64,
            keypair_fault(r@) is None,
    {
        proof {
            use_type_invariant(self);
        }
        &self.bytes
    }
}

/// What is wrong with a keypair file.
#[derive(Debug, Clone, PartialEq, Eq)]
pub enum WalletFault {
    Unreadable,
    Json(String),
    Length(usize),
    Invalid(String),
}

/// A `WalletFault` with its texts as sequences.
pub enum KeyFault {
    Unreadable,
    Json(Seq<char>),
    Length(nat),
    Invalid(Seq<char>),
}

impl View for WalletFault {
    type V = KeyFault;

    open spec fn view(&self) -> KeyFault {
        match self {
            WalletFault::Unreadable => KeyFault::Unreadable,
            WalletFault::Json(message) => KeyFault::Json(message@),
            WalletFault::Length(found) => KeyFault::Length(*found as nat),
            WalletFault::Invalid(message) => KeyFault::Invalid(message@),
        }
    }
}

pub open spec fn key_as(r: Result<Keypair, WalletFault>) -> Result<Seq<u8>, KeyFault> {
    match r {
        Ok(key) => Ok(key@),
        Err(fault) => Err(fault@),
    }
}

/// The keypair that some bytes stand for: exactly 64 of them, that fit together.
pub open spec fn key_of_bytes(bytes: Seq<u8>) -> Result<Seq<u8>, KeyFault> {
    if bytes.len() != 64 {
        Err(KeyFault::Length(bytes.len()))
    } else {
        match keypair_fault(bytes) {
            None => Ok(bytes),
            Some(message) => Err(KeyFault::Invalid(message)),
        }
    }
}

/// The keypair in a file, given the file's text if it could be read.
pub open spec fn key_of_file(contents: Option<Seq<char>>) -> Result<Seq<u8>, KeyFault> {
    match contents {
        None => Err(KeyFault::Unreadable),
        Some(text) => match json_bytes(text) {
            Err(message) => Err(KeyFault::Json(message)),
            Ok(bytes) => key_of_bytes(bytes),
        },
    }
}

/// A file that holds bytes as a JSON array is read as those bytes.
pub open spec fn reads_back(contents: Option<Seq<char>>) -> bool {
    forall|bytes: Seq<u8>|
        contents == Some(#[trigger] json_array(bytes)) ==> key_of_file(contents) == key_of_bytes(
            bytes,
        )
}

pub open spec fn contents_of(contents: Option<String>) -> Option<Seq<char>> {
    match contents {
        None => None,
        Some(text) => Some(text@),
    }
}

/// Reads the keypair in the text of a file, which is a JSON array of 64 bytes.
pub fn load_keypair(contents: &Option<String>) -> (r: Result<Keypair, WalletFault>)
    ensures
        key_as(r) == key_of_file(contents_of(*contents)),
        reads_back(contents_of(*contents)),
{
    match contents {
        None => Err(WalletFault::Unreadable),
        Some(text) => match parse_json_bytes(text.as_str()) {
            Err(message) => Err(WalletFault::Json(message)),
            Ok(bytes) => Keypair::from_bytes(bytes),
        },
    }
}

/// The first keypair file that cannot be used, and why.
#[derive(Debug, Clone, PartialEq, Eq)]
pub struct WalletError {
    pub path: String,
    pub fault: WalletFault,
}

/// What a `WalletError` says.
pub open spec fn wallet_message(path: Seq<char>, fault: KeyFault) -> Seq<char> {
    match fault {
        KeyFault::Unreadable => "reading keypair file "@ + path,
        KeyFault::Json(_) => "parsing keypair JSON at "@ + path,
        KeyFault::Length(found) => "keypair at "@ + path + " has "@ + decimal(found)
            + " bytes, expected 64"@,
        KeyFault::Invalid(_) => "invalid keypair bytes in "@ + path,
    }
}

impl WalletError {
    pub fn message(&self) -> (r: String)
        ensures
            r@ == wallet_message(self.path@, self.fault@),
    {
        match &self.fault {
            WalletFault::Unreadable => {
                let mut out = "reading keypair file ".to_owned();
                out.append(self.path.as_str());
                out
            },
            WalletFault::Json(_) => {
                let mut out = "parsing keypair JSON at ".to_owned();
                out.append(self.path.as_str());
                out
            },
            WalletFault::Length(found) => {
                let mut out = "keypair at ".to_owned();
                out.append(self.path.as_str());
                out.append(" has ");
                push_decimal(&mut out, *found as u64);
                out.append(" bytes, expected 64");
                out
            },
            WalletFault::Invalid(_) => {
                let mut out = "invalid keypair bytes in ".to_owned();
                out.append(self.path.as_str());
                out
            },
        }
    }
}

// ---- the pool ------------------------------------------------------------

/// Calls `SliceRandom::choose` of the `rand` crate with its thread-local generator. It returns
/// nothing from an empty list and one of the items from any other; which one is left to chance.
#[verifier::external_body]
pub(crate) fn choose_item<T>(items: &Vec<T>) -> (r: Option<&T>)
    ensures
        r is None <==> items@.len() == 0,
        r matches Some(item) ==> items@.contains(*item),
{
    items.choose(&mut rand::thread_rng())
}

/// Calls `Arc::clone`: the new pointer leads to the same value.
#[verifier::external_body]
fn share<T>(pointer: &Arc<T>) -> (r: Arc<T>)
    ensures
        *r == **pointer,
{
    pointer.clone()
}

/// The state of a wallet pool.
#[verifier::ext_equal]
pub struct Pool {
    /// The keypairs, as bytes.
    pub keys: Seq<Seq<u8>>,
    pub strategy: RotationStrategy,
    /// How many wallets were handed out in turn, up to wrapping.
    pub cursor: nat,
    /// Which wallets are in use.
    pub busy: Seq<bool>,
}

impl Pool {
    pub open spec fn wf(self) -> bool {
        &&& self.busy.len() == self.keys.len()
        &&& self.cursor <= usize::MAX
    }

    pub open spec fn fresh(keys: Seq<Seq<u8>>, strategy: RotationStrategy) -> Pool {
        Pool { keys, strategy, cursor: 0, busy: Seq::new(keys.len(), |i: int| false) }
    }

    /// The wallet in use.
    pub open spec fn lent(self, idx: int) -> Pool {
        Pool { busy: self.busy.update(idx, true), ..self }
    }

    /// The wallet given back.
    pub open spec fn released(self, idx: int) -> Pool {
        if 0 <= idx < self.busy.len() {
            Pool { busy: self.busy.update(idx, false), ..self }
        } else {
            self
        }
    }

    /// The next wallet's turn.
    pub open spec fn turned(self) -> Pool {
        Pool { cursor: if self.cursor == usize::MAX { 0 } else { self.cursor + 1 }, ..self }
    }

    /// The wallet whose turn it is.
    pub open spec fn turn(self) -> int {
        self.cursor as int % self.keys.len() as int
    }

    /// The first wallet from `i` on that is not in use.
    pub open spec fn first_free(self, i: int) -> Option<int>
        decreases self.busy.len() - i,
    {
        if i < 0 || i >= self.busy.len() {
            None
        } else if !self.busy[i] {
            Some(i)
        } else {
            self.first_free(i + 1)
        }
    }

    /// What a request for a wallet may answer, and the pool after it.
    pub open spec fn acquires(self, r: Option<int>, after: Pool) -> bool {
        match self.strategy {
            RotationStrategy::RoundRobin => {
                &&& r == Some(self.turn())
                &&& after == self.turned().lent(self.turn())
            },
            RotationStrategy::Random => match r {
                None => self.keys.len() == 0 && after == self,
                Some(idx) => 0 <= idx < self.keys.len() && after == self.lent(idx),
            },
            RotationStrategy::FirstAvailable => {
                &&& r == self.first_free(0)
                &&& after == match r {
                    None => self,
                    Some(idx) => self.lent(idx),
                }
            },
        }
    }
}

/// Rotating wallet pool. It hands out wallets according to the configured rotation strategy.
pub struct WalletPool {
    wallets: Vec<Arc<Keypair>>,
    strategy: RotationStrategy,
    cursor: usize,
    /// Tracks in-flight usage so `FirstAvailable` can pick an idle wallet.
    busy: Vec<bool>,
}

pub open spec fn keypairs(wallets: Seq<Arc<Keypair>>) -> Seq<Seq<u8>> {
    wallets.map_values(|w: Arc<Keypair>| w@)
}

impl View for WalletPool {
    type V = Pool;

    closed spec fn view(&self) -> Pool {
        Pool {
            keys: keypairs(self.wallets@),
            strategy: self.strategy,
            cursor: self.cursor as nat,
            busy: self.busy@,
        }
    }
}

/// Every file holds a keypair, and these are they.
pub open spec fn all_keys(files: Seq<Option<String>>, found: Seq<Seq<u8>>) -> bool {
    &&& found.len() == files.len()
    &&& forall|i: int|
        0 <= i < files.len() ==> #[trigger] key_of_file(contents_of(files[i])) == Ok::<
            Seq<u8>,
            KeyFault,
        >(found[i])
}

/// The files hold these keypairs, each as a JSON array of its 64 bytes.
pub open spec fn written(files: Seq<Option<String>>, found: Seq<Seq<u8>>) -> bool {
    &&& found.len() == files.len()
    &&& forall|i: int|
        0 <= i < files.len() ==> {
            &&& contents_of(files[i]) == Some(json_array(#[trigger] found[i]))
            &&& found[i].len() == 64
            &&& keypair_fault(found[i]) is None
        }
}

/// The first file without a keypair.
pub open spec fn first_bad(files: Seq<Option<String>>, i: int, fault: KeyFault) -> bool {
    &&& 0 <= i < files.len()
    &&& key_of_file(contents_of(files[i])) == Err::<Seq<u8>, KeyFault>(fault)
    &&& forall|k: int| 0 <= k < i ==> #[trigger] key_of_file(contents_of(files[k])) is Ok
}

impl WalletPool {
    #[verifier::type_invariant]
    spec fn sound(self) -> bool {
        self.busy@.len() == self.wallets@.len()
    }

    /// Builds the pool from the configured keypair files. `files` holds their texts in the
    /// order of the configuration, and nothing where a file could not be read.
    pub fn load(cfg: &WalletConfig, files: &Vec<Option<String>>) -> (r: Result<
        WalletPool,
        WalletError,
    >)
        requires
            files@.len() == cfg.keypair_paths@.len(),
        ensures
            r matches Ok(pool) ==> all_keys(files@, pool@.keys) && pool@ == Pool::fresh(
                pool@.keys,
                cfg.rotation,
            ),
            r matches Err(e) ==> exists|i: int| #[trigger]
                first_bad(files@, i, e.fault@) && e.path@ == cfg.keypair_paths@[i]@,
            forall|found: Seq<Seq<u8>>| #[trigger]
                written(files@, found) ==> (r matches Ok(pool) && pool@.keys == found),
    {
        let mut wallets: Vec<Arc<Keypair>> = Vec::new();
        let mut busy: Vec<bool> = Vec::new();
        let mut i: usize = 0;
        while i < files.len()
            invariant
                i <= files@.len(),
                files@.len() == cfg.keypair_paths@.len(),
                wallets@.len() == i,
                busy@ == Seq::new(i as nat, |k: int| false),
                forall|k: int|
                    0 <= k < i ==> #[trigger] key_of_file(contents_of(files@[k])) == Ok::<
                        Seq<u8>,
                        KeyFault,
                    >(wallets@[k]@),
                forall|k: int| 0 <= k < i ==> reads_back(#[trigger] contents_of(files@[k])),
            decreases files@.len() - i,
        {
            match load_keypair(&files[i]) {
                Ok(key) => {
                    wallets.push(Arc::new(key));
                    busy.push(false);
                },
                Err(fault) => {
                    assert(first_bad(files@, i as int, fault@));
                    assert forall|found: Seq<Seq<u8>>| !#[trigger] written(files@, found) by {
                        if written(files@, found) {
                            assert(contents_of(files@[i as int]) == Some(
                                json_array(found[i as int]),
                            ));
                        }
                    }
                    return Err(WalletError { path: cfg.keypair_paths[i].clone(), fault });
                },
            }
            i = i + 1;
        }
        let pool = WalletPool { wallets, strategy: cfg.rotation, cursor: 0, busy };
        assert(pool@ =~= Pool::fresh(pool@.keys, cfg.rotation));
        assert forall|found: Seq<Seq<u8>>| #[trigger] written(files@, found) implies pool@.keys
            == found by {
            assert forall|k: int| 0 <= k < found.len() implies pool@.keys[k] == found[k] by {
                assert(contents_of(files@[k]) == Some(json_array(found[k])));
                assert(key_of_file(contents_of(files@[k])) == key_of_bytes(found[k]));
            }
            assert(pool@.keys =~= found);
        }
        Ok(pool)
    }

    pub fn len(&self) -> (r: usize)
        ensures
            r == self@.keys.len(),
    {
        self.wallets.len()
    }

    pub fn is_empty(&self) -> (r: bool)
        ensures
            r == (self@.keys.len() == 0),
    {
        self.wallets.len() == 0
    }

    /// Acquires a wallet for a snipe. The wallet is in use until it is released. Taking turns
    /// needs at least one wallet.
    pub fn acquire(&mut self) -> (r: Option<WalletGuard>)
        requires
            old(self)@.strategy is RoundRobin ==> old(self)@.keys.len() > 0,
        ensures
            final(self)@.wf(),
            old(self)@.acquires(guard_index(r), final(self)@),
            r matches Some(guard) ==> guard@.key == old(self)@.keys[guard@.index as int],
    {
        proof {
            use_type_invariant(&*self);
        }
        match self.strategy {
            RotationStrategy::RoundRobin => {
                let idx: usize = self.cursor % self.wallets.len();
                self.cursor = self.cursor.wrapping_add(1);
                Some(self.lend(idx))
            },
            RotationStrategy::Random => {
                let indices = self.indices();
                match choose_item(&indices) {
                    None => None,
                    Some(idx) => Some(self.lend(*idx)),
                }
            },
            RotationStrategy::FirstAvailable => {
                match self.idle() {
                    None => None,
                    Some(idx) => Some(self.lend(idx)),
                }
            },
        }
    }

    /// Hands out a given wallet.
    pub fn lend(&mut self, idx: usize) -> (r: WalletGuard)
        requires
            idx < old(self)@.keys.len(),
        ensures
            final(self)@.wf(),
            final(self)@ == old(self)@.lent(idx as int),
            r@.index == idx,
            r@.key == old(self)@.keys[idx as int],
    {
        proof {
            use_type_invariant(&*self);
        }
        self.mark_busy(idx);
        WalletGuard { wallet: share(&self.wallets[idx]), idx }
    }

    fn mark_busy(&mut self, idx: usize)
        ensures
            final(self)@.wf(),
            final(self)@ == if idx < old(self)@.busy.len() {
                old(self)@.lent(idx as int)
            } else {
                old(self)@
            },
            final(self).wallets == old(self).wallets,
    {
        proof {
            use_type_invariant(&*self);
        }
        if idx < self.busy.len() {
            self.busy[idx] = true;
        }
    }

    /// Gives a wallet back.
    pub fn release(&mut self, guard: WalletGuard)
        ensures
            final(self)@.wf(),
            final(self)@ == old(self)@.released(guard@.index as int),
    {
        proof {
            use_type_invariant(&*self);
        }
        if guard.idx < self.busy.len() {
            self.busy[guard.idx] = false;
        }
    }

    fn indices(&self) -> (r: Vec<usize>)
        ensures
            r@.len() == self@.keys.len(),
            forall|k: int| 0 <= k < r@.len() ==> r@[k] == k,
    {
        let mut out: Vec<usize> = Vec::new();
        let mut i: usize = 0;
        while i < self.wallets.len()
            invariant
                i <= self.wallets@.len(),
                out@.len() == i,
                forall|k: int| 0 <= k < i ==> out@[k] == k,
            decreases self.wallets@.len() - i,
        {
            out.push(i);
            i = i + 1;
        }
        out
    }

    fn idle(&self) -> (r: Option<usize>)
        ensures
            r is None ==> self@.first_free(0) is None,
            r matches Some(idx) ==> self@.first_free(0) == Some(idx as int) && idx
                < self@.busy.len(),
    {
        let mut i: usize = 0;
        while i < self.busy.len()
            invariant
                i <= self.busy@.len(),
                self@.first_free(0) == self@.first_free(i as int),
            decreases self.busy@.len() - i,
        {
            if !self.busy[i] {
                return Some(i);
            }
            i = i + 1;
        }
        None
    }
}

/// A wallet in use. It stays in use until it is handed to `WalletPool::release`.
#[must_use]
pub struct WalletGuard {
    wallet: Arc<Keypair>,
    idx: usize,
}

/// Which wallet is in use.
pub struct Loan {
    pub index: nat,
    pub key: Seq<u8>,
}

impl View for WalletGuard {
    type V = Loan;

    closed spec fn view(&self) -> Loan {
        Loan { index: self.idx as nat, key: self.wallet@ }
    }
}

pub open spec fn guard_index(r: Option<WalletGuard>) -> Option<int> {
    match r {
        None => None,
        Some(guard) => Some(guard@.index as int),
    }
}

impl WalletGuard {
    pub fn keypair(&self) -> (r: &Keypair)
        ensures
            r@ == self@.key,
    {
        &self.wallet
    }

    pub fn pubkey(&self) -> (r: Pubkey)
        ensures
            r@ == public_half(self@.key),
    {
        self.wallet.pubkey()
    }

    pub fn index(&self) -> (r: usize)
        ensures
            r == self@.index,
    {
        self.idx
    }
}

// ---- laws ----------------------------------------------------------------

/// The pool after `n` requests in turn.
pub open spec fn after_turns(pool: Pool, n: nat) -> Pool
    decreases n,
{
    if n == 0 {
        pool
    } else {
        let before = after_turns(pool, (n - 1) as nat);
        before.turned().lent(before.turn())
    }
}

proof fn lemma_turns(pool: Pool, n: nat)
    requires
        pool.cursor + n <= usize::MAX,
    ensures
        after_turns(pool, n).cursor == pool.cursor + n,
        after_turns(pool, n).keys == pool.keys,
    decreases n,
{
    if n > 0 {
        lemma_turns(pool, (n - 1) as nat);
    }
}

/// Taking turns hands the wallets out in order, one after the other, and starts over after
/// the last; so as many requests as there are wallets use every wallet once. Where the
/// counter wraps around, the order may jump.
pub proof fn round_robin_rotates_through_all(pool: Pool, i: nat, j: nat)
    requires
        pool.keys.len() > 0,
        i < j < i + pool.keys.len(),
        pool.cursor + j <= usize::MAX,
    ensures
        after_turns(pool, i).turn() == (pool.turn() + i) % pool.keys.len() as int,
        after_turns(pool, i).turn() != after_turns(pool, j).turn(),
{
    let n = pool.keys.len() as int;
    let c = pool.cursor as int;
    lemma_turns(pool, i);
    lemma_turns(pool, j);
    vstd::arithmetic::div_mod::lemma_add_mod_noop(c, i as int, n);
    vstd::arithmetic::div_mod::lemma_add_mod_noop(c % n, i as int, n);
    vstd::arithmetic::div_mod::lemma_mod_twice(c, n);
    if (c + i) % n == (c + j) % n {
        vstd::arithmetic::div_mod::lemma_mod_equivalence(c + j, c + i, n);
        vstd::arithmetic::div_mod::lemma_small_mod((j - i) as nat, n as nat);
        assert((c + j) - (c + i) == j - i);
    }
}

/// The first idle wallet is handed out: never one in use, and nothing only when all are.
pub proof fn first_available_respects_use(pool: Pool, r: Option<int>, after: Pool)
    requires
        pool.strategy is FirstAvailable,
        pool.acquires(r, after),
    ensures
        r matches Some(idx) ==> {
            &&& 0 <= idx < pool.busy.len()
            &&& !pool.busy[idx]
            &&& forall|k: int| 0 <= k < idx ==> pool.busy[k]
        },
        r is None ==> forall|k: int| 0 <= k < pool.busy.len() ==> pool.busy[k],
{
    lemma_first_free(pool, 0);
}

proof fn lemma_first_free(pool: Pool, from: int)
    requires
        0 <= from,
    ensures
        pool.first_free(from) matches Some(idx) ==> {
            &&& from <= idx < pool.busy.len()
            &&& !pool.busy[idx]
            &&& forall|k: int| from <= k < idx ==> pool.busy[k]
        },
        pool.first_free(from) is None ==> forall|k: int|
            from <= k < pool.busy.len() ==> pool.busy[k],
    decreases pool.busy.len() - from,
{
    if from < pool.busy.len() && pool.busy[from] {
        lemma_first_free(pool, from + 1);
    }
}

/// A wallet that was handed out is in use until it is given back, whatever the strategy.
/// Nothing changes for the other wallets, and keys and strategy never change.
pub proof fn acquiring_marks_only_that_wallet(pool: Pool, r: Option<int>, after: Pool)
    requires
        pool.wf(),
        pool.strategy is RoundRobin ==> pool.keys.len() > 0,
        pool.acquires(r, after),
    ensures
        after.wf(),
        after.keys == pool.keys,
        after.strategy == pool.strategy,
        r matches Some(idx) ==> {
            &&& 0 <= idx < pool.keys.len()
            &&& after.busy == pool.busy.update(idx, true)
            &&& !after.released(idx).busy[idx]
        },
        r is None ==> after == pool,
{
    if pool.strategy is RoundRobin {
        vstd::arithmetic::div_mod::lemma_mod_bound(pool.cursor as int, pool.keys.len() as int);
    }
    lemma_first_free(pool, 0);
}

/// Giving back a wallet that was idle before restores the pool, up to whose turn it is.
pub proof fn release_undoes_acquire(pool: Pool, idx: int, after: Pool)
    requires
        pool.wf(),
        pool.strategy is RoundRobin ==> pool.keys.len() > 0,
        pool.acquires(Some(idx), after),
        !pool.busy[idx],
    ensures
        after.released(idx).busy == pool.busy,
        !(pool.strategy is RoundRobin) ==> after.released(idx) == pool,
{
    acquiring_marks_only_that_wallet(pool, Some(idx), after);
    assert(after.released(idx).busy =~= pool.busy);
}

/// A wallet that was given back is idle, so the next request for an idle wallet succeeds.
pub proof fn released_wallet_is_available(pool: Pool, idx: int)
    requires
        pool.wf(),
        0 <= idx < pool.keys.len(),
    ensures
        !pool.released(idx).busy[idx],
        pool.released(idx).first_free(0) is Some,
{
    assert(!pool.released(idx).busy[idx]);
    lemma_first_free(pool.released(idx), 0);
}

/// A new pool holds its keys in order, every wallet is idle, and the first one's turn is first.
pub proof fn new_pools_are_idle(keys: Seq<Seq<u8>>, strategy: RotationStrategy)
    ensures
        ({
            let pool = Pool::fresh(keys, strategy);
            &&& pool.keys == keys && pool.strategy == strategy
            &&& pool.cursor == 0
            &&& pool.busy.len() == keys.len()
            &&& forall|i: int| 0 <= i < keys.len() ==> !#[trigger] pool.busy[i]
            &&& forall|r: Option<int>, after: Pool|
                keys.len() > 0 && !(strategy is Random) && #[trigger] pool.acquires(r, after)
                    ==> r == Some(0int)
        }),
{
    let pool = Pool::fresh(keys, strategy);
    if keys.len() > 0 {
        vstd::arithmetic::div_mod::lemma_small_mod(0, keys.len());
        assert(!pool.busy[0]);
    }
}

/// Two requests in a row to a pool that takes turns get neighbouring wallets: the second gets
/// the one behind the first's, or the first wallet of all behind the last. Both are marked, and
/// wallets in use are not passed over.
pub proof fn turns_go_to_the_next_wallet(
    pool: Pool,
    first: Option<int>,
    between: Pool,
    second: Option<int>,
    after: Pool,
)
    requires
        pool.wf(),
        pool.strategy is RoundRobin,
        pool.keys.len() > 0,
        pool.cursor < usize::MAX,
        pool.acquires(first, between),
        between.acquires(second, after),
    ensures
        first is Some,
        first->0 == pool.cursor as int % pool.keys.len() as int,
        between.cursor == pool.cursor + 1,
        second == Some(
            if first->0 == pool.keys.len() - 1 {
                0int
            } else {
                first->0 + 1
            },
        ),
        between.busy == pool.busy.update(first->0, true),
        after.busy == between.busy.update(second->0, true),
{
    let n = pool.keys.len() as int;
    let c = pool.cursor as int;
    let i = c % n;
    lemma_fundamental_div_mod(c, n);
    lemma_mod_bound(c, n);
    let q = c / n;
    if i == n - 1 {
        assert(c + 1 == (q + 1) * n + 0) by (nonlinear_arith)
            requires
                c == n * q + (n - 1),
        ;
        lemma_fundamental_div_mod_converse(c + 1, n, q + 1, 0);
    } else {
        assert(c + 1 == q * n + (i + 1)) by (nonlinear_arith)
            requires
                c == n * q + i,
        ;
        lemma_fundamental_div_mod_converse(c + 1, n, q, i + 1);
    }
}

/// The counter of turns starts over behind its largest value, and only a pool that takes turns
/// counts.
pub proof fn turns_are_counted(pool: Pool, r: Option<int>, after: Pool)
    requires
        pool.acquires(r, after),
    ensures
        pool.strategy is RoundRobin && pool.cursor == usize::MAX ==> after.cursor == 0,
        pool.strategy is RoundRobin && pool.cursor != usize::MAX ==> after.cursor == pool.cursor + 1,
        !(pool.strategy is RoundRobin) ==> after.cursor == pool.cursor,
{
}

/// Two requests in a row for an idle wallet never get the same one, and the second gets none
/// only when the first took the last idle wallet.
pub proof fn idle_wallets_are_lent_once(
    pool: Pool,
    first: int,
    between: Pool,
    second: Option<int>,
    after: Pool,
)
    requires
        pool.wf(),
        pool.strategy is FirstAvailable,
        pool.acquires(Some(first), between),
        between.acquires(second, after),
    ensures
        second matches Some(idx) ==> first < idx < pool.busy.len() && !pool.busy[idx],
        second is None ==> forall|k: int|
            0 <= k < pool.busy.len() && k != first ==> #[trigger] pool.busy[k],
{
    lemma_first_free(pool, 0);
    lemma_first_free(between, 0);
    if let Some(idx) = second {
        assert(!between.busy[idx]);
        assert(pool.busy[idx] == between.busy[idx]);
        if idx < first {
            assert(pool.busy[idx]);
        }
    } else {
        assert forall|k: int|
            0 <= k < pool.busy.len() && k != first implies #[trigger] pool.busy[k] by {
            assert(between.busy[k]);
        }
    }
}

/// Chance may pick any wallet, idle or not, and picks none only from an empty pool.
pub proof fn chance_may_pick_any_wallet(pool: Pool, idx: int)
    requires
        pool.wf(),
        pool.strategy is Random,
    ensures
        0 <= idx < pool.keys.len() ==> pool.acquires(
            Some(idx),
            Pool { busy: pool.busy.update(idx, true), ..pool },
        ),
        (exists|after: Pool| pool.acquires(None, after)) ==> pool.keys.len() == 0,
        !(0 <= idx < pool.keys.len()) ==> forall|after: Pool| !pool.acquires(Some(idx), after),
{
}

/// Giving a wallet back frees that wallet and changes nothing else; a wallet that the pool does
/// not have changes nothing at all.
pub proof fn releasing_frees_only_that_wallet(pool: Pool, idx: int)
    requires
        pool.wf(),
    ensures
        ({
            let after = pool.released(idx);
            &&& after.keys == pool.keys && after.strategy == pool.strategy
            &&& after.cursor == pool.cursor
            &&& after.busy.len() == pool.busy.len()
            &&& forall|k: int|
                0 <= k < pool.busy.len() ==> #[trigger] after.busy[k] == (pool.busy[k] && k
                    != idx)
        }),
{
}

/// A keypair is its secret half followed by its public half, sixty-four bytes that fit together;
/// any other number of bytes is refused with that number, before anything else is looked at.
pub proof fn keypairs_have_two_halves(bytes: Seq<u8>, secret: Seq<u8>, public: Seq<u8>)
    requires
        secret.len() == 32,
        public.len() == 32,
    ensures
        public_half(secret + public) == public,
        key_of_bytes(bytes) is Ok <==> bytes.len() == 64 && keypair_fault(bytes) is None,
        key_of_bytes(bytes) matches Ok(key) ==> key == bytes,
        bytes.len() != 64 ==> key_of_bytes(bytes) == Err::<Seq<u8>, KeyFault>(
            KeyFault::Length(bytes.len()),
        ),
        bytes.len() == 64 ==> (keypair_fault(bytes) matches Some(message) ==> key_of_bytes(bytes)
            == Err::<Seq<u8>, KeyFault>(KeyFault::Invalid(message))),
{
    assert(public_half(secret + public) =~= public);
}

/// A file gives a keypair exactly when it can be read, holds a JSON list of bytes, and those
/// bytes are a keypair; each of the three has its own fault.
pub proof fn keypair_files_fail_in_order(contents: Option<Seq<char>>)
    ensures
        contents is None <==> key_of_file(contents) == Err::<Seq<u8>, KeyFault>(
            KeyFault::Unreadable,
        ),
        contents matches Some(text) ==> match json_bytes(text) {
            Err(message) => key_of_file(contents) == Err::<Seq<u8>, KeyFault>(
                KeyFault::Json(message),
            ),
            Ok(bytes) => {
                &&& key_of_file(contents) is Ok <==> bytes.len() == 64 && keypair_fault(
                    bytes,
                ) is None
                &&& key_of_file(contents) matches Ok(key) ==> key == bytes
                &&& key_of_file(contents) matches Err(fault) ==> fault is Length || fault is Invalid
            },
        },
{
}

/// A pool is loaded from all its files or not at all: where one file is to blame no list of keys
/// fits, and where no file is to blame the keys are those in the files, in their order.
pub proof fn pools_are_loaded_whole(files: Seq<Option<String>>, found: Seq<Seq<u8>>, i: int)
    requires
        all_keys(files, found),
    ensures
        found.len() == files.len(),
        forall|fault: KeyFault| !first_bad(files, i, fault),
        0 <= i < files.len() ==> key_of_file(contents_of(files[i])) == Ok::<Seq<u8>, KeyFault>(
            found[i],
        ) && found[i].len() == 64,
{
    if 0 <= i < files.len() {
        assert(key_of_file(contents_of(files[i])) == Ok::<Seq<u8>, KeyFault>(found[i]));
    }
}

/// The file that is reported is the first without a keypair.
pub proof fn reported_files_are_the_first(
    files: Seq<Option<String>>,
    i: int,
    fault: KeyFault,
    k: int,
    other: KeyFault,
)
    requires
        first_bad(files, i, fault),
        first_bad(files, k, other),
    ensures
        i == k,
        fault == other,
        0 <= i < files.len(),
        key_of_file(contents_of(files[i])) is Err,
{
    assert(key_of_file(contents_of(files[i])) is Err);
    assert(key_of_file(contents_of(files[k])) is Err);
}

/// Every message names the file's path, and that on a wrong length the number of bytes found.
pub proof fn messages_name_the_file(path: Seq<char>, message: Seq<char>, found: nat)
    ensures
        wallet_message(path, KeyFault::Unreadable).skip(21) == path,
        wallet_message(path, KeyFault::Json(message)).skip(24) == path,
        wallet_message(path, KeyFault::Invalid(message)).skip(25) == path,
        wallet_message(path, KeyFault::Length(found)).subrange(11, 11 + path.len() as int) == path,
        wallet_message(path, KeyFault::Length(found)).subrange(
            16 + path.len() as int,
            16 + path.len() as int + decimal(found).len() as int,
        ) == decimal(found),
{
    reveal_strlit("reading keypair file ");
    reveal_strlit("parsing keypair JSON at ");
    reveal_strlit("invalid keypair bytes in ");
    reveal_strlit("keypair at ");
    reveal_strlit(" has ");
    assert(wallet_message(path, KeyFault::Unreadable).skip(21) =~= path);
    assert(wallet_message(path, KeyFault::Json(message)).skip(24) =~= path);
    assert(wallet_message(path, KeyFault::Invalid(message)).skip(25) =~= path);
    let text = wallet_message(path, KeyFault::Length(found));
    assert(text.subrange(11, 11 + path.len() as int) =~= path);
    assert(text.subrange(
        16 + path.len() as int,
        16 + path.len() as int + decimal(found).len() as int,
    ) =~= decimal(found));
}

} // verus!

//! Instructions, signed transactions and their text form.
use base64::Engine;
use solana_sdk::instruction;
use solana_sdk::message::Message;
use solana_sdk::signature::{self, Signer};
use solana_sdk::transaction::Transaction;
use vstd::arithmetic::power2::{lemma2_to64, lemma2_to64_rest, lemma_pow2_adds, pow2};
use vstd::prelude::*;

use crate::base58::base58;
use crate::pubkey::{is_address, Pubkey};
use crate::wallet::{public_half, Keypair};

verus! {

// ---- instructions --------------------------------------------------------

/// An account that an instruction uses.
#[derive(Debug, Clone, Copy, PartialEq, Eq)]
pub struct AccountMeta {
    pub pubkey: Pubkey,
    pub is_signer: bool,
    pub is_writable: bool,
}

/// A call of an on-chain program.
#[derive(Debug, Clone, PartialEq, Eq)]
pub struct TxInstruction {
    pub program_id: Pubkey,
    pub accounts: Vec<AccountMeta>,
    pub data: Vec<u8>,
}

/// An `AccountMeta` with its address as bytes.
pub struct Account {
    pub key: Seq<u8>,
    pub signer: bool,
    pub writable: bool,
}

/// A `TxInstruction` as plain sequences.
#[verifier::ext_equal]
pub struct Call {
    pub program: Seq<u8>,
    pub accounts: Seq<Account>,
    pub data: Seq<u8>,
}

impl View for AccountMeta {
    type V = Account;

    open spec fn view(&self) -> Account {
        Account { key: self.pubkey@, signer: self.is_signer, writable: self.is_writable }
    }
}

impl View for TxInstruction {
    type V = Call;

    open spec fn view(&self) -> Call {
        Call {
            program: self.program_id@,
            accounts: self.accounts@.map_values(|a: AccountMeta| a@),
            data: self.data@,
        }
    }
}

/// The lowest `width` bytes of a number, the lowest first.
pub open spec fn little_endian(n: nat, width: nat) -> Seq<u8>
    decreases width,
{
    if width == 0 {
        Seq::empty()
    } else {
        seq![(n % 256) as u8] + little_endian(n / 256, (width - 1) as nat)
    }
}

/// An instruction of the compute budget program: no accounts, these data.
pub open spec fn budget_call(call: Call, data: Seq<u8>) -> bool {
    &&& is_address("ComputeBudget111111111111111111111111111111"@, call.program)
    &&& call.accounts.len() == 0
    &&& call.data == data
}

/// A transfer by the system program, whose address is all zeros. The payer signs, and both
/// balances change.
pub open spec fn transfer_call(from: Seq<u8>, to: Seq<u8>, lamports: nat) -> Call {
    Call {
        program: Seq::new(32, |i: int| 0u8),
        accounts: seq![
            Account { key: from, signer: true, writable: true },
            Account { key: to, signer: false, writable: true },
        ],
        data: little_endian(2, 4) + little_endian(lamports, 8),
    }
}

/// Calls `ComputeBudgetInstruction::set_compute_unit_limit` of `solana_sdk`: the data are the
/// tag 2 and the limit.
#[verifier::external_body]
pub(crate) fn compute_unit_limit(units: u32) -> (r: TxInstruction)
    ensures
        budget_call(r@, seq![2u8] + little_endian(units as nat, 4)),
{
    let ix = solana_sdk::compute_budget::ComputeBudgetInstruction::set_compute_unit_limit(units);
    TxInstruction {
        program_id: Pubkey { bytes: ix.program_id.to_bytes() },
        accounts: ix.accounts.iter().map(|a| AccountMeta {
            pubkey: Pubkey { bytes: a.pubkey.to_bytes() },
            is_signer: a.is_signer,
            is_writable: a.is_writable,
        }).collect(),
        data: ix.data,
    }
}

/// Calls `ComputeBudgetInstruction::set_compute_unit_price` of `solana_sdk`: the data are the
/// tag 3 and the price.
#[verifier::external_body]
pub(crate) fn compute_unit_price(micro_lamports: u64) -> (r: TxInstruction)
    ensures
        budget_call(r@, seq![3u8] + little_endian(micro_lamports as nat, 8)),
{
    let ix = solana_sdk::compute_budget::ComputeBudgetInstruction::set_compute_unit_price(
        micro_lamports,
    );
    TxInstruction {
        program_id: Pubkey { bytes: ix.program_id.to_bytes() },
        accounts: ix.accounts.iter().map(|a| AccountMeta {
            pubkey: Pubkey { bytes: a.pubkey.to_bytes() },
            is_signer: a.is_signer,
            is_writable: a.is_writable,
        }).collect(),
        data: ix.data,
    }
}

/// Calls `system_instruction::transfer` of `solana_sdk`.
#[verifier::external_body]
pub(crate) fn transfer(from: &Pubkey, to: &Pubkey, lamports: u64) -> (r: TxInstruction)
    ensures
        r@ == transfer_call(from@, to@, lamports as nat),
{
    let ix = solana_sdk::system_instruction::transfer(&from.bytes.into(), &to.bytes.into(), lamports);
    TxInstruction {
        program_id: Pubkey { bytes: ix.program_id.to_bytes() },
        accounts: ix.accounts.iter().map(|a| AccountMeta {
            pubkey: Pubkey { bytes: a.pubkey.to_bytes() },
            is_signer: a.is_signer,
            is_writable: a.is_writable,
        }).collect(),
        data: ix.data,
    }
}

// ---- signing -------------------------------------------------------------

/// Some instructions as plain sequences.
pub open spec fn calls(ixs: Seq<TxInstruction>) -> Seq<Call> {
    ixs.map_values(|ix: TxInstruction| ix@)
}

/// What fits into a transaction that one payer signs: a few small instructions that ask for
/// no other signature.
pub open spec fn signable(list: Seq<Call>, payer: Seq<u8>) -> bool {
    &&& list.len() <= 4
    &&& forall|i: int|
        0 <= i < list.len() ==> {
            &&& (#[trigger] list[i]).accounts.len() <= 32
            &&& list[i].data.len() <= 1024
            &&& forall|k: int|
                0 <= k < list[i].accounts.len() && (#[trigger] list[i].accounts[k]).signer
                    ==> list[i].accounts[k].key == payer
        }
}

/// A signed transaction: its signature in base58 and its bytes.
#[derive(Debug, Clone, PartialEq, Eq)]
pub struct SignedTransaction {
    pub signature: String,
    pub wire: Vec<u8>,
}

/// The bytes of the message that holds some calls, with the account that pays for them.
pub uninterp spec fn message_bytes(
    list: Seq<Call>,
    payer: Seq<u8>,
    blockhash: Seq<u8>,
) -> Seq<u8>;

/// The signature of a keypair over a message.
pub uninterp spec fn signature_over(keypair: Seq<u8>, message: Seq<u8>) -> Seq<u8>;

/// A transaction with one signature: their number, the signature, and the message.
pub open spec fn framed(signature: Seq<u8>, message: Seq<u8>) -> Seq<u8> {
    seq![1u8] + signature + message
}

/// The bytes of the transaction that holds some calls, signed by a keypair, which also pays.
pub open spec fn signed_bytes(
    list: Seq<Call>,
    keypair: Seq<u8>,
    blockhash: Seq<u8>,
) -> Seq<u8> {
    let message = message_bytes(list, public_half(keypair), blockhash);
    framed(signature_over(keypair, message), message)
}

/// Calls `Message::new`, `Transaction::new_unsigned` and `Transaction::sign` of `solana_sdk`
/// and `bincode::serialize`. The message depends on the instructions, the payer and the block
/// hash alone, and the signature on the keypair and the message alone. The bytes are the number
/// of signatures, which is one, the 64 bytes of the signature, and the message; for calls of
/// this size they stay below 64 KiB.
#[verifier::external_body]
pub(crate) fn sign_transaction(
    ixs: &Vec<TxInstruction>,
    keypair: &Keypair,
    blockhash: &[u8; 32],
) -> (r: SignedTransaction)
    requires
        signable(calls(ixs@), public_half(keypair@)),
    ensures
        r.wire@ == framed(
            signature_over(
                keypair@,
                message_bytes(calls(ixs@), public_half(keypair@), blockhash@),
            ),
            message_bytes(calls(ixs@), public_half(keypair@), blockhash@),
        ),
        65 < r.wire@.len() < 0x1_0000,
        r.signature@ == base58(r.wire@.subrange(1, 65)),
{
    let signer = signature::Keypair::from_bytes(keypair.as_bytes()).unwrap();
    let ixs: Vec<_> = ixs.iter().map(|ix| instruction::Instruction {
        program_id: ix.program_id.bytes.into(),
        accounts: ix.accounts.iter().map(|a| instruction::AccountMeta {
            pubkey: a.pubkey.bytes.into(),
            is_signer: a.is_signer,
            is_writable: a.is_writable,
        }).collect(),
        data: ix.data.clone(),
    }).collect();
    let mut tx = Transaction::new_unsigned(Message::new(&ixs, Some(&signer.pubkey())));
    tx.sign(&[&signer], (*blockhash).into());
    SignedTransaction { signature: tx.signatures[0].to_string(), wire: bincode::serialize(&tx).unwrap() }
}

// ---- base64 --------------------------------------------------------------

/// The character of a six-bit value.
pub open spec fn base64_digit(v: int) -> char {
    if v < 26 {
        ('A' as int + v) as char
    } else if v < 52 {
        ('a' as int + (v - 26)) as char
    } else if v < 62 {
        ('0' as int + (v - 52)) as char
    } else if v == 62 {
        '+'
    } else {
        '/'
    }
}

/// Standard base64 with padding: three bytes make four characters.
pub open spec fn base64_text(bytes: Seq<u8>) -> Seq<char>
    decreases bytes.len(),
{
    if bytes.len() == 0 {
        Seq::empty()
    } else if bytes.len() == 1 {
        seq![base64_digit(bytes[0] as int / 4), base64_digit(bytes[0] % 4 * 16), '=', '=']
    } else if bytes.len() == 2 {
        seq![
            base64_digit(bytes[0] as int / 4),
            base64_digit(bytes[0] % 4 * 16 + bytes[1] / 16),
            base64_digit(bytes[1] % 16 * 4),
            '=',
        ]
    } else {
        seq![
            base64_digit(bytes[0] as int / 4),
            base64_digit(bytes[0] % 4 * 16 + bytes[1] / 16),
            base64_digit(bytes[1] % 16 * 4 + bytes[2] / 64),
            base64_digit(bytes[2] as int % 64),
        ] + base64_text(bytes.skip(3))
    }
}

/// Calls `encode` of the `base64` crate's `STANDARD` engine. It panics where the text, a third
/// longer than the bytes, would not fit in memory.
#[verifier::external_body]
pub(crate) fn encode_base64(bytes: &Vec<u8>) -> (r: String)
    requires
        bytes@.len() <= usize::MAX / 4,
    ensures
        r@ == base64_text(bytes@),
{
    base64::engine::general_purpose::STANDARD.encode(bytes)
}

// ---- laws ----------------------------------------------------------------

/// The number that some bytes stand for, the lowest byte first.
pub open spec fn number_in(bytes: Seq<u8>) -> nat
    decreases bytes.len(),
{
    if bytes.len() == 0 {
        0
    } else {
        bytes[0] as nat + 256 * number_in(bytes.skip(1))
    }
}

/// A number that fits into its bytes is read back from them.
pub proof fn little_endian_round_trip(n: nat, width: nat)
    requires
        n < pow2(8 * width),
    ensures
        little_endian(n, width).len() == width,
        number_in(little_endian(n, width)) == n,
    decreases width,
{
    lemma2_to64();
    if width > 0 {
        let rest = little_endian(n / 256, (width - 1) as nat);
        lemma_pow2_adds(8, (8 * (width - 1)) as nat);
        assert(8 + 8 * (width - 1) == 8 * width);
        little_endian_round_trip(n / 256, (width - 1) as nat);
        assert(little_endian(n, width).skip(1) =~= rest);
    }
}

/// A transfer names the system program and both accounts, and its data hold the amount.
pub proof fn transfers_hold_their_amount(from: Seq<u8>, to: Seq<u8>, lamports: nat)
    requires
        lamports <= u64::MAX,
    ensures
        ({
            let call = transfer_call(from, to, lamports);
            &&& call.program.len() == 32
            &&& forall|i: int| 0 <= i < 32 ==> #[trigger] call.program[i] == 0
            &&& call.accounts.len() == 2
            &&& call.accounts[0].key == from && call.accounts[0].signer
                && call.accounts[0].writable
            &&& call.accounts[1].key == to && !call.accounts[1].signer
                && call.accounts[1].writable
            &&& call.data.len() == 12
            &&& number_in(call.data.subrange(0, 4)) == 2
            &&& number_in(call.data.subrange(4, 12)) == lamports
        }),
{
    lemma2_to64();
    lemma2_to64_rest();
    little_endian_round_trip(2, 4);
    little_endian_round_trip(lamports, 8);
    let data = transfer_call(from, to, lamports).data;
    assert(data.subrange(0, 4) =~= little_endian(2, 4));
    assert(data.subrange(4, 12) =~= little_endian(lamports, 8));
}

/// An instruction is seen as it is: its program, its data, and each account with its role.
pub proof fn instructions_are_seen_as_they_are(ix: TxInstruction)
    ensures
        ix@.program == ix.program_id@,
        ix@.data == ix.data@,
        ix@.accounts.len() == ix.accounts@.len(),
        forall|i: int|
            0 <= i < ix.accounts@.len() ==> (#[trigger] ix@.accounts[i]).key
                == ix.accounts@[i].pubkey@ && ix@.accounts[i].signer == ix.accounts@[i].is_signer
                && ix@.accounts[i].writable == ix.accounts@[i].is_writable,
{
}

/// Instructions are seen one by one, in their order.
pub proof fn calls_keep_their_order(ixs: Seq<TxInstruction>)
    ensures
        calls(ixs).len() == ixs.len(),
        forall|i: int| 0 <= i < ixs.len() ==> #[trigger] calls(ixs)[i] == ixs[i]@,
{
}

/// A transaction's bytes are a one, the signature and the message; the signature is the keypair's
/// over that message, and the message pays from the keypair's public half.
pub proof fn transactions_are_framed(list: Seq<Call>, keypair: Seq<u8>, blockhash: Seq<u8>)
    ensures
        ({
            let message = message_bytes(list, keypair.subrange(32, 64), blockhash);
            let signature = signature_over(keypair, message);
            let wire = signed_bytes(list, keypair, blockhash);
            &&& wire.len() == 1 + signature.len() + message.len()
            &&& wire[0] == 1
            &&& wire.subrange(1, 1 + signature.len() as int) == signature
            &&& wire.skip(1 + signature.len() as int) == message
        }),
{
    let message = message_bytes(list, public_half(keypair), blockhash);
    let signature = signature_over(keypair, message);
    let wire = framed(signature, message);
    assert(wire.subrange(1, 1 + signature.len() as int) =~= signature);
    assert(wire.skip(1 + signature.len() as int) =~= message);
}

} // verus!

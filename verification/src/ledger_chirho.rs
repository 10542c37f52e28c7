//! Transactions and blocks of a small ledger.

use core::time::Duration;
use std::time::{SystemTime, SystemTimeError};
use vstd::prelude::*;
use vstd::std_specs::iter::IteratorSpec;
use vstd::string::StrSliceExecFns;

use crate::text_chirho::{hex_chirho, push_char_chirho, push_hex_chirho, push_str_chirho};

verus! {

/// An account address.
pub type AddressChirho = String;

/// An amount of coins.
pub type AmountChirho = u64;

/// A sender's transaction counter.
pub type NonceChirho = u64;

/// A transaction hash.
pub type TxHashChirho = String;

/// A block's height in the chain.
pub type BlockHeightChirho = u64;

#[verifier::external_type_specification]
#[verifier::external_body]
pub struct ExSystemTimeChirho(SystemTime);

#[verifier::external_type_specification]
#[verifier::external_body]
pub struct ExSystemTimeErrorChirho(SystemTimeError);

/// The current time of the system clock, from `SystemTime::now`. Nothing is
/// promised of it.
#[verifier::external_body]
fn system_now_chirho() -> SystemTime {
    SystemTime::now()
}

/// The time from the Unix epoch to `t`, from `SystemTime::duration_since`;
/// an error when `t` is before the epoch. Depends on the clock: nothing is
/// stated of the value.
#[verifier::external_body]
fn since_epoch_chirho(t: &SystemTime) -> Result<Duration, SystemTimeError> {
    t.duration_since(std::time::UNIX_EPOCH)
}

/// The whole seconds of a duration, from `Duration::as_secs`. Nothing is
/// stated of the value.
#[verifier::external_body]
fn as_secs_chirho(d: &Duration) -> u64 {
    d.as_secs()
}

/// Seconds since the Unix epoch, or 0 when the clock is before it.
fn now_chirho() -> u64 {
    match since_epoch_chirho(&system_now_chirho()) {
        Ok(d) => as_secs_chirho(&d),
        Err(_) => 0,
    }
}

/// The number of bytes that encode `c` in UTF-8.
pub open spec fn utf8_width_chirho(c: char) -> nat {
    if (c as u32) < 0x80 {
        1
    } else if (c as u32) < 0x800 {
        2
    } else if (c as u32) < 0x10000 {
        3
    } else {
        4
    }
}

/// The number of bytes that encode `s` in UTF-8.
pub open spec fn utf8_len_chirho(s: Seq<char>) -> nat
    decreases s.len(),
{
    if s.len() == 0 {
        0
    } else {
        utf8_len_chirho(s.drop_last()) + utf8_width_chirho(s.last())
    }
}

/// The UTF-8 length of a string, cut to 64 bits as a `usize` to `u64`
/// conversion on a 64-bit machine would.
fn utf8_len_exec_chirho(s: &str) -> (r: u64)
    ensures
        r == utf8_len_chirho(s@) as u64,
{
    broadcast use vstd::string::axiom_spec_iter;
    let char_count = s.unicode_len();
    let mut total: u128 = 0;
    for c in it: s.chars()
        invariant
            it.seq() == s@,
            s@.len() == char_count,
            total == utf8_len_chirho(s@.take(it.index())),
            total <= 4 * it.index(),
    {
        let ghost i = it.index();
        assert(s@.take(i + 1).drop_last() =~= s@.take(i));
        let code: u32 = c as u32;
        let w: u128 = if code < 0x80 {
            1
        } else if code < 0x800 {
            2
        } else if code < 0x10000 {
            3
        } else {
            4
        };
        total = total + w;
    }
    assert(s@.take(s@.len() as int) =~= s@);
    #[verifier::truncate]
    (total as u64)
}

/// The hash of a transaction's contents: `tx_` and the lower-case
/// hexadecimal of the exclusive or of the address lengths, the amount,
/// the nonce and the time.
pub open spec fn tx_hash_chirho(from: Seq<char>, to: Seq<char>, amount: u64, nonce: u64, timestamp: u64) -> Seq<char> {
    "tx_"@ + hex_chirho(((utf8_len_chirho(from) as u64) ^ (utf8_len_chirho(to) as u64) ^ amount ^ nonce ^ timestamp) as nat)
}

/// The hash of a block: `block_` and the lower-case hexadecimal of the
/// exclusive or of its height, the length of the previous hash, the number
/// of transactions and the time.
pub open spec fn block_hash_chirho(height: u64, prev_hash: Seq<char>, tx_count: nat, timestamp: u64) -> Seq<char> {
    "block_"@ + hex_chirho((height ^ (utf8_len_chirho(prev_hash) as u64) ^ (tx_count as u64) ^ timestamp) as nat)
}

/// A transaction.
pub struct TransactionChirho {
    /// Transaction hash (computed from contents).
    pub hash_chirho: TxHashChirho,
    /// Sender address.
    pub from_chirho: AddressChirho,
    /// Receiver address.
    pub to_chirho: AddressChirho,
    /// Amount to transfer.
    pub amount_chirho: AmountChirho,
    /// Sender's nonce (for replay protection).
    pub nonce_chirho: NonceChirho,
    /// Transaction timestamp, in seconds since the Unix epoch.
    pub timestamp_chirho: u64,
    /// Signature; empty until signed.
    pub signature_chirho: String,
}

/// Computes a transaction hash.
fn compute_tx_hash_chirho(from_chirho: &str, to_chirho: &str, amount_chirho: u64, nonce_chirho: u64, timestamp_chirho: u64) -> (r: String)
    ensures
        r@ == tx_hash_chirho(from_chirho@, to_chirho@, amount_chirho, nonce_chirho, timestamp_chirho),
{
    let x = utf8_len_exec_chirho(from_chirho) ^ utf8_len_exec_chirho(to_chirho) ^ amount_chirho ^ nonce_chirho ^ timestamp_chirho;
    let mut r = String::new();
    push_str_chirho(&mut r, "tx_");
    push_hex_chirho(&mut r, x);
    assert(r@ =~= tx_hash_chirho(from_chirho@, to_chirho@, amount_chirho, nonce_chirho, timestamp_chirho));
    r
}

impl TransactionChirho {
    /// Creates an unsigned transaction stamped with the current time.
    pub fn new_chirho(from_chirho: AddressChirho, to_chirho: AddressChirho, amount_chirho: AmountChirho, nonce_chirho: NonceChirho) -> (r: Self)
        ensures
            r.from_chirho == from_chirho,
            r.to_chirho == to_chirho,
            r.amount_chirho == amount_chirho,
            r.nonce_chirho == nonce_chirho,
            r.hash_chirho@ == tx_hash_chirho(from_chirho@, to_chirho@, amount_chirho, nonce_chirho, r.timestamp_chirho),
            r.signature_chirho@.len() == 0,
    {
        let timestamp_chirho = now_chirho();
        let hash_chirho = compute_tx_hash_chirho(from_chirho.as_str(), to_chirho.as_str(), amount_chirho, nonce_chirho, timestamp_chirho);
        TransactionChirho {
            hash_chirho,
            from_chirho,
            to_chirho,
            amount_chirho,
            nonce_chirho,
            timestamp_chirho,
            signature_chirho: String::new(),
        }
    }

    /// Signs the transaction: stores the signature.
    pub fn sign_chirho(&mut self, signature_chirho: String)
        ensures
            *final(self) == (TransactionChirho { signature_chirho, ..*old(self) }),
    {
        self.signature_chirho = signature_chirho;
    }

    /// Checks the signature. The check is a simplified one: it accepts
    /// every transaction, signed or not.
    pub fn verify_signature_chirho(&self) -> (r: bool)
        ensures
            r,
    {
        true
    }
}

/// The outcome of validating a transaction.
#[derive(Clone, Copy, Debug, PartialEq, Eq, Structural)]
pub enum TxValidationResultChirho {
    /// Transaction is valid.
    ValidChirho,
    /// Insufficient balance.
    InsufficientBalanceChirho,
    /// Invalid nonce.
    InvalidNonceChirho,
    /// Invalid signature.
    InvalidSignatureChirho,
    /// Self-transfer not allowed.
    SelfTransferChirho,
    /// Zero amount not allowed.
    ZeroAmountChirho,
    /// Sender account not found.
    SenderNotFoundChirho,
}

/// The outcome of validating a transaction whose sender's account has the
/// given nonce and surely holds at least the given balance (`None` when
/// the sender has no account). The checks come in order: signature (which
/// the simplified check always accepts), self-transfer, zero amount,
/// sender, nonce (one more than the account's), balance.
pub open spec fn validation_spec_chirho(tx: TransactionChirho, sender: Option<(NonceChirho, AmountChirho)>) -> TxValidationResultChirho {
    if tx.from_chirho@ == tx.to_chirho@ {
        TxValidationResultChirho::SelfTransferChirho
    } else if tx.amount_chirho == 0 {
        TxValidationResultChirho::ZeroAmountChirho
    } else {
        match sender {
            None => TxValidationResultChirho::SenderNotFoundChirho,
            Some((nonce, min_balance)) => if tx.nonce_chirho != nonce + 1 {
                TxValidationResultChirho::InvalidNonceChirho
            } else if min_balance < tx.amount_chirho {
                TxValidationResultChirho::InsufficientBalanceChirho
            } else {
                TxValidationResultChirho::ValidChirho
            },
        }
    }
}

/// Validates a transaction against its sender's account, given as the
/// account's nonce and the least balance it surely holds (`None` when the
/// sender has no account).
pub fn validate_tx_chirho(tx_chirho: &TransactionChirho, sender_chirho: Option<(NonceChirho, AmountChirho)>) -> (r: TxValidationResultChirho)
    requires
        sender_chirho matches Some((nonce, _)) ==> nonce < u64::MAX,
    ensures
        r == validation_spec_chirho(*tx_chirho, sender_chirho),
{
    if !tx_chirho.verify_signature_chirho() {
        return TxValidationResultChirho::InvalidSignatureChirho;
    }
    if tx_chirho.from_chirho == tx_chirho.to_chirho {
        return TxValidationResultChirho::SelfTransferChirho;
    }
    if tx_chirho.amount_chirho == 0 {
        return TxValidationResultChirho::ZeroAmountChirho;
    }
    match sender_chirho {
        None => TxValidationResultChirho::SenderNotFoundChirho,
        Some((nonce_chirho, min_balance_chirho)) => {
            if tx_chirho.nonce_chirho != nonce_chirho + 1 {
                TxValidationResultChirho::InvalidNonceChirho
            } else if min_balance_chirho < tx_chirho.amount_chirho {
                TxValidationResultChirho::InsufficientBalanceChirho
            } else {
                TxValidationResultChirho::ValidChirho
            }
        },
    }
}

/// A block of transactions.
pub struct BlockChirho {
    /// Block height.
    pub height_chirho: BlockHeightChirho,
    /// Previous block hash.
    pub prev_hash_chirho: String,
    /// This block's hash.
    pub hash_chirho: String,
    /// Transactions in this block.
    pub transactions_chirho: Vec<TransactionChirho>,
    /// Block timestamp, in seconds since the Unix epoch.
    pub timestamp_chirho: u64,
    /// Validator who proposed this block.
    pub proposer_chirho: AddressChirho,
    /// State root after applying transactions.
    pub state_root_chirho: String,
}

/// Computes a block hash.
fn compute_block_hash_chirho(height_chirho: u64, prev_hash_chirho: &str, tx_count_chirho: usize, timestamp_chirho: u64) -> (r: String)
    ensures
        r@ == block_hash_chirho(height_chirho, prev_hash_chirho@, tx_count_chirho as nat, timestamp_chirho),
{
    let x = height_chirho ^ utf8_len_exec_chirho(prev_hash_chirho) ^ (tx_count_chirho as u64) ^ timestamp_chirho;
    let mut r = String::new();
    push_str_chirho(&mut r, "block_");
    push_hex_chirho(&mut r, x);
    assert(r@ =~= block_hash_chirho(height_chirho, prev_hash_chirho@, tx_count_chirho as nat, timestamp_chirho));
    r
}

/// Whether `t` is the genesis transaction that gives `amount` to `address`.
pub open spec fn is_genesis_tx_chirho(t: TransactionChirho, address: Seq<char>, amount: u64) -> bool {
    &&& t.from_chirho@ == "genesis"@
    &&& t.to_chirho@ == address
    &&& t.amount_chirho == amount
    &&& t.nonce_chirho == 0
    &&& t.hash_chirho@ == tx_hash_chirho("genesis"@, address, amount, 0, t.timestamp_chirho)
    &&& t.signature_chirho@.len() == 0
}

impl BlockChirho {
    /// Creates a block stamped with the current time.
    pub fn new_chirho(
        height_chirho: BlockHeightChirho,
        prev_hash_chirho: String,
        transactions_chirho: Vec<TransactionChirho>,
        proposer_chirho: AddressChirho,
    ) -> (r: Self)
        ensures
            r.height_chirho == height_chirho,
            r.prev_hash_chirho == prev_hash_chirho,
            r.transactions_chirho == transactions_chirho,
            r.proposer_chirho == proposer_chirho,
            r.hash_chirho@ == block_hash_chirho(height_chirho, prev_hash_chirho@, transactions_chirho@.len(), r.timestamp_chirho),
            r.state_root_chirho@.len() == 0,
    {
        let timestamp_chirho = now_chirho();
        let hash_chirho = compute_block_hash_chirho(height_chirho, prev_hash_chirho.as_str(), transactions_chirho.len(), timestamp_chirho);
        BlockChirho {
            height_chirho,
            prev_hash_chirho,
            hash_chirho,
            transactions_chirho,
            timestamp_chirho,
            proposer_chirho,
            state_root_chirho: String::new(),
        }
    }

    /// The genesis block: one transaction from `genesis` per initial account.
    pub fn genesis_chirho(initial_accounts_chirho: Vec<(AddressChirho, AmountChirho)>) -> (r: Self)
        ensures
            r.height_chirho == 0,
            r.prev_hash_chirho@ == Seq::new(64, |i: int| '0'),
            r.hash_chirho@ == "genesis_block_hash"@,
            r.proposer_chirho@ == "genesis"@,
            r.state_root_chirho@.len() == 0,
            r.transactions_chirho@.len() == initial_accounts_chirho@.len(),
            forall|i: int| 0 <= i < r.transactions_chirho@.len() ==> is_genesis_tx_chirho(
                #[trigger] r.transactions_chirho@[i],
                initial_accounts_chirho@[i].0@,
                initial_accounts_chirho@[i].1,
            ),
    {
        let mut transactions_chirho: Vec<TransactionChirho> = Vec::new();
        let mut accounts = initial_accounts_chirho;
        let ghost init = accounts@;
        let n = accounts.len();
        let mut i: usize = 0;
        while i < n
            invariant
                0 <= i <= n,
                n == init.len(),
                accounts@ == init.subrange(i as int, n as int),
                transactions_chirho@.len() == i,
                forall|k: int| 0 <= k < i ==> is_genesis_tx_chirho(#[trigger] transactions_chirho@[k], init[k].0@, init[k].1),
            decreases n - i,
        {
            let (addr_chirho, amount_chirho) = accounts.remove(0);
            let mut from = String::new();
            push_str_chirho(&mut from, "genesis");
            assert(from@ =~= "genesis"@);
            let tx = TransactionChirho::new_chirho(from, addr_chirho, amount_chirho, 0);
            transactions_chirho.push(tx);
            assert(accounts@ =~= init.subrange(i + 1, n as int));
            i = i + 1;
        }
        let mut prev_hash_chirho = String::new();
        let mut k: usize = 0;
        while k < 64
            invariant
                0 <= k <= 64,
                prev_hash_chirho@ == Seq::new(k as nat, |j: int| '0'),
            decreases 64 - k,
        {
            push_char_chirho(&mut prev_hash_chirho, '0');
            k = k + 1;
            assert(prev_hash_chirho@ =~= Seq::new(k as nat, |j: int| '0'));
        }
        let mut hash_chirho = String::new();
        push_str_chirho(&mut hash_chirho, "genesis_block_hash");
        let mut proposer_chirho = String::new();
        push_str_chirho(&mut proposer_chirho, "genesis");
        assert(hash_chirho@ =~= "genesis_block_hash"@);
        assert(proposer_chirho@ =~= "genesis"@);
        BlockChirho {
            height_chirho: 0,
            prev_hash_chirho,
            hash_chirho,
            transactions_chirho,
            timestamp_chirho: now_chirho(),
            proposer_chirho,
            state_root_chirho: String::new(),
        }
    }
}

} // verus!

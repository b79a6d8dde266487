//! Blocks: an ordered batch of transactions under a sealed header.
//! Sealing searches for a nonce whose header digest has a difficulty-long
//! prefix of zero hex digits; validators recompute the digest byte for
//! byte.

use vstd::prelude::*;
use vstd::array::array_index_get;
use vstd::bytes::{
    spec_u128_to_le_bytes, spec_u64_to_le_bytes, u128_to_le_bytes, u64_to_le_bytes,
};
use vstd::slice::slice_index_get;
use crate::ChainError;
use crate::encode::{get_unix_time, hex_of, push_bytes, sha256_hash, sha256_of};
use crate::transaction::{
    lemma_txs_enc_push, spec_tx_valid, tx_enc, txs_enc, Transaction, Val,
};
use crate::wallet::Wallet;

verus! {

broadcast use vstd::array::group_array_axioms;

/// The fixed reward a block's coinbase transaction mints for its miner.
pub const MINING_REWARD: Val = 50;

/// Number of bytes in the fixed-width header record of the store format:
/// previous digest (32), timestamp (16), own digest (32), difficulty (8),
/// nonce (16).
pub const BLOCK_STATIC_SIZE: usize = 104;

/// The fixed-width part of a block: header metadata without the
/// transaction batch.
#[derive(Clone, Copy, Debug, PartialEq, Eq)]
pub struct BlockStatic {
    /// Digest of the preceding block; all zero for the genesis block.
    pub prev_hash: crate::encode::Hash,
    /// Nanoseconds since the Unix epoch at sealing time.
    pub timestamp: u128,
    /// The block's own digest, fixed by sealing.
    pub hash: crate::encode::Hash,
    /// The proof-of-work difficulty the block was sealed at: the number
    /// of leading zero hex digits its digest must show.
    pub difficulty: usize,
    /// The counter the sealing search varies until the digest satisfies
    /// the difficulty.
    pub nonce: u128,
}

/// A sealed block: header metadata plus its ordered transactions.
#[derive(Debug)]
pub struct Block {
    /// The fixed-width header.
    pub block: BlockStatic,
    /// The transaction batch, coinbase first in mined blocks.
    pub transactions: Vec<Transaction>,
}

/// The mathematical content of a block: its header fields and the
/// sequence of its transactions.
#[verifier::ext_equal]
pub struct BlockView {
    /// The fixed-width header.
    pub header: BlockStatic,
    /// The transactions, in block order.
    pub transactions: Seq<Transaction>,
}

impl View for Block {
    type V = BlockView;

    open spec fn view(&self) -> BlockView {
        BlockView { header: self.block, transactions: self.transactions@ }
    }
}

impl Clone for Block {
    /// Clones the block; the copy carries the same header and the same
    /// transaction sequence.
    fn clone(&self) -> (r: Self)
        ensures
            r@ == self@,
    {
        let n: usize = self.transactions.len();
        let mut transactions: Vec<Transaction> = Vec::new();
        let mut i: usize = 0;
        while i < n
            invariant
                n == self.transactions@.len(),
                i <= n,
                transactions@ =~= self.transactions@.take(i as int),
            decreases n - i,
        {
            transactions.push(self.transactions[i]);
            i = i + 1;
        }
        proof {
            assert(transactions@ =~= self.transactions@);
        }
        Block { block: self.block, transactions }
    }
}

/// The byte string whose SHA-256 digest is the block's own digest:
/// nonce, difficulty, timestamp, previous digest and transaction count,
/// followed by every transaction record in order.
pub open spec fn hash_input(b: BlockView) -> Seq<u8> {
    spec_u128_to_le_bytes(b.header.nonce) + spec_u64_to_le_bytes(b.header.difficulty as u64)
        + spec_u128_to_le_bytes(b.header.timestamp) + b.header.prev_hash@
        + spec_u64_to_le_bytes(b.transactions.len() as u64) + txs_enc(b.transactions)
}

/// What `create_hash` recomputes: the digest of the block's canonical
/// header-and-transactions encoding.
pub open spec fn spec_create_hash(b: BlockView) -> Seq<u8> {
    sha256_of(hash_input(b))
}

/// The proof-of-work condition: the first `d` hex digits of the digest
/// are all the zero digit.
pub open spec fn meets_difficulty(h: Seq<u8>, d: int) -> bool {
    forall|i: int| 0 <= i < d ==> #[trigger] hex_of(h)[i] == '0'
}

/// A sealed block: the stored digest is the digest of the block's own
/// fields, and it satisfies the block's difficulty.
pub open spec fn spec_sealed(b: BlockView) -> bool {
    &&& b.header.hash@ == spec_create_hash(b)
    &&& meets_difficulty(b.header.hash@, b.header.difficulty as int)
}

/// What `has_valid_transactions` decides: an empty batch is trivially
/// valid; otherwise the first transaction is a coinbase of exactly the
/// mining reward, no other transaction is a coinbase, and every other
/// transaction passes signature verification.
pub open spec fn spec_block_txs_valid(b: BlockView) -> bool {
    b.transactions.len() == 0 || {
        &&& b.transactions[0].is_coinbase
        &&& b.transactions[0].value == MINING_REWARD
        &&& forall|i: int|
            1 <= i < b.transactions.len() ==> !(#[trigger] b.transactions[i]).is_coinbase
                && spec_tx_valid(b.transactions[i])
    }
}

impl Block {
    /// Seals an empty block with an all-zero previous digest: the chain's
    /// bootstrap block.  Fails only when the wall clock refuses a reading.
    pub fn new_genesis(difficulty: usize) -> (r: Result<Block, ChainError>)
        requires
            difficulty <= 64,
        ensures
            r matches Ok(b) ==> {
                &&& b@.header.prev_hash@ == Seq::new(32, |i: int| 0u8)
                &&& b@.header.difficulty == difficulty
                &&& b@.transactions.len() == 0
                &&& spec_sealed(b@)
            },
            r matches Err(e) ==> e == ChainError::Clock || e == ChainError::Sealing,
    {
        let zero: crate::encode::Hash = [0; 32];
        proof {
            assert(zero@ =~= Seq::new(32, |i: int| 0u8));
        }
        Self::new_with_tx(Vec::new(), zero, difficulty)
    }

    /// Prepends a coinbase of the fixed reward for the miner to the given
    /// transfers and seals the batch atop `prev_hash`.  Fails only when
    /// the wall clock refuses a reading.
    pub fn new(
        miner_address: &Wallet,
        transactions: &[Transaction],
        prev_hash: crate::encode::Hash,
        difficulty: usize,
    ) -> (r: Result<Block, ChainError>)
        requires
            difficulty <= 64,
        ensures
            r matches Ok(b) ==> {
                &&& b@.header.prev_hash == prev_hash
                &&& b@.header.difficulty == difficulty
                &&& b@.transactions.len() == transactions@.len() + 1
                &&& b@.transactions[0].is_coinbase
                &&& b@.transactions[0].value == MINING_REWARD
                &&& b@.transactions[0].receiver == miner_address.pk
                &&& b@.transactions.skip(1) == transactions@
                &&& spec_sealed(b@)
            },
            r matches Err(e) ==> e == ChainError::Clock || e == ChainError::Sealing,
    {
        let reward: Transaction = Transaction::new_coinbase(miner_address, MINING_REWARD);
        let n: usize = transactions.len();
        let mut batch: Vec<Transaction> = Vec::new();
        batch.push(reward);
        let mut i: usize = 0;
        while i < n
            invariant
                n == transactions@.len(),
                i <= n,
                batch@ =~= seq![reward] + transactions@.take(i as int),
            decreases n - i,
        {
            batch.push(*slice_index_get(transactions, i));
            i = i + 1;
        }
        proof {
            assert(batch@ =~= seq![reward] + transactions@);
            assert(batch@.skip(1) =~= transactions@);
        }
        Self::new_with_tx(batch, prev_hash, difficulty)
    }

    /// Stamps the batch with the current time and runs the sealing
    /// search.
    fn new_with_tx(
        transactions: Vec<Transaction>,
        prev_hash: crate::encode::Hash,
        difficulty: usize,
    ) -> (r: Result<Block, ChainError>)
        requires
            difficulty <= 64,
        ensures
            r matches Ok(b) ==> {
                &&& b@.header.prev_hash == prev_hash
                &&& b@.header.difficulty == difficulty
                &&& b@.transactions == transactions@
                &&& spec_sealed(b@)
            },
            r matches Err(e) ==> e == ChainError::Clock || e == ChainError::Sealing,
    {
        let timestamp: u128 = match get_unix_time() {
            Ok(t) => t,
            Err(_) => { return Err(ChainError::Clock); },
        };
        let mut block: Block = Block {
            transactions,
            block: BlockStatic { prev_hash, timestamp, hash: [0; 32], difficulty, nonce: 0 },
        };
        if !block.seal() {
            return Err(ChainError::Sealing);
        }
        Ok(block)
    }

    /// Decides the batch policy: empty, or coinbase-first with exactly
    /// the reward, no second coinbase, and every transfer signed validly.
    pub fn has_valid_transactions(&self, _verbose: bool) -> (r: bool)
        ensures
            r == spec_block_txs_valid(self@),
    {
        let n: usize = self.transactions.len();
        if n == 0 {
            return true;
        }
        let coinbase: &Transaction = &self.transactions[0];
        if !*coinbase.is_coinbase() {
            return false;
        }
        if *coinbase.get_value() != MINING_REWARD {
            return false;
        }
        let mut i: usize = 1;
        while i < n
            invariant
                n == self.transactions@.len(),
                1 <= i <= n,
                self@.transactions[0].is_coinbase,
                self@.transactions[0].value == MINING_REWARD,
                forall|j: int|
                    1 <= j < i ==> !(#[trigger] self@.transactions[j]).is_coinbase
                        && spec_tx_valid(self@.transactions[j]),
            decreases n - i,
        {
            let transaction: &Transaction = &self.transactions[i];
            if *transaction.is_coinbase() {
                return false;
            }
            if !transaction.is_valid() {
                return false;
            }
            i = i + 1;
        }
        true
    }

    /// The block's stored digest.
    pub fn get_hash(&self) -> (r: &crate::encode::Hash)
        ensures
            r == &self.block.hash,
    {
        &self.block.hash
    }

    /// The digest of the preceding block.
    pub fn get_prev_hash(&self) -> (r: &crate::encode::Hash)
        ensures
            r == &self.block.prev_hash,
    {
        &self.block.prev_hash
    }

    /// The sealing timestamp, nanoseconds since the Unix epoch.
    pub fn get_timestamp(&self) -> (r: &u128)
        ensures
            r == &self.block.timestamp,
    {
        &self.block.timestamp
    }

    /// The transaction batch, in block order.
    pub fn get_transactions(&self) -> (r: &[Transaction])
        ensures
            r@ == self@.transactions,
    {
        self.transactions.as_slice()
    }

    /// Recomputes the block digest from the stored fields, byte for byte.
    pub fn create_hash(&self) -> (r: crate::encode::Hash)
        ensures
            r@ == spec_create_hash(self@),
    {
        let mut bytes: Vec<u8> = u128_to_le_bytes(self.block.nonce);
        let difficulty_bytes: Vec<u8> = u64_to_le_bytes(self.block.difficulty as u64);
        push_bytes(&mut bytes, difficulty_bytes.as_slice());
        let timestamp_bytes: Vec<u8> = u128_to_le_bytes(self.block.timestamp);
        push_bytes(&mut bytes, timestamp_bytes.as_slice());
        push_bytes(&mut bytes, self.block.prev_hash.as_slice());
        let n: usize = self.transactions.len();
        let count_bytes: Vec<u8> = u64_to_le_bytes(n as u64);
        push_bytes(&mut bytes, count_bytes.as_slice());
        let ghost head: Seq<u8> = bytes@;
        let mut i: usize = 0;
        while i < n
            invariant
                n == self.transactions@.len(),
                i <= n,
                bytes@ == head + txs_enc(self.transactions@.take(i as int)),
            decreases n - i,
        {
            let tx_bytes: Vec<u8> = self.transactions[i].encode();
            push_bytes(&mut bytes, tx_bytes.as_slice());
            proof {
                assert(self.transactions@.take(i + 1) =~= self.transactions@.take(
                    i as int,
                ).push(self.transactions@[i as int]));
                lemma_txs_enc_push(
                    self.transactions@.take(i as int),
                    self.transactions@[i as int],
                );
            }
            i = i + 1;
        }
        proof {
            assert(self.transactions@.take(n as int) =~= self.transactions@);
            assert(bytes@ =~= hash_input(self@));
        }
        sha256_hash(bytes.as_slice())
    }

    /// The sealing search: increments the nonce until the recomputed
    /// digest satisfies the difficulty, then stores that digest.  The
    /// search gives up only after running through the whole nonce space,
    /// which no practical difficulty reaches.
    fn seal(&mut self) -> (ok: bool)
        requires
            old(self).block.difficulty <= 64,
        ensures
            final(self).block.prev_hash == old(self).block.prev_hash,
            final(self).block.timestamp == old(self).block.timestamp,
            final(self).block.difficulty == old(self).block.difficulty,
            final(self).transactions@ == old(self).transactions@,
            ok ==> spec_sealed(final(self)@),
    {
        loop
            invariant
                self.block.difficulty <= 64,
                self.block.prev_hash == old(self).block.prev_hash,
                self.block.timestamp == old(self).block.timestamp,
                self.block.difficulty == old(self).block.difficulty,
                self.transactions@ == old(self).transactions@,
            decreases u128::MAX - self.block.nonce,
        {
            let digest: crate::encode::Hash = self.create_hash();
            if check_difficulty(&digest, self.block.difficulty) {
                let ghost before: BlockView = self@;
                self.block.hash = digest;
                proof {
                    assert(hash_input(self@) =~= hash_input(before));
                }
                return true;
            }
            if self.block.nonce == u128::MAX {
                return false;
            }
            self.block.nonce = self.block.nonce + 1;
        }
    }
}

/// Decides the proof-of-work condition: the first `d` hex digits of the
/// digest are all zero.
fn check_difficulty(digest: &crate::encode::Hash, d: usize) -> (r: bool)
    requires
        d <= 64,
    ensures
        r == meets_difficulty(digest@, d as int),
{
    let mut i: usize = 0;
    while i < d
        invariant
            d <= 64,
            i <= d,
            forall|j: int| 0 <= j < i ==> #[trigger] hex_of(digest@)[j] == '0',
        decreases d - i,
    {
        let byte: u8 = *array_index_get(digest, i / 2);
        let nibble: u8 = if i % 2 == 0 {
            byte / 16
        } else {
            byte % 16
        };
        if nibble != 0 {
            proof {
                assert(hex_of(digest@)[i as int] != '0');
            }
            return false;
        }
        proof {
            assert(hex_of(digest@)[i as int] == '0');
        }
        i = i + 1;
    }
    true
}

} // verus!

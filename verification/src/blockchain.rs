//! The ledger: a view over one block log that bootstraps a genesis
//! block, mines new blocks atop the tip, and runs whole-chain validation
//! and balance queries by full forward passes over the log.

use vstd::prelude::*;
use crate::ChainError;
use crate::block::{
    spec_block_txs_valid, spec_create_hash, spec_sealed, Block, BlockView, MINING_REWARD,
};
use crate::db::{parsed, BlockDB};
use crate::encode::bytes_eq;
use crate::transaction::{Transaction, Val};
use crate::wallet::Wallet;

verus! {

/// The fixed proof-of-work difficulty every block is sealed at.
pub const DIFFICULTY: usize = 2;

/// One block of the chain is internally sound: its batch obeys the
/// coinbase policy and its stored digest is the digest of its own
/// fields.
pub open spec fn spec_block_valid(m: BlockView) -> bool {
    &&& spec_block_txs_valid(m)
    &&& m.header.hash@ == spec_create_hash(m)
}

/// What `is_valid` decides of a whole chain: it is nonempty, every block
/// is internally sound, and every block after the first names its
/// predecessor's digest as its previous digest.
pub open spec fn spec_chain_valid(ms: Seq<BlockView>) -> bool {
    &&& ms.len() > 0
    &&& forall|i: int| 0 <= i < ms.len() ==> spec_block_valid(#[trigger] ms[i])
    &&& forall|i: int|
        1 <= i < ms.len() ==> (#[trigger] ms[i]).header.prev_hash@ == ms[i - 1].header.hash@
}

/// Every transaction of the chain, block by block in block order.
pub open spec fn chain_txs(ms: Seq<BlockView>) -> Seq<Transaction>
    decreases ms.len(),
{
    if ms.len() == 0 {
        Seq::empty()
    } else {
        ms[0].transactions + chain_txs(ms.skip(1))
    }
}

/// The running balance of `pk` over `txs`, started at `acc`: credits
/// where `pk` receives, debits where it pays, and `None` the moment a
/// debit would drive the balance negative.  A self-transfer counts as a
/// credit, the receiver check coming first.
pub open spec fn spec_balance_from(txs: Seq<Transaction>, pk: Seq<u8>, acc: int) -> Option<int>
    decreases txs.len(),
{
    if txs.len() == 0 {
        Some(acc)
    } else {
        let t = txs[0];
        if t.receiver@ == pk {
            spec_balance_from(txs.skip(1), pk, acc + t.value)
        } else if t.sender@ == pk {
            if t.value > acc {
                None
            } else {
                spec_balance_from(txs.skip(1), pk, acc - t.value)
            }
        } else {
            spec_balance_from(txs.skip(1), pk, acc)
        }
    }
}

/// What `balance_of` reports for `pk`: the balance of one full pass, or
/// `None` for an accounting-invariant violation.
pub open spec fn spec_balance(ms: Seq<BlockView>, pk: Seq<u8>) -> Option<int> {
    spec_balance_from(chain_txs(ms), pk, 0)
}

/// The machine-limit side condition of `balance_of`: no credit along the
/// pass carries the running balance beyond the 32-bit amount type.
pub open spec fn balance_fits(txs: Seq<Transaction>, pk: Seq<u8>, acc: int) -> bool
    decreases txs.len(),
{
    if txs.len() == 0 {
        true
    } else {
        let t = txs[0];
        if t.receiver@ == pk {
            acc + t.value <= u32::MAX && balance_fits(txs.skip(1), pk, acc + t.value)
        } else if t.sender@ == pk {
            if t.value > acc {
                true
            } else {
                balance_fits(txs.skip(1), pk, acc - t.value)
            }
        } else {
            balance_fits(txs.skip(1), pk, acc)
        }
    }
}

/// The ledger: a stateless view over exactly one block log.
pub struct Blockchain {
    db: BlockDB,
}

impl Blockchain {
    /// The committed chain of the underlying log.
    pub closed spec fn chain(self) -> Seq<BlockView> {
        self.db.chain()
    }

    /// The ledger's soundness: the underlying log is sound.
    pub closed spec fn wf(self) -> bool {
        self.db.wf()
    }

    /// The log's read cursor: how many blocks the current pass has
    /// yielded.  A full pass must begin with the cursor at the start.
    pub closed spec fn cursor_at(self) -> int {
        self.db.cursor_at()
    }

    /// Opens a store from its raw bytes and, when it holds no block,
    /// synthesizes and appends a genesis block at the configured
    /// difficulty.  Fails only when sealing a genesis block fails.
    pub fn load(bytes: &[u8]) -> (r: Result<Blockchain, ChainError>)
        ensures
            r matches Ok(c) ==> c.wf() && c.cursor_at() == 0 && if parsed(bytes@).len() > 0 {
                c.chain() == parsed(bytes@)
            } else {
                &&& c.chain().len() == 1
                &&& c.chain()[0].header.prev_hash@ == Seq::new(32, |i: int| 0u8)
                &&& c.chain()[0].header.difficulty == DIFFICULTY
                &&& c.chain()[0].transactions.len() == 0
                &&& spec_sealed(c.chain()[0])
            },
            r matches Err(e) ==> (e == ChainError::Clock || e == ChainError::Sealing)
                && parsed(bytes@).len() == 0,
    {
        let mut db: BlockDB = BlockDB::open(bytes);
        if db.len() < 1 {
            let genesis: Block = match Block::new_genesis(DIFFICULTY) {
                Ok(b) => b,
                Err(e) => { return Err(e); },
            };
            db.push(genesis);
        }
        Ok(Blockchain { db })
    }

    /// Mines a block of the given transfers atop the tip: prepends the
    /// miner's coinbase, seals at the configured difficulty, and appends.
    /// An empty store is a hard error: a genesis block should exist.
    pub fn mine(&mut self, miner: &Wallet, transactions: &[Transaction]) -> (r: Result<
        (),
        ChainError,
    >)
        requires
            old(self).wf(),
            old(self).cursor_at() == 0,
        ensures
            final(self).wf(),
            final(self).cursor_at() == 0,
            r is Err ==> final(self).chain() == old(self).chain(),
            r matches Err(e) ==> (e == ChainError::EmptyChain || e == ChainError::Clock
                || e == ChainError::Sealing),
            old(self).chain().len() == 0 <==> (r matches Err(e) && e == ChainError::EmptyChain),
            r is Ok ==> {
                let c = final(self).chain();
                &&& c.len() == old(self).chain().len() + 1
                &&& c.drop_last() == old(self).chain()
                &&& c.last().header.prev_hash == old(self).chain().last().header.hash
                &&& c.last().header.difficulty == DIFFICULTY
                &&& spec_sealed(c.last())
                &&& c.last().transactions.len() == transactions@.len() + 1
                &&& c.last().transactions[0].is_coinbase
                &&& c.last().transactions[0].value == MINING_REWARD
                &&& c.last().transactions[0].receiver == miner.pk
                &&& c.last().transactions.skip(1) == transactions@
            },
    {
        let last_block: Block = match self.db.last_block() {
            Some(block) => block,
            None => { return Err(ChainError::EmptyChain); },
        };
        let prev_hash: &crate::encode::Hash = last_block.get_hash();
        let block: Block = match Block::new(miner, transactions, *prev_hash, DIFFICULTY) {
            Ok(b) => b,
            Err(e) => { return Err(e); },
        };
        self.db.push(block);
        proof {
            assert(final(self).chain().drop_last() =~= old(self).chain());
        }
        Ok(())
    }

    /// One full pass of balance accounting for the wallet's key: credits
    /// where it receives, debits where it pays, and an immediate
    /// accounting-invariant error — with the cursor reset — the moment a
    /// debit would drive the running balance negative.
    pub fn balance_of(&mut self, wallet: &Wallet) -> (r: Result<Val, ChainError>)
        requires
            old(self).wf(),
            old(self).cursor_at() == 0,
            balance_fits(chain_txs(old(self).chain()), wallet.pk@, 0),
        ensures
            final(self).wf(),
            final(self).cursor_at() == 0,
            final(self).chain() == old(self).chain(),
            r matches Ok(v) ==> spec_balance(old(self).chain(), wallet.pk@) == Some(v as int),
            r is Err ==> (spec_balance(old(self).chain(), wallet.pk@) is None && (r matches Err(e)
                && e matches ChainError::InsufficientFunds { .. })),
    {
        let ghost ms: Seq<BlockView> = self.chain();
        let ghost pk: Seq<u8> = wallet.pk@;
        let total: usize = self.db.len();
        let mut balance: Val = 0;
        let mut k: usize = 0;
        proof {
            assert(ms.skip(0) =~= ms);
        }
        loop
            invariant_except_break
                self.db.wf(),
                self.db.cursor_at() == k,
                k <= ms.len(),
                ms == self.chain(),
                ms == old(self).chain(),
                total == ms.len(),
                pk == wallet.pk@,
                spec_balance_from(chain_txs(ms), pk, 0) == spec_balance_from(
                    chain_txs(ms.skip(k as int)),
                    pk,
                    balance as int,
                ),
                balance_fits(chain_txs(ms.skip(k as int)), pk, balance as int),
            ensures
                self.db.wf(),
                ms == self.chain(),
                ms == old(self).chain(),
                total == ms.len(),
                self.db.cursor_at() == 0,
                spec_balance_from(chain_txs(ms), pk, 0) == Some(balance as int),
            decreases ms.len() - k,
        {
            let block: Block = match self.db.next() {
                Some(b) => b,
                None => {
                    proof {
                        assert(ms.skip(k as int) =~= Seq::<BlockView>::empty());
                    }
                    break;
                },
            };
            proof {
                assert(block@ == ms[k as int]);
                assert(chain_txs(ms.skip(k as int)) == ms[k as int].transactions + chain_txs(
                    ms.skip(k + 1),
                )) by {
                    assert(ms.skip(k as int)[0] == ms[k as int]);
                    assert(ms.skip(k as int).skip(1) =~= ms.skip(k + 1));
                }
            }
            let transactions: &[Transaction] = block.get_transactions();
            let n: usize = transactions.len();
            let ghost rest: Seq<Transaction> = chain_txs(ms.skip(k + 1));
            let mut j: usize = 0;
            proof {
                assert(transactions@.skip(0) =~= transactions@);
                assert(transactions@.skip(0) + rest =~= chain_txs(ms.skip(k as int)));
            }
            while j < n
                invariant
                    self.db.wf(),
                    ms == self.chain(),
                    ms == old(self).chain(),
                    total == ms.len(),
                    self.db.cursor_at() == k + 1,
                    k < ms.len(),
                    pk == wallet.pk@,
                    n == transactions@.len(),
                    j <= n,
                    transactions@ == ms[k as int].transactions,
                    rest == chain_txs(ms.skip(k + 1)),
                    spec_balance_from(chain_txs(ms), pk, 0) == spec_balance_from(
                        transactions@.skip(j as int) + rest,
                        pk,
                        balance as int,
                    ),
                    balance_fits(transactions@.skip(j as int) + rest, pk, balance as int),
                decreases n - j,
            {
                let transaction: &Transaction = &transactions[j];
                let ghost remaining: Seq<Transaction> = transactions@.skip(j as int) + rest;
                proof {
                    assert(remaining[0] == transactions@[j as int]);
                    assert(remaining.skip(1) =~= transactions@.skip(j + 1) + rest);
                }
                if transaction.is_receiver(wallet) {
                    balance = balance + *transaction.get_value();
                } else if transaction.is_sender(wallet) {
                    let value: Val = *transaction.get_value();
                    if value > balance {
                        self.db.reset();
                        return Err(ChainError::InsufficientFunds { balance, value });
                    }
                    balance = balance - value;
                }
                j = j + 1;
            }
            proof {
                assert(transactions@.skip(n as int) =~= Seq::<Transaction>::empty());
                assert(Seq::<Transaction>::empty() + rest =~= rest);
            }
            k = k + 1;
        }
        Ok(balance)
    }

    /// Whole-chain validation in two full passes: every block's batch
    /// policy and recomputed digest first, then hash-chain linkage, with
    /// an empty chain invalid.  Any failure resets the cursor and
    /// reports invalid.
    #[verifier::rlimit(50)]
    pub fn is_valid(&mut self, _verbose: bool) -> (r: bool)
        requires
            old(self).wf(),
            old(self).cursor_at() == 0,
        ensures
            final(self).wf(),
            final(self).cursor_at() == 0,
            final(self).chain() == old(self).chain(),
            r == spec_chain_valid(old(self).chain()),
    {
        let ghost ms: Seq<BlockView> = self.chain();
        let total: usize = self.db.len();
        let mut k: usize = 0;
        loop
            invariant_except_break
                self.db.wf(),
                self.db.cursor_at() == k,
                k <= ms.len(),
                ms == self.chain(),
                ms == old(self).chain(),
                total == ms.len(),
                forall|i: int| 0 <= i < k ==> spec_block_valid(#[trigger] ms[i]),
            ensures
                self.db.wf(),
                ms == self.chain(),
                ms == old(self).chain(),
                total == ms.len(),
                self.db.cursor_at() == 0,
                forall|i: int| 0 <= i < ms.len() ==> spec_block_valid(#[trigger] ms[i]),
            decreases ms.len() - k,
        {
            let block: Block = match self.db.next() {
                Some(b) => b,
                None => {
                    break;
                },
            };
            proof {
                assert(block@ == ms[k as int]);
            }
            if !block.has_valid_transactions(false) {
                proof {
                    assert(!spec_block_valid(ms[k as int]));
                }
                self.db.reset();
                return false;
            }
            let expected_hash: crate::encode::Hash = block.create_hash();
            if !bytes_eq(block.get_hash().as_slice(), expected_hash.as_slice()) {
                proof {
                    assert(!spec_block_valid(ms[k as int]));
                }
                self.db.reset();
                return false;
            }
            k = k + 1;
        }
        let mut prev_block: Block = match self.db.next() {
            Some(b) => b,
            None => {
                return false;
            },
        };
        let mut k2: usize = 1;
        loop
            invariant_except_break
                self.db.wf(),
                self.db.cursor_at() == k2,
                1 <= k2 <= ms.len(),
                ms == self.chain(),
                ms == old(self).chain(),
                total == ms.len(),
                prev_block@ == ms[k2 - 1],
                forall|i: int| 0 <= i < ms.len() ==> spec_block_valid(#[trigger] ms[i]),
                forall|i: int|
                    1 <= i < k2 ==> (#[trigger] ms[i]).header.prev_hash@ == ms[i - 1].header.hash@,
            ensures
                self.db.wf(),
                ms == self.chain(),
                ms == old(self).chain(),
                total == ms.len(),
                self.db.cursor_at() == 0,
                forall|i: int| 0 <= i < ms.len() ==> spec_block_valid(#[trigger] ms[i]),
                forall|i: int|
                    1 <= i < ms.len() ==> (#[trigger] ms[i]).header.prev_hash@ == ms[i
                        - 1].header.hash@,
            decreases ms.len() - k2,
        {
            let current: Block = match self.db.next() {
                Some(b) => b,
                None => {
                    break;
                },
            };
            proof {
                assert(current@ == ms[k2 as int]);
            }
            let expected_prev_hash: &crate::encode::Hash = prev_block.get_hash();
            if !bytes_eq(current.get_prev_hash().as_slice(), expected_prev_hash.as_slice()) {
                proof {
                    assert(ms[k2 as int].header.prev_hash@ != ms[k2 - 1].header.hash@);
                }
                self.db.reset();
                return false;
            }
            prev_block = current;
            k2 = k2 + 1;
        }
        true
    }

    /// Yields the next block of the current pass over the log; on
    /// exhaustion reports none and rewinds the cursor, so the next call
    /// begins a fresh full pass.
    pub fn next(&mut self) -> (r: Option<Block>)
        requires
            old(self).wf(),
        ensures
            final(self).wf(),
            final(self).chain() == old(self).chain(),
            old(self).cursor_at() < old(self).chain().len() ==> (r matches Some(b)
                && b@ == old(self).chain()[old(self).cursor_at()]
                && final(self).cursor_at() == old(self).cursor_at() + 1),
            old(self).cursor_at() >= old(self).chain().len() ==> (r is None
                && final(self).cursor_at() == 0),
    {
        self.db.next()
    }

    /// The number of committed blocks.
    pub fn len(&self) -> (r: usize)
        ensures
            r == self.chain().len(),
    {
        self.db.len()
    }

    /// Re-encodes the committed chain into the store's flat byte stream,
    /// ready to be written back to durable storage.
    pub fn to_bytes(&self) -> (r: Vec<u8>)
        ensures
            r@ == crate::db::stream_enc(self.chain()),
    {
        self.db.to_bytes()
    }
}

/// Validation is idempotent: what `is_valid` decides is a function of
/// the committed chain alone, and a pass leaves the chain as it found
/// it, so two passes over an untouched store decide alike.
pub proof fn lemma_is_valid_idempotent(c1: Blockchain, c2: Blockchain)
    requires
        c1.chain() == c2.chain(),
    ensures
        spec_chain_valid(c1.chain()) == spec_chain_valid(c2.chain()),
{
}

} // verus!

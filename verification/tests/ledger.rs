//! Chain-level behaviour: signatures, sealing, validation, balances.

use minichain::block::{Block, MINING_REWARD};
use minichain::blockchain::{Blockchain, DIFFICULTY};
use minichain::db::BlockDB;
use minichain::encode::hex;
use minichain::transaction::Transaction;
use minichain::wallet::Wallet;
use minichain::ChainError;

#[test]
fn transfer_is_valid_and_any_flip_breaks_it() {
    let a = Wallet::new().expect("wallet");
    let b = Wallet::new().expect("wallet");
    let tx = Transaction::new(&a, &b, 42);
    assert!(tx.is_valid());
    // any single bit of the signature
    for byte in 0..64 {
        for bit in 0..8 {
            let mut t = tx;
            t.signature[byte] ^= 1 << bit;
            assert!(!t.is_valid(), "flipped signature byte {byte} bit {bit}");
        }
    }
    // any single bit of the signed amount
    for bit in 0..32 {
        let mut t = tx;
        t.value ^= 1 << bit;
        assert!(!t.is_valid(), "flipped value bit {bit}");
    }
    // one bit of every sender and receiver byte
    for byte in 0..32 {
        let mut t = tx;
        t.sender[byte] ^= 1;
        assert!(!t.is_valid(), "flipped sender byte {byte}");
        let mut t = tx;
        t.receiver[byte] ^= 1;
        assert!(!t.is_valid(), "flipped receiver byte {byte}");
    }
}

#[test]
fn coinbase_is_valid_unconditionally() {
    let a = Wallet::new().expect("wallet");
    let tx = Transaction::new_coinbase(&a, MINING_REWARD);
    assert!(tx.is_valid());
    assert!(*tx.is_coinbase());
    assert_eq!(tx.sender, [0u8; 32]);
    assert_eq!(tx.signature, [0u8; 64]);
}

#[test]
fn sealed_block_digest_recomputes_and_meets_difficulty() {
    let block = Block::new_genesis(DIFFICULTY).expect("sealing");
    assert_eq!(block.create_hash(), *block.get_hash());
    let rendered = hex(block.get_hash());
    assert!(rendered.starts_with("00"), "digest {rendered} lacks the difficulty prefix");
}

#[test]
fn mined_block_passes_transaction_policy() {
    let miner = Wallet::new().expect("wallet");
    let b = Wallet::new().expect("wallet");
    let mut chain = Blockchain::load(&[]).expect("bootstrap");
    let tx = Transaction::new(&miner, &b, 0);
    chain.mine(&miner, &[tx]).expect("mining");
    let block = chain.next().expect("genesis");
    assert!(block.has_valid_transactions(false));
    let block = chain.next().expect("mined block");
    assert!(block.has_valid_transactions(false));
    assert_eq!(block.get_transactions().len(), 2);
    assert!(*block.get_transactions()[0].is_coinbase());
    assert_eq!(*block.get_transactions()[0].get_value(), MINING_REWARD);
    assert!(chain.next().is_none());
}

#[test]
fn second_coinbase_is_rejected() {
    let miner = Wallet::new().expect("wallet");
    let stray = Transaction::new_coinbase(&miner, MINING_REWARD);
    let genesis = Block::new_genesis(DIFFICULTY).expect("sealing");
    let block = Block::new(&miner, &[stray], *genesis.get_hash(), DIFFICULTY).expect("sealing");
    assert!(!block.has_valid_transactions(false));
}

#[test]
fn wrong_coinbase_value_is_rejected() {
    let miner = Wallet::new().expect("wallet");
    let mut block = Block::new_genesis(DIFFICULTY).expect("sealing");
    block
        .transactions
        .push(Transaction::new_coinbase(&miner, MINING_REWARD + 1));
    assert!(!block.has_valid_transactions(false));
}

#[test]
fn store_round_trip_reproduces_the_chain() {
    let miner = Wallet::new().expect("wallet");
    let b = Wallet::new().expect("wallet");
    let mut chain = Blockchain::load(&[]).expect("bootstrap");
    let tx = Transaction::new(&miner, &b, 7);
    chain.mine(&miner, &[tx]).expect("mining");
    let bytes = chain.to_bytes();
    let mut reloaded = Blockchain::load(&bytes).expect("reload");
    assert_eq!(chain.len(), reloaded.len());
    loop {
        match (chain.next(), reloaded.next()) {
            (Some(x), Some(y)) => {
                assert_eq!(x.block, y.block);
                assert_eq!(x.transactions, y.transactions);
            }
            (None, None) => break,
            _ => panic!("the passes disagree on length"),
        }
    }
}

#[test]
fn validation_is_idempotent() {
    let miner = Wallet::new().expect("wallet");
    let mut chain = Blockchain::load(&[]).expect("bootstrap");
    chain.mine(&miner, &[]).expect("mining");
    let len_before = chain.len();
    let first = chain.is_valid(false);
    let second = chain.is_valid(false);
    assert!(first);
    assert_eq!(first, second);
    assert_eq!(chain.len(), len_before);
}

#[test]
fn balances_conserve_the_reward() {
    let a = Wallet::new().expect("wallet");
    let b = Wallet::new().expect("wallet");
    let mut chain = Blockchain::load(&[]).expect("bootstrap");
    chain.mine(&a, &[]).expect("a mines its reward");
    let v = 10;
    let tx = Transaction::new(&a, &b, v);
    chain.mine(&b, &[tx]).expect("b mines the transfer");
    assert_eq!(chain.balance_of(&a).expect("balance of a"), MINING_REWARD - v);
    assert_eq!(chain.balance_of(&b).expect("balance of b"), MINING_REWARD + v);
}

#[test]
fn overdraft_reports_insufficient_funds() {
    let a = Wallet::new().expect("wallet");
    let pauper = Wallet::new().expect("wallet");
    let b = Wallet::new().expect("wallet");
    let mut chain = Blockchain::load(&[]).expect("bootstrap");
    let tx = Transaction::new(&pauper, &b, 10);
    chain.mine(&a, &[tx]).expect("mining does not check balances");
    let err = chain.balance_of(&pauper).expect_err("overdraft");
    assert!(matches!(
        err,
        ChainError::InsufficientFunds { balance: 0, value: 10 }
    ));
    // the failed pass leaves the store usable
    assert!(chain.is_valid(false));
}

#[test]
fn loading_an_empty_store_bootstraps_genesis() {
    let mut chain = Blockchain::load(&[]).expect("bootstrap");
    assert_eq!(chain.len(), 1);
    let genesis = chain.next().expect("genesis block");
    assert_eq!(*genesis.get_prev_hash(), [0u8; 32]);
    assert_eq!(genesis.get_transactions().len(), 0);
    assert!(chain.next().is_none());
    assert!(chain.is_valid(false));
}

#[test]
fn tampering_with_any_digest_byte_is_detected() {
    let mut chain = Blockchain::load(&[]).expect("bootstrap");
    let miner = Wallet::new().expect("wallet");
    chain.mine(&miner, &[]).expect("mining");
    let bytes = chain.to_bytes();
    // the stored digest of the first block sits at bytes 48..80 of its record
    for i in 48..80 {
        let mut tampered = bytes.clone();
        tampered[i] ^= 0x01;
        let mut reopened = Blockchain::load(&tampered).expect("tampered store still parses");
        assert_eq!(reopened.len(), 2);
        assert!(!reopened.is_valid(false), "flipped digest byte {i} went undetected");
    }
    let mut intact = Blockchain::load(&bytes).expect("reload");
    assert!(intact.is_valid(false));
}

#[test]
fn broken_linkage_is_detected() {
    let miner = Wallet::new().expect("wallet");
    let genesis = Block::new_genesis(DIFFICULTY).expect("sealing");
    // a block sealed atop a digest that is not the tip's
    let elsewhere = [0x11u8; 32];
    let stray = Block::new(&miner, &[], elsewhere, DIFFICULTY).expect("sealing");
    let mut db = BlockDB::open(&[]);
    db.push(genesis);
    db.push(stray);
    let mut chain = Blockchain::load(&db.to_bytes()).expect("load");
    assert_eq!(chain.len(), 2);
    // every block is sound by itself: only the linkage pass can object
    let first = chain.next().expect("genesis");
    assert_eq!(first.create_hash(), *first.get_hash());
    let second = chain.next().expect("stray block");
    assert_eq!(second.create_hash(), *second.get_hash());
    assert!(chain.next().is_none());
    assert!(!chain.is_valid(false));
}

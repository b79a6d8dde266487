//! Byte-level behaviour: hex rendering, digests, record encoding.

use minichain::block::Block;
use minichain::db::BlockDB;
use minichain::encode::{get_unix_time, hex, sha256_hash};
use minichain::transaction::Transaction;
use minichain::wallet::Wallet;

#[test]
fn hex_renders_two_digits_per_byte() {
    assert_eq!(hex(&[0x00, 0xab, 0xff]), "00abff");
    assert_eq!(hex(&[]), "");
    assert_eq!(hex(&[0x01, 0x23, 0x45, 0x67, 0x89]), "0123456789");
}

#[test]
fn sha256_matches_known_vector() {
    let digest = sha256_hash(b"abc");
    assert_eq!(
        hex(&digest),
        "ba7816bf8f01cfea414140de5dae2223b00361a396177a9cb410ff61f20015ad"
    );
    let empty = sha256_hash(b"");
    assert_eq!(
        hex(&empty),
        "e3b0c44298fc1c149afbf4c8996fb92427ae41e4649b934ca495991b7852b855"
    );
}

#[test]
fn clock_reads() {
    let t = get_unix_time().expect("the clock should read");
    assert!(t > 0);
}

#[test]
fn transaction_record_round_trips() {
    let a = Wallet::new().expect("wallet");
    let b = Wallet::new().expect("wallet");
    let tx = Transaction::new(&a, &b, 42);
    let bytes = tx.encode();
    assert_eq!(bytes.len(), 133);
    let back = Transaction::decode(&bytes, 0).expect("record should decode");
    assert_eq!(back, tx);
}

#[test]
fn transaction_decode_rejects_bad_flag_byte() {
    let a = Wallet::new().expect("wallet");
    let tx = Transaction::new_coinbase(&a, 50);
    let mut bytes = tx.encode();
    bytes[132] = 7;
    assert!(Transaction::decode(&bytes, 0).is_none());
}

#[test]
fn store_bytes_have_fixed_layout() {
    let mut db = BlockDB::open(&[]);
    assert_eq!(db.len(), 0);
    assert!(db.last_block().is_none());
    let genesis = Block::new_genesis(1).expect("sealing at difficulty 1");
    db.push(genesis);
    let bytes = db.to_bytes();
    // header (104) + transaction count (8), no transactions
    assert_eq!(bytes.len(), 112);
    let miner = Wallet::new().expect("wallet");
    let tip = db.last_block().expect("one block");
    let block = Block::new(&miner, &[], *tip.get_hash(), 1).expect("sealing");
    db.push(block);
    let bytes = db.to_bytes();
    // second record carries the coinbase transaction
    assert_eq!(bytes.len(), 112 + 112 + 133);
}

#[test]
fn store_iteration_rewinds_on_exhaustion() {
    let mut db = BlockDB::open(&[]);
    db.push(Block::new_genesis(1).expect("sealing"));
    let first = db.next().expect("one block committed");
    assert!(db.next().is_none(), "pass exhausted");
    let again = db.next().expect("exhaustion rewinds, a fresh pass begins");
    assert_eq!(first.block, again.block);
}

#[test]
fn torn_trailing_record_truncates() {
    let mut db = BlockDB::open(&[]);
    db.push(Block::new_genesis(1).expect("sealing"));
    let mut bytes = db.to_bytes();
    // a torn append: half a header follows the committed block
    bytes.extend_from_slice(&[0u8; 60]);
    let reopened = BlockDB::open(&bytes);
    assert_eq!(reopened.len(), 1);
}

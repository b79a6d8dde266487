//! The block log: an append-only sequence of blocks in a flat byte
//! stream of concatenated fixed-layout records, with forward iteration
//! that rewinds on exhaustion.
//!
//! A stored block record is the fixed-width header, a transaction count,
//! and that many fixed-width transaction records.  Decoding is greedy:
//! the first undecodable suffix ends the visible chain, so a torn
//! trailing record truncates the log rather than breaking it.

use vstd::prelude::*;
use vstd::bytes::{
    lemma_auto_spec_u128_to_from_le_bytes, lemma_auto_spec_u64_to_from_le_bytes,
    spec_u128_to_le_bytes, spec_u64_to_le_bytes, u128_from_le_bytes, u128_to_le_bytes,
    u64_from_le_bytes, u64_to_le_bytes,
};
use crate::block::{Block, BlockStatic, BlockView, BLOCK_STATIC_SIZE};
use crate::transaction::{
    lemma_txs_enc_index, lemma_txs_enc_injective, lemma_txs_enc_len, tx_enc, txs_enc, Transaction,
    TX_SIZE,
};

verus! {

broadcast use vstd::array::group_array_axioms;

/// Number of bytes a block record occupies before its transaction
/// records: the fixed header plus the transaction count field.
pub const BLOCK_RECORD_BASE: usize = 112;

/// The fixed 104-byte encoding of a block header, little-endian fields
/// in store order: previous digest, timestamp, own digest, difficulty,
/// nonce.
pub open spec fn header_enc(h: BlockStatic) -> Seq<u8> {
    h.prev_hash@ + spec_u128_to_le_bytes(h.timestamp) + h.hash@
        + spec_u64_to_le_bytes(h.difficulty as u64) + spec_u128_to_le_bytes(h.nonce)
}

/// The stored record of one block: header, transaction count, then every
/// transaction record in order.
pub open spec fn block_record(m: BlockView) -> Seq<u8> {
    header_enc(m.header) + spec_u64_to_le_bytes(m.transactions.len() as u64)
        + txs_enc(m.transactions)
}

/// Whether the transaction count survives its 64-bit count field.
pub open spec fn block_count_ok(m: BlockView) -> bool {
    m.transactions.len() <= u64::MAX
}

/// Whether the record of `m` sits at the front of the stream `s`.
pub open spec fn block_at(s: Seq<u8>, m: BlockView) -> bool {
    &&& block_count_ok(m)
    &&& block_record(m).len() <= s.len()
    &&& block_record(m) == s.take(block_record(m).len() as int)
}

/// Whether any block record sits at the front of `s`.
pub open spec fn some_block_at(s: Seq<u8>) -> bool {
    exists|m: BlockView| block_at(s, m)
}

/// The block whose record sits at the front of `s`; meaningful only when
/// `some_block_at(s)` holds, and then unique.
pub open spec fn first_block(s: Seq<u8>) -> BlockView {
    choose|m: BlockView| block_at(s, m)
}

/// The blocks a greedy forward pass decodes from the stream `s`: records
/// peeled off the front until the first position where none decodes.
pub open spec fn parsed(s: Seq<u8>) -> Seq<BlockView>
    decreases s.len(),
    via parsed_decreases
{
    if some_block_at(s) {
        seq![first_block(s)] + parsed(s.skip(block_record(first_block(s)).len() as int))
    } else {
        Seq::empty()
    }
}

#[via_fn]
proof fn parsed_decreases(s: Seq<u8>) {
    if some_block_at(s) {
        let m = choose|m: BlockView| block_at(s, m);
        lemma_block_record_len(m);
    }
}

/// The byte stream a sequence of blocks encodes to: their records
/// concatenated in order.
pub open spec fn stream_enc(ms: Seq<BlockView>) -> Seq<u8>
    decreases ms.len(),
{
    if ms.len() == 0 {
        Seq::empty()
    } else {
        block_record(ms[0]) + stream_enc(ms.skip(1))
    }
}

/// A block record is 112 bytes plus 133 per transaction.
pub proof fn lemma_block_record_len(m: BlockView)
    ensures
        block_record(m).len() == BLOCK_RECORD_BASE + TX_SIZE * m.transactions.len(),
        header_enc(m.header).len() == BLOCK_STATIC_SIZE,
{
    lemma_auto_spec_u64_to_from_le_bytes();
    lemma_auto_spec_u128_to_from_le_bytes();
    lemma_txs_enc_len(m.transactions);
}

/// Positions of the fields inside a block record.
pub proof fn lemma_block_record_fields(m: BlockView)
    ensures
        block_record(m).len() == BLOCK_RECORD_BASE + TX_SIZE * m.transactions.len(),
        block_record(m).subrange(0, 32) == m.header.prev_hash@,
        block_record(m).subrange(32, 48) == spec_u128_to_le_bytes(m.header.timestamp),
        block_record(m).subrange(48, 80) == m.header.hash@,
        block_record(m).subrange(80, 88) == spec_u64_to_le_bytes(m.header.difficulty as u64),
        block_record(m).subrange(88, 104) == spec_u128_to_le_bytes(m.header.nonce),
        block_record(m).subrange(104, 112) == spec_u64_to_le_bytes(m.transactions.len() as u64),
        block_record(m).subrange(112, block_record(m).len() as int) == txs_enc(m.transactions),
{
    lemma_auto_spec_u64_to_from_le_bytes();
    lemma_auto_spec_u128_to_from_le_bytes();
    lemma_txs_enc_len(m.transactions);
    assert(block_record(m).subrange(0, 32) =~= m.header.prev_hash@);
    assert(block_record(m).subrange(32, 48) =~= spec_u128_to_le_bytes(m.header.timestamp));
    assert(block_record(m).subrange(48, 80) =~= m.header.hash@);
    assert(block_record(m).subrange(80, 88) =~= spec_u64_to_le_bytes(
        m.header.difficulty as u64,
    ));
    assert(block_record(m).subrange(88, 104) =~= spec_u128_to_le_bytes(m.header.nonce));
    assert(block_record(m).subrange(104, 112) =~= spec_u64_to_le_bytes(
        m.transactions.len() as u64,
    ));
    assert(block_record(m).subrange(112, block_record(m).len() as int) =~= txs_enc(
        m.transactions,
    ));
}

/// At most one block record sits at the front of a stream: records agree
/// on their count field, hence on their length, hence byte for byte, and
/// equal records mean equal blocks.
pub proof fn lemma_block_at_unique(s: Seq<u8>, m1: BlockView, m2: BlockView)
    requires
        block_at(s, m1),
        block_at(s, m2),
    ensures
        m1 == m2,
{
    lemma_auto_spec_u64_to_from_le_bytes();
    lemma_auto_spec_u128_to_from_le_bytes();
    lemma_block_record_fields(m1);
    lemma_block_record_fields(m2);
    let r1 = block_record(m1);
    let r2 = block_record(m2);
    assert(r1.subrange(104, 112) =~= s.subrange(104, 112));
    assert(r2.subrange(104, 112) =~= s.subrange(104, 112));
    assert(m1.transactions.len() as u64 == m2.transactions.len() as u64);
    assert(m1.transactions.len() == m2.transactions.len());
    assert(r1.len() == r2.len());
    assert(r1 =~= r2);
    assert(m1.header.prev_hash@ == m2.header.prev_hash@);
    assert(m1.header.prev_hash == m2.header.prev_hash);
    assert(m1.header.hash == m2.header.hash);
    assert(spec_u128_to_le_bytes(m1.header.timestamp) == spec_u128_to_le_bytes(
        m2.header.timestamp,
    ));
    assert(m1.header.timestamp == m2.header.timestamp);
    assert(m1.header.nonce == m2.header.nonce);
    assert(m1.header.difficulty as u64 == m2.header.difficulty as u64);
    assert(m1.header.difficulty == m2.header.difficulty);
    assert(txs_enc(m1.transactions) == txs_enc(m2.transactions));
    lemma_txs_enc_injective(m1.transactions, m2.transactions);
    assert(m1 =~= m2);
}

/// Nothing decodes from fewer than 112 bytes.
pub proof fn lemma_short_stream_no_block(s: Seq<u8>)
    requires
        s.len() < BLOCK_RECORD_BASE,
    ensures
        !some_block_at(s),
        parsed(s) == Seq::<BlockView>::empty(),
{
    assert forall|m: BlockView| !block_at(s, m) by {
        lemma_block_record_len(m);
    }
}

/// Decoding undoes encoding: a stream built from block records parses
/// back to exactly those blocks, in order.
pub proof fn lemma_stream_round_trip(ms: Seq<BlockView>)
    requires
        forall|i: int| 0 <= i < ms.len() ==> block_count_ok(#[trigger] ms[i]),
    ensures
        parsed(stream_enc(ms)) == ms,
    decreases ms.len(),
{
    let s = stream_enc(ms);
    if ms.len() == 0 {
        lemma_short_stream_no_block(s);
        assert(parsed(s) =~= ms);
    } else {
        let m = ms[0];
        lemma_block_record_len(m);
        assert(stream_enc(ms) == block_record(m) + stream_enc(ms.skip(1)));
        assert(block_record(m) =~= s.take(block_record(m).len() as int));
        assert(block_at(s, m));
        lemma_block_at_unique(s, first_block(s), m);
        assert(s.skip(block_record(m).len() as int) =~= stream_enc(ms.skip(1)));
        lemma_stream_round_trip(ms.skip(1));
        assert(parsed(s) =~= ms);
    }
}

/// Encodes one block into its stored record.
fn encode_block(b: &Block) -> (r: Vec<u8>)
    ensures
        r@ == block_record(b@),
{
    let mut bytes: Vec<u8> = Vec::new();
    crate::encode::push_bytes(&mut bytes, b.block.prev_hash.as_slice());
    let timestamp_bytes: Vec<u8> = u128_to_le_bytes(b.block.timestamp);
    crate::encode::push_bytes(&mut bytes, timestamp_bytes.as_slice());
    crate::encode::push_bytes(&mut bytes, b.block.hash.as_slice());
    let difficulty_bytes: Vec<u8> = u64_to_le_bytes(b.block.difficulty as u64);
    crate::encode::push_bytes(&mut bytes, difficulty_bytes.as_slice());
    let nonce_bytes: Vec<u8> = u128_to_le_bytes(b.block.nonce);
    crate::encode::push_bytes(&mut bytes, nonce_bytes.as_slice());
    let n: usize = b.transactions.len();
    let count_bytes: Vec<u8> = u64_to_le_bytes(n as u64);
    crate::encode::push_bytes(&mut bytes, count_bytes.as_slice());
    let ghost head: Seq<u8> = bytes@;
    let mut i: usize = 0;
    while i < n
        invariant
            n == b.transactions@.len(),
            i <= n,
            bytes@ == head + txs_enc(b.transactions@.take(i as int)),
        decreases n - i,
    {
        let tx_bytes: Vec<u8> = b.transactions[i].encode();
        crate::encode::push_bytes(&mut bytes, tx_bytes.as_slice());
        proof {
            assert(b.transactions@.take(i + 1) =~= b.transactions@.take(i as int).push(
                b.transactions@[i as int],
            ));
            crate::transaction::lemma_txs_enc_push(
                b.transactions@.take(i as int),
                b.transactions@[i as int],
            );
        }
        i = i + 1;
    }
    proof {
        assert(b.transactions@.take(n as int) =~= b.transactions@);
        assert(bytes@ =~= block_record(b@));
    }
    bytes
}

/// Decodes the block record at offset `off`, if one sits there: returns
/// the block and its record length.  Any failure — too few bytes for the
/// header, a difficulty beyond this platform's word, too few bytes for
/// the declared transactions, or an undecodable transaction record —
/// means no block record sits at `off` at all.
fn decode_block(bytes: &[u8], off: usize) -> (r: Option<(Block, usize)>)
    requires
        off <= bytes@.len(),
    ensures
        r matches Some((b, n)) ==> block_at(bytes@.skip(off as int), b@)
            && n == block_record(b@).len() && off + n <= bytes@.len(),
        r is None ==> !some_block_at(bytes@.skip(off as int)),
{
    let len: usize = bytes.len();
    let ghost s: Seq<u8> = bytes@.skip(off as int);
    let remaining: usize = len - off;
    if remaining < BLOCK_RECORD_BASE {
        proof {
            lemma_short_stream_no_block(s);
        }
        return None;
    }
    let prev_hash: crate::encode::Hash = read_hash(bytes, off);
    let timestamp: u128 = u128_from_le_bytes(vstd::slice::slice_subrange(
        bytes,
        off + 32,
        off + 48,
    ));
    let hash: crate::encode::Hash = read_hash(bytes, off + 48);
    let difficulty64: u64 = u64_from_le_bytes(vstd::slice::slice_subrange(
        bytes,
        off + 80,
        off + 88,
    ));
    let nonce: u128 = u128_from_le_bytes(vstd::slice::slice_subrange(bytes, off + 88, off + 104));
    let count64: u64 = u64_from_le_bytes(vstd::slice::slice_subrange(bytes, off + 104, off + 112));
    proof {
        lemma_auto_spec_u64_to_from_le_bytes();
        lemma_auto_spec_u128_to_from_le_bytes();
        assert(bytes@.subrange(off + 104, off + 112) =~= s.subrange(104, 112));
        assert forall|m: BlockView| block_at(s, m) implies m.transactions.len() == count64 by {
            lemma_block_record_fields(m);
            assert(block_record(m).subrange(104, 112) =~= s.subrange(104, 112));
            assert(m.transactions.len() as u64 == count64);
        }
    }
    if difficulty64 > usize::MAX as u64 {
        proof {
            assert(bytes@.subrange(off + 80, off + 88) =~= s.subrange(80, 88));
            assert forall|m: BlockView| !block_at(s, m) by {
                if block_at(s, m) {
                    lemma_block_record_fields(m);
                    assert(block_record(m).subrange(80, 88) =~= s.subrange(80, 88));
                    assert(m.header.difficulty as u64 == difficulty64);
                }
            }
        }
        return None;
    }
    let difficulty: usize = difficulty64 as usize;
    if ((remaining - BLOCK_RECORD_BASE) as u64 as u128) < (count64 as u128) * (TX_SIZE as u128) {
        proof {
            assert forall|m: BlockView| !block_at(s, m) by {
                if block_at(s, m) {
                    lemma_block_record_fields(m);
                }
            }
        }
        return None;
    }
    let count: usize = count64 as usize;
    let txs_base: usize = off + BLOCK_RECORD_BASE;
    let mut transactions: Vec<Transaction> = Vec::new();
    let mut j: usize = 0;
    while j < count
        invariant
            off <= bytes@.len(),
            s == bytes@.skip(off as int),
            len == bytes@.len(),
            txs_base == off + BLOCK_RECORD_BASE,
            BLOCK_RECORD_BASE + count * TX_SIZE <= len - off,
            j <= count,
            transactions@.len() == j,
            txs_enc(transactions@) =~= s.subrange(
                BLOCK_RECORD_BASE as int,
                BLOCK_RECORD_BASE + j * TX_SIZE,
            ),
            forall|m: BlockView| block_at(s, m) ==> m.transactions.len() == count,
        decreases count - j,
    {
        let tx_off: usize = txs_base + j * TX_SIZE;
        match Transaction::decode(bytes, tx_off) {
            Some(t) => {
                proof {
                    let ghost prefix = transactions@;
                    crate::transaction::lemma_txs_enc_push(prefix, t);
                    assert(bytes@.subrange(tx_off as int, tx_off + TX_SIZE) =~= s.subrange(
                        BLOCK_RECORD_BASE + j * TX_SIZE,
                        BLOCK_RECORD_BASE + (j + 1) * TX_SIZE,
                    ));
                    assert(txs_enc(prefix.push(t)) =~= s.subrange(
                        BLOCK_RECORD_BASE as int,
                        BLOCK_RECORD_BASE + (j + 1) * TX_SIZE,
                    ));
                }
                transactions.push(t);
            },
            None => {
                proof {
                    assert forall|m: BlockView| !block_at(s, m) by {
                        if block_at(s, m) {
                            lemma_block_record_fields(m);
                            lemma_txs_enc_index(m.transactions, j as int);
                            assert(tx_enc(m.transactions[j as int]) =~= s.subrange(
                                BLOCK_RECORD_BASE + j * TX_SIZE,
                                BLOCK_RECORD_BASE + (j + 1) * TX_SIZE,
                            ));
                            crate::transaction::lemma_tx_enc_fields(m.transactions[j as int]);
                            assert(s[BLOCK_RECORD_BASE + j * TX_SIZE + 132] == crate::transaction::bool_byte(
                                m.transactions[j as int].is_coinbase,
                            ));
                            assert(bytes@[tx_off + 132] == s[BLOCK_RECORD_BASE + j * TX_SIZE
                                + 132]);
                        }
                    }
                }
                return None;
            },
        }
        j = j + 1;
    }
    let block = Block {
        block: BlockStatic { prev_hash, timestamp, hash, difficulty, nonce },
        transactions,
    };
    let record_len: usize = BLOCK_RECORD_BASE + count * TX_SIZE;
    proof {
        lemma_auto_spec_u64_to_from_le_bytes();
        lemma_auto_spec_u128_to_from_le_bytes();
        lemma_block_record_len(block@);
        assert(bytes@.subrange(off as int, off + 32) =~= s.subrange(0, 32));
        assert(bytes@.subrange(off + 32, off + 48) =~= s.subrange(32, 48));
        assert(bytes@.subrange(off + 48, off + 80) =~= s.subrange(48, 80));
        assert(bytes@.subrange(off + 80, off + 88) =~= s.subrange(80, 88));
        assert(bytes@.subrange(off + 88, off + 104) =~= s.subrange(88, 104));
        assert(bytes@.subrange(off + 104, off + 112) =~= s.subrange(104, 112));
        assert(block_record(block@) =~= s.take(block_record(block@).len() as int));
        assert(block_at(s, block@));
    }
    Some((block, record_len))
}

/// The block log: the blocks a stream decoded to, with a read cursor.
/// The cursor walks forward one block per `next` call; exhausting the
/// log rewinds it to the start, so a fresh full pass can begin at once.
pub struct BlockDB {
    blocks: Vec<Block>,
    cursor: usize,
}

impl BlockDB {
    /// The committed chain: every block of the log, in append order.
    pub closed spec fn chain(self) -> Seq<BlockView> {
        self.blocks@.map_values(|b: Block| b@)
    }

    /// The read cursor: how many blocks the current pass has yielded.
    pub closed spec fn cursor_at(self) -> int {
        self.cursor as int
    }

    /// The log's internal soundness: the cursor stays within the chain
    /// and every block's transaction count survives its count field.
    pub closed spec fn wf(self) -> bool {
        &&& self.cursor <= self.blocks@.len()
        &&& forall|i: int| 0 <= i < self.chain().len() ==> block_count_ok(#[trigger] self.chain()[i])
    }

    /// Opens a store from its raw bytes: decodes the committed chain by
    /// one greedy forward pass and leaves the cursor at the start.  Bytes
    /// after the last decodable record are dropped, so a torn trailing
    /// append truncates the visible chain.
    pub fn open(bytes: &[u8]) -> (db: BlockDB)
        ensures
            db.wf(),
            db.chain() == parsed(bytes@),
            db.cursor_at() == 0,
    {
        let len: usize = bytes.len();
        let mut blocks: Vec<Block> = Vec::new();
        let mut off: usize = 0;
        proof {
            assert(bytes@.skip(0) =~= bytes@);
            assert(blocks@.map_values(|b: Block| b@) =~= Seq::<BlockView>::empty());
            assert(blocks@.map_values(|b: Block| b@) + parsed(bytes@.skip(0)) =~= parsed(bytes@));
        }
        loop
            invariant_except_break
                len == bytes@.len(),
                off <= len,
                parsed(bytes@) =~= blocks@.map_values(|b: Block| b@) + parsed(
                    bytes@.skip(off as int),
                ),
                forall|i: int|
                    0 <= i < blocks@.len() ==> block_count_ok((#[trigger] blocks@[i])@),
            ensures
                parsed(bytes@) =~= blocks@.map_values(|b: Block| b@),
                forall|i: int|
                    0 <= i < blocks@.len() ==> block_count_ok((#[trigger] blocks@[i])@),
            decreases len - off,
        {
            match decode_block(bytes, off) {
                None => {
                    break;
                },
                Some((b, n)) => {
                    proof {
                        let ghost s = bytes@.skip(off as int);
                        assert(block_at(s, b@));
                        lemma_block_at_unique(s, first_block(s), b@);
                        lemma_block_record_len(b@);
                        assert(s.skip(n as int) =~= bytes@.skip(off + n));
                        assert(parsed(s) == seq![b@] + parsed(bytes@.skip(off + n)));
                        assert(blocks@.push(b).map_values(|b: Block| b@) =~= blocks@.map_values(
                            |b: Block| b@,
                        ).push(b@));
                    }
                    blocks.push(b);
                    off = off + n;
                },
            }
        }
        BlockDB { blocks, cursor: 0 }
    }

    /// Re-encodes the committed chain into the store's flat byte stream.
    pub fn to_bytes(&self) -> (r: Vec<u8>)
        ensures
            r@ == stream_enc(self.chain()),
    {
        let n: usize = self.blocks.len();
        let mut bytes: Vec<u8> = Vec::new();
        let mut i: usize = 0;
        while i < n
            invariant
                n == self.blocks@.len(),
                i <= n,
                bytes@ =~= stream_enc(self.chain().take(i as int)),
            decreases n - i,
        {
            let record: Vec<u8> = encode_block(&self.blocks[i]);
            crate::encode::push_bytes(&mut bytes, record.as_slice());
            proof {
                lemma_stream_enc_push(self.chain().take(i as int), self.chain()[i as int]);
                assert(self.chain().take(i + 1) =~= self.chain().take(i as int).push(
                    self.chain()[i as int],
                ));
            }
            i = i + 1;
        }
        proof {
            assert(self.chain().take(n as int) =~= self.chain());
        }
        bytes
    }

    /// Appends one block at the end of the log and repositions the read
    /// cursor to the start.
    pub fn push(&mut self, block: Block)
        requires
            old(self).wf(),
        ensures
            final(self).wf(),
            final(self).chain() == old(self).chain().push(block@),
            final(self).cursor_at() == 0,
    {
        let ghost count: nat = block.transactions@.len();
        let c: usize = block.transactions.len();
        proof {
            assert(count <= usize::MAX);
            assert(block_count_ok(block@));
        }
        self.blocks.push(block);
        self.cursor = 0;
        proof {
            assert(self.chain() =~= old(self).chain().push(block@));
        }
    }

    /// Yields the next block of the current pass, or reports exhaustion
    /// and rewinds the cursor to the start.
    pub fn next(&mut self) -> (r: Option<Block>)
        requires
            old(self).wf(),
        ensures
            final(self).wf(),
            final(self).chain() == old(self).chain(),
            old(self).cursor_at() < old(self).chain().len() ==> (r matches Some(b)
                && b@ == old(self).chain()[old(self).cursor_at()]
                && final(self).cursor_at() == old(self).cursor_at() + 1),
            old(self).cursor_at() >= old(self).chain().len() ==> (r is None
                && final(self).cursor_at() == 0),
    {
        if self.cursor < self.blocks.len() {
            let b: Block = self.blocks[self.cursor].clone();
            self.cursor = self.cursor + 1;
            Some(b)
        } else {
            self.cursor = 0;
            None
        }
    }

    /// Drains the current pass and hands back the last block seen — the
    /// tip for a pass begun at the start — leaving the cursor rewound.
    pub fn last_block(&mut self) -> (r: Option<Block>)
        requires
            old(self).wf(),
        ensures
            final(self).wf(),
            final(self).chain() == old(self).chain(),
            final(self).cursor_at() == 0,
            old(self).chain().len() == 0 ==> r is None,
            old(self).chain().len() > 0 ==> (r matches Some(b) && b@ == old(self).chain().last()),
    {
        let n: usize = self.blocks.len();
        self.cursor = 0;
        if n == 0 {
            None
        } else {
            Some(self.blocks[n - 1].clone())
        }
    }

    /// Rewinds the read cursor to the start, abandoning a partial pass.
    pub fn reset(&mut self)
        requires
            old(self).wf(),
        ensures
            final(self).wf(),
            final(self).chain() == old(self).chain(),
            final(self).cursor_at() == 0,
    {
        self.cursor = 0;
        proof {
            assert(self.chain() =~= old(self).chain());
        }
    }

    /// The number of committed blocks.
    pub fn len(&self) -> (r: usize)
        ensures
            r == self.chain().len(),
    {
        self.blocks.len()
    }
}

/// Appending one block extends the stream at the end.
pub proof fn lemma_stream_enc_push(ms: Seq<BlockView>, m: BlockView)
    ensures
        stream_enc(ms.push(m)) == stream_enc(ms) + block_record(m),
    decreases ms.len(),
{
    if ms.len() == 0 {
        reveal_with_fuel(stream_enc, 2);
        assert(ms.push(m).skip(1) =~= Seq::<BlockView>::empty());
        assert(stream_enc(ms.push(m)) =~= stream_enc(ms) + block_record(m));
    } else {
        assert(ms.push(m).skip(1) =~= ms.skip(1).push(m));
        assert(ms.push(m)[0] == ms[0]);
        lemma_stream_enc_push(ms.skip(1), m);
        assert(stream_enc(ms.push(m)) == block_record(ms[0]) + (stream_enc(ms.skip(1))
            + block_record(m)));
        assert(stream_enc(ms.push(m)) =~= stream_enc(ms) + block_record(m));
    }
}

/// Copies a 32-byte digest out of `bytes` at offset `off`.
fn read_hash(bytes: &[u8], off: usize) -> (r: crate::encode::Hash)
    requires
        off + 32 <= bytes@.len(),
    ensures
        r@ == bytes@.subrange(off as int, off + 32),
{
    let n: usize = bytes.len();
    let mut r: crate::encode::Hash = [0; 32];
    let mut i: usize = 0;
    while i < 32
        invariant
            off + 32 <= n == bytes@.len(),
            i <= 32,
            r@.len() == 32,
            forall|j: int| 0 <= j < i ==> r@[j] == bytes@[off + j],
        decreases 32 - i,
    {
        r[i] = *vstd::slice::slice_index_get(bytes, off + i);
        i = i + 1;
    }
    proof {
        assert(r@ =~= bytes@.subrange(off as int, off + 32));
    }
    r
}

} // verus!

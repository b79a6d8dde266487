//! Transactions: signed or coinbase value transfers with a fixed-width
//! binary encoding and signature verification over a canonical message.

use vstd::prelude::*;
use vstd::bytes::{
    lemma_auto_spec_u32_to_from_le_bytes, spec_u32_to_le_bytes, u32_from_le_bytes, u32_to_le_bytes,
};
use vstd::slice::{slice_index_get, slice_subrange};
use crate::encode::{push_bytes, sha256_hash, sha256_of};
use crate::wallet::{
    ed25519_sign, ed25519_signature, ed25519_verifies, ed25519_verify, PKey, Sign, Wallet,
};

verus! {

broadcast use vstd::array::group_array_axioms;

/// The unsigned 32-bit amount a transaction moves.
pub type Val = u32;

/// Number of bytes in one encoded transaction record:
/// value (4), sender (32), receiver (32), signature (64), coinbase flag (1).
pub const TX_SIZE: usize = 133;

/// A value transfer.  A coinbase transaction mints the block reward: its
/// sender key and signature are all zero and it is exempt from signature
/// verification.  Any other transaction must carry a signature over the
/// canonical message of its non-signature fields.
#[derive(Clone, Copy, Debug, PartialEq, Eq)]
pub struct Transaction {
    /// Amount moved from sender to receiver.
    pub value: Val,
    /// Public key of the paying wallet; all zero for a coinbase.
    pub sender: PKey,
    /// Public key of the credited wallet.
    pub receiver: PKey,
    /// Ed25519 signature over the canonical message; all zero for a coinbase.
    pub signature: Sign,
    /// Whether this record mints the block reward.
    pub is_coinbase: bool,
}

/// The single byte a flag encodes to.
pub open spec fn bool_byte(b: bool) -> u8 {
    if b { 1 } else { 0 }
}

/// The fixed 133-byte encoding of a transaction record, little-endian
/// fields in declaration order.
pub open spec fn tx_enc(t: Transaction) -> Seq<u8> {
    spec_u32_to_le_bytes(t.value) + t.sender@ + t.receiver@ + t.signature@
        + seq![bool_byte(t.is_coinbase)]
}

/// The 69-byte encoding of the signed fields: everything but the
/// signature itself.
pub open spec fn tx_sign_enc(t: Transaction) -> Seq<u8> {
    spec_u32_to_le_bytes(t.value) + t.sender@ + t.receiver@ + seq![bool_byte(t.is_coinbase)]
}

/// The canonical signing message: the SHA-256 digest of the signed fields.
pub open spec fn spec_sign_message(t: Transaction) -> Seq<u8> {
    sha256_of(tx_sign_enc(t))
}

/// What `is_valid` decides: a coinbase is valid unconditionally, any
/// other transaction exactly when its signature verifies for the
/// canonical message under the sender's key.
pub open spec fn spec_tx_valid(t: Transaction) -> bool {
    t.is_coinbase || ed25519_verifies(spec_sign_message(t), t.sender@, t.signature@)
}

/// The concatenation of the fixed-width records of a transaction
/// sequence, in order.
pub open spec fn txs_enc(ts: Seq<Transaction>) -> Seq<u8>
    decreases ts.len(),
{
    if ts.len() == 0 {
        Seq::empty()
    } else {
        tx_enc(ts[0]) + txs_enc(ts.skip(1))
    }
}

/// The encoding of a transaction sequence is 133 bytes per record.
pub proof fn lemma_txs_enc_len(ts: Seq<Transaction>)
    ensures
        txs_enc(ts).len() == TX_SIZE * ts.len(),
    decreases ts.len(),
{
    if ts.len() > 0 {
        lemma_tx_enc_fields(ts[0]);
        lemma_txs_enc_len(ts.skip(1));
    }
}

/// Appending one record extends the encoding at the end.
pub proof fn lemma_txs_enc_push(ts: Seq<Transaction>, t: Transaction)
    ensures
        txs_enc(ts.push(t)) == txs_enc(ts) + tx_enc(t),
    decreases ts.len(),
{
    if ts.len() == 0 {
        reveal_with_fuel(txs_enc, 2);
        assert(ts.push(t).skip(1) =~= Seq::<Transaction>::empty());
        assert(txs_enc(ts.push(t)) =~= txs_enc(ts) + tx_enc(t));
    } else {
        assert(ts.push(t).skip(1) =~= ts.skip(1).push(t));
        assert(ts.push(t)[0] == ts[0]);
        lemma_txs_enc_push(ts.skip(1), t);
        assert(txs_enc(ts.push(t)) == tx_enc(ts[0]) + (txs_enc(ts.skip(1)) + tx_enc(t)));
        assert(txs_enc(ts.push(t)) =~= txs_enc(ts) + tx_enc(t));
    }
}

/// Each record sits at its fixed offset inside the sequence encoding.
pub proof fn lemma_txs_enc_index(ts: Seq<Transaction>, j: int)
    requires
        0 <= j < ts.len(),
    ensures
        txs_enc(ts).subrange(TX_SIZE * j, TX_SIZE * (j + 1)) == tx_enc(ts[j]),
    decreases ts.len(),
{
    lemma_txs_enc_len(ts);
    lemma_tx_enc_fields(ts[0]);
    lemma_txs_enc_len(ts.skip(1));
    if j == 0 {
        assert(txs_enc(ts).subrange(0, TX_SIZE as int) =~= tx_enc(ts[0]));
    } else {
        lemma_txs_enc_index(ts.skip(1), j - 1);
        assert(txs_enc(ts).subrange(TX_SIZE * j, TX_SIZE * (j + 1)) =~= txs_enc(ts.skip(1))
            .subrange(TX_SIZE * (j - 1), TX_SIZE * j));
    }
}

/// Two transaction sequences of the same length with the same encoding
/// are the same sequence.
pub proof fn lemma_txs_enc_injective(ts1: Seq<Transaction>, ts2: Seq<Transaction>)
    requires
        ts1.len() == ts2.len(),
        txs_enc(ts1) == txs_enc(ts2),
    ensures
        ts1 == ts2,
{
    assert forall|j: int| 0 <= j < ts1.len() implies ts1[j] == ts2[j] by {
        lemma_txs_enc_index(ts1, j);
        lemma_txs_enc_index(ts2, j);
        lemma_tx_enc_injective(ts1[j], ts2[j]);
    }
    assert(ts1 =~= ts2);
}

/// Positions of the fields inside the 133-byte record.
pub proof fn lemma_tx_enc_fields(t: Transaction)
    ensures
        tx_enc(t).len() == TX_SIZE,
        tx_enc(t).subrange(0, 4) == spec_u32_to_le_bytes(t.value),
        tx_enc(t).subrange(4, 36) == t.sender@,
        tx_enc(t).subrange(36, 68) == t.receiver@,
        tx_enc(t).subrange(68, 132) == t.signature@,
        tx_enc(t)[132] == bool_byte(t.is_coinbase),
{
    lemma_auto_spec_u32_to_from_le_bytes();
    assert(tx_enc(t).subrange(0, 4) =~= spec_u32_to_le_bytes(t.value));
    assert(tx_enc(t).subrange(4, 36) =~= t.sender@);
    assert(tx_enc(t).subrange(36, 68) =~= t.receiver@);
    assert(tx_enc(t).subrange(68, 132) =~= t.signature@);
}

/// Two transactions with the same record are the same transaction.
pub proof fn lemma_tx_enc_injective(t1: Transaction, t2: Transaction)
    requires
        tx_enc(t1) == tx_enc(t2),
    ensures
        t1 == t2,
{
    lemma_auto_spec_u32_to_from_le_bytes();
    lemma_tx_enc_fields(t1);
    lemma_tx_enc_fields(t2);
    assert(t1.sender@ == t2.sender@);
    assert(t1.sender == t2.sender);
    assert(t1.receiver == t2.receiver);
    assert(t1.signature == t2.signature);
    assert(spec_u32_to_le_bytes(t1.value) == spec_u32_to_le_bytes(t2.value));
    assert(t1.value == t2.value);
    assert(bool_byte(t1.is_coinbase) == bool_byte(t2.is_coinbase));
    assert(t1.is_coinbase == t2.is_coinbase);
}

impl Transaction {
    /// Encodes the record into its fixed 133-byte form.
    pub fn encode(&self) -> (r: Vec<u8>)
        ensures
            r@ == tx_enc(*self),
    {
        let mut bytes: Vec<u8> = u32_to_le_bytes(self.value);
        push_bytes(&mut bytes, self.sender.as_slice());
        push_bytes(&mut bytes, self.receiver.as_slice());
        push_bytes(&mut bytes, self.signature.as_slice());
        bytes.push(if self.is_coinbase { 1 } else { 0 });
        proof {
            assert(bytes@ =~= tx_enc(*self));
        }
        bytes
    }

    /// Decodes one record from `bytes` at offset `off`.  Fails exactly
    /// when the coinbase flag byte is neither 0 nor 1.
    pub fn decode(bytes: &[u8], off: usize) -> (r: Option<Transaction>)
        requires
            off + TX_SIZE <= bytes@.len(),
        ensures
            r matches Some(t) ==> tx_enc(t) == bytes@.subrange(off as int, off + TX_SIZE),
            r is None <==> (bytes@[off + 132] != 0 && bytes@[off + 132] != 1),
    {
        let n: usize = bytes.len();
        let flag_byte: u8 = *slice_index_get(bytes, off + 132);
        let is_coinbase: bool = if flag_byte == 1 {
            true
        } else if flag_byte == 0 {
            false
        } else {
            return None;
        };
        let value: Val = u32_from_le_bytes(slice_subrange(bytes, off, off + 4));
        let sender: PKey = read_arr32(bytes, off + 4);
        let receiver: PKey = read_arr32(bytes, off + 36);
        let signature: Sign = read_arr64(bytes, off + 68);
        let t = Transaction { value, sender, receiver, signature, is_coinbase };
        proof {
            lemma_auto_spec_u32_to_from_le_bytes();
            assert(tx_enc(t) =~= bytes@.subrange(off as int, off + TX_SIZE));
        }
        Some(t)
    }

    /// Builds the reward-minting transaction crediting `receiver`.
    pub fn new_coinbase(receiver: &Wallet, value: Val) -> (r: Transaction)
        ensures
            r.value == value,
            r.sender@ == Seq::new(32, |i: int| 0u8),
            r.receiver == receiver.pk,
            r.signature@ == Seq::new(64, |i: int| 0u8),
            r.is_coinbase,
            spec_tx_valid(r),
    {
        let r = Transaction {
            value,
            sender: [0; 32],
            receiver: *receiver.get_pk(),
            signature: [0; 64],
            is_coinbase: true,
        };
        proof {
            assert(r.sender@ =~= Seq::new(32, |i: int| 0u8));
            assert(r.signature@ =~= Seq::new(64, |i: int| 0u8));
        }
        r
    }

    /// Builds and signs a transfer of `value` from `sender` to
    /// `receiver`.  When the sender's keys belong together, the result
    /// passes `is_valid`.
    pub fn new(sender: &Wallet, receiver: &Wallet, value: Val) -> (r: Transaction)
        ensures
            r.value == value,
            r.sender == sender.pk,
            r.receiver == receiver.pk,
            !r.is_coinbase,
            r.signature@ == ed25519_sign(spec_sign_message(r), sender.sk@),
            sender.wf() ==> spec_tx_valid(r),
    {
        let mut transaction = Transaction {
            value,
            sender: *sender.get_pk(),
            receiver: *receiver.get_pk(),
            signature: [0; 64],
            is_coinbase: false,
        };
        let message: crate::encode::Hash = transaction.sign_message();
        transaction.signature = ed25519_signature(message.as_slice(), sender.get_sk());
        transaction
    }

    /// The sender's public key.
    pub fn get_sender(&self) -> (r: &PKey)
        ensures
            r == &self.sender,
    {
        &self.sender
    }

    /// The receiver's public key.
    pub fn get_receiver(&self) -> (r: &PKey)
        ensures
            r == &self.receiver,
    {
        &self.receiver
    }

    /// Whether the given wallet is the credited party.
    pub fn is_receiver(&self, wallet: &Wallet) -> (r: bool)
        ensures
            r == (self.receiver@ == wallet.pk@),
    {
        crate::encode::bytes_eq(self.receiver.as_slice(), wallet.get_pk().as_slice())
    }

    /// Whether the given wallet is the paying party.
    pub fn is_sender(&self, wallet: &Wallet) -> (r: bool)
        ensures
            r == (self.sender@ == wallet.pk@),
    {
        crate::encode::bytes_eq(self.sender.as_slice(), wallet.get_pk().as_slice())
    }

    /// The amount moved.
    pub fn get_value(&self) -> (r: &Val)
        ensures
            r == &self.value,
    {
        &self.value
    }

    /// Whether this record mints the block reward.
    pub fn is_coinbase(&self) -> (r: &bool)
        ensures
            r == &self.is_coinbase,
    {
        &self.is_coinbase
    }

    /// Decides the validity predicate: true for a coinbase, otherwise
    /// true exactly when the signature verifies for the canonical message
    /// under the sender's key.
    pub fn is_valid(&self) -> (r: bool)
        ensures
            r == spec_tx_valid(*self),
    {
        if self.is_coinbase {
            return true;
        }
        let message: crate::encode::Hash = self.sign_message();
        ed25519_verify(message.as_slice(), &self.sender, &self.signature)
    }

    /// The canonical signing message: the digest of the signed fields.
    fn sign_message(&self) -> (r: crate::encode::Hash)
        ensures
            r@ == spec_sign_message(*self),
    {
        let mut bytes: Vec<u8> = u32_to_le_bytes(self.value);
        push_bytes(&mut bytes, self.sender.as_slice());
        push_bytes(&mut bytes, self.receiver.as_slice());
        bytes.push(if self.is_coinbase { 1 } else { 0 });
        proof {
            assert(bytes@ =~= tx_sign_enc(*self));
        }
        sha256_hash(bytes.as_slice())
    }
}

/// Copies 32 bytes out of `bytes` at offset `off`.
fn read_arr32(bytes: &[u8], off: usize) -> (r: [u8; 32])
    requires
        off + 32 <= bytes@.len(),
    ensures
        r@ == bytes@.subrange(off as int, off + 32),
{
    let n: usize = bytes.len();
    let mut r: [u8; 32] = [0; 32];
    let mut i: usize = 0;
    while i < 32
        invariant
            off + 32 <= n == bytes@.len(),
            i <= 32,
            r@.len() == 32,
            forall|j: int| 0 <= j < i ==> r@[j] == bytes@[off + j],
        decreases 32 - i,
    {
        r[i] = *slice_index_get(bytes, off + i);
        i = i + 1;
    }
    proof {
        assert(r@ =~= bytes@.subrange(off as int, off + 32));
    }
    r
}

/// Copies 64 bytes out of `bytes` at offset `off`.
fn read_arr64(bytes: &[u8], off: usize) -> (r: [u8; 64])
    requires
        off + 64 <= bytes@.len(),
    ensures
        r@ == bytes@.subrange(off as int, off + 64),
{
    let n: usize = bytes.len();
    let mut r: [u8; 64] = [0; 64];
    let mut i: usize = 0;
    while i < 64
        invariant
            off + 64 <= n == bytes@.len(),
            i <= 64,
            r@.len() == 64,
            forall|j: int| 0 <= j < i ==> r@[j] == bytes@[off + j],
        decreases 64 - i,
    {
        r[i] = *slice_index_get(bytes, off + i);
        i = i + 1;
    }
    proof {
        assert(r@ =~= bytes@.subrange(off as int, off + 64));
    }
    r
}

} // verus!

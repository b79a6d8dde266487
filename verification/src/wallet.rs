//! Key material: an Ed25519 keypair held in memory for an economic actor,
//! derived from a timestamp-based seed.

use vstd::prelude::*;
use crate::ChainError;
use crate::encode::{get_unix_time, sha256_hash};
use vstd::bytes::u128_to_le_bytes;

verus! {

/// Number of bytes in a public key.
pub const PKEY_SIZE: usize = 32;

/// A 32-byte Ed25519 public key.
pub type PKey = [u8; 32];

/// Number of bytes in a signature.
pub const SIGN_SIZE: usize = 64;

/// A 64-byte Ed25519 signature.
pub type Sign = [u8; 64];

/// A 64-byte Ed25519 secret key (seed and public half concatenated).
pub type SKey = [u8; 64];

/// The signature that signing `message` with the secret key `sk` yields.
/// Ed25519 signing is deterministic: the result is a function of the
/// message and the key alone.
pub uninterp spec fn ed25519_sign(message: Seq<u8>, sk: Seq<u8>) -> Seq<u8>;

/// Whether the signature `signature` verifies for `message` under the
/// public key `pk`.  Ed25519 verification is deterministic.
pub uninterp spec fn ed25519_verifies(message: Seq<u8>, pk: Seq<u8>, signature: Seq<u8>) -> bool;

/// A secret and a public key that belong together: a signature made with
/// the secret key verifies under the public key, for every message.
pub open spec fn key_pair_matches(sk: Seq<u8>, pk: Seq<u8>) -> bool {
    forall|message: Seq<u8>|
        #[trigger] ed25519_verifies(message, pk, ed25519_sign(message, sk))
}

/// Relies on crypto::ed25519::keypair: derives a (secret, public) keypair
/// from the 32-byte seed alone, and a signature made with the secret key
/// verifies under the public key (the Ed25519 correctness property).
#[verifier::external_body]
fn ed25519_keypair(seed: &crate::encode::Hash) -> (r: (SKey, PKey))
    ensures
        key_pair_matches(r.0@, r.1@),
{
    crypto::ed25519::keypair(seed)
}

/// Relies on crypto::ed25519::signature: signs a message with a 64-byte
/// secret key; the result is a function of the message and the key alone.
#[verifier::external_body]
pub(crate) fn ed25519_signature(message: &[u8], sk: &SKey) -> (r: Sign)
    ensures
        r@ == ed25519_sign(message@, sk@),
{
    crypto::ed25519::signature(message, sk)
}

/// Relies on crypto::ed25519::verify: checks a 64-byte signature for a
/// message under a 32-byte public key; the result is a function of the
/// three arguments alone.
#[verifier::external_body]
pub(crate) fn ed25519_verify(message: &[u8], pk: &PKey, signature: &Sign) -> (r: bool)
    ensures
        r == ed25519_verifies(message@, pk@, signature@),
{
    crypto::ed25519::verify(message, pk, signature)
}

/// A wallet: one actor's keypair, generated once and held in memory.
pub struct Wallet {
    /// The public key, shared as the wallet's address.
    pub pk: PKey,
    /// The secret key, used to sign transfers.
    pub sk: SKey,
}

impl Wallet {
    /// Whether the two keys belong together, so that transfers signed by
    /// this wallet verify under its public key.
    pub open spec fn wf(self) -> bool {
        key_pair_matches(self.sk@, self.pk@)
    }

    /// Generates a fresh keypair from a timestamp-based seed.  Fails only
    /// when the wall clock refuses a reading.
    pub fn new() -> (r: Result<Wallet, ChainError>)
        ensures
            r matches Ok(w) ==> w.wf(),
            r matches Err(e) ==> e == ChainError::Clock,
    {
        let unix_time: u128 = match get_unix_time() {
            Ok(t) => t,
            Err(_) => { return Err(ChainError::Clock); },
        };
        let time_bytes: Vec<u8> = u128_to_le_bytes(unix_time);
        let seed: crate::encode::Hash = sha256_hash(time_bytes.as_slice());
        let (sk, pk) = ed25519_keypair(&seed);
        Ok(Wallet { pk, sk })
    }

    /// The wallet's public key.
    pub fn get_pk(&self) -> (r: &PKey)
        ensures
            r == &self.pk,
    {
        &self.pk
    }

    /// The wallet's secret key.
    pub fn get_sk(&self) -> (r: &SKey)
        ensures
            r == &self.sk,
    {
        &self.sk
    }
}

} // verus!

use vstd::prelude::*;

pub mod encode;
pub mod wallet;
pub mod transaction;
pub mod block;
pub mod db;
pub mod blockchain;

verus! {

/// Failures surfaced by the ledger: the wall clock refusing a reading,
/// mining against a store with no genesis block, and a transfer that
/// would drive a running balance negative.
#[derive(Clone, Copy, Debug, PartialEq, Eq, Structural)]
pub enum ChainError {
    /// The wall-clock source could not produce a timestamp.
    Clock,
    /// The store holds no block although a genesis block is expected.
    EmptyChain,
    /// The sealing search ran through the whole nonce space without a
    /// digest satisfying the difficulty.
    Sealing,
    /// Subtracting `value` from the running balance `balance` would go negative.
    InsufficientFunds { balance: u32, value: u32 },
}

} // verus!

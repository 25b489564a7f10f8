//! Plain data carried through the daemon core: networks, keychains, coins,
//! chain-update records, and the error taxonomy of the handlers.

use vstd::prelude::*;

verus! {

/// The chain a wallet is configured for.
#[derive(Clone, Copy, Debug, PartialEq, Eq, Structural)]
pub enum Network {
    Bitcoin,
    Testnet,
    Testnet4,
    Signet,
    Regtest,
}

/// The two derivation branches of a wallet: receiving and change.
#[derive(Clone, Copy, Debug, PartialEq, Eq, Structural)]
pub enum Keychain {
    External,
    Internal,
}

/// An unspent transaction output tracked by the wallet.
#[derive(Clone, Copy, Debug, PartialEq, Eq, Structural)]
pub struct Coin {
    /// Identifier of the output on chain; unique among the wallet's coins.
    pub outpoint: u64,
    /// Value in satoshis.
    pub value_sat: u64,
    /// Derivation branch that owns the output.
    pub keychain: Keychain,
    /// Index on that branch.
    pub derivation_index: u32,
    /// Height at which the output confirmed, if it has.
    pub confirmation_height: Option<u32>,
}

/// One entry of a chain update: the new state of one outpoint.
#[derive(Clone, Copy, Debug, PartialEq, Eq, Structural)]
pub struct CoinRecord {
    pub outpoint: u64,
    pub value_sat: u64,
    pub keychain: Keychain,
    pub derivation_index: u32,
    pub confirmation_height: Option<u32>,
    /// True when the update reports the outpoint as consumed on chain.
    pub spent: bool,
}

/// A batch of new chain information, applied in order by the sync worker.
#[derive(Debug)]
pub struct ChainUpdate {
    pub records: Vec<CoinRecord>,
}

impl ChainUpdate {
    /// A well-formed update states each outpoint's new state once, and the
    /// derivation indices it reveals leave room to advance past them.
    pub open spec fn wf(self) -> bool {
        &&& forall|i: int, j: int|
            0 <= i < j < self.records@.len() ==> (#[trigger] self.records@[i]).outpoint != (
            #[trigger] self.records@[j]).outpoint
        &&& forall|i: int|
            0 <= i < self.records@.len() ==> (#[trigger] self.records@[i]).derivation_index
                < u32::MAX
    }
}

/// Coarse category of a failed operation, mirroring the daemon's taxonomy:
/// bad caller input, a file or store fault, a malformed or unfinalizable
/// artifact, and conditions after which serving must not continue.
#[derive(Clone, Copy, Debug, PartialEq, Eq, Structural)]
pub enum ErrorKind {
    InvalidInput,
    Resource,
    Protocol,
    Fatal,
}

/// A structured error response: a category and a human-readable message.
#[derive(Debug)]
pub struct ErrorResponse {
    pub kind: ErrorKind,
    pub message: String,
}

} // verus!

//! The errors that the blockchain's rules report.

use vstd::prelude::*;

verus! {

/// Why a block, a transaction or a key was refused.
#[derive(Clone, Copy, Debug, PartialEq, Eq, Structural)]
pub enum ArcNetError {
    InvalidTransaction,
    InvalidBlock,
    InvalidBlockHeader,
    InvalidTransactionInput,
    InvalidTransactionOutput,
    InvalidMerkleError,
    InvalidHash,
    InvalidPrivateKey,
    InvalidPublicKey,
    InvalidSignature,
}

impl ArcNetError {
    /// The human-readable message of the error.
    pub fn message(&self) -> (r: &'static str)
        ensures
            r@ == match *self {
                ArcNetError::InvalidTransaction => "Invalid transaction"@,
                ArcNetError::InvalidBlock => "Invalid block"@,
                ArcNetError::InvalidBlockHeader => "Invalid block header"@,
                ArcNetError::InvalidTransactionInput => "Invalid transaction input"@,
                ArcNetError::InvalidTransactionOutput => "Invalid transaction output"@,
                ArcNetError::InvalidMerkleError => "Invalid merkle root"@,
                ArcNetError::InvalidHash => "Invalid hash"@,
                ArcNetError::InvalidPrivateKey => "Invalid private key"@,
                ArcNetError::InvalidPublicKey => "Invalid public key"@,
                ArcNetError::InvalidSignature => "Invalid signature"@,
            },
    {
        match self {
            ArcNetError::InvalidTransaction => "Invalid transaction",
            ArcNetError::InvalidBlock => "Invalid block",
            ArcNetError::InvalidBlockHeader => "Invalid block header",
            ArcNetError::InvalidTransactionInput => "Invalid transaction input",
            ArcNetError::InvalidTransactionOutput => "Invalid transaction output",
            ArcNetError::InvalidMerkleError => "Invalid merkle root",
            ArcNetError::InvalidHash => "Invalid hash",
            ArcNetError::InvalidPrivateKey => "Invalid private key",
            ArcNetError::InvalidPublicKey => "Invalid public key",
            ArcNetError::InvalidSignature => "Invalid signature",
        }
    }
}

} // verus!

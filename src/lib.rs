//! Building and signing cheque transactions for a cell-based chain.
//!
//! Scripts, cells and transactions are plain values ([`types`]); the chain's
//! encodings and hash come from `ckb_types` and `ckb_hash` ([`encoding`],
//! [`hash`]). Builders ([`cheque`], [`transfer`]) lay out unsigned transactions
//! whose code deps are resolved without repeats ([`tx_builder`], [`deps`]).
//! Signers ([`signer`], [`multisig`]) sign the digest of [`message`] with a
//! wallet and put the signature into the lock field of the group's first witness.
//! The collaborators that callers supply are in [`traits`].

pub mod types;
pub mod encoding;
pub mod hash;
pub mod amount;
pub mod traits;
pub mod deps;
pub mod tx_builder;
pub mod cheque;
pub mod transfer;
pub mod message;
pub mod signer;
pub mod multisig;

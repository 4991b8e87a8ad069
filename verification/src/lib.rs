//! Administration protocol core for a blockchain node.
//!
//! The crate verifies the logic of an administrative client that manages a
//! node's offchain state over JSON-RPC: per-chain RPC endpoint configuration,
//! keystore inserts with read-back verification, discovery of the authority
//! account among a remote registry, offchain nonce inspection and reset, and
//! dynamic log-filter directives.  The remote node is modelled as explicit
//! in-memory state, so every decision the client makes — key derivation,
//! value encoding and decoding, the scan order, the write-then-verify
//! discipline — is stated in contracts and proved.  The transport itself
//! lives outside this crate and hands plain bytes in and out.

pub mod authority;
pub mod chain;
pub mod codec;
pub mod commands;
pub mod error;
pub mod hexstr;
pub mod keystore;
pub mod logfilter;
pub mod nonce;
pub mod store;

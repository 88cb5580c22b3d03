//! A hash-linked chain of transaction records.
//!
//! A chain starts from a root digest, given as a hexadecimal string, and grows
//! by one node for each transaction. A new node holds the SHA-256 digest of
//! its transaction, and the head node holds the running state of the chain:
//! the digest of the transaction's digest followed by the state before it.
//!
//! - [`codec`]: hexadecimal text, its meaning, and the calls into `hex`.
//! - [`hash`]: the SHA-256 digest and the call into `sha2`.
//! - [`chain`]: the linked nodes, [`chain::build_chain`], and what holds of it.

pub mod chain;
pub mod codec;
pub mod hash;

pub use chain::{build_chain, combine, Node};
pub use codec::{decode, DecodeError};

//! Synchronising headers and name proofs with peers.
pub mod chain;
pub mod error;
pub mod peer;
pub mod proofs;

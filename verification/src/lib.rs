//! Quotes from an automated market maker on two chains, obtained by
//! simulating one read-only contract call per chain: the binary codec of the
//! call, the policy that picks the price boundary, the session-scoped state
//! cache, the classification of an execution result and the sequencing of
//! the two legs.

pub mod bytes;
pub mod types;
pub mod policy;
pub mod codec;
pub mod cache;
pub mod account;
pub mod simulate;
pub mod quote;
pub mod engine;

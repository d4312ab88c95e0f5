//! Staking state of a validator/delegator economy, driven by an append-only
//! ledger of staking facts and by signed event batches arriving from an
//! external chain.
//!
//! The crate covers the binary message decoder that turns a proof blob into
//! typed domain events, the staking ledger that records every stake-affecting
//! action as an immutable indexed fact, the validator-set engine that folds
//! those facts into a queryable snapshot, the era lifecycle that advances a
//! sealed snapshot through its processing phases, and the time-locked
//! withdrawal and reward bookkeeping built on top of them.

pub mod anchor;
pub mod era;
pub mod message_decoder;
pub mod staking;
pub mod validator_set;
pub mod settings;
pub mod types;

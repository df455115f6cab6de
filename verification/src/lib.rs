//! A pari-mutuel prediction market with a verified ledger.
//!
//! Participants wager on one of several mutually exclusive outcomes
//! ("livestreams"). Once the authority closes betting and declares the
//! winning outcome, winners split the whole pool in proportion to their
//! stake. A companion factory keeps index tables of which markets cover
//! which livestreams.
//!
//! The host concerns of a deployed instance (persistent storage, caller
//! authentication, token transfers, event delivery, clocks and contract
//! deployment) live outside this crate; every operation here takes the
//! authenticated caller and the current timestamp as plain arguments and
//! returns the decision, so the whole lifecycle and ledger logic is
//! verified.

pub mod arith;
pub mod errors;
pub mod factory;
pub mod laws;
pub mod market;
pub mod seq_util;
pub mod sums;

//! Planning, decoding and amount formatting for a client of an on-chain
//! liquidity-management contract.
//!
//! The crate decides how an operation is dispatched (single call or batch,
//! and with which gas limit), interprets the logs of a confirmed transaction,
//! and converts token amounts between smallest-unit integers and decimal text.
//! Submitting transactions and reading chain state is left to the caller.

pub mod address;
pub mod amount;
pub mod error;
pub mod numeral;
pub mod outcome;
pub mod planner;
pub mod positions;
pub mod word;

//! Prize settlement for creator-run prediction events.
//!
//! The verified core decides who may settle an event, reads the reward table
//! handed in by the caller, and computes every token transfer of a settlement.

pub mod event;
pub mod finalize;
pub mod host;
pub mod payout;
pub mod views;

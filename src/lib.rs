//! A ledger of client accounts driven by a stream of transaction records:
//! deposits, withdrawals, disputes, resolutions and chargebacks.
//!
//! Policies the rules follow:
//! - a rejected record changes nothing, and the next record is applied;
//! - negative amounts are rejected, and no rule lets available funds go
//!   below zero: a dispute needs the deposit's amount to be available;
//! - a dispute, resolve or chargeback acts on the account of the client who
//!   made the deposit, frozen or not;
//! - a deposit under an id already recorded is rejected;
//! - a withdrawal by a client without an account opens none.

pub mod amount;
pub mod cli;
pub mod behaviors;
pub mod processor;
pub mod laws;

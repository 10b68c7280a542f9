//! A payments engine: applies deposits, withdrawals, disputes, resolves and
//! chargebacks to client accounts, and reports the final account states.
pub mod amount;
pub mod engine;
pub mod laws;
pub mod ledger;
pub mod model;

pub use engine::PaymentsEngine;

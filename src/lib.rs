//! A ledger of client accounts driven by a stream of transaction records:
//! deposits, withdrawals, and the dispute / resolve / chargeback lifecycle.

pub mod amount;
pub mod transactions;
pub mod accounts;
pub mod state;

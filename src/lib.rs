//! Household ledger: a cumulative monthly saving balance, manual balance
//! corrections, recurring income and outcome templates, and a projection of
//! the future balance.

pub mod amount;
pub mod error;
pub mod util;
pub mod detail;
pub mod plan;
pub mod api;

//! Recorded incomes and outcomes, the cumulative monthly saving ledger, and
//! manual balance corrections.

pub mod adjustment;
pub mod income;
pub mod outcome;
pub mod saving;
pub mod repository;

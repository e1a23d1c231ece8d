//! Operations on text input: recording, editing and deleting incomes and
//! outcomes with the ledger kept up to date, and balance corrections.

pub mod detail;
pub mod plan;

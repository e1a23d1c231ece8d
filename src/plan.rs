//! Recurring templates and their materialized monthly instances, and the
//! projection of the future balance.

pub mod income;
pub mod outcome;
pub mod job;
pub mod monthly_outcome;
pub mod temporary_income;
pub mod temporary_outcome;
pub mod future_inspector;
pub mod repository;

use vstd::prelude::*;

verus! {

/// What can go wrong in the ledger, the reconciliation, the materialization
/// of templates and the projection.
#[derive(Clone, Copy, Debug, PartialEq, Eq, Structural)]
pub enum FinanceError {
    /// A year, month and day that do not name a day of the calendar.
    InvalidDate,
    /// Text that does not hold a decimal amount this library can represent.
    InvalidAmount,
    /// A sum, difference or product of amounts that does not fit.
    Overflow,
    /// A record that was looked up by id and is not stored.
    NotFound,
    /// A failure reported by a store.
    Storage,
}

} // verus!

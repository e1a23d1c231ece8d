use vstd::prelude::*;

use crate::amount::Amount;
use crate::error::FinanceError;
use crate::plan::income::{Income, ToIncome};
use crate::util::DateTime;

verus! {

/// A one-off planned income.
#[derive(Clone, Debug)]
pub struct TemporaryIncome {
    pub id: Option<u64>,
    pub name: String,
    pub amount: Amount,
    pub date: DateTime,
}

impl TemporaryIncome {
    /// A one-off income not yet stored.
    pub fn new(name: String, amount: Amount, date: DateTime) -> (r: TemporaryIncome)
        ensures
            r.name == name && r.amount == amount && r.date == date,
    {
        TemporaryIncome { id: None, name, amount, date }
    }
}

/// A source of the one-off incomes of a period.
pub trait TemporaryIncomeRepo {
    fn list_temporary_incomes(&self, start_date: &DateTime, end_date: &DateTime) -> Result<
        Vec<TemporaryIncome>,
        FinanceError,
    >;
}

impl ToIncome for TemporaryIncome {
    /// The income as a dated income of the projection.
    fn to_income(&self) -> (r: Result<Income, FinanceError>)
        ensures
            r matches Ok(i) && i.name == self.name && i.amount == self.amount && i.date == self.date,
    {
        Ok(Income { name: self.name.clone(), amount: self.amount, date: self.date })
    }
}

} // verus!

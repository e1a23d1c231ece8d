use vstd::prelude::*;

use crate::amount::Amount;
use crate::error::FinanceError;
use crate::util::DateTime;

verus! {

/// A dated outcome of the projection.
#[derive(Clone, Debug)]
pub struct Outcome {
    pub name: String,
    pub date: DateTime,
    pub amount: Amount,
}

impl Outcome {
    /// A copy of the outcome.
    pub fn duplicate(&self) -> (r: Outcome)
        ensures
            r == *self,
    {
        Outcome { name: self.name.clone(), date: self.date, amount: self.amount }
    }
}

/// A record that contributes an outcome to the projection.
pub trait ToOutcome {
    fn to_outcome(&self) -> Result<Outcome, FinanceError>;
}

/// A source of the outcomes of a period.
pub trait OutcomeRepo {
    /// Outcomes dated within the period, both bounds included.
    fn list_outcomes(&self, start_date: &DateTime, end_date: &DateTime) -> (r: Result<
        Vec<Outcome>,
        FinanceError,
    >)
        ensures
            r matches Ok(v) ==> forall|i: int|
                0 <= i < v.len() ==> start_date.le((#[trigger] v@[i]).date) && v@[i].date.le(*end_date),
    ;
}

} // verus!

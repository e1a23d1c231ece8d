use vstd::prelude::*;

use crate::amount::Amount;
use crate::error::FinanceError;
use crate::util::DateTime;

verus! {

/// A dated income of the projection.
#[derive(Clone, Debug)]
pub struct Income {
    pub name: String,
    pub amount: Amount,
    pub date: DateTime,
}

impl Income {
    /// A copy of the income.
    pub fn duplicate(&self) -> (r: Income)
        ensures
            r == *self,
    {
        Income { name: self.name.clone(), amount: self.amount, date: self.date }
    }
}

/// A record that contributes an income to the projection.
pub trait ToIncome {
    fn to_income(&self) -> Result<Income, FinanceError>;
}

/// A source of the incomes of a period.
pub trait IncomeRepo {
    /// The incomes that the source lists for the period from `start` to `end`.
    spec fn incomes_listed(&self, start: DateTime, end: DateTime) -> Seq<Income>;

    /// Whether listing incomes succeeds.
    spec fn lists_without_failure(&self) -> bool;

    /// Incomes dated within the period, both bounds included.
    fn list_incomes(&self, start_date: &DateTime, end_date: &DateTime) -> (r: Result<
        Vec<Income>,
        FinanceError,
    >)
        ensures
            self.lists_without_failure() ==> r is Ok,
            r matches Ok(v) ==> v@ == self.incomes_listed(*start_date, *end_date),
            r matches Ok(v) ==> forall|i: int|
                0 <= i < v.len() ==> start_date.le((#[trigger] v@[i]).date) && v@[i].date.le(*end_date),
    ;
}

/// The incomes that the first `n` sources list for the period, source after source.
pub open spec fn listed_by<T: IncomeRepo>(repos: Seq<&T>, n: int, start: DateTime, end: DateTime) -> Seq<Income>
    decreases n,
{
    if n <= 0 {
        Seq::empty()
    } else {
        listed_by(repos, n - 1, start, end) + repos[n - 1].incomes_listed(start, end)
    }
}

/// The incomes that each source lists for the period, source after source.
pub fn get_incomes<T: IncomeRepo>(repos: Vec<&T>, start_date: &DateTime, end_date: &DateTime) -> (r:
    Result<Vec<Income>, FinanceError>)
    ensures
        r matches Ok(v) ==> v@ == listed_by(repos@, repos.len() as int, *start_date, *end_date),
        (forall|i: int| 0 <= i < repos.len() ==> (#[trigger] repos@[i]).lists_without_failure()) ==> r is Ok,
        r matches Ok(v) ==> forall|i: int|
            0 <= i < v.len() ==> start_date.le((#[trigger] v@[i]).date) && v@[i].date.le(*end_date),
{
    let mut incomes: Vec<Income> = Vec::new();
    let mut i: usize = 0;
    while i < repos.len()
        invariant
            i <= repos.len(),
            incomes@ == listed_by(repos@, i as int, *start_date, *end_date),
            forall|j: int|
                0 <= j < incomes.len() ==> start_date.le((#[trigger] incomes@[j]).date)
                    && incomes@[j].date.le(*end_date),
        decreases repos.len() - i,
    {
        let mut listed = match repos[i].list_incomes(start_date, end_date) {
            Ok(v) => v,
            Err(e) => {
                assert(!repos@[i as int].lists_without_failure());
                return Err(e);
            },
        };
        let ghost before = incomes@;
        let ghost added = listed@;
        incomes.append(&mut listed);
        assert forall|j: int| 0 <= j < incomes.len() implies start_date.le((#[trigger] incomes@[j]).date)
            && incomes@[j].date.le(*end_date) by {
            if j >= before.len() {
                assert(incomes@[j] == added[j - before.len()]);
            }
        }
        assert(incomes@ =~= listed_by(repos@, i as int + 1, *start_date, *end_date));
        i = i + 1;
    }
    Ok(incomes)
}

} // verus!

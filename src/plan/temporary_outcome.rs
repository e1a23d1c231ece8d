use vstd::prelude::*;

use crate::amount::Amount;
use crate::error::FinanceError;
use crate::plan::outcome::{Outcome, OutcomeRepo, ToOutcome};
use crate::util::{closing_of, get_opening_and_closing_date, opening_of, valid_ym, DateTime};

verus! {

/// A one-off planned outcome.
#[derive(Clone, Debug)]
pub struct TemporaryOutcome {
    pub id: Option<u64>,
    pub name: String,
    pub amount: Amount,
    pub date: DateTime,
}

/// A one-off outcome dated from `start` to `end`, both included.
pub open spec fn dated_within(x: TemporaryOutcome, start: DateTime, end: DateTime) -> bool {
    start.le(x.date) && x.date.le(end)
}

impl TemporaryOutcome {
    /// A copy of the outcome.
    pub fn duplicate(&self) -> (r: TemporaryOutcome)
        ensures
            r == *self,
    {
        TemporaryOutcome { id: self.id, name: self.name.clone(), amount: self.amount, date: self.date }
    }
}

impl ToOutcome for TemporaryOutcome {
    /// The outcome as a dated outcome of the projection.
    fn to_outcome(&self) -> (r: Result<Outcome, FinanceError>)
        ensures
            r matches Ok(o) && o.name == self.name && o.amount == self.amount && o.date == self.date,
    {
        Ok(Outcome { name: self.name.clone(), date: self.date, amount: self.amount })
    }
}

/// A store of one-off outcomes, keyed by id.
pub trait TemporaryOutcomeRepo: OutcomeRepo {
    /// The stored outcomes, by id.
    spec fn temporary_outcomes(&self) -> Map<u64, TemporaryOutcome>;

    /// Whether reads and updates succeed, and storing succeeds.
    spec fn never_fails(&self) -> bool;

    /// The outcomes dated within the period.
    fn list_temporary_outcomes(&self, start_date: &DateTime, end_date: &DateTime) -> (r: Result<
        Vec<TemporaryOutcome>,
        FinanceError,
    >)
        ensures
            self.never_fails() ==> r is Ok,
            r matches Ok(v) ==> (forall|i: int|
                0 <= i < v.len() ==> self.temporary_outcomes().contains_value(#[trigger] v@[i])
                    && dated_within(v@[i], *start_date, *end_date)),
            r matches Ok(v) ==> (forall|id: u64|
                self.temporary_outcomes().contains_key(id) && dated_within(
                    #[trigger] self.temporary_outcomes()[id],
                    *start_date,
                    *end_date,
                ) ==> v@.contains(self.temporary_outcomes()[id])),
    ;

    /// Stores a new outcome under a fresh id, which it returns.
    fn store_temporary_outcome(&mut self, temporary_outcome: TemporaryOutcome) -> (r: Result<
        u64,
        FinanceError,
    >)
        ensures
            old(self).never_fails() ==> r is Ok,
            r matches Ok(id) ==> !old(self).temporary_outcomes().contains_key(id) && final(self).temporary_outcomes()
                == old(self).temporary_outcomes().insert(
                id,
                TemporaryOutcome {
                    id: Some(id),
                    name: temporary_outcome.name,
                    amount: temporary_outcome.amount,
                    date: temporary_outcome.date,
                },
            ),
    ;

    /// Replaces the outcome stored under the outcome's own id; there must be one.
    fn update_temporary_outcome(&mut self, temporary_outcome: TemporaryOutcome) -> (r: Result<
        (),
        FinanceError,
    >)
        requires
            temporary_outcome.id is Some,
        ensures
            old(self).never_fails() && old(self).temporary_outcomes().contains_key(temporary_outcome.id->0)
                ==> r is Ok,
            final(self).never_fails() == old(self).never_fails(),
            r is Ok ==> final(self).temporary_outcomes() == old(self).temporary_outcomes().insert(
                temporary_outcome.id->0,
                temporary_outcome,
            ),
    ;

    fn get_temporary_outcome_by_id(&self, id: u64) -> (r: Result<Option<TemporaryOutcome>, FinanceError>)
        ensures
            self.never_fails() ==> r is Ok,
            match r {
                Ok(Some(x)) => self.temporary_outcomes().contains_key(id) && x == self.temporary_outcomes()[id],
                Ok(None) => !self.temporary_outcomes().contains_key(id),
                Err(_) => true,
            },
    ;
}

/// Whether a projection outcome is the one that a one-off outcome contributes.
pub open spec fn is_outcome_of(o: Outcome, x: TemporaryOutcome) -> bool {
    o.name == x.name && o.date == x.date && o.amount == x.amount
}

/// Whether a projection outcome is contributed by a stored one-off outcome
/// dated from `start` to `end`.
pub open spec fn from_stored(
    stored: Map<u64, TemporaryOutcome>,
    o: Outcome,
    start: DateTime,
    end: DateTime,
) -> bool {
    exists|x: TemporaryOutcome| #[trigger] is_outcome_of(o, x) && stored.contains_value(x) && dated_within(x, start, end)
}

/// The one-off outcomes dated within month `(year, month)`, as outcomes of
/// the projection.
pub fn get_temporary_outcomes<R: TemporaryOutcomeRepo>(year: i32, month: u32, repo: &R) -> (r: Result<
    Vec<Outcome>,
    FinanceError,
>)
    ensures
        !valid_ym((year, month)) ==> r == Err::<Vec<Outcome>, FinanceError>(FinanceError::InvalidDate),
        valid_ym((year, month)) && repo.never_fails() ==> r is Ok,
        r matches Ok(v) ==> forall|i: int|
            0 <= i < v.len() ==> from_stored(
                repo.temporary_outcomes(),
                #[trigger] v@[i],
                opening_of((year, month)),
                closing_of((year, month)),
            ),
        r matches Ok(v) ==> covers(v@, repo.temporary_outcomes(), opening_of((year, month)), closing_of((year, month))),
{
    let (start_date, end_date) = get_opening_and_closing_date(year, month)?;
    let listed = repo.list_temporary_outcomes(&start_date, &end_date)?;
    let mut outcomes: Vec<Outcome> = Vec::new();
    let mut i: usize = 0;
    while i < listed.len()
        invariant
            i <= listed.len(),
            outcomes.len() == i,
            start_date == opening_of((year, month)),
            end_date == closing_of((year, month)),
            forall|j: int|
                0 <= j < listed.len() ==> repo.temporary_outcomes().contains_value(#[trigger] listed@[j])
                    && dated_within(listed@[j], start_date, end_date),
            forall|id: u64|
                repo.temporary_outcomes().contains_key(id) && dated_within(
                    #[trigger] repo.temporary_outcomes()[id],
                    start_date,
                    end_date,
                ) ==> listed@.contains(repo.temporary_outcomes()[id]),
            forall|j: int| 0 <= j < i ==> is_outcome_of(#[trigger] outcomes@[j], listed@[j]),
            forall|j: int|
                0 <= j < i ==> from_stored(repo.temporary_outcomes(), #[trigger] outcomes@[j], start_date, end_date),
        decreases listed.len() - i,
    {
        let entry = listed[i].to_outcome()?;
        assert(is_outcome_of(entry, listed@[i as int]));
        outcomes.push(entry);
        i = i + 1;
    }
    proof {
        assert forall|id: u64|
            repo.temporary_outcomes().contains_key(id) && dated_within(
                #[trigger] repo.temporary_outcomes()[id],
                opening_of((year, month)),
                closing_of((year, month)),
            ) implies exists|i: int| 0 <= i < outcomes@.len() && is_outcome_of(#[trigger] outcomes@[i], repo.temporary_outcomes()[id]) by {
            let j = choose|j: int| 0 <= j < listed.len() && listed@[j] == repo.temporary_outcomes()[id];
            assert(is_outcome_of(outcomes@[j], listed@[j]));
        }
    }
    assert(covers(outcomes@, repo.temporary_outcomes(), opening_of((year, month)), closing_of((year, month))));
    Ok(outcomes)
}

/// Every stored one-off outcome dated from `start` to `end` contributes an
/// outcome of `v`.
pub open spec fn covers(v: Seq<Outcome>, stored: Map<u64, TemporaryOutcome>, start: DateTime, end: DateTime) -> bool {
    forall|id: u64|
        stored.contains_key(id) && dated_within(#[trigger] stored[id], start, end) ==> exists|i: int|
            0 <= i < v.len() && is_outcome_of(#[trigger] v[i], stored[id])
}

} // verus!

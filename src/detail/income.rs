use vstd::prelude::*;

use crate::amount::{amount_of_text, parse_amount, Amount};
use crate::error::FinanceError;
use crate::util::{valid_date, DateTime};

verus! {

/// A recorded income: its amount is not negative by convention, the sign
/// being given by the kind of record.
#[derive(Clone, Debug)]
pub struct Income {
    /// Unset until the record is stored.
    pub id: Option<u64>,
    pub name: String,
    pub amount: Amount,
    pub date: DateTime,
}

impl Income {
    pub fn new(name: String, amount: Amount, date: DateTime) -> (r: Income)
        ensures
            r == (Income { id: None, name, amount, date }),
    {
        Income { id: None, name, amount, date }
    }

    /// A new record from text input: the amount as decimal text and the date
    /// as year, month and day (at midnight).
    pub fn try_new(name: String, amount: String, year: i32, month: u32, day: u32) -> (r: Result<
        Income,
        FinanceError,
    >)
        ensures
            r == parsed_record(None, name, amount@, year, month, day),
    {
        Self::from_text(None, name, amount, year, month, day)
    }

    /// A replacement for the stored record `id`, from text input as in `try_new`.
    pub fn try_update(id: u64, name: String, amount: String, year: i32, month: u32, day: u32) -> (r:
        Result<Income, FinanceError>)
        ensures
            r == parsed_record(Some(id), name, amount@, year, month, day),
    {
        Self::from_text(Some(id), name, amount, year, month, day)
    }

    fn from_text(
        id: Option<u64>,
        name: String,
        amount: String,
        year: i32,
        month: u32,
        day: u32,
    ) -> (r: Result<Income, FinanceError>)
        ensures
            r == parsed_record(id, name, amount@, year, month, day),
    {
        let amount = match parse_amount(amount.as_str()) {
            Some(a) => a,
            None => return Err(FinanceError::InvalidAmount),
        };
        let date = DateTime::at_midnight(year, month, day)?;
        Ok(Income { id, name, amount, date })
    }

    /// A copy of the record.
    pub fn duplicate(&self) -> (r: Income)
        ensures
            r == *self,
    {
        Income { id: self.id, name: self.name.clone(), amount: self.amount, date: self.date }
    }
}

/// The record that text input describes, or why there is none.
pub open spec fn parsed_record(
    id: Option<u64>,
    name: String,
    amount: Seq<char>,
    year: i32,
    month: u32,
    day: u32,
) -> Result<Income, FinanceError> {
    match amount_of_text(amount) {
        None => Err(FinanceError::InvalidAmount),
        Some(a) => if valid_date(year as int, month as int, day as int) {
            Ok(Income { id, name, amount: a, date: DateTime { year, month, day, second: 0 } })
        } else {
            Err(FinanceError::InvalidDate)
        },
    }
}

/// The stored record under `id`, as `store` keeps it.
pub open spec fn with_id(record: Income, id: u64) -> Income {
    Income { id: Some(id), name: record.name, amount: record.amount, date: record.date }
}

/// A record dated from `start` to `end`, both included.
pub open spec fn dated_within(record: Income, start: DateTime, end: DateTime) -> bool {
    start.le(record.date) && record.date.le(end)
}

/// A store of incomes, keyed by id.
pub trait IncomeRepo {
    /// The stored records, by id.
    spec fn records(&self) -> Map<u64, Income>;

    /// Whether reads, updates and deletions succeed, and storing succeeds.
    spec fn never_fails(&self) -> bool;

    /// The records dated from `start_date` to `end_date`, both included.
    fn list(&self, start_date: &DateTime, end_date: &DateTime) -> (r: Result<Vec<Income>, FinanceError>)
        ensures
            self.never_fails() ==> r is Ok,
            r matches Ok(v) ==> (forall|i: int|
                0 <= i < v.len() ==> self.records().contains_value(#[trigger] v@[i])
                    && dated_within(v@[i], *start_date, *end_date)),
            r matches Ok(v) ==> (forall|id: u64|
                self.records().contains_key(id) && dated_within(
                    #[trigger] self.records()[id],
                    *start_date,
                    *end_date,
                ) ==> v@.contains(self.records()[id])),
    ;

    fn get_by_id(&self, id: u64) -> (r: Result<Option<Income>, FinanceError>)
        ensures
            self.never_fails() ==> r is Ok,
            match r {
                Ok(Some(x)) => self.records().contains_key(id) && x == self.records()[id],
                Ok(None) => !self.records().contains_key(id),
                Err(_) => true,
            },
    ;

    /// Stores a new record under a fresh id, which it returns.
    fn store(&mut self, record: Income) -> (r: Result<u64, FinanceError>)
        ensures
            old(self).never_fails() ==> r is Ok,
            r matches Ok(id) ==> !old(self).records().contains_key(id) && final(self).records()
                == old(self).records().insert(id, with_id(record, id)),
    ;

    /// Replaces the record stored under the record's own id; there must be one.
    fn update(&mut self, record: Income) -> (r: Result<(), FinanceError>)
        requires
            record.id is Some,
        ensures
            old(self).never_fails() && old(self).records().contains_key(record.id->0) ==> r is Ok,
            final(self).never_fails() == old(self).never_fails(),
            r is Ok ==> final(self).records() == old(self).records().insert(
                record.id->0,
                record,
            ),
    ;

    fn delete_by_id(&mut self, id: u64) -> (r: Result<(), FinanceError>)
        ensures
            old(self).never_fails() ==> r is Ok,
            final(self).never_fails() == old(self).never_fails(),
            r is Ok ==> final(self).records() == old(self).records().remove(id),
    ;
}

} // verus!

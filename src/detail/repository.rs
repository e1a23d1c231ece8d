use std::collections::HashMap;
use vstd::prelude::*;

use crate::detail::adjustment::{Adjustment, AdjustmentKey, AdjustmentRepo};
use crate::detail::income::{self, Income, IncomeRepo};
use crate::detail::outcome::{self, Outcome, OutcomeRepo};
use crate::detail::saving::{Saving, SavingKey, SavingRepo};
use crate::error::FinanceError;
use crate::util::{month_index, valid_ym, DateTime, YearMonth};

verus! {

broadcast use vstd::std_specs::hash::group_hash_axioms;

/// The key under which an in-memory store keeps the entry of a month.
pub open spec fn month_slot(ym: YearMonth) -> i64 {
    month_index(ym) as i64
}

fn month_slot_of(ym: &YearMonth) -> (r: i64)
    requires
        valid_ym(*ym),
    ensures
        r == month_slot(*ym),
        r == month_index(*ym),
{
    (ym.0 as i64) * 12 + (ym.1 as i64) - 1
}

proof fn lemma_month_slot_injective(a: YearMonth, b: YearMonth)
    requires
        valid_ym(a),
        valid_ym(b),
        month_slot(a) == month_slot(b),
    ensures
        a == b,
{
    assert(a.0 == b.0 && a.1 == b.1) by (nonlinear_arith)
        requires
            a.0 * 12 + a.1 - 1 == b.0 * 12 + b.1 - 1,
            1 <= a.1 <= 12,
            1 <= b.1 <= 12,
    ;
}

/// An in-memory ledger store.
pub struct DummySavingRepo {
    entries: HashMap<i64, Saving>,
}

impl DummySavingRepo {
    pub fn new() -> (r: Self)
        ensures
            r.balances() == Map::<SavingKey, int>::empty(),
            r.never_fails(),
    {
        let r = DummySavingRepo { entries: HashMap::new() };
        assert(r.balances() =~= Map::<SavingKey, int>::empty());
        r
    }

    fn put(&mut self, key: &SavingKey, saving: Saving)
        requires
            valid_ym(*key),
        ensures
            final(self).balances() == old(self).balances().insert(*key, saving.amount.units as int),
    {
        let slot = month_slot_of(key);
        self.entries.insert(slot, saving);
        proof {
            assert forall|k: SavingKey| valid_ym(k) && month_slot(k) == slot implies k == *key by {
                lemma_month_slot_injective(k, *key);
            }
            assert(self.balances() =~= old(self).balances().insert(*key, saving.amount.units as int));
        }
    }
}

impl SavingRepo for DummySavingRepo {
    closed spec fn balances(&self) -> Map<SavingKey, int> {
        Map::new(
            |k: SavingKey| valid_ym(k) && self.entries@.contains_key(month_slot(k)),
            |k: SavingKey| self.entries@[month_slot(k)].amount.units as int,
        )
    }

    open spec fn never_fails(&self) -> bool {
        true
    }

    fn get(&self, key: &SavingKey) -> (r: Result<Option<Saving>, FinanceError>) {
        let slot = month_slot_of(key);
        match self.entries.get(&slot) {
            Some(s) => Ok(Some(Saving::new(*key, s.amount))),
            None => Ok(None),
        }
    }

    fn store(&mut self, key: &SavingKey, saving: Saving) -> (r: Result<(), FinanceError>) {
        self.put(key, saving);
        Ok(())
    }

    fn update(&mut self, key: &SavingKey, saving: Saving) -> (r: Result<(), FinanceError>) {
        self.put(key, saving);
        Ok(())
    }
}

/// An in-memory store of incomes; ids are issued from 1 upward and never reused.
pub struct DummyIncomeRepo {
    /// The record with id `i + 1` at index `i`, `None` once deleted.
    slots: Vec<Option<Income>>,
}

impl DummyIncomeRepo {
    pub fn new() -> (r: Self)
        ensures
            r.records() == Map::<u64, Income>::empty(),
            r.never_fails(),
    {
        let r = DummyIncomeRepo { slots: Vec::new() };
        assert(r.records() =~= Map::<u64, Income>::empty());
        r
    }

    fn slot_of(&self, id: u64) -> (r: Option<usize>)
        ensures
            match r {
                Some(i) => 1 <= id <= self.slots.len() && i == id - 1,
                None => !(1 <= id <= self.slots.len()),
            },
    {
        if id == 0 {
            return None;
        }
        let i = id - 1;
        if i as u128 >= self.slots.len() as u128 {
            None
        } else {
            Some(i as usize)
        }
    }
}

impl IncomeRepo for DummyIncomeRepo {
    closed spec fn records(&self) -> Map<u64, Income> {
        Map::new(
            |id: u64| 1 <= id <= self.slots.len() && self.slots@[id - 1] is Some,
            |id: u64| self.slots@[id - 1]->0,
        )
    }

    closed spec fn never_fails(&self) -> bool {
        self.slots.len() < u64::MAX
    }

    fn list(&self, start_date: &DateTime, end_date: &DateTime) -> (r: Result<Vec<Income>, FinanceError>) {
        let mut found: Vec<Income> = Vec::new();
        let mut i: usize = 0;
        while i < self.slots.len()
            invariant
                i <= self.slots.len(),
                forall|j: int|
                    0 <= j < found.len() ==> self.records().contains_value(#[trigger] found@[j])
                        && income::dated_within(found@[j], *start_date, *end_date),
                forall|k: u64|
                    k <= i && self.records().contains_key(k) && income::dated_within(
                        #[trigger] self.records()[k],
                        *start_date,
                        *end_date,
                    ) ==> found@.contains(self.records()[k]),
            decreases self.slots.len() - i,
        {
            match &self.slots[i] {
                Some(x) => {
                    if start_date.is_not_after(&x.date) && x.date.is_not_after(end_date) {
                        let ghost before = found@;
                        let ghost id = (i + 1) as u64;
                        assert(self.records().contains_key(id) && self.records()[id] == *x);
                        found.push(x.duplicate());
                        proof {
                            assert(found@[found.len() - 1] == self.records()[id]);
                            assert forall|k: u64|
                                k <= i + 1 && self.records().contains_key(k) && income::dated_within(
                                    #[trigger] self.records()[k],
                                    *start_date,
                                    *end_date,
                                ) implies found@.contains(self.records()[k]) by {
                                if k <= i {
                                    let j = choose|j: int|
                                        0 <= j < before.len() && before[j] == self.records()[k];
                                    assert(found@[j] == self.records()[k]);
                                } else {
                                    assert(found@[found.len() - 1] == self.records()[k]);
                                }
                            }
                        }
                    }
                },
                None => {},
            }
            i = i + 1;
        }
        Ok(found)
    }

    fn get_by_id(&self, id: u64) -> (r: Result<Option<Income>, FinanceError>) {
        match self.slot_of(id) {
            Some(i) => match &self.slots[i] {
                Some(x) => Ok(Some(x.duplicate())),
                None => Ok(None),
            },
            None => Ok(None),
        }
    }

    fn store(&mut self, record: Income) -> (r: Result<u64, FinanceError>) {
        if self.slots.len() as u128 >= u64::MAX as u128 {
            return Err(FinanceError::Storage);
        }
        let id = (self.slots.len() as u64) + 1;
        let stored = Income { id: Some(id), name: record.name, amount: record.amount, date: record.date };
        self.slots.push(Some(stored));
        proof {
            assert(self.records() =~= old(self).records().insert(id, income::with_id(record, id)));
        }
        Ok(id)
    }

    fn update(&mut self, record: Income) -> (r: Result<(), FinanceError>) {
        let id = match record.id {
            Some(id) => id,
            None => return Err(FinanceError::NotFound),
        };
        let i = match self.slot_of(id) {
            Some(i) => i,
            None => return Err(FinanceError::NotFound),
        };
        if self.slots[i].is_none() {
            return Err(FinanceError::NotFound);
        }
        self.slots.set(i, Some(record));
        proof {
            assert(self.records() =~= old(self).records().insert(id, record));
        }
        Ok(())
    }

    fn delete_by_id(&mut self, id: u64) -> (r: Result<(), FinanceError>) {
        match self.slot_of(id) {
            Some(i) => {
                self.slots.set(i, None);
            },
            None => {},
        }
        proof {
            assert(self.records() =~= old(self).records().remove(id));
        }
        Ok(())
    }
}

/// An in-memory store of outcomes; ids are issued from 1 upward and never reused.
pub struct DummyOutcomeRepo {
    /// The record with id `i + 1` at index `i`, `None` once deleted.
    slots: Vec<Option<Outcome>>,
}

impl DummyOutcomeRepo {
    pub fn new() -> (r: Self)
        ensures
            r.records() == Map::<u64, Outcome>::empty(),
            r.never_fails(),
    {
        let r = DummyOutcomeRepo { slots: Vec::new() };
        assert(r.records() =~= Map::<u64, Outcome>::empty());
        r
    }

    fn slot_of(&self, id: u64) -> (r: Option<usize>)
        ensures
            match r {
                Some(i) => 1 <= id <= self.slots.len() && i == id - 1,
                None => !(1 <= id <= self.slots.len()),
            },
    {
        if id == 0 {
            return None;
        }
        let i = id - 1;
        if i as u128 >= self.slots.len() as u128 {
            None
        } else {
            Some(i as usize)
        }
    }
}

impl OutcomeRepo for DummyOutcomeRepo {
    closed spec fn records(&self) -> Map<u64, Outcome> {
        Map::new(
            |id: u64| 1 <= id <= self.slots.len() && self.slots@[id - 1] is Some,
            |id: u64| self.slots@[id - 1]->0,
        )
    }

    closed spec fn never_fails(&self) -> bool {
        self.slots.len() < u64::MAX
    }

    fn list(&self, start_date: &DateTime, end_date: &DateTime) -> (r: Result<Vec<Outcome>, FinanceError>) {
        let mut found: Vec<Outcome> = Vec::new();
        let mut i: usize = 0;
        while i < self.slots.len()
            invariant
                i <= self.slots.len(),
                forall|j: int|
                    0 <= j < found.len() ==> self.records().contains_value(#[trigger] found@[j])
                        && outcome::dated_within(found@[j], *start_date, *end_date),
                forall|k: u64|
                    k <= i && self.records().contains_key(k) && outcome::dated_within(
                        #[trigger] self.records()[k],
                        *start_date,
                        *end_date,
                    ) ==> found@.contains(self.records()[k]),
            decreases self.slots.len() - i,
        {
            match &self.slots[i] {
                Some(x) => {
                    if start_date.is_not_after(&x.date) && x.date.is_not_after(end_date) {
                        let ghost before = found@;
                        let ghost id = (i + 1) as u64;
                        assert(self.records().contains_key(id) && self.records()[id] == *x);
                        found.push(x.duplicate());
                        proof {
                            assert(found@[found.len() - 1] == self.records()[id]);
                            assert forall|k: u64|
                                k <= i + 1 && self.records().contains_key(k) && outcome::dated_within(
                                    #[trigger] self.records()[k],
                                    *start_date,
                                    *end_date,
                                ) implies found@.contains(self.records()[k]) by {
                                if k <= i {
                                    let j = choose|j: int|
                                        0 <= j < before.len() && before[j] == self.records()[k];
                                    assert(found@[j] == self.records()[k]);
                                } else {
                                    assert(found@[found.len() - 1] == self.records()[k]);
                                }
                            }
                        }
                    }
                },
                None => {},
            }
            i = i + 1;
        }
        Ok(found)
    }

    fn get_by_id(&self, id: u64) -> (r: Result<Option<Outcome>, FinanceError>) {
        match self.slot_of(id) {
            Some(i) => match &self.slots[i] {
                Some(x) => Ok(Some(x.duplicate())),
                None => Ok(None),
            },
            None => Ok(None),
        }
    }

    fn store(&mut self, record: Outcome) -> (r: Result<u64, FinanceError>) {
        if self.slots.len() as u128 >= u64::MAX as u128 {
            return Err(FinanceError::Storage);
        }
        let id = (self.slots.len() as u64) + 1;
        let stored = Outcome { id: Some(id), name: record.name, amount: record.amount, date: record.date };
        self.slots.push(Some(stored));
        proof {
            assert(self.records() =~= old(self).records().insert(id, outcome::with_id(record, id)));
        }
        Ok(id)
    }

    fn update(&mut self, record: Outcome) -> (r: Result<(), FinanceError>) {
        let id = match record.id {
            Some(id) => id,
            None => return Err(FinanceError::NotFound),
        };
        let i = match self.slot_of(id) {
            Some(i) => i,
            None => return Err(FinanceError::NotFound),
        };
        if self.slots[i].is_none() {
            return Err(FinanceError::NotFound);
        }
        self.slots.set(i, Some(record));
        proof {
            assert(self.records() =~= old(self).records().insert(id, record));
        }
        Ok(())
    }

    fn delete_by_id(&mut self, id: u64) -> (r: Result<(), FinanceError>) {
        match self.slot_of(id) {
            Some(i) => {
                self.slots.set(i, None);
            },
            None => {},
        }
        proof {
            assert(self.records() =~= old(self).records().remove(id));
        }
        Ok(())
    }
}

/// An in-memory store of adjustments.
pub struct DummyAdjustmentRepo {
    entries: HashMap<i64, Adjustment>,
}

impl DummyAdjustmentRepo {
    pub fn new() -> (r: Self)
        ensures
            r.adjustments() == Map::<AdjustmentKey, Adjustment>::empty(),
            r.never_fails(),
    {
        let r = DummyAdjustmentRepo { entries: HashMap::new() };
        assert(r.adjustments() =~= Map::<AdjustmentKey, Adjustment>::empty());
        r
    }
}

impl AdjustmentRepo for DummyAdjustmentRepo {
    closed spec fn adjustments(&self) -> Map<AdjustmentKey, Adjustment> {
        Map::new(
            |k: AdjustmentKey| valid_ym(k) && self.entries@.contains_key(month_slot(k)),
            |k: AdjustmentKey| self.entries@[month_slot(k)],
        )
    }

    open spec fn never_fails(&self) -> bool {
        true
    }

    fn get(&self, key: &AdjustmentKey) -> (r: Result<Option<Adjustment>, FinanceError>) {
        let slot = month_slot_of(key);
        match self.entries.get(&slot) {
            Some(a) => Ok(Some(*a)),
            None => Ok(None),
        }
    }

    fn store(&mut self, key: &AdjustmentKey, adjustment: Adjustment) -> (r: Result<(), FinanceError>) {
        let slot = month_slot_of(key);
        self.entries.insert(slot, adjustment);
        proof {
            assert forall|k: AdjustmentKey| valid_ym(k) && month_slot(k) == slot implies k == *key by {
                lemma_month_slot_injective(k, *key);
            }
            assert(self.adjustments() =~= old(self).adjustments().insert(*key, adjustment));
        }
        Ok(())
    }

    fn delete(&mut self, key: &AdjustmentKey) -> (r: Result<(), FinanceError>) {
        let slot = month_slot_of(key);
        self.entries.remove(&slot);
        proof {
            assert forall|k: AdjustmentKey| valid_ym(k) && month_slot(k) == slot implies k == *key by {
                lemma_month_slot_injective(k, *key);
            }
            assert(self.adjustments() =~= old(self).adjustments().remove(*key));
        }
        Ok(())
    }
}

/// A new, empty in-memory store of incomes.
pub fn get_income_repo() -> (r: DummyIncomeRepo)
    ensures
        r.records() == Map::<u64, Income>::empty(),
        r.never_fails(),
{
    DummyIncomeRepo::new()
}

/// A new, empty in-memory store of outcomes.
pub fn get_outcome_repo() -> (r: DummyOutcomeRepo)
    ensures
        r.records() == Map::<u64, Outcome>::empty(),
        r.never_fails(),
{
    DummyOutcomeRepo::new()
}

/// A new, empty in-memory store of adjustments.
pub fn get_adjustment_repo() -> (r: DummyAdjustmentRepo)
    ensures
        r.adjustments() == Map::<AdjustmentKey, Adjustment>::empty(),
        r.never_fails(),
{
    DummyAdjustmentRepo::new()
}

/// A new, empty in-memory ledger store.
pub fn get_saving_repo() -> (r: DummySavingRepo)
    ensures
        r.balances() == Map::<SavingKey, int>::empty(),
        r.never_fails(),
{
    DummySavingRepo::new()
}

} // verus!

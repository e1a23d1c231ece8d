use vstd::prelude::*;

use crate::amount::{fits, Amount};
use crate::detail::income::{Income, IncomeRepo};
use crate::detail::outcome::{Outcome, OutcomeRepo};
use crate::detail::saving::{
    in_months, lemma_propagate_without_gaps, propagated, propagated_balance, update_saving_through,
    SavingKey, SavingRepo,
};
use crate::error::FinanceError;
use crate::util::{
    closing_of, current_year_month, get_opening_and_closing_date, month_index, prev_ym, valid_ym,
    DateTime, YearMonth,
};

verus! {

/// The synthetic record that realizes an adjustment: an income or an
/// outcome, by id.
#[derive(Clone, Copy, Debug, PartialEq, Eq, Structural)]
pub enum AdjustmentKind {
    Income(u64),
    Outcome(u64),
}

/// The month that an adjustment corrects.
pub type AdjustmentKey = YearMonth;

/// A manual correction of a month's balance, realized as a synthetic income
/// or outcome of the same amount and date.
#[derive(Clone, Copy, Debug, PartialEq, Eq, Structural)]
pub struct Adjustment {
    pub kind: AdjustmentKind,
    /// Never negative: the kind gives the sign.
    pub amount: Amount,
    pub date: DateTime,
}

impl Adjustment {
    pub fn new(kind: AdjustmentKind, amount: Amount, date: DateTime) -> (r: Adjustment)
        ensures
            r == (Adjustment { kind, amount, date }),
    {
        Adjustment { kind, amount, date }
    }
}

/// A store of adjustments, at most one per month.
pub trait AdjustmentRepo {
    /// The stored adjustments, by month.
    spec fn adjustments(&self) -> Map<AdjustmentKey, Adjustment>;

    /// Whether every operation of the store succeeds.
    spec fn never_fails(&self) -> bool;

    fn get(&self, key: &AdjustmentKey) -> (r: Result<Option<Adjustment>, FinanceError>)
        requires
            valid_ym(*key),
        ensures
            self.never_fails() ==> r is Ok,
            match r {
                Ok(Some(a)) => self.adjustments().contains_key(*key) && a == self.adjustments()[*key],
                Ok(None) => !self.adjustments().contains_key(*key),
                Err(_) => true,
            },
    ;

    fn store(&mut self, key: &AdjustmentKey, adjustment: Adjustment) -> (r: Result<(), FinanceError>)
        requires
            valid_ym(*key),
        ensures
            old(self).never_fails() ==> r is Ok,
            final(self).never_fails() == old(self).never_fails(),
            r is Ok ==> final(self).adjustments() == old(self).adjustments().insert(*key, adjustment),
    ;

    fn delete(&mut self, key: &AdjustmentKey) -> (r: Result<(), FinanceError>)
        requires
            valid_ym(*key),
        ensures
            old(self).never_fails() ==> r is Ok,
            final(self).never_fails() == old(self).never_fails(),
            r is Ok ==> final(self).adjustments() == old(self).adjustments().remove(*key),
    ;
}

/// The balance of a month in a ledger, zero where it has no entry.
pub open spec fn balance_of(balances: Map<SavingKey, int>, key: SavingKey) -> int {
    if balances.contains_key(key) {
        balances[key]
    } else {
        0
    }
}

/// The stores once the adjustment of month `key`, if any, and its synthetic
/// record are deleted.
pub open spec fn without_adjustment(
    adjustments: Map<AdjustmentKey, Adjustment>,
    incomes: Map<u64, Income>,
    outcomes: Map<u64, Outcome>,
    key: AdjustmentKey,
) -> (Map<AdjustmentKey, Adjustment>, Map<u64, Income>, Map<u64, Outcome>) {
    if adjustments.contains_key(key) {
        match adjustments[key].kind {
            AdjustmentKind::Income(id) => (adjustments.remove(key), incomes.remove(id), outcomes),
            AdjustmentKind::Outcome(id) => (adjustments.remove(key), incomes, outcomes.remove(id)),
        }
    } else {
        (adjustments, incomes, outcomes)
    }
}

/// The synthetic income or outcome stored under `id` for an adjustment of
/// `units` dated `date`.
pub open spec fn is_synthetic(id: u64, record_id: Option<u64>, name: Seq<char>, amount: Amount, date: DateTime, units: int, at: DateTime) -> bool {
    record_id == Some(id) && name == "adjustment"@ && amount.units == units && date == at
}

/// How reconciling month `key` to the balance `target`, with the ledger
/// propagated through month `until`, takes the stores from the first four
/// maps to the last four: the month's earlier adjustment and its synthetic
/// record are gone; the ledger is propagated by the difference between
/// `target` and the month's stored balance (zero where it has none); and a
/// positive difference is recorded as a synthetic income, a negative one as a
/// synthetic outcome of the opposite amount, each dated at the month's last
/// second and referenced by a new adjustment of the same amount and date.
pub open spec fn reconciled(
    adjustments: Map<AdjustmentKey, Adjustment>,
    incomes: Map<u64, Income>,
    outcomes: Map<u64, Outcome>,
    balances: Map<SavingKey, int>,
    adjustments2: Map<AdjustmentKey, Adjustment>,
    incomes2: Map<u64, Income>,
    outcomes2: Map<u64, Outcome>,
    balances2: Map<SavingKey, int>,
    target: int,
    key: AdjustmentKey,
    until: SavingKey,
) -> bool {
    let (a1, i1, o1) = without_adjustment(adjustments, incomes, outcomes, key);
    let diff = target - balance_of(balances, key);
    let at = closing_of(key);
    &&& balances2 == propagated(balances, key, diff, until)
    &&& diff == 0 ==> adjustments2 == a1 && incomes2 == i1 && outcomes2 == o1
    &&& diff > 0 ==> exists|id: u64|
        #![trigger incomes2[id]]
        !i1.contains_key(id) && incomes2 == i1.insert(id, incomes2[id]) && is_synthetic(
            id,
            incomes2[id].id,
            incomes2[id].name@,
            incomes2[id].amount,
            incomes2[id].date,
            diff,
            at,
        ) && outcomes2 == o1 && adjustments2 == a1.insert(
            key,
            Adjustment { kind: AdjustmentKind::Income(id), amount: incomes2[id].amount, date: at },
        )
    &&& diff < 0 ==> exists|id: u64|
        #![trigger outcomes2[id]]
        !o1.contains_key(id) && outcomes2 == o1.insert(id, outcomes2[id]) && is_synthetic(
            id,
            outcomes2[id].id,
            outcomes2[id].name@,
            outcomes2[id].amount,
            outcomes2[id].date,
            -diff,
            at,
        ) && incomes2 == i1 && adjustments2 == a1.insert(
            key,
            Adjustment { kind: AdjustmentKind::Outcome(id), amount: outcomes2[id].amount, date: at },
        )
}

/// Reconciles the balance of month `(year, month)` to `saving_input`,
/// propagating the correction up to the current month of the clock.
pub fn create_adjustment<I: IncomeRepo, O: OutcomeRepo, S: SavingRepo, A: AdjustmentRepo>(
    saving_input: Amount,
    year: i32,
    month: u32,
    income_repo: &mut I,
    outcome_repo: &mut O,
    saving_repo: &mut S,
    adjustment_repo: &mut A,
) -> (r: Result<(), FinanceError>)
    ensures
        r is Ok ==> exists|until: SavingKey|
            valid_ym(until) && reconciled(
                old(adjustment_repo).adjustments(),
                old(income_repo).records(),
                old(outcome_repo).records(),
                old(saving_repo).balances(),
                final(adjustment_repo).adjustments(),
                final(income_repo).records(),
                final(outcome_repo).records(),
                final(saving_repo).balances(),
                saving_input.units as int,
                (year, month),
                until,
            ),
        !valid_ym((year, month)) ==> r == Err::<(), FinanceError>(FinanceError::InvalidDate)
            && final(adjustment_repo).adjustments() == old(adjustment_repo).adjustments()
            && final(income_repo).records() == old(income_repo).records()
            && final(outcome_repo).records() == old(outcome_repo).records()
            && final(saving_repo).balances() == old(saving_repo).balances(),
        ({
            let diff = saving_input.units - balance_of(old(saving_repo).balances(), (year, month));
            valid_ym((year, month)) && old(income_repo).never_fails() && old(outcome_repo).never_fails()
                && old(saving_repo).never_fails() && old(adjustment_repo).never_fails() && fits(diff)
                && fits(-diff) && crate::detail::saving::propagation_fits_from(old(saving_repo).balances(), (year, month), diff)
                ==> r is Ok
        }),
{
    let today = current_year_month();
    create_adjustment_through(
        saving_input,
        year,
        month,
        income_repo,
        outcome_repo,
        saving_repo,
        adjustment_repo,
        today,
    )
}

/// Reconciles the balance of month `(year, month)` to `saving_input`,
/// propagating the correction through month `until`.
///
/// The steps run in this order: delete the month's earlier adjustment and its
/// synthetic record, read the month's balance, propagate the difference,
/// store the new synthetic record and adjustment. Nothing is rolled back on
/// failure.
pub fn create_adjustment_through<I: IncomeRepo, O: OutcomeRepo, S: SavingRepo, A: AdjustmentRepo>(
    saving_input: Amount,
    year: i32,
    month: u32,
    income_repo: &mut I,
    outcome_repo: &mut O,
    saving_repo: &mut S,
    adjustment_repo: &mut A,
    until: SavingKey,
) -> (r: Result<(), FinanceError>)
    requires
        valid_ym(until),
    ensures
        r is Ok ==> reconciled(
            old(adjustment_repo).adjustments(),
            old(income_repo).records(),
            old(outcome_repo).records(),
            old(saving_repo).balances(),
            final(adjustment_repo).adjustments(),
            final(income_repo).records(),
            final(outcome_repo).records(),
            final(saving_repo).balances(),
            saving_input.units as int,
            (year, month),
            until,
        ),
        r is Ok ==> crate::detail::saving::propagation_fits(
            old(saving_repo).balances(),
            (year, month),
            saving_input.units - balance_of(old(saving_repo).balances(), (year, month)),
            until,
        ),
        !valid_ym((year, month)) ==> r == Err::<(), FinanceError>(FinanceError::InvalidDate)
            && final(adjustment_repo).adjustments() == old(adjustment_repo).adjustments()
            && final(income_repo).records() == old(income_repo).records()
            && final(outcome_repo).records() == old(outcome_repo).records()
            && final(saving_repo).balances() == old(saving_repo).balances(),
        ({
            let diff = saving_input.units - balance_of(old(saving_repo).balances(), (year, month));
            valid_ym((year, month)) && old(income_repo).never_fails() && old(outcome_repo).never_fails()
                && old(saving_repo).never_fails() && old(adjustment_repo).never_fails() && fits(diff)
                && fits(-diff) && (forall|c: SavingKey|
                #![trigger propagated_balance(old(saving_repo).balances(), (year, month), diff, c)]
                in_months(c, (year, month), until) ==> fits(
                    propagated_balance(old(saving_repo).balances(), (year, month), diff, c),
                )) ==> r is Ok
        }),
{
    let (_, closing_date) = get_opening_and_closing_date(year, month)?;
    let key = (year, month);
    match adjustment_repo.get(&key)? {
        Some(adjustment) => {
            adjustment_repo.delete(&key)?;
            match adjustment.kind {
                AdjustmentKind::Income(id) => income_repo.delete_by_id(id)?,
                AdjustmentKind::Outcome(id) => outcome_repo.delete_by_id(id)?,
            }
        },
        None => {},
    }
    let ghost a1 = adjustment_repo.adjustments();
    let ghost i1 = income_repo.records();
    let ghost o1 = outcome_repo.records();
    assert((a1, i1, o1) == without_adjustment(
        old(adjustment_repo).adjustments(),
        old(income_repo).records(),
        old(outcome_repo).records(),
        key,
    ));
    let current = match saving_repo.get(&key)? {
        Some(saving) => saving.amount,
        None => Amount::zero(),
    };
    let diff = match saving_input.checked_sub(current) {
        Some(d) => d,
        None => return Err(FinanceError::Overflow),
    };
    update_saving_through(key, diff, until, saving_repo)?;
    let name = "adjustment".to_owned();
    if diff.is_positive() {
        let id = income_repo.store(Income::new(name, diff, closing_date))?;
        let adjustment = Adjustment::new(AdjustmentKind::Income(id), diff, closing_date);
        adjustment_repo.store(&key, adjustment)?;
        assert(income_repo.records()[id].amount == diff);
        assert(income_repo.records() == i1.insert(id, income_repo.records()[id]));
        Ok(())
    } else if diff.is_negative() {
        let opposite = match diff.checked_neg() {
            Some(o) => o,
            None => return Err(FinanceError::Overflow),
        };
        let id = outcome_repo.store(Outcome::new(name, opposite, closing_date))?;
        let adjustment = Adjustment::new(AdjustmentKind::Outcome(id), opposite, closing_date);
        adjustment_repo.store(&key, adjustment)?;
        assert(outcome_repo.records()[id].amount == opposite);
        assert(outcome_repo.records() == o1.insert(id, outcome_repo.records()[id]));
        Ok(())
    } else {
        Ok(())
    }
}

proof fn lemma_zero_propagation_fits_at(balances: Map<SavingKey, int>, key: SavingKey, c: SavingKey)
    requires
        forall|k: SavingKey| #[trigger] balances.contains_key(k) ==> fits(balances[k]),
        valid_ym(c),
        month_index(key) <= month_index(c),
    ensures
        fits(propagated_balance(balances, key, 0, c)),
    decreases month_index(c) - month_index(key),
{
    if !balances.contains_key(c) && month_index(c) > month_index(key) && valid_ym(prev_ym(c)) {
        lemma_zero_propagation_fits_at(balances, key, prev_ym(c));
    }
}

/// Right after reconciling a month to `target` with a successful ledger
/// update (every written balance fitting), on a ledger whose balances all
/// fit and under the condition of the round trip: the month's balance is
/// `target`, so reconciling it again to `target` propagates a difference of
/// zero, and every balance that this second propagation would write fits, so
/// that reconciliation is owed success on stores that never fail.
pub proof fn lemma_repeat_adjustment_fits(
    balances: Map<SavingKey, int>,
    balances1: Map<SavingKey, int>,
    target: int,
    key: AdjustmentKey,
    until: SavingKey,
)
    requires
        valid_ym(key),
        valid_ym(until),
        month_index(key) <= month_index(until),
        balances.contains_key(key) || !(valid_ym(prev_ym(key)) && balances.contains_key(prev_ym(key))),
        forall|k: SavingKey| #[trigger] balances.contains_key(k) ==> fits(balances[k]),
        balances1 == propagated(balances, key, target - balance_of(balances, key), until),
        crate::detail::saving::propagation_fits(balances, key, target - balance_of(balances, key), until),
    ensures
        target - balance_of(balances1, key) == 0,
        crate::detail::saving::propagation_fits_from(balances1, key, 0),
        forall|k: SavingKey| #[trigger] balances1.contains_key(k) ==> fits(balances1[k]),
{
    let diff = target - balance_of(balances, key);
    assert(in_months(key, key, until));
    assert forall|k: SavingKey| #[trigger] balances1.contains_key(k) implies fits(balances1[k]) by {
        if in_months(k, key, until) {
            assert(fits(propagated_balance(balances, key, diff, k)));
        }
    }
    assert forall|c: SavingKey|
        valid_ym(c) && month_index(key) <= month_index(c) implies fits(#[trigger] propagated_balance(balances1, key, 0, c)) by {
        lemma_zero_propagation_fits_at(balances1, key, c);
    }
}

/// Reconciling a month to a balance leaves exactly that balance in the
/// ledger, when the month has an entry or the month before has none (a month
/// without an entry starts from the month before); reconciling it again to
/// the same balance then creates no synthetic record, keeps the ledger as it
/// is, and leaves the month with no adjustment.
pub proof fn lemma_adjustment_round_trip(
    adjustments: Map<AdjustmentKey, Adjustment>,
    incomes: Map<u64, Income>,
    outcomes: Map<u64, Outcome>,
    balances: Map<SavingKey, int>,
    adjustments1: Map<AdjustmentKey, Adjustment>,
    incomes1: Map<u64, Income>,
    outcomes1: Map<u64, Outcome>,
    balances1: Map<SavingKey, int>,
    adjustments2: Map<AdjustmentKey, Adjustment>,
    incomes2: Map<u64, Income>,
    outcomes2: Map<u64, Outcome>,
    balances2: Map<SavingKey, int>,
    target: int,
    key: AdjustmentKey,
    until: SavingKey,
)
    requires
        valid_ym(key),
        valid_ym(until),
        month_index(key) <= month_index(until),
        balances.contains_key(key) || !(valid_ym(prev_ym(key)) && balances.contains_key(prev_ym(key))),
        reconciled(adjustments, incomes, outcomes, balances, adjustments1, incomes1, outcomes1, balances1, target, key, until),
        reconciled(adjustments1, incomes1, outcomes1, balances1, adjustments2, incomes2, outcomes2, balances2, target, key, until),
    ensures
        balances1.contains_key(key) && balances1[key] == target,
        balances2 == balances1,
        !adjustments2.contains_key(key),
        incomes2.dom().subset_of(incomes1.dom()),
        outcomes2.dom().subset_of(outcomes1.dom()),
{
    assert(in_months(key, key, until));
    assert forall|c: SavingKey| #[trigger] in_months(c, key, until) implies balances1.contains_key(c) by {}
    lemma_propagate_without_gaps(balances1, key, 0, until);
    assert(balances2 =~= balances1);
}

/// Reconciling a month to one balance and then to another leaves that other
/// balance in the ledger (under the condition of the round trip) and a single
/// adjustment for the month, whose synthetic record is stored with the same
/// amount and date, while the first reconciliation's adjustment and record
/// are gone.
pub proof fn lemma_adjustment_replacement(
    adjustments: Map<AdjustmentKey, Adjustment>,
    incomes: Map<u64, Income>,
    outcomes: Map<u64, Outcome>,
    balances: Map<SavingKey, int>,
    adjustments1: Map<AdjustmentKey, Adjustment>,
    incomes1: Map<u64, Income>,
    outcomes1: Map<u64, Outcome>,
    balances1: Map<SavingKey, int>,
    adjustments2: Map<AdjustmentKey, Adjustment>,
    incomes2: Map<u64, Income>,
    outcomes2: Map<u64, Outcome>,
    balances2: Map<SavingKey, int>,
    first: int,
    second: int,
    key: AdjustmentKey,
    until: SavingKey,
)
    requires
        valid_ym(key),
        valid_ym(until),
        month_index(key) <= month_index(until),
        balances.contains_key(key) || !(valid_ym(prev_ym(key)) && balances.contains_key(prev_ym(key))),
        first != second,
        reconciled(adjustments, incomes, outcomes, balances, adjustments1, incomes1, outcomes1, balances1, first, key, until),
        reconciled(adjustments1, incomes1, outcomes1, balances1, adjustments2, incomes2, outcomes2, balances2, second, key, until),
    ensures
        balances2.contains_key(key) && balances2[key] == second,
        adjustments2.contains_key(key),
        match adjustments2[key].kind {
            AdjustmentKind::Income(id) => incomes2.contains_key(id) && incomes2[id].amount == adjustments2[key].amount && incomes2[id].date == adjustments2[key].date,
            AdjustmentKind::Outcome(id) => outcomes2.contains_key(id) && outcomes2[id].amount == adjustments2[key].amount && outcomes2[id].date == adjustments2[key].date,
        },
        ({
            let (a, i, o) = without_adjustment(adjustments1, incomes1, outcomes1, key);
            (exists|id: u64| !i.contains_key(id) && incomes2 == i.insert(id, incomes2[id]) && outcomes2 == o)
            || (exists|id: u64| !o.contains_key(id) && outcomes2 == o.insert(id, outcomes2[id]) && incomes2 == i)
        }),
{
    assert(in_months(key, key, until));
    assert forall|c: SavingKey| #[trigger] in_months(c, key, until) implies balances1.contains_key(c) by {}
    let diff = second - balances1[key];
    lemma_propagate_without_gaps(balances1, key, diff, until);
}

} // verus!

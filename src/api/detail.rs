use vstd::prelude::*;

use crate::amount::{amount_of_text, fits, parse_amount, Amount};
use crate::detail::adjustment::{self, reconciled, AdjustmentRepo};
use crate::detail::income::{self, Income, IncomeRepo};
use crate::detail::outcome::{self, Outcome, OutcomeRepo};
use crate::detail::saving::{
    in_months, propagated, propagated_balance, propagation_fits, propagation_fits_from, update_saving_through, Saving,
    SavingKey, SavingRepo,
};
use crate::error::FinanceError;
use crate::util::{current_year_month, valid_date, valid_ym, MAX_YEAR, MIN_YEAR};

verus! {

/// What chrono reads from a text in the form `YYYY-MM-DD`: the year, month
/// and day of the date, if the text holds one.
pub uninterp spec fn ymd_of_text(s: Seq<char>) -> Option<(int, int, int)>;

/// Relies on chrono's `NaiveDate::parse_from_str` with the format
/// `%Y-%m-%d`, and on `Datelike::year`, `month` and `day`: the date that the
/// text holds, if any, which is a day of the calendar.
#[verifier::external_body]
pub(crate) fn parse_ymd(s: &str) -> (r: Option<(i32, u32, u32)>)
    ensures
        match r {
            Some((y, m, d)) => ymd_of_text(s@) == Some((y as int, m as int, d as int)) && valid_date(
                y as int,
                m as int,
                d as int,
            ),
            None => ymd_of_text(s@) is None,
        },
{
    match chrono::NaiveDate::parse_from_str(s, "%Y-%m-%d") {
        Ok(d) => Some((chrono::Datelike::year(&d), chrono::Datelike::month(&d), chrono::Datelike::day(&d))),
        Err(_) => None,
    }
}

/// Reconciles the balance of month `(year, month)` to the amount that
/// `saving_input` holds, propagating the correction up to the current month.
pub fn create_adjustment<I: IncomeRepo, O: OutcomeRepo, S: SavingRepo, A: AdjustmentRepo>(
    saving_input: &str,
    year: i32,
    month: u32,
    income_repo: &mut I,
    outcome_repo: &mut O,
    saving_repo: &mut S,
    adjustment_repo: &mut A,
) -> (r: Result<(), FinanceError>)
    ensures
        amount_of_text(saving_input@) is None ==> r == Err::<(), FinanceError>(FinanceError::InvalidAmount),
        amount_of_text(saving_input@) is Some && !valid_ym((year, month)) ==> r == Err::<(), FinanceError>(
            FinanceError::InvalidDate,
        ) && final(saving_repo).balances() == old(saving_repo).balances()
            && final(adjustment_repo).adjustments() == old(adjustment_repo).adjustments()
            && final(income_repo).records() == old(income_repo).records()
            && final(outcome_repo).records() == old(outcome_repo).records(),
        r is Ok ==> exists|until: SavingKey|
            valid_ym(until) && reconciled(
                old(adjustment_repo).adjustments(),
                old(income_repo).records(),
                old(outcome_repo).records(),
                old(saving_repo).balances(),
                final(adjustment_repo).adjustments(),
                final(income_repo).records(),
                final(outcome_repo).records(),
                final(saving_repo).balances(),
                amount_of_text(saving_input@)->0.units as int,
                (year, month),
                until,
            ),
        ({
            let diff = amount_of_text(saving_input@)->0.units - adjustment::balance_of(
                old(saving_repo).balances(),
                (year, month),
            );
            amount_of_text(saving_input@) is Some && valid_ym((year, month)) && old(income_repo).never_fails()
                && old(outcome_repo).never_fails() && old(saving_repo).never_fails()
                && old(adjustment_repo).never_fails() && fits(diff) && fits(-diff) && propagation_fits_from(
                old(saving_repo).balances(),
                (year, month),
                diff,
            ) ==> r is Ok
        }),
{
    let target = match parse_amount(saving_input) {
        Some(a) => a,
        None => return Err(FinanceError::InvalidAmount),
    };
    adjustment::create_adjustment(
        target,
        year,
        month,
        income_repo,
        outcome_repo,
        saving_repo,
        adjustment_repo,
    )
}

/// The ledger entry of month `(year, month)`, or a zero balance where there
/// is none, the month is not in the calendar, or the store fails.
pub fn get_saving<S: SavingRepo>(year: i32, month: u32, saving_repo: &S) -> (r: Saving)
    ensures
        r.key == (year, month),
        !valid_ym((year, month)) ==> r.amount.units == 0,
        valid_ym((year, month)) && saving_repo.never_fails() ==> r.amount.units == adjustment::balance_of(
            saving_repo.balances(),
            (year, month),
        ),
        r.amount.units != 0 ==> valid_ym((year, month)) && r.amount.units == adjustment::balance_of(
            saving_repo.balances(),
            (year, month),
        ),
{
    if !(year >= MIN_YEAR && year <= MAX_YEAR && month >= 1 && month <= 12) {
        return Saving::new((year, month), Amount::zero());
    }
    match saving_repo.get(&(year, month)) {
        Ok(Some(saving)) => saving,
        _ => Saving::new((year, month), Amount::zero()),
    }
}


/// Whether storing `record` took the incomes from `old` to `new`, under a fresh id.
pub open spec fn income_added(old: Map<u64, Income>, new: Map<u64, Income>, record: Income) -> bool {
    exists|id: u64|
        #![trigger new[id]]
        !old.contains_key(id) && new == old.insert(id, income::with_id(record, id))
}

/// Records a new income from text input (the date as `YYYY-MM-DD`) and
/// propagates its amount through the ledger from its month up to the
/// current month.
pub fn store_income<R: IncomeRepo, S: SavingRepo>(
    name: String,
    amount: String,
    date: String,
    income_repo: &mut R,
    saving_repo: &mut S,
) -> (r: Result<(), FinanceError>)
    ensures
        ymd_of_text(date@) is None ==> r == Err::<(), FinanceError>(FinanceError::InvalidDate)
            && final(income_repo).records() == old(income_repo).records() && final(saving_repo).balances() == old(saving_repo).balances(),
        ymd_of_text(date@) is Some && amount_of_text(amount@) is None ==> r == Err::<(), FinanceError>(
            FinanceError::InvalidAmount,
        ) && final(income_repo).records() == old(income_repo).records() && final(saving_repo).balances() == old(saving_repo).balances(),
        r is Ok ==> exists|until: SavingKey|
            valid_ym(until) && stored_income_through(
                old(income_repo).records(),
                final(income_repo).records(),
                old(saving_repo).balances(),
                final(saving_repo).balances(),
                name,
                amount@,
                date@,
                until,
            ),
        ({
            let (y, m, d) = ymd_of_text(date@)->0;
            let a = amount_of_text(amount@)->0.units as int;
            ymd_of_text(date@) is Some && amount_of_text(amount@) is Some && old(income_repo).never_fails()
                && old(saving_repo).never_fails() && fits(a) && propagation_fits_from(
                old(saving_repo).balances(),
                (y as i32, m as u32),
                a,
            ) ==> r is Ok
        }),
{
    let today = current_year_month();
    store_income_through(name, amount, date, income_repo, saving_repo, today)
}

/// The stores after recording the income that text input describes, with the
/// ledger propagated from its month through month `until`.
pub open spec fn stored_income_through(
    old_records: Map<u64, Income>,
    new_records: Map<u64, Income>,
    old_balances: Map<SavingKey, int>,
    new_balances: Map<SavingKey, int>,
    name: String,
    amount: Seq<char>,
    date: Seq<char>,
    until: SavingKey,
) -> bool {
    &&& ymd_of_text(date) matches Some((y, m, d))
    &&& {
        let (y, m, d) = ymd_of_text(date)->0;
        let parsed = income::parsed_record(None, name, amount, y as i32, m as u32, d as u32);
        &&& parsed is Ok
        &&& income_added(old_records, new_records, parsed->Ok_0)
        &&& new_balances == propagated(
            old_balances,
            (y as i32, m as u32),
            (parsed->Ok_0.amount.units as int),
            until,
        )
    }
}

/// Records a new income from text input and propagates its amount through
/// the ledger from its month through month `until`.
pub fn store_income_through<R: IncomeRepo, S: SavingRepo>(
    name: String,
    amount: String,
    date: String,
    income_repo: &mut R,
    saving_repo: &mut S,
    until: SavingKey,
) -> (r: Result<(), FinanceError>)
    requires
        valid_ym(until),
    ensures
        ymd_of_text(date@) is None ==> r == Err::<(), FinanceError>(FinanceError::InvalidDate)
            && final(income_repo).records() == old(income_repo).records() && final(saving_repo).balances() == old(saving_repo).balances(),
        ymd_of_text(date@) is Some && amount_of_text(amount@) is None ==> r == Err::<(), FinanceError>(
            FinanceError::InvalidAmount,
        ) && final(income_repo).records() == old(income_repo).records() && final(saving_repo).balances() == old(saving_repo).balances(),
        r is Ok ==> stored_income_through(
            old(income_repo).records(),
            final(income_repo).records(),
            old(saving_repo).balances(),
            final(saving_repo).balances(),
            name,
            amount@,
            date@,
            until,
        ),
        ({
            let (y, m, d) = ymd_of_text(date@)->0;
            let a = amount_of_text(amount@)->0.units as int;
            ymd_of_text(date@) is Some && amount_of_text(amount@) is Some && old(income_repo).never_fails()
                && old(saving_repo).never_fails() && fits(a) && propagation_fits(
                old(saving_repo).balances(),
                (y as i32, m as u32),
                a,
                until,
            ) ==> r is Ok
        }),
{
    let (year, month, day) = match parse_ymd(date.as_str()) {
        Some(ymd) => ymd,
        None => return Err(FinanceError::InvalidDate),
    };
    let record = Income::try_new(name, amount, year, month, day)?;
    let key = (record.date.year, record.date.month);
    let delta = record.amount;
    let ghost stored = record;
    let id = income_repo.store(record)?;
    assert(income_repo.records()[id] == income::with_id(stored, id));
    update_saving_through(key, delta, until, saving_repo)?;
    Ok(())
}

/// Deletes the stored income `id`, where there is one, and takes its amount
/// back out of the ledger from its month up to the current month.
pub fn delete_income<R: IncomeRepo, S: SavingRepo>(id: u64, income_repo: &mut R, saving_repo: &mut S) -> (r:
    Result<(), FinanceError>)
    ensures
        old(income_repo).never_fails() && !old(income_repo).records().contains_key(id) ==> r is Ok,
        r is Ok ==> exists|until: SavingKey|
            valid_ym(until) && deleted_income_through(
                old(income_repo).records(),
                final(income_repo).records(),
                old(saving_repo).balances(),
                final(saving_repo).balances(),
                id,
                until,
            ),
        ({
            let previous = old(income_repo).records()[id];
            let p = previous.amount.units as int;
            let k = (previous.date.year, previous.date.month);
            old(income_repo).records().contains_key(id) && old(income_repo).never_fails() && old(saving_repo).never_fails()
                && valid_ym(k) && fits(-p) && propagation_fits_from(old(saving_repo).balances(), k, -p)
                ==> r is Ok
        }),
{
    let today = current_year_month();
    delete_income_through(id, income_repo, saving_repo, today)
}

/// The stores after deleting income `id`, with the ledger propagated from its
/// month through month `until`; unchanged where there is no such income.
pub open spec fn deleted_income_through(
    old_records: Map<u64, Income>,
    new_records: Map<u64, Income>,
    old_balances: Map<SavingKey, int>,
    new_balances: Map<SavingKey, int>,
    id: u64,
    until: SavingKey,
) -> bool {
    if old_records.contains_key(id) {
        let previous = old_records[id];
        &&& new_records == old_records.remove(id)
        &&& new_balances == propagated(
            old_balances,
            (previous.date.year, previous.date.month),
            -(previous.amount.units as int),
            until,
        )
    } else {
        new_records == old_records && new_balances == old_balances
    }
}

/// Deletes the stored income `id`, where there is one, and takes its amount
/// back out of the ledger from its month through month `until`.
pub fn delete_income_through<R: IncomeRepo, S: SavingRepo>(
    id: u64,
    income_repo: &mut R,
    saving_repo: &mut S,
    until: SavingKey,
) -> (r: Result<(), FinanceError>)
    requires
        valid_ym(until),
    ensures
        r is Ok ==> deleted_income_through(
            old(income_repo).records(),
            final(income_repo).records(),
            old(saving_repo).balances(),
            final(saving_repo).balances(),
            id,
            until,
        ),
        old(income_repo).never_fails() && !old(income_repo).records().contains_key(id) ==> r is Ok,
        ({
            let previous = old(income_repo).records()[id];
            let p = previous.amount.units as int;
            let k = (previous.date.year, previous.date.month);
            old(income_repo).records().contains_key(id) && old(income_repo).never_fails() && old(
                saving_repo,
            ).never_fails() && valid_ym(k) && fits(-p) && propagation_fits(old(saving_repo).balances(), k, -p, until)
                ==> r is Ok
        }),
{
    let previous = match income_repo.get_by_id(id)? {
        Some(p) => p,
        None => return Ok(()),
    };
    if !(previous.date.year >= MIN_YEAR && previous.date.year <= MAX_YEAR && previous.date.month >= 1
        && previous.date.month <= 12) {
        return Err(FinanceError::InvalidDate);
    }
    let delta = match previous.amount.checked_neg() { Some(n) => n, None => return Err(FinanceError::Overflow) };
    income_repo.delete_by_id(id)?;
    update_saving_through((previous.date.year, previous.date.month), delta, until, saving_repo)?;
    Ok(())
}

/// Replaces the stored income `id`, where there is one, with one from text
/// input, and moves the ledger by the change up to the current month.
pub fn update_income<R: IncomeRepo, S: SavingRepo>(
    id: u64,
    name: String,
    amount: String,
    date: String,
    income_repo: &mut R,
    saving_repo: &mut S,
) -> (r: Result<(), FinanceError>)
    ensures
        old(income_repo).never_fails() && !old(income_repo).records().contains_key(id) ==> r is Ok,
        old(income_repo).never_fails() && old(income_repo).records().contains_key(id) && ymd_of_text(date@) is None
            ==> r == Err::<(), FinanceError>(FinanceError::InvalidDate)
            && final(income_repo).records() == old(income_repo).records() && final(saving_repo).balances() == old(saving_repo).balances(),
        old(income_repo).never_fails() && old(income_repo).records().contains_key(id) && ymd_of_text(date@) is Some
            && valid_ym((old(income_repo).records()[id].date.year, old(income_repo).records()[id].date.month))
            && amount_of_text(amount@) is None ==> r == Err::<(), FinanceError>(FinanceError::InvalidAmount)
            && final(income_repo).records() == old(income_repo).records() && final(saving_repo).balances() == old(saving_repo).balances(),
        r is Ok ==> exists|until: SavingKey|
            valid_ym(until) && updated_income_through(
                old(income_repo).records(),
                final(income_repo).records(),
                old(saving_repo).balances(),
                final(saving_repo).balances(),
                id,
                name,
                amount@,
                date@,
                until,
            ),
        ({
            let previous = old(income_repo).records()[id];
            let (y, m, d) = ymd_of_text(date@)->0;
            let p = previous.amount.units as int;
            let n = amount_of_text(amount@)->0.units as int;
            let pk = (previous.date.year, previous.date.month);
            let nk = (y as i32, m as u32);
            old(income_repo).records().contains_key(id) && old(income_repo).never_fails() && old(saving_repo).never_fails()
                && ymd_of_text(date@) is Some && amount_of_text(amount@) is Some && valid_ym(pk)
                && (pk == nk ==> fits(n - p) && propagation_fits_from(old(saving_repo).balances(), nk, n - p))
                && (pk != nk ==> fits(-p) && fits(n) && propagation_fits_from(old(saving_repo).balances(), pk, -p)
                && (forall|until: SavingKey|
                valid_ym(until) ==> propagation_fits_from(
                    #[trigger] propagated(old(saving_repo).balances(), pk, -p, until),
                    nk,
                    n,
                ))) ==> r is Ok
        }),
{
    let today = current_year_month();
    update_income_through(id, name, amount, date, income_repo, saving_repo, today)
}

/// The stores after replacing income `id` with the one that text input
/// describes: by the difference of the amounts from the month where both
/// dates fall in one month, else by taking the old amount out from its month
/// and then putting the new one in from its own, each through month `until`.
/// Unchanged where there is no such income.
pub open spec fn updated_income_through(
    old_records: Map<u64, Income>,
    new_records: Map<u64, Income>,
    old_balances: Map<SavingKey, int>,
    new_balances: Map<SavingKey, int>,
    id: u64,
    name: String,
    amount: Seq<char>,
    date: Seq<char>,
    until: SavingKey,
) -> bool {
    if !old_records.contains_key(id) {
        new_records == old_records && new_balances == old_balances
    } else {
        &&& ymd_of_text(date) matches Some((y, m, d))
        &&& {
            let (y, m, d) = ymd_of_text(date)->0;
            let previous = old_records[id];
            let parsed = income::parsed_record(Some(id), name, amount, y as i32, m as u32, d as u32);
            let p = previous.amount.units as int;
            let n = parsed->Ok_0.amount.units as int;
            let pk = (previous.date.year, previous.date.month);
            let nk = (y as i32, m as u32);
            &&& parsed is Ok
            &&& new_records == old_records.insert(id, parsed->Ok_0)
            &&& pk == nk ==> new_balances == propagated(old_balances, nk, n - p, until)
            &&& pk != nk ==> new_balances == propagated(
                propagated(old_balances, pk, -p, until),
                nk,
                n,
                until,
            )
        }
    }
}

/// Replaces the stored income `id`, where there is one, with one from text
/// input, and moves the ledger by the change through month `until`.
pub fn update_income_through<R: IncomeRepo, S: SavingRepo>(
    id: u64,
    name: String,
    amount: String,
    date: String,
    income_repo: &mut R,
    saving_repo: &mut S,
    until: SavingKey,
) -> (r: Result<(), FinanceError>)
    requires
        valid_ym(until),
    ensures
        old(income_repo).never_fails() && !old(income_repo).records().contains_key(id) ==> r is Ok,
        old(income_repo).never_fails() && old(income_repo).records().contains_key(id) && ymd_of_text(date@) is None
            ==> r == Err::<(), FinanceError>(FinanceError::InvalidDate)
            && final(income_repo).records() == old(income_repo).records() && final(saving_repo).balances() == old(saving_repo).balances(),
        old(income_repo).never_fails() && old(income_repo).records().contains_key(id) && ymd_of_text(date@) is Some
            && valid_ym((old(income_repo).records()[id].date.year, old(income_repo).records()[id].date.month))
            && amount_of_text(amount@) is None ==> r == Err::<(), FinanceError>(FinanceError::InvalidAmount)
            && final(income_repo).records() == old(income_repo).records() && final(saving_repo).balances() == old(saving_repo).balances(),
        r is Ok ==> updated_income_through(
            old(income_repo).records(),
            final(income_repo).records(),
            old(saving_repo).balances(),
            final(saving_repo).balances(),
            id,
            name,
            amount@,
            date@,
            until,
        ),
        ({
            let previous = old(income_repo).records()[id];
            let (y, m, d) = ymd_of_text(date@)->0;
            let p = previous.amount.units as int;
            let n = amount_of_text(amount@)->0.units as int;
            let pk = (previous.date.year, previous.date.month);
            let nk = (y as i32, m as u32);
            old(income_repo).records().contains_key(id) && old(income_repo).never_fails() && old(
                saving_repo,
            ).never_fails() && ymd_of_text(date@) is Some && amount_of_text(amount@) is Some && valid_ym(pk)
                && (pk == nk ==> fits(n - p) && propagation_fits(old(saving_repo).balances(), nk, n - p, until))
                && (pk != nk ==> fits(-p) && fits(n) && propagation_fits(
                old(saving_repo).balances(),
                pk,
                -p,
                until,
            ) && propagation_fits(
                propagated(old(saving_repo).balances(), pk, -p, until),
                nk,
                n,
                until,
            )) ==> r is Ok
        }),
{
    let previous = match income_repo.get_by_id(id)? {
        Some(p) => p,
        None => return Ok(()),
    };
    let (year, month, day) = match parse_ymd(date.as_str()) {
        Some(ymd) => ymd,
        None => return Err(FinanceError::InvalidDate),
    };
    if !(previous.date.year >= MIN_YEAR && previous.date.year <= MAX_YEAR && previous.date.month >= 1
        && previous.date.month <= 12) {
        return Err(FinanceError::InvalidDate);
    }
    let replacement = Income::try_update(id, name, amount, year, month, day)?;
    let new_amount = replacement.amount;
    income_repo.update(replacement)?;
    if previous.date.year == year && previous.date.month == month {
        let diff = match new_amount.checked_sub(previous.amount) {
            Some(d) => d,
            None => return Err(FinanceError::Overflow),
        };
        update_saving_through((year, month), diff, until, saving_repo)?;
    } else {
        let taken_out = match previous.amount.checked_neg() { Some(a) => a, None => return Err(FinanceError::Overflow) };
        let put_in = new_amount;
        update_saving_through((previous.date.year, previous.date.month), taken_out, until, saving_repo)?;
        update_saving_through((year, month), put_in, until, saving_repo)?;
    }
    Ok(())
}

/// Whether storing `record` took the outcomes from `old` to `new`, under a fresh id.
pub open spec fn outcome_added(old: Map<u64, Outcome>, new: Map<u64, Outcome>, record: Outcome) -> bool {
    exists|id: u64|
        #![trigger new[id]]
        !old.contains_key(id) && new == old.insert(id, outcome::with_id(record, id))
}

/// Records a new outcome from text input (the date as `YYYY-MM-DD`) and
/// propagates its amount through the ledger from its month up to the
/// current month.
pub fn store_outcome<R: OutcomeRepo, S: SavingRepo>(
    name: String,
    amount: String,
    date: String,
    outcome_repo: &mut R,
    saving_repo: &mut S,
) -> (r: Result<(), FinanceError>)
    ensures
        ymd_of_text(date@) is None ==> r == Err::<(), FinanceError>(FinanceError::InvalidDate)
            && final(outcome_repo).records() == old(outcome_repo).records() && final(saving_repo).balances() == old(saving_repo).balances(),
        ymd_of_text(date@) is Some && amount_of_text(amount@) is None ==> r == Err::<(), FinanceError>(
            FinanceError::InvalidAmount,
        ) && final(outcome_repo).records() == old(outcome_repo).records() && final(saving_repo).balances() == old(saving_repo).balances(),
        r is Ok ==> exists|until: SavingKey|
            valid_ym(until) && stored_outcome_through(
                old(outcome_repo).records(),
                final(outcome_repo).records(),
                old(saving_repo).balances(),
                final(saving_repo).balances(),
                name,
                amount@,
                date@,
                until,
            ),
        ({
            let (y, m, d) = ymd_of_text(date@)->0;
            let a = amount_of_text(amount@)->0.units as int;
            ymd_of_text(date@) is Some && amount_of_text(amount@) is Some && old(outcome_repo).never_fails()
                && old(saving_repo).never_fails() && fits(-a) && propagation_fits_from(
                old(saving_repo).balances(),
                (y as i32, m as u32),
                -a,
            ) ==> r is Ok
        }),
{
    let today = current_year_month();
    store_outcome_through(name, amount, date, outcome_repo, saving_repo, today)
}

/// The stores after recording the outcome that text input describes, with the
/// ledger propagated from its month through month `until`.
pub open spec fn stored_outcome_through(
    old_records: Map<u64, Outcome>,
    new_records: Map<u64, Outcome>,
    old_balances: Map<SavingKey, int>,
    new_balances: Map<SavingKey, int>,
    name: String,
    amount: Seq<char>,
    date: Seq<char>,
    until: SavingKey,
) -> bool {
    &&& ymd_of_text(date) matches Some((y, m, d))
    &&& {
        let (y, m, d) = ymd_of_text(date)->0;
        let parsed = outcome::parsed_record(None, name, amount, y as i32, m as u32, d as u32);
        &&& parsed is Ok
        &&& outcome_added(old_records, new_records, parsed->Ok_0)
        &&& new_balances == propagated(
            old_balances,
            (y as i32, m as u32),
            -(parsed->Ok_0.amount.units as int),
            until,
        )
    }
}

/// Records a new outcome from text input and propagates its amount through
/// the ledger from its month through month `until`.
pub fn store_outcome_through<R: OutcomeRepo, S: SavingRepo>(
    name: String,
    amount: String,
    date: String,
    outcome_repo: &mut R,
    saving_repo: &mut S,
    until: SavingKey,
) -> (r: Result<(), FinanceError>)
    requires
        valid_ym(until),
    ensures
        ymd_of_text(date@) is None ==> r == Err::<(), FinanceError>(FinanceError::InvalidDate)
            && final(outcome_repo).records() == old(outcome_repo).records() && final(saving_repo).balances() == old(saving_repo).balances(),
        ymd_of_text(date@) is Some && amount_of_text(amount@) is None ==> r == Err::<(), FinanceError>(
            FinanceError::InvalidAmount,
        ) && final(outcome_repo).records() == old(outcome_repo).records() && final(saving_repo).balances() == old(saving_repo).balances(),
        r is Ok ==> stored_outcome_through(
            old(outcome_repo).records(),
            final(outcome_repo).records(),
            old(saving_repo).balances(),
            final(saving_repo).balances(),
            name,
            amount@,
            date@,
            until,
        ),
        ({
            let (y, m, d) = ymd_of_text(date@)->0;
            let a = amount_of_text(amount@)->0.units as int;
            ymd_of_text(date@) is Some && amount_of_text(amount@) is Some && old(outcome_repo).never_fails()
                && old(saving_repo).never_fails() && fits(-a) && propagation_fits(
                old(saving_repo).balances(),
                (y as i32, m as u32),
                -a,
                until,
            ) ==> r is Ok
        }),
{
    let (year, month, day) = match parse_ymd(date.as_str()) {
        Some(ymd) => ymd,
        None => return Err(FinanceError::InvalidDate),
    };
    let record = Outcome::try_new(name, amount, year, month, day)?;
    let key = (record.date.year, record.date.month);
    let delta = match record.amount.checked_neg() { Some(n) => n, None => return Err(FinanceError::Overflow) };
    let ghost stored = record;
    let id = outcome_repo.store(record)?;
    assert(outcome_repo.records()[id] == outcome::with_id(stored, id));
    update_saving_through(key, delta, until, saving_repo)?;
    Ok(())
}

/// Deletes the stored outcome `id`, where there is one, and takes its amount
/// back out of the ledger from its month up to the current month.
pub fn delete_outcome<R: OutcomeRepo, S: SavingRepo>(id: u64, outcome_repo: &mut R, saving_repo: &mut S) -> (r:
    Result<(), FinanceError>)
    ensures
        old(outcome_repo).never_fails() && !old(outcome_repo).records().contains_key(id) ==> r is Ok,
        r is Ok ==> exists|until: SavingKey|
            valid_ym(until) && deleted_outcome_through(
                old(outcome_repo).records(),
                final(outcome_repo).records(),
                old(saving_repo).balances(),
                final(saving_repo).balances(),
                id,
                until,
            ),
        ({
            let previous = old(outcome_repo).records()[id];
            let p = previous.amount.units as int;
            let k = (previous.date.year, previous.date.month);
            old(outcome_repo).records().contains_key(id) && old(outcome_repo).never_fails() && old(saving_repo).never_fails()
                && valid_ym(k) && fits(p) && propagation_fits_from(old(saving_repo).balances(), k, p)
                ==> r is Ok
        }),
{
    let today = current_year_month();
    delete_outcome_through(id, outcome_repo, saving_repo, today)
}

/// The stores after deleting outcome `id`, with the ledger propagated from its
/// month through month `until`; unchanged where there is no such outcome.
pub open spec fn deleted_outcome_through(
    old_records: Map<u64, Outcome>,
    new_records: Map<u64, Outcome>,
    old_balances: Map<SavingKey, int>,
    new_balances: Map<SavingKey, int>,
    id: u64,
    until: SavingKey,
) -> bool {
    if old_records.contains_key(id) {
        let previous = old_records[id];
        &&& new_records == old_records.remove(id)
        &&& new_balances == propagated(
            old_balances,
            (previous.date.year, previous.date.month),
            (previous.amount.units as int),
            until,
        )
    } else {
        new_records == old_records && new_balances == old_balances
    }
}

/// Deletes the stored outcome `id`, where there is one, and takes its amount
/// back out of the ledger from its month through month `until`.
pub fn delete_outcome_through<R: OutcomeRepo, S: SavingRepo>(
    id: u64,
    outcome_repo: &mut R,
    saving_repo: &mut S,
    until: SavingKey,
) -> (r: Result<(), FinanceError>)
    requires
        valid_ym(until),
    ensures
        r is Ok ==> deleted_outcome_through(
            old(outcome_repo).records(),
            final(outcome_repo).records(),
            old(saving_repo).balances(),
            final(saving_repo).balances(),
            id,
            until,
        ),
        old(outcome_repo).never_fails() && !old(outcome_repo).records().contains_key(id) ==> r is Ok,
        ({
            let previous = old(outcome_repo).records()[id];
            let p = previous.amount.units as int;
            let k = (previous.date.year, previous.date.month);
            old(outcome_repo).records().contains_key(id) && old(outcome_repo).never_fails() && old(
                saving_repo,
            ).never_fails() && valid_ym(k) && fits(p) && propagation_fits(old(saving_repo).balances(), k, p, until)
                ==> r is Ok
        }),
{
    let previous = match outcome_repo.get_by_id(id)? {
        Some(p) => p,
        None => return Ok(()),
    };
    if !(previous.date.year >= MIN_YEAR && previous.date.year <= MAX_YEAR && previous.date.month >= 1
        && previous.date.month <= 12) {
        return Err(FinanceError::InvalidDate);
    }
    let delta = previous.amount;
    outcome_repo.delete_by_id(id)?;
    update_saving_through((previous.date.year, previous.date.month), delta, until, saving_repo)?;
    Ok(())
}

/// Replaces the stored outcome `id`, where there is one, with one from text
/// input, and moves the ledger by the change up to the current month.
pub fn update_outcome<R: OutcomeRepo, S: SavingRepo>(
    id: u64,
    name: String,
    amount: String,
    date: String,
    outcome_repo: &mut R,
    saving_repo: &mut S,
) -> (r: Result<(), FinanceError>)
    ensures
        old(outcome_repo).never_fails() && !old(outcome_repo).records().contains_key(id) ==> r is Ok,
        old(outcome_repo).never_fails() && old(outcome_repo).records().contains_key(id) && ymd_of_text(date@) is None
            ==> r == Err::<(), FinanceError>(FinanceError::InvalidDate)
            && final(outcome_repo).records() == old(outcome_repo).records() && final(saving_repo).balances() == old(saving_repo).balances(),
        old(outcome_repo).never_fails() && old(outcome_repo).records().contains_key(id) && ymd_of_text(date@) is Some
            && valid_ym((old(outcome_repo).records()[id].date.year, old(outcome_repo).records()[id].date.month))
            && amount_of_text(amount@) is None ==> r == Err::<(), FinanceError>(FinanceError::InvalidAmount)
            && final(outcome_repo).records() == old(outcome_repo).records() && final(saving_repo).balances() == old(saving_repo).balances(),
        r is Ok ==> exists|until: SavingKey|
            valid_ym(until) && updated_outcome_through(
                old(outcome_repo).records(),
                final(outcome_repo).records(),
                old(saving_repo).balances(),
                final(saving_repo).balances(),
                id,
                name,
                amount@,
                date@,
                until,
            ),
        ({
            let previous = old(outcome_repo).records()[id];
            let (y, m, d) = ymd_of_text(date@)->0;
            let p = previous.amount.units as int;
            let n = amount_of_text(amount@)->0.units as int;
            let pk = (previous.date.year, previous.date.month);
            let nk = (y as i32, m as u32);
            old(outcome_repo).records().contains_key(id) && old(outcome_repo).never_fails() && old(saving_repo).never_fails()
                && ymd_of_text(date@) is Some && amount_of_text(amount@) is Some && valid_ym(pk)
                && (pk == nk ==> fits(p - n) && propagation_fits_from(old(saving_repo).balances(), nk, p - n))
                && (pk != nk ==> fits(p) && fits(-n) && propagation_fits_from(old(saving_repo).balances(), pk, p)
                && (forall|until: SavingKey|
                valid_ym(until) ==> propagation_fits_from(
                    #[trigger] propagated(old(saving_repo).balances(), pk, p, until),
                    nk,
                    -n,
                ))) ==> r is Ok
        }),
{
    let today = current_year_month();
    update_outcome_through(id, name, amount, date, outcome_repo, saving_repo, today)
}

/// The stores after replacing outcome `id` with the one that text input
/// describes: by the difference of the amounts from the month where both
/// dates fall in one month, else by taking the old amount out from its month
/// and then putting the new one in from its own, each through month `until`.
/// Unchanged where there is no such outcome.
pub open spec fn updated_outcome_through(
    old_records: Map<u64, Outcome>,
    new_records: Map<u64, Outcome>,
    old_balances: Map<SavingKey, int>,
    new_balances: Map<SavingKey, int>,
    id: u64,
    name: String,
    amount: Seq<char>,
    date: Seq<char>,
    until: SavingKey,
) -> bool {
    if !old_records.contains_key(id) {
        new_records == old_records && new_balances == old_balances
    } else {
        &&& ymd_of_text(date) matches Some((y, m, d))
        &&& {
            let (y, m, d) = ymd_of_text(date)->0;
            let previous = old_records[id];
            let parsed = outcome::parsed_record(Some(id), name, amount, y as i32, m as u32, d as u32);
            let p = previous.amount.units as int;
            let n = parsed->Ok_0.amount.units as int;
            let pk = (previous.date.year, previous.date.month);
            let nk = (y as i32, m as u32);
            &&& parsed is Ok
            &&& new_records == old_records.insert(id, parsed->Ok_0)
            &&& pk == nk ==> new_balances == propagated(old_balances, nk, p - n, until)
            &&& pk != nk ==> new_balances == propagated(
                propagated(old_balances, pk, p, until),
                nk,
                -n,
                until,
            )
        }
    }
}

/// Replaces the stored outcome `id`, where there is one, with one from text
/// input, and moves the ledger by the change through month `until`.
pub fn update_outcome_through<R: OutcomeRepo, S: SavingRepo>(
    id: u64,
    name: String,
    amount: String,
    date: String,
    outcome_repo: &mut R,
    saving_repo: &mut S,
    until: SavingKey,
) -> (r: Result<(), FinanceError>)
    requires
        valid_ym(until),
    ensures
        old(outcome_repo).never_fails() && !old(outcome_repo).records().contains_key(id) ==> r is Ok,
        old(outcome_repo).never_fails() && old(outcome_repo).records().contains_key(id) && ymd_of_text(date@) is None
            ==> r == Err::<(), FinanceError>(FinanceError::InvalidDate)
            && final(outcome_repo).records() == old(outcome_repo).records() && final(saving_repo).balances() == old(saving_repo).balances(),
        old(outcome_repo).never_fails() && old(outcome_repo).records().contains_key(id) && ymd_of_text(date@) is Some
            && valid_ym((old(outcome_repo).records()[id].date.year, old(outcome_repo).records()[id].date.month))
            && amount_of_text(amount@) is None ==> r == Err::<(), FinanceError>(FinanceError::InvalidAmount)
            && final(outcome_repo).records() == old(outcome_repo).records() && final(saving_repo).balances() == old(saving_repo).balances(),
        r is Ok ==> updated_outcome_through(
            old(outcome_repo).records(),
            final(outcome_repo).records(),
            old(saving_repo).balances(),
            final(saving_repo).balances(),
            id,
            name,
            amount@,
            date@,
            until,
        ),
        ({
            let previous = old(outcome_repo).records()[id];
            let (y, m, d) = ymd_of_text(date@)->0;
            let p = previous.amount.units as int;
            let n = amount_of_text(amount@)->0.units as int;
            let pk = (previous.date.year, previous.date.month);
            let nk = (y as i32, m as u32);
            old(outcome_repo).records().contains_key(id) && old(outcome_repo).never_fails() && old(
                saving_repo,
            ).never_fails() && ymd_of_text(date@) is Some && amount_of_text(amount@) is Some && valid_ym(pk)
                && (pk == nk ==> fits(p - n) && propagation_fits(old(saving_repo).balances(), nk, p - n, until))
                && (pk != nk ==> fits(p) && fits(-n) && propagation_fits(
                old(saving_repo).balances(),
                pk,
                p,
                until,
            ) && propagation_fits(
                propagated(old(saving_repo).balances(), pk, p, until),
                nk,
                -n,
                until,
            )) ==> r is Ok
        }),
{
    let previous = match outcome_repo.get_by_id(id)? {
        Some(p) => p,
        None => return Ok(()),
    };
    let (year, month, day) = match parse_ymd(date.as_str()) {
        Some(ymd) => ymd,
        None => return Err(FinanceError::InvalidDate),
    };
    if !(previous.date.year >= MIN_YEAR && previous.date.year <= MAX_YEAR && previous.date.month >= 1
        && previous.date.month <= 12) {
        return Err(FinanceError::InvalidDate);
    }
    let replacement = Outcome::try_update(id, name, amount, year, month, day)?;
    let new_amount = replacement.amount;
    outcome_repo.update(replacement)?;
    if previous.date.year == year && previous.date.month == month {
        let diff = match previous.amount.checked_sub(new_amount) {
            Some(d) => d,
            None => return Err(FinanceError::Overflow),
        };
        update_saving_through((year, month), diff, until, saving_repo)?;
    } else {
        let taken_out = previous.amount;
        let put_in = match new_amount.checked_neg() { Some(a) => a, None => return Err(FinanceError::Overflow) };
        update_saving_through((previous.date.year, previous.date.month), taken_out, until, saving_repo)?;
        update_saving_through((year, month), put_in, until, saving_repo)?;
    }
    Ok(())
}

} // verus!

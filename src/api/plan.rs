use vstd::prelude::*;

use crate::amount::{amount_of_text, parse_amount};
use crate::api::detail::{parse_ymd, ymd_of_text};
use crate::error::FinanceError;
use crate::plan::job::{PartTimeJobIncome, PartTimeJobRepo};
use crate::util::DateTime;

verus! {

/// Edits the stored part-time job income `id` from text input: the hourly
/// wage and the hours as decimal text, the payment date as `YYYY-MM-DD`.
/// Its id and job are kept.
pub fn update_part_time_job_income<R: PartTimeJobRepo>(
    id: u64,
    name: String,
    hourly_wage: &str,
    hour: &str,
    payment_date: &str,
    repo: &mut R,
) -> (r: Result<(), FinanceError>)
    ensures
        amount_of_text(hourly_wage@) is None || amount_of_text(hour@) is None ==> r == Err::<(), FinanceError>(
            FinanceError::InvalidAmount,
        ) && final(repo).job_incomes() == old(repo).job_incomes(),
        amount_of_text(hourly_wage@) is Some && amount_of_text(hour@) is Some && ymd_of_text(payment_date@) is None
            ==> r == Err::<(), FinanceError>(FinanceError::InvalidDate) && final(repo).job_incomes() == old(repo).job_incomes(),
        amount_of_text(hourly_wage@) is Some && amount_of_text(hour@) is Some && ymd_of_text(payment_date@) is Some
            && old(repo).never_fails() && !old(repo).job_incomes().contains_key(id) ==> r == Err::<(), FinanceError>(
            FinanceError::NotFound,
        ) && final(repo).job_incomes() == old(repo).job_incomes(),
        amount_of_text(hourly_wage@) is Some && amount_of_text(hour@) is Some && ymd_of_text(payment_date@) is Some
            && old(repo).never_fails() && old(repo).job_incomes().contains_key(id) && old(repo).job_incomes()[id].id
            == Some(id) ==> r is Ok,
        r is Ok ==> old(repo).job_incomes().contains_key(id) && ({
            let previous = old(repo).job_incomes()[id];
            let (y, m, d) = ymd_of_text(payment_date@)->0;
            &&& previous.id is Some
            &&& final(repo).job_incomes() == old(repo).job_incomes().insert(
                previous.id->0,
                PartTimeJobIncome {
                    id: previous.id,
                    part_time_job_id: previous.part_time_job_id,
                    name,
                    hourly_wage: amount_of_text(hourly_wage@)->0,
                    hour: amount_of_text(hour@)->0,
                    payment_date: DateTime { year: y as i32, month: m as u32, day: d as u32, second: 0 },
                },
            )
        }),
{
    let hourly_wage = match parse_amount(hourly_wage) {
        Some(a) => a,
        None => return Err(FinanceError::InvalidAmount),
    };
    let hour = match parse_amount(hour) {
        Some(a) => a,
        None => return Err(FinanceError::InvalidAmount),
    };
    let (year, month, day) = match parse_ymd(payment_date) {
        Some(ymd) => ymd,
        None => return Err(FinanceError::InvalidDate),
    };
    let payment_date = DateTime::at_midnight(year, month, day)?;
    let income = match repo.get_part_time_job_income_by_id(id)? {
        Some(income) => income,
        None => return Err(FinanceError::NotFound),
    };
    if income.id.is_none() {
        return Err(FinanceError::NotFound);
    }
    let updated = income.update(name, hourly_wage, hour, payment_date);
    repo.update_part_time_job_income(updated)
}

} // verus!

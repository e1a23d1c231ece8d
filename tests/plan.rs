use household_finance::api::plan::update_part_time_job_income;
use household_finance::amount::{parse_amount, Amount};
use household_finance::detail::saving::{Saving, SavingRepo};
use household_finance::detail::repository::get_saving_repo;
use household_finance::error::FinanceError;
use household_finance::plan::future_inspector::{inspect, project, BalanceStatus};
use household_finance::plan::income::{Income, ToIncome};
use household_finance::plan::job::{
    get_or_create_income, get_or_create_incomes, PartTimeJob, PartTimeJobIncome, PartTimeJobRepo,
    PaymentTiming,
};
use household_finance::plan::monthly_outcome::{
    self, get_or_create_monthly_outcome, get_or_create_monthly_outcomes, MonthlyOutcomeRepo,
    MonthlyOutcomeTemplate,
};
use household_finance::plan::outcome::Outcome;
use household_finance::plan::repository::{
    get_monthly_outcome_repo, get_part_time_job_repo, get_temporary_outcome_repo,
};
use household_finance::plan::temporary_outcome::{get_temporary_outcomes, TemporaryOutcome, TemporaryOutcomeRepo};
use household_finance::util::{
    days_in_month, get_end_of_month, get_next_ym, get_opening_and_closing_date, get_prev_ym, DateTime,
};

fn whole(n: i64) -> Amount {
    Amount::from_whole(n)
}

fn day(year: i32, month: u32, day: u32) -> DateTime {
    DateTime { year, month, day, second: 0 }
}

fn job(timing: PaymentTiming, start: DateTime, end: Option<DateTime>) -> PartTimeJob {
    PartTimeJob { id: None, name: "shift".to_string(), payment_timing: timing, start_date: start, end_date: end }
}

#[test]
fn materialization_is_idempotent() {
    let mut repo = get_part_time_job_repo();
    let id = repo.store_part_time_job(job(PaymentTiming::NextMonthMid(21), day(2025, 1, 1), None)).unwrap();
    repo.store_part_time_job_hourly_wage(id, whole(1500), (2025, 1)).unwrap();
    let stored = repo.get_part_time_job_by_id(id).unwrap().unwrap();
    let first = get_or_create_income(&stored, 2025, 3, &mut repo).unwrap();
    let second = get_or_create_income(&stored, 2025, 3, &mut repo).unwrap();
    assert_eq!(first.id, second.id);
    assert_eq!(first.payment_date, second.payment_date);
    assert_eq!(first.hourly_wage, second.hourly_wage);
    assert_eq!(first.hour, second.hour);
    assert_eq!(first.name, second.name);
    assert_eq!(first.payment_date, day(2025, 4, 21));
    assert_eq!(first.hourly_wage, whole(1500));
    assert_eq!(first.hour, whole(0));
}

#[test]
fn materialization_keeps_edited_hours() {
    let mut repo = get_part_time_job_repo();
    let id = repo.store_part_time_job(job(PaymentTiming::End, day(2025, 1, 1), None)).unwrap();
    let stored = repo.get_part_time_job_by_id(id).unwrap().unwrap();
    let first = get_or_create_income(&stored, 2025, 2, &mut repo).unwrap();
    let edited = first.update(first.name.clone(), whole(1000), whole(8), first.payment_date);
    repo.update_part_time_job_income(edited).unwrap();
    let again = get_or_create_income(&stored, 2025, 2, &mut repo).unwrap();
    assert_eq!(again.id, first.id);
    assert_eq!(again.hour, whole(8));
    let income = again.to_income().unwrap();
    assert_eq!(income.amount, whole(8000));
    assert_eq!(income.date, day(2025, 2, 28));
}

#[test]
fn wage_in_effect_is_the_latest_started() {
    let mut repo = get_part_time_job_repo();
    let id = repo.store_part_time_job(job(PaymentTiming::End, day(2024, 1, 1), None)).unwrap();
    let stored = repo.get_part_time_job_by_id(id).unwrap().unwrap();
    stored.set_hourly_wage(whole(1500), (2024, 11), &mut repo).unwrap();
    stored.set_hourly_wage(whole(1600), (2025, 5), &mut repo).unwrap();
    stored.set_hourly_wage(whole(1550), (2024, 11), &mut repo).unwrap();
    assert_eq!(stored.get_hourly_wage(2025, 3, &repo).unwrap().hourly_wage, whole(1550));
    assert_eq!(stored.get_hourly_wage(2025, 6, &repo).unwrap().hourly_wage, whole(1600));
    assert!(stored.get_hourly_wage(2024, 10, &repo).is_none());
    let created = stored.to_part_time_job_income(2024, 10, whole(2), &mut repo).unwrap();
    assert_eq!(created.hourly_wage, whole(0));
}

#[test]
fn payment_dates_of_each_timing() {
    let start = day(2025, 1, 1);
    assert_eq!(job(PaymentTiming::End, start, None).get_payment_date(2024, 2), Ok(day(2024, 2, 29)));
    assert_eq!(job(PaymentTiming::Mid(15), start, None).get_payment_date(2025, 4), Ok(day(2025, 4, 15)));
    assert_eq!(job(PaymentTiming::NextMonthEnd, start, None).get_payment_date(2025, 12), Ok(day(2026, 1, 31)));
    assert_eq!(job(PaymentTiming::NextMonthMid(21), start, None).get_payment_date(2025, 1), Ok(day(2025, 2, 21)));
    assert_eq!(job(PaymentTiming::Mid(31), start, None).get_payment_date(2025, 4), Err(FinanceError::InvalidDate));
    assert_eq!(job(PaymentTiming::NextMonthMid(30), start, None).get_payment_date(2025, 1), Err(FinanceError::InvalidDate));
    assert_eq!(job(PaymentTiming::End, start, None).get_payment_date(2025, 0), Err(FinanceError::InvalidDate));
}

fn template(amount: i64, timing: monthly_outcome::PaymentTiming, start: DateTime, end: Option<DateTime>) -> MonthlyOutcomeTemplate {
    MonthlyOutcomeTemplate { id: None, name: "rent".to_string(), amount: whole(amount), payment_timing: timing, start_date: start, end_date: end }
}

#[test]
fn monthly_materialization_is_idempotent() {
    let mut repo = get_monthly_outcome_repo();
    let id = repo.store_monthly_outcome_template(template(10000, monthly_outcome::PaymentTiming::Mid(15), day(2025, 3, 1), None)).unwrap();
    let start = day(2025, 3, 1);
    let end = DateTime { year: 2025, month: 3, day: 31, second: 86399 };
    let listed = repo.list_monthly_outcome_template(&start, &end).unwrap();
    assert_eq!(listed.len(), 1);
    assert_eq!(listed[0].id, Some(id));
    let first = get_or_create_monthly_outcome(&listed[0], 2025, 3, &mut repo).unwrap();
    let second = get_or_create_monthly_outcome(&listed[0], 2025, 3, &mut repo).unwrap();
    assert_eq!(first.id, second.id);
    assert_eq!(first.payment_date, day(2025, 3, 15));
    assert_eq!(second.amount, whole(10000));
    let outcomes = get_or_create_monthly_outcomes(2025, 3, &mut repo).unwrap();
    assert_eq!(outcomes.len(), 1);
    assert_eq!(outcomes[0].amount, whole(10000));
    assert_eq!(outcomes[0].date, day(2025, 3, 15));
}

#[test]
fn validity_window_boundary() {
    let mut repo = get_monthly_outcome_repo();
    repo.store_monthly_outcome_template(template(1, monthly_outcome::PaymentTiming::End, day(2025, 1, 1), Some(day(2025, 3, 1)))).unwrap();
    repo.store_monthly_outcome_template(template(2, monthly_outcome::PaymentTiming::End, day(2025, 1, 1), Some(day(2025, 2, 28)))).unwrap();
    let (start, end) = get_opening_and_closing_date(2025, 3).unwrap();
    let listed = repo.list_monthly_outcome_template(&start, &end).unwrap();
    assert_eq!(listed.len(), 1);
    assert_eq!(listed[0].amount, whole(1));

    let mut jobs = get_part_time_job_repo();
    jobs.store_part_time_job(job(PaymentTiming::End, day(2025, 1, 1), Some(day(2025, 3, 1)))).unwrap();
    jobs.store_part_time_job(job(PaymentTiming::End, day(2025, 1, 1), Some(day(2025, 2, 28)))).unwrap();
    jobs.store_part_time_job(job(PaymentTiming::End, day(2025, 4, 1), None)).unwrap();
    let listed = jobs.list_part_time_jobs(&start, &end).unwrap();
    assert_eq!(listed.len(), 1);
    assert_eq!(listed[0].id, Some(1));
    let incomes = get_or_create_incomes(2025, 3, &mut jobs).unwrap();
    assert_eq!(incomes.len(), 1);
    assert_eq!(incomes[0].date, day(2025, 3, 31));
}

fn income(amount: i64, date: DateTime) -> Income {
    Income { name: "in".to_string(), amount: whole(amount), date }
}

fn outcome(amount: i64, date: DateTime) -> Outcome {
    Outcome { name: "out".to_string(), amount: whole(amount), date }
}

fn surplus(status: &BalanceStatus) -> Option<Amount> {
    match status {
        BalanceStatus::Surplus(a) => Some(*a),
        BalanceStatus::Deficit(_) => None,
    }
}

#[test]
fn projection_balance_continuity() {
    let results = project(whole(1000), vec![income(500, day(2025, 6, 5))], vec![outcome(200, day(2025, 6, 12))]).unwrap();
    assert_eq!(results.len(), 2);
    assert_eq!(results[0].date, day(2025, 6, 5));
    assert_eq!(surplus(&results[0].balance_status), Some(whole(1500)));
    assert_eq!(results[1].date, day(2025, 6, 12));
    assert_eq!(surplus(&results[1].balance_status), Some(whole(1300)));
    assert_eq!(results[0].incomes.len(), 1);
    assert_eq!(results[1].outcomes.len(), 1);
}

#[test]
fn projection_deficit_classification() {
    let results = project(whole(100), vec![], vec![outcome(300, day(2025, 6, 1))]).unwrap();
    assert_eq!(results.len(), 1);
    assert_eq!(results[0].balance_status, BalanceStatus::Deficit(whole(200)));
}

#[test]
fn projection_groups_and_sorts_dates() {
    let results = project(
        whole(0),
        vec![income(10, day(2025, 7, 3)), income(5, day(2025, 7, 1)), income(1, day(2025, 7, 3))],
        vec![outcome(4, day(2025, 7, 3)), outcome(20, day(2025, 7, 2))],
    ).unwrap();
    assert_eq!(results.len(), 3);
    assert_eq!(results[0].date, day(2025, 7, 1));
    assert_eq!(results[1].date, day(2025, 7, 2));
    assert_eq!(results[2].date, day(2025, 7, 3));
    assert_eq!(surplus(&results[0].balance_status), Some(whole(5)));
    assert_eq!(results[1].balance_status, BalanceStatus::Deficit(whole(15)));
    assert_eq!(results[2].balance_status, BalanceStatus::Deficit(whole(8)));
    assert_eq!(results[2].incomes.len(), 2);
    assert_eq!(results[2].incomes[0].amount, whole(10));
    assert_eq!(results[2].outcomes.len(), 1);
}

#[test]
fn projection_of_nothing_is_empty() {
    assert!(project(whole(7), vec![], vec![]).unwrap().is_empty());
}

#[test]
fn inspect_walks_months_and_seeds_from_the_ledger() {
    let mut savings = get_saving_repo();
    savings.store(&(2025, 6), Saving::new((2025, 6), whole(1000))).unwrap();
    let incomes = vec![|y: i32, m: u32| -> Result<Vec<Income>, FinanceError> {
        if (y, m) == (2025, 6) { Ok(vec![income(500, day(2025, 6, 5))]) } else { Ok(vec![]) }
    }];
    let outcomes = vec![|y: i32, m: u32| -> Result<Vec<Outcome>, FinanceError> {
        Ok(vec![outcome(200, day(y, m, 12))])
    }];
    let results = inspect((2025, 6), (2025, 7), &savings, incomes, outcomes).unwrap();
    assert_eq!(results.len(), 3);
    assert_eq!(surplus(&results[0].balance_status), Some(whole(1500)));
    assert_eq!(surplus(&results[1].balance_status), Some(whole(1300)));
    assert_eq!(surplus(&results[2].balance_status), Some(whole(1100)));
    assert_eq!(results[2].date, day(2025, 7, 12));
}

#[test]
fn inspect_fails_when_a_factory_fails() {
    let savings = get_saving_repo();
    let incomes = vec![|_y: i32, _m: u32| -> Result<Vec<Income>, FinanceError> { Err(FinanceError::Storage) }];
    let outcomes: Vec<fn(i32, u32) -> Result<Vec<Outcome>, FinanceError>> = vec![];
    assert!(matches!(inspect((2025, 1), (2025, 2), &savings, incomes, outcomes), Err(FinanceError::Storage)));
}

#[test]
fn temporary_outcomes_of_a_month() {
    let mut repo = get_temporary_outcome_repo();
    repo.store_temporary_outcome(TemporaryOutcome { id: None, name: "trip".to_string(), amount: whole(300), date: day(2025, 8, 9) }).unwrap();
    repo.store_temporary_outcome(TemporaryOutcome { id: None, name: "gift".to_string(), amount: whole(50), date: day(2025, 9, 1) }).unwrap();
    let august = get_temporary_outcomes(2025, 8, &repo).unwrap();
    assert_eq!(august.len(), 1);
    assert_eq!(august[0].name, "trip");
    assert_eq!(august[0].amount, whole(300));
}

#[test]
fn calendar_helpers() {
    assert_eq!(days_in_month(2024, 2), Ok(29));
    assert_eq!(days_in_month(2023, 2), Ok(28));
    assert_eq!(days_in_month(1900, 2), Ok(28));
    assert_eq!(days_in_month(2000, 2), Ok(29));
    assert_eq!(days_in_month(2025, 4), Ok(30));
    assert_eq!(days_in_month(2025, 13), Err(FinanceError::InvalidDate));
    assert_eq!(get_next_ym((2025, 12)), (2026, 1));
    assert_eq!(get_next_ym((2025, 3)), (2025, 4));
    assert_eq!(get_prev_ym((2025, 1)), (2024, 12));
    assert_eq!(get_end_of_month(2025, 2), Ok(day(2025, 2, 28)));
    let (open, close) = get_opening_and_closing_date(2025, 11).unwrap();
    assert_eq!(open, day(2025, 11, 1));
    assert_eq!(close, DateTime { year: 2025, month: 11, day: 30, second: 86399 });
    assert_eq!(DateTime::at_midnight(2025, 2, 29), Err(FinanceError::InvalidDate));
}

#[test]
fn job_income_product_needs_exact_decimals() {
    let x = PartTimeJobIncome {
        id: Some(1),
        part_time_job_id: 1,
        name: "shift".to_string(),
        hourly_wage: parse_amount("1012.5").unwrap(),
        hour: parse_amount("7.75").unwrap(),
        payment_date: day(2025, 5, 31),
    };
    assert_eq!(x.to_income().unwrap().amount, parse_amount("7846.875").unwrap());
}

#[test]
fn inspect_without_factories_or_months_is_empty() {
    let savings = get_saving_repo();
    let none_in: Vec<fn(i32, u32) -> Result<Vec<Income>, FinanceError>> = vec![];
    let none_out: Vec<fn(i32, u32) -> Result<Vec<Outcome>, FinanceError>> = vec![];
    assert!(inspect((2025, 1), (2025, 6), &savings, none_in, none_out).unwrap().is_empty());
    let incomes = vec![|_y: i32, _m: u32| -> Result<Vec<Income>, FinanceError> { Ok(vec![income(1, day(2025, 1, 1))]) }];
    let outcomes: Vec<fn(i32, u32) -> Result<Vec<Outcome>, FinanceError>> = vec![];
    assert!(inspect((2025, 6), (2025, 1), &savings, incomes, outcomes).unwrap().is_empty());
}

#[test]
fn inspect_keeps_every_factory_record_in_call_order() {
    let savings = get_saving_repo();
    let incomes = vec![
        |y: i32, m: u32| -> Result<Vec<Income>, FinanceError> { Ok(vec![income(m as i64, day(y, 3, 1))]) },
        |_y: i32, _m: u32| -> Result<Vec<Income>, FinanceError> { Ok(vec![income(100, day(2025, 3, 1))]) },
    ];
    let outcomes: Vec<fn(i32, u32) -> Result<Vec<Outcome>, FinanceError>> = vec![];
    let results = inspect((2025, 1), (2025, 2), &savings, incomes, outcomes).unwrap();
    assert_eq!(results.len(), 1);
    let amounts: Vec<Amount> = results[0].incomes.iter().map(|i| i.amount).collect();
    assert_eq!(amounts, vec![whole(1), whole(100), whole(2), whole(100)]);
    assert_eq!(surplus(&results[0].balance_status), Some(whole(203)));
}

#[test]
fn plural_materialization_writes_nothing_the_second_time() {
    let mut repo = get_monthly_outcome_repo();
    repo.store_monthly_outcome_template(template(700, monthly_outcome::PaymentTiming::End, day(2025, 1, 1), None)).unwrap();
    repo.store_monthly_outcome_template(template(300, monthly_outcome::PaymentTiming::Mid(10), day(2025, 1, 1), None)).unwrap();
    let first = get_or_create_monthly_outcomes(2025, 4, &mut repo).unwrap();
    let second = get_or_create_monthly_outcomes(2025, 4, &mut repo).unwrap();
    assert_eq!(first.len(), 2);
    let key = |o: &Outcome| (o.name.clone(), o.amount, o.date);
    let mut a: Vec<_> = first.iter().map(key).collect();
    let mut b: Vec<_> = second.iter().map(key).collect();
    a.sort_by(|x, y| x.2.day.cmp(&y.2.day));
    b.sort_by(|x, y| x.2.day.cmp(&y.2.day));
    assert_eq!(a, b);
    let stored = get_or_create_monthly_outcome(&{
        let (start, end) = get_opening_and_closing_date(2025, 4).unwrap();
        repo.list_monthly_outcome_template(&start, &end).unwrap().remove(0)
    }, 2025, 4, &mut repo).unwrap();
    assert!(stored.id.unwrap() <= 2);
}

#[test]
fn planned_incomes_of_all_sources() {
    let mut repo = get_part_time_job_repo();
    let id = repo.store_part_time_job(job(PaymentTiming::End, day(2025, 1, 1), None)).unwrap();
    repo.store_part_time_job_hourly_wage(id, whole(1000), (2025, 1)).unwrap();
    get_or_create_incomes(2025, 5, &mut repo).unwrap();
    let x = repo.get_part_time_job_income_by_id(1).unwrap().unwrap();
    repo.update_part_time_job_income(x.update(x.name.clone(), x.hourly_wage, whole(3), x.payment_date)).unwrap();
    let (start, end) = get_opening_and_closing_date(2025, 5).unwrap();
    let listed = household_finance::plan::income::get_incomes(vec![&repo, &repo], &start, &end).unwrap();
    assert_eq!(listed.len(), 2);
    assert_eq!(listed[0].amount, whole(3000));
    assert_eq!(listed[1].date, day(2025, 5, 31));
}

#[test]
fn editing_a_part_time_income_from_text() {
    let mut repo = get_part_time_job_repo();
    let id = repo.store_part_time_job(job(PaymentTiming::End, day(2025, 1, 1), None)).unwrap();
    let stored = repo.get_part_time_job_by_id(id).unwrap().unwrap();
    let x = get_or_create_income(&stored, 2025, 6, &mut repo).unwrap();
    let xid = x.id.unwrap();
    update_part_time_job_income(xid, "late shift".to_string(), "1250.5", "6", "2025-06-29", &mut repo).unwrap();
    let edited = repo.get_part_time_job_income_by_id(xid).unwrap().unwrap();
    assert_eq!(edited.name, "late shift");
    assert_eq!(edited.hour, whole(6));
    assert_eq!(edited.hourly_wage, parse_amount("1250.5").unwrap());
    assert_eq!(edited.payment_date, day(2025, 6, 29));
    assert_eq!(update_part_time_job_income(xid, "a".to_string(), "x", "6", "2025-06-29", &mut repo), Err(FinanceError::InvalidAmount));
    assert_eq!(update_part_time_job_income(xid, "a".to_string(), "1", "6", "2025-06-31", &mut repo), Err(FinanceError::InvalidDate));
    assert_eq!(update_part_time_job_income(99, "a".to_string(), "1", "6", "2025-06-29", &mut repo), Err(FinanceError::NotFound));
}

#[test]
fn plural_job_materialization_uses_the_wage_in_effect_once() {
    let mut repo = get_part_time_job_repo();
    let a = repo.store_part_time_job(job(PaymentTiming::NextMonthEnd, day(2025, 1, 1), None)).unwrap();
    let b = repo.store_part_time_job(job(PaymentTiming::Mid(10), day(2025, 1, 1), None)).unwrap();
    repo.store_part_time_job_hourly_wage(a, whole(1100), (2025, 1)).unwrap();
    repo.store_part_time_job_hourly_wage(a, whole(1300), (2025, 3)).unwrap();
    let first = get_or_create_incomes(2025, 4, &mut repo).unwrap();
    assert_eq!(first.len(), 2);
    let x = repo.get_part_time_job_income_by_part_time_job_id(a, 2025, 5).unwrap().unwrap();
    assert_eq!(x.hourly_wage, whole(1300));
    assert_eq!(x.payment_date, day(2025, 5, 31));
    let y = repo.get_part_time_job_income_by_part_time_job_id(b, 2025, 4).unwrap().unwrap();
    assert_eq!(y.hourly_wage, whole(0));
    let second = get_or_create_incomes(2025, 4, &mut repo).unwrap();
    assert_eq!(second.len(), 2);
    assert!(repo.get_part_time_job_income_by_id(3).unwrap().is_none());
}

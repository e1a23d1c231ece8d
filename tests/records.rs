use household_finance::api::detail::{delete_income_through, store_income_through, update_income_through};
use household_finance::amount::Amount;
use household_finance::api::detail::{
    create_adjustment, delete_income, delete_outcome, get_saving, store_income, store_outcome,
    update_income, update_outcome,
};
use household_finance::detail::adjustment::AdjustmentRepo;
use household_finance::detail::income::IncomeRepo;
use household_finance::detail::outcome::OutcomeRepo;
use household_finance::detail::repository::{
    get_adjustment_repo, get_income_repo, get_outcome_repo, get_saving_repo, DummySavingRepo,
};
use household_finance::detail::saving::{Saving, SavingRepo};
use household_finance::error::FinanceError;

fn current_year_month() -> (i32, u32) {
    let now = chrono::Local::now();
    (chrono::Datelike::year(&now), chrono::Datelike::month(&now))
}

fn whole(n: i64) -> Amount {
    Amount::from_whole(n)
}

fn this_month() -> (i32, u32, String) {
    let (y, m) = current_year_month();
    (y, m, format!("{:04}-{:02}-10", y, m))
}

fn units(repo: &DummySavingRepo, key: (i32, u32)) -> Option<Amount> {
    repo.get(&key).unwrap().map(|s| s.amount)
}

#[test]
fn storing_an_income_raises_the_ledger() {
    let (y, m, date) = this_month();
    let mut incomes = get_income_repo();
    let mut savings = get_saving_repo();
    savings.store(&(y, m), Saving::new((y, m), whole(1000))).unwrap();
    store_income("salary".to_string(), "250".to_string(), date, &mut incomes, &mut savings).unwrap();
    assert_eq!(units(&savings, (y, m)), Some(whole(1250)));
    let stored = incomes.get_by_id(1).unwrap().unwrap();
    assert_eq!(stored.name, "salary");
    assert_eq!(stored.amount, whole(250));
    assert_eq!(stored.date.day, 10);
}

#[test]
fn storing_an_outcome_lowers_the_ledger() {
    let (y, m, date) = this_month();
    let mut outcomes = get_outcome_repo();
    let mut savings = get_saving_repo();
    savings.store(&(y, m), Saving::new((y, m), whole(1000))).unwrap();
    store_outcome("rent".to_string(), "300".to_string(), date, &mut outcomes, &mut savings).unwrap();
    assert_eq!(units(&savings, (y, m)), Some(whole(700)));
}

#[test]
fn storing_with_bad_text_fails() {
    let (_, _, date) = this_month();
    let mut incomes = get_income_repo();
    let mut savings = get_saving_repo();
    assert_eq!(store_income("x".to_string(), "1".to_string(), "2025/01/01".to_string(), &mut incomes, &mut savings), Err(FinanceError::InvalidDate));
    assert_eq!(store_income("x".to_string(), "ten".to_string(), date, &mut incomes, &mut savings), Err(FinanceError::InvalidAmount));
    assert!(incomes.get_by_id(1).unwrap().is_none());
}

#[test]
fn updating_within_a_month_moves_the_ledger_by_the_difference() {
    let (y, m, date) = this_month();
    let mut incomes = get_income_repo();
    let mut savings = get_saving_repo();
    savings.store(&(y, m), Saving::new((y, m), whole(1000))).unwrap();
    store_income("salary".to_string(), "250".to_string(), date.clone(), &mut incomes, &mut savings).unwrap();
    update_income(1, "salary".to_string(), "200".to_string(), date, &mut incomes, &mut savings).unwrap();
    assert_eq!(units(&savings, (y, m)), Some(whole(1200)));
    assert_eq!(incomes.get_by_id(1).unwrap().unwrap().amount, whole(200));
}

#[test]
fn updating_across_months_moves_both_months() {
    let (y, m, date) = this_month();
    let (py, pm) = if m == 1 { (y - 1, 12) } else { (y, m - 1) };
    let previous_date = format!("{:04}-{:02}-05", py, pm);
    let mut outcomes = get_outcome_repo();
    let mut savings = get_saving_repo();
    savings.store(&(py, pm), Saving::new((py, pm), whole(500))).unwrap();
    savings.store(&(y, m), Saving::new((y, m), whole(500))).unwrap();
    store_outcome("bill".to_string(), "100".to_string(), previous_date, &mut outcomes, &mut savings).unwrap();
    assert_eq!(units(&savings, (py, pm)), Some(whole(400)));
    assert_eq!(units(&savings, (y, m)), Some(whole(400)));
    update_outcome(1, "bill".to_string(), "30".to_string(), date, &mut outcomes, &mut savings).unwrap();
    assert_eq!(units(&savings, (py, pm)), Some(whole(500)));
    assert_eq!(units(&savings, (y, m)), Some(whole(470)));
}

#[test]
fn updating_a_missing_record_changes_nothing() {
    let (y, m, date) = this_month();
    let mut incomes = get_income_repo();
    let mut savings = get_saving_repo();
    update_income(4, "x".to_string(), "1".to_string(), date, &mut incomes, &mut savings).unwrap();
    assert_eq!(units(&savings, (y, m)), None);
}

#[test]
fn deleting_takes_the_amount_back_out() {
    let (y, m, date) = this_month();
    let mut incomes = get_income_repo();
    let mut outcomes = get_outcome_repo();
    let mut savings = get_saving_repo();
    savings.store(&(y, m), Saving::new((y, m), whole(100))).unwrap();
    store_income("a".to_string(), "40".to_string(), date.clone(), &mut incomes, &mut savings).unwrap();
    store_outcome("b".to_string(), "15".to_string(), date, &mut outcomes, &mut savings).unwrap();
    assert_eq!(units(&savings, (y, m)), Some(whole(125)));
    delete_income(1, &mut incomes, &mut savings).unwrap();
    assert_eq!(units(&savings, (y, m)), Some(whole(85)));
    delete_outcome(1, &mut outcomes, &mut savings).unwrap();
    assert_eq!(units(&savings, (y, m)), Some(whole(100)));
    delete_outcome(1, &mut outcomes, &mut savings).unwrap();
    assert_eq!(units(&savings, (y, m)), Some(whole(100)));
}

#[test]
fn adjustment_from_text() {
    let (y, m, _) = this_month();
    let mut incomes = get_income_repo();
    let mut outcomes = get_outcome_repo();
    let mut savings = get_saving_repo();
    let mut adjustments = get_adjustment_repo();
    savings.store(&(y, m), Saving::new((y, m), whole(80))).unwrap();
    create_adjustment("100.25", y, m, &mut incomes, &mut outcomes, &mut savings, &mut adjustments).unwrap();
    assert_eq!(units(&savings, (y, m)), Some(Amount { units: 100_250_000_000_000 }));
    assert_eq!(adjustments.get(&(y, m)).unwrap().unwrap().amount, Amount { units: 20_250_000_000_000 });
    assert_eq!(
        create_adjustment("lots", y, m, &mut incomes, &mut outcomes, &mut savings, &mut adjustments),
        Err(FinanceError::InvalidAmount)
    );
}

#[test]
fn saving_of_a_month_without_entry_is_zero() {
    let mut savings = get_saving_repo();
    savings.store(&(2025, 2), Saving::new((2025, 2), whole(235000))).unwrap();
    assert_eq!(get_saving(2025, 2, &savings).amount, whole(235000));
    let missing = get_saving(2025, 3, &savings);
    assert_eq!(missing.key, (2025, 3));
    assert_eq!(missing.amount, whole(0));
}

#[test]
fn storing_through_a_given_month() {
    let mut incomes = get_income_repo();
    let mut savings = get_saving_repo();
    savings.store(&(2024, 12), Saving::new((2024, 12), whole(10))).unwrap();
    store_income_through("a".to_string(), "5".to_string(), "2025-01-20".to_string(), &mut incomes, &mut savings, (2025, 2)).unwrap();
    assert_eq!(units(&savings, (2025, 1)), Some(whole(15)));
    assert_eq!(units(&savings, (2025, 2)), Some(whole(20)));
    assert_eq!(units(&savings, (2025, 3)), None);
    update_income_through(1, "a".to_string(), "7".to_string(), "2025-02-02".to_string(), &mut incomes, &mut savings, (2025, 2)).unwrap();
    assert_eq!(units(&savings, (2025, 1)), Some(whole(10)));
    assert_eq!(units(&savings, (2025, 2)), Some(whole(22)));
    delete_income_through(1, &mut incomes, &mut savings, (2025, 2)).unwrap();
    assert_eq!(units(&savings, (2025, 2)), Some(whole(15)));
    assert_eq!(
        update_income_through(1, "a".to_string(), "7".to_string(), "2025-02-02".to_string(), &mut incomes, &mut savings, (2025, 2)),
        Ok(())
    );
    assert_eq!(units(&savings, (2025, 2)), Some(whole(15)));
}

#[test]
fn saving_of_an_invalid_month_is_zero() {
    let savings = get_saving_repo();
    let s = get_saving(2025, 13, &savings);
    assert_eq!(s.key, (2025, 13));
    assert_eq!(s.amount, whole(0));
}

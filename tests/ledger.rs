use household_finance::amount::{parse_amount, Amount};
use household_finance::detail::adjustment::{create_adjustment_through, AdjustmentKind, AdjustmentRepo};
use household_finance::detail::income::{Income, IncomeRepo};
use household_finance::detail::outcome::{Outcome, OutcomeRepo};
use household_finance::detail::repository::{
    get_adjustment_repo, get_income_repo, get_outcome_repo, get_saving_repo, DummyIncomeRepo,
    DummySavingRepo,
};
use household_finance::detail::saving::{update_saving, update_saving_through, Saving, SavingRepo};
use household_finance::error::FinanceError;
use household_finance::util::DateTime;

fn current_year_month() -> (i32, u32) {
    let now = chrono::Local::now();
    (chrono::Datelike::year(&now), chrono::Datelike::month(&now))
}

fn whole(n: i64) -> Amount {
    Amount::from_whole(n)
}

fn balance(repo: &DummySavingRepo, key: (i32, u32)) -> Option<i64> {
    repo.get(&key).unwrap().map(|s| (s.amount.units / 1_000_000_000_000) as i64)
}

fn seeded(entries: &[((i32, u32), i64)]) -> DummySavingRepo {
    let mut repo = DummySavingRepo::new();
    for (key, amount) in entries {
        repo.store(key, Saving::new(*key, whole(*amount))).unwrap();
    }
    repo
}

#[test]
fn ledger_updates_existing_months_through_until() {
    let mut repo = seeded(&[((2025, 1), 100000), ((2025, 2), 235000)]);
    update_saving_through((2025, 1), whole(10), (2025, 2), &mut repo).unwrap();
    assert_eq!(balance(&repo, (2025, 1)), Some(100010));
    assert_eq!(balance(&repo, (2025, 2)), Some(235010));
    assert_eq!(balance(&repo, (2025, 3)), None);
}

#[test]
fn ledger_fills_missing_months_from_the_month_before() {
    let mut repo = get_saving_repo();
    update_saving_through((2025, 1), whole(100), (2025, 3), &mut repo).unwrap();
    assert_eq!(balance(&repo, (2025, 1)), Some(100));
    assert_eq!(balance(&repo, (2025, 2)), Some(200));
    assert_eq!(balance(&repo, (2025, 3)), Some(300));
}

#[test]
fn ledger_january_starts_from_december_of_the_year_before() {
    let mut repo = seeded(&[((2024, 12), 50)]);
    update_saving_through((2025, 1), whole(10), (2025, 1), &mut repo).unwrap();
    assert_eq!(balance(&repo, (2025, 1)), Some(60));
    assert_eq!(balance(&repo, (2024, 12)), Some(50));
}

#[test]
fn ledger_prefix_sums_without_gaps() {
    let mut repo = seeded(&[((2025, 1), 0), ((2025, 2), 0), ((2025, 3), 0), ((2025, 4), 0)]);
    update_saving_through((2025, 1), whole(5), (2025, 4), &mut repo).unwrap();
    update_saving_through((2025, 2), whole(7), (2025, 4), &mut repo).unwrap();
    update_saving_through((2025, 4), whole(-3), (2025, 4), &mut repo).unwrap();
    assert_eq!(balance(&repo, (2025, 1)), Some(5));
    assert_eq!(balance(&repo, (2025, 2)), Some(12));
    assert_eq!(balance(&repo, (2025, 3)), Some(12));
    assert_eq!(balance(&repo, (2025, 4)), Some(9));
}

#[test]
fn ledger_month_after_until_is_left_alone() {
    let mut repo = seeded(&[((2025, 5), 1)]);
    update_saving_through((2025, 6), whole(4), (2025, 5), &mut repo).unwrap();
    assert_eq!(balance(&repo, (2025, 5)), Some(1));
    assert_eq!(balance(&repo, (2025, 6)), None);
}

#[test]
fn ledger_overflow_is_reported() {
    let mut repo = get_saving_repo();
    repo.store(&(2025, 1), Saving::new((2025, 1), Amount { units: i128::MAX })).unwrap();
    let r = update_saving_through((2025, 1), Amount { units: 1 }, (2025, 1), &mut repo);
    assert_eq!(r, Err(FinanceError::Overflow));
}

#[test]
fn ledger_update_reaches_the_current_month() {
    let today = current_year_month();
    assert!(today.1 >= 1 && today.1 <= 12);
    let mut repo = get_saving_repo();
    update_saving(today, whole(42), &mut repo).unwrap();
    assert_eq!(balance(&repo, today), Some(42));
}

fn adjustment_stores() -> (
    household_finance::detail::repository::DummyIncomeRepo,
    household_finance::detail::repository::DummyOutcomeRepo,
    household_finance::detail::repository::DummyAdjustmentRepo,
) {
    (get_income_repo(), get_outcome_repo(), get_adjustment_repo())
}

#[test]
fn adjustment_round_trip() {
    let (mut incomes, mut outcomes, mut adjustments) = adjustment_stores();
    let mut savings = seeded(&[((2025, 3), 40)]);
    create_adjustment_through(whole(100), 2025, 3, &mut incomes, &mut outcomes, &mut savings, &mut adjustments, (2025, 4)).unwrap();
    assert_eq!(balance(&savings, (2025, 3)), Some(100));
    assert_eq!(balance(&savings, (2025, 4)), Some(160));
    let adjustment = adjustments.get(&(2025, 3)).unwrap().unwrap();
    assert_eq!(adjustment.amount, whole(60));
    assert_eq!(adjustment.date, DateTime { year: 2025, month: 3, day: 31, second: 86399 });
    let id = match adjustment.kind {
        AdjustmentKind::Income(id) => id,
        AdjustmentKind::Outcome(_) => panic!("expected a synthetic income"),
    };
    let record = incomes.get_by_id(id).unwrap().unwrap();
    assert_eq!(record.name, "adjustment");
    assert_eq!(record.amount, whole(60));

    create_adjustment_through(whole(100), 2025, 3, &mut incomes, &mut outcomes, &mut savings, &mut adjustments, (2025, 4)).unwrap();
    assert_eq!(balance(&savings, (2025, 3)), Some(100));
    assert_eq!(balance(&savings, (2025, 4)), Some(160));
    assert!(adjustments.get(&(2025, 3)).unwrap().is_none());
    assert!(incomes.get_by_id(id).unwrap().is_none());
    let march = incomes
        .list(&DateTime { year: 2025, month: 3, day: 1, second: 0 }, &DateTime { year: 2025, month: 3, day: 31, second: 86399 })
        .unwrap();
    assert!(march.is_empty());
}

#[test]
fn adjustment_replacement() {
    let (mut incomes, mut outcomes, mut adjustments) = adjustment_stores();
    let mut savings = seeded(&[((2025, 3), 0)]);
    create_adjustment_through(whole(100), 2025, 3, &mut incomes, &mut outcomes, &mut savings, &mut adjustments, (2025, 3)).unwrap();
    create_adjustment_through(whole(50), 2025, 3, &mut incomes, &mut outcomes, &mut savings, &mut adjustments, (2025, 3)).unwrap();
    assert_eq!(balance(&savings, (2025, 3)), Some(50));
    let adjustment = adjustments.get(&(2025, 3)).unwrap().unwrap();
    assert_eq!(adjustment.amount, whole(50));
    let id = match adjustment.kind {
        AdjustmentKind::Outcome(id) => id,
        AdjustmentKind::Income(_) => panic!("expected a synthetic outcome"),
    };
    let record = outcomes.get_by_id(id).unwrap().unwrap();
    assert_eq!(record.amount, whole(50));
    assert_eq!(record.date, adjustment.date);
    let start = DateTime { year: 2025, month: 3, day: 1, second: 0 };
    let end = DateTime { year: 2025, month: 3, day: 31, second: 86399 };
    assert_eq!(incomes.list(&start, &end).unwrap().len(), 0);
    assert_eq!(outcomes.list(&start, &end).unwrap().len(), 1);
}

#[test]
fn adjustment_of_a_month_without_entry_starts_from_the_month_before() {
    let (mut incomes, mut outcomes, mut adjustments) = adjustment_stores();
    let mut savings = seeded(&[((2025, 1), 100)]);
    create_adjustment_through(whole(50), 2025, 2, &mut incomes, &mut outcomes, &mut savings, &mut adjustments, (2025, 2)).unwrap();
    assert_eq!(balance(&savings, (2025, 2)), Some(150));
}

#[test]
fn adjustment_of_an_invalid_month() {
    let (mut incomes, mut outcomes, mut adjustments) = adjustment_stores();
    let mut savings = get_saving_repo();
    let r = create_adjustment_through(whole(50), 2025, 13, &mut incomes, &mut outcomes, &mut savings, &mut adjustments, (2025, 2));
    assert_eq!(r, Err(FinanceError::InvalidDate));
}

#[test]
fn income_from_text() {
    let income = Income::try_new("Salary".to_string(), "1500.5".to_string(), 2025, 4, 30).unwrap();
    assert_eq!(income.amount, Amount { units: 1_500_500_000_000_000 });
    assert_eq!(income.date, DateTime { year: 2025, month: 4, day: 30, second: 0 });
    assert_eq!(income.id, None);
    let updated = Income::try_update(7, "Salary".to_string(), "10".to_string(), 2024, 2, 29).unwrap();
    assert_eq!(updated.id, Some(7));
    assert!(matches!(Income::try_new("x".to_string(), "abc".to_string(), 2025, 4, 1), Err(FinanceError::InvalidAmount)));
    assert!(matches!(Income::try_new("x".to_string(), "1".to_string(), 2025, 4, 31), Err(FinanceError::InvalidDate)));
    assert!(matches!(Outcome::try_new("x".to_string(), "1".to_string(), 2023, 2, 29), Err(FinanceError::InvalidDate)));
}

#[test]
fn income_store_update_delete() {
    let mut repo: DummyIncomeRepo = DummyIncomeRepo::new();
    let date = DateTime { year: 2025, month: 1, day: 10, second: 0 };
    let id = repo.store(Income::new("a".to_string(), whole(5), date)).unwrap();
    assert_eq!(id, 1);
    let mut stored = repo.get_by_id(id).unwrap().unwrap();
    stored.amount = whole(6);
    repo.update(stored).unwrap();
    assert_eq!(repo.get_by_id(id).unwrap().unwrap().amount, whole(6));
    repo.delete_by_id(id).unwrap();
    assert!(repo.get_by_id(id).unwrap().is_none());
    assert_eq!(repo.store(Income::new("b".to_string(), whole(1), date)).unwrap(), 2);
    let missing = Income { id: Some(9), name: "c".to_string(), amount: whole(1), date };
    assert_eq!(repo.update(missing), Err(FinanceError::NotFound));
}

#[test]
fn amounts_from_text() {
    assert_eq!(parse_amount("1500.5"), Some(Amount { units: 1_500_500_000_000_000 }));
    assert_eq!(parse_amount("-3"), Some(Amount { units: -3_000_000_000_000 }));
    assert_eq!(parse_amount("0.000000000001"), Some(Amount { units: 1 }));
    assert_eq!(parse_amount("0.00000001"), Some(Amount { units: 10_000 }));
    assert_eq!(parse_amount("0.0000000000001"), None);
    assert_eq!(parse_amount("1.50000000000000"), Some(Amount { units: 1_500_000_000_000 }));
    assert_eq!(parse_amount("abc"), None);
}

#[test]
fn amount_arithmetic() {
    assert_eq!(whole(2).checked_add(whole(3)), Some(whole(5)));
    assert_eq!(whole(2).checked_sub(whole(3)), Some(whole(-1)));
    assert_eq!(whole(2).checked_neg(), Some(whole(-2)));
    assert_eq!(Amount { units: i128::MIN }.checked_neg(), None);
    assert_eq!(Amount { units: i128::MAX }.checked_add(Amount { units: 1 }), None);
    assert_eq!(parse_amount("1500").unwrap().checked_mul(parse_amount("7.5").unwrap()), Some(whole(11250)));
    assert_eq!(Amount { units: 1 }.checked_mul(Amount { units: 1 }), None);
}

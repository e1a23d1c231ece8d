use vstd::prelude::*;

use crate::amount::Amount;
use crate::detail::saving::SavingRepo;
use crate::error::FinanceError;
use crate::plan::income::Income;
use crate::plan::outcome::Outcome;
use crate::util::{get_next_ym, month_index, valid_ym, ym_not_after, DateTime, YearMonth, MAX_YEAR};

verus! {

/// The running balance after a date: a surplus of at least zero, or a
/// deficit given as a positive amount.
#[derive(Clone, Copy, Debug, PartialEq, Eq, Structural)]
pub enum BalanceStatus {
    Deficit(Amount),
    Surplus(Amount),
}

/// One date of the projection: the running balance after it, and the
/// incomes and outcomes dated then.
#[derive(Debug)]
pub struct InspectResult {
    pub date: DateTime,
    pub balance_status: BalanceStatus,
    pub incomes: Vec<Income>,
    pub outcomes: Vec<Outcome>,
}

/// The incomes and outcomes of one date, with their totals.
#[derive(Debug)]
pub struct DailyBalance {
    pub date: DateTime,
    pub total_income: Amount,
    pub total_outcome: Amount,
    pub incomes: Vec<Income>,
    pub outcomes: Vec<Outcome>,
}

/// The incomes of `s` dated `d`, in order.
pub open spec fn incomes_on(s: Seq<Income>, d: DateTime) -> Seq<Income>
    decreases s.len(),
{
    if s.len() == 0 {
        Seq::empty()
    } else if s.last().date == d {
        incomes_on(s.drop_last(), d).push(s.last())
    } else {
        incomes_on(s.drop_last(), d)
    }
}

/// The outcomes of `s` dated `d`, in order.
pub open spec fn outcomes_on(s: Seq<Outcome>, d: DateTime) -> Seq<Outcome>
    decreases s.len(),
{
    if s.len() == 0 {
        Seq::empty()
    } else if s.last().date == d {
        outcomes_on(s.drop_last(), d).push(s.last())
    } else {
        outcomes_on(s.drop_last(), d)
    }
}

/// The total of the incomes of `s` dated `d`, in amount units.
pub open spec fn income_total_on(s: Seq<Income>, d: DateTime) -> int
    decreases s.len(),
{
    if s.len() == 0 {
        0
    } else {
        income_total_on(s.drop_last(), d) + if s.last().date == d {
            s.last().amount.units as int
        } else {
            0
        }
    }
}

/// The total of the outcomes of `s` dated `d`, in amount units.
pub open spec fn outcome_total_on(s: Seq<Outcome>, d: DateTime) -> int
    decreases s.len(),
{
    if s.len() == 0 {
        0
    } else {
        outcome_total_on(s.drop_last(), d) + if s.last().date == d {
            s.last().amount.units as int
        } else {
            0
        }
    }
}

/// `days` holds one entry per date of the records, in strictly increasing
/// order of date, each with the records of its date in their order and their
/// totals.
pub open spec fn groups_records(days: Seq<DailyBalance>, incomes: Seq<Income>, outcomes: Seq<Outcome>) -> bool {
    &&& forall|a: int, b: int| 0 <= a < b < days.len() ==> (#[trigger] days[a]).date.lt((#[trigger] days[b]).date)
    &&& forall|k: int|
        0 <= k < days.len() ==> {
            &&& (#[trigger] days[k]).incomes@ == incomes_on(incomes, days[k].date)
            &&& days[k].outcomes@ == outcomes_on(outcomes, days[k].date)
            &&& days[k].total_income.units == income_total_on(incomes, days[k].date)
            &&& days[k].total_outcome.units == outcome_total_on(outcomes, days[k].date)
            &&& (exists|j: int| 0 <= j < incomes.len() && #[trigger] incomes[j].date == days[k].date)
                || (exists|j: int| 0 <= j < outcomes.len() && #[trigger] outcomes[j].date == days[k].date)
        }
    &&& forall|j: int| 0 <= j < incomes.len() ==> exists|k: int| 0 <= k < days.len() && (#[trigger] days[k]).date == (#[trigger] incomes[j]).date
    &&& forall|j: int| 0 <= j < outcomes.len() ==> exists|k: int| 0 <= k < days.len() && (#[trigger] days[k]).date == (#[trigger] outcomes[j]).date
}

proof fn lemma_no_incomes_on(s: Seq<Income>, d: DateTime)
    requires
        forall|j: int| 0 <= j < s.len() ==> (#[trigger] s[j]).date != d,
    ensures
        incomes_on(s, d) == Seq::<Income>::empty(),
        income_total_on(s, d) == 0,
    decreases s.len(),
{
    if s.len() > 0 {
        assert(s.last() == s[s.len() - 1]);
        lemma_no_incomes_on(s.drop_last(), d);
    }
}

proof fn lemma_no_outcomes_on(s: Seq<Outcome>, d: DateTime)
    requires
        forall|j: int| 0 <= j < s.len() ==> (#[trigger] s[j]).date != d,
    ensures
        outcomes_on(s, d) == Seq::<Outcome>::empty(),
        outcome_total_on(s, d) == 0,
    decreases s.len(),
{
    if s.len() > 0 {
        assert(s.last() == s[s.len() - 1]);
        lemma_no_outcomes_on(s.drop_last(), d);
    }
}

/// Where date `date` stands among the strictly increasing dates of `days`:
/// the index of the entry of that date, or of the first later entry.
fn find_day(days: &Vec<DailyBalance>, date: &DateTime) -> (r: (usize, bool))
    requires
        forall|a: int, b: int| 0 <= a < b < days.len() ==> (#[trigger] days@[a]).date.lt((#[trigger] days@[b]).date),
    ensures
        r.0 <= days.len(),
        r.1 ==> r.0 < days.len() && days@[r.0 as int].date == *date,
        !r.1 ==> forall|k: int| 0 <= k < days.len() ==> (#[trigger] days@[k]).date != *date,
        forall|k: int| 0 <= k < r.0 ==> (#[trigger] days@[k]).date.lt(*date),
        !r.1 ==> forall|k: int| r.0 <= k < days.len() ==> date.lt((#[trigger] days@[k]).date),
{
    let mut j: usize = 0;
    while j < days.len() && days[j].date.is_before(date)
        invariant
            j <= days.len(),
            forall|k: int| 0 <= k < j ==> (#[trigger] days@[k]).date.lt(*date),
        decreases days.len() - j,
    {
        j = j + 1;
    }
    if j < days.len() && days[j].date == *date {
        (j, true)
    } else {
        proof {
            assert forall|k: int| j <= k < days.len() implies date.lt((#[trigger] days@[k]).date) by {
                if k > j {
                    assert(days@[j as int].date.lt(days@[k].date));
                }
            }
        }
        (j, false)
    }
}

proof fn lemma_add_income_existing(
    before: Seq<DailyBalance>,
    after: Seq<DailyBalance>,
    j: int,
    incs: Seq<Income>,
    outs: Seq<Outcome>,
    x: Income,
)
    requires
        groups_records(before, incs, outs),
        0 <= j < before.len(),
        before[j].date == x.date,
        after.len() == before.len(),
        forall|k: int| 0 <= k < after.len() && k != j ==> after[k] == before[k],
        after[j].date == before[j].date,
        after[j].incomes@ == before[j].incomes@.push(x),
        after[j].outcomes@ == before[j].outcomes@,
        after[j].total_income.units == before[j].total_income.units + x.amount.units,
        after[j].total_outcome == before[j].total_outcome,
    ensures
        groups_records(after, incs.push(x), outs),
{
    let now = incs.push(x);
    assert(now.drop_last() =~= incs);
    assert forall|k: int| 0 <= k < before.len() && k != j implies (#[trigger] before[k]).date != x.date by {
        if k < j {
            assert(before[k].date.lt(before[j].date));
        } else {
            assert(before[j].date.lt(before[k].date));
        }
    }
    assert forall|a: int, b: int| 0 <= a < b < after.len() implies (#[trigger] after[a]).date.lt(
        (#[trigger] after[b]).date,
    ) by {
        assert(before[a].date.lt(before[b].date));
    }
    assert forall|k: int| #![trigger after[k]] 0 <= k < after.len() implies {
        &&& after[k].incomes@ == incomes_on(incs.push(x), after[k].date)
        &&& after[k].outcomes@ == outcomes_on(outs, after[k].date)
        &&& after[k].total_income.units == income_total_on(incs.push(x), after[k].date)
        &&& after[k].total_outcome.units == outcome_total_on(outs, after[k].date)
        &&& (exists|jj: int| 0 <= jj < incs.push(x).len() && #[trigger] incs.push(x)[jj].date == after[k].date)
            || (exists|jj: int| 0 <= jj < outs.len() && #[trigger] outs[jj].date == after[k].date)
    } by {
        assert(before[k] == before[k]);
        if (exists|jj: int| 0 <= jj < incs.len() && #[trigger] incs[jj].date == before[k].date) {
            let jj = choose|jj: int| 0 <= jj < incs.len() && #[trigger] incs[jj].date == before[k].date;
            assert(now[jj] == incs[jj]);
        }
    }
    assert forall|jj: int| 0 <= jj < now.len() implies exists|k: int|
        0 <= k < after.len() && (#[trigger] after[k]).date == (#[trigger] now[jj]).date by {
        if jj < incs.len() {
            assert(now[jj] == incs[jj]);
            let k = choose|k: int| 0 <= k < before.len() && (#[trigger] before[k]).date == incs[jj].date;
            assert(after[k].date == before[k].date);
        } else {
            assert(after[j].date == now[jj].date);
        }
    }
    assert forall|jj: int| 0 <= jj < outs.len() implies exists|k: int|
        0 <= k < after.len() && (#[trigger] after[k]).date == (#[trigger] outs[jj]).date by {
        let k = choose|k: int| 0 <= k < before.len() && (#[trigger] before[k]).date == outs[jj].date;
        assert(after[k].date == before[k].date);
    }
}

proof fn lemma_add_income_new(
    before: Seq<DailyBalance>,
    after: Seq<DailyBalance>,
    j: int,
    incs: Seq<Income>,
    outs: Seq<Outcome>,
    x: Income,
)
    requires
        groups_records(before, incs, outs),
        0 <= j <= before.len(),
        forall|k: int| 0 <= k < j ==> (#[trigger] before[k]).date.lt(x.date),
        forall|k: int| j <= k < before.len() ==> x.date.lt((#[trigger] before[k]).date),
        after.len() == before.len() + 1,
        forall|k: int| 0 <= k < j ==> after[k] == before[k],
        forall|k: int| j < k < after.len() ==> after[k] == before[k - 1],
        after[j].date == x.date,
        after[j].incomes@ == seq![x],
        after[j].outcomes@ == Seq::<Outcome>::empty(),
        after[j].total_income.units == x.amount.units,
        after[j].total_outcome.units == 0,
    ensures
        groups_records(after, incs.push(x), outs),
{
    let now = incs.push(x);
    assert(now.drop_last() =~= incs);
    assert forall|k: int| 0 <= k < before.len() implies (#[trigger] before[k]).date != x.date by {
        if k < j {
        } else {
        }
    }
    assert forall|jj: int| 0 <= jj < incs.len() implies (#[trigger] incs[jj]).date != x.date by {
        let k = choose|k: int| 0 <= k < before.len() && (#[trigger] before[k]).date == incs[jj].date;
    }
    assert forall|jj: int| 0 <= jj < outs.len() implies (#[trigger] outs[jj]).date != x.date by {
        let k = choose|k: int| 0 <= k < before.len() && (#[trigger] before[k]).date == outs[jj].date;
    }
    lemma_no_incomes_on(incs, x.date);
    lemma_no_outcomes_on(outs, x.date);
    assert forall|a: int, b: int| 0 <= a < b < after.len() implies (#[trigger] after[a]).date.lt(
        (#[trigger] after[b]).date,
    ) by {
        if b < j {
            assert(before[a].date.lt(before[b].date));
        } else if a > j {
            assert(before[a - 1].date.lt(before[b - 1].date));
        } else if a == j {
            assert(x.date.lt(before[b - 1].date));
        } else if b == j {
            assert(before[a].date.lt(x.date));
        } else {
            assert(before[a].date.lt(x.date));
            assert(x.date.lt(before[b - 1].date));
        }
    }
    assert forall|k: int| #![trigger after[k]] 0 <= k < after.len() implies {
        &&& after[k].incomes@ == incomes_on(incs.push(x), after[k].date)
        &&& after[k].outcomes@ == outcomes_on(outs, after[k].date)
        &&& after[k].total_income.units == income_total_on(incs.push(x), after[k].date)
        &&& after[k].total_outcome.units == outcome_total_on(outs, after[k].date)
        &&& (exists|jj: int| 0 <= jj < incs.push(x).len() && #[trigger] incs.push(x)[jj].date == after[k].date)
            || (exists|jj: int| 0 <= jj < outs.len() && #[trigger] outs[jj].date == after[k].date)
    } by {
        if k == j {
            assert(after[k].incomes@ =~= incomes_on(now, x.date));
            assert(now[now.len() - 1].date == after[k].date);
        } else {
            let bk = if k < j { k } else { k - 1 };
            assert(after[k] == before[bk]);
            assert(before[bk].date != x.date);
            if (exists|jj: int| 0 <= jj < incs.len() && #[trigger] incs[jj].date == before[bk].date) {
                let jj = choose|jj: int| 0 <= jj < incs.len() && #[trigger] incs[jj].date == before[bk].date;
                assert(now[jj] == incs[jj]);
            }
        }
    }
    assert forall|jj: int| 0 <= jj < now.len() implies exists|k: int|
        0 <= k < after.len() && (#[trigger] after[k]).date == (#[trigger] now[jj]).date by {
        if jj < incs.len() {
            assert(now[jj] == incs[jj]);
            let k = choose|k: int| 0 <= k < before.len() && (#[trigger] before[k]).date == incs[jj].date;
            if k < j {
                assert(after[k] == before[k]);
            } else {
                assert(after[k + 1] == before[k]);
            }
        } else {
            assert(after[j].date == now[jj].date);
        }
    }
    assert forall|jj: int| 0 <= jj < outs.len() implies exists|k: int|
        0 <= k < after.len() && (#[trigger] after[k]).date == (#[trigger] outs[jj]).date by {
        let k = choose|k: int| 0 <= k < before.len() && (#[trigger] before[k]).date == outs[jj].date;
        if k < j {
            assert(after[k] == before[k]);
        } else {
            assert(after[k + 1] == before[k]);
        }
    }
}

fn add_income(days: &mut Vec<DailyBalance>, x: Income, incs: Ghost<Seq<Income>>, outs: Ghost<Seq<Outcome>>) -> (r: Result<(), FinanceError>)
    requires
        groups_records(old(days)@, incs@, outs@),
    ensures
        match r {
            Ok(()) => groups_records(final(days)@, incs@.push(x), outs@),
            Err(e) => e == FinanceError::Overflow && !crate::amount::fits(
                income_total_on(incs@.push(x), x.date),
            ),
        },
{
    let ghost before = days@;
    let (j, found) = find_day(days, &x.date);
    if found {
        let mut day = days.remove(j);
        let total = match day.total_income.checked_add(x.amount) {
            Some(t) => t,
            None => {
                proof {
                    let pushed = incs@.push(x);
                    assert(pushed.drop_last() =~= incs@);
                    assert(before[j as int].total_income.units == income_total_on(incs@, x.date));
                }
                return Err(FinanceError::Overflow);
            },
        };
        day.total_income = total;
        let ghost xv = x;
        day.incomes.push(x);
        days.insert(j, day);
        proof {
            lemma_add_income_existing(before, days@, j as int, incs@, outs@, xv);
        }
    } else {
        let amount = x.amount;
        let date = x.date;
        let ghost xv = x;
        let mut list: Vec<Income> = Vec::new();
        list.push(x);
        let day = DailyBalance {
            date,
            total_income: amount,
            total_outcome: Amount::zero(),
            incomes: list,
            outcomes: Vec::new(),
        };
        days.insert(j, day);
        proof {
            assert(days@[j as int].incomes@ =~= seq![xv]);
            lemma_add_income_new(before, days@, j as int, incs@, outs@, xv);
        }
    }
    Ok(())
}

proof fn lemma_add_outcome_existing(
    before: Seq<DailyBalance>,
    after: Seq<DailyBalance>,
    j: int,
    incs: Seq<Income>,
    outs: Seq<Outcome>,
    x: Outcome,
)
    requires
        groups_records(before, incs, outs),
        0 <= j < before.len(),
        before[j].date == x.date,
        after.len() == before.len(),
        forall|k: int| 0 <= k < after.len() && k != j ==> after[k] == before[k],
        after[j].date == before[j].date,
        after[j].outcomes@ == before[j].outcomes@.push(x),
        after[j].incomes@ == before[j].incomes@,
        after[j].total_outcome.units == before[j].total_outcome.units + x.amount.units,
        after[j].total_income == before[j].total_income,
    ensures
        groups_records(after, incs, outs.push(x)),
{
    let now = outs.push(x);
    assert(now.drop_last() =~= outs);
    assert forall|k: int| 0 <= k < before.len() && k != j implies (#[trigger] before[k]).date != x.date by {
        if k < j {
            assert(before[k].date.lt(before[j].date));
        } else {
            assert(before[j].date.lt(before[k].date));
        }
    }
    assert forall|a: int, b: int| 0 <= a < b < after.len() implies (#[trigger] after[a]).date.lt(
        (#[trigger] after[b]).date,
    ) by {
        assert(before[a].date.lt(before[b].date));
    }
    assert forall|k: int| #![trigger after[k]] 0 <= k < after.len() implies {
        &&& after[k].incomes@ == incomes_on(incs, after[k].date)
        &&& after[k].outcomes@ == outcomes_on(outs.push(x), after[k].date)
        &&& after[k].total_income.units == income_total_on(incs, after[k].date)
        &&& after[k].total_outcome.units == outcome_total_on(outs.push(x), after[k].date)
        &&& (exists|jj: int| 0 <= jj < incs.len() && #[trigger] incs[jj].date == after[k].date)
            || (exists|jj: int| 0 <= jj < outs.push(x).len() && #[trigger] outs.push(x)[jj].date == after[k].date)
    } by {
        assert(before[k] == before[k]);
        if (exists|jj: int| 0 <= jj < outs.len() && #[trigger] outs[jj].date == before[k].date) {
            let jj = choose|jj: int| 0 <= jj < outs.len() && #[trigger] outs[jj].date == before[k].date;
            assert(now[jj] == outs[jj]);
        }
    }
    assert forall|jj: int| 0 <= jj < now.len() implies exists|k: int|
        0 <= k < after.len() && (#[trigger] after[k]).date == (#[trigger] now[jj]).date by {
        if jj < outs.len() {
            assert(now[jj] == outs[jj]);
            let k = choose|k: int| 0 <= k < before.len() && (#[trigger] before[k]).date == outs[jj].date;
            assert(after[k].date == before[k].date);
        } else {
            assert(after[j].date == now[jj].date);
        }
    }
    assert forall|jj: int| 0 <= jj < incs.len() implies exists|k: int|
        0 <= k < after.len() && (#[trigger] after[k]).date == (#[trigger] incs[jj]).date by {
        let k = choose|k: int| 0 <= k < before.len() && (#[trigger] before[k]).date == incs[jj].date;
        assert(after[k].date == before[k].date);
    }
}

proof fn lemma_add_outcome_new(
    before: Seq<DailyBalance>,
    after: Seq<DailyBalance>,
    j: int,
    incs: Seq<Income>,
    outs: Seq<Outcome>,
    x: Outcome,
)
    requires
        groups_records(before, incs, outs),
        0 <= j <= before.len(),
        forall|k: int| 0 <= k < j ==> (#[trigger] before[k]).date.lt(x.date),
        forall|k: int| j <= k < before.len() ==> x.date.lt((#[trigger] before[k]).date),
        after.len() == before.len() + 1,
        forall|k: int| 0 <= k < j ==> after[k] == before[k],
        forall|k: int| j < k < after.len() ==> after[k] == before[k - 1],
        after[j].date == x.date,
        after[j].outcomes@ == seq![x],
        after[j].incomes@ == Seq::<Income>::empty(),
        after[j].total_outcome.units == x.amount.units,
        after[j].total_income.units == 0,
    ensures
        groups_records(after, incs, outs.push(x)),
{
    let now = outs.push(x);
    assert(now.drop_last() =~= outs);
    assert forall|k: int| 0 <= k < before.len() implies (#[trigger] before[k]).date != x.date by {
        if k < j {
        } else {
        }
    }
    assert forall|jj: int| 0 <= jj < outs.len() implies (#[trigger] outs[jj]).date != x.date by {
        let k = choose|k: int| 0 <= k < before.len() && (#[trigger] before[k]).date == outs[jj].date;
    }
    assert forall|jj: int| 0 <= jj < incs.len() implies (#[trigger] incs[jj]).date != x.date by {
        let k = choose|k: int| 0 <= k < before.len() && (#[trigger] before[k]).date == incs[jj].date;
    }
    lemma_no_incomes_on(incs, x.date);
    lemma_no_outcomes_on(outs, x.date);
    assert forall|a: int, b: int| 0 <= a < b < after.len() implies (#[trigger] after[a]).date.lt(
        (#[trigger] after[b]).date,
    ) by {
        if b < j {
            assert(before[a].date.lt(before[b].date));
        } else if a > j {
            assert(before[a - 1].date.lt(before[b - 1].date));
        } else if a == j {
            assert(x.date.lt(before[b - 1].date));
        } else if b == j {
            assert(before[a].date.lt(x.date));
        } else {
            assert(before[a].date.lt(x.date));
            assert(x.date.lt(before[b - 1].date));
        }
    }
    assert forall|k: int| #![trigger after[k]] 0 <= k < after.len() implies {
        &&& after[k].incomes@ == incomes_on(incs, after[k].date)
        &&& after[k].outcomes@ == outcomes_on(outs.push(x), after[k].date)
        &&& after[k].total_income.units == income_total_on(incs, after[k].date)
        &&& after[k].total_outcome.units == outcome_total_on(outs.push(x), after[k].date)
        &&& (exists|jj: int| 0 <= jj < incs.len() && #[trigger] incs[jj].date == after[k].date)
            || (exists|jj: int| 0 <= jj < outs.push(x).len() && #[trigger] outs.push(x)[jj].date == after[k].date)
    } by {
        if k == j {
            assert(after[k].outcomes@ =~= outcomes_on(now, x.date));
            assert(now[now.len() - 1].date == after[k].date);
        } else {
            let bk = if k < j { k } else { k - 1 };
            assert(after[k] == before[bk]);
            assert(before[bk].date != x.date);
            if (exists|jj: int| 0 <= jj < outs.len() && #[trigger] outs[jj].date == before[bk].date) {
                let jj = choose|jj: int| 0 <= jj < outs.len() && #[trigger] outs[jj].date == before[bk].date;
                assert(now[jj] == outs[jj]);
            }
        }
    }
    assert forall|jj: int| 0 <= jj < now.len() implies exists|k: int|
        0 <= k < after.len() && (#[trigger] after[k]).date == (#[trigger] now[jj]).date by {
        if jj < outs.len() {
            assert(now[jj] == outs[jj]);
            let k = choose|k: int| 0 <= k < before.len() && (#[trigger] before[k]).date == outs[jj].date;
            if k < j {
                assert(after[k] == before[k]);
            } else {
                assert(after[k + 1] == before[k]);
            }
        } else {
            assert(after[j].date == now[jj].date);
        }
    }
    assert forall|jj: int| 0 <= jj < incs.len() implies exists|k: int|
        0 <= k < after.len() && (#[trigger] after[k]).date == (#[trigger] incs[jj]).date by {
        let k = choose|k: int| 0 <= k < before.len() && (#[trigger] before[k]).date == incs[jj].date;
        if k < j {
            assert(after[k] == before[k]);
        } else {
            assert(after[k + 1] == before[k]);
        }
    }
}

fn add_outcome(days: &mut Vec<DailyBalance>, x: Outcome, incs: Ghost<Seq<Income>>, outs: Ghost<Seq<Outcome>>) -> (r: Result<(), FinanceError>)
    requires
        groups_records(old(days)@, incs@, outs@),
    ensures
        match r {
            Ok(()) => groups_records(final(days)@, incs@, outs@.push(x)),
            Err(e) => e == FinanceError::Overflow && !crate::amount::fits(
                outcome_total_on(outs@.push(x), x.date),
            ),
        },
{
    let ghost before = days@;
    let (j, found) = find_day(days, &x.date);
    if found {
        let mut day = days.remove(j);
        let total = match day.total_outcome.checked_add(x.amount) {
            Some(t) => t,
            None => {
                proof {
                    let pushed = outs@.push(x);
                    assert(pushed.drop_last() =~= outs@);
                    assert(before[j as int].total_outcome.units == outcome_total_on(outs@, x.date));
                }
                return Err(FinanceError::Overflow);
            },
        };
        day.total_outcome = total;
        let ghost xv = x;
        day.outcomes.push(x);
        days.insert(j, day);
        proof {
            lemma_add_outcome_existing(before, days@, j as int, incs@, outs@, xv);
        }
    } else {
        let amount = x.amount;
        let date = x.date;
        let ghost xv = x;
        let mut list: Vec<Outcome> = Vec::new();
        list.push(x);
        let day = DailyBalance {
            date,
            total_outcome: amount,
            total_income: Amount::zero(),
            outcomes: list,
            incomes: Vec::new(),
        };
        days.insert(j, day);
        proof {
            assert(days@[j as int].outcomes@ =~= seq![xv]);
            lemma_add_outcome_new(before, days@, j as int, incs@, outs@, xv);
        }
    }
    Ok(())
}

/// Whether every date's total of incomes and of outcomes fits, at every step
/// of adding up the records in their order.
#[verifier::opaque]
pub open spec fn totals_fit(incomes: Seq<Income>, outcomes: Seq<Outcome>) -> bool {
    &&& forall|i: int, d: DateTime|
        0 <= i <= incomes.len() ==> crate::amount::fits(#[trigger] income_total_on(incomes.take(i), d))
    &&& forall|i: int, d: DateTime|
        0 <= i <= outcomes.len() ==> crate::amount::fits(#[trigger] outcome_total_on(outcomes.take(i), d))
}

/// The records grouped by date, in increasing order of date, with each
/// date's totals; `Overflow` where a total does not fit.
pub fn group_by_date(incomes: Vec<Income>, outcomes: Vec<Outcome>) -> (r: Result<
    Vec<DailyBalance>,
    FinanceError,
>)
    ensures
        match r {
            Ok(days) => groups_records(days@, incomes@, outcomes@),
            Err(e) => e == FinanceError::Overflow,
        },
        totals_fit(incomes@, outcomes@) ==> r is Ok,
{
    let mut days: Vec<DailyBalance> = Vec::new();
    let mut i: usize = 0;
    while i < incomes.len()
        invariant
            i <= incomes.len(),
            groups_records(days@, incomes@.take(i as int), Seq::<Outcome>::empty()),
        decreases incomes.len() - i,
    {
        let x = incomes[i].duplicate();
        assert(incomes@.take(i as int + 1) =~= incomes@.take(i as int).push(x));
        let ghost xv = x;
        match add_income(&mut days, x, Ghost(incomes@.take(i as int)), Ghost(Seq::<Outcome>::empty())) {
            Ok(()) => {},
            Err(e) => {
                assert(!crate::amount::fits(income_total_on(incomes@.take(i as int + 1), xv.date)));
                proof {
                    if totals_fit(incomes@, outcomes@) {
                        reveal(totals_fit);
                        assert(crate::amount::fits(income_total_on(incomes@.take(i as int + 1), xv.date)));
                    }
                }
                return Err(e);
            },
        }
        i = i + 1;
    }
    assert(incomes@.take(incomes.len() as int) =~= incomes@);
    assert(outcomes@.take(0) =~= Seq::<Outcome>::empty());
    let mut i: usize = 0;
    while i < outcomes.len()
        invariant
            i <= outcomes.len(),
            groups_records(days@, incomes@, outcomes@.take(i as int)),
        decreases outcomes.len() - i,
    {
        let x = outcomes[i].duplicate();
        assert(outcomes@.take(i as int + 1) =~= outcomes@.take(i as int).push(x));
        let ghost xv = x;
        match add_outcome(&mut days, x, Ghost(incomes@), Ghost(outcomes@.take(i as int))) {
            Ok(()) => {},
            Err(e) => {
                assert(!crate::amount::fits(outcome_total_on(outcomes@.take(i as int + 1), xv.date)));
                proof {
                    if totals_fit(incomes@, outcomes@) {
                        reveal(totals_fit);
                        assert(crate::amount::fits(outcome_total_on(outcomes@.take(i as int + 1), xv.date)));
                    }
                }
                return Err(e);
            },
        }
        i = i + 1;
    }
    assert(outcomes@.take(outcomes.len() as int) =~= outcomes@);
    Ok(days)
}

/// The balance after the first `n` dates of `days`, starting from `seed`.
pub open spec fn balance_through(seed: int, days: Seq<DailyBalance>, n: int) -> int
    decreases n,
{
    if n <= 0 {
        seed
    } else {
        balance_through(seed, days, n - 1) + days[n - 1].total_income.units - days[n
            - 1].total_outcome.units
    }
}

/// `status` classifies balance `b`: a surplus of `b` where `b` is at least
/// zero, else a deficit of `-b`.
pub open spec fn classifies(status: BalanceStatus, b: int) -> bool {
    match status {
        BalanceStatus::Surplus(a) => b >= 0 && a.units == b,
        BalanceStatus::Deficit(a) => b < 0 && a.units == -b,
    }
}

/// `results` walks `days` in order with the running balance from `seed`.
pub open spec fn walks(results: Seq<InspectResult>, seed: int, days: Seq<DailyBalance>) -> bool {
    &&& results.len() == days.len()
    &&& forall|i: int|
        #![trigger results[i]]
        0 <= i < results.len() ==> {
            &&& results[i].date == days[i].date
            &&& results[i].incomes@ == days[i].incomes@
            &&& results[i].outcomes@ == days[i].outcomes@
            &&& classifies(results[i].balance_status, balance_through(seed, days, i + 1))
        }
}

/// Whether no step of the running balance from `seed` over `days` overflows.
pub open spec fn balances_fit(seed: int, days: Seq<DailyBalance>) -> bool {
    forall|n: int|
        #![trigger balance_through(seed, days, n)]
        1 <= n <= days.len() ==> crate::amount::fits(
            days[n - 1].total_income.units - days[n - 1].total_outcome.units,
        ) && crate::amount::fits(balance_through(seed, days, n)) && crate::amount::fits(
            -balance_through(seed, days, n),
        )
}

/// The running balance from `seed` over the dates of `days`, each date
/// classified as a surplus or a deficit.
pub fn running_balances(seed: Amount, days: Vec<DailyBalance>) -> (r: Result<
    Vec<InspectResult>,
    FinanceError,
>)
    ensures
        match r {
            Ok(v) => walks(v@, seed.units as int, days@),
            Err(e) => e == FinanceError::Overflow,
        },
        balances_fit(seed.units as int, days@) ==> r is Ok,
{
    let ghost all = days@;
    assert(all.len() == days.len());
    let mut rest = days;
    let mut results: Vec<InspectResult> = Vec::new();
    let mut balance = seed;
    let mut i: usize = 0;
    while rest.len() > 0
        invariant
            i + rest.len() == all.len(),
            all.len() <= usize::MAX,
            all == days@,
            rest@ == all.subrange(i as int, all.len() as int),
            balance.units == balance_through(seed.units as int, all, i as int),
            results.len() == i,
            forall|k: int|
                #![trigger results@[k]]
                0 <= k < i ==> {
                    &&& results@[k].date == all[k].date
                    &&& results@[k].incomes@ == all[k].incomes@
                    &&& results@[k].outcomes@ == all[k].outcomes@
                    &&& classifies(results@[k].balance_status, balance_through(seed.units as int, all, k + 1))
                },
        ensures
            i == all.len(),
            walks(results@, seed.units as int, all),
        decreases rest.len(),
    {
        let day = rest.remove(0);
        assert(rest@ =~= all.subrange(i as int + 1, all.len() as int));
        assert(day == all[i as int]);
        assert(balance_through(seed.units as int, all, i as int + 1) == balance.units
            + day.total_income.units - day.total_outcome.units);
        let net = match day.total_income.checked_sub(day.total_outcome) {
            Some(n) => n,
            None => return Err(FinanceError::Overflow),
        };
        balance = match balance.checked_add(net) {
            Some(b) => b,
            None => return Err(FinanceError::Overflow),
        };
        let balance_status = if !balance.is_negative() {
            BalanceStatus::Surplus(balance)
        } else {
            match balance.checked_neg() {
                Some(d) => BalanceStatus::Deficit(d),
                None => return Err(FinanceError::Overflow),
            }
        };
        results.push(InspectResult { date: day.date, balance_status, incomes: day.incomes, outcomes: day.outcomes });
        i = i + 1;
    }
    Ok(results)
}

/// The projection of dated records from the starting balance `seed`: one
/// result per distinct date, in increasing order of date, with the running
/// balance after that date and the records dated then.
pub fn project(seed: Amount, incomes: Vec<Income>, outcomes: Vec<Outcome>) -> (r: Result<
    Vec<InspectResult>,
    FinanceError,
>)
    ensures
        match r {
            Ok(v) => exists|days: Seq<DailyBalance>|
                #![trigger walks(v@, seed.units as int, days)]
                groups_records(days, incomes@, outcomes@) && walks(v@, seed.units as int, days),
            Err(e) => e == FinanceError::Overflow,
        },
        totals_fit(incomes@, outcomes@) && (forall|days: Seq<DailyBalance>|
            #[trigger] groups_records(days, incomes@, outcomes@) ==> balances_fit(seed.units as int, days))
            ==> r is Ok,
{
    let days = group_by_date(incomes, outcomes)?;
    let ghost grouped = days@;
    let results = running_balances(seed, days)?;
    assert(walks(results@, seed.units as int, grouped));
    Ok(results)
}

/// The records of a row of answers, joined in order.
pub open spec fn flat_row<A>(row: Seq<Vec<A>>) -> Seq<A>
    decreases row.len(),
{
    if row.len() == 0 {
        Seq::empty()
    } else {
        flat_row(row.drop_last()) + row.last()@
    }
}

/// The records of rows of answers, joined row after row.
pub open spec fn flat_rows<A>(rows: Seq<Seq<Vec<A>>>) -> Seq<A>
    decreases rows.len(),
{
    if rows.len() == 0 {
        Seq::empty()
    } else {
        flat_rows(rows.drop_last()) + flat_row(rows.last())
    }
}

/// The month `t` months after `start`.
pub open spec fn month_after(start: YearMonth, t: nat) -> YearMonth
    decreases t,
{
    if t == 0 {
        start
    } else {
        crate::util::next_ym(month_after(start, (t - 1) as nat))
    }
}

/// The number of months from `start` to `end`, both included.
pub open spec fn months_between(start: YearMonth, end: YearMonth) -> nat {
    if month_index(start) <= month_index(end) {
        (month_index(end) - month_index(start) + 1) as nat
    } else {
        0
    }
}

/// `rows` holds what the income factories returned, one row per month from
/// `start` for `n` months, each row holding one answer per factory in order.
pub open spec fn answered_incomes<I>(factories: Seq<I>, start: YearMonth, n: nat, rows: Seq<Seq<Vec<Income>>>) -> bool
    where
        I: Fn(i32, u32) -> Result<Vec<Income>, FinanceError>,
{
    &&& rows.len() == n
    &&& forall|t: int| 0 <= t < n ==> (#[trigger] rows[t]).len() == factories.len()
    &&& forall|t: int, k: int|
        0 <= t < n && 0 <= k < factories.len() ==> factories[k].ensures(
            (month_after(start, t as nat).0, month_after(start, t as nat).1),
            Ok::<Vec<Income>, FinanceError>(#[trigger] rows[t][k]),
        )
}

/// `rows` holds what the outcome factories returned, one row per month from
/// `start` for `n` months, each row holding one answer per factory in order.
pub open spec fn answered_outcomes<O>(factories: Seq<O>, start: YearMonth, n: nat, rows: Seq<Seq<Vec<Outcome>>>) -> bool
    where
        O: Fn(i32, u32) -> Result<Vec<Outcome>, FinanceError>,
{
    &&& rows.len() == n
    &&& forall|t: int| 0 <= t < n ==> (#[trigger] rows[t]).len() == factories.len()
    &&& forall|t: int, k: int|
        0 <= t < n && 0 <= k < factories.len() ==> factories[k].ensures(
            (month_after(start, t as nat).0, month_after(start, t as nat).1),
            Ok::<Vec<Outcome>, FinanceError>(#[trigger] rows[t][k]),
        )
}

/// The projection of `incomes` and `outcomes` from `seed`: grouped by date
/// and walked with the running balance.
pub open spec fn projects(results: Seq<InspectResult>, seed: int, incomes: Seq<Income>, outcomes: Seq<Outcome>) -> bool {
    exists|days: Seq<DailyBalance>|
        #[trigger] groups_records(days, incomes, outcomes) && walks(results, seed, days)
}

/// Whether no total or running balance of the projection of these records overflows.
pub open spec fn projection_fits(seed: int, incomes: Seq<Income>, outcomes: Seq<Outcome>) -> bool {
    totals_fit(incomes, outcomes) && forall|days: Seq<DailyBalance>|
        #[trigger] groups_records(days, incomes, outcomes) ==> balances_fit(seed, days)
}

proof fn lemma_no_records_no_days(days: Seq<DailyBalance>)
    requires
        groups_records(days, Seq::<Income>::empty(), Seq::<Outcome>::empty()),
    ensures
        days.len() == 0,
{
    if days.len() > 0 {
        let k: int = 0;
        let d = days[k];
        assert(d.incomes@ == incomes_on(Seq::<Income>::empty(), d.date));
        assert(false);
    }
}

/// Projects the balance over the months from `start_ym` to `end_ym`, both
/// included: every income factory and then every outcome factory is asked, in
/// order, for the records of each month in turn; all the records returned are
/// grouped by date, and the running balance starts from the ledger entry of
/// `start_ym` (zero where there is none). A failing factory fails the whole
/// projection.
pub fn inspect<S: SavingRepo, I, O>(
    start_ym: YearMonth,
    end_ym: YearMonth,
    saving_repo: &S,
    income_factories: Vec<I>,
    outcome_factories: Vec<O>,
) -> (r: Result<Vec<InspectResult>, FinanceError>)
    where
        I: Fn(i32, u32) -> Result<Vec<Income>, FinanceError>,
        O: Fn(i32, u32) -> Result<Vec<Outcome>, FinanceError>,
    requires
        forall|k: int, y: i32, m: u32|
            0 <= k < income_factories.len() && valid_ym((y, m)) ==> #[trigger] income_factories@[k].requires((y, m)),
        forall|k: int, y: i32, m: u32|
            0 <= k < outcome_factories.len() && valid_ym((y, m)) ==> #[trigger] outcome_factories@[k].requires((y, m)),
    ensures
        r matches Ok(v) ==> exists|ri: Seq<Seq<Vec<Income>>>, ro: Seq<Seq<Vec<Outcome>>>|
            #![trigger answered_incomes(income_factories@, start_ym, months_between(start_ym, end_ym), ri),
                answered_outcomes(outcome_factories@, start_ym, months_between(start_ym, end_ym), ro)]
            answered_incomes(income_factories@, start_ym, months_between(start_ym, end_ym), ri)
                && answered_outcomes(outcome_factories@, start_ym, months_between(start_ym, end_ym), ro)
                && projects(
                v@,
                crate::detail::adjustment::balance_of(saving_repo.balances(), start_ym),
                flat_rows(ri),
                flat_rows(ro),
            ),
        !valid_ym(start_ym) || !valid_ym(end_ym) ==> r == Err::<Vec<InspectResult>, FinanceError>(FinanceError::InvalidDate),
        r matches Err(e) ==> e == FinanceError::InvalidDate || e == FinanceError::Overflow
            || !saving_repo.never_fails() || (exists|k: int, y: i32, m: u32|
            0 <= k < income_factories.len() && #[trigger] income_factories@[k].ensures(
                (y, m),
                Err::<Vec<Income>, FinanceError>(e),
            )) || (exists|k: int, y: i32, m: u32|
            0 <= k < outcome_factories.len() && #[trigger] outcome_factories@[k].ensures(
                (y, m),
                Err::<Vec<Outcome>, FinanceError>(e),
            )),
        valid_ym(start_ym) && valid_ym(end_ym) && saving_repo.never_fails() && (forall|k: int, y: i32, m: u32, a: Result<Vec<Income>, FinanceError>|
            0 <= k < income_factories.len() && #[trigger] income_factories@[k].ensures((y, m), a) ==> a is Ok)
            && (forall|k: int, y: i32, m: u32, a: Result<Vec<Outcome>, FinanceError>|
            0 <= k < outcome_factories.len() && #[trigger] outcome_factories@[k].ensures((y, m), a) ==> a is Ok)
            && (forall|ri: Seq<Seq<Vec<Income>>>, ro: Seq<Seq<Vec<Outcome>>>|
            answered_incomes(income_factories@, start_ym, months_between(start_ym, end_ym), ri)
                && answered_outcomes(outcome_factories@, start_ym, months_between(start_ym, end_ym), ro)
                ==> #[trigger] projection_fits(
                crate::detail::adjustment::balance_of(saving_repo.balances(), start_ym),
                flat_rows(ri),
                flat_rows(ro),
            )) ==> r is Ok,
        valid_ym(start_ym) && valid_ym(end_ym) && saving_repo.never_fails() && (months_between(start_ym, end_ym) == 0
            || income_factories.len() + outcome_factories.len() == 0) ==> (r matches Ok(v) && v.len() == 0),
{
    if !(start_ym.0 >= crate::util::MIN_YEAR && start_ym.0 <= MAX_YEAR && start_ym.1 >= 1 && start_ym.1 <= 12)
        || !(end_ym.0 >= crate::util::MIN_YEAR && end_ym.0 <= MAX_YEAR && end_ym.1 >= 1 && end_ym.1 <= 12) {
        return Err(FinanceError::InvalidDate);
    }
    let mut incomes: Vec<Income> = Vec::new();
    let mut outcomes: Vec<Outcome> = Vec::new();
    let ghost mut rows_in: Seq<Seq<Vec<Income>>> = Seq::empty();
    let ghost mut rows_out: Seq<Seq<Vec<Outcome>>> = Seq::empty();
    let ghost mut t: nat = 0;
    let mut current_ym = start_ym;
    let mut more = ym_not_after(current_ym, end_ym);
    while more
        invariant
            valid_ym(current_ym),
            valid_ym(start_ym),
            valid_ym(end_ym),
            more ==> current_ym == month_after(start_ym, t),
            more ==> month_index(current_ym) == month_index(start_ym) + t,
            more ==> month_index(current_ym) <= month_index(end_ym),
            !more ==> t == months_between(start_ym, end_ym),
            t <= months_between(start_ym, end_ym),
            answered_incomes(income_factories@, start_ym, t, rows_in),
            answered_outcomes(outcome_factories@, start_ym, t, rows_out),
            incomes@ == flat_rows(rows_in),
            outcomes@ == flat_rows(rows_out),
            forall|k: int, y: i32, m: u32|
                0 <= k < income_factories.len() && valid_ym((y, m)) ==> #[trigger] income_factories@[k].requires((y, m)),
            forall|k: int, y: i32, m: u32|
                0 <= k < outcome_factories.len() && valid_ym((y, m)) ==> #[trigger] outcome_factories@[k].requires((y, m)),
        decreases months_between(start_ym, end_ym) - t,
    {
        let ghost mut row_in: Seq<Vec<Income>> = Seq::empty();
        let mut k: usize = 0;
        while k < income_factories.len()
            invariant
                valid_ym(current_ym),
                valid_ym(start_ym),
                valid_ym(end_ym),
                t < months_between(start_ym, end_ym),
                current_ym == month_after(start_ym, t),
                k <= income_factories.len(),
                row_in.len() == k,
                forall|j: int| 0 <= j < k ==> income_factories@[j].ensures(
                    (current_ym.0, current_ym.1),
                    Ok::<Vec<Income>, FinanceError>(#[trigger] row_in[j]),
                ),
                incomes@ == flat_rows(rows_in) + flat_row(row_in),
                forall|k: int, y: i32, m: u32|
                    0 <= k < income_factories.len() && valid_ym((y, m)) ==> #[trigger] income_factories@[k].requires((y, m)),
            decreases income_factories.len() - k,
        {
            let factory = &income_factories[k];
            let answer = factory(current_ym.0, current_ym.1);
            let mut found = match answer {
                Ok(v) => v,
                Err(e) => {
                    assert(income_factories@[k as int].ensures((current_ym.0, current_ym.1), Err::<Vec<Income>, FinanceError>(e)));
                    return Err(e);
                },
            };
            let ghost got = found;
            let ghost before = incomes@;
            incomes.append(&mut found);
            proof {
                let pushed = row_in.push(got);
                assert(pushed.drop_last() =~= row_in);
                assert(incomes@ =~= flat_rows(rows_in) + flat_row(pushed));
                row_in = pushed;
            }
            k = k + 1;
        }
        let ghost mut row_out: Seq<Vec<Outcome>> = Seq::empty();
        let mut k: usize = 0;
        while k < outcome_factories.len()
            invariant
                valid_ym(current_ym),
                valid_ym(start_ym),
                valid_ym(end_ym),
                t < months_between(start_ym, end_ym),
                current_ym == month_after(start_ym, t),
                k <= outcome_factories.len(),
                row_out.len() == k,
                forall|j: int| 0 <= j < k ==> outcome_factories@[j].ensures(
                    (current_ym.0, current_ym.1),
                    Ok::<Vec<Outcome>, FinanceError>(#[trigger] row_out[j]),
                ),
                outcomes@ == flat_rows(rows_out) + flat_row(row_out),
                forall|k: int, y: i32, m: u32|
                    0 <= k < outcome_factories.len() && valid_ym((y, m)) ==> #[trigger] outcome_factories@[k].requires((y, m)),
            decreases outcome_factories.len() - k,
        {
            let factory = &outcome_factories[k];
            let answer = factory(current_ym.0, current_ym.1);
            let mut found = match answer {
                Ok(v) => v,
                Err(e) => {
                    assert(outcome_factories@[k as int].ensures((current_ym.0, current_ym.1), Err::<Vec<Outcome>, FinanceError>(e)));
                    return Err(e);
                },
            };
            let ghost got = found;
            outcomes.append(&mut found);
            proof {
                let pushed = row_out.push(got);
                assert(pushed.drop_last() =~= row_out);
                assert(outcomes@ =~= flat_rows(rows_out) + flat_row(pushed));
                row_out = pushed;
            }
            k = k + 1;
        }
        proof {
            let new_in = rows_in.push(row_in);
            let new_out = rows_out.push(row_out);
            assert(new_in.drop_last() =~= rows_in);
            assert(new_out.drop_last() =~= rows_out);
            assert(incomes@ == flat_rows(new_in));
            assert(outcomes@ == flat_rows(new_out));
            assert forall|tt: int, kk: int|
                0 <= tt < t + 1 && 0 <= kk < income_factories.len() implies income_factories@[kk].ensures(
                    (month_after(start_ym, tt as nat).0, month_after(start_ym, tt as nat).1),
                    Ok::<Vec<Income>, FinanceError>(#[trigger] new_in[tt][kk]),
                ) by {
                if tt < t {
                    assert(new_in[tt] == rows_in[tt]);
                }
            }
            assert forall|tt: int, kk: int|
                0 <= tt < t + 1 && 0 <= kk < outcome_factories.len() implies outcome_factories@[kk].ensures(
                    (month_after(start_ym, tt as nat).0, month_after(start_ym, tt as nat).1),
                    Ok::<Vec<Outcome>, FinanceError>(#[trigger] new_out[tt][kk]),
                ) by {
                if tt < t {
                    assert(new_out[tt] == rows_out[tt]);
                }
            }
            assert forall|tt: int| 0 <= tt < t + 1 implies (#[trigger] new_in[tt]).len() == income_factories.len() by {
                if tt < t {
                    assert(new_in[tt] == rows_in[tt]);
                }
            }
            assert forall|tt: int| 0 <= tt < t + 1 implies (#[trigger] new_out[tt]).len() == outcome_factories.len() by {
                if tt < t {
                    assert(new_out[tt] == rows_out[tt]);
                }
            }
            rows_in = new_in;
            rows_out = new_out;
        }
        if current_ym.0 == MAX_YEAR && current_ym.1 == 12 {
            proof {
                t = t + 1;
            }
            more = false;
        } else {
            current_ym = get_next_ym(current_ym);
            proof {
                t = t + 1;
            }
            more = ym_not_after(current_ym, end_ym);
        }
    }
    let seed = match saving_repo.get(&start_ym)? {
        Some(saving) => saving.amount,
        None => Amount::zero(),
    };
    assert(seed.units == crate::detail::adjustment::balance_of(saving_repo.balances(), start_ym));
    let ghost all_incomes = incomes@;
    let ghost all_outcomes = outcomes@;
    proof {
        if months_between(start_ym, end_ym) == 0 || income_factories.len() + outcome_factories.len() == 0 {
            lemma_empty_rows(income_factories@, outcome_factories@, start_ym, months_between(start_ym, end_ym), rows_in, rows_out);
            reveal(totals_fit);
            assert forall|days: Seq<DailyBalance>|
                #[trigger] groups_records(days, all_incomes, all_outcomes) implies balances_fit(seed.units as int, days) by {
                lemma_no_records_no_days(days);
            }
        }
    }
    assert((forall|ri: Seq<Seq<Vec<Income>>>, ro: Seq<Seq<Vec<Outcome>>>|
        answered_incomes(income_factories@, start_ym, months_between(start_ym, end_ym), ri)
            && answered_outcomes(outcome_factories@, start_ym, months_between(start_ym, end_ym), ro)
            ==> #[trigger] projection_fits(
            crate::detail::adjustment::balance_of(saving_repo.balances(), start_ym),
            flat_rows(ri),
            flat_rows(ro),
        )) ==> projection_fits(seed.units as int, all_incomes, all_outcomes));
    let results = project(seed, incomes, outcomes)?;
    proof {
        if months_between(start_ym, end_ym) == 0 || income_factories.len() + outcome_factories.len() == 0 {
            let days = choose|days: Seq<DailyBalance>|
                #[trigger] groups_records(days, all_incomes, all_outcomes) && walks(results@, seed.units as int, days);
            lemma_no_records_no_days(days);
        }
    }
    Ok(results)
}

proof fn lemma_empty_rows<I, O>(
    fi: Seq<I>,
    fo: Seq<O>,
    start: YearMonth,
    n: nat,
    ri: Seq<Seq<Vec<Income>>>,
    ro: Seq<Seq<Vec<Outcome>>>,
)
    where
        I: Fn(i32, u32) -> Result<Vec<Income>, FinanceError>,
        O: Fn(i32, u32) -> Result<Vec<Outcome>, FinanceError>,
    requires
        answered_incomes(fi, start, n, ri),
        answered_outcomes(fo, start, n, ro),
        n == 0 || fi.len() + fo.len() == 0,
    ensures
        flat_rows(ri) == Seq::<Income>::empty(),
        flat_rows(ro) == Seq::<Outcome>::empty(),
{
    lemma_flat_rows_of_empty_rows(ri);
    lemma_flat_rows_of_empty_rows(ro);
}

proof fn lemma_flat_rows_of_empty_rows<A>(rows: Seq<Seq<Vec<A>>>)
    requires
        forall|t: int| 0 <= t < rows.len() ==> (#[trigger] rows[t]).len() == 0,
    ensures
        flat_rows(rows) == Seq::<A>::empty(),
    decreases rows.len(),
{
    if rows.len() > 0 {
        assert(rows.last() == rows[rows.len() - 1]);
        lemma_flat_rows_of_empty_rows(rows.drop_last());
        assert(flat_rows(rows) =~= Seq::<A>::empty());
    }
}

} // verus!

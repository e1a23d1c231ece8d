use vstd::prelude::*;

use crate::amount::Amount;
use crate::error::FinanceError;
use crate::plan::income::{Income, IncomeRepo, ToIncome};
use crate::plan::job::{
    income_with_id, job_with_id, pays_in, wage_applies, window_overlaps, PartTimeHourlyWage,
    PartTimeJob, PartTimeJobIncome, PartTimeJobRepo,
};
use crate::plan::monthly_outcome::{self, MonthlyOutcome, MonthlyOutcomeRepo, MonthlyOutcomeTemplate};
use crate::plan::outcome::{Outcome, OutcomeRepo, ToOutcome};
use crate::plan::temporary_outcome::{self, TemporaryOutcome, TemporaryOutcomeRepo};
use crate::util::{month_index, DateTime};

verus! {

fn slot_index(len: usize, id: u64) -> (r: Option<usize>)
    ensures
        match r {
            Some(i) => 1 <= id <= len && i == id - 1,
            None => !(1 <= id <= len),
        },
{
    if id == 0 {
        return None;
    }
    let i = id - 1;
    if i as u128 >= len as u128 {
        None
    } else {
        Some(i as usize)
    }
}

fn month_number(ym: (i32, u32)) -> (r: i64)
    ensures
        r == month_index(ym),
{
    (ym.0 as i64) * 12 + (ym.1 as i64) - 1
}

fn overlaps(start: &DateTime, end: &Option<DateTime>, range_start: &DateTime, range_end: &DateTime) -> (r: bool)
    ensures
        r == window_overlaps(*start, *end, *range_start, *range_end),
{
    start.is_not_after(range_end) && match end {
        Some(e) => range_start.is_not_after(e),
        None => true,
    }
}

/// An in-memory store of part-time jobs, their wage table and their monthly
/// incomes; ids are issued from 1 upward and never reused.
pub struct DummyPartTimeJobRepo {
    jobs: Vec<Option<PartTimeJob>>,
    wages: Vec<PartTimeHourlyWage>,
    incomes: Vec<Option<PartTimeJobIncome>>,
}

impl DummyPartTimeJobRepo {
    pub fn new() -> (r: Self)
        ensures
            r.jobs() == Map::<u64, PartTimeJob>::empty(),
            r.wages() == Seq::<PartTimeHourlyWage>::empty(),
            r.job_incomes() == Map::<u64, PartTimeJobIncome>::empty(),
            r.never_fails(),
    {
        let r = DummyPartTimeJobRepo { jobs: Vec::new(), wages: Vec::new(), incomes: Vec::new() };
        assert(r.jobs() =~= Map::<u64, PartTimeJob>::empty());
        assert(r.job_incomes() =~= Map::<u64, PartTimeJobIncome>::empty());
        r
    }
}

/// The income that an instance contributes, where its wages are exact.
pub open spec fn income_of_instance(x: PartTimeJobIncome) -> Income {
    Income {
        name: x.name,
        amount: Amount { units: (x.hourly_wage.units * x.hour.units / crate::amount::UNITS_PER_WHOLE as int) as i128 },
        date: x.payment_date,
    }
}

/// The incomes of the instances of `slots` paid from `start` to `end`, in order.
pub open spec fn instance_incomes(slots: Seq<Option<PartTimeJobIncome>>, start: DateTime, end: DateTime) -> Seq<Income>
    decreases slots.len(),
{
    if slots.len() == 0 {
        Seq::empty()
    } else {
        let rest = instance_incomes(slots.drop_last(), start, end);
        match slots.last() {
            Some(x) => if start.le(x.payment_date) && x.payment_date.le(end) {
                rest.push(income_of_instance(x))
            } else {
                rest
            },
            None => rest,
        }
    }
}

impl IncomeRepo for DummyPartTimeJobRepo {
    closed spec fn incomes_listed(&self, start: DateTime, end: DateTime) -> Seq<Income> {
        instance_incomes(self.incomes@, start, end)
    }

    closed spec fn lists_without_failure(&self) -> bool {
        forall|i: int|
            0 <= i < self.incomes.len() && (#[trigger] self.incomes@[i]) is Some ==> crate::plan::job::wages_product_exact(
                self.incomes@[i]->0,
            )
    }

    /// The incomes of the stored instances paid within the period.
    fn list_incomes(&self, start_date: &DateTime, end_date: &DateTime) -> (r: Result<
        Vec<Income>,
        FinanceError,
    >) {
        let mut found: Vec<Income> = Vec::new();
        let mut i: usize = 0;
        while i < self.incomes.len()
            invariant
                i <= self.incomes.len(),
                found@ == instance_incomes(self.incomes@.take(i as int), *start_date, *end_date),
                forall|j: int|
                    0 <= j < found.len() ==> start_date.le((#[trigger] found@[j]).date)
                        && found@[j].date.le(*end_date),
            decreases self.incomes.len() - i,
        {
            assert(self.incomes@.take(i as int + 1).drop_last() =~= self.incomes@.take(i as int));
            match &self.incomes[i] {
                Some(x) => {
                    if start_date.is_not_after(&x.payment_date) && x.payment_date.is_not_after(end_date) {
                        let entry = match x.to_income() {
                            Ok(e) => e,
                            Err(e) => {
                                assert(!crate::plan::job::wages_product_exact(*x));
                                return Err(e);
                            },
                        };
                        proof {
                            let w = x.hourly_wage.units as int;
                            let h = x.hour.units as int;
                            let u = entry.amount.units as int;
                            assert(u == w * h / (crate::amount::UNITS_PER_WHOLE as int)) by (nonlinear_arith)
                                requires
                                    u * 1_000_000_000_000 == w * h,
                                    crate::amount::UNITS_PER_WHOLE == 1_000_000_000_000,
                            ;
                        }
                        found.push(entry);
                    }
                },
                None => {},
            }
            i = i + 1;
        }
        assert(self.incomes@.take(self.incomes.len() as int) =~= self.incomes@);
        Ok(found)
    }
}

impl PartTimeJobRepo for DummyPartTimeJobRepo {
    closed spec fn jobs(&self) -> Map<u64, PartTimeJob> {
        Map::new(
            |id: u64| 1 <= id <= self.jobs.len() && self.jobs@[id - 1] is Some,
            |id: u64| job_with_id(self.jobs@[id - 1]->0, id),
        )
    }

    closed spec fn wages(&self) -> Seq<PartTimeHourlyWage> {
        self.wages@
    }

    closed spec fn job_incomes(&self) -> Map<u64, PartTimeJobIncome> {
        Map::new(
            |id: u64| 1 <= id <= self.incomes.len() && self.incomes@[id - 1] is Some,
            |id: u64| income_with_id(self.incomes@[id - 1]->0, id),
        )
    }

    closed spec fn never_fails(&self) -> bool {
        self.jobs.len() < u64::MAX
    }

    closed spec fn instance_room(&self) -> nat {
        if self.incomes.len() < u64::MAX {
            (u64::MAX - self.incomes.len() - 1) as nat
        } else {
            0
        }
    }

    closed spec fn job_count(&self) -> nat {
        self.jobs.len() as nat
    }

    fn list_part_time_jobs(&self, start_date: &DateTime, end_date: &DateTime) -> (r: Result<
        Vec<PartTimeJob>,
        FinanceError,
    >) {
        let mut found: Vec<PartTimeJob> = Vec::new();
        let mut i: usize = 0;
        while i < self.jobs.len()
            invariant
                i <= self.jobs.len(),
                found.len() <= i,
                forall|j: int| 0 <= j < found.len() ==> (#[trigger] found@[j]).id is Some && found@[j].id->0 <= i,
                forall|a: int, b: int|
                    0 <= a < b < found.len() ==> (#[trigger] found@[a]).id != (#[trigger] found@[b]).id,
                forall|j: int|
                    0 <= j < found.len() ==> self.jobs().contains_value(#[trigger] found@[j])
                        && found@[j].id is Some && window_overlaps(
                        found@[j].start_date,
                        found@[j].end_date,
                        *start_date,
                        *end_date,
                    ),
                forall|k: u64|
                    k <= i && self.jobs().contains_key(k) && window_overlaps(
                        #[trigger] self.jobs()[k].start_date,
                        self.jobs()[k].end_date,
                        *start_date,
                        *end_date,
                    ) ==> found@.contains(self.jobs()[k]),
            decreases self.jobs.len() - i,
        {
            match &self.jobs[i] {
                Some(x) => {
                    if overlaps(&x.start_date, &x.end_date, start_date, end_date) {
                        let ghost before = found@;
                        let ghost id = (i + 1) as u64;
                        let mut job = x.duplicate();
                        job.id = Some((i + 1) as u64);
                        assert(self.jobs().contains_key(id) && self.jobs()[id] == job);
                        found.push(job);
                        proof {
                            assert forall|k: u64|
                                k <= i + 1 && self.jobs().contains_key(k) && window_overlaps(
                                    #[trigger] self.jobs()[k].start_date,
                                    self.jobs()[k].end_date,
                                    *start_date,
                                    *end_date,
                                ) implies found@.contains(self.jobs()[k]) by {
                                if k <= i {
                                    let j = choose|j: int| 0 <= j < before.len() && before[j] == self.jobs()[k];
                                    assert(found@[j] == self.jobs()[k]);
                                } else {
                                    assert(found@[found.len() - 1] == self.jobs()[k]);
                                }
                            }
                        }
                    }
                },
                None => {},
            }
            i = i + 1;
        }
        Ok(found)
    }

    fn get_part_time_job_by_id(&self, id: u64) -> (r: Result<Option<PartTimeJob>, FinanceError>) {
        match slot_index(self.jobs.len(), id) {
            Some(i) => match &self.jobs[i] {
                Some(x) => {
                    let mut job = x.duplicate();
                    job.id = Some(id);
                    Ok(Some(job))
                },
                None => Ok(None),
            },
            None => Ok(None),
        }
    }

    fn store_part_time_job(&mut self, part_time_job: PartTimeJob) -> (r: Result<u64, FinanceError>) {
        if self.jobs.len() as u128 >= u64::MAX as u128 {
            return Err(FinanceError::Storage);
        }
        let id = (self.jobs.len() as u64) + 1;
        let ghost given = part_time_job;
        let mut job = part_time_job;
        job.id = Some(id);
        self.jobs.push(Some(job));
        proof {
            assert(self.jobs() =~= old(self).jobs().insert(id, job_with_id(given, id)));
            assert(self.job_incomes() =~= old(self).job_incomes());
        }
        Ok(id)
    }

    fn update_part_time_job(&mut self, part_time_job: PartTimeJob) -> (r: Result<(), FinanceError>) {
        let id = match part_time_job.id {
            Some(id) => id,
            None => return Err(FinanceError::NotFound),
        };
        let i = match slot_index(self.jobs.len(), id) {
            Some(i) => i,
            None => return Err(FinanceError::NotFound),
        };
        if self.jobs[i].is_none() {
            return Err(FinanceError::NotFound);
        }
        let ghost given = part_time_job;
        self.jobs.set(i, Some(part_time_job));
        proof {
            assert(job_with_id(given, id) == given);
            assert(self.jobs() =~= old(self).jobs().insert(id, given));
            assert(self.job_incomes() =~= old(self).job_incomes());
        }
        Ok(())
    }

    fn get_part_time_job_hourly_wage(&self, part_time_job_id: u64, year: i32, month: u32) -> (r:
        Result<Option<PartTimeHourlyWage>, FinanceError>) {
        let target = month_number((year, month));
        let mut best: Option<usize> = None;
        let mut i: usize = 0;
        while i < self.wages.len()
            invariant
                i <= self.wages.len(),
                target == month_index((year, month)),
                match best {
                    Some(b) => b < i && wage_applies(self.wages@[b as int], part_time_job_id, (year, month))
                        && forall|j: int|
                        0 <= j < i && wage_applies(#[trigger] self.wages@[j], part_time_job_id, (year, month))
                            ==> month_index(self.wages@[j].start_year_and_month) <= month_index(
                            self.wages@[b as int].start_year_and_month,
                        ),
                    None => forall|j: int|
                        0 <= j < i ==> !wage_applies(#[trigger] self.wages@[j], part_time_job_id, (year, month)),
                },
            decreases self.wages.len() - i,
        {
            let w = self.wages[i];
            if w.part_time_job_id == part_time_job_id && month_number(w.start_year_and_month) <= target {
                match best {
                    Some(b) => {
                        if month_number(self.wages[b].start_year_and_month) <= month_number(
                            w.start_year_and_month,
                        ) {
                            best = Some(i);
                        }
                    },
                    None => {
                        best = Some(i);
                    },
                }
            }
            i = i + 1;
        }
        match best {
            Some(b) => {
                let w = self.wages[b];
                proof {
                    assert(self.wages@[b as int] == w);
                    assert forall|v: PartTimeHourlyWage|
                        #[trigger] self.wages@.contains(v) && wage_applies(v, part_time_job_id, (year, month))
                            implies month_index(v.start_year_and_month) <= month_index(w.start_year_and_month) by {
                        let j = choose|j: int| 0 <= j < self.wages@.len() && self.wages@[j] == v;
                    }
                }
                Ok(Some(w))
            },
            None => {
                proof {
                    assert forall|v: PartTimeHourlyWage|
                        #[trigger] self.wages@.contains(v) implies !wage_applies(v, part_time_job_id, (year, month)) by {
                        let j = choose|j: int| 0 <= j < self.wages@.len() && self.wages@[j] == v;
                    }
                }
                Ok(None)
            },
        }
    }

    fn get_part_time_job_hourly_wage_by_start_year_and_month(
        &self,
        part_time_job_id: u64,
        start_year_and_month: (i32, u32),
    ) -> (r: Result<Option<PartTimeHourlyWage>, FinanceError>) {
        let mut i: usize = 0;
        while i < self.wages.len()
            invariant
                i <= self.wages.len(),
                forall|j: int|
                    0 <= j < i ==> !((#[trigger] self.wages@[j]).part_time_job_id == part_time_job_id
                        && self.wages@[j].start_year_and_month == start_year_and_month),
            decreases self.wages.len() - i,
        {
            let w = self.wages[i];
            if w.part_time_job_id == part_time_job_id && w.start_year_and_month.0
                == start_year_and_month.0 && w.start_year_and_month.1 == start_year_and_month.1 {
                assert(self.wages@[i as int] == w);
                return Ok(Some(w));
            }
            i = i + 1;
        }
        proof {
            assert forall|v: PartTimeHourlyWage| #[trigger] self.wages@.contains(v) implies !(v.part_time_job_id
                == part_time_job_id && v.start_year_and_month == start_year_and_month) by {
                let j = choose|j: int| 0 <= j < self.wages@.len() && self.wages@[j] == v;
            }
        }
        Ok(None)
    }

    fn store_part_time_job_hourly_wage(
        &mut self,
        part_time_job_id: u64,
        hourly_wage: Amount,
        start_year_and_month: (i32, u32),
    ) -> (r: Result<(), FinanceError>) {
        self.wages.push(PartTimeHourlyWage { part_time_job_id, hourly_wage, start_year_and_month });
        proof {
            assert(self.jobs() =~= old(self).jobs());
            assert(self.job_incomes() =~= old(self).job_incomes());
        }
        Ok(())
    }

    fn update_part_time_job_hourly_wage(
        &mut self,
        part_time_job_id: u64,
        hourly_wage: Amount,
        start_year_and_month: (i32, u32),
    ) -> (r: Result<(), FinanceError>) {
        let ghost previous = self.wages@;
        let replacement = PartTimeHourlyWage { part_time_job_id, hourly_wage, start_year_and_month };
        let mut i: usize = 0;
        while i < self.wages.len()
            invariant
                i <= self.wages.len(),
                self.wages.len() == previous.len(),
                self.jobs == old(self).jobs,
                self.incomes == old(self).incomes,
                previous == old(self).wages@,
                forall|j: int|
                    0 <= j < i ==> #[trigger] self.wages@[j] == (if previous[j].part_time_job_id
                        == part_time_job_id && previous[j].start_year_and_month == start_year_and_month {
                        replacement
                    } else {
                        previous[j]
                    }),
                forall|j: int| i <= j < self.wages.len() ==> #[trigger] self.wages@[j] == previous[j],
            decreases self.wages.len() - i,
        {
            let w = self.wages[i];
            if w.part_time_job_id == part_time_job_id && w.start_year_and_month.0
                == start_year_and_month.0 && w.start_year_and_month.1 == start_year_and_month.1 {
                self.wages.set(i, replacement);
            }
            i = i + 1;
        }
        proof {
            assert(self.wages@ =~= previous.map_values(
                |v: PartTimeHourlyWage|
                    if v.part_time_job_id == part_time_job_id && v.start_year_and_month
                        == start_year_and_month {
                        PartTimeHourlyWage { part_time_job_id, hourly_wage, start_year_and_month }
                    } else {
                        v
                    },
            ));
            assert(self.jobs() =~= old(self).jobs());
            assert(self.job_incomes() =~= old(self).job_incomes());
        }
        Ok(())
    }

    fn get_part_time_job_income_by_id(&self, id: u64) -> (r: Result<
        Option<PartTimeJobIncome>,
        FinanceError,
    >) {
        match slot_index(self.incomes.len(), id) {
            Some(i) => match &self.incomes[i] {
                Some(x) => {
                    let mut income = x.duplicate();
                    income.id = Some(id);
                    Ok(Some(income))
                },
                None => Ok(None),
            },
            None => Ok(None),
        }
    }

    fn get_part_time_job_income_by_part_time_job_id(
        &self,
        part_time_job_id: u64,
        year: i32,
        month: u32,
    ) -> (r: Result<Option<PartTimeJobIncome>, FinanceError>) {
        let mut i: usize = 0;
        while i < self.incomes.len()
            invariant
                i <= self.incomes.len(),
                forall|k: u64|
                    1 <= k <= i && #[trigger] self.job_incomes().contains_key(k) ==> !pays_in(
                        self.job_incomes()[k],
                        part_time_job_id,
                        (year, month),
                    ),
            decreases self.incomes.len() - i,
        {
            match &self.incomes[i] {
                Some(x) => {
                    if x.part_time_job_id == part_time_job_id && x.payment_date.year == year
                        && x.payment_date.month == month {
                        let mut income = x.duplicate();
                        income.id = Some((i + 1) as u64);
                        assert(self.job_incomes().contains_key((i + 1) as u64) && self.job_incomes()[(i
                            + 1) as u64] == income);
                        return Ok(Some(income));
                    }
                },
                None => {},
            }
            i = i + 1;
        }
        Ok(None)
    }

    fn store_part_time_job_income(&mut self, part_time_job_income: PartTimeJobIncome) -> (r: Result<
        u64,
        FinanceError,
    >) {
        if self.incomes.len() as u128 >= (u64::MAX - 1) as u128 {
            return Err(FinanceError::Storage);
        }
        let id = (self.incomes.len() as u64) + 1;
        let ghost given = part_time_job_income;
        let mut income = part_time_job_income;
        income.id = Some(id);
        self.incomes.push(Some(income));
        proof {
            assert(self.job_incomes() =~= old(self).job_incomes().insert(id, income_with_id(given, id)));
            assert(self.jobs() =~= old(self).jobs());
        }
        Ok(id)
    }

    fn update_part_time_job_income(&mut self, part_time_job_income: PartTimeJobIncome) -> (r: Result<
        (),
        FinanceError,
    >) {
        let id = match part_time_job_income.id {
            Some(id) => id,
            None => return Err(FinanceError::NotFound),
        };
        let i = match slot_index(self.incomes.len(), id) {
            Some(i) => i,
            None => return Err(FinanceError::NotFound),
        };
        if self.incomes[i].is_none() {
            return Err(FinanceError::NotFound);
        }
        let ghost given = part_time_job_income;
        self.incomes.set(i, Some(part_time_job_income));
        proof {
            assert(income_with_id(given, id) == given);
            assert(self.job_incomes() =~= old(self).job_incomes().insert(id, given));
            assert(self.jobs() =~= old(self).jobs());
        }
        Ok(())
    }
}

/// A new, empty in-memory store of part-time jobs.
pub fn get_part_time_job_repo() -> (r: DummyPartTimeJobRepo)
    ensures
        r.jobs() == Map::<u64, PartTimeJob>::empty(),
        r.wages() == Seq::<PartTimeHourlyWage>::empty(),
        r.job_incomes() == Map::<u64, PartTimeJobIncome>::empty(),
        r.never_fails(),
{
    DummyPartTimeJobRepo::new()
}

/// The template as stored under `id`.
pub open spec fn template_with_id(t: MonthlyOutcomeTemplate, id: u64) -> MonthlyOutcomeTemplate {
    MonthlyOutcomeTemplate {
        id: Some(id),
        name: t.name,
        amount: t.amount,
        payment_timing: t.payment_timing,
        start_date: t.start_date,
        end_date: t.end_date,
    }
}

/// An in-memory store of monthly outcome templates and their instances; ids
/// are issued from 1 upward and never reused.
pub struct DummyMonthlyOutcomeRepo {
    templates: Vec<Option<MonthlyOutcomeTemplate>>,
    outcomes: Vec<Option<MonthlyOutcome>>,
}

impl DummyMonthlyOutcomeRepo {
    pub fn new() -> (r: Self)
        ensures
            r.templates() == Map::<u64, MonthlyOutcomeTemplate>::empty(),
            r.monthly_outcomes() == Map::<u64, MonthlyOutcome>::empty(),
            r.never_fails(),
    {
        let r = DummyMonthlyOutcomeRepo { templates: Vec::new(), outcomes: Vec::new() };
        assert(r.templates() =~= Map::<u64, MonthlyOutcomeTemplate>::empty());
        assert(r.monthly_outcomes() =~= Map::<u64, MonthlyOutcome>::empty());
        r
    }

    /// Stores a new template under a fresh id, which it returns.
    pub fn store_monthly_outcome_template(&mut self, template: MonthlyOutcomeTemplate) -> (r: Result<
        u64,
        FinanceError,
    >)
        ensures
            old(self).template_count() < u64::MAX ==> r is Ok,
            r is Ok ==> final(self).template_count() == old(self).template_count() + 1
                && final(self).instance_room() == old(self).instance_room(),
            r matches Ok(id) ==> !old(self).templates().contains_key(id) && final(self).templates()
                == old(self).templates().insert(id, template_with_id(template, id))
                && final(self).monthly_outcomes() == old(self).monthly_outcomes(),
    {
        if self.templates.len() as u128 >= u64::MAX as u128 {
            return Err(FinanceError::Storage);
        }
        let id = (self.templates.len() as u64) + 1;
        let ghost given = template;
        let mut stored = template;
        stored.id = Some(id);
        self.templates.push(Some(stored));
        proof {
            assert(self.templates() =~= old(self).templates().insert(id, template_with_id(given, id)));
            assert(self.monthly_outcomes() =~= old(self).monthly_outcomes());
        }
        Ok(id)
    }
}

impl OutcomeRepo for DummyMonthlyOutcomeRepo {
    /// The outcomes of the stored instances paid within the period.
    fn list_outcomes(&self, start_date: &DateTime, end_date: &DateTime) -> (r: Result<
        Vec<Outcome>,
        FinanceError,
    >) {
        let mut found: Vec<Outcome> = Vec::new();
        let mut i: usize = 0;
        while i < self.outcomes.len()
            invariant
                i <= self.outcomes.len(),
                forall|j: int|
                    0 <= j < found.len() ==> start_date.le((#[trigger] found@[j]).date)
                        && found@[j].date.le(*end_date),
            decreases self.outcomes.len() - i,
        {
            match &self.outcomes[i] {
                Some(x) => {
                    if start_date.is_not_after(&x.payment_date) && x.payment_date.is_not_after(end_date) {
                        found.push(x.to_outcome()?);
                    }
                },
                None => {},
            }
            i = i + 1;
        }
        Ok(found)
    }
}

impl MonthlyOutcomeRepo for DummyMonthlyOutcomeRepo {
    closed spec fn templates(&self) -> Map<u64, MonthlyOutcomeTemplate> {
        Map::new(
            |id: u64| 1 <= id <= self.templates.len() && self.templates@[id - 1] is Some,
            |id: u64| template_with_id(self.templates@[id - 1]->0, id),
        )
    }

    closed spec fn monthly_outcomes(&self) -> Map<u64, MonthlyOutcome> {
        Map::new(
            |id: u64| 1 <= id <= self.outcomes.len() && self.outcomes@[id - 1] is Some,
            |id: u64| monthly_outcome::outcome_with_id(self.outcomes@[id - 1]->0, id),
        )
    }

    open spec fn never_fails(&self) -> bool {
        true
    }

    closed spec fn instance_room(&self) -> nat {
        if self.outcomes.len() < u64::MAX {
            (u64::MAX - self.outcomes.len() - 1) as nat
        } else {
            0
        }
    }

    closed spec fn template_count(&self) -> nat {
        self.templates.len() as nat
    }

    fn list_monthly_outcome_template(&self, start_date: &DateTime, end_date: &DateTime) -> (r: Result<
        Vec<MonthlyOutcomeTemplate>,
        FinanceError,
    >) {
        let mut found: Vec<MonthlyOutcomeTemplate> = Vec::new();
        let mut i: usize = 0;
        while i < self.templates.len()
            invariant
                i <= self.templates.len(),
                found.len() <= i,
                forall|j: int| 0 <= j < found.len() ==> (#[trigger] found@[j]).id is Some && found@[j].id->0 <= i,
                forall|a: int, b: int|
                    0 <= a < b < found.len() ==> (#[trigger] found@[a]).id != (#[trigger] found@[b]).id,
                forall|j: int|
                    0 <= j < found.len() ==> self.templates().contains_value(#[trigger] found@[j])
                        && found@[j].id is Some && window_overlaps(
                        found@[j].start_date,
                        found@[j].end_date,
                        *start_date,
                        *end_date,
                    ),
                forall|k: u64|
                    k <= i && self.templates().contains_key(k) && window_overlaps(
                        #[trigger] self.templates()[k].start_date,
                        self.templates()[k].end_date,
                        *start_date,
                        *end_date,
                    ) ==> found@.contains(self.templates()[k]),
            decreases self.templates.len() - i,
        {
            match &self.templates[i] {
                Some(x) => {
                    if overlaps(&x.start_date, &x.end_date, start_date, end_date) {
                        let ghost before = found@;
                        let ghost id = (i + 1) as u64;
                        let mut template = x.duplicate();
                        template.id = Some((i + 1) as u64);
                        assert(self.templates().contains_key(id) && self.templates()[id] == template);
                        found.push(template);
                        proof {
                            assert forall|k: u64|
                                k <= i + 1 && self.templates().contains_key(k) && window_overlaps(
                                    #[trigger] self.templates()[k].start_date,
                                    self.templates()[k].end_date,
                                    *start_date,
                                    *end_date,
                                ) implies found@.contains(self.templates()[k]) by {
                                if k <= i {
                                    let j = choose|j: int| 0 <= j < before.len() && before[j] == self.templates()[k];
                                    assert(found@[j] == self.templates()[k]);
                                } else {
                                    assert(found@[found.len() - 1] == self.templates()[k]);
                                }
                            }
                        }
                    }
                },
                None => {},
            }
            i = i + 1;
        }
        Ok(found)
    }

    fn store_monthly_outcome(&mut self, monthly_outcome: MonthlyOutcome) -> (r: Result<u64, FinanceError>) {
        if self.outcomes.len() as u128 >= (u64::MAX - 1) as u128 {
            return Err(FinanceError::Storage);
        }
        let id = (self.outcomes.len() as u64) + 1;
        let ghost given = monthly_outcome;
        let mut stored = monthly_outcome;
        stored.id = Some(id);
        self.outcomes.push(Some(stored));
        proof {
            assert(self.monthly_outcomes() =~= old(self).monthly_outcomes().insert(
                id,
                monthly_outcome::outcome_with_id(given, id),
            ));
            assert(self.templates() =~= old(self).templates());
        }
        Ok(id)
    }

    fn update_monthly_outcome(&mut self, monthly_outcome: MonthlyOutcome) -> (r: Result<(), FinanceError>) {
        let id = match monthly_outcome.id {
            Some(id) => id,
            None => return Err(FinanceError::NotFound),
        };
        let i = match slot_index(self.outcomes.len(), id) {
            Some(i) => i,
            None => return Err(FinanceError::NotFound),
        };
        if self.outcomes[i].is_none() {
            return Err(FinanceError::NotFound);
        }
        let ghost given = monthly_outcome;
        self.outcomes.set(i, Some(monthly_outcome));
        proof {
            assert(monthly_outcome::outcome_with_id(given, id) == given);
            assert(self.monthly_outcomes() =~= old(self).monthly_outcomes().insert(id, given));
            assert(self.templates() =~= old(self).templates());
        }
        Ok(())
    }

    fn get_monthly_outcome_by_template_id(
        &self,
        monthly_outcome_template_id: u64,
        year: i32,
        month: u32,
    ) -> (r: Result<Option<MonthlyOutcome>, FinanceError>) {
        let mut i: usize = 0;
        while i < self.outcomes.len()
            invariant
                i <= self.outcomes.len(),
                forall|k: u64|
                    1 <= k <= i && #[trigger] self.monthly_outcomes().contains_key(k) ==> !monthly_outcome::pays_in(
                        self.monthly_outcomes()[k],
                        monthly_outcome_template_id,
                        (year, month),
                    ),
            decreases self.outcomes.len() - i,
        {
            match &self.outcomes[i] {
                Some(x) => {
                    if x.monthly_outcome_template_id == monthly_outcome_template_id && x.payment_date.year
                        == year && x.payment_date.month == month {
                        let mut found = x.duplicate();
                        found.id = Some((i + 1) as u64);
                        assert(self.monthly_outcomes().contains_key((i + 1) as u64)
                            && self.monthly_outcomes()[(i + 1) as u64] == found);
                        return Ok(Some(found));
                    }
                },
                None => {},
            }
            i = i + 1;
        }
        Ok(None)
    }
}

/// A new, empty in-memory store of monthly outcome templates.
pub fn get_monthly_outcome_repo() -> (r: DummyMonthlyOutcomeRepo)
    ensures
        r.templates() == Map::<u64, MonthlyOutcomeTemplate>::empty(),
        r.monthly_outcomes() == Map::<u64, MonthlyOutcome>::empty(),
        r.never_fails(),
{
    DummyMonthlyOutcomeRepo::new()
}

/// An in-memory store of one-off outcomes; ids are issued from 1 upward and
/// never reused.
pub struct DummyTemporaryOutcomeRepo {
    outcomes: Vec<Option<TemporaryOutcome>>,
}

/// The one-off outcome as stored under `id`.
pub open spec fn temporary_with_id(x: TemporaryOutcome, id: u64) -> TemporaryOutcome {
    TemporaryOutcome { id: Some(id), name: x.name, amount: x.amount, date: x.date }
}

impl DummyTemporaryOutcomeRepo {
    pub fn new() -> (r: Self)
        ensures
            r.temporary_outcomes() == Map::<u64, TemporaryOutcome>::empty(),
            r.never_fails(),
    {
        let r = DummyTemporaryOutcomeRepo { outcomes: Vec::new() };
        assert(r.temporary_outcomes() =~= Map::<u64, TemporaryOutcome>::empty());
        r
    }
}

impl OutcomeRepo for DummyTemporaryOutcomeRepo {
    /// The stored one-off outcomes dated within the period.
    fn list_outcomes(&self, start_date: &DateTime, end_date: &DateTime) -> (r: Result<
        Vec<Outcome>,
        FinanceError,
    >) {
        let mut found: Vec<Outcome> = Vec::new();
        let mut i: usize = 0;
        while i < self.outcomes.len()
            invariant
                i <= self.outcomes.len(),
                forall|j: int|
                    0 <= j < found.len() ==> start_date.le((#[trigger] found@[j]).date)
                        && found@[j].date.le(*end_date),
            decreases self.outcomes.len() - i,
        {
            match &self.outcomes[i] {
                Some(x) => {
                    if start_date.is_not_after(&x.date) && x.date.is_not_after(end_date) {
                        found.push(x.to_outcome()?);
                    }
                },
                None => {},
            }
            i = i + 1;
        }
        Ok(found)
    }
}

impl TemporaryOutcomeRepo for DummyTemporaryOutcomeRepo {
    closed spec fn temporary_outcomes(&self) -> Map<u64, TemporaryOutcome> {
        Map::new(
            |id: u64| 1 <= id <= self.outcomes.len() && self.outcomes@[id - 1] is Some,
            |id: u64| temporary_with_id(self.outcomes@[id - 1]->0, id),
        )
    }

    closed spec fn never_fails(&self) -> bool {
        self.outcomes.len() < u64::MAX
    }

    fn list_temporary_outcomes(&self, start_date: &DateTime, end_date: &DateTime) -> (r: Result<
        Vec<TemporaryOutcome>,
        FinanceError,
    >) {
        let mut found: Vec<TemporaryOutcome> = Vec::new();
        let mut i: usize = 0;
        while i < self.outcomes.len()
            invariant
                i <= self.outcomes.len(),
                forall|j: int|
                    0 <= j < found.len() ==> self.temporary_outcomes().contains_value(#[trigger] found@[j])
                        && temporary_outcome::dated_within(found@[j], *start_date, *end_date),
                forall|k: u64|
                    k <= i && self.temporary_outcomes().contains_key(k) && temporary_outcome::dated_within(
                        #[trigger] self.temporary_outcomes()[k],
                        *start_date,
                        *end_date,
                    ) ==> found@.contains(self.temporary_outcomes()[k]),
            decreases self.outcomes.len() - i,
        {
            match &self.outcomes[i] {
                Some(x) => {
                    if start_date.is_not_after(&x.date) && x.date.is_not_after(end_date) {
                        let ghost before = found@;
                        let ghost id = (i + 1) as u64;
                        let mut outcome = x.duplicate();
                        outcome.id = Some((i + 1) as u64);
                        assert(self.temporary_outcomes().contains_key(id) && self.temporary_outcomes()[id] == outcome);
                        found.push(outcome);
                        proof {
                            assert forall|k: u64|
                                k <= i + 1 && self.temporary_outcomes().contains_key(k)
                                    && temporary_outcome::dated_within(
                                    #[trigger] self.temporary_outcomes()[k],
                                    *start_date,
                                    *end_date,
                                ) implies found@.contains(self.temporary_outcomes()[k]) by {
                                if k <= i {
                                    let j = choose|j: int| 0 <= j < before.len() && before[j] == self.temporary_outcomes()[k];
                                    assert(found@[j] == self.temporary_outcomes()[k]);
                                } else {
                                    assert(found@[found.len() - 1] == self.temporary_outcomes()[k]);
                                }
                            }
                        }
                    }
                },
                None => {},
            }
            i = i + 1;
        }
        Ok(found)
    }

    fn store_temporary_outcome(&mut self, temporary_outcome: TemporaryOutcome) -> (r: Result<
        u64,
        FinanceError,
    >) {
        if self.outcomes.len() as u128 >= u64::MAX as u128 {
            return Err(FinanceError::Storage);
        }
        let id = (self.outcomes.len() as u64) + 1;
        let ghost given = temporary_outcome;
        let mut stored = temporary_outcome;
        stored.id = Some(id);
        self.outcomes.push(Some(stored));
        proof {
            assert(self.temporary_outcomes() =~= old(self).temporary_outcomes().insert(id, temporary_with_id(given, id)));
        }
        Ok(id)
    }

    fn update_temporary_outcome(&mut self, temporary_outcome: TemporaryOutcome) -> (r: Result<
        (),
        FinanceError,
    >) {
        let id = match temporary_outcome.id {
            Some(id) => id,
            None => return Err(FinanceError::NotFound),
        };
        let i = match slot_index(self.outcomes.len(), id) {
            Some(i) => i,
            None => return Err(FinanceError::NotFound),
        };
        if self.outcomes[i].is_none() {
            return Err(FinanceError::NotFound);
        }
        let ghost given = temporary_outcome;
        self.outcomes.set(i, Some(temporary_outcome));
        proof {
            assert(temporary_with_id(given, id) == given);
            assert(self.temporary_outcomes() =~= old(self).temporary_outcomes().insert(id, given));
        }
        Ok(())
    }

    fn get_temporary_outcome_by_id(&self, id: u64) -> (r: Result<Option<TemporaryOutcome>, FinanceError>) {
        match slot_index(self.outcomes.len(), id) {
            Some(i) => match &self.outcomes[i] {
                Some(x) => {
                    let mut found = x.duplicate();
                    found.id = Some(id);
                    Ok(Some(found))
                },
                None => Ok(None),
            },
            None => Ok(None),
        }
    }
}

/// A new, empty in-memory store of one-off outcomes.
pub fn get_temporary_outcome_repo() -> (r: DummyTemporaryOutcomeRepo)
    ensures
        r.temporary_outcomes() == Map::<u64, TemporaryOutcome>::empty(),
        r.never_fails(),
{
    DummyTemporaryOutcomeRepo::new()
}

} // verus!

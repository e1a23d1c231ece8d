use vstd::prelude::*;

use crate::amount::Amount;
use crate::error::FinanceError;
use crate::plan::income::{Income, IncomeRepo, ToIncome};
use crate::util::{
    closing_of, get_end_of_month, get_next_ym, get_opening_and_closing_date, month_index, month_len,
    next_ym, opening_of, valid_date, valid_ym, DateTime, YearMonth, MAX_YEAR,
};

verus! {

/// When a part-time job pays a month's wages: at the end of the month, on a
/// fixed day, or the same one month later.
#[derive(Clone, Copy, Debug, PartialEq, Eq, Structural)]
pub enum PaymentTiming {
    End,
    Mid(u32),
    NextMonthEnd,
    NextMonthMid(u32),
}

/// A part-time job: a recurring income template with a validity window.
#[derive(Clone, Debug)]
pub struct PartTimeJob {
    pub id: Option<u64>,
    pub name: String,
    pub payment_timing: PaymentTiming,
    pub start_date: DateTime,
    /// `None` for a job without an end.
    pub end_date: Option<DateTime>,
}

/// An hourly wage of a job, in effect from a month on.
#[derive(Clone, Copy, Debug, PartialEq, Eq)]
pub struct PartTimeHourlyWage {
    pub part_time_job_id: u64,
    pub hourly_wage: Amount,
    pub start_year_and_month: (i32, u32),
}

/// The wages of a job for one month, paid on `payment_date`.
#[derive(Clone, Debug)]
pub struct PartTimeJobIncome {
    pub id: Option<u64>,
    pub part_time_job_id: u64,
    pub name: String,
    pub hourly_wage: Amount,
    pub hour: Amount,
    pub payment_date: DateTime,
}

/// The day on which a timing pays the wages of month `(year, month)`, at
/// midnight; `None` where that day is not in the calendar.
pub open spec fn payment_date_of(timing: PaymentTiming, year: i32, month: u32) -> Option<DateTime> {
    let pay = match timing {
        PaymentTiming::End | PaymentTiming::Mid(_) => (year, month),
        PaymentTiming::NextMonthEnd | PaymentTiming::NextMonthMid(_) => next_ym((year, month)),
    };
    let day = match timing {
        PaymentTiming::End | PaymentTiming::NextMonthEnd => month_len(pay.0 as int, pay.1 as int),
        PaymentTiming::Mid(d) | PaymentTiming::NextMonthMid(d) => d as int,
    };
    if valid_ym((year, month)) && valid_date(pay.0 as int, pay.1 as int, day) {
        Some(DateTime { year: pay.0, month: pay.1, day: day as u32, second: 0 })
    } else {
        None
    }
}

/// A validity window from `start` to `end` (open where `None`) meets the
/// period from `range_start` to `range_end`, all bounds included.
pub open spec fn window_overlaps(
    start: DateTime,
    end: Option<DateTime>,
    range_start: DateTime,
    range_end: DateTime,
) -> bool {
    start.le(range_end) && match end {
        Some(e) => range_start.le(e),
        None => true,
    }
}

/// A validity window that ends exactly at the start of a period, and starts
/// no later than its end, meets the period; one that ends before the start
/// of the period does not.
pub proof fn lemma_window_boundary(
    start: DateTime,
    end: DateTime,
    range_start: DateTime,
    range_end: DateTime,
)
    requires
        start.le(range_end),
    ensures
        end == range_start ==> window_overlaps(start, Some(end), range_start, range_end),
        end.lt(range_start) ==> !window_overlaps(start, Some(end), range_start, range_end),
{
}

/// Whether a wage entry belongs to job `job_id` and is in effect in month `ym`.
pub open spec fn wage_applies(w: PartTimeHourlyWage, job_id: u64, ym: YearMonth) -> bool {
    w.part_time_job_id == job_id && month_index(w.start_year_and_month) <= month_index(ym)
}

/// `w` is the entry of the table for job `job_id` whose start is the latest
/// one not after month `ym`.
pub open spec fn is_wage_in_effect(
    wages: Seq<PartTimeHourlyWage>,
    job_id: u64,
    ym: YearMonth,
    w: PartTimeHourlyWage,
) -> bool {
    &&& wages.contains(w)
    &&& wage_applies(w, job_id, ym)
    &&& forall|v: PartTimeHourlyWage|
        #[trigger] wages.contains(v) && wage_applies(v, job_id, ym) ==> month_index(
            v.start_year_and_month,
        ) <= month_index(w.start_year_and_month)
}

/// The hourly wage of job `job_id` in month `ym`: the one in effect, or
/// zero where the table has none.
pub open spec fn wage_rate_of(wages: Seq<PartTimeHourlyWage>, job_id: u64, ym: YearMonth, rate: Amount) -> bool {
    (exists|w: PartTimeHourlyWage| #[trigger] is_wage_in_effect(wages, job_id, ym, w) && w.hourly_wage == rate)
    || ((forall|v: PartTimeHourlyWage| #[trigger] wages.contains(v) ==> !wage_applies(v, job_id, ym)) && rate.units == 0)
}

/// Whether an instance is the one of job `job_id` paid in month `ym`.
pub open spec fn pays_in(x: PartTimeJobIncome, job_id: u64, ym: YearMonth) -> bool {
    x.part_time_job_id == job_id && x.payment_date.year == ym.0 && x.payment_date.month == ym.1
}

/// At most one stored instance per job and payment month.
pub open spec fn one_per_month(instances: Map<u64, PartTimeJobIncome>) -> bool {
    forall|a: u64, b: u64|
        #![trigger instances[a], instances[b]]
        instances.contains_key(a) && instances.contains_key(b) && instances[a].part_time_job_id
            == instances[b].part_time_job_id && instances[a].payment_date.year
            == instances[b].payment_date.year && instances[a].payment_date.month
            == instances[b].payment_date.month ==> a == b
}

/// Whether some stored instance is the one of job `job_id` paid in month `ym`.
pub open spec fn has_instance(instances: Map<u64, PartTimeJobIncome>, job_id: u64, ym: YearMonth) -> bool {
    exists|id: u64| #[trigger] instances.contains_key(id) && pays_in(instances[id], job_id, ym)
}

/// Whether `x` is stored in `instances`.
pub open spec fn is_stored_instance(instances: Map<u64, PartTimeJobIncome>, x: PartTimeJobIncome) -> bool {
    exists|id: u64| #[trigger] instances.contains_key(id) && instances[id] == x
}

/// Whether `new` is `old` with the job's new instance `x` stored under the
/// fresh id `id`, with zero hours and the wage in effect in the target month.
pub open spec fn created_as(
    old: Map<u64, PartTimeJobIncome>,
    wages: Seq<PartTimeHourlyWage>,
    job: PartTimeJob,
    year: i32,
    month: u32,
    id: u64,
    x: PartTimeJobIncome,
    new: Map<u64, PartTimeJobIncome>,
) -> bool {
    &&& !old.contains_key(id)
    &&& new == old.insert(id, x)
    &&& x.id == Some(id)
    &&& x.part_time_job_id == job.id->0
    &&& x.name == job.name
    &&& x.hour.units == 0
    &&& payment_date_of(job.payment_timing, year, month) == Some(x.payment_date)
    &&& wage_rate_of(wages, job.id->0, (year, month), x.hourly_wage)
}

/// How materializing job `job` for month `(year, month)` takes the stored
/// instances from `old` to `new` and returns `x`: the instance of the job
/// paid in the payment month is returned unchanged where there is one;
/// otherwise a new one is stored under a fresh id, with zero hours and the
/// wage in effect in the target month, and returned with its id.
pub open spec fn materialized(
    old: Map<u64, PartTimeJobIncome>,
    wages: Seq<PartTimeHourlyWage>,
    job: PartTimeJob,
    year: i32,
    month: u32,
    x: PartTimeJobIncome,
    new: Map<u64, PartTimeJobIncome>,
) -> bool {
    &&& job.id is Some
    &&& payment_date_of(job.payment_timing, year, month) matches Some(pd)
    &&& {
        let pd = payment_date_of(job.payment_timing, year, month)->0;
        let key = (pd.year, pd.month);
        if has_instance(old, job.id->0, key) {
            is_stored_instance(old, x) && pays_in(x, job.id->0, key) && new == old
        } else {
            exists|id: u64| #[trigger] created_as(old, wages, job, year, month, id, x, new)
        }
    }
}

/// Whether the instance's wage times hours fits and needs no more decimal
/// places than an amount has.
pub open spec fn wages_product_exact(x: PartTimeJobIncome) -> bool {
    crate::amount::fits(x.hourly_wage.units * x.hour.units) && (x.hourly_wage.units * x.hour.units) % (
    crate::amount::UNITS_PER_WHOLE as int) == 0
}

impl ToIncome for PartTimeJobIncome {
    /// The wages as a dated income: hourly wage times hours, or `Overflow`
    /// where the product does not fit or needs more decimal places.
    fn to_income(&self) -> (r: Result<Income, FinanceError>)
        ensures
            match r {
                Ok(i) => i.name == self.name && i.date == self.payment_date && i.amount.units
                    * crate::amount::UNITS_PER_WHOLE == self.hourly_wage.units * self.hour.units,
                Err(e) => e == FinanceError::Overflow && !wages_product_exact(*self),
            },
    {
        match self.hourly_wage.checked_mul(self.hour) {
            Some(amount) => Ok(Income { name: self.name.clone(), amount, date: self.payment_date }),
            None => Err(FinanceError::Overflow),
        }
    }
}

impl PartTimeJobIncome {
    /// A copy of the instance.
    pub fn duplicate(&self) -> (r: PartTimeJobIncome)
        ensures
            r == *self,
    {
        PartTimeJobIncome {
            id: self.id,
            part_time_job_id: self.part_time_job_id,
            name: self.name.clone(),
            hourly_wage: self.hourly_wage,
            hour: self.hour,
            payment_date: self.payment_date,
        }
    }

    /// The instance with new values, keeping its id and job.
    pub fn update(&self, name: String, hourly_wage: Amount, hour: Amount, payment_date: DateTime) -> (r:
        Self)
        ensures
            r == (PartTimeJobIncome {
                id: self.id,
                part_time_job_id: self.part_time_job_id,
                name,
                hourly_wage,
                hour,
                payment_date,
            }),
    {
        PartTimeJobIncome {
            id: self.id,
            part_time_job_id: self.part_time_job_id,
            name,
            hourly_wage,
            hour,
            payment_date,
        }
    }
}

/// A store of part-time jobs, their wage table and their materialized
/// monthly incomes.
pub trait PartTimeJobRepo: IncomeRepo {
    /// The stored jobs, by id.
    spec fn jobs(&self) -> Map<u64, PartTimeJob>;

    /// The wage table.
    spec fn wages(&self) -> Seq<PartTimeHourlyWage>;

    /// The stored instances, by id.
    spec fn job_incomes(&self) -> Map<u64, PartTimeJobIncome>;

    /// Whether reads, updates and storing jobs and wages succeed.
    spec fn never_fails(&self) -> bool;

    /// How many more instances can be stored.
    spec fn instance_room(&self) -> nat;

    /// A bound on the number of jobs that a listing returns.
    spec fn job_count(&self) -> nat;

    /// The jobs whose validity window meets the period.
    fn list_part_time_jobs(&self, start_date: &DateTime, end_date: &DateTime) -> (r: Result<
        Vec<PartTimeJob>,
        FinanceError,
    >)
        ensures
            self.never_fails() ==> r is Ok,
            r matches Ok(v) ==> v.len() <= self.job_count(),
            r matches Ok(v) ==> forall|i: int, j: int|
                0 <= i < j < v.len() ==> (#[trigger] v@[i]).id != (#[trigger] v@[j]).id,
            r matches Ok(v) ==> (forall|i: int|
                0 <= i < v.len() ==> self.jobs().contains_value(#[trigger] v@[i]) && v@[i].id
                    is Some && window_overlaps(v@[i].start_date, v@[i].end_date, *start_date, *end_date)),
            r matches Ok(v) ==> (forall|id: u64|
                self.jobs().contains_key(id) && window_overlaps(
                    #[trigger] self.jobs()[id].start_date,
                    self.jobs()[id].end_date,
                    *start_date,
                    *end_date,
                ) ==> v@.contains(self.jobs()[id])),
    ;

    fn get_part_time_job_by_id(&self, id: u64) -> (r: Result<Option<PartTimeJob>, FinanceError>)
        ensures
            self.never_fails() ==> r is Ok,
            match r {
                Ok(Some(x)) => self.jobs().contains_key(id) && x == self.jobs()[id],
                Ok(None) => !self.jobs().contains_key(id),
                Err(_) => true,
            },
    ;

    /// Stores a new job under a fresh id, which it returns.
    fn store_part_time_job(&mut self, part_time_job: PartTimeJob) -> (r: Result<u64, FinanceError>)
        ensures
            old(self).never_fails() ==> r is Ok,
            r matches Ok(id) ==> !old(self).jobs().contains_key(id) && final(self).jobs()
                == old(self).jobs().insert(id, job_with_id(part_time_job, id))
                && final(self).wages() == old(self).wages() && final(self).job_incomes()
                == old(self).job_incomes(),
    ;

    /// Replaces the job stored under the job's own id; there must be one.
    fn update_part_time_job(&mut self, part_time_job: PartTimeJob) -> (r: Result<(), FinanceError>)
        requires
            part_time_job.id is Some,
        ensures
            old(self).never_fails() && old(self).jobs().contains_key(part_time_job.id->0) ==> r is Ok,
            final(self).never_fails() == old(self).never_fails(),
            r is Ok ==> final(self).jobs() == old(self).jobs().insert(part_time_job.id->0, part_time_job)
                && final(self).wages() == old(self).wages() && final(self).job_incomes()
                == old(self).job_incomes(),
    ;

    /// The wage in effect for job `part_time_job_id` in month `(year, month)`.
    fn get_part_time_job_hourly_wage(&self, part_time_job_id: u64, year: i32, month: u32) -> (r:
        Result<Option<PartTimeHourlyWage>, FinanceError>)
        ensures
            self.never_fails() ==> r is Ok,
            match r {
                Ok(Some(w)) => is_wage_in_effect(self.wages(), part_time_job_id, (year, month), w),
                Ok(None) => forall|v: PartTimeHourlyWage|
                    #[trigger] self.wages().contains(v) ==> !wage_applies(v, part_time_job_id, (year, month)),
                Err(_) => true,
            },
    ;

    /// The wage entry of a job that starts in a given month.
    fn get_part_time_job_hourly_wage_by_start_year_and_month(
        &self,
        part_time_job_id: u64,
        start_year_and_month: (i32, u32),
    ) -> (r: Result<Option<PartTimeHourlyWage>, FinanceError>)
        ensures
            self.never_fails() ==> r is Ok,
            match r {
                Ok(Some(w)) => self.wages().contains(w) && w.part_time_job_id == part_time_job_id
                    && w.start_year_and_month == start_year_and_month,
                Ok(None) => forall|v: PartTimeHourlyWage|
                    #[trigger] self.wages().contains(v) ==> !(v.part_time_job_id == part_time_job_id
                        && v.start_year_and_month == start_year_and_month),
                Err(_) => true,
            },
    ;

    /// Adds a wage entry.
    fn store_part_time_job_hourly_wage(
        &mut self,
        part_time_job_id: u64,
        hourly_wage: Amount,
        start_year_and_month: (i32, u32),
    ) -> (r: Result<(), FinanceError>)
        ensures
            old(self).never_fails() ==> r is Ok,
            final(self).never_fails() == old(self).never_fails(),
            r is Ok ==> final(self).wages() == old(self).wages().push(
                PartTimeHourlyWage { part_time_job_id, hourly_wage, start_year_and_month },
            ) && final(self).jobs() == old(self).jobs() && final(self).job_incomes()
                == old(self).job_incomes(),
    ;

    /// Sets the wage of the entries of a job that start in a given month.
    fn update_part_time_job_hourly_wage(
        &mut self,
        part_time_job_id: u64,
        hourly_wage: Amount,
        start_year_and_month: (i32, u32),
    ) -> (r: Result<(), FinanceError>)
        ensures
            old(self).never_fails() ==> r is Ok,
            final(self).never_fails() == old(self).never_fails(),
            r is Ok ==> final(self).wages() == old(self).wages().map_values(
                |v: PartTimeHourlyWage|
                    if v.part_time_job_id == part_time_job_id && v.start_year_and_month
                        == start_year_and_month {
                        PartTimeHourlyWage { part_time_job_id, hourly_wage, start_year_and_month }
                    } else {
                        v
                    },
            ) && final(self).jobs() == old(self).jobs() && final(self).job_incomes()
                == old(self).job_incomes(),
    ;

    fn get_part_time_job_income_by_id(&self, id: u64) -> (r: Result<
        Option<PartTimeJobIncome>,
        FinanceError,
    >)
        ensures
            self.never_fails() ==> r is Ok,
            match r {
                Ok(Some(x)) => self.job_incomes().contains_key(id) && x == self.job_incomes()[id],
                Ok(None) => !self.job_incomes().contains_key(id),
                Err(_) => true,
            },
    ;

    /// The instance of job `part_time_job_id` paid in month `(year, month)`.
    fn get_part_time_job_income_by_part_time_job_id(
        &self,
        part_time_job_id: u64,
        year: i32,
        month: u32,
    ) -> (r: Result<Option<PartTimeJobIncome>, FinanceError>)
        ensures
            self.never_fails() ==> r is Ok,
            match r {
                Ok(Some(x)) => is_stored_instance(self.job_incomes(), x) && pays_in(
                    x,
                    part_time_job_id,
                    (year, month),
                ),
                Ok(None) => !has_instance(self.job_incomes(), part_time_job_id, (year, month)),
                Err(_) => true,
            },
    ;

    /// Stores a new instance under a fresh id, which it returns.
    fn store_part_time_job_income(&mut self, part_time_job_income: PartTimeJobIncome) -> (r: Result<
        u64,
        FinanceError,
    >)
        ensures
            old(self).never_fails() && old(self).instance_room() > 0 ==> r is Ok,
            r is Err ==> final(self).job_incomes() == old(self).job_incomes() && final(self).jobs() == old(self).jobs()
                && final(self).wages() == old(self).wages(),
            r is Ok ==> final(self).never_fails() == old(self).never_fails() && final(self).job_count()
                == old(self).job_count() && final(self).instance_room() + 1 == old(self).instance_room(),
            r matches Ok(id) ==> !old(self).job_incomes().contains_key(id) && final(self).job_incomes() == old(self).job_incomes().insert(
                id,
                income_with_id(part_time_job_income, id),
            ) && final(self).jobs() == old(self).jobs() && final(self).wages() == old(self).wages(),
    ;

    /// Replaces the instance stored under the instance's own id; there must be one.
    fn update_part_time_job_income(&mut self, part_time_job_income: PartTimeJobIncome) -> (r:
        Result<(), FinanceError>)
        requires
            part_time_job_income.id is Some,
        ensures
            old(self).never_fails() && old(self).job_incomes().contains_key(
                part_time_job_income.id->0,
            ) ==> r is Ok,
            final(self).never_fails() == old(self).never_fails(),
            r is Ok ==> final(self).job_incomes() == old(self).job_incomes().insert(
                part_time_job_income.id->0,
                part_time_job_income,
            ) && final(self).jobs() == old(self).jobs() && final(self).wages() == old(self).wages(),
    ;
}

/// The job as stored under `id`.
pub open spec fn job_with_id(job: PartTimeJob, id: u64) -> PartTimeJob {
    PartTimeJob {
        id: Some(id),
        name: job.name,
        payment_timing: job.payment_timing,
        start_date: job.start_date,
        end_date: job.end_date,
    }
}

/// The instance as stored under `id`.
pub open spec fn income_with_id(x: PartTimeJobIncome, id: u64) -> PartTimeJobIncome {
    PartTimeJobIncome {
        id: Some(id),
        part_time_job_id: x.part_time_job_id,
        name: x.name,
        hourly_wage: x.hourly_wage,
        hour: x.hour,
        payment_date: x.payment_date,
    }
}

/// The wage table after setting `w`: the entries of the same job and start
/// month take its wage where there are any, else `w` is appended.
pub open spec fn wages_after_setting(wages: Seq<PartTimeHourlyWage>, w: PartTimeHourlyWage) -> Seq<PartTimeHourlyWage> {
    if exists|v: PartTimeHourlyWage|
        #[trigger] wages.contains(v) && v.part_time_job_id == w.part_time_job_id && v.start_year_and_month
            == w.start_year_and_month {
        wages.map_values(
            |v: PartTimeHourlyWage|
                if v.part_time_job_id == w.part_time_job_id && v.start_year_and_month
                    == w.start_year_and_month {
                    w
                } else {
                    v
                },
        )
    } else {
        wages.push(w)
    }
}

impl PartTimeJob {
    /// A copy of the job.
    pub fn duplicate(&self) -> (r: PartTimeJob)
        ensures
            r == *self,
    {
        PartTimeJob {
            id: self.id,
            name: self.name.clone(),
            payment_timing: self.payment_timing,
            start_date: self.start_date,
            end_date: self.end_date,
        }
    }

    /// The wage entry in effect for the job in month `(year, month)`; `None`
    /// where there is none or the store fails.
    pub fn get_hourly_wage<R: PartTimeJobRepo>(&self, year: i32, month: u32, repo: &R) -> (r: Option<
        PartTimeHourlyWage,
    >)
        requires
            self.id is Some,
        ensures
            match r {
                Some(w) => is_wage_in_effect(repo.wages(), self.id->0, (year, month), w),
                None => repo.never_fails() ==> forall|v: PartTimeHourlyWage|
                    #[trigger] repo.wages().contains(v) ==> !wage_applies(v, self.id->0, (year, month)),
            },
    {
        let id = match self.id {
            Some(id) => id,
            None => return None,
        };
        match repo.get_part_time_job_hourly_wage(id, year, month) {
            Ok(found) => found,
            Err(_) => None,
        }
    }

    /// Sets the job's wage from month `start_year_and_month` on: the entry
    /// that starts then is updated where there is one, else one is added.
    pub fn set_hourly_wage<R: PartTimeJobRepo>(
        &self,
        hourly_wage: Amount,
        start_year_and_month: (i32, u32),
        repo: &mut R,
    ) -> (r: Result<(), FinanceError>)
        requires
            self.id is Some,
        ensures
            old(repo).never_fails() ==> r is Ok,
            final(repo).never_fails() == old(repo).never_fails(),
            r is Ok ==> final(repo).wages().contains(
                PartTimeHourlyWage { part_time_job_id: self.id->0, hourly_wage, start_year_and_month },
            ),
            r is Ok ==> final(repo).wages() == wages_after_setting(
                old(repo).wages(),
                PartTimeHourlyWage { part_time_job_id: self.id->0, hourly_wage, start_year_and_month },
            ),
            r is Ok ==> final(repo).jobs() == old(repo).jobs() && final(repo).job_incomes() == old(repo).job_incomes(),
    {
        let id = match self.id {
            Some(id) => id,
            None => return Err(FinanceError::NotFound),
        };
        let wanted = PartTimeHourlyWage { part_time_job_id: id, hourly_wage, start_year_and_month };
        match repo.get_part_time_job_hourly_wage_by_start_year_and_month(id, start_year_and_month) {
            Ok(Some(existing)) => {
                let ghost w = repo.wages();
                let ghost i = choose|i: int| 0 <= i < w.len() && w[i] == existing;
                repo.update_part_time_job_hourly_wage(id, hourly_wage, start_year_and_month)?;
                assert(repo.wages()[i] == wanted);
                assert(w.contains(existing));
            },
            Ok(None) => {
                repo.store_part_time_job_hourly_wage(id, hourly_wage, start_year_and_month)?;
                assert(repo.wages()[repo.wages().len() - 1] == wanted);
            },
            Err(e) => return Err(e),
        }
        Ok(())
    }

    /// The day on which the job pays the wages of month `(year, month)`, or
    /// `InvalidDate` where that day is not in the calendar.
    pub fn get_payment_date(&self, year: i32, month: u32) -> (r: Result<DateTime, FinanceError>)
        ensures
            match r {
                Ok(d) => payment_date_of(self.payment_timing, year, month) == Some(d),
                Err(e) => payment_date_of(self.payment_timing, year, month) is None && e
                    == FinanceError::InvalidDate,
            },
    {
        if !(year >= crate::util::MIN_YEAR && year <= MAX_YEAR && month >= 1 && month <= 12) {
            return Err(FinanceError::InvalidDate);
        }
        match self.payment_timing {
            PaymentTiming::End => get_end_of_month(year, month),
            PaymentTiming::Mid(day) => DateTime::at_midnight(year, month, day),
            PaymentTiming::NextMonthEnd => {
                if year == MAX_YEAR && month == 12 {
                    return Err(FinanceError::InvalidDate);
                }
                let (y, m) = get_next_ym((year, month));
                get_end_of_month(y, m)
            },
            PaymentTiming::NextMonthMid(day) => {
                if year == MAX_YEAR && month == 12 {
                    return Err(FinanceError::InvalidDate);
                }
                let (y, m) = get_next_ym((year, month));
                DateTime::at_midnight(y, m, day)
            },
        }
    }

    /// Creates and stores the job's instance for month `(year, month)` with
    /// `hour` hours and the wage in effect that month (zero where there is none).
    pub fn to_part_time_job_income<R: PartTimeJobRepo>(
        &self,
        year: i32,
        month: u32,
        hour: Amount,
        repo: &mut R,
    ) -> (r: Result<PartTimeJobIncome, FinanceError>)
        requires
            self.id is Some,
        ensures
            match r {
                Ok(x) => x.id is Some && !old(repo).job_incomes().contains_key(x.id->0) && final(repo).job_incomes()
                    == old(repo).job_incomes().insert(x.id->0, x) && x.part_time_job_id == self.id->0
                    && x.name == self.name && x.hour == hour && payment_date_of(
                    self.payment_timing,
                    year,
                    month,
                ) == Some(x.payment_date) && (old(repo).never_fails() ==> wage_rate_of(
                    old(repo).wages(),
                    self.id->0,
                    (year, month),
                    x.hourly_wage,
                )),
                Err(_) => true,
            },
            r is Ok ==> final(repo).jobs() == old(repo).jobs() && final(repo).wages() == old(repo).wages(),
            r is Ok ==> final(repo).never_fails() == old(repo).never_fails() && final(repo).job_count()
                == old(repo).job_count() && final(repo).instance_room() + 1 == old(repo).instance_room(),
            r is Err ==> final(repo).job_incomes() == old(repo).job_incomes() && final(repo).jobs() == old(repo).jobs()
                && final(repo).wages() == old(repo).wages(),
            old(repo).never_fails() && old(repo).instance_room() > 0 && payment_date_of(
                self.payment_timing,
                year,
                month,
            ) is Some ==> r is Ok,
    {
        let hourly_wage = match self.get_hourly_wage(year, month, &*repo) {
            Some(wage) => wage.hourly_wage,
            None => Amount::zero(),
        };
        let job_id = match self.id {
            Some(id) => id,
            None => return Err(FinanceError::NotFound),
        };
        let payment_date = self.get_payment_date(year, month)?;
        let income = PartTimeJobIncome {
            id: None,
            part_time_job_id: job_id,
            name: self.name.clone(),
            hourly_wage,
            hour,
            payment_date,
        };
        let id = repo.store_part_time_job_income(income)?;
        let stored = PartTimeJobIncome {
            id: Some(id),
            part_time_job_id: job_id,
            name: self.name.clone(),
            hourly_wage,
            hour,
            payment_date,
        };
        assert(repo.job_incomes()[id] == stored);
        Ok(stored)
    }
}

/// The job's instance for month `(year, month)`: the stored one of its
/// payment month where there is one, else a new one with zero hours.
pub fn get_or_create_income<R: PartTimeJobRepo>(
    job: &PartTimeJob,
    year: i32,
    month: u32,
    repo: &mut R,
) -> (r: Result<PartTimeJobIncome, FinanceError>)
    requires
        job.id is Some,
    ensures
        r matches Ok(x) ==> old(repo).never_fails() ==> materialized(
            old(repo).job_incomes(),
            old(repo).wages(),
            *job,
            year,
            month,
            x,
            final(repo).job_incomes(),
        ),
        r is Ok ==> final(repo).jobs() == old(repo).jobs() && final(repo).wages() == old(repo).wages(),
        r is Ok ==> is_stored_instance(final(repo).job_incomes(), r->Ok_0),
        r matches Ok(x) ==> x.part_time_job_id == job.id->0,
        r is Ok ==> forall|k: u64|
            #[trigger] old(repo).job_incomes().contains_key(k) ==> final(repo).job_incomes().contains_key(k)
                && final(repo).job_incomes()[k] == old(repo).job_incomes()[k],
        r is Ok ==> final(repo).never_fails() == old(repo).never_fails() && final(repo).job_count()
            == old(repo).job_count() && final(repo).instance_room() + 1 >= old(repo).instance_room(),
        r is Ok && has_month_instance(old(repo).job_incomes(), *job, year, month) ==> final(repo).job_incomes() == old(repo).job_incomes(),
        r matches Ok(x) ==> (is_stored_instance(old(repo).job_incomes(), x) && final(repo).job_incomes()
            == old(repo).job_incomes()) || (x.hour.units == 0 && x.id is Some
            && !old(repo).job_incomes().contains_key(x.id->0) && final(repo).job_incomes()
            == old(repo).job_incomes().insert(x.id->0, x) && x.name == job.name && payment_date_of(
            job.payment_timing,
            year,
            month,
        ) == Some(x.payment_date)),
        final(repo).jobs() == old(repo).jobs() && final(repo).wages() == old(repo).wages(),
        forall|k: u64|
            #[trigger] old(repo).job_incomes().contains_key(k) ==> final(repo).job_incomes().contains_key(k)
                && final(repo).job_incomes()[k] == old(repo).job_incomes()[k],
        forall|k: u64|
            #[trigger] final(repo).job_incomes().contains_key(k) && !old(repo).job_incomes().contains_key(k)
                ==> pays_for_month(final(repo).job_incomes()[k], *job, year, month),
        r matches Ok(x) ==> pays_in(
            x,
            job.id->0,
            (payment_date_of(job.payment_timing, year, month)->0.year, payment_date_of(job.payment_timing, year, month)->0.month),
        ),
        old(repo).never_fails() && old(repo).instance_room() > 0 && payment_date_of(job.payment_timing, year, month) is Some
            ==> r is Ok,
        payment_date_of(job.payment_timing, year, month) is None ==> r == Err::<
            PartTimeJobIncome,
            FinanceError,
        >(FinanceError::InvalidDate),
{
    let payment_date = job.get_payment_date(year, month)?;
    let job_id = match job.id {
        Some(id) => id,
        None => return Err(FinanceError::NotFound),
    };
    match repo.get_part_time_job_income_by_part_time_job_id(
        job_id,
        payment_date.year,
        payment_date.month,
    )? {
        Some(income) => {
            proof {
                let k = choose|k: u64| #[trigger] repo.job_incomes().contains_key(k) && repo.job_incomes()[k] == income;
                assert(has_instance(repo.job_incomes(), job_id, (payment_date.year, payment_date.month)));
            }
            Ok(income)
        },
        None => {
            let ghost before = repo.job_incomes();
            let zero = Amount::zero();
            let x = job.to_part_time_job_income(year, month, zero, repo)?;
            proof {
                let id = x.id->0;
                if old(repo).never_fails() {
                    assert(created_as(before, old(repo).wages(), *job, year, month, id, x, repo.job_incomes()));
                }
                assert(repo.job_incomes().contains_key(id));
            }
            Ok(x)
        },
    }
}

/// Materializing a job for a month twice in a row, on a store that holds at
/// most one instance per job and payment month, returns the same instance
/// both times and leaves the store as the first call left it; the store
/// keeps at most one instance per job and payment month.
pub proof fn lemma_materialization_idempotent(
    old: Map<u64, PartTimeJobIncome>,
    wages: Seq<PartTimeHourlyWage>,
    job: PartTimeJob,
    year: i32,
    month: u32,
    first: PartTimeJobIncome,
    mid: Map<u64, PartTimeJobIncome>,
    second: PartTimeJobIncome,
    new: Map<u64, PartTimeJobIncome>,
)
    requires
        one_per_month(old),
        materialized(old, wages, job, year, month, first, mid),
        materialized(mid, wages, job, year, month, second, new),
    ensures
        second == first,
        new == mid,
        one_per_month(mid),
{
    let pd = payment_date_of(job.payment_timing, year, month)->0;
    let key = (pd.year, pd.month);
    if !has_instance(old, job.id->0, key) {
        let id = choose|id: u64| #[trigger] created_as(old, wages, job, year, month, id, first, mid);
        assert(mid.contains_key(id) && pays_in(mid[id], job.id->0, key));
        assert forall|a: u64, b: u64|
            #![trigger mid[a], mid[b]]
            mid.contains_key(a) && mid.contains_key(b) && mid[a].part_time_job_id
                == mid[b].part_time_job_id && mid[a].payment_date.year == mid[b].payment_date.year
                && mid[a].payment_date.month == mid[b].payment_date.month implies a == b by {
            if a != id && b != id {
                assert(old[a] == mid[a] && old[b] == mid[b]);
            } else if a == id && b != id {
                assert(old.contains_key(b) && pays_in(old[b], job.id->0, key));
            } else if b == id && a != id {
                assert(old.contains_key(a) && pays_in(old[a], job.id->0, key));
            }
        }
    }
    assert(has_instance(mid, job.id->0, key));
    let i1 = choose|i: u64| #[trigger] mid.contains_key(i) && mid[i] == first;
    let i2 = choose|i: u64| #[trigger] mid.contains_key(i) && mid[i] == second;
    assert(mid[i1] == first);
    assert(mid[i2] == second);
}

/// Whether a projection income is the one that instance `x` contributes.
pub open spec fn is_income_of(i: Income, x: PartTimeJobIncome) -> bool {
    i.name == x.name && i.date == x.payment_date && i.amount.units * crate::amount::UNITS_PER_WHOLE
        == x.hourly_wage.units * x.hour.units
}

/// Whether a projection income is contributed by a stored instance.
pub open spec fn comes_from_instance(instances: Map<u64, PartTimeJobIncome>, i: Income) -> bool {
    exists|x: PartTimeJobIncome| #[trigger] is_income_of(i, x) && is_stored_instance(instances, x)
}

/// Whether `x` is an instance of `job` paid in the month in which the job
/// pays the wages of `(year, month)`.
pub open spec fn pays_for_month(x: PartTimeJobIncome, job: PartTimeJob, year: i32, month: u32) -> bool {
    &&& payment_date_of(job.payment_timing, year, month) is Some
    &&& pays_in(
        x,
        job.id->0,
        (payment_date_of(job.payment_timing, year, month)->0.year, payment_date_of(job.payment_timing, year, month)->0.month),
    )
}

/// Whether some stored instance of `job` is paid in the month in which the
/// job pays the wages of `(year, month)`.
pub open spec fn has_month_instance(instances: Map<u64, PartTimeJobIncome>, job: PartTimeJob, year: i32, month: u32) -> bool {
    &&& payment_date_of(job.payment_timing, year, month) is Some
    &&& has_instance(
        instances,
        job.id->0,
        (payment_date_of(job.payment_timing, year, month)->0.year, payment_date_of(job.payment_timing, year, month)->0.month),
    )
}

/// Whether every job whose validity window meets month `(year, month)` has a
/// stored instance paid in the month in which it pays that month's wages.
pub open spec fn all_have_instances(
    jobs: Map<u64, PartTimeJob>,
    instances: Map<u64, PartTimeJobIncome>,
    year: i32,
    month: u32,
) -> bool {
    forall|id: u64|
        jobs.contains_key(id) && window_overlaps(
            #[trigger] jobs[id].start_date,
            jobs[id].end_date,
            opening_of((year, month)),
            closing_of((year, month)),
        ) ==> has_month_instance(instances, jobs[id], year, month)
}

/// Whether every job whose validity window meets month `(year, month)` has a
/// payment day for that month.
pub open spec fn all_pay_dates_exist(jobs: Map<u64, PartTimeJob>, year: i32, month: u32) -> bool {
    forall|id: u64|
        jobs.contains_key(id) && window_overlaps(
            #[trigger] jobs[id].start_date,
            jobs[id].end_date,
            opening_of((year, month)),
            closing_of((year, month)),
        ) ==> payment_date_of(jobs[id].payment_timing, year, month) is Some
}

/// `listed` holds, without repeated ids, exactly the stored jobs whose
/// validity window meets month `(year, month)`.
pub open spec fn lists_jobs_for(jobs: Map<u64, PartTimeJob>, listed: Seq<PartTimeJob>, year: i32, month: u32) -> bool {
    &&& forall|i: int|
        0 <= i < listed.len() ==> jobs.contains_value(#[trigger] listed[i]) && listed[i].id is Some
            && window_overlaps(listed[i].start_date, listed[i].end_date, opening_of((year, month)), closing_of((year, month)))
    &&& forall|id: u64|
        jobs.contains_key(id) && window_overlaps(
            #[trigger] jobs[id].start_date,
            jobs[id].end_date,
            opening_of((year, month)),
            closing_of((year, month)),
        ) ==> listed.contains(jobs[id])
    &&& forall|i: int, j: int| 0 <= i < j < listed.len() ==> (#[trigger] listed[i]).id != (#[trigger] listed[j]).id
}

/// The instance `x` that materializing `job` for `(year, month)` gave, from
/// the stored instances `old` before the listing to `new` after it: the one
/// stored for the payment month where there was one, else a new one with
/// zero hours, paid on the job's payment day, with the wage in effect in the
/// target month where the store cannot fail.
pub open spec fn job_result(
    old: Map<u64, PartTimeJobIncome>,
    new: Map<u64, PartTimeJobIncome>,
    wages: Seq<PartTimeHourlyWage>,
    never_fails: bool,
    job: PartTimeJob,
    year: i32,
    month: u32,
    x: PartTimeJobIncome,
) -> bool {
    &&& pays_for_month(x, job, year, month)
    &&& is_stored_instance(new, x)
    &&& has_month_instance(old, job, year, month) ==> is_stored_instance(old, x)
    &&& !has_month_instance(old, job, year, month) ==> x.id is Some && !old.contains_key(x.id->0)
        && new.contains_key(x.id->0) && new[x.id->0] == x && x.part_time_job_id == job.id->0 && x.name
        == job.name && x.hour.units == 0 && payment_date_of(job.payment_timing, year, month) == Some(
        x.payment_date,
    ) && (never_fails ==> wage_rate_of(wages, job.id->0, (year, month), x.hourly_wage))
}

/// Whether some income of `v` is contributed by a stored instance of `job`
/// paid in the month in which the job pays the wages of `(year, month)`.
pub open spec fn has_income_of_job(
    instances: Map<u64, PartTimeJobIncome>,
    v: Seq<Income>,
    job: PartTimeJob,
    year: i32,
    month: u32,
) -> bool {
    exists|i: int, x: PartTimeJobIncome|
        #![trigger is_income_of(v[i], x)]
        0 <= i < v.len() && is_stored_instance(instances, x) && pays_for_month(x, job, year, month)
            && is_income_of(v[i], x)
}

/// One step of materializing the listed jobs in turn: the instance that
/// job `i` gets, given that the instances created so far belong to the jobs
/// before it.
proof fn lemma_job_step(
    old: Map<u64, PartTimeJobIncome>,
    before: Map<u64, PartTimeJobIncome>,
    after: Map<u64, PartTimeJobIncome>,
    wages: Seq<PartTimeHourlyWage>,
    never_fails: bool,
    listed: Seq<PartTimeJob>,
    made: Seq<PartTimeJobIncome>,
    i: int,
    year: i32,
    month: u32,
    x: PartTimeJobIncome,
)
    requires
        0 <= i < listed.len(),
        made.len() == i,
        forall|j: int| 0 <= j < listed.len() ==> (#[trigger] listed[j]).id is Some,
        forall|a: int, b: int| 0 <= a < b < listed.len() ==> (#[trigger] listed[a]).id != (#[trigger] listed[b]).id,
        forall|k: u64|
            #[trigger] old.contains_key(k) ==> before.contains_key(k) && before[k] == old[k],
        forall|k: u64|
            #[trigger] before.contains_key(k) && !old.contains_key(k) ==> exists|j: int|
                0 <= j < i && made[j] == before[k] && !has_month_instance(old, #[trigger] listed[j], year, month)
                    && pays_for_month(before[k], listed[j], year, month),
        payment_date_of(listed[i].payment_timing, year, month) is Some,
        pays_for_month(x, listed[i], year, month),
        is_stored_instance(after, x),
        has_month_instance(before, listed[i], year, month) ==> after == before,
        (is_stored_instance(before, x) && after == before) || (x.hour.units == 0 && x.id is Some && !before.contains_key(x.id->0)
            && after == before.insert(x.id->0, x) && x.name == listed[i].name && payment_date_of(
            listed[i].payment_timing,
            year,
            month,
        ) == Some(x.payment_date)),
        x.part_time_job_id == listed[i].id->0,
        never_fails ==> materialized(before, wages, listed[i], year, month, x, after),
    ensures
        job_result(old, after, wages, never_fails, listed[i], year, month, x),
        has_month_instance(before, listed[i], year, month) == has_month_instance(old, listed[i], year, month),
{
    let t = listed[i];
    let key = (payment_date_of(t.payment_timing, year, month)->0.year, payment_date_of(t.payment_timing, year, month)->0.month);
    assert forall|k: u64| #[trigger] before.contains_key(k) && !old.contains_key(k) implies !pays_in(before[k], t.id->0, key) by {
        let j = choose|j: int|
            0 <= j < i && made[j] == before[k] && !has_month_instance(old, #[trigger] listed[j], year, month)
                && pays_for_month(before[k], listed[j], year, month);
        assert(listed[j].id != listed[i].id);
    }
    if has_month_instance(old, t, year, month) {
        let k = choose|k: u64| #[trigger] old.contains_key(k) && pays_in(old[k], t.id->0, key);
        assert(before.contains_key(k));
    }
    if has_month_instance(before, t, year, month) {
        let k = choose|k: u64| #[trigger] before.contains_key(k) && pays_in(before[k], t.id->0, key);
        assert(old.contains_key(k));
        let k2 = choose|k2: u64| #[trigger] after.contains_key(k2) && after[k2] == x;
        assert(before.contains_key(k2));
        assert(old.contains_key(k2));
        assert(is_stored_instance(old, x));
    } else {
        if is_stored_instance(before, x) && after == before {
            let k = choose|k: u64| #[trigger] before.contains_key(k) && before[k] == x;
            assert(has_month_instance(before, t, year, month));
        }
        assert(after.contains_key(x.id->0));
        if never_fails {
            let id = choose|id: u64| #[trigger] created_as(before, wages, t, year, month, id, x, after);
            assert(after.contains_key(id));
        }
    }
}

/// The incomes, for month `(year, month)`, of the jobs whose validity window
/// meets the month: each job's instance is materialized where it is missing.
#[verifier::rlimit(30)]
pub fn get_or_create_incomes<R: PartTimeJobRepo>(year: i32, month: u32, repo: &mut R) -> (r: Result<
    Vec<Income>,
    FinanceError,
>)
    ensures
        !valid_ym((year, month)) ==> r == Err::<Vec<Income>, FinanceError>(FinanceError::InvalidDate),
        r matches Ok(v) ==> forall|i: int|
            0 <= i < v.len() ==> comes_from_instance(final(repo).job_incomes(), #[trigger] v@[i]),
        r matches Ok(v) ==> forall|id: u64|
            old(repo).jobs().contains_key(id) && window_overlaps(
                #[trigger] old(repo).jobs()[id].start_date,
                old(repo).jobs()[id].end_date,
                opening_of((year, month)),
                closing_of((year, month)),
            ) ==> has_income_of_job(final(repo).job_incomes(), v@, old(repo).jobs()[id], year, month),
        r is Ok ==> forall|k: u64|
            #[trigger] old(repo).job_incomes().contains_key(k) ==> final(repo).job_incomes().contains_key(k)
                && final(repo).job_incomes()[k] == old(repo).job_incomes()[k],
        r is Ok ==> forall|k: u64|
            #[trigger] final(repo).job_incomes().contains_key(k) && !old(repo).job_incomes().contains_key(k)
                ==> final(repo).job_incomes()[k].hour.units == 0,
        r is Ok && all_have_instances(old(repo).jobs(), old(repo).job_incomes(), year, month)
            ==> final(repo).job_incomes() == old(repo).job_incomes(),
        r is Ok ==> final(repo).jobs() == old(repo).jobs() && final(repo).wages() == old(repo).wages()
            && final(repo).never_fails() == old(repo).never_fails(),
        r is Ok ==> all_pay_dates_exist(old(repo).jobs(), year, month) && all_have_instances(
            old(repo).jobs(),
            final(repo).job_incomes(),
            year,
            month,
        ),
        valid_ym((year, month)) && old(repo).never_fails() && old(repo).instance_room() >= old(repo).job_count()
            && all_pay_dates_exist(old(repo).jobs(), year, month) && (forall|k: u64|
            #[trigger] old(repo).job_incomes().contains_key(k) ==> wages_product_exact(old(repo).job_incomes()[k]))
            ==> r is Ok,
        r matches Ok(v) ==> exists|listed: Seq<PartTimeJob>, made: Seq<PartTimeJobIncome>|
            #![trigger lists_jobs_for(old(repo).jobs(), listed, year, month), made.len()]
            lists_jobs_for(old(repo).jobs(), listed, year, month) && made.len() == listed.len() && v.len()
                == listed.len() && (forall|i: int|
                0 <= i < listed.len() ==> is_income_of(v@[i], #[trigger] made[i]) && job_result(
                    old(repo).job_incomes(),
                    final(repo).job_incomes(),
                    old(repo).wages(),
                    old(repo).never_fails(),
                    listed[i],
                    year,
                    month,
                    made[i],
                )) && (forall|k: u64|
                #[trigger] final(repo).job_incomes().contains_key(k) && !old(repo).job_incomes().contains_key(k)
                    ==> exists|i: int|
                    0 <= i < listed.len() && made[i] == final(repo).job_incomes()[k] && !has_month_instance(
                        old(repo).job_incomes(),
                        #[trigger] listed[i],
                        year,
                        month,
                    )),
        forall|k: u64|
            #[trigger] final(repo).job_incomes().contains_key(k) && !old(repo).job_incomes().contains_key(k)
                ==> exists|j: PartTimeJob|
                old(repo).jobs().contains_value(j) && #[trigger] pays_for_month(final(repo).job_incomes()[k], j, year, month),
{
    let (start_date, end_date) = get_opening_and_closing_date(year, month)?;
    let part_time_jobs = repo.list_part_time_jobs(&start_date, &end_date)?;
    let ghost mut made: Seq<PartTimeJobIncome> = Seq::empty();
    let ghost all_have = all_have_instances(old(repo).jobs(), old(repo).job_incomes(), year, month);
    let ghost can_succeed = old(repo).never_fails() && old(repo).instance_room() >= old(repo).job_count()
        && all_pay_dates_exist(old(repo).jobs(), year, month) && (forall|k: u64|
        #[trigger] old(repo).job_incomes().contains_key(k) ==> wages_product_exact(old(repo).job_incomes()[k]));
    let mut incomes: Vec<Income> = Vec::new();
    let mut i: usize = 0;
    while i < part_time_jobs.len()
        invariant
            i <= part_time_jobs.len(),
            forall|j: int| 0 <= j < part_time_jobs.len() ==> (#[trigger] part_time_jobs@[j]).id is Some,
            forall|j: int| 0 <= j < part_time_jobs.len() ==> old(repo).jobs().contains_value(#[trigger] part_time_jobs@[j])
                && window_overlaps(part_time_jobs@[j].start_date, part_time_jobs@[j].end_date, start_date, end_date),
            part_time_jobs.len() <= old(repo).job_count(),
            forall|j: int|
                0 <= j < incomes.len() ==> comes_from_instance(repo.job_incomes(), #[trigger] incomes@[j]),
            repo.jobs() == old(repo).jobs(),
            repo.wages() == old(repo).wages(),
            repo.job_count() == old(repo).job_count(),
            repo.never_fails() == old(repo).never_fails(),
            repo.instance_room() + i >= old(repo).instance_room(),
            start_date == opening_of((year, month)),
            end_date == closing_of((year, month)),
            forall|id: u64|
                old(repo).jobs().contains_key(id) && window_overlaps(
                    #[trigger] old(repo).jobs()[id].start_date,
                    old(repo).jobs()[id].end_date,
                    start_date,
                    end_date,
                ) ==> part_time_jobs@.contains(old(repo).jobs()[id]),
            forall|j: int|
                0 <= j < i ==> has_income_of_job(repo.job_incomes(), incomes@, #[trigger] part_time_jobs@[j], year, month),
            forall|k: u64|
                #[trigger] old(repo).job_incomes().contains_key(k) ==> repo.job_incomes().contains_key(k)
                    && repo.job_incomes()[k] == old(repo).job_incomes()[k],
            forall|k: u64|
                #[trigger] repo.job_incomes().contains_key(k) && !old(repo).job_incomes().contains_key(k)
                    ==> repo.job_incomes()[k].hour.units == 0,
            all_have == all_have_instances(old(repo).jobs(), old(repo).job_incomes(), year, month),
            can_succeed == (old(repo).never_fails() && old(repo).instance_room() >= old(repo).job_count()
                && all_pay_dates_exist(old(repo).jobs(), year, month) && (forall|k: u64|
                #[trigger] old(repo).job_incomes().contains_key(k) ==> wages_product_exact(old(repo).job_incomes()[k]))),
            all_have ==> repo.job_incomes() == old(repo).job_incomes(),
            lists_jobs_for(old(repo).jobs(), part_time_jobs@, year, month),
            made.len() == i,
            incomes.len() == i,
            forall|j: int|
                0 <= j < i ==> is_income_of(incomes@[j], #[trigger] made[j]) && job_result(
                    old(repo).job_incomes(),
                    repo.job_incomes(),
                    old(repo).wages(),
                    old(repo).never_fails(),
                    part_time_jobs@[j],
                    year,
                    month,
                    made[j],
                ),
            forall|k: u64|
                #[trigger] repo.job_incomes().contains_key(k) && !old(repo).job_incomes().contains_key(k)
                    ==> exists|j: int|
                    0 <= j < i && made[j] == repo.job_incomes()[k] && !has_month_instance(
                        old(repo).job_incomes(),
                        #[trigger] part_time_jobs@[j],
                        year,
                        month,
                    ) && pays_for_month(repo.job_incomes()[k], part_time_jobs@[j], year, month),
            can_succeed ==> forall|k: u64|
                #[trigger] repo.job_incomes().contains_key(k) ==> wages_product_exact(repo.job_incomes()[k]),
        decreases part_time_jobs.len() - i,
    {
        let job = &part_time_jobs[i];
        let ghost before = repo.job_incomes();
        proof {
            let jv = part_time_jobs@[i as int];
            let id = choose|id: u64| old(repo).jobs().contains_key(id) && old(repo).jobs()[id] == jv;
            assert(window_overlaps(
                    old(repo).jobs()[id].start_date,
                    old(repo).jobs()[id].end_date,
                    opening_of((year, month)),
                    closing_of((year, month)),
                ));
        }
        let answer = get_or_create_income(job, year, month, repo);
        let ghost t = part_time_jobs@[i as int];
        proof {
            assert forall|k: u64|
                #[trigger] repo.job_incomes().contains_key(k) && !old(repo).job_incomes().contains_key(k)
                    implies exists|tt: PartTimeJob|
                    old(repo).jobs().contains_value(tt) && #[trigger] pays_for_month(repo.job_incomes()[k], tt, year, month) by {
                if before.contains_key(k) {
                    let j = choose|j: int|
                        0 <= j < i && made[j] == before[k] && !has_month_instance(
                            old(repo).job_incomes(),
                            #[trigger] part_time_jobs@[j],
                            year,
                            month,
                        ) && pays_for_month(before[k], part_time_jobs@[j], year, month);
                    assert(old(repo).jobs().contains_value(part_time_jobs@[j]));
                    assert(pays_for_month(repo.job_incomes()[k], part_time_jobs@[j], year, month));
                } else {
                    assert(old(repo).jobs().contains_value(t));
                    assert(pays_for_month(repo.job_incomes()[k], t, year, month));
                }
            }
        }
        let income = match answer {
            Ok(x) => x,
            Err(e) => return Err(e),
        };
        proof {
            lemma_job_step(
                old(repo).job_incomes(),
                before,
                repo.job_incomes(),
                old(repo).wages(),
                old(repo).never_fails(),
                part_time_jobs@,
                made,
                i as int,
                year,
                month,
                income,
            );
            let new_made = made.push(income);
            assert forall|j: int|
                0 <= j < i + 1 implies job_result(
                    old(repo).job_incomes(),
                    repo.job_incomes(),
                    old(repo).wages(),
                    old(repo).never_fails(),
                    part_time_jobs@[j],
                    year,
                    month,
                    #[trigger] new_made[j],
                ) by {
                if j < i {
                    assert(new_made[j] == made[j]);
                    let x = made[j];
                    let kx = choose|kx: u64| #[trigger] before.contains_key(kx) && before[kx] == x;
                    assert(repo.job_incomes().contains_key(kx));
                    if !has_month_instance(old(repo).job_incomes(), part_time_jobs@[j], year, month) {
                        assert(before.contains_key(x.id->0));
                    }
                }
            }
            assert forall|k: u64|
                #[trigger] repo.job_incomes().contains_key(k) && !old(repo).job_incomes().contains_key(k)
                    implies exists|j: int|
                    0 <= j < i + 1 && new_made[j] == repo.job_incomes()[k] && !has_month_instance(
                        old(repo).job_incomes(),
                        #[trigger] part_time_jobs@[j],
                        year,
                        month,
                    ) && pays_for_month(repo.job_incomes()[k], part_time_jobs@[j], year, month) by {
                if before.contains_key(k) {
                    let j = choose|j: int|
                        0 <= j < i && made[j] == before[k] && !has_month_instance(
                            old(repo).job_incomes(),
                            #[trigger] part_time_jobs@[j],
                            year,
                            month,
                        ) && pays_for_month(before[k], part_time_jobs@[j], year, month);
                    assert(new_made[j] == made[j]);
                } else {
                    assert(k == income.id->0);
                    assert(new_made[i as int] == income);
                    assert(!has_month_instance(old(repo).job_incomes(), t, year, month));
                }
            }
            made = new_made;
        }
        proof {
            assert forall|j: int| 0 <= j < incomes.len() implies comes_from_instance(
                repo.job_incomes(),
                #[trigger] incomes@[j],
            ) by {
                let x = choose|x: PartTimeJobIncome|
                    #![trigger is_income_of(incomes@[j], x)]
                    is_stored_instance(before, x) && is_income_of(incomes@[j], x);
                let k = choose|k: u64| #[trigger] before.contains_key(k) && before[k] == x;
                assert(repo.job_incomes().contains_key(k) && repo.job_incomes()[k] == x);
                assert(is_stored_instance(repo.job_incomes(), x));
            }
            if all_have {
                let jv = part_time_jobs@[i as int];
                let id = choose|id: u64| old(repo).jobs().contains_key(id) && old(repo).jobs()[id] == jv;
                assert(window_overlaps(
                    old(repo).jobs()[id].start_date,
                    old(repo).jobs()[id].end_date,
                    opening_of((year, month)),
                    closing_of((year, month)),
                ));
                assert(before == old(repo).job_incomes());
                assert(old(repo).jobs()[id] == jv);
                assert(old(repo).jobs().contains_key(id));
                assert(all_have_instances(old(repo).jobs(), old(repo).job_incomes(), year, month));
                assert(has_month_instance(old(repo).job_incomes(), old(repo).jobs()[id], year, month));
                assert(has_month_instance(before, jv, year, month));

            }
            if can_succeed {
                assert forall|k: u64| #[trigger] repo.job_incomes().contains_key(k) implies wages_product_exact(
                    repo.job_incomes()[k],
                ) by {
                    if before.contains_key(k) {
                        assert(repo.job_incomes()[k] == before[k]);
                    } else {
                        let x = repo.job_incomes()[k];
                        assert(x.hour.units == 0);
                        assert(x.hourly_wage.units * x.hour.units == 0) by (nonlinear_arith)
                            requires
                                x.hour.units == 0,
                        ;
                    }
                }
                let k = choose|k: u64| #[trigger] repo.job_incomes().contains_key(k) && repo.job_incomes()[k] == income;
                assert(repo.job_incomes().contains_key(k));
                assert(wages_product_exact(repo.job_incomes()[k]));
                assert(wages_product_exact(income));
            }
        }
        let ghost earlier = incomes@;
        let ghost grown = repo.job_incomes();
        let entry = income.to_income()?;
        assert(is_income_of(entry, income));
        incomes.push(entry);
        assert(incomes@[i as int] == entry);
        assert forall|j: int| 0 <= j < i + 1 implies is_income_of(incomes@[j], #[trigger] made[j]) by {
            if j < i {
                assert(incomes@[j] == earlier[j]);
            }
        }
        proof {
            assert(incomes@[incomes.len() - 1] == entry);
            assert forall|j: int| 0 <= j < i + 1 implies has_income_of_job(
                repo.job_incomes(),
                incomes@,
                #[trigger] part_time_jobs@[j],
                year,
                month,
            ) by {
                if j < i {
                    let (k, x) = choose|k: int, x: PartTimeJobIncome|
                        #![trigger is_income_of(earlier[k], x)]
                        0 <= k < earlier.len() && is_stored_instance(grown, x) && pays_for_month(x, part_time_jobs@[j], year, month)
                            && is_income_of(earlier[k], x);
                    assert(incomes@[k] == earlier[k]);
                    assert(is_income_of(incomes@[k], x));
                } else {
                    assert(is_income_of(incomes@[incomes.len() - 1], income));
                }
            }
        }
        i = i + 1;
    }
    proof {
        assert forall|id: u64|
            old(repo).jobs().contains_key(id) && window_overlaps(
                #[trigger] old(repo).jobs()[id].start_date,
                old(repo).jobs()[id].end_date,
                opening_of((year, month)),
                closing_of((year, month)),
            ) implies has_income_of_job(repo.job_incomes(), incomes@, old(repo).jobs()[id], year, month) by {
            let j = choose|j: int| 0 <= j < part_time_jobs.len() && part_time_jobs@[j] == old(repo).jobs()[id];
            assert(has_income_of_job(repo.job_incomes(), incomes@, part_time_jobs@[j], year, month));
        }
        assert forall|id: u64|
            old(repo).jobs().contains_key(id) && window_overlaps(
                #[trigger] old(repo).jobs()[id].start_date,
                old(repo).jobs()[id].end_date,
                opening_of((year, month)),
                closing_of((year, month)),
            ) implies has_month_instance(repo.job_incomes(), old(repo).jobs()[id], year, month) by {
            let job = old(repo).jobs()[id];
            assert(has_income_of_job(repo.job_incomes(), incomes@, job, year, month));
            let (i, x) = choose|i: int, x: PartTimeJobIncome|
                #![trigger is_income_of(incomes@[i], x)]
                0 <= i < incomes@.len() && is_stored_instance(repo.job_incomes(), x) && pays_for_month(x, job, year, month)
                    && is_income_of(incomes@[i], x);
            let k = choose|k: u64| #[trigger] repo.job_incomes().contains_key(k) && repo.job_incomes()[k] == x;
            assert(repo.job_incomes().contains_key(k));
        }
    }
    Ok(incomes)
}

} // verus!

use vstd::prelude::*;

use crate::amount::Amount;
use crate::error::FinanceError;
use crate::plan::outcome::{Outcome, OutcomeRepo, ToOutcome};
use crate::util::{
    closing_of, get_end_of_month, get_opening_and_closing_date, month_len, opening_of, valid_date,
    valid_ym, DateTime, YearMonth,
};

verus! {

/// When a monthly outcome is paid: at the end of the month or on a fixed day.
#[derive(Clone, Copy, Debug, PartialEq, Eq, Structural)]
pub enum PaymentTiming {
    End,
    Mid(u32),
}

/// A recurring monthly outcome with a flat amount and a validity window.
#[derive(Clone, Debug)]
pub struct MonthlyOutcomeTemplate {
    pub id: Option<u64>,
    pub name: String,
    pub amount: Amount,
    pub payment_timing: PaymentTiming,
    pub start_date: DateTime,
    /// `None` for a template without an end.
    pub end_date: Option<DateTime>,
}

/// A template's outcome for one month, paid on `payment_date`.
#[derive(Clone, Debug)]
pub struct MonthlyOutcome {
    pub id: Option<u64>,
    pub monthly_outcome_template_id: u64,
    pub name: String,
    pub amount: Amount,
    pub payment_date: DateTime,
}

/// The day on which a timing pays in month `(year, month)`, at midnight;
/// `None` where that day is not in the calendar.
pub open spec fn payment_date_of(timing: PaymentTiming, year: i32, month: u32) -> Option<DateTime> {
    let day = match timing {
        PaymentTiming::End => month_len(year as int, month as int),
        PaymentTiming::Mid(d) => d as int,
    };
    if valid_date(year as int, month as int, day) {
        Some(DateTime { year, month, day: day as u32, second: 0 })
    } else {
        None
    }
}

/// Whether an instance is the one of template `template_id` paid in month `ym`.
pub open spec fn pays_in(x: MonthlyOutcome, template_id: u64, ym: YearMonth) -> bool {
    x.monthly_outcome_template_id == template_id && x.payment_date.year == ym.0
        && x.payment_date.month == ym.1
}

/// Whether some stored instance is the one of template `template_id` paid in month `ym`.
pub open spec fn has_instance(instances: Map<u64, MonthlyOutcome>, template_id: u64, ym: YearMonth) -> bool {
    exists|id: u64| #[trigger] instances.contains_key(id) && pays_in(instances[id], template_id, ym)
}

/// Whether `x` is stored in `instances`.
pub open spec fn is_stored_instance(instances: Map<u64, MonthlyOutcome>, x: MonthlyOutcome) -> bool {
    exists|id: u64| #[trigger] instances.contains_key(id) && instances[id] == x
}

/// At most one stored instance per template and payment month.
pub open spec fn one_per_month(instances: Map<u64, MonthlyOutcome>) -> bool {
    forall|a: u64, b: u64|
        #![trigger instances[a], instances[b]]
        instances.contains_key(a) && instances.contains_key(b)
            && instances[a].monthly_outcome_template_id == instances[b].monthly_outcome_template_id
            && instances[a].payment_date.year == instances[b].payment_date.year
            && instances[a].payment_date.month == instances[b].payment_date.month ==> a == b
}

/// Whether `new` is `old` with the template's new instance `x` stored under
/// the fresh id `id`, with the template's amount.
pub open spec fn created_as(
    old: Map<u64, MonthlyOutcome>,
    template: MonthlyOutcomeTemplate,
    year: i32,
    month: u32,
    id: u64,
    x: MonthlyOutcome,
    new: Map<u64, MonthlyOutcome>,
) -> bool {
    &&& !old.contains_key(id)
    &&& new == old.insert(id, x)
    &&& x.id == Some(id)
    &&& x.monthly_outcome_template_id == template.id->0
    &&& x.name == template.name
    &&& x.amount == template.amount
    &&& payment_date_of(template.payment_timing, year, month) == Some(x.payment_date)
}

/// How materializing a template for month `(year, month)` takes the stored
/// instances from `old` to `new` and returns `x`: the template's instance
/// paid in the payment month is returned unchanged where there is one;
/// otherwise a new one is stored under a fresh id and returned with it.
pub open spec fn materialized(
    old: Map<u64, MonthlyOutcome>,
    template: MonthlyOutcomeTemplate,
    year: i32,
    month: u32,
    x: MonthlyOutcome,
    new: Map<u64, MonthlyOutcome>,
) -> bool {
    &&& template.id is Some
    &&& payment_date_of(template.payment_timing, year, month) matches Some(pd)
    &&& {
        let pd = payment_date_of(template.payment_timing, year, month)->0;
        let key = (pd.year, pd.month);
        if has_instance(old, template.id->0, key) {
            is_stored_instance(old, x) && pays_in(x, template.id->0, key) && new == old
        } else {
            exists|id: u64| #[trigger] created_as(old, template, year, month, id, x, new)
        }
    }
}

impl MonthlyOutcomeTemplate {
    /// A copy of the template.
    pub fn duplicate(&self) -> (r: MonthlyOutcomeTemplate)
        ensures
            r == *self,
    {
        MonthlyOutcomeTemplate {
            id: self.id,
            name: self.name.clone(),
            amount: self.amount,
            payment_timing: self.payment_timing,
            start_date: self.start_date,
            end_date: self.end_date,
        }
    }

    /// Creates and stores the template's instance for month `(year, month)`.
    pub fn to_monthly_outcome<R: MonthlyOutcomeRepo>(&self, year: i32, month: u32, repo: &mut R) -> (r:
        Result<MonthlyOutcome, FinanceError>)
        requires
            self.id is Some,
        ensures
            r matches Ok(x) ==> x.id is Some && created_as(
                old(repo).monthly_outcomes(),
                *self,
                year,
                month,
                x.id->0,
                x,
                final(repo).monthly_outcomes(),
            ),
            r is Ok ==> final(repo).templates() == old(repo).templates(),
            r is Err ==> final(repo).templates() == old(repo).templates() && final(repo).monthly_outcomes()
                == old(repo).monthly_outcomes(),
            r is Ok ==> final(repo).never_fails() == old(repo).never_fails() && final(repo).template_count()
                == old(repo).template_count() && final(repo).instance_room() + 1 == old(repo).instance_room(),
            old(repo).never_fails() && old(repo).instance_room() > 0 && payment_date_of(self.payment_timing, year, month) is Some
                ==> r is Ok,
            payment_date_of(self.payment_timing, year, month) is None ==> r == Err::<
                MonthlyOutcome,
                FinanceError,
            >(FinanceError::InvalidDate),
    {
        let payment_date = self.get_payment_date(year, month)?;
        let template_id = match self.id {
            Some(id) => id,
            None => return Err(FinanceError::NotFound),
        };
        let monthly_outcome = MonthlyOutcome {
            id: None,
            monthly_outcome_template_id: template_id,
            name: self.name.clone(),
            amount: self.amount,
            payment_date,
        };
        let id = repo.store_monthly_outcome(monthly_outcome)?;
        let stored = MonthlyOutcome {
            id: Some(id),
            monthly_outcome_template_id: template_id,
            name: self.name.clone(),
            amount: self.amount,
            payment_date,
        };
        assert(repo.monthly_outcomes()[id] == stored);
        Ok(stored)
    }

    /// The day on which the template pays in month `(year, month)`, or
    /// `InvalidDate` where that day is not in the calendar.
    pub fn get_payment_date(&self, year: i32, month: u32) -> (r: Result<DateTime, FinanceError>)
        ensures
            match r {
                Ok(d) => payment_date_of(self.payment_timing, year, month) == Some(d),
                Err(e) => payment_date_of(self.payment_timing, year, month) is None && e
                    == FinanceError::InvalidDate,
            },
    {
        match self.payment_timing {
            PaymentTiming::End => get_end_of_month(year, month),
            PaymentTiming::Mid(day) => DateTime::at_midnight(year, month, day),
        }
    }
}

impl MonthlyOutcome {
    /// A copy of the instance.
    pub fn duplicate(&self) -> (r: MonthlyOutcome)
        ensures
            r == *self,
    {
        MonthlyOutcome {
            id: self.id,
            monthly_outcome_template_id: self.monthly_outcome_template_id,
            name: self.name.clone(),
            amount: self.amount,
            payment_date: self.payment_date,
        }
    }

    /// The instance with new values, keeping its id and template.
    pub fn update(&self, name: String, amount: Amount, payment_date: DateTime) -> (r: MonthlyOutcome)
        ensures
            r == (MonthlyOutcome {
                id: self.id,
                monthly_outcome_template_id: self.monthly_outcome_template_id,
                name,
                amount,
                payment_date,
            }),
    {
        MonthlyOutcome {
            id: self.id,
            monthly_outcome_template_id: self.monthly_outcome_template_id,
            name,
            amount,
            payment_date,
        }
    }
}

impl ToOutcome for MonthlyOutcome {
    /// The instance as a dated outcome.
    fn to_outcome(&self) -> (r: Result<Outcome, FinanceError>)
        ensures
            r matches Ok(o) && o.name == self.name && o.amount == self.amount && o.date
                == self.payment_date,
    {
        Ok(Outcome { name: self.name.clone(), amount: self.amount, date: self.payment_date })
    }
}

/// A store of monthly outcome templates and their materialized instances.
pub trait MonthlyOutcomeRepo: OutcomeRepo {
    /// The stored templates, by id.
    spec fn templates(&self) -> Map<u64, MonthlyOutcomeTemplate>;

    /// The stored instances, by id.
    spec fn monthly_outcomes(&self) -> Map<u64, MonthlyOutcome>;

    /// Whether reads and updates succeed.
    spec fn never_fails(&self) -> bool;

    /// How many more instances can be stored.
    spec fn instance_room(&self) -> nat;

    /// A bound on the number of templates that a listing returns.
    spec fn template_count(&self) -> nat;

    /// The templates whose validity window meets the period.
    fn list_monthly_outcome_template(&self, start_date: &DateTime, end_date: &DateTime) -> (r:
        Result<Vec<MonthlyOutcomeTemplate>, FinanceError>)
        ensures
            self.never_fails() ==> r is Ok,
            r matches Ok(v) ==> v.len() <= self.template_count(),
            r matches Ok(v) ==> forall|i: int, j: int|
                0 <= i < j < v.len() ==> (#[trigger] v@[i]).id != (#[trigger] v@[j]).id,
            r matches Ok(v) ==> (forall|i: int|
                0 <= i < v.len() ==> self.templates().contains_value(#[trigger] v@[i]) && v@[i].id
                    is Some && crate::plan::job::window_overlaps(
                    v@[i].start_date,
                    v@[i].end_date,
                    *start_date,
                    *end_date,
                )),
            r matches Ok(v) ==> (forall|id: u64|
                self.templates().contains_key(id) && crate::plan::job::window_overlaps(
                    #[trigger] self.templates()[id].start_date,
                    self.templates()[id].end_date,
                    *start_date,
                    *end_date,
                ) ==> v@.contains(self.templates()[id])),
    ;

    /// Stores a new instance under a fresh id, which it returns.
    fn store_monthly_outcome(&mut self, monthly_outcome: MonthlyOutcome) -> (r: Result<
        u64,
        FinanceError,
    >)
        ensures
            old(self).never_fails() && old(self).instance_room() > 0 ==> r is Ok,
            r is Err ==> final(self).monthly_outcomes() == old(self).monthly_outcomes() && final(self).templates()
                == old(self).templates(),
            r is Ok ==> final(self).never_fails() == old(self).never_fails() && final(self).template_count()
                == old(self).template_count() && final(self).instance_room() + 1 == old(self).instance_room(),
            r matches Ok(id) ==> !old(self).monthly_outcomes().contains_key(id) && final(self).monthly_outcomes()
                == old(self).monthly_outcomes().insert(id, outcome_with_id(monthly_outcome, id))
                && final(self).templates() == old(self).templates(),
    ;

    /// Replaces the instance stored under the instance's own id; there must be one.
    fn update_monthly_outcome(&mut self, monthly_outcome: MonthlyOutcome) -> (r: Result<(), FinanceError>)
        requires
            monthly_outcome.id is Some,
        ensures
            old(self).never_fails() && old(self).monthly_outcomes().contains_key(monthly_outcome.id->0)
                ==> r is Ok,
            final(self).never_fails() == old(self).never_fails(),
            r is Ok ==> final(self).monthly_outcomes() == old(self).monthly_outcomes().insert(
                monthly_outcome.id->0,
                monthly_outcome,
            ) && final(self).templates() == old(self).templates(),
    ;

    /// The instance of template `monthly_outcome_template_id` paid in month `(year, month)`.
    fn get_monthly_outcome_by_template_id(
        &self,
        monthly_outcome_template_id: u64,
        year: i32,
        month: u32,
    ) -> (r: Result<Option<MonthlyOutcome>, FinanceError>)
        ensures
            self.never_fails() ==> r is Ok,
            match r {
                Ok(Some(x)) => is_stored_instance(self.monthly_outcomes(), x) && pays_in(
                    x,
                    monthly_outcome_template_id,
                    (year, month),
                ),
                Ok(None) => !has_instance(self.monthly_outcomes(), monthly_outcome_template_id, (year, month)),
                Err(_) => true,
            },
    ;
}

/// The instance as stored under `id`.
pub open spec fn outcome_with_id(x: MonthlyOutcome, id: u64) -> MonthlyOutcome {
    MonthlyOutcome {
        id: Some(id),
        monthly_outcome_template_id: x.monthly_outcome_template_id,
        name: x.name,
        amount: x.amount,
        payment_date: x.payment_date,
    }
}

/// The template's instance for month `(year, month)`: the stored one of its
/// payment month where there is one, else a new one.
pub fn get_or_create_monthly_outcome<R: MonthlyOutcomeRepo>(
    template: &MonthlyOutcomeTemplate,
    year: i32,
    month: u32,
    repo: &mut R,
) -> (r: Result<MonthlyOutcome, FinanceError>)
    requires
        template.id is Some,
    ensures
        r matches Ok(x) ==> materialized(
            old(repo).monthly_outcomes(),
            *template,
            year,
            month,
            x,
            final(repo).monthly_outcomes(),
        ),
        r is Ok ==> final(repo).templates() == old(repo).templates(),
        r is Ok ==> is_stored_instance(final(repo).monthly_outcomes(), r->Ok_0),
        r matches Ok(x) ==> x.monthly_outcome_template_id == template.id->0,
        r is Ok ==> forall|k: u64|
            #[trigger] old(repo).monthly_outcomes().contains_key(k) ==> final(repo).monthly_outcomes().contains_key(k)
                && final(repo).monthly_outcomes()[k] == old(repo).monthly_outcomes()[k],
        r is Ok ==> final(repo).never_fails() == old(repo).never_fails() && final(repo).template_count()
            == old(repo).template_count() && final(repo).instance_room() + 1 >= old(repo).instance_room(),
        r is Ok && has_month_instance(old(repo).monthly_outcomes(), *template, year, month) ==> final(repo).monthly_outcomes()
            == old(repo).monthly_outcomes(),
        r matches Ok(x) ==> pays_for_month(x, *template, year, month),
        final(repo).templates() == old(repo).templates(),
        forall|k: u64|
            #[trigger] old(repo).monthly_outcomes().contains_key(k) ==> final(repo).monthly_outcomes().contains_key(k)
                && final(repo).monthly_outcomes()[k] == old(repo).monthly_outcomes()[k],
        forall|k: u64|
            #[trigger] final(repo).monthly_outcomes().contains_key(k) && !old(repo).monthly_outcomes().contains_key(k)
                ==> pays_for_month(final(repo).monthly_outcomes()[k], *template, year, month),
        old(repo).never_fails() && old(repo).instance_room() > 0 && payment_date_of(template.payment_timing, year, month) is Some
            ==> r is Ok,
        payment_date_of(template.payment_timing, year, month) is None ==> r == Err::<
            MonthlyOutcome,
            FinanceError,
        >(FinanceError::InvalidDate),
{
    let payment_date = template.get_payment_date(year, month)?;
    let template_id = match template.id {
        Some(id) => id,
        None => return Err(FinanceError::NotFound),
    };
    match repo.get_monthly_outcome_by_template_id(template_id, payment_date.year, payment_date.month)? {
        Some(existing) => {
            proof {
                let k = choose|k: u64| #[trigger] repo.monthly_outcomes().contains_key(k) && repo.monthly_outcomes()[k] == existing;
                assert(has_instance(repo.monthly_outcomes(), template_id, (payment_date.year, payment_date.month)));
            }
            Ok(existing)
        },
        None => {
            let x = template.to_monthly_outcome(year, month, repo)?;
            assert(repo.monthly_outcomes().contains_key(x.id->0));
            Ok(x)
        },
    }
}

/// Materializing a template for a month twice in a row, on a store that
/// holds at most one instance per template and payment month, returns the
/// same instance both times and leaves the store as the first call left it;
/// the store keeps at most one instance per template and payment month.
pub proof fn lemma_monthly_materialization_idempotent(
    old: Map<u64, MonthlyOutcome>,
    template: MonthlyOutcomeTemplate,
    year: i32,
    month: u32,
    first: MonthlyOutcome,
    mid: Map<u64, MonthlyOutcome>,
    second: MonthlyOutcome,
    new: Map<u64, MonthlyOutcome>,
)
    requires
        one_per_month(old),
        materialized(old, template, year, month, first, mid),
        materialized(mid, template, year, month, second, new),
    ensures
        second == first,
        new == mid,
        one_per_month(mid),
{
    let pd = payment_date_of(template.payment_timing, year, month)->0;
    let key = (pd.year, pd.month);
    if !has_instance(old, template.id->0, key) {
        let id = choose|id: u64| #[trigger] created_as(old, template, year, month, id, first, mid);
        assert(mid.contains_key(id) && pays_in(mid[id], template.id->0, key));
        assert forall|a: u64, b: u64|
            #![trigger mid[a], mid[b]]
            mid.contains_key(a) && mid.contains_key(b) && mid[a].monthly_outcome_template_id
                == mid[b].monthly_outcome_template_id && mid[a].payment_date.year
                == mid[b].payment_date.year && mid[a].payment_date.month
                == mid[b].payment_date.month implies a == b by {
            if a != id && b != id {
                assert(old[a] == mid[a] && old[b] == mid[b]);
            } else if a == id && b != id {
                assert(old.contains_key(b) && pays_in(old[b], template.id->0, key));
            } else if b == id && a != id {
                assert(old.contains_key(a) && pays_in(old[a], template.id->0, key));
            }
        }
    }
    assert(has_instance(mid, template.id->0, key));
    let i1 = choose|i: u64| #[trigger] mid.contains_key(i) && mid[i] == first;
    let i2 = choose|i: u64| #[trigger] mid.contains_key(i) && mid[i] == second;
    assert(mid[i1] == first);
    assert(mid[i2] == second);
}

/// Whether `x` is an instance of `template` paid in the month in which the
/// template pays for `(year, month)`.
pub open spec fn pays_for_month(x: MonthlyOutcome, template: MonthlyOutcomeTemplate, year: i32, month: u32) -> bool {
    &&& payment_date_of(template.payment_timing, year, month) is Some
    &&& pays_in(
        x,
        template.id->0,
        (payment_date_of(template.payment_timing, year, month)->0.year, payment_date_of(template.payment_timing, year, month)->0.month),
    )
}

/// Whether some stored instance of `template` is paid in the month in which
/// the template pays for `(year, month)`.
pub open spec fn has_month_instance(
    instances: Map<u64, MonthlyOutcome>,
    template: MonthlyOutcomeTemplate,
    year: i32,
    month: u32,
) -> bool {
    &&& payment_date_of(template.payment_timing, year, month) is Some
    &&& has_instance(
        instances,
        template.id->0,
        (payment_date_of(template.payment_timing, year, month)->0.year, payment_date_of(template.payment_timing, year, month)->0.month),
    )
}

/// Whether every template whose validity window meets month `(year, month)`
/// has a stored instance for that month's payment.
pub open spec fn all_have_instances(
    templates: Map<u64, MonthlyOutcomeTemplate>,
    instances: Map<u64, MonthlyOutcome>,
    year: i32,
    month: u32,
) -> bool {
    forall|id: u64|
        templates.contains_key(id) && crate::plan::job::window_overlaps(
            #[trigger] templates[id].start_date,
            templates[id].end_date,
            opening_of((year, month)),
            closing_of((year, month)),
        ) ==> has_month_instance(instances, templates[id], year, month)
}

/// Whether every template whose validity window meets month `(year, month)`
/// has a payment day in that month.
pub open spec fn all_pay_dates_exist(templates: Map<u64, MonthlyOutcomeTemplate>, year: i32, month: u32) -> bool {
    forall|id: u64|
        templates.contains_key(id) && crate::plan::job::window_overlaps(
            #[trigger] templates[id].start_date,
            templates[id].end_date,
            opening_of((year, month)),
            closing_of((year, month)),
        ) ==> payment_date_of(templates[id].payment_timing, year, month) is Some
}

/// Whether some outcome of `v` is contributed by a stored instance of
/// `template` paid in the month in which the template pays for `(year, month)`.
pub open spec fn has_outcome_of_template(
    instances: Map<u64, MonthlyOutcome>,
    v: Seq<Outcome>,
    template: MonthlyOutcomeTemplate,
    year: i32,
    month: u32,
) -> bool {
    exists|i: int, x: MonthlyOutcome|
        #![trigger is_outcome_of(v[i], x)]
        0 <= i < v.len() && is_stored_instance(instances, x) && pays_for_month(x, template, year, month)
            && is_outcome_of(v[i], x)
}

/// The outcomes, for month `(year, month)`, of the templates whose validity
/// window meets the month: each template's instance is materialized where it
/// is missing.
#[verifier::rlimit(30)]
pub fn get_or_create_monthly_outcomes<R: MonthlyOutcomeRepo>(year: i32, month: u32, repo: &mut R) -> (r:
    Result<Vec<Outcome>, FinanceError>)
    ensures
        !valid_ym((year, month)) ==> r == Err::<Vec<Outcome>, FinanceError>(FinanceError::InvalidDate),
        r matches Ok(v) ==> forall|i: int|
            0 <= i < v.len() ==> comes_from_instance(final(repo).monthly_outcomes(), #[trigger] v@[i]),
        r matches Ok(v) ==> forall|id: u64|
            old(repo).templates().contains_key(id) && crate::plan::job::window_overlaps(
                #[trigger] old(repo).templates()[id].start_date,
                old(repo).templates()[id].end_date,
                opening_of((year, month)),
                closing_of((year, month)),
            ) ==> has_outcome_of_template(final(repo).monthly_outcomes(), v@, old(repo).templates()[id], year, month),
        r is Ok ==> forall|k: u64|
            #[trigger] old(repo).monthly_outcomes().contains_key(k) ==> final(repo).monthly_outcomes().contains_key(k)
                && final(repo).monthly_outcomes()[k] == old(repo).monthly_outcomes()[k],
        r is Ok && all_have_instances(old(repo).templates(), old(repo).monthly_outcomes(), year, month)
            ==> final(repo).monthly_outcomes() == old(repo).monthly_outcomes(),
        r is Ok ==> final(repo).templates() == old(repo).templates() && final(repo).never_fails()
            == old(repo).never_fails(),
        r is Ok ==> all_pay_dates_exist(old(repo).templates(), year, month) && all_have_instances(
            old(repo).templates(),
            final(repo).monthly_outcomes(),
            year,
            month,
        ),
        valid_ym((year, month)) && old(repo).never_fails() && old(repo).instance_room() >= old(repo).template_count()
            && all_pay_dates_exist(old(repo).templates(), year, month) ==> r is Ok,
        r matches Ok(v) ==> exists|listed: Seq<MonthlyOutcomeTemplate>, made: Seq<MonthlyOutcome>|
            #![trigger lists_templates_for(old(repo).templates(), listed, year, month), made.len()]
            lists_templates_for(old(repo).templates(), listed, year, month) && made.len() == listed.len()
                && v.len() == listed.len() && (forall|i: int|
                0 <= i < listed.len() ==> is_outcome_of(v@[i], #[trigger] made[i]) && template_result(
                    old(repo).monthly_outcomes(),
                    final(repo).monthly_outcomes(),
                    listed[i],
                    year,
                    month,
                    made[i],
                )) && (forall|k: u64|
                #[trigger] final(repo).monthly_outcomes().contains_key(k) && !old(repo).monthly_outcomes().contains_key(k)
                    ==> exists|i: int|
                    0 <= i < listed.len() && made[i] == final(repo).monthly_outcomes()[k] && !has_month_instance(
                        old(repo).monthly_outcomes(),
                        #[trigger] listed[i],
                        year,
                        month,
                    )),
        forall|k: u64|
            #[trigger] final(repo).monthly_outcomes().contains_key(k) && !old(repo).monthly_outcomes().contains_key(k)
                ==> exists|t: MonthlyOutcomeTemplate|
                old(repo).templates().contains_value(t) && #[trigger] pays_for_month(
                    final(repo).monthly_outcomes()[k],
                    t,
                    year,
                    month,
                ),
{
    let (start_date, end_date) = get_opening_and_closing_date(year, month)?;
    let templates = repo.list_monthly_outcome_template(&start_date, &end_date)?;
    let ghost mut made: Seq<MonthlyOutcome> = Seq::empty();
    let ghost all_have = all_have_instances(old(repo).templates(), old(repo).monthly_outcomes(), year, month);
    let ghost can_succeed = old(repo).never_fails() && old(repo).instance_room() >= old(repo).template_count()
        && all_pay_dates_exist(old(repo).templates(), year, month);
    let mut outcomes: Vec<Outcome> = Vec::new();
    let mut i: usize = 0;
    while i < templates.len()
        invariant
            i <= templates.len(),
            forall|j: int| 0 <= j < templates.len() ==> (#[trigger] templates@[j]).id is Some,
            forall|j: int| 0 <= j < templates.len() ==> old(repo).templates().contains_value(#[trigger] templates@[j]),
            templates.len() <= old(repo).template_count(),
            forall|j: int|
                0 <= j < outcomes.len() ==> comes_from_instance(repo.monthly_outcomes(), #[trigger] outcomes@[j]),
            repo.templates() == old(repo).templates(),
            repo.template_count() == old(repo).template_count(),
            repo.never_fails() == old(repo).never_fails(),
            repo.instance_room() + i >= old(repo).instance_room(),
            start_date == opening_of((year, month)),
            end_date == closing_of((year, month)),
            forall|id: u64|
                old(repo).templates().contains_key(id) && crate::plan::job::window_overlaps(
                    #[trigger] old(repo).templates()[id].start_date,
                    old(repo).templates()[id].end_date,
                    start_date,
                    end_date,
                ) ==> templates@.contains(old(repo).templates()[id]),
            forall|j: int| 0 <= j < templates.len() ==> crate::plan::job::window_overlaps(
                (#[trigger] templates@[j]).start_date,
                templates@[j].end_date,
                start_date,
                end_date,
            ),
            forall|j: int|
                0 <= j < i ==> has_outcome_of_template(repo.monthly_outcomes(), outcomes@, #[trigger] templates@[j], year, month),
            forall|k: u64|
                #[trigger] old(repo).monthly_outcomes().contains_key(k) ==> repo.monthly_outcomes().contains_key(k)
                    && repo.monthly_outcomes()[k] == old(repo).monthly_outcomes()[k],
            all_have == all_have_instances(old(repo).templates(), old(repo).monthly_outcomes(), year, month),
            can_succeed == (old(repo).never_fails() && old(repo).instance_room() >= old(repo).template_count()
                && all_pay_dates_exist(old(repo).templates(), year, month)),
            all_have ==> repo.monthly_outcomes() == old(repo).monthly_outcomes(),
            lists_templates_for(old(repo).templates(), templates@, year, month),
            made.len() == i,
            outcomes.len() == i,
            forall|j: int|
                0 <= j < i ==> is_outcome_of(outcomes@[j], #[trigger] made[j]) && template_result(
                    old(repo).monthly_outcomes(),
                    repo.monthly_outcomes(),
                    templates@[j],
                    year,
                    month,
                    made[j],
                ),
            forall|k: u64|
                #[trigger] repo.monthly_outcomes().contains_key(k) && !old(repo).monthly_outcomes().contains_key(k)
                    ==> exists|j: int|
                    0 <= j < i && made[j] == repo.monthly_outcomes()[k] && !has_month_instance(
                        old(repo).monthly_outcomes(),
                        #[trigger] templates@[j],
                        year,
                        month,
                    ) && pays_for_month(repo.monthly_outcomes()[k], templates@[j], year, month),
        decreases templates.len() - i,
    {
        let ghost before = repo.monthly_outcomes();
        proof {
            let tv = templates@[i as int];
            let id = choose|id: u64| old(repo).templates().contains_key(id) && old(repo).templates()[id] == tv;
            assert(crate::plan::job::window_overlaps(
                old(repo).templates()[id].start_date,
                old(repo).templates()[id].end_date,
                opening_of((year, month)),
                closing_of((year, month)),
            ));
            if all_have {
                assert(has_month_instance(old(repo).monthly_outcomes(), old(repo).templates()[id], year, month));
            }
        }
        let answer = get_or_create_monthly_outcome(&templates[i], year, month, repo);
        let ghost t = templates@[i as int];
        proof {
            assert forall|k: u64|
                #[trigger] repo.monthly_outcomes().contains_key(k) && !old(repo).monthly_outcomes().contains_key(k)
                    implies exists|tt: MonthlyOutcomeTemplate|
                    old(repo).templates().contains_value(tt) && #[trigger] pays_for_month(
                        repo.monthly_outcomes()[k],
                        tt,
                        year,
                        month,
                    ) by {
                if before.contains_key(k) {
                    let j = choose|j: int|
                        0 <= j < i && made[j] == before[k] && !has_month_instance(
                            old(repo).monthly_outcomes(),
                            #[trigger] templates@[j],
                            year,
                            month,
                        ) && pays_for_month(before[k], templates@[j], year, month);
                    assert(old(repo).templates().contains_value(templates@[j]));
                    assert(pays_for_month(repo.monthly_outcomes()[k], templates@[j], year, month));
                } else {
                    assert(old(repo).templates().contains_value(t));
                    assert(pays_for_month(repo.monthly_outcomes()[k], t, year, month));
                }
            }
        }
        let outcome = match answer {
            Ok(x) => x,
            Err(e) => return Err(e),
        };
        proof {
            // Instances created for earlier templates never pay for this one.
            assert forall|k: u64|
                #[trigger] before.contains_key(k) && !old(repo).monthly_outcomes().contains_key(k) implies !pays_in(
                    before[k],
                    t.id->0,
                    (payment_date_of(t.payment_timing, year, month)->0.year, payment_date_of(
                        t.payment_timing,
                        year,
                        month,
                    )->0.month),
                ) by {
                let j = choose|j: int|
                    0 <= j < i && made[j] == before[k] && !has_month_instance(
                        old(repo).monthly_outcomes(),
                        #[trigger] templates@[j],
                        year,
                        month,
                    ) && pays_for_month(before[k], templates@[j], year, month);
                assert(templates@[j].id != templates@[i as int].id);
            }
            let key = (payment_date_of(t.payment_timing, year, month)->0.year, payment_date_of(
                t.payment_timing,
                year,
                month,
            )->0.month);
            if has_month_instance(before, t, year, month) {
                let k = choose|k: u64| #[trigger] before.contains_key(k) && pays_in(before[k], t.id->0, key);
                assert(old(repo).monthly_outcomes().contains_key(k));
                assert(has_month_instance(old(repo).monthly_outcomes(), t, year, month));
                let k2 = choose|k2: u64| #[trigger] before.contains_key(k2) && before[k2] == outcome;
                assert(old(repo).monthly_outcomes().contains_key(k2));
                assert(is_stored_instance(old(repo).monthly_outcomes(), outcome));
            } else {
                if has_month_instance(old(repo).monthly_outcomes(), t, year, month) {
                    let k = choose|k: u64|
                        #[trigger] old(repo).monthly_outcomes().contains_key(k) && pays_in(
                            old(repo).monthly_outcomes()[k],
                            t.id->0,
                            key,
                        );
                    assert(before.contains_key(k));
                }
                let id = choose|id: u64| #[trigger] created_as(before, t, year, month, id, outcome, repo.monthly_outcomes());
                assert(repo.monthly_outcomes().contains_key(id));
            }
            assert(template_result(old(repo).monthly_outcomes(), repo.monthly_outcomes(), t, year, month, outcome));
            let new_made = made.push(outcome);
            assert forall|j: int|
                0 <= j < i + 1 implies template_result(
                    old(repo).monthly_outcomes(),
                    repo.monthly_outcomes(),
                    templates@[j],
                    year,
                    month,
                    #[trigger] new_made[j],
                ) by {
                if j < i {
                    assert(new_made[j] == made[j]);
                    let x = made[j];
                    let kx = choose|kx: u64| #[trigger] before.contains_key(kx) && before[kx] == x;
                    assert(repo.monthly_outcomes().contains_key(kx));
                    if !has_month_instance(old(repo).monthly_outcomes(), templates@[j], year, month) {
                        assert(before.contains_key(x.id->0));
                    }
                }
            }
            assert forall|k: u64|
                #[trigger] repo.monthly_outcomes().contains_key(k) && !old(repo).monthly_outcomes().contains_key(k)
                    implies exists|j: int|
                    0 <= j < i + 1 && new_made[j] == repo.monthly_outcomes()[k] && !has_month_instance(
                        old(repo).monthly_outcomes(),
                        #[trigger] templates@[j],
                        year,
                        month,
                    ) && pays_for_month(repo.monthly_outcomes()[k], templates@[j], year, month) by {
                if before.contains_key(k) {
                    let j = choose|j: int|
                        0 <= j < i && made[j] == before[k] && !has_month_instance(
                            old(repo).monthly_outcomes(),
                            #[trigger] templates@[j],
                            year,
                            month,
                        ) && pays_for_month(before[k], templates@[j], year, month);
                    assert(new_made[j] == made[j]);
                } else {
                    assert(!has_month_instance(before, t, year, month));
                    let id = choose|id: u64| #[trigger] created_as(before, t, year, month, id, outcome, repo.monthly_outcomes());
                    assert(k == id);
                    assert(new_made[i as int] == outcome);
                    assert(!has_month_instance(old(repo).monthly_outcomes(), t, year, month));
                }
            }
            made = new_made;
        }
        proof {
            assert forall|j: int| 0 <= j < outcomes.len() implies comes_from_instance(
                repo.monthly_outcomes(),
                #[trigger] outcomes@[j],
            ) by {
                let x = choose|x: MonthlyOutcome|
                    #![trigger is_outcome_of(outcomes@[j], x)]
                    is_stored_instance(before, x) && is_outcome_of(outcomes@[j], x);
                let k = choose|k: u64| #[trigger] before.contains_key(k) && before[k] == x;
                assert(repo.monthly_outcomes().contains_key(k) && repo.monthly_outcomes()[k] == x);
                assert(is_stored_instance(repo.monthly_outcomes(), x));
            }
        }
        let ghost earlier = outcomes@;
        let ghost grown = repo.monthly_outcomes();
        let entry = outcome.to_outcome()?;
        assert(is_outcome_of(entry, outcome));
        outcomes.push(entry);
        assert(outcomes@[i as int] == entry);
        assert forall|j: int| 0 <= j < i + 1 implies is_outcome_of(outcomes@[j], #[trigger] made[j]) by {
            if j < i {
                assert(outcomes@[j] == earlier[j]);
            }
        }
        proof {
            assert(outcomes@[outcomes.len() - 1] == entry);
            assert forall|j: int| 0 <= j < i + 1 implies has_outcome_of_template(
                repo.monthly_outcomes(),
                outcomes@,
                #[trigger] templates@[j],
                year,
                month,
            ) by {
                if j < i {
                    let (k, x) = choose|k: int, x: MonthlyOutcome|
                        #![trigger is_outcome_of(earlier[k], x)]
                        0 <= k < earlier.len() && is_stored_instance(grown, x) && pays_for_month(x, templates@[j], year, month)
                            && is_outcome_of(earlier[k], x);
                    assert(outcomes@[k] == earlier[k]);
                    assert(is_outcome_of(outcomes@[k], x));
                } else {
                    assert(is_outcome_of(outcomes@[outcomes.len() - 1], outcome));
                }
            }
        }
        i = i + 1;
    }
    proof {
        assert forall|id: u64|
            old(repo).templates().contains_key(id) && crate::plan::job::window_overlaps(
                #[trigger] old(repo).templates()[id].start_date,
                old(repo).templates()[id].end_date,
                opening_of((year, month)),
                closing_of((year, month)),
            ) implies has_outcome_of_template(repo.monthly_outcomes(), outcomes@, old(repo).templates()[id], year, month) by {
            let j = choose|j: int| 0 <= j < templates.len() && templates@[j] == old(repo).templates()[id];
            assert(has_outcome_of_template(repo.monthly_outcomes(), outcomes@, templates@[j], year, month));
        }
        assert(lists_templates_for(old(repo).templates(), templates@, year, month));
        assert(made.len() == templates@.len());
        assert forall|id: u64|
            old(repo).templates().contains_key(id) && crate::plan::job::window_overlaps(
                #[trigger] old(repo).templates()[id].start_date,
                old(repo).templates()[id].end_date,
                opening_of((year, month)),
                closing_of((year, month)),
            ) implies has_month_instance(repo.monthly_outcomes(), old(repo).templates()[id], year, month) by {
            let t = old(repo).templates()[id];
            assert(has_outcome_of_template(repo.monthly_outcomes(), outcomes@, t, year, month));
            let (i, x) = choose|i: int, x: MonthlyOutcome|
                #![trigger is_outcome_of(outcomes@[i], x)]
                0 <= i < outcomes@.len() && is_stored_instance(repo.monthly_outcomes(), x) && pays_for_month(x, t, year, month)
                    && is_outcome_of(outcomes@[i], x);
            let k = choose|k: u64| #[trigger] repo.monthly_outcomes().contains_key(k) && repo.monthly_outcomes()[k] == x;
            assert(repo.monthly_outcomes().contains_key(k));
        }
    }
    Ok(outcomes)
}

/// `listed` holds, without repeated ids, exactly the stored templates whose
/// validity window meets month `(year, month)`.
pub open spec fn lists_templates_for(
    templates: Map<u64, MonthlyOutcomeTemplate>,
    listed: Seq<MonthlyOutcomeTemplate>,
    year: i32,
    month: u32,
) -> bool {
    &&& forall|i: int|
        0 <= i < listed.len() ==> templates.contains_value(#[trigger] listed[i]) && listed[i].id is Some
            && crate::plan::job::window_overlaps(
            listed[i].start_date,
            listed[i].end_date,
            opening_of((year, month)),
            closing_of((year, month)),
        )
    &&& forall|id: u64|
        templates.contains_key(id) && crate::plan::job::window_overlaps(
            #[trigger] templates[id].start_date,
            templates[id].end_date,
            opening_of((year, month)),
            closing_of((year, month)),
        ) ==> listed.contains(templates[id])
    &&& forall|i: int, j: int| 0 <= i < j < listed.len() ==> (#[trigger] listed[i]).id != (#[trigger] listed[j]).id
}

/// The instance `x` that materializing `template` for `(year, month)` gave,
/// from the stored instances `old` before the listing to `new` after it: the
/// one stored for the payment month where there was one, else a new one
/// with the template's name and amount.
pub open spec fn template_result(
    old: Map<u64, MonthlyOutcome>,
    new: Map<u64, MonthlyOutcome>,
    template: MonthlyOutcomeTemplate,
    year: i32,
    month: u32,
    x: MonthlyOutcome,
) -> bool {
    &&& pays_for_month(x, template, year, month)
    &&& is_stored_instance(new, x)
    &&& has_month_instance(old, template, year, month) ==> is_stored_instance(old, x)
    &&& !has_month_instance(old, template, year, month) ==> x.id is Some && !old.contains_key(x.id->0)
        && new.contains_key(x.id->0) && new[x.id->0] == x && x.monthly_outcome_template_id == template.id->0
        && x.name == template.name && x.amount == template.amount
}

/// Whether a projection outcome is the one that instance `x` contributes.
pub open spec fn is_outcome_of(o: Outcome, x: MonthlyOutcome) -> bool {
    o.name == x.name && o.date == x.payment_date && o.amount == x.amount
}

/// Whether a projection outcome is contributed by a stored instance.
pub open spec fn comes_from_instance(instances: Map<u64, MonthlyOutcome>, o: Outcome) -> bool {
    exists|x: MonthlyOutcome| #[trigger] is_outcome_of(o, x) && is_stored_instance(instances, x)
}

} // verus!

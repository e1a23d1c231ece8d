use vstd::prelude::*;

use crate::amount::Amount;
use crate::error::FinanceError;
use crate::util::{
    current_year_month, get_next_ym, get_prev_ym, ym_not_after, month_index, prev_ym, valid_ym, YearMonth,
    MIN_YEAR,
};

verus! {

/// The month that a ledger entry belongs to.
pub type SavingKey = YearMonth;

/// A ledger entry: the cumulative saving balance at the close of a month.
#[derive(Clone, Copy, Debug, PartialEq, Eq)]
pub struct Saving {
    pub key: SavingKey,
    pub amount: Amount,
}

impl Saving {
    pub fn new(key: SavingKey, amount: Amount) -> (r: Saving)
        ensures
            r == (Saving { key, amount }),
    {
        Saving { key, amount }
    }
}

/// A store of ledger entries, one per month.
pub trait SavingRepo {
    /// The stored balances (in amount units), by month.
    spec fn balances(&self) -> Map<SavingKey, int>;

    /// Whether every operation of the store succeeds.
    spec fn never_fails(&self) -> bool;

    fn get(&self, key: &SavingKey) -> (r: Result<Option<Saving>, FinanceError>)
        requires
            valid_ym(*key),
        ensures
            self.never_fails() ==> r is Ok,
            match r {
                Ok(Some(s)) => self.balances().contains_key(*key) && s.key == *key
                    && s.amount.units == self.balances()[*key],
                Ok(None) => !self.balances().contains_key(*key),
                Err(_) => true,
            },
    ;

    fn store(&mut self, key: &SavingKey, saving: Saving) -> (r: Result<(), FinanceError>)
        requires
            valid_ym(*key),
        ensures
            old(self).never_fails() ==> r is Ok,
            r is Err ==> final(self).balances() == old(self).balances(),
            final(self).never_fails() == old(self).never_fails(),
            r is Ok ==> final(self).balances() == old(self).balances().insert(
                *key,
                saving.amount.units as int,
            ),
    ;

    fn update(&mut self, key: &SavingKey, saving: Saving) -> (r: Result<(), FinanceError>)
        requires
            valid_ym(*key),
        ensures
            old(self).never_fails() ==> r is Ok,
            r is Err ==> final(self).balances() == old(self).balances(),
            final(self).never_fails() == old(self).never_fails(),
            r is Ok ==> final(self).balances() == old(self).balances().insert(
                *key,
                saving.amount.units as int,
            ),
    ;
}

/// A valid month from `from` to `to`, both included.
pub open spec fn in_months(c: YearMonth, from: YearMonth, to: YearMonth) -> bool {
    valid_ym(c) && month_index(from) <= month_index(c) <= month_index(to)
}

/// The balance that propagating `delta` from month `key` leaves at month `c`
/// (for `c` not before `key`): an existing entry gains `delta`; a missing one
/// is the balance of the month before plus `delta`, where that month is the
/// updated one once `c` is past `key`, and `delta` alone where there is none.
pub open spec fn propagated_balance(
    old: Map<SavingKey, int>,
    key: SavingKey,
    delta: int,
    c: SavingKey,
) -> int
    decreases month_index(c) - month_index(key),
{
    if old.contains_key(c) {
        old[c] + delta
    } else if valid_ym(c) && month_index(c) > month_index(key) && valid_ym(prev_ym(c)) {
        propagated_balance(old, key, delta, prev_ym(c)) + delta
    } else if valid_ym(prev_ym(key)) && old.contains_key(prev_ym(key)) {
        old[prev_ym(key)] + delta
    } else {
        delta
    }
}

/// Whether propagating `delta` from month `key` through month `until` keeps
/// every balance it writes within range.
pub open spec fn propagation_fits(old: Map<SavingKey, int>, key: SavingKey, delta: int, until: SavingKey) -> bool {
    forall|c: SavingKey|
        #![trigger propagated_balance(old, key, delta, c)]
        in_months(c, key, until) ==> crate::amount::fits(propagated_balance(old, key, delta, c))
}

/// Whether propagating `delta` from month `key` keeps the balance of every
/// valid month from `key` on within range, whatever month it runs through.
pub open spec fn propagation_fits_from(old: Map<SavingKey, int>, key: SavingKey, delta: int) -> bool {
    forall|c: SavingKey|
        #![trigger propagated_balance(old, key, delta, c)]
        valid_ym(c) && month_index(key) <= month_index(c) ==> crate::amount::fits(
            propagated_balance(old, key, delta, c),
        )
}

/// The ledger after propagating `delta` from month `key` through month `until`.
pub open spec fn propagated(
    old: Map<SavingKey, int>,
    key: SavingKey,
    delta: int,
    until: SavingKey,
) -> Map<SavingKey, int> {
    Map::new(
        |c: SavingKey| old.contains_key(c) || in_months(c, key, until),
        |c: SavingKey|
            if in_months(c, key, until) {
                propagated_balance(old, key, delta, c)
            } else {
                old[c]
            },
    )
}

/// The ledger after propagating each `(month, delta)` of `calls` in turn,
/// every one through month `until`.
pub open spec fn ledger_after(
    old: Map<SavingKey, int>,
    calls: Seq<(SavingKey, int)>,
    until: SavingKey,
) -> Map<SavingKey, int>
    decreases calls.len(),
{
    if calls.len() == 0 {
        old
    } else {
        let last = calls.last();
        propagated(ledger_after(old, calls.drop_last(), until), last.0, last.1, until)
    }
}

/// The sum of the deltas of `calls` whose month is not later than month `c`.
pub open spec fn deltas_through(calls: Seq<(SavingKey, int)>, c: SavingKey, until: SavingKey) -> int
    decreases calls.len(),
{
    if calls.len() == 0 {
        0
    } else {
        let last = calls.last();
        deltas_through(calls.drop_last(), c, until) + if in_months(c, last.0, until) {
            last.1
        } else {
            0
        }
    }
}

/// A ledger with an entry for every month from `key` through `until` gains
/// `delta` on exactly those entries.
pub proof fn lemma_propagate_without_gaps(
    old: Map<SavingKey, int>,
    key: SavingKey,
    delta: int,
    until: SavingKey,
)
    requires
        forall|c: SavingKey| #[trigger] in_months(c, key, until) ==> old.contains_key(c),
    ensures
        propagated(old, key, delta, until) == Map::new(
            |c: SavingKey| old.contains_key(c),
            |c: SavingKey|
                if in_months(c, key, until) {
                    old[c] + delta
                } else {
                    old[c]
                },
        ),
{
    assert(propagated(old, key, delta, until) =~= Map::new(
        |c: SavingKey| old.contains_key(c),
        |c: SavingKey|
            if in_months(c, key, until) {
                old[c] + delta
            } else {
                old[c]
            },
    ));
}

/// Prefix sums: after a sequence of ledger updates, each propagated through
/// month `until`, on a ledger with no gap from any updated month through
/// `until`, every entry equals its earlier balance plus the sum of the
/// deltas applied to months not later than its own, and no entry is added.
pub proof fn lemma_ledger_prefix_sums(
    old: Map<SavingKey, int>,
    calls: Seq<(SavingKey, int)>,
    until: SavingKey,
)
    requires
        forall|i: int, c: SavingKey|
            0 <= i < calls.len() && #[trigger] in_months(c, calls[i].0, until) ==> old.contains_key(c),
    ensures
        ledger_after(old, calls, until).dom() == old.dom(),
        forall|c: SavingKey| #[trigger]
            old.contains_key(c) ==> ledger_after(old, calls, until)[c] == old[c] + deltas_through(
                calls,
                c,
                until,
            ),
    decreases calls.len(),
{
    if calls.len() > 0 {
        let init = calls.drop_last();
        assert forall|i: int, c: SavingKey|
            0 <= i < init.len() && #[trigger] in_months(c, init[i].0, until) implies old.contains_key(
                c,
            ) by {
            assert(init[i] == calls[i]);
        }
        lemma_ledger_prefix_sums(old, init, until);
        let mid = ledger_after(old, init, until);
        let last = calls.last();
        assert forall|c: SavingKey| #[trigger] in_months(c, last.0, until) implies mid.contains_key(
            c,
        ) by {
            assert(old.contains_key(c));
        }
        lemma_propagate_without_gaps(mid, last.0, last.1, until);
        assert(ledger_after(old, calls, until).dom() =~= old.dom());
    }
}

proof fn lemma_prev_ym_index(c: YearMonth)
    requires
        valid_ym(c),
        c != (MIN_YEAR, 1u32),
    ensures
        valid_ym(prev_ym(c)),
        month_index(prev_ym(c)) == month_index(c) - 1,
{
}

proof fn lemma_month_index_injective(a: YearMonth, b: YearMonth)
    requires
        valid_ym(a),
        valid_ym(b),
        month_index(a) == month_index(b),
    ensures
        a == b,
{
    assert(a.0 == b.0 && a.1 == b.1) by (nonlinear_arith)
        requires
            a.0 * 12 + a.1 - 1 == b.0 * 12 + b.1 - 1,
            1 <= a.1 <= 12,
            1 <= b.1 <= 12,
    ;
}

/// Applies `amount` to the ledger entry of month `key` and re-derives every
/// later month's entry up to and including the current month of the clock.
pub fn update_saving<R: SavingRepo>(key: SavingKey, amount: Amount, saving_repo: &mut R) -> (r:
    Result<(), FinanceError>)
    requires
        valid_ym(key),
    ensures
        r is Ok ==> exists|until: SavingKey|
            valid_ym(until) && final(saving_repo).balances() == propagated(
                old(saving_repo).balances(),
                key,
                amount.units as int,
                until,
            ),
        r is Err ==> exists|failed: SavingKey|
            #![trigger propagated(old(saving_repo).balances(), key, amount.units as int, prev_ym(failed))]
            valid_ym(failed) && month_index(key) <= month_index(failed) && final(saving_repo).balances()
                == propagated(old(saving_repo).balances(), key, amount.units as int, prev_ym(failed)),
        old(saving_repo).never_fails() && propagation_fits_from(old(saving_repo).balances(), key, amount.units as int)
            ==> r is Ok,
{
    let today = current_year_month();
    update_saving_through(key, amount, today, saving_repo)
}

/// Applies `amount` to the ledger entry of month `key` and re-derives every
/// later month's entry up to and including month `until`.
///
/// The store is not rolled back on failure: the months before the one being
/// processed keep their new entries, and that month and the later ones keep
/// their old entries.
pub fn update_saving_through<R: SavingRepo>(
    key: SavingKey,
    amount: Amount,
    until: SavingKey,
    saving_repo: &mut R,
) -> (r: Result<(), FinanceError>)
    requires
        valid_ym(key),
        valid_ym(until),
    ensures
        r is Ok ==> propagation_fits(old(saving_repo).balances(), key, amount.units as int, until),
        r is Ok ==> final(saving_repo).balances() == propagated(
            old(saving_repo).balances(),
            key,
            amount.units as int,
            until,
        ),
        old(saving_repo).never_fails() && (forall|c: SavingKey|
            #![trigger propagated_balance(old(saving_repo).balances(), key, amount.units as int, c)]
            in_months(c, key, until) ==> crate::amount::fits(
                propagated_balance(old(saving_repo).balances(), key, amount.units as int, c),
            )) ==> r is Ok,
        r is Err ==> exists|failed: SavingKey|
            #![trigger propagated(old(saving_repo).balances(), key, amount.units as int, prev_ym(failed))]
            in_months(failed, key, until) && final(saving_repo).balances() == propagated(
                old(saving_repo).balances(),
                key,
                amount.units as int,
                prev_ym(failed),
            ),
        final(saving_repo).never_fails() == old(saving_repo).never_fails(),
{
    let ghost old_bal = saving_repo.balances();
    let ghost delta = amount.units as int;
    if !ym_not_after(key, until) {
        proof {
            assert(saving_repo.balances() =~= propagated(old_bal, key, delta, until));
        }
        return Ok(());
    }
    let mut cursor = key;
    loop
        invariant
            valid_ym(key),
            valid_ym(until),
            valid_ym(cursor),
            month_index(key) <= month_index(cursor) <= month_index(until),
            old_bal == old(saving_repo).balances(),
            delta == amount.units as int,
            saving_repo.never_fails() == old(saving_repo).never_fails(),
            forall|c: SavingKey|
                #![trigger propagated_balance(old_bal, key, delta, c)]
                in_months(c, key, prev_ym(cursor)) ==> crate::amount::fits(propagated_balance(old_bal, key, delta, c)),
            saving_repo.balances() == propagated(old_bal, key, delta, prev_ym(cursor)),
            old(saving_repo).never_fails() && (forall|c: SavingKey|
                #![trigger propagated_balance(old_bal, key, delta, c)]
                in_months(c, key, until) ==> crate::amount::fits(
                    propagated_balance(old_bal, key, delta, c),
                )) ==> saving_repo.never_fails(),
        decreases month_index(until) - month_index(cursor),
    {
        let ghost bal = saving_repo.balances();
        proof {
            assert(in_months(cursor, key, until));
            if cursor != (MIN_YEAR, 1u32) {
                lemma_prev_ym_index(cursor);
            }
        }
        let (base, existed) = match saving_repo.get(&cursor) {
            Err(e) => return Err(e),
            Ok(Some(current)) => (Some(current.amount), true),
            Ok(None) => {
                let previous = if cursor.0 == MIN_YEAR && cursor.1 == 1 {
                    None
                } else {
                    let p = get_prev_ym(cursor);
                    match saving_repo.get(&p) {
                        Err(e) => return Err(e),
                        Ok(found) => found,
                    }
                };
                match previous {
                    Some(prev) => (Some(prev.amount), false),
                    None => (None, false),
                }
            },
        };
        proof {
            assert(existed == bal.contains_key(cursor));
            assert(in_months(cursor, key, until));
            assert(propagated_balance(old_bal, key, delta, cursor) == match base {
                Some(b) => b.units + delta,
                None => delta,
            }) by {
                if cursor != (MIN_YEAR, 1u32) && month_index(cursor) > month_index(key) {
                    assert(in_months(prev_ym(cursor), key, prev_ym(cursor)));
                }
                if month_index(cursor) == month_index(key) {
                    lemma_month_index_injective(cursor, key);
                    if cursor != (MIN_YEAR, 1u32) {
                        assert(!in_months(prev_ym(key), key, prev_ym(cursor)));
                    }
                }
            }
        }
        let value = match base {
            Some(b) => match b.checked_add(amount) {
                Some(v) => v,
                None => return Err(FinanceError::Overflow),
            },
            None => amount,
        };
        let written = if existed {
            saving_repo.update(&cursor, Saving::new(cursor, value))
        } else {
            saving_repo.store(&cursor, Saving::new(cursor, value))
        };
        match written {
            Err(e) => return Err(e),
            Ok(()) => {},
        }
        proof {
            assert forall|c: SavingKey| in_months(c, key, cursor) implies !(month_index(c)
                == month_index(cursor)) || c == cursor by {
                if month_index(c) == month_index(cursor) {
                    lemma_month_index_injective(c, cursor);
                }
            }
            assert(saving_repo.balances() =~= propagated(old_bal, key, delta, cursor));
        }
        if cursor.0 == until.0 && cursor.1 == until.1 {
            return Ok(());
        }
        proof {
            if month_index(cursor) == month_index(until) {
                lemma_month_index_injective(cursor, until);
            }
        }
        let ghost done = cursor;
        cursor = get_next_ym(cursor);
        proof {
            assert(prev_ym(cursor) == done);
        }
    }
}

} // verus!

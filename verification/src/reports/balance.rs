//! The balance report: for every month and account, the net change of the
//! account in that month.

use crate::iterators::transactionsbymonth::{
    month_after, month_end, month_of, month_start, sorted_by_month, transactions_by_month,
};
use crate::journal::{all_dated, transactions_view, Journal};
use crate::monthgrid::MonthGrid;
use crate::transaction::{Entry, EntryView, Transaction, TransactionView};
use crate::types::amount::{Amount, AmountError, AmountView};
use crate::types::monthyear::MonthYear;
use crate::types::Account;
use vstd::prelude::*;

verus! {

/// Why a journal has no balance report.
#[derive(Clone, Copy, Debug, PartialEq, Eq, Structural)]
pub enum BalanceError {
    /// The journal has no transaction, so there is no month to report.
    NoTransactions,
    /// A transaction has a date that does not exist, or a year before zero.
    InvalidDate,
    /// A transaction falls in an earlier month than one before it.
    NotSortedByMonth,
    /// The entries of an account in one month cannot be added up.
    Arithmetic(AmountError),
}

/// The first index at or after `i` of a change of the given account.
pub open spec fn find_account(changes: Seq<EntryView>, account: Seq<char>, i: int) -> Option<int>
    decreases changes.len() - i,
{
    if i < 0 || i >= changes.len() {
        None
    } else if changes[i].account == account {
        Some(i)
    } else {
        find_account(changes, account, i + 1)
    }
}

/// The changes after one more entry: added to the change of its account,
/// or appended as the first of its account.
pub open spec fn account_step(changes: Seq<EntryView>, e: EntryView) -> Result<
    Seq<EntryView>,
    AmountError,
> {
    match find_account(changes, e.account, 0) {
        Some(j) => match AmountView::sum(changes[j].amount, e.amount) {
            Ok(s) => Ok(changes.update(j, EntryView { account: e.account, amount: s })),
            Err(x) => Err(x),
        },
        None => Ok(changes.push(e)),
    }
}

/// The changes `acc` carried over the entries from `k` on.
pub open spec fn entries_into(entries: Seq<EntryView>, k: int, acc: Seq<EntryView>) -> Result<
    Seq<EntryView>,
    AmountError,
>
    decreases entries.len() - k,
{
    if k < 0 || k >= entries.len() {
        Ok(acc)
    } else {
        match account_step(acc, entries[k]) {
            Ok(next) => entries_into(entries, k + 1, next),
            Err(e) => Err(e),
        }
    }
}

/// The changes `acc` carried over the entries of the transactions from `i` on.
pub open spec fn transactions_into(ts: Seq<TransactionView>, i: int, acc: Seq<EntryView>) -> Result<
    Seq<EntryView>,
    AmountError,
>
    decreases ts.len() - i,
{
    if i < 0 || i >= ts.len() {
        Ok(acc)
    } else {
        match entries_into(ts[i].entries, 0, acc) {
            Ok(next) => transactions_into(ts, i + 1, next),
            Err(e) => Err(e),
        }
    }
}

/// One change per account, in the order in which the accounts first
/// appear: the sum of the account's entries in the given transactions; or
/// the first failure to add an entry to the change of its account.
pub open spec fn changes_of(ts: Seq<TransactionView>) -> Result<Seq<EntryView>, AmountError> {
    transactions_into(ts, 0, Seq::<EntryView>::empty())
}

/// The change of one account, if it has any.
pub open spec fn change_of(changes: Seq<EntryView>, account: Seq<char>) -> Option<AmountView> {
    match find_account(changes, account, 0) {
        Some(j) => Some(changes[j].amount),
        None => None,
    }
}

/// The changes by account in one month of a journal that is sorted by month.
pub open spec fn month_changes(journal: &Journal, month: MonthYear) -> Result<
    Seq<EntryView>,
    AmountError,
> {
    changes_of(
        transactions_view(
            journal.transactions@.subrange(
                month_start(journal.transactions@, month),
                month_end(journal.transactions@, month),
            ),
        ),
    )
}

/// The first failure among the changes of `months` consecutive months from
/// `month` on.
pub open spec fn first_failure(journal: &Journal, month: MonthYear, months: int) -> Option<
    AmountError,
>
    decreases months,
{
    if months <= 0 {
        None
    } else {
        match month_changes(journal, month) {
            Err(e) => Some(e),
            Ok(_) => first_failure(journal, month_after(month), months - 1),
        }
    }
}

/// The number of months from the first to the last transaction of a journal.
pub open spec fn month_span(journal: &Journal) -> int {
    month_of(journal.transactions@[journal.transactions@.len() - 1]).ordinal() - month_of(
        journal.transactions@[0],
    ).ordinal() + 1
}

/// Why a journal has no balance report, if it has none.
pub open spec fn balance_error(journal: &Journal) -> Option<BalanceError> {
    if journal.transactions@.len() == 0 {
        Some(BalanceError::NoTransactions)
    } else if !all_dated(journal@) {
        Some(BalanceError::InvalidDate)
    } else if !sorted_by_month(journal.transactions@) {
        Some(BalanceError::NotSortedByMonth)
    } else {
        match first_failure(journal, month_of(journal.transactions@[0]), month_span(journal)) {
            Some(e) => Some(BalanceError::Arithmetic(e)),
            None => None,
        }
    }
}

/// The contents of a slot.
pub open spec fn amount_view(amount: Option<Amount>) -> Option<AmountView> {
    match amount {
        Some(a) => Some(a@),
        None => None,
    }
}

/// No two changes share their account.
pub open spec fn distinct_accounts(changes: Seq<EntryView>) -> bool {
    forall|j: int, k: int|
        0 <= j < k < changes.len() ==> (#[trigger] changes[j]).account != (
        #[trigger] changes[k]).account
}

/// What is found is a change of the account, at or after `i`; where
/// nothing is found, no change from `i` on is of the account.
pub proof fn lemma_find_account(changes: Seq<EntryView>, account: Seq<char>, i: int)
    requires
        0 <= i,
    ensures
        match find_account(changes, account, i) {
            Some(j) => i <= j < changes.len() && changes[j].account == account,
            None => forall|j: int|
                i <= j < changes.len() ==> (#[trigger] changes[j]).account != account,
        },
    decreases changes.len() - i,
{
    if i < changes.len() && changes[i].account != account {
        lemma_find_account(changes, account, i + 1);
    }
}

/// One step keeps the accounts of the changes distinct.
proof fn lemma_account_step_distinct(changes: Seq<EntryView>, e: EntryView)
    requires
        distinct_accounts(changes),
        account_step(changes, e) is Ok,
    ensures
        distinct_accounts(account_step(changes, e).unwrap()),
{
    let next = account_step(changes, e).unwrap();
    lemma_find_account(changes, e.account, 0);
    assert forall|j: int, k: int| 0 <= j < k < next.len() implies (#[trigger] next[j]).account != (
    #[trigger] next[k]).account by {
        if j < changes.len() {
            assert(next[j].account == changes[j].account);
        }
        if k < changes.len() {
            assert(next[k].account == changes[k].account);
        }
    }
}

/// The entries of a transaction keep the accounts of the changes distinct.
proof fn lemma_entries_into_distinct(entries: Seq<EntryView>, k: int, acc: Seq<EntryView>)
    requires
        0 <= k,
        distinct_accounts(acc),
        entries_into(entries, k, acc) is Ok,
    ensures
        distinct_accounts(entries_into(entries, k, acc).unwrap()),
    decreases entries.len() - k,
{
    if k < entries.len() {
        lemma_account_step_distinct(acc, entries[k]);
        lemma_entries_into_distinct(entries, k + 1, account_step(acc, entries[k]).unwrap());
    }
}

/// The transactions keep the accounts of the changes distinct.
proof fn lemma_transactions_into_distinct(ts: Seq<TransactionView>, i: int, acc: Seq<EntryView>)
    requires
        0 <= i,
        distinct_accounts(acc),
        transactions_into(ts, i, acc) is Ok,
    ensures
        distinct_accounts(transactions_into(ts, i, acc).unwrap()),
    decreases ts.len() - i,
{
    if i < ts.len() {
        lemma_entries_into_distinct(ts[i].entries, 0, acc);
        lemma_transactions_into_distinct(ts, i + 1, entries_into(ts[i].entries, 0, acc).unwrap());
    }
}

/// No account has two changes.
pub proof fn lemma_changes_distinct(ts: Seq<TransactionView>)
    requires
        changes_of(ts) is Ok,
    ensures
        distinct_accounts(changes_of(ts).unwrap()),
{
    lemma_transactions_into_distinct(ts, 0, Seq::<EntryView>::empty());
}

/// Among changes of distinct accounts, the first `x + 1` give an account
/// what the first `x` give it, but for the account of the change at `x`.
proof fn lemma_change_of_next(changes: Seq<EntryView>, x: int, account: Seq<char>)
    requires
        distinct_accounts(changes),
        0 <= x < changes.len(),
    ensures
        change_of(changes.take(x + 1), account) == if account == changes[x].account {
            Some(changes[x].amount)
        } else {
            change_of(changes.take(x), account)
        },
{
    let short = changes.take(x);
    let long = changes.take(x + 1);
    lemma_find_account(short, account, 0);
    lemma_find_account(long, account, 0);
    assert(long[x] == changes[x]);
    match find_account(long, account, 0) {
        Some(j) => {
            assert(long[j] == changes[j]);
            if j < x {
                assert(short[j] == changes[j]);
                assert(changes[j].account != changes[x].account);
                match find_account(short, account, 0) {
                    Some(i) => {
                        assert(short[i] == changes[i]);
                        if i < j {
                            assert(changes[i].account != changes[j].account);
                        } else if j < i {
                            assert(changes[j].account != changes[i].account);
                        }
                    },
                    None => {},
                }
            } else {
                match find_account(short, account, 0) {
                    Some(i) => {
                        assert(short[i] == changes[i]);
                        assert(changes[i].account != changes[x].account);
                    },
                    None => {},
                }
            }
        },
        None => {
            match find_account(short, account, 0) {
                Some(i) => {
                    assert(short[i] == changes[i]);
                    assert(long[i] == changes[i]);
                },
                None => {},
            }
        },
    }
}

/// Adds an entry to the change of its account, or appends it as the first
/// of its account. On an error nothing changes.
pub fn add_to_changes(changes: &mut Vec<Entry>, entry: &Entry) -> (r: Result<(), AmountError>)
    ensures
        match account_step(crate::transaction::entries_view(old(changes)@), entry@) {
            Ok(next) => r is Ok && crate::transaction::entries_view(final(changes)@) == next,
            Err(e) => r == Err::<(), AmountError>(e) && crate::transaction::entries_view(
                final(changes)@,
            ) == crate::transaction::entries_view(old(changes)@),
        },
{
    let ghost before = crate::transaction::entries_view(changes@);
    let mut j: usize = 0;
    while j < changes.len() && changes[j].account != entry.account
        invariant
            j <= changes.len(),
            find_account(before, entry@.account, 0) == find_account(
                before,
                entry@.account,
                j as int,
            ),
            before == crate::transaction::entries_view(changes@),
        decreases changes.len() - j,
    {
        assert(before[j as int] == changes@[j as int]@);
        j += 1;
    }
    if j < changes.len() {
        assert(before[j as int] == changes@[j as int]@);
        let mut total = changes[j].amount.clone();
        match total.add(&entry.amount) {
            Ok(()) => {
                let changed = Entry { account: entry.account.clone(), amount: total };
                changes.set(j, changed);
                assert(crate::transaction::entries_view(changes@) =~= before.update(
                    j as int,
                    changed@,
                ));
                Ok(())
            },
            Err(e) => Err(e),
        }
    } else {
        let fresh = entry.clone();
        changes.push(fresh);
        assert(crate::transaction::entries_view(changes@) =~= before.push(fresh@));
        Ok(())
    }
}

/// The changes by account over the entries of some transactions.
pub fn changes_by_account(ts: &[Transaction]) -> (r: Result<Vec<Entry>, AmountError>)
    ensures
        match r {
            Ok(changes) => changes_of(transactions_view(ts@)) == Ok::<Seq<EntryView>, AmountError>(
                crate::transaction::entries_view(changes@),
            ),
            Err(e) => changes_of(transactions_view(ts@)) == Err::<Seq<EntryView>, AmountError>(e),
        },
{
    let ghost tv = transactions_view(ts@);
    let mut changes: Vec<Entry> = Vec::new();
    assert(crate::transaction::entries_view(changes@) =~= Seq::<EntryView>::empty());
    let mut i: usize = 0;
    while i < ts.len()
        invariant
            i <= ts@.len(),
            tv == transactions_view(ts@),
            changes_of(tv) == transactions_into(
                tv,
                i as int,
                crate::transaction::entries_view(changes@),
            ),
        decreases ts.len() - i,
    {
        let t = &ts[i];
        assert(tv[i as int] == t@);
        let ghost start = crate::transaction::entries_view(changes@);
        let mut k: usize = 0;
        while k < t.entries.len()
            invariant
                k <= t.entries@.len(),
                i < ts@.len(),
                tv == transactions_view(ts@),
                tv[i as int] == t@,
                entries_into(t@.entries, 0, start) == entries_into(
                    t@.entries,
                    k as int,
                    crate::transaction::entries_view(changes@),
                ),
                changes_of(tv) == transactions_into(tv, i as int, start),
            decreases t.entries.len() - k,
        {
            assert(t@.entries[k as int] == t.entries@[k as int]@);
            match add_to_changes(&mut changes, &t.entries[k]) {
                Ok(()) => {},
                Err(e) => {
                    return Err(e);
                },
            }
            k += 1;
        }
        i += 1;
    }
    Ok(changes)
}

/// The net change of every account in every month from the first to the
/// last month of the journal. The journal must have a transaction, dates
/// that exist, and its transactions in the order of their months.
pub fn balance_changes(journal: &Journal) -> (r: Result<MonthGrid<Account, Amount>, BalanceError>)
    ensures
        match r {
            Err(e) => balance_error(journal) == Some(e),
            Ok(grid) => {
                &&& balance_error(journal) is None
                &&& grid.wf()
                &&& grid.start() == month_of(journal.transactions@[0])
                &&& grid.total() == month_span(journal)
                &&& forall|month: MonthYear, account: Seq<char>|
                    grid.in_range(month) ==> month_changes(journal, month) is Ok && amount_view(
                        #[trigger] grid.value_at(month, account),
                    ) == change_of(month_changes(journal, month).unwrap(), account)
            },
        },
{
    if journal.transactions.len() == 0 {
        return Err(BalanceError::NoTransactions);
    }
    if !journal.has_valid_dates() {
        return Err(BalanceError::InvalidDate);
    }
    if !journal.is_sorted_by_month() {
        return Err(BalanceError::NotSortedByMonth);
    }
    let mut walk = transactions_by_month(journal);
    let first = walk.current_month;
    let last = walk.final_month;
    let ghost months = month_span(journal);
    proof {
        let ts = journal.transactions@;
        let n = ts.len() - 1;
        assert(journal@[0].date == ts[0].date);
        assert(journal@[n].date == ts[n].date);
        if 0 < n {
            assert(!month_of(ts[n]).before(&month_of(ts[0])));
        }
    }
    let mut grid: MonthGrid<Account, Amount> = MonthGrid::new(first, last);
    loop
        invariant
            walk.wf(),
            walk.journal == journal,
            journal.transactions@.len() > 0,
            all_dated(journal@),
            sorted_by_month(journal.transactions@),
            first.wf(),
            grid.wf(),
            grid.start() == first,
            grid.total() == months,
            months == month_span(journal),
            first == month_of(journal.transactions@[0]),
            0 <= walk.remaining() <= months,
            walk.remaining() > 0 ==> walk.current_month.ordinal() == first.ordinal() + months
                - walk.remaining(),
            first_failure(journal, first, months) == first_failure(
                journal,
                walk.current_month,
                walk.remaining(),
            ),
            forall|month: MonthYear, account: Seq<char>|
                grid.in_range(month) && month.ordinal() < first.ordinal() + months
                    - walk.remaining() ==> month_changes(journal, month) is Ok && amount_view(
                    #[trigger] grid.value_at(month, account),
                ) == change_of(month_changes(journal, month).unwrap(), account),
            forall|month: MonthYear, account: Seq<char>|
                grid.in_range(month) && month.ordinal() >= first.ordinal() + months
                    - walk.remaining() ==> (#[trigger] grid.value_at(month, account)) is None,
        decreases walk.remaining(),
    {
        let ghost walked = walk;
        match walk.next() {
            None => {
                return Ok(grid);
            },
            Some((month, ts)) => {
                let changes = match changes_by_account(ts) {
                    Ok(c) => c,
                    Err(e) => {
                        return Err(BalanceError::Arithmetic(e));
                    },
                };
                let ghost cv = crate::transaction::entries_view(changes@);
                let ghost start = grid;
                proof {
                    lemma_changes_distinct(transactions_view(ts@));
                    assert(cv.take(0) =~= Seq::<EntryView>::empty());
                }
                let mut x: usize = 0;
                while x < changes.len()
                    invariant
                        x <= changes@.len(),
                        cv == crate::transaction::entries_view(changes@),
                        distinct_accounts(cv),
                        start.wf(),
                        grid.wf(),
                        grid.start() == start.start(),
                        grid.total() == start.total(),
                        start.in_range(month),
                        forall|other: MonthYear, account: Seq<char>|
                            start.in_range(other) && other != month ==> (#[trigger] grid.value_at(
                                other,
                                account,
                            )) == start.value_at(other, account),
                        forall|account: Seq<char>|
                            amount_view(#[trigger] grid.value_at(month, account)) == change_of(
                                cv.take(x as int),
                                account,
                            ),
                    decreases changes.len() - x,
                {
                    let change = &changes[x];
                    assert(cv[x as int] == change@);
                    let ghost before = grid;
                    let amount = change.amount.clone();
                    grid.insert(change.account.clone(), month, amount);
                    proof {
                        assert forall|account: Seq<char>|
                            amount_view(#[trigger] grid.value_at(month, account)) == change_of(
                                cv.take(x + 1),
                                account,
                            ) by {
                            lemma_change_of_next(cv, x as int, account);
                            assert(amount_view(before.value_at(month, account)) == change_of(
                                cv.take(x as int),
                                account,
                            ));
                        }
                        assert forall|other: MonthYear, account: Seq<char>|
                            start.in_range(other) && other != month implies (
                        #[trigger] grid.value_at(other, account)) == start.value_at(
                            other,
                            account,
                        ) by {
                            assert(before.value_at(other, account) == start.value_at(other, account));
                        }
                    }
                    x += 1;
                }
                proof {
                    assert(cv.take(changes@.len() as int) =~= cv);
                    assert forall|other: MonthYear, account: Seq<char>|
                        grid.in_range(other) && other.ordinal() < first.ordinal() + months
                            - walk.remaining() implies month_changes(journal, other) is Ok
                        && amount_view(#[trigger] grid.value_at(other, account)) == change_of(
                        month_changes(journal, other).unwrap(),
                        account,
                    ) by {
                        if other != month {
                            assert(grid.value_at(other, account) == start.value_at(other, account));
                        }
                    }
                    assert forall|other: MonthYear, account: Seq<char>|
                        grid.in_range(other) && other.ordinal() >= first.ordinal() + months
                            - walk.remaining() implies (#[trigger] grid.value_at(other, account))
                        is None by {
                        assert(grid.value_at(other, account) == start.value_at(other, account));
                    }
                }
            },
        }
    }
}

} // verus!

//! The register: every entry of one account with the running total of its
//! units.

use crate::journal::Journal;
use crate::transaction::{
    add_to_totals, amounts_view, find_units, totals_step, Entry, EntryView, Transaction,
    TransactionView,
};
use crate::types::amount::{Amount, AmountError, AmountView};
use crate::types::date::Date;
use crate::types::Account;
use vstd::prelude::*;

verus! {

/// One line of the register. The date and the description are given with
/// the first line of a transaction only.
#[derive(Debug, PartialEq)]
pub struct ReportLine {
    pub date: Option<Date>,
    pub description: Option<String>,
    pub account: Account,
    pub amount: Amount,
    pub running_total: Amount,
}

/// The mathematical content of a [`ReportLine`].
pub struct ReportLineView {
    pub date: Option<Date>,
    pub description: Option<Seq<char>>,
    pub account: Seq<char>,
    pub amount: AmountView,
    pub running_total: AmountView,
}

impl View for ReportLine {
    type V = ReportLineView;

    open spec fn view(&self) -> ReportLineView {
        ReportLineView {
            date: self.date,
            description: match self.description {
                Some(d) => Some(d@),
                None => None,
            },
            account: self.account@,
            amount: self.amount@,
            running_total: self.running_total@,
        }
    }
}

/// The contents of a list of report lines.
pub open spec fn lines_view(lines: Seq<ReportLine>) -> Seq<ReportLineView> {
    lines.map_values(|l: ReportLine| l@)
}

/// A transaction with the entries of it that were selected, both by their
/// place: the transaction's in the journal, the entries' in the transaction.
#[derive(Debug, PartialEq)]
pub struct FilteredTransaction {
    pub transaction: usize,
    pub entries: Vec<usize>,
}

/// The mathematical content of a [`FilteredTransaction`].
pub struct FilteredView {
    pub transaction: int,
    pub entries: Seq<int>,
}

impl View for FilteredTransaction {
    type V = FilteredView;

    open spec fn view(&self) -> FilteredView {
        FilteredView {
            transaction: self.transaction as int,
            entries: self.entries@.map_values(|k: usize| k as int),
        }
    }
}

/// The contents of a list of filtered transactions.
pub open spec fn filtered_view(fts: Seq<FilteredTransaction>) -> Seq<FilteredView> {
    fts.map_values(|f: FilteredTransaction| f@)
}

/// The places, in order, of the entries among the first `n` that belong to
/// `account`.
pub open spec fn matching_upto(entries: Seq<EntryView>, account: Seq<char>, n: int) -> Seq<int>
    decreases n,
{
    if n <= 0 {
        Seq::<int>::empty()
    } else if entries[n - 1].account == account {
        matching_upto(entries, account, n - 1).push(n - 1)
    } else {
        matching_upto(entries, account, n - 1)
    }
}

/// The entries of a transaction that belong to `account`.
pub open spec fn matching(t: TransactionView, account: Seq<char>) -> Seq<int> {
    matching_upto(t.entries, account, t.entries.len() as int)
}

/// Those of the first `n` transactions that have an entry of `account`,
/// in order, each with its entries of that account.
pub open spec fn filtered_upto(journal: Seq<TransactionView>, account: Seq<char>, n: int) -> Seq<
    FilteredView,
>
    decreases n,
{
    if n <= 0 {
        Seq::<FilteredView>::empty()
    } else if matching(journal[n - 1], account).len() > 0 {
        filtered_upto(journal, account, n - 1).push(
            FilteredView { transaction: n - 1, entries: matching(journal[n - 1], account) },
        )
    } else {
        filtered_upto(journal, account, n - 1)
    }
}

/// The selected entries of a transaction are entries of it, of the account
/// asked for.
pub proof fn lemma_matching_upto(entries: Seq<EntryView>, account: Seq<char>, n: int)
    requires
        0 <= n <= entries.len(),
    ensures
        forall|x: int|
            0 <= x < matching_upto(entries, account, n).len() ==> 0 <= (#[trigger] matching_upto(
                entries,
                account,
                n,
            )[x]) < n && entries[matching_upto(entries, account, n)[x]].account == account,
    decreases n,
{
    if n > 0 {
        lemma_matching_upto(entries, account, n - 1);
    }
}

/// The transactions that were selected are transactions of the journal,
/// each with the entries of it that belong to the account.
pub proof fn lemma_filtered_upto(journal: Seq<TransactionView>, account: Seq<char>, n: int)
    requires
        0 <= n <= journal.len(),
    ensures
        forall|x: int|
            0 <= x < filtered_upto(journal, account, n).len() ==> {
                let f = #[trigger] filtered_upto(journal, account, n)[x];
                0 <= f.transaction < n && f.entries == matching(journal[f.transaction], account)
                    && f.entries.len() > 0
            },
    decreases n,
{
    if n > 0 {
        lemma_filtered_upto(journal, account, n - 1);
        let now = filtered_upto(journal, account, n);
        let before = filtered_upto(journal, account, n - 1);
        assert forall|x: int| 0 <= x < now.len() implies {
            let f = #[trigger] now[x];
            0 <= f.transaction < n && f.entries == matching(journal[f.transaction], account)
                && f.entries.len() > 0
        } by {
            if x < before.len() {
                assert(now[x] == before[x]);
            }
        }
    }
}

/// The line of one entry and the running totals after it.
pub open spec fn report_entry(t: TransactionView, k: int, first: bool, totals: Seq<AmountView>)
    -> Result<(ReportLineView, Seq<AmountView>), AmountError> {
    let entry = t.entries[k];
    match totals_step(totals, entry.amount) {
        Err(e) => Err(e),
        Ok(next) => Ok(
            (
                ReportLineView {
                    date: if first {
                        Some(t.date)
                    } else {
                        None
                    },
                    description: if first {
                        Some(t.description)
                    } else {
                        None
                    },
                    account: entry.account,
                    amount: entry.amount,
                    running_total: next[find_units(next, entry.amount.units, 0).unwrap()],
                },
                next,
            ),
        ),
    }
}

/// The lines of a register after `lines`, from the entry at place `k` of the
/// selected transaction at place `i` on, with the running totals so far.
pub open spec fn report_from(
    journal: Seq<TransactionView>,
    fts: Seq<FilteredView>,
    i: int,
    k: int,
    totals: Seq<AmountView>,
    lines: Seq<ReportLineView>,
) -> Result<Seq<ReportLineView>, AmountError>
    decreases fts.len() - i, fts[i].entries.len() - k,
{
    if i < 0 || i >= fts.len() {
        Ok(lines)
    } else if k < 0 || k >= fts[i].entries.len() {
        report_from(journal, fts, i + 1, 0, totals, lines)
    } else {
        match report_entry(journal[fts[i].transaction], fts[i].entries[k], k == 0, totals) {
            Err(e) => Err(e),
            Ok((line, next)) => report_from(journal, fts, i, k + 1, next, lines.push(line)),
        }
    }
}

/// The register of an account: one line for each of its entries, in the
/// order of the journal, each with the total so far of the entries of its
/// units; or the first failure to add an entry to that total.
pub open spec fn register_of(journal: Seq<TransactionView>, account: Seq<char>) -> Result<
    Seq<ReportLineView>,
    AmountError,
> {
    report_from(
        journal,
        filtered_upto(journal, account, journal.len() as int),
        0,
        0,
        Seq::<AmountView>::empty(),
        Seq::<ReportLineView>::empty(),
    )
}

/// The entries of a transaction that belong to an account, if there are any.
pub fn filter_entries_for(transaction: &Transaction, index: usize, account: &Account) -> (r: Option<
    FilteredTransaction,
>)
    ensures
        match r {
            Some(f) => f@ == (FilteredView {
                transaction: index as int,
                entries: matching(transaction@, account@),
            }) && f@.entries.len() > 0,
            None => matching(transaction@, account@).len() == 0,
        },
{
    let mut entries: Vec<usize> = Vec::new();
    let mut k: usize = 0;
    while k < transaction.entries.len()
        invariant
            k <= transaction.entries.len(),
            entries@.map_values(|x: usize| x as int) == matching_upto(
                transaction@.entries,
                account@,
                k as int,
            ),
        decreases transaction.entries.len() - k,
    {
        assert(transaction@.entries[k as int] == transaction.entries@[k as int]@);
        let ghost before = entries@.map_values(|x: usize| x as int);
        if transaction.entries[k].account == *account {
            entries.push(k);
            assert(entries@.map_values(|x: usize| x as int) =~= before.push(k as int));
        }
        k += 1;
    }
    if entries.len() == 0 {
        None
    } else {
        Some(FilteredTransaction { transaction: index, entries })
    }
}

/// The transactions that have an entry of an account, each with its
/// entries of that account.
pub fn filter_by_account(transactions: &Vec<Transaction>, account: &Account) -> (r: Vec<
    FilteredTransaction,
>)
    ensures
        filtered_view(r@) == filtered_upto(
            crate::journal::transactions_view(transactions@),
            account@,
            transactions@.len() as int,
        ),
{
    let ghost journal = crate::journal::transactions_view(transactions@);
    let mut out: Vec<FilteredTransaction> = Vec::new();
    let mut i: usize = 0;
    assert(filtered_view(out@) =~= Seq::<FilteredView>::empty());
    while i < transactions.len()
        invariant
            i <= transactions.len(),
            journal == crate::journal::transactions_view(transactions@),
            filtered_view(out@) == filtered_upto(journal, account@, i as int),
        decreases transactions.len() - i,
    {
        assert(journal[i as int] == transactions@[i as int]@);
        let ghost before = filtered_view(out@);
        match filter_entries_for(&transactions[i], i, account) {
            Some(f) => {
                out.push(f);
                assert(filtered_view(out@) =~= before.push(f@));
            },
            None => {},
        }
        i += 1;
    }
    out
}

/// Takes an entry into the running totals and says where the total of its
/// units stands.
pub fn update_running_totals(totals: &mut Vec<Amount>, entry: &Entry) -> (r: Result<
    usize,
    AmountError,
>)
    ensures
        match totals_step(amounts_view(old(totals)@), entry@.amount) {
            Ok(next) => r matches Ok(j) && amounts_view(final(totals)@) == next && find_units(
                next,
                entry@.amount.units,
                0,
            ) == Some(j as int) && j < final(totals)@.len(),
            Err(e) => r == Err::<usize, AmountError>(e) && amounts_view(final(totals)@)
                == amounts_view(old(totals)@),
        },
{
    add_to_totals(totals, &entry.amount)
}

/// The line of an entry.
pub fn create_report_line(
    transaction: &Transaction,
    entry: &Entry,
    running_total: Amount,
    is_first_entry: bool,
) -> (r: ReportLine)
    ensures
        r@ == (ReportLineView {
            date: if is_first_entry {
                Some(transaction.date)
            } else {
                None
            },
            description: if is_first_entry {
                Some(transaction.description@)
            } else {
                None
            },
            account: entry@.account,
            amount: entry@.amount,
            running_total: running_total@,
        }),
{
    ReportLine {
        date: if is_first_entry {
            Some(transaction.date)
        } else {
            None
        },
        description: if is_first_entry {
            Some(transaction.description.clone())
        } else {
            None
        },
        account: entry.account.clone(),
        amount: entry.amount.clone(),
        running_total,
    }
}

/// The register of an account: each debit or credit to it, one per line, in
/// the order of the journal, with the running total of its units.
pub fn register_report(journal: &Journal, account: &Account) -> (r: Result<
    Vec<ReportLine>,
    AmountError,
>)
    ensures
        match r {
            Ok(lines) => register_of(journal@, account@) == Ok::<
                Seq<ReportLineView>,
                AmountError,
            >(lines_view(lines@)),
            Err(e) => register_of(journal@, account@) == Err::<Seq<ReportLineView>, AmountError>(
                e,
            ),
        },
{
    let fts = filter_by_account(&journal.transactions, account);
    let ghost jv = journal@;
    let ghost fv = filtered_view(fts@);
    let mut report_lines: Vec<ReportLine> = Vec::new();
    let mut running_totals: Vec<Amount> = Vec::new();
    proof {
        lemma_filtered_upto(jv, account@, jv.len() as int);
        assert(lines_view(report_lines@) =~= Seq::<ReportLineView>::empty());
        assert(amounts_view(running_totals@) =~= Seq::<AmountView>::empty());
    }
    let mut i: usize = 0;
    while i < fts.len()
        invariant
            i <= fts.len(),
            jv == journal@,
            fv == filtered_view(fts@),
            fv == filtered_upto(jv, account@, jv.len() as int),
            forall|x: int|
                0 <= x < fv.len() ==> 0 <= (#[trigger] fv[x]).transaction < jv.len() && fv[x].entries
                    == matching(jv[fv[x].transaction], account@),
            register_of(jv, account@) == report_from(
                jv,
                fv,
                i as int,
                0,
                amounts_view(running_totals@),
                lines_view(report_lines@),
            ),
        decreases fts.len() - i,
    {
        let filtered = &fts[i];
        assert(fv[i as int] == filtered@);
        let transaction = &journal.transactions[filtered.transaction];
        assert(jv[filtered.transaction as int] == transaction@);
        proof {
            lemma_matching_upto(transaction@.entries, account@, transaction@.entries.len() as int);
        }
        let mut k: usize = 0;
        while k < filtered.entries.len()
            invariant
                k <= filtered.entries.len(),
                i < fts.len(),
                jv == journal@,
                filtered.transaction < jv.len(),
                fv == filtered_view(fts@),
                fv[i as int] == filtered@,
                jv[filtered.transaction as int] == transaction@,
                filtered@.entries == matching(transaction@, account@),
                forall|x: int|
                    0 <= x < filtered@.entries.len() ==> 0 <= (#[trigger] filtered@.entries[x])
                        < transaction@.entries.len(),
                register_of(jv, account@) == report_from(
                    jv,
                    fv,
                    i as int,
                    k as int,
                    amounts_view(running_totals@),
                    lines_view(report_lines@),
                ),
            decreases filtered.entries.len() - k,
        {
            assert(filtered@.entries[k as int] == filtered.entries@[k as int] as int);
            let entry = &transaction.entries[filtered.entries[k]];
            assert(transaction@.entries[filtered.entries@[k as int] as int] == entry@);
            match update_running_totals(&mut running_totals, entry) {
                Ok(j) => {
                    let running_total = running_totals[j].clone();
                    assert(amounts_view(running_totals@)[j as int] == running_totals@[j as int]@);
                    let line = create_report_line(transaction, entry, running_total, k == 0);
                    let ghost before = lines_view(report_lines@);
                    report_lines.push(line);
                    assert(lines_view(report_lines@) =~= before.push(line@));
                },
                Err(e) => {
                    return Err(e);
                },
            }
            k += 1;
        }
        i += 1;
    }
    Ok(report_lines)
}

} // verus!

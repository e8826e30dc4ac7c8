//! A journal month by month.

use crate::journal::{all_dated, Journal, JournalSummary};
use crate::transaction::Transaction;
use crate::types::monthyear::MonthYear;
use vstd::prelude::*;
use vstd::slice::slice_subrange;

verus! {

/// The month in which a transaction falls.
pub open spec fn month_of(t: Transaction) -> MonthYear {
    MonthYear { year: MonthYear::year_of(t.date) as u32, month: t.date.month }
}

/// No transaction falls in an earlier month than one before it.
pub open spec fn sorted_by_month(ts: Seq<Transaction>) -> bool {
    forall|i: int, j: int|
        0 <= i < j < ts.len() ==> !month_of(#[trigger] ts[j]).before(&month_of(#[trigger] ts[i]))
}

/// No transaction has an earlier date than one before it.
pub open spec fn sorted_by_date(ts: Seq<Transaction>) -> bool {
    forall|i: int, j: int|
        0 <= i < j < ts.len() ==> !(#[trigger] ts[j]).date.before(&(#[trigger] ts[i]).date)
}

/// Transactions in the order of their dates, in years from zero on, are in
/// the order of their months.
pub proof fn lemma_sorted_by_date(ts: Seq<Transaction>)
    requires
        sorted_by_date(ts),
        forall|i: int| 0 <= i < ts.len() ==> (#[trigger] ts[i]).date.year >= 0,
    ensures
        sorted_by_month(ts),
{
    assert forall|i: int, j: int| 0 <= i < j < ts.len() implies !month_of(#[trigger] ts[j]).before(
        &month_of(#[trigger] ts[i]),
    ) by {
        assert(!ts[j].date.before(&ts[i].date));
    }
}

/// The index of the first transaction at or after `i` that does not fall
/// before `month`, or the number of transactions where there is none.
pub open spec fn first_not_before(ts: Seq<Transaction>, month: MonthYear, i: int) -> int
    decreases ts.len() - i,
{
    if i < 0 || i >= ts.len() {
        ts.len() as int
    } else if !month_of(ts[i]).before(&month) {
        i
    } else {
        first_not_before(ts, month, i + 1)
    }
}

/// The month after `month`.
pub open spec fn month_after(month: MonthYear) -> MonthYear {
    if month.month == 12 {
        MonthYear { year: (month.year + 1) as u32, month: 1 }
    } else {
        MonthYear { year: month.year, month: (month.month + 1) as u32 }
    }
}

/// Where the transactions of `month` start in a list sorted by month.
pub open spec fn month_start(ts: Seq<Transaction>, month: MonthYear) -> int {
    first_not_before(ts, month, 0)
}

/// Where the transactions of `month` end in a list sorted by month.
pub open spec fn month_end(ts: Seq<Transaction>, month: MonthYear) -> int {
    first_not_before(ts, month_after(month), 0)
}

/// Every transaction from `i` up to the first that does not fall before
/// `month` falls before it, and that first one does not.
pub proof fn lemma_first_not_before(ts: Seq<Transaction>, month: MonthYear, i: int)
    requires
        0 <= i <= ts.len(),
    ensures
        i <= first_not_before(ts, month, i) <= ts.len(),
        forall|k: int|
            i <= k < first_not_before(ts, month, i) ==> month_of(#[trigger] ts[k]).before(&month),
        first_not_before(ts, month, i) < ts.len() ==> !month_of(
            ts[first_not_before(ts, month, i)],
        ).before(&month),
    decreases ts.len() - i,
{
    if i < ts.len() && month_of(ts[i]).before(&month) {
        lemma_first_not_before(ts, month, i + 1);
    }
}

/// In a list sorted by month, the transactions from the start of a month to
/// its end are precisely those that fall in that month.
pub proof fn lemma_month_slice(ts: Seq<Transaction>, month: MonthYear)
    requires
        sorted_by_month(ts),
        month.wf(),
        month.month == 12 ==> month.year < u32::MAX,
    ensures
        0 <= month_start(ts, month) <= month_end(ts, month) <= ts.len(),
        forall|k: int|
            0 <= k < ts.len() && month_of(#[trigger] ts[k]).wf() ==> ((month_start(ts, month) <= k
                < month_end(ts, month)) <==> month_of(ts[k]) == month),
{
    let next = month_after(month);
    let a = month_start(ts, month);
    let b = month_end(ts, month);
    lemma_first_not_before(ts, month, 0);
    lemma_first_not_before(ts, next, 0);
    if b < a {
        assert(month_of(ts[b]).before(&month));
        assert(!month_of(ts[b]).before(&next));
    }
    assert forall|k: int| 0 <= k < ts.len() && month_of(#[trigger] ts[k]).wf() implies ((a <= k
        < b) <==> month_of(ts[k]) == month) by {
        if k < a {
            assert(month_of(ts[k]).before(&month));
        } else if a < ts.len() {
            assert(!month_of(ts[a]).before(&month));
            if a < k {
                assert(!month_of(ts[k]).before(&month_of(ts[a])));
            }
        }
        if k < b {
            assert(month_of(ts[k]).before(&next));
        } else if b < ts.len() {
            assert(!month_of(ts[b]).before(&next));
            if b < k {
                assert(!month_of(ts[k]).before(&month_of(ts[b])));
            }
        }
    }
}

/// Whether `slice` holds the transactions of `month`: those from the start
/// of the month to its end, which are precisely the transactions that fall
/// in that month.
pub open spec fn is_month_slice(ts: Seq<Transaction>, month: MonthYear, slice: Seq<Transaction>)
    -> bool {
    &&& 0 <= month_start(ts, month) <= month_end(ts, month) <= ts.len()
    &&& slice == ts.subrange(month_start(ts, month), month_end(ts, month))
    &&& forall|k: int|
        0 <= k < ts.len() && month_of(#[trigger] ts[k]).wf() ==> ((month_start(ts, month) <= k
            < month_end(ts, month)) <==> month_of(ts[k]) == month)
}

/// The number of transactions that fall before `month`, found by halving
/// the list.
pub fn partition_point(ts: &[Transaction], month: MonthYear) -> (r: usize)
    requires
        sorted_by_month(ts@),
    ensures
        r == first_not_before(ts@, month, 0),
        r <= ts@.len(),
{
    let mut lo: usize = 0;
    let mut hi: usize = ts.len();
    while lo < hi
        invariant
            lo <= hi <= ts@.len(),
            sorted_by_month(ts@),
            forall|k: int| 0 <= k < lo ==> month_of(#[trigger] ts@[k]).before(&month),
            forall|k: int| hi <= k < ts@.len() ==> !month_of(#[trigger] ts@[k]).before(&month),
        decreases hi - lo,
    {
        let mid: usize = lo + (hi - lo) / 2;
        let key = MonthYear::from_naivedate(ts[mid].date);
        assert(key == month_of(ts@[mid as int]));
        if key.is_before(&month) {
            assert forall|k: int| 0 <= k < mid + 1 implies month_of(#[trigger] ts@[k]).before(
                &month,
            ) by {
                if k < mid {
                    assert(!month_of(ts@[mid as int]).before(&month_of(ts@[k])));
                }
            }
            lo = mid + 1;
        } else {
            assert forall|k: int| mid <= k < ts@.len() implies !month_of(#[trigger] ts@[k]).before(
                &month,
            ) by {
                if mid < k {
                    assert(!month_of(ts@[k]).before(&month_of(ts@[mid as int])));
                }
            }
            hi = mid;
        }
    }
    proof {
        lemma_first_not_before(ts@, month, 0);
        let f = first_not_before(ts@, month, 0);
        if f < lo {
            assert(month_of(ts@[f]).before(&month));
        } else if lo < f {
            assert(month_of(ts@[lo as int]).before(&month));
        }
    }
    lo
}

/// Walks a journal from one month to another and hands out, month by month,
/// the transactions that fall in it. The journal must be sorted by month.
pub struct TransactionsByMonth<'a> {
    pub journal: &'a Journal,
    pub current_month: MonthYear,
    pub final_month: MonthYear,
}

impl<'a> TransactionsByMonth<'a> {
    /// What a walk needs: a sorted journal, months that are months, and a
    /// last month with a successor.
    pub open spec fn wf(&self) -> bool {
        &&& sorted_by_month(self.journal.transactions@)
        &&& self.current_month.wf()
        &&& self.final_month.wf()
        &&& self.final_month.year < u32::MAX
    }

    /// The number of months still to come.
    pub open spec fn remaining(&self) -> int {
        if self.final_month.before(&self.current_month) {
            0
        } else {
            self.final_month.ordinal() - self.current_month.ordinal() + 1
        }
    }

    /// The next month and its transactions; nothing once the last month is past.
    pub fn next(&mut self) -> (r: Option<(MonthYear, &'a [Transaction])>)
        requires
            old(self).wf(),
        ensures
            final(self).wf(),
            final(self).journal == old(self).journal,
            final(self).final_month == old(self).final_month,
            match r {
                Some((month, slice)) => {
                    &&& old(self).remaining() > 0
                    &&& month == old(self).current_month
                    &&& final(self).current_month == month_after(month)
                    &&& final(self).remaining() == old(self).remaining() - 1
                    &&& is_month_slice(old(self).journal.transactions@, month, slice@)
                },
                None => old(self).remaining() == 0 && *final(self) == *old(self),
            },
    {
        if self.final_month.is_before(&self.current_month) {
            return None;
        }
        let transactions: &'a [Transaction] = self.journal.transactions.as_slice();
        let month = self.current_month;
        let start = partition_point(transactions, month);
        let next_month = month.next_month();
        let end = partition_point(transactions, next_month);
        proof {
            lemma_month_slice(transactions@, month);
        }
        self.current_month = next_month;
        Some((month, slice_subrange(transactions, start, end)))
    }

    /// All the months that are left, in month order: one pair for each month
    /// from the current to the last, months without transactions too, each
    /// with precisely the transactions that fall in it.
    pub fn collect(self) -> (r: Vec<(MonthYear, &'a [Transaction])>)
        requires
            self.wf(),
        ensures
            r@.len() == self.remaining(),
            forall|i: int|
                0 <= i < r@.len() ==> {
                    &&& (#[trigger] r@[i]).0.wf()
                    &&& r@[i].0.ordinal() == self.current_month.ordinal() + i
                    &&& is_month_slice(self.journal.transactions@, r@[i].0, r@[i].1@)
                },
    {
        let mut walk = self;
        let mut out: Vec<(MonthYear, &'a [Transaction])> = Vec::new();
        loop
            invariant
                walk.wf(),
                walk.journal == self.journal,
                walk.final_month == self.final_month,
                out@.len() + walk.remaining() == self.remaining(),
                walk.remaining() > 0 ==> walk.current_month.ordinal() == self.current_month.ordinal()
                    + out@.len(),
                forall|i: int|
                    0 <= i < out@.len() ==> {
                        &&& (#[trigger] out@[i]).0.wf()
                        &&& out@[i].0.ordinal() == self.current_month.ordinal() + i
                        &&& is_month_slice(self.journal.transactions@, out@[i].0, out@[i].1@)
                    },
            decreases walk.remaining(),
        {
            match walk.next() {
                Some(pair) => {
                    out.push(pair);
                },
                None => {
                    return out;
                },
            }
        }
    }
}

/// A walk over a journal from the first to the last month in which it has
/// a transaction; over no month at all where the journal is empty.
pub fn transactions_by_month(journal: &Journal) -> (r: TransactionsByMonth<'_>)
    requires
        sorted_by_month(journal.transactions@),
        all_dated(journal@),
    ensures
        r.wf(),
        r.journal == journal,
        journal.transactions@.len() == 0 ==> r.remaining() == 0,
        journal.transactions@.len() > 0 ==> r.current_month == month_of(journal.transactions@[0])
            && r.final_month == month_of(journal.transactions@[journal.transactions@.len() - 1]),
{
    match JournalSummary::from(journal) {
        Some(summary) => {
            proof {
                let ts = journal.transactions@;
                let last = ts.len() - 1;
                assert(journal@[0].date == ts[0].date);
                assert(journal@[last].date == ts[last].date);
                let i = choose|i: int|
                    0 <= i < ts.len() && month_of(#[trigger] ts[i]) == summary.first_month;
                let j = choose|j: int|
                    0 <= j < ts.len() && month_of(#[trigger] ts[j]) == summary.final_month;
                assert(!month_of(ts[0]).before(&summary.first_month));
                assert(!summary.final_month.before(&month_of(ts[last])));
                if 0 < i {
                    assert(!month_of(ts[i]).before(&month_of(ts[0])));
                }
                if j < last {
                    assert(!month_of(ts[last]).before(&month_of(ts[j])));
                }
            }
            TransactionsByMonth {
                journal,
                current_month: summary.first_month,
                final_month: summary.final_month,
            }
        },
        None => TransactionsByMonth {
            journal,
            current_month: MonthYear { year: 1970, month: 2 },
            final_month: MonthYear { year: 1970, month: 1 },
        },
    }
}

} // verus!

//! The journal and the parser that assembles and balances its transactions.

use crate::journal::types::{parse_line, run_end, scan, CharClass, Line, LineAmount, LineView};
use crate::text::{
    all_space, chars_of, is_all_whitespace, is_space, is_whitespace_char, slice_to_string,
};
use crate::transaction::{
    amounts_view, balanced, header_of, lemma_totals_sum_up, lemma_unit_sum_absent,
    lemma_zero_totals_balanced, totals_of, unit_sum, Entry, EntryView, Transaction,
    TransactionView,
};
use crate::types::amount::{lemma_negated_weight, lemma_zero_weight, Amount, AmountError, AmountView};
use crate::iterators::transactionsbymonth::{month_of, sorted_by_month};
use crate::types::date::Date;
use crate::types::monthyear::MonthYear;
use vstd::prelude::*;

pub mod types;

verus! {

/// The transactions of a journal, in the order of the text.
#[derive(Debug, PartialEq)]
pub struct Journal {
    pub transactions: Vec<Transaction>,
}

/// The contents of a list of transactions.
pub open spec fn transactions_view(transactions: Seq<Transaction>) -> Seq<TransactionView> {
    transactions.map_values(|t: Transaction| t@)
}

impl View for Journal {
    type V = Seq<TransactionView>;

    open spec fn view(&self) -> Seq<TransactionView> {
        transactions_view(self.transactions@)
    }
}

/// Why a text is no journal. The first three say that a line is malformed;
/// the others, that the accounting data cannot be accepted.
#[derive(Clone, Copy, Debug, PartialEq, Eq, Structural)]
pub enum ParseJournalError {
    /// A line that is no header begins with something other than white space.
    EntryLineMustStartWithSpace,
    /// An indented line is neither an account nor an account with an amount.
    UnrecognizedLine,
    /// An entry line stands before the first header.
    EntryOutsideTransaction,
    /// A transaction has a second entry without an amount.
    TwoBlankAmounts,
    /// A transaction has an entry without an amount and nothing left to balance.
    BlankWithNothingToBalance,
    /// A transaction has an entry without an amount and more than one unit to balance.
    BlankWithSeveralUnbalanced,
    /// A transaction without a blank entry does not net to zero.
    UnbalancedTransaction,
    /// The amounts of one unit cannot be added up or turned around.
    Arithmetic(AmountError),
}

impl ParseJournalError {
    /// The words of the message that goes with the error.
    pub open spec fn message_of(&self) -> Seq<char> {
        match self {
            ParseJournalError::EntryLineMustStartWithSpace => {
                "First character of a debit/credit line must be a space or tab"@
            },
            ParseJournalError::UnrecognizedLine => "Couldn't process this line"@,
            ParseJournalError::EntryOutsideTransaction => {
                "Can't have a debit/credit outside a transaction"@
            },
            ParseJournalError::TwoBlankAmounts => "Two blank amounts in one transaction"@,
            ParseJournalError::BlankWithNothingToBalance => {
                "Blank transaction entry with no unbalanced commodity"@
            },
            ParseJournalError::BlankWithSeveralUnbalanced => {
                "Blank transaction entry with more than one unbalanced commodity"@
            },
            ParseJournalError::UnbalancedTransaction => "Unbalanced transaction"@,
            ParseJournalError::Arithmetic(AmountError::UnitsMismatch) => {
                "Cannot add two amounts with different units"@
            },
            ParseJournalError::Arithmetic(AmountError::DecimalPlacesMismatch) => {
                "Cannot add two discrete amounts with different decimal places"@
            },
            ParseJournalError::Arithmetic(AmountError::RepresentationMismatch) => {
                "Cannot add a discrete amount to a float amount"@
            },
            ParseJournalError::Arithmetic(AmountError::Overflow) => "Amount out of range"@,
        }
    }

    /// The message that goes with the error.
    pub fn message(&self) -> (r: &'static str)
        ensures
            r@ == self.message_of(),
    {
        match self {
            ParseJournalError::EntryLineMustStartWithSpace => {
                "First character of a debit/credit line must be a space or tab"
            },
            ParseJournalError::UnrecognizedLine => "Couldn't process this line",
            ParseJournalError::EntryOutsideTransaction => {
                "Can't have a debit/credit outside a transaction"
            },
            ParseJournalError::TwoBlankAmounts => "Two blank amounts in one transaction",
            ParseJournalError::BlankWithNothingToBalance => {
                "Blank transaction entry with no unbalanced commodity"
            },
            ParseJournalError::BlankWithSeveralUnbalanced => {
                "Blank transaction entry with more than one unbalanced commodity"
            },
            ParseJournalError::UnbalancedTransaction => "Unbalanced transaction",
            ParseJournalError::Arithmetic(AmountError::UnitsMismatch) => {
                "Cannot add two amounts with different units"
            },
            ParseJournalError::Arithmetic(AmountError::DecimalPlacesMismatch) => {
                "Cannot add two discrete amounts with different decimal places"
            },
            ParseJournalError::Arithmetic(AmountError::RepresentationMismatch) => {
                "Cannot add a discrete amount to a float amount"
            },
            ParseJournalError::Arithmetic(AmountError::Overflow) => "Amount out of range",
        }
    }
}

/// The contents of a pending blank entry, if there is one.
pub open spec fn line_view(line: Option<Line>) -> Option<LineView> {
    match line {
        Some(l) => Some(l@),
        None => None,
    }
}

/// The contents of the current transaction, if there is one.
pub open spec fn transaction_view(transaction: Option<Transaction>) -> Option<TransactionView> {
    match transaction {
        Some(t) => Some(t@),
        None => None,
    }
}

/// The number of totals from `i` on that are not zero.
pub open spec fn nonzero_from(totals: Seq<AmountView>, i: int) -> nat
    decreases totals.len() - i,
{
    if i < 0 || i >= totals.len() {
        0
    } else {
        nonzero_from(totals, i + 1) + if totals[i].amount.is_zero() {
            0nat
        } else {
            1nat
        }
    }
}

/// The index of the first total at or after `i` that is not zero, or the
/// number of totals where there is none.
pub open spec fn first_nonzero(totals: Seq<AmountView>, i: int) -> int
    decreases totals.len() - i,
{
    if i < 0 || i >= totals.len() {
        totals.len() as int
    } else if !totals[i].amount.is_zero() {
        i
    } else {
        first_nonzero(totals, i + 1)
    }
}

/// The entry that brings the one unbalanced unit to zero.
pub open spec fn balancing_entry(account: Seq<char>, total: AmountView) -> EntryView {
    EntryView {
        account,
        amount: AmountView { units: total.units, amount: total.amount.negated() },
    }
}

/// A transaction as it leaves the balancer. Without a blank entry every
/// unit must net to zero. With one, exactly one unit must not, and the
/// blank's account gets the opposite of that unit's total.
pub open spec fn balance_spec(blank: Option<LineView>, t: TransactionView) -> Result<
    TransactionView,
    ParseJournalError,
> {
    match totals_of(t.entries) {
        Err(e) => Err(ParseJournalError::Arithmetic(e)),
        Ok(totals) => {
            let unbalanced = nonzero_from(totals, 0);
            match blank {
                Some(line) => {
                    if unbalanced == 0 {
                        Err(ParseJournalError::BlankWithNothingToBalance)
                    } else if unbalanced > 1 {
                        Err(ParseJournalError::BlankWithSeveralUnbalanced)
                    } else {
                        let total = totals[first_nonzero(totals, 0)];
                        if !total.amount.negatable() {
                            Err(ParseJournalError::Arithmetic(AmountError::Overflow))
                        } else {
                            Ok(
                                TransactionView {
                                    entries: t.entries.push(balancing_entry(line.account, total)),
                                    ..t
                                },
                            )
                        }
                    }
                },
                None => {
                    if unbalanced == 0 {
                        Ok(t)
                    } else {
                        Err(ParseJournalError::UnbalancedTransaction)
                    }
                },
            }
        },
    }
}

/// What the parser carries from line to line.
pub struct ParserState {
    pub journal: Seq<TransactionView>,
    pub transaction: Option<TransactionView>,
    pub blank: Option<LineView>,
}

/// The state after the current transaction, if any, was balanced and moved
/// to the journal.
pub open spec fn finalize_spec(st: ParserState) -> Result<ParserState, ParseJournalError> {
    match st.transaction {
        Some(t) => match balance_spec(st.blank, t) {
            Ok(done) => Ok(
                ParserState { journal: st.journal.push(done), transaction: None, blank: None },
            ),
            Err(e) => Err(e),
        },
        None => Ok(st),
    }
}

/// The state after an entry line.
pub open spec fn process_spec(st: ParserState, line: LineView) -> Result<
    ParserState,
    ParseJournalError,
> {
    match st.transaction {
        None => Err(ParseJournalError::EntryOutsideTransaction),
        Some(t) => match line.amount {
            None => if st.blank is Some {
                Err(ParseJournalError::TwoBlankAmounts)
            } else {
                Ok(ParserState { blank: Some(line), ..st })
            },
            Some(amount) => Ok(
                ParserState {
                    transaction: Some(
                        TransactionView {
                            entries: t.entries.push(EntryView { account: line.account, amount }),
                            ..t
                        },
                    ),
                    ..st
                },
            ),
        },
    }
}

/// The index of the first `c` at or after `i`, or the length where there is none.
pub open spec fn find_char(s: Seq<char>, c: char, i: int) -> int
    decreases s.len() - i,
{
    if i < 0 || i >= s.len() {
        s.len() as int
    } else if s[i] == c {
        i
    } else {
        find_char(s, c, i + 1)
    }
}

/// A line without its comment: what stands before the first `;`.
pub open spec fn strip_comment(s: Seq<char>) -> Seq<char> {
    s.subrange(0, find_char(s, ';', 0))
}

/// The comment of a line: what stands after the first `;`, if there is one.
pub open spec fn comment_of(s: Seq<char>) -> Option<Seq<char>> {
    let k = find_char(s, ';', 0);
    if k < s.len() {
        Some(s.subrange(k + 1, s.len() as int))
    } else {
        None
    }
}

/// The end of a line without the white space that ends it.
pub open spec fn trim_end(s: Seq<char>) -> int
    decreases s.len(),
{
    if s.len() > 0 && is_space(s.last()) {
        trim_end(s.drop_last())
    } else {
        s.len() as int
    }
}

/// A line without the white space around it.
pub open spec fn trimmed(s: Seq<char>) -> Seq<char> {
    let from = run_end(s, 0, CharClass::Space);
    if from >= s.len() {
        Seq::<char>::empty()
    } else {
        s.subrange(from, trim_end(s))
    }
}

/// A line that is neither header nor blank and does not begin with white space.
pub open spec fn starts_unindented(raw: Seq<char>) -> bool {
    let line = strip_comment(raw);
    header_of(line) is None && !all_space(line) && !is_space(line[0])
}

/// The state after one line of the text.
pub open spec fn line_step(st: ParserState, raw: Seq<char>) -> Result<
    ParserState,
    ParseJournalError,
> {
    let line = strip_comment(raw);
    match header_of(line) {
        Some((date, description)) => match finalize_spec(st) {
            Ok(done) => Ok(
                ParserState {
                    transaction: Some(
                        TransactionView { date, description, entries: Seq::<EntryView>::empty() },
                    ),
                    ..done
                },
            ),
            Err(e) => Err(e),
        },
        None => if all_space(line) {
            Ok(st)
        } else if !is_space(line[0]) {
            Err(ParseJournalError::EntryLineMustStartWithSpace)
        } else {
            match parse_line(trimmed(line)) {
                Ok(l) => process_spec(st, l),
                Err(_) => Err(ParseJournalError::UnrecognizedLine),
            }
        },
    }
}

/// The state after the lines from `i` on and the end of the text.
pub open spec fn run_lines(lines: Seq<Seq<char>>, i: int, st: ParserState) -> Result<
    ParserState,
    ParseJournalError,
>
    decreases lines.len() - i,
{
    if i < 0 || i >= lines.len() {
        finalize_spec(st)
    } else {
        match line_step(st, lines[i]) {
            Ok(next) => run_lines(lines, i + 1, next),
            Err(e) => Err(e),
        }
    }
}

/// The state before the first line: no transaction, nothing pending.
pub open spec fn initial_state() -> ParserState {
    ParserState { journal: Seq::<TransactionView>::empty(), transaction: None, blank: None }
}

/// The transactions that a text holds, or the first error in it.
pub open spec fn parse_journal(lines: Seq<Seq<char>>) -> Result<
    Seq<TransactionView>,
    ParseJournalError,
> {
    match run_lines(lines, 0, initial_state()) {
        Ok(st) => Ok(st.journal),
        Err(e) => Err(e),
    }
}

/// The state after the first `i` lines.
pub open spec fn state_after(lines: Seq<Seq<char>>, i: int) -> Result<
    ParserState,
    ParseJournalError,
>
    decreases i,
{
    if i <= 0 {
        Ok(initial_state())
    } else {
        match state_after(lines, i - 1) {
            Ok(st) => line_step(st, lines[i - 1]),
            Err(e) => Err(e),
        }
    }
}

/// The contents of the lines of a text.
pub open spec fn lines_view(lines: Seq<String>) -> Seq<Seq<char>> {
    lines.map_values(|l: String| l@)
}

/// Every transaction of the journal has a date that exists, in a year from
/// zero on.
pub open spec fn all_dated(journal: Seq<TransactionView>) -> bool {
    forall|k: int| 0 <= k < journal.len() ==> (#[trigger] journal[k]).date.dated()
}

/// Every transaction of the journal nets to zero in every unit.
pub open spec fn all_balanced(journal: Seq<TransactionView>) -> bool {
    forall|k: int| 0 <= k < journal.len() ==> balanced((#[trigger] journal[k]).entries)
}

/// Splits a line at its first `;` into what stands before it and the
/// comment after it.
pub fn split_off_comment(line: &str) -> (r: (String, Option<String>))
    ensures
        r.0@ == strip_comment(line@),
        match r.1 {
            Some(c) => comment_of(line@) == Some(c@),
            None => comment_of(line@) is None,
        },
{
    let v = chars_of(line);
    let n: usize = v.len();
    let mut k: usize = 0;
    while k < n && v[k] != ';'
        invariant
            k <= n,
            n == v.len(),
            find_char(v@, ';', 0) == find_char(v@, ';', k as int),
        decreases n - k,
    {
        k += 1;
    }
    if k < n {
        (slice_to_string(line, 0, k), Some(slice_to_string(line, k + 1, n)))
    } else {
        (slice_to_string(line, 0, k), None)
    }
}

/// The line without the white space around it.
pub fn trim_line(line: &str) -> (r: String)
    ensures
        r@ == trimmed(line@),
{
    let v = chars_of(line);
    let from: usize = scan(&v, 0, CharClass::Space);
    if from >= v.len() {
        return String::new();
    }
    let mut to: usize = v.len();
    assert(v@.take(to as int) =~= v@);
    while is_whitespace_char(v[to - 1])
        invariant
            from < to <= v.len(),
            !is_space(v@[from as int]),
            trim_end(v@) == trim_end(v@.take(to as int)),
        decreases to,
    {
        assert(v@.take(to as int).drop_last() =~= v@.take(to - 1));
        to -= 1;
    }
    slice_to_string(line, from, to)
}

/// Takes an entry line into the current transaction: a line without an
/// amount becomes the transaction's one blank, a line with an amount a new
/// entry. On an error nothing changes.
pub fn process_line(line: Line, transaction: &mut Option<Transaction>, blank: &mut Option<Line>) -> (r:
    Result<(), ParseJournalError>)
    ensures
        match process_spec(
            ParserState {
                journal: Seq::<TransactionView>::empty(),
                transaction: transaction_view(*old(transaction)),
                blank: line_view(*old(blank)),
            },
            line@,
        ) {
            Ok(st) => r is Ok && transaction_view(*final(transaction)) == st.transaction
                && line_view(*final(blank)) == st.blank,
            Err(e) => r == Err::<(), ParseJournalError>(e) && transaction_view(*final(transaction))
                == transaction_view(*old(transaction)) && line_view(*final(blank)) == line_view(
                *old(blank),
            ),
        },
{
    if transaction.is_none() {
        return Err(ParseJournalError::EntryOutsideTransaction);
    }
    match line.amount {
        LineAmount::Blank => {
            if blank.is_some() {
                return Err(ParseJournalError::TwoBlankAmounts);
            }
            *blank = Some(Line { account: line.account, amount: LineAmount::Blank });
        },
        LineAmount::Amount(amount) => {
            let entry = Entry { account: line.account, amount };
            let mut current = transaction.take().unwrap();
            let ghost before = current@.entries;
            current.entries.push(entry);
            assert(current@.entries =~= before.push(entry@));
            *transaction = Some(current);
        },
    }
    Ok(())
}

/// Where no total from `i` on is counted, each of them is zero.
proof fn lemma_nonzero_none(totals: Seq<AmountView>, i: int)
    requires
        0 <= i,
        nonzero_from(totals, i) == 0,
    ensures
        forall|j: int| i <= j < totals.len() ==> (#[trigger] totals[j]).amount.is_zero(),
    decreases totals.len() - i,
{
    if i < totals.len() {
        lemma_nonzero_none(totals, i + 1);
    }
}

/// Where one total from `i` on is counted, it is the first that is not
/// zero, and every other is zero.
proof fn lemma_nonzero_one(totals: Seq<AmountView>, i: int)
    requires
        0 <= i,
        nonzero_from(totals, i) == 1,
    ensures
        i <= first_nonzero(totals, i) < totals.len(),
        forall|j: int|
            i <= j < totals.len() ==> ((#[trigger] totals[j]).amount.is_zero() <==> j
                != first_nonzero(totals, i)),
    decreases totals.len() - i,
{
    if i < totals.len() {
        if totals[i].amount.is_zero() {
            lemma_nonzero_one(totals, i + 1);
        } else {
            lemma_nonzero_none(totals, i + 1);
        }
    }
}

/// Where nothing is left to balance, every unit nets to zero.
pub proof fn lemma_balanced_without_blank(entries: Seq<EntryView>)
    requires
        totals_of(entries) is Ok,
        nonzero_from(totals_of(entries).unwrap(), 0) == 0,
    ensures
        balanced(entries),
{
    let totals = totals_of(entries).unwrap();
    lemma_totals_sum_up(entries);
    lemma_nonzero_none(totals, 0);
    assert forall|j: int| 0 <= j < totals.len() implies (#[trigger] totals[j]).amount.weight()
        == 0 by {
        lemma_zero_weight(totals[j].amount);
    }
    lemma_zero_totals_balanced(totals, entries);
}

/// Where exactly one unit is left to balance, the entry with the opposite
/// of its total brings every unit to zero, and that total is the sum of
/// the unit's entries.
pub proof fn lemma_balanced_with_blank(entries: Seq<EntryView>, account: Seq<char>)
    requires
        totals_of(entries) is Ok,
        nonzero_from(totals_of(entries).unwrap(), 0) == 1,
        totals_of(entries).unwrap()[first_nonzero(
            totals_of(entries).unwrap(),
            0,
        )].amount.negatable(),
    ensures
        ({
            let totals = totals_of(entries).unwrap();
            let total = totals[first_nonzero(totals, 0)];
            let entry = balancing_entry(account, total);
            &&& balanced(entries.push(entry))
            &&& unit_sum(entries, total.units) != 0
            &&& entry.amount.amount.weight() == -unit_sum(entries, total.units)
            &&& forall|units: Seq<char>| units != total.units ==> unit_sum(entries, units) == 0
        }),
{
    let totals = totals_of(entries).unwrap();
    let f = first_nonzero(totals, 0);
    let total = totals[f];
    let entry = balancing_entry(account, total);
    let more = entries.push(entry);
    lemma_totals_sum_up(entries);
    lemma_nonzero_one(totals, 0);
    lemma_negated_weight(total.amount);
    lemma_zero_weight(total.amount);
    assert(more.drop_last() =~= entries);
    assert(more.last() == entry);
    assert(total.amount.weight() == unit_sum(entries, total.units));
    assert forall|units: Seq<char>| units != total.units implies unit_sum(entries, units) == 0 by {
        if exists|k: int| 0 <= k < entries.len() && (#[trigger] entries[k]).amount.units == units {
            let k = choose|k: int|
                0 <= k < entries.len() && (#[trigger] entries[k]).amount.units == units;
            let j = choose|j: int|
                0 <= j < totals.len() && (#[trigger] totals[j]).units == entries[k].amount.units;
            assert(j != f);
            assert(totals[j].amount.is_zero());
            lemma_zero_weight(totals[j].amount);
            assert(totals[j].amount.weight() == unit_sum(entries, totals[j].units));
        } else {
            lemma_unit_sum_absent(entries, units);
        }
    }
    assert forall|units: Seq<char>| unit_sum(more, units) == 0 by {
        if units != total.units {
            assert(unit_sum(entries, units) == 0);
        }
    }
}

/// Checks that a transaction nets to zero in every unit, or makes it so:
/// where the transaction has a blank entry, that entry gets the opposite of
/// the one total that is not zero. On an error nothing changes.
pub fn balance_transaction(blank: &mut Option<Line>, transaction: &mut Transaction) -> (r: Result<
    (),
    ParseJournalError,
>)
    ensures
        match balance_spec(line_view(*old(blank)), old(transaction)@) {
            Ok(t) => r is Ok && final(transaction)@ == t && *final(blank) is None && balanced(
                t.entries,
            ),
            Err(e) => r == Err::<(), ParseJournalError>(e) && final(transaction)@ == old(
                transaction,
            )@ && line_view(*final(blank)) == line_view(*old(blank)),
        },
{
    let totals = match transaction.totals() {
        Ok(t) => t,
        Err(e) => {
            return Err(ParseJournalError::Arithmetic(e));
        },
    };
    let ghost tv = amounts_view(totals@);
    let ghost entries = transaction@.entries;
    let mut count: usize = 0;
    let mut first: usize = totals.len();
    let mut i: usize = 0;
    while i < totals.len()
        invariant
            i <= totals.len(),
            tv == amounts_view(totals@),
            count <= i,
            count + nonzero_from(tv, i as int) == nonzero_from(tv, 0),
            first_nonzero(tv, 0) == if count == 0 {
                first_nonzero(tv, i as int)
            } else {
                first as int
            },
            count == 0 ==> first == totals.len(),
            count > 0 ==> first < i,
        decreases totals.len() - i,
    {
        assert(tv[i as int] == totals@[i as int]@);
        if !totals[i].is_zero() {
            if count == 0 {
                first = i;
            }
            count += 1;
        }
        i += 1;
    }
    if blank.is_some() {
        if count == 0 {
            return Err(ParseJournalError::BlankWithNothingToBalance);
        }
        if count > 1 {
            return Err(ParseJournalError::BlankWithSeveralUnbalanced);
        }
        assert(tv[first as int] == totals@[first as int]@);
        if !totals[first].is_negatable() {
            return Err(ParseJournalError::Arithmetic(AmountError::Overflow));
        }
        let line = blank.take().unwrap();
        let amount = totals[first].clone().negate();
        let entry = Entry { account: line.account, amount };
        proof {
            lemma_balanced_with_blank(entries, line@.account);
            assert(entry@ == balancing_entry(line@.account, tv[first as int]));
        }
        transaction.entries.push(entry);
        assert(transaction@.entries =~= entries.push(entry@));
        Ok(())
    } else if count == 0 {
        proof {
            lemma_balanced_without_blank(entries);
        }
        Ok(())
    } else {
        Err(ParseJournalError::UnbalancedTransaction)
    }
}

/// Balances the current transaction, if there is one, and moves it to the
/// journal. On an error nothing changes.
pub fn finalize_transaction(
    transaction: &mut Option<Transaction>,
    blank: &mut Option<Line>,
    journal: &mut Vec<Transaction>,
) -> (r: Result<(), ParseJournalError>)
    ensures
        match finalize_spec(
            ParserState {
                journal: transactions_view(old(journal)@),
                transaction: transaction_view(*old(transaction)),
                blank: line_view(*old(blank)),
            },
        ) {
            Ok(st) => r is Ok && transactions_view(final(journal)@) == st.journal
                && transaction_view(*final(transaction)) == st.transaction && line_view(
                *final(blank),
            ) == st.blank && (all_balanced(transactions_view(old(journal)@)) ==> all_balanced(
                st.journal,
            )) && (all_dated(
                transactions_view(old(journal)@),
            ) && (transaction_view(*old(transaction)) matches Some(t) ==> t.date.dated())
                ==> all_dated(st.journal)),
            Err(e) => r == Err::<(), ParseJournalError>(e) && transactions_view(final(journal)@)
                == transactions_view(old(journal)@) && transaction_view(*final(transaction))
                == transaction_view(*old(transaction)) && line_view(*final(blank)) == line_view(
                *old(blank),
            ),
        },
{
    if transaction.is_none() {
        return Ok(());
    }
    let mut t = transaction.take().unwrap();
    match balance_transaction(blank, &mut t) {
        Ok(()) => {
            let ghost before = transactions_view(journal@);
            journal.push(t);
            assert(transactions_view(journal@) =~= before.push(t@));
            Ok(())
        },
        Err(e) => {
            *transaction = Some(t);
            Err(e)
        },
    }
}

/// Where and why a text is no journal.
#[derive(Debug, PartialEq)]
pub struct ParseFailure {
    /// Why the text is refused.
    pub error: ParseJournalError,
    /// The index of the line that is refused; the number of lines where the
    /// last transaction of the text is.
    pub line: usize,
    /// The transaction that was being read, as far as it was read.
    pub transaction: Option<Transaction>,
}

/// Whether a failure names the place at which the parse of `lines` fails:
/// the lines before it are accepted, and the line itself, or after the last
/// line the end of the text, is refused with that error for the transaction
/// then being read.
pub open spec fn fails_at(lines: Seq<Seq<char>>, failure: ParseFailure) -> bool {
    &&& failure.line <= lines.len()
    &&& state_after(lines, failure.line as int) matches Ok(st) && transaction_view(
        failure.transaction,
    ) == st.transaction && if failure.line < lines.len() {
        line_step(st, lines[failure.line as int]) == Err::<ParserState, ParseJournalError>(
            failure.error,
        )
    } else {
        finalize_spec(st) == Err::<ParserState, ParseJournalError>(failure.error)
    }
}

impl Journal {
    /// Reads a journal from the lines of its text and, where the text is
    /// refused, says at which line and in which transaction.
    pub fn parse_lines(lines: &Vec<String>) -> (r: Result<Journal, ParseFailure>)
        ensures
            match r {
                Ok(j) => parse_journal(lines_view(lines@)) == Ok::<
                    Seq<TransactionView>,
                    ParseJournalError,
                >(j@) && all_balanced(j@) && all_dated(j@),
                Err(f) => parse_journal(lines_view(lines@)) == Err::<
                    Seq<TransactionView>,
                    ParseJournalError,
                >(f.error) && fails_at(lines_view(lines@), f),
            },
    {
        let mut journal: Vec<Transaction> = Vec::new();
        let mut transaction: Option<Transaction> = None;
        let mut blank: Option<Line> = None;
        let ghost text = lines_view(lines@);
        let mut i: usize = 0;
        assert(transactions_view(journal@) =~= Seq::<TransactionView>::empty());
        while i < lines.len()
            invariant
                i <= lines.len(),
                text == lines_view(lines@),
                all_balanced(transactions_view(journal@)),
                all_dated(transactions_view(journal@)),
                transaction matches Some(t) ==> t.date.dated(),
                state_after(text, i as int) == Ok::<ParserState, ParseJournalError>(
                    ParserState {
                        journal: transactions_view(journal@),
                        transaction: transaction_view(transaction),
                        blank: line_view(blank),
                    },
                ),
                run_lines(text, 0, initial_state()) == run_lines(
                    text,
                    i as int,
                    ParserState {
                        journal: transactions_view(journal@),
                        transaction: transaction_view(transaction),
                        blank: line_view(blank),
                    },
                ),
            decreases lines.len() - i,
        {
            assert(text[i as int] == lines@[i as int]@);
            let (line, _) = split_off_comment(lines[i].as_str());
            match Transaction::parse_date_and_description(line.as_str()) {
                Some(header) => {
                    match finalize_transaction(&mut transaction, &mut blank, &mut journal) {
                        Ok(()) => {},
                        Err(error) => {
                            return Err(ParseFailure { error, line: i, transaction });
                        },
                    }
                    assert(header@.entries =~= Seq::<EntryView>::empty());
                    transaction = Some(header);
                },
                None => {
                    if !is_all_whitespace(line.as_str()) {
                        if !is_whitespace_char(line.as_str().get_char(0)) {
                            return Err(
                                ParseFailure {
                                    error: ParseJournalError::EntryLineMustStartWithSpace,
                                    line: i,
                                    transaction,
                                },
                            );
                        }
                        let inner = trim_line(line.as_str());
                        match Line::from_str(inner.as_str()) {
                            Ok(entry_line) => {
                                match process_line(entry_line, &mut transaction, &mut blank) {
                                    Ok(()) => {},
                                    Err(error) => {
                                        return Err(ParseFailure { error, line: i, transaction });
                                    },
                                }
                            },
                            Err(_) => {
                                return Err(
                                    ParseFailure {
                                        error: ParseJournalError::UnrecognizedLine,
                                        line: i,
                                        transaction,
                                    },
                                );
                            },
                        }
                    }
                },
            }
            i += 1;
        }
        match finalize_transaction(&mut transaction, &mut blank, &mut journal) {
            Ok(()) => Ok(Journal { transactions: journal }),
            Err(error) => Err(ParseFailure { error, line: i, transaction }),
        }
    }

    /// Reads a journal from the lines of its text:
    ///
    /// ```text
    /// 2023/03/15 Sandwich
    ///    assets:savings                     $-6.76
    ///    assets:cash                           $-1
    ///    expenses:tips                          $1
    ///    expenses:food:tim-hortons
    /// ```
    ///
    /// Every transaction of the journal that comes back nets to zero in
    /// every unit.
    pub fn from_lines(lines: &Vec<String>) -> (r: Result<Journal, ParseJournalError>)
        ensures
            match r {
                Ok(j) => parse_journal(lines_view(lines@)) == Ok::<
                    Seq<TransactionView>,
                    ParseJournalError,
                >(j@) && all_balanced(j@) && all_dated(j@),
                Err(e) => parse_journal(lines_view(lines@)) == Err::<
                    Seq<TransactionView>,
                    ParseJournalError,
                >(e),
            },
    {
        match Journal::parse_lines(lines) {
            Ok(journal) => Ok(journal),
            Err(failure) => Err(failure.error),
        }
    }
}

/// A transaction with a blank entry whose other entries leave two
/// different units unbalanced is refused.
pub proof fn lemma_several_unbalanced_refused(
    blank: LineView,
    t: TransactionView,
    first: Seq<char>,
    second: Seq<char>,
)
    requires
        totals_of(t.entries) is Ok,
        first != second,
        unit_sum(t.entries, first) != 0,
        unit_sum(t.entries, second) != 0,
    ensures
        balance_spec(Some(blank), t) == Err::<TransactionView, ParseJournalError>(
            ParseJournalError::BlankWithSeveralUnbalanced,
        ),
{
    let entries = t.entries;
    let totals = totals_of(entries).unwrap();
    lemma_totals_sum_up(entries);
    if forall|k: int| 0 <= k < entries.len() ==> (#[trigger] entries[k]).amount.units != first {
        lemma_unit_sum_absent(entries, first);
    }
    if forall|k: int| 0 <= k < entries.len() ==> (#[trigger] entries[k]).amount.units != second {
        lemma_unit_sum_absent(entries, second);
    }
    let k1 = choose|k: int| 0 <= k < entries.len() && (#[trigger] entries[k]).amount.units == first;
    let k2 = choose|k: int|
        0 <= k < entries.len() && (#[trigger] entries[k]).amount.units == second;
    let j1 = choose|j: int|
        0 <= j < totals.len() && (#[trigger] totals[j]).units == entries[k1].amount.units;
    let j2 = choose|j: int|
        0 <= j < totals.len() && (#[trigger] totals[j]).units == entries[k2].amount.units;
    lemma_zero_weight(totals[j1].amount);
    lemma_zero_weight(totals[j2].amount);
    assert(totals[j1].amount.weight() == unit_sum(entries, totals[j1].units));
    assert(totals[j2].amount.weight() == unit_sum(entries, totals[j2].units));
    assert(j1 != j2);
    if nonzero_from(totals, 0) == 0 {
        lemma_nonzero_none(totals, 0);
    } else if nonzero_from(totals, 0) == 1 {
        lemma_nonzero_one(totals, 0);
    }
}

/// The parse of a text is what the lines from `i` on make of the state
/// after the first `i` lines.
pub proof fn lemma_parse_from(lines: Seq<Seq<char>>, i: int)
    requires
        0 <= i <= lines.len(),
    ensures
        run_lines(lines, 0, initial_state()) == match state_after(lines, i) {
            Ok(st) => run_lines(lines, i, st),
            Err(e) => Err(e),
        },
    decreases i,
{
    if i > 0 {
        lemma_parse_from(lines, i - 1);
    }
}

/// While the parser goes on, a blank entry belongs to a current transaction.
pub proof fn lemma_blank_has_transaction(lines: Seq<Seq<char>>, i: int)
    requires
        0 <= i <= lines.len(),
    ensures
        state_after(lines, i) matches Ok(st) ==> (st.blank is Some ==> st.transaction is Some),
    decreases i,
{
    if i > 0 {
        lemma_blank_has_transaction(lines, i - 1);
    }
}

/// A line that is neither header nor blank and begins with something other
/// than white space fails the whole parse, whatever stands after it: with
/// `EntryLineMustStartWithSpace` where the lines before it are accepted.
pub proof fn lemma_unindented_line_fails(lines: Seq<Seq<char>>, i: int)
    requires
        0 <= i < lines.len(),
        starts_unindented(lines[i]),
    ensures
        parse_journal(lines) is Err,
        state_after(lines, i) is Ok ==> parse_journal(lines) == Err::<
            Seq<TransactionView>,
            ParseJournalError,
        >(ParseJournalError::EntryLineMustStartWithSpace),
{
    lemma_parse_from(lines, i);
}

/// An indented line that holds an account and no amount.
pub open spec fn is_blank_entry_line(raw: Seq<char>) -> bool {
    let line = strip_comment(raw);
    &&& header_of(line) is None
    &&& !all_space(line)
    &&& is_space(line[0])
    &&& parse_line(trimmed(line)) matches Ok(l) && l.amount is None
}

/// A second entry line without an amount in one transaction fails the
/// whole parse with `TwoBlankAmounts`, whatever the other entries hold.
pub proof fn lemma_second_blank_fails(lines: Seq<Seq<char>>, i: int)
    requires
        0 <= i < lines.len(),
        state_after(lines, i) matches Ok(st) && st.blank is Some,
        is_blank_entry_line(lines[i]),
    ensures
        parse_journal(lines) == Err::<Seq<TransactionView>, ParseJournalError>(
            ParseJournalError::TwoBlankAmounts,
        ),
{
    lemma_parse_from(lines, i);
    lemma_blank_has_transaction(lines, i);
}

/// The first and the last month in which a journal has a transaction.
#[derive(Clone, Copy, Debug, PartialEq, Eq, Structural)]
pub struct JournalSummary {
    pub first_month: MonthYear,
    pub final_month: MonthYear,
}

impl JournalSummary {
    /// Whether the summary gives the earliest and the latest month of the
    /// transactions.
    pub open spec fn summarizes(&self, ts: Seq<Transaction>) -> bool {
        &&& exists|i: int| 0 <= i < ts.len() && month_of(#[trigger] ts[i]) == self.first_month
        &&& exists|i: int| 0 <= i < ts.len() && month_of(#[trigger] ts[i]) == self.final_month
        &&& forall|i: int|
            0 <= i < ts.len() ==> !month_of(#[trigger] ts[i]).before(&self.first_month)
        &&& forall|i: int|
            0 <= i < ts.len() ==> !self.final_month.before(&month_of(#[trigger] ts[i]))
    }

    /// The summary of a journal; none where it has no transaction.
    pub fn from(journal: &Journal) -> (r: Option<JournalSummary>)
        ensures
            match r {
                Some(s) => s.summarizes(journal.transactions@),
                None => journal.transactions@.len() == 0,
            },
    {
        if journal.transactions.len() == 0 {
            return None;
        }
        let mut first = MonthYear::from_naivedate(journal.transactions[0].date);
        let mut last = first;
        let mut i: usize = 1;
        while i < journal.transactions.len()
            invariant
                1 <= i <= journal.transactions@.len(),
                exists|k: int| 0 <= k < i && month_of(#[trigger] journal.transactions@[k]) == first,
                exists|k: int| 0 <= k < i && month_of(#[trigger] journal.transactions@[k]) == last,
                forall|k: int|
                    0 <= k < i ==> !month_of(#[trigger] journal.transactions@[k]).before(&first),
                forall|k: int|
                    0 <= k < i ==> !last.before(&month_of(#[trigger] journal.transactions@[k])),
            decreases journal.transactions.len() - i,
        {
            let month = MonthYear::from_naivedate(journal.transactions[i].date);
            assert(month == month_of(journal.transactions@[i as int]));
            if month.is_before(&first) {
                first = month;
            }
            if last.is_before(&month) {
                last = month;
            }
            i += 1;
        }
        Some(JournalSummary { first_month: first, final_month: last })
    }
}

impl Journal {
    /// Whether no transaction falls in an earlier month than one before it.
    pub fn is_sorted_by_month(&self) -> (r: bool)
        ensures
            r == sorted_by_month(self.transactions@),
    {
        if self.transactions.len() < 2 {
            return true;
        }
        let mut i: usize = 1;
        while i < self.transactions.len()
            invariant
                1 <= i <= self.transactions@.len(),
                forall|a: int, b: int|
                    0 <= a < b < i ==> !month_of(#[trigger] self.transactions@[b]).before(
                        &month_of(#[trigger] self.transactions@[a]),
                    ),
            decreases self.transactions.len() - i,
        {
            let here = MonthYear::from_naivedate(self.transactions[i].date);
            let before = MonthYear::from_naivedate(self.transactions[i - 1].date);
            assert(here == month_of(self.transactions@[i as int]));
            assert(before == month_of(self.transactions@[i - 1]));
            if here.is_before(&before) {
                return false;
            }
            assert forall|a: int, b: int| 0 <= a < b < i + 1 implies !month_of(
                #[trigger] self.transactions@[b],
            ).before(&month_of(#[trigger] self.transactions@[a])) by {
                if b == i && a < i - 1 {
                    assert(!month_of(self.transactions@[i - 1]).before(
                        &month_of(self.transactions@[a]),
                    ));
                }
            }
            i += 1;
        }
        true
    }

    /// Whether every transaction has a date that exists, in a year from zero on.
    pub fn has_valid_dates(&self) -> (r: bool)
        ensures
            r == all_dated(self@),
    {
        let mut i: usize = 0;
        while i < self.transactions.len()
            invariant
                i <= self.transactions@.len(),
                forall|k: int| 0 <= k < i ==> (#[trigger] self@[k]).date.dated(),
            decreases self.transactions.len() - i,
        {
            let d = self.transactions[i].date;
            assert(self@[i as int].date == d);
            if d.year < 0 || Date::from_ymd_opt(d.year, d.month, d.day).is_none() {
                return false;
            }
            i += 1;
        }
        true
    }
}

} // verus!

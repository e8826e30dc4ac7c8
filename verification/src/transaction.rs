//! Transactions: dated groups of entries that net to zero in every unit.

use crate::journal::types::{run_end, scan, CharClass};
use crate::text::{chars_of, digit_value, is_digit, is_digit_char, slice_to_string};
use crate::types::amount::{lemma_sum_weight, Amount, AmountError, AmountView};
use crate::types::date::{is_calendar_day, Date};
use crate::types::Account;
use vstd::prelude::*;

verus! {

/// One account and amount within a transaction.
#[derive(Debug, PartialEq)]
pub struct Entry {
    pub account: Account,
    pub amount: Amount,
}

/// The mathematical content of an [`Entry`].
pub struct EntryView {
    pub account: Seq<char>,
    pub amount: AmountView,
}

impl View for Entry {
    type V = EntryView;

    open spec fn view(&self) -> EntryView {
        EntryView { account: self.account@, amount: self.amount@ }
    }
}

impl Clone for Entry {
    fn clone(&self) -> (r: Entry)
        ensures
            r@ == self@,
    {
        Entry { account: self.account.clone(), amount: self.amount.clone() }
    }
}

/// A dated, described group of entries.
#[derive(Debug, PartialEq)]
pub struct Transaction {
    pub date: Date,
    pub description: String,
    pub entries: Vec<Entry>,
}

/// The mathematical content of a [`Transaction`].
pub struct TransactionView {
    pub date: Date,
    pub description: Seq<char>,
    pub entries: Seq<EntryView>,
}

/// The contents of a list of entries.
pub open spec fn entries_view(entries: Seq<Entry>) -> Seq<EntryView> {
    entries.map_values(|e: Entry| e@)
}

impl View for Transaction {
    type V = TransactionView;

    open spec fn view(&self) -> TransactionView {
        TransactionView {
            date: self.date,
            description: self.description@,
            entries: entries_view(self.entries@),
        }
    }
}

impl Default for Transaction {
    /// A transaction without entries or description on the default date.
    fn default() -> (r: Transaction)
        ensures
            r@ == (TransactionView {
                date: Date { year: 1970, month: 1, day: 1 },
                description: Seq::<char>::empty(),
                entries: Seq::<EntryView>::empty(),
            }),
    {
        let r = Transaction {
            date: Date { year: 1970, month: 1, day: 1 },
            description: String::new(),
            entries: Vec::new(),
        };
        assert(r@.entries =~= Seq::<EntryView>::empty());
        r
    }
}

/// The first index at or after `i` of a total in the given units.
pub open spec fn find_units(totals: Seq<AmountView>, units: Seq<char>, i: int) -> Option<int>
    decreases totals.len() - i,
{
    if i < 0 || i >= totals.len() {
        None
    } else if totals[i].units == units {
        Some(i)
    } else {
        find_units(totals, units, i + 1)
    }
}

/// The totals after one more amount: added to the total of its units, or
/// appended as the first of its units.
pub open spec fn totals_step(totals: Seq<AmountView>, a: AmountView) -> Result<
    Seq<AmountView>,
    AmountError,
> {
    match find_units(totals, a.units, 0) {
        Some(j) => match AmountView::sum(totals[j], a) {
            Ok(s) => Ok(totals.update(j, s)),
            Err(e) => Err(e),
        },
        None => Ok(totals.push(a)),
    }
}

/// The totals `acc` carried over the entries from `i` on.
pub open spec fn totals_from(entries: Seq<EntryView>, i: int, acc: Seq<AmountView>) -> Result<
    Seq<AmountView>,
    AmountError,
>
    decreases entries.len() - i,
{
    if i < 0 || i >= entries.len() {
        Ok(acc)
    } else {
        match totals_step(acc, entries[i].amount) {
            Ok(t) => totals_from(entries, i + 1, t),
            Err(e) => Err(e),
        }
    }
}

/// One total per unit, in the order in which the units first appear, or
/// the first failure to add an entry to the total of its units.
pub open spec fn totals_of(entries: Seq<EntryView>) -> Result<Seq<AmountView>, AmountError> {
    totals_from(entries, 0, Seq::<AmountView>::empty())
}

/// The sum of the weights of the entries in the given units.
pub open spec fn unit_sum(entries: Seq<EntryView>, units: Seq<char>) -> int
    decreases entries.len(),
{
    if entries.len() == 0 {
        0
    } else {
        unit_sum(entries.drop_last(), units) + if entries.last().amount.units == units {
            entries.last().amount.amount.weight()
        } else {
            0
        }
    }
}

/// Every unit nets to zero.
pub open spec fn balanced(entries: Seq<EntryView>) -> bool {
    forall|units: Seq<char>| unit_sum(entries, units) == 0
}

/// The contents of a list of amounts.
pub open spec fn amounts_view(amounts: Seq<Amount>) -> Seq<AmountView> {
    amounts.map_values(|a: Amount| a@)
}

/// No two totals share their units.
pub open spec fn distinct_units(totals: Seq<AmountView>) -> bool {
    forall|j: int, k: int|
        0 <= j < k < totals.len() ==> (#[trigger] totals[j]).units != (#[trigger] totals[k]).units
}

/// `totals` holds, once for each unit among `entries`, the sum of that unit.
pub open spec fn sums_up(totals: Seq<AmountView>, entries: Seq<EntryView>) -> bool {
    &&& distinct_units(totals)
    &&& forall|j: int|
        0 <= j < totals.len() ==> (#[trigger] totals[j]).amount.weight() == unit_sum(
            entries,
            totals[j].units,
        )
    &&& forall|k: int|
        0 <= k < entries.len() ==> exists|j: int|
            0 <= j < totals.len() && (#[trigger] totals[j]).units == (
            #[trigger] entries[k]).amount.units
}

/// What is found is a total of the units, at or after `i`; where nothing
/// is found, no total from `i` on is of the units.
pub proof fn lemma_find_units(totals: Seq<AmountView>, units: Seq<char>, i: int)
    requires
        0 <= i,
    ensures
        match find_units(totals, units, i) {
            Some(j) => i <= j < totals.len() && totals[j].units == units,
            None => forall|j: int| i <= j < totals.len() ==> (#[trigger] totals[j]).units != units,
        },
    decreases totals.len() - i,
{
    if i < totals.len() && totals[i].units != units {
        lemma_find_units(totals, units, i + 1);
    }
}

/// Entries of other units add nothing to a unit's sum.
pub proof fn lemma_unit_sum_absent(entries: Seq<EntryView>, units: Seq<char>)
    requires
        forall|k: int| 0 <= k < entries.len() ==> (#[trigger] entries[k]).amount.units != units,
    ensures
        unit_sum(entries, units) == 0,
    decreases entries.len(),
{
    if entries.len() > 0 {
        assert(entries.last() == entries[entries.len() - 1]);
        assert forall|k: int| 0 <= k < entries.drop_last().len() implies (
        #[trigger] entries.drop_last()[k]).amount.units != units by {
            assert(entries.drop_last()[k] == entries[k]);
        }
        lemma_unit_sum_absent(entries.drop_last(), units);
    }
}

/// One step of the totals keeps them the sums of the entries seen.
pub proof fn lemma_totals_step(totals: Seq<AmountView>, seen: Seq<EntryView>, e: EntryView)
    requires
        sums_up(totals, seen),
        totals_step(totals, e.amount) is Ok,
    ensures
        sums_up(totals_step(totals, e.amount).unwrap(), seen.push(e)),
{
    let a = e.amount;
    let next = totals_step(totals, a).unwrap();
    let more = seen.push(e);
    assert(more.drop_last() =~= seen);
    assert(more.last() == e);
    lemma_find_units(totals, a.units, 0);
    match find_units(totals, a.units, 0) {
        Some(j) => {
            let s = AmountView::sum(totals[j], a).unwrap();
            lemma_sum_weight(totals[j].amount, a.amount);
            assert(s.units == a.units);
            assert forall|x: int, y: int| 0 <= x < y < next.len() implies (#[trigger] next[x]).units
                != (#[trigger] next[y]).units by {
                assert(next[x].units == totals[x].units);
                assert(next[y].units == totals[y].units);
            }
            assert forall|x: int| 0 <= x < next.len() implies (#[trigger] next[x]).amount.weight()
                == unit_sum(more, next[x].units) by {
                if x != j {
                    assert(next[x] == totals[x]);
                    if x < j {
                        assert(totals[x].units != totals[j].units);
                    } else {
                        assert(totals[j].units != totals[x].units);
                    }
                }
            }
            assert forall|k: int| 0 <= k < more.len() implies exists|x: int|
                0 <= x < next.len() && (#[trigger] next[x]).units == (
                #[trigger] more[k]).amount.units by {
                if k < seen.len() {
                    assert(more[k] == seen[k]);
                    let x = choose|x: int|
                        0 <= x < totals.len() && (#[trigger] totals[x]).units
                            == seen[k].amount.units;
                    assert(next[x].units == totals[x].units);
                } else {
                    assert(next[j].units == a.units);
                }
            }
        },
        None => {
            assert(next == totals.push(a));
            assert forall|k: int| 0 <= k < seen.len() implies (#[trigger] seen[k]).amount.units
                != a.units by {
                let x = choose|x: int|
                    0 <= x < totals.len() && (#[trigger] totals[x]).units == seen[k].amount.units;
                assert(totals[x].units != a.units);
            }
            lemma_unit_sum_absent(seen, a.units);
            assert forall|x: int, y: int| 0 <= x < y < next.len() implies (#[trigger] next[x]).units
                != (#[trigger] next[y]).units by {
                assert(next[x] == totals[x]);
                if y < totals.len() {
                    assert(next[y] == totals[y]);
                }
            }
            assert forall|x: int| 0 <= x < next.len() implies (#[trigger] next[x]).amount.weight()
                == unit_sum(more, next[x].units) by {
                if x < totals.len() {
                    assert(next[x] == totals[x]);
                }
            }
            assert forall|k: int| 0 <= k < more.len() implies exists|x: int|
                0 <= x < next.len() && (#[trigger] next[x]).units == (
                #[trigger] more[k]).amount.units by {
                if k < seen.len() {
                    assert(more[k] == seen[k]);
                    let x = choose|x: int|
                        0 <= x < totals.len() && (#[trigger] totals[x]).units
                            == seen[k].amount.units;
                    assert(next[x] == totals[x]);
                } else {
                    assert(next[totals.len() as int].units == a.units);
                }
            }
        },
    }
}

/// Totals that are the sums of the first `i` entries, carried over the
/// rest, are the sums of all of them.
pub proof fn lemma_totals_from(entries: Seq<EntryView>, i: int, acc: Seq<AmountView>)
    requires
        0 <= i <= entries.len(),
        sums_up(acc, entries.take(i)),
        totals_from(entries, i, acc) is Ok,
    ensures
        sums_up(totals_from(entries, i, acc).unwrap(), entries),
    decreases entries.len() - i,
{
    if i < entries.len() {
        lemma_totals_step(acc, entries.take(i), entries[i]);
        assert(entries.take(i).push(entries[i]) =~= entries.take(i + 1));
        lemma_totals_from(entries, i + 1, totals_step(acc, entries[i].amount).unwrap());
    } else {
        assert(entries.take(i) =~= entries);
    }
}

/// The totals of a list of entries hold, once for each unit among the
/// entries, the sum of the entries in that unit.
pub proof fn lemma_totals_sum_up(entries: Seq<EntryView>)
    requires
        totals_of(entries) is Ok,
    ensures
        sums_up(totals_of(entries).unwrap(), entries),
{
    assert(entries.take(0) =~= Seq::<EntryView>::empty());
    lemma_totals_from(entries, 0, Seq::<AmountView>::empty());
}

/// Where every total is zero, every unit nets to zero.
pub proof fn lemma_zero_totals_balanced(totals: Seq<AmountView>, entries: Seq<EntryView>)
    requires
        sums_up(totals, entries),
        forall|j: int| 0 <= j < totals.len() ==> (#[trigger] totals[j]).amount.weight() == 0,
    ensures
        balanced(entries),
{
    assert forall|units: Seq<char>| unit_sum(entries, units) == 0 by {
        if exists|k: int| 0 <= k < entries.len() && (#[trigger] entries[k]).amount.units == units {
            let k = choose|k: int|
                0 <= k < entries.len() && (#[trigger] entries[k]).amount.units == units;
            let j = choose|j: int|
                0 <= j < totals.len() && (#[trigger] totals[j]).units == entries[k].amount.units;
            assert(totals[j].amount.weight() == unit_sum(entries, totals[j].units));
        } else {
            lemma_unit_sum_absent(entries, units);
        }
    }
}

/// Totals that agree in their units hold a unit at the same place.
pub proof fn lemma_find_units_by_units(
    a: Seq<AmountView>,
    b: Seq<AmountView>,
    units: Seq<char>,
    i: int,
)
    requires
        0 <= i,
        a.len() == b.len(),
        forall|x: int| 0 <= x < a.len() ==> (#[trigger] a[x]).units == (#[trigger] b[x]).units,
    ensures
        find_units(a, units, i) == find_units(b, units, i),
    decreases a.len() - i,
{
    if i < a.len() {
        assert(a[i].units == b[i].units);
        if a[i].units != units {
            lemma_find_units_by_units(a, b, units, i + 1);
        }
    }
}

/// A total appended for units that had none is found at the end.
pub proof fn lemma_find_units_appended(totals: Seq<AmountView>, a: AmountView, i: int)
    requires
        0 <= i <= totals.len(),
        find_units(totals, a.units, i) is None,
    ensures
        find_units(totals.push(a), a.units, i) == Some(totals.len() as int),
    decreases totals.len() - i,
{
    if i < totals.len() {
        assert(totals.push(a)[i] == totals[i]);
        lemma_find_units_appended(totals, a, i + 1);
    }
}

/// Adds an amount to the total of its units, or appends it as the first of
/// its units, and says where that total stands. On an error nothing changes.
pub fn add_to_totals(totals: &mut Vec<Amount>, amount: &Amount) -> (r: Result<usize, AmountError>)
    ensures
        match totals_step(amounts_view(old(totals)@), amount@) {
            Ok(next) => r matches Ok(j) && amounts_view(final(totals)@) == next && find_units(
                next,
                amount@.units,
                0,
            ) == Some(j as int) && j < final(totals)@.len(),
            Err(e) => r == Err::<usize, AmountError>(e) && amounts_view(final(totals)@)
                == amounts_view(old(totals)@),
        },
{
    let ghost before = amounts_view(totals@);
    let mut j: usize = 0;
    while j < totals.len() && totals[j].units != amount.units
        invariant
            j <= totals.len(),
            find_units(before, amount@.units, 0) == find_units(before, amount@.units, j as int),
            before == amounts_view(totals@),
        decreases totals.len() - j,
    {
        assert(before[j as int] == totals@[j as int]@);
        j += 1;
    }
    if j < totals.len() {
        assert(before[j as int] == totals@[j as int]@);
        let mut total = totals[j].clone();
        match total.add(amount) {
            Ok(()) => {
                totals.set(j, total);
                proof {
                    let next = before.update(j as int, total@);
                    assert(amounts_view(totals@) =~= next);
                    lemma_find_units_by_units(before, next, amount@.units, 0);
                }
                Ok(j)
            },
            Err(e) => Err(e),
        }
    } else {
        let fresh = amount.clone();
        totals.push(fresh);
        proof {
            assert(amounts_view(totals@) =~= before.push(fresh@));
            lemma_find_units_appended(before, amount@, 0);
        }
        Ok(j)
    }
}

impl Transaction {
    /// The total of each unit among the entries, in the order in which the
    /// units first appear.
    pub fn totals(&self) -> (r: Result<Vec<Amount>, AmountError>)
        ensures
            match r {
                Ok(t) => totals_of(self@.entries) == Ok::<Seq<AmountView>, AmountError>(
                    amounts_view(t@),
                ),
                Err(e) => totals_of(self@.entries) == Err::<Seq<AmountView>, AmountError>(e),
            },
    {
        let mut totals: Vec<Amount> = Vec::new();
        let mut i: usize = 0;
        assert(amounts_view(totals@) =~= Seq::<AmountView>::empty());
        while i < self.entries.len()
            invariant
                i <= self.entries.len(),
                totals_of(self@.entries) == totals_from(self@.entries, i as int, amounts_view(totals@)),
            decreases self.entries.len() - i,
        {
            let entry = &self.entries[i];
            assert(self@.entries[i as int] == entry@);
            match add_to_totals(&mut totals, &entry.amount) {
                Ok(_) => {},
                Err(e) => {
                    return Err(e);
                },
            }
            i += 1;
        }
        Ok(totals)
    }
}

/// The number that the digits `s[from..to]` spell.
pub open spec fn number_at(s: Seq<char>, from: int, to: int) -> int
    decreases to - from,
{
    if to <= from {
        0
    } else {
        number_at(s, from, to - 1) * 10 + digit_value(s[to - 1])
    }
}

/// Whether `s[from..to]` holds digits only.
pub open spec fn digits_at(s: Seq<char>, from: int, to: int) -> bool {
    forall|k: int| from <= k < to ==> is_digit(#[trigger] s[k])
}

/// Whether a line begins with a date in the form `YYYY/MM/DD`.
pub open spec fn has_date_shape(s: Seq<char>) -> bool {
    &&& s.len() >= 10
    &&& digits_at(s, 0, 4)
    &&& s[4] == '/'
    &&& digits_at(s, 5, 7)
    &&& s[7] == '/'
    &&& digits_at(s, 8, 10)
}

/// Where the description of a header line starts: after the white space
/// that follows the date, or, where nothing but white space follows it, at
/// the last of at least two such characters. A description never holds a
/// line feed.
pub open spec fn description_start(s: Seq<char>) -> Option<int> {
    let k = run_end(s, 10, CharClass::Space);
    if 10 < k < s.len() {
        if forall|j: int| k <= j < s.len() ==> #[trigger] s[j] != '\n' {
            Some(k)
        } else {
            None
        }
    } else if k == s.len() && k >= 12 && s[k - 1] != '\n' {
        Some(k - 1)
    } else {
        None
    }
}

/// The date and description of a header line, if the line is one.
pub open spec fn header_of(s: Seq<char>) -> Option<(Date, Seq<char>)> {
    if has_date_shape(s) {
        let year = number_at(s, 0, 4);
        let month = number_at(s, 5, 7);
        let day = number_at(s, 8, 10);
        match description_start(s) {
            Some(k) => if is_calendar_day(year, month, day) {
                Some(
                    (
                        Date { year: year as i32, month: month as u32, day: day as u32 },
                        s.subrange(k, s.len() as int),
                    ),
                )
            } else {
                None
            },
            None => None,
        }
    } else {
        None
    }
}

/// Reads the digits `v[from..to]`, or nothing where one of them is no digit.
fn read_number(v: &Vec<char>, from: usize, to: usize) -> (r: Option<u32>)
    requires
        from <= to <= v.len(),
        to - from <= 4,
    ensures
        match r {
            Some(n) => digits_at(v@, from as int, to as int) && n <= 9999 && n == number_at(
                v@,
                from as int,
                to as int,
            ),
            None => !digits_at(v@, from as int, to as int),
        },
{
    let mut n: u32 = 0;
    let mut j: usize = from;
    while j < to
        invariant
            from <= j <= to <= v.len(),
            to - from <= 4,
            digits_at(v@, from as int, j as int),
            n == number_at(v@, from as int, j as int),
            n <= 9999,
            j - from < 4 ==> n <= 999,
            j - from < 3 ==> n <= 99,
            j - from < 2 ==> n <= 9,
            j - from < 1 ==> n == 0,
        decreases to - j,
    {
        if !is_digit_char(v[j]) {
            assert(!is_digit(v@[j as int]));
            return None;
        }
        n = n * 10 + (v[j] as u32 - 0x30);
        j += 1;
    }
    Some(n)
}

impl Transaction {
    /// Starts a transaction without entries from a header line; `None`
    /// where the line is no header.
    pub fn parse_date_and_description(line: &str) -> (r: Option<Transaction>)
        ensures
            match r {
                Some(t) => header_of(line@) == Some((t.date, t.description@)) && t.entries@.len()
                    == 0 && t.date.dated(),
                None => header_of(line@) is None,
            },
    {
        let v = chars_of(line);
        let n: usize = v.len();
        if n < 10 || v[4] != '/' || v[7] != '/' {
            return None;
        }
        let year: u32 = match read_number(&v, 0, 4) {
            Some(y) => y,
            None => {
                return None;
            },
        };
        let month: u32 = match read_number(&v, 5, 7) {
            Some(m) => m,
            None => {
                return None;
            },
        };
        let day: u32 = match read_number(&v, 8, 10) {
            Some(d) => d,
            None => {
                return None;
            },
        };
        let k: usize = scan(&v, 10, CharClass::Space);
        let start: usize = if 10 < k && k < n {
            let mut j: usize = k;
            while j < n
                invariant
                    10 < k <= j <= n,
                    n == v.len(),
                    v@ == line@,
                    k == run_end(v@, 10, CharClass::Space),
                    has_date_shape(line@),
                    forall|i: int| k <= i < j ==> #[trigger] v@[i] != '\n',
                decreases n - j,
            {
                if v[j] == '\n' {
                    assert(line@[j as int] == '\n');
                    return None;
                }
                j += 1;
            }
            k
        } else if k == n && k >= 12 && v[k - 1] != '\n' {
            k - 1
        } else {
            return None;
        };
        assert(description_start(line@) == Some(start as int));
        assert(year <= 9999);
        match Date::from_ymd_opt(year as i32, month, day) {
            Some(date) => Some(
                Transaction { date, description: slice_to_string(line, start, n), entries: Vec::new() },
            ),
            None => None,
        }
    }
}

} // verus!

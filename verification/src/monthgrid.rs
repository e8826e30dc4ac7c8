//! A two-dimensional structure with consecutive months as columns and keyed
//! rows that are created when they are first written.

use crate::types::monthyear::MonthYear;
use vstd::prelude::*;

verus! {

/// What names a row of a grid.
pub trait GridKey: Sized {
    /// The name by which two keys are the same key.
    spec fn key(&self) -> Seq<char>;

    /// Whether two keys name the same row.
    fn same(&self, other: &Self) -> (r: bool)
        ensures
            r == (self.key() == other.key()),
    ;

    /// A second key for the same row.
    fn duplicate(&self) -> (r: Self)
        ensures
            r.key() == self.key(),
    ;
}

impl GridKey for String {
    open spec fn key(&self) -> Seq<char> {
        self@
    }

    fn same(&self, other: &Self) -> (r: bool) {
        *self == *other
    }

    fn duplicate(&self) -> (r: Self) {
        self.clone()
    }
}

/// A grid of optional values by month and key. The months are the
/// consecutive months from the first to the last that the grid was made for.
pub struct MonthGrid<K, T> {
    keys: Vec<K>,
    rows: Vec<Vec<Option<T>>>,
    start_month: MonthYear,
    total_months: usize,
}

/// A row in which no month has a value.
pub open spec fn empty_row<T>(months: nat) -> Seq<Option<T>> {
    Seq::new(months, |i: int| None::<T>)
}

impl<K: GridKey, T> MonthGrid<K, T> {
    /// The first month of the grid.
    pub closed spec fn start(&self) -> MonthYear {
        self.start_month
    }

    /// The number of months of the grid.
    pub closed spec fn total(&self) -> nat {
        self.total_months as nat
    }

    /// The place of the row of a key.
    spec fn row_index(&self, key: Seq<char>) -> int {
        choose|j: int| 0 <= j < self.keys@.len() && (#[trigger] self.keys@[j]).key() == key
    }

    /// The rows of the grid by the names of their keys.
    pub closed spec fn view(&self) -> Map<Seq<char>, Seq<Option<T>>> {
        Map::new(
            |key: Seq<char>|
                exists|j: int| 0 <= j < self.keys@.len() && (#[trigger] self.keys@[j]).key() == key,
            |key: Seq<char>| self.rows@[self.row_index(key)]@,
        )
    }

    /// The grid's invariant: the first month is a month, there is at least
    /// one month, no key has two rows, and every row has a slot for every month.
    pub closed spec fn wf(&self) -> bool {
        &&& self.start_month.wf()
        &&& self.total_months >= 1
        &&& self.keys@.len() == self.rows@.len()
        &&& forall|i: int, j: int|
            0 <= i < j < self.keys@.len() ==> (#[trigger] self.keys@[i]).key() != (
            #[trigger] self.keys@[j]).key()
        &&& forall|j: int|
            0 <= j < self.rows@.len() ==> (#[trigger] self.rows@[j])@.len() == self.total_months
    }

    /// The column of a month.
    pub open spec fn offset(&self, month: MonthYear) -> int {
        month.ordinal() - self.start().ordinal()
    }

    /// Whether a month is one of the grid's months.
    pub open spec fn in_range(&self, month: MonthYear) -> bool {
        month.wf() && 0 <= self.offset(month) < self.total()
    }

    /// The value of a month and key: none where the key has no row.
    pub open spec fn value_at(&self, month: MonthYear, key: Seq<char>) -> Option<T> {
        if self@.contains_key(key) {
            self@[key][self.offset(month)]
        } else {
            None
        }
    }

    /// Every row has a slot for every month of the grid.
    pub proof fn lemma_rows_are_dense(&self, key: Seq<char>)
        requires
            self.wf(),
            self@.contains_key(key),
        ensures
            self@[key].len() == self.total(),
    {
    }

    /// The key at place `j` has the row at place `j`.
    proof fn lemma_row(&self, j: int)
        requires
            self.wf(),
            0 <= j < self.keys@.len(),
        ensures
            self@.contains_key(self.keys@[j].key()),
            self@[self.keys@[j].key()] == self.rows@[j]@,
            self.row_index(self.keys@[j].key()) == j,
    {
        let k = self.row_index(self.keys@[j].key());
        if k < j {
            assert(self.keys@[k].key() != self.keys@[j].key());
        } else if j < k {
            assert(self.keys@[j].key() != self.keys@[k].key());
        }
    }

    /// The number of months from `first` to `this`, where `this` is not
    /// before `first` and the number fits.
    pub fn month_year_to_index(first: MonthYear, this: MonthYear) -> (r: Option<usize>)
        ensures
            r == if 0 <= this.ordinal() - first.ordinal() <= usize::MAX {
                Some((this.ordinal() - first.ordinal()) as usize)
            } else {
                None
            },
    {
        let from: u64 = first.year as u64 * 12 + first.month as u64;
        let to: u64 = this.year as u64 * 12 + this.month as u64;
        if to < from || to - from > usize::MAX as u64 {
            None
        } else {
            Some((to - from) as usize)
        }
    }

    /// An empty grid for the months from `first` to `last`.
    pub fn new(first: MonthYear, last: MonthYear) -> (r: Self)
        requires
            first.wf(),
            last.wf(),
            !last.before(&first),
            last.ordinal() - first.ordinal() < usize::MAX,
        ensures
            r.wf(),
            r.start() == first,
            r.total() == last.ordinal() - first.ordinal() + 1,
            r@ == Map::<Seq<char>, Seq<Option<T>>>::empty(),
    {
        let span: usize = match Self::month_year_to_index(first, last) {
            Some(n) => n,
            None => 0,
        };
        let r = MonthGrid {
            keys: Vec::new(),
            rows: Vec::new(),
            start_month: first,
            total_months: span + 1,
        };
        assert(r@ =~= Map::<Seq<char>, Seq<Option<T>>>::empty());
        r
    }

    /// Whether a month is one of the grid's months.
    pub fn contains_month(&self, month: MonthYear) -> (r: bool)
        requires
            self.wf(),
        ensures
            r == self.in_range(month),
    {
        if month.month < 1 || month.month > 12 {
            return false;
        }
        match Self::month_year_to_index(self.start_month, month) {
            Some(n) => n < self.total_months,
            None => false,
        }
    }

    /// The place of the row of a key, if it has one.
    fn find_row(&self, key: &K) -> (r: Option<usize>)
        requires
            self.wf(),
        ensures
            match r {
                Some(j) => j < self.keys@.len() && self.keys@[j as int].key() == key.key()
                    && self@.contains_key(key.key()) && self@[key.key()] == self.rows@[j as int]@,
                None => !self@.contains_key(key.key()),
            },
    {
        let mut j: usize = 0;
        while j < self.keys.len()
            invariant
                self.wf(),
                j <= self.keys@.len(),
                forall|i: int| 0 <= i < j ==> (#[trigger] self.keys@[i]).key() != key.key(),
            decreases self.keys.len() - j,
        {
            if self.keys[j].same(key) {
                proof {
                    self.lemma_row(j as int);
                }
                return Some(j);
            }
            j += 1;
        }
        None
    }

    /// A row with an empty slot for every month.
    fn new_row(&self) -> (row: Vec<Option<T>>)
        ensures
            row@ == empty_row::<T>(self.total()),
    {
        let mut row: Vec<Option<T>> = Vec::new();
        let mut i: usize = 0;
        while i < self.total_months
            invariant
                i <= self.total_months,
                row@.len() == i,
                forall|k: int| 0 <= k < i ==> (#[trigger] row@[k]) is None,
            decreases self.total_months - i,
        {
            row.push(None);
            i += 1;
        }
        assert(row@ =~= empty_row::<T>(self.total()));
        row
    }

    /// Writes a slot, creating the row of the key where it has none.
    pub fn set(&mut self, month: MonthYear, key: &K, value: Option<T>)
        requires
            old(self).wf(),
            old(self).in_range(month),
        ensures
            final(self).wf(),
            final(self).start() == old(self).start(),
            final(self).total() == old(self).total(),
            final(self)@ == old(self)@.insert(
                key.key(),
                (if old(self)@.contains_key(key.key()) {
                    old(self)@[key.key()]
                } else {
                    empty_row::<T>(old(self).total())
                }).update(old(self).offset(month), value),
            ),
            forall|other: MonthYear, name: Seq<char>|
                old(self).in_range(other) ==> #[trigger] final(self).value_at(other, name) == if name
                    == key.key() && other == month {
                    value
                } else {
                    old(self).value_at(other, name)
                },
    {
        let index: usize = match Self::month_year_to_index(self.start_month, month) {
            Some(n) => n,
            None => 0,
        };
        let ghost before = *self;
        match self.find_row(key) {
            Some(j) => {
                let mut row = self.rows.remove(j);
                row.set(index, value);
                self.rows.insert(j, row);
                proof {
                    let after = *self;
                    assert(after.wf());
                    assert forall|k: Seq<char>| after@.contains_key(k) implies #[trigger] after@[k]
                        == before@.insert(key.key(), row@)[k] by {
                        let i = after.row_index(k);
                        after.lemma_row(i);
                        before.lemma_row(i);
                    }
                    assert(after@ =~= before@.insert(key.key(), row@));
                }
            },
            None => {
                let mut row = self.new_row();
                row.set(index, value);
                self.keys.push(key.duplicate());
                self.rows.push(row);
                proof {
                    let after = *self;
                    let last = before.keys@.len() as int;
                    assert(after.keys@[last].key() == key.key());
                    assert forall|i: int, j: int| 0 <= i < j < after.keys@.len() implies (
                    #[trigger] after.keys@[i]).key() != (#[trigger] after.keys@[j]).key() by {
                        assert(after.keys@[i] == before.keys@[i]);
                        if j < last {
                            assert(after.keys@[j] == before.keys@[j]);
                        }
                    }
                    assert(after.wf());
                    assert forall|k: Seq<char>| after@.contains_key(k) implies before@.insert(
                        key.key(),
                        row@,
                    ).contains_key(k) && #[trigger] after@[k] == before@.insert(key.key(), row@)[k] by {
                        let i = after.row_index(k);
                        after.lemma_row(i);
                        if i < last {
                            assert(after.keys@[i] == before.keys@[i]);
                            before.lemma_row(i);
                        }
                    }
                    assert forall|k: Seq<char>|
                        before@.insert(key.key(), row@).contains_key(k) implies after@.contains_key(
                        k,
                    ) by {
                        if k == key.key() {
                            after.lemma_row(last);
                        } else {
                            let i = before.row_index(k);
                            before.lemma_row(i);
                            assert(after.keys@[i] == before.keys@[i]);
                            after.lemma_row(i);
                        }
                    }
                    assert(after@ =~= before@.insert(key.key(), row@));
                }
            },
        }
        proof {
            let after = *self;
            assert forall|other: MonthYear, name: Seq<char>| before.in_range(other) implies (
            #[trigger] after.value_at(other, name)) == if name == key.key() && other == month {
                value
            } else {
                before.value_at(other, name)
            } by {
                if before@.contains_key(name) {
                    before.lemma_rows_are_dense(name);
                }
            }
        }
    }

    /// Writes a value at a month and key, creating the row of the key
    /// where it has none.
    pub fn insert(&mut self, key: K, month_year: MonthYear, value: T)
        requires
            old(self).wf(),
            old(self).in_range(month_year),
        ensures
            final(self).wf(),
            final(self).start() == old(self).start(),
            final(self).total() == old(self).total(),
            final(self)@ == old(self)@.insert(
                key.key(),
                (if old(self)@.contains_key(key.key()) {
                    old(self)@[key.key()]
                } else {
                    empty_row::<T>(old(self).total())
                }).update(old(self).offset(month_year), Some(value)),
            ),
            forall|other: MonthYear, name: Seq<char>|
                old(self).in_range(other) ==> #[trigger] final(self).value_at(other, name) == if name
                    == key.key() && other == month_year {
                    Some(value)
                } else {
                    old(self).value_at(other, name)
                },
    {
        proof {
            if self@.contains_key(key.key()) {
                self.lemma_rows_are_dense(key.key());
            }
        }
        self.set(month_year, &key, Some(value));
    }

    /// Whether a key has a row.
    pub fn has_row(&self, key: &K) -> (r: bool)
        requires
            self.wf(),
        ensures
            r == self@.contains_key(key.key()),
    {
        self.find_row(key).is_some()
    }

    /// Reads a slot: nothing where the key has no row. No row is created.
    pub fn get(&self, month: MonthYear, key: &K) -> (r: Option<&T>)
        requires
            self.wf(),
            self@.contains_key(key.key()) ==> self.in_range(month),
        ensures
            match r {
                Some(v) => self.value_at(month, key.key()) == Some(*v),
                None => self.value_at(month, key.key()) is None,
            },
    {
        match self.find_row(key) {
            Some(j) => {
                let index: usize = match Self::month_year_to_index(self.start_month, month) {
                    Some(n) => n,
                    None => 0,
                };
                self.rows[j][index].as_ref()
            },
            None => None,
        }
    }
}

} // verus!

//! Entry lines of a journal and the grammar that reads them.

use crate::text::{
    all_space, chars_of, digit_value, is_account_char, is_account_token_char, is_all_whitespace,
    is_digit, is_digit_char, is_space, is_units_char, is_units_token_char, is_whitespace_char,
    slice_to_string,
};
use crate::types::amount::{
    abs, lemma_pow10_20, lemma_pow10_monotonic, lemma_pow10_positive, pow10, scale_up, Amount,
    AmountView, Decimal,
};
use crate::types::{Account, Units};
use vstd::prelude::*;

verus! {

/// The character classes that the grammar scans by.
#[derive(Clone, Copy, Debug)]
pub enum CharClass {
    Space,
    Digit,
    Account,
    Units,
}

impl CharClass {
    /// Whether a character belongs to the class.
    pub open spec fn holds(self, c: char) -> bool {
        match self {
            CharClass::Space => is_space(c),
            CharClass::Digit => is_digit(c),
            CharClass::Account => is_account_char(c),
            CharClass::Units => is_units_char(c),
        }
    }

    /// Whether a character belongs to the class.
    pub fn test(self, c: char) -> (r: bool)
        ensures
            r == self.holds(c),
    {
        match self {
            CharClass::Space => is_whitespace_char(c),
            CharClass::Digit => is_digit_char(c),
            CharClass::Account => is_account_token_char(c),
            CharClass::Units => is_units_token_char(c),
        }
    }
}

/// The end of the longest run of characters of `class` that starts at `i`.
pub open spec fn run_end(s: Seq<char>, i: int, class: CharClass) -> int
    decreases s.len() - i,
{
    if 0 <= i < s.len() && class.holds(s[i]) {
        run_end(s, i + 1, class)
    } else {
        i
    }
}

/// A run ends in the line, holds characters of its class only, and is
/// followed by none.
pub proof fn lemma_run_end(s: Seq<char>, i: int, class: CharClass)
    requires
        0 <= i <= s.len(),
    ensures
        i <= run_end(s, i, class) <= s.len(),
        forall|j: int| i <= j < run_end(s, i, class) ==> class.holds(#[trigger] s[j]),
        run_end(s, i, class) < s.len() ==> !class.holds(s[run_end(s, i, class)]),
    decreases s.len() - i,
{
    if i < s.len() && class.holds(s[i]) {
        lemma_run_end(s, i + 1, class);
    }
}

/// Scans the run of `class` that starts at `i`.
pub fn scan(v: &Vec<char>, i: usize, class: CharClass) -> (j: usize)
    requires
        i <= v.len(),
    ensures
        j == run_end(v@, i as int, class),
        i <= j <= v.len(),
        forall|k: int| i <= k < j ==> class.holds(#[trigger] v@[k]),
        j < v.len() ==> !class.holds(v@[j as int]),
{
    let mut j: usize = i;
    while j < v.len() && class.test(v[j])
        invariant
            i <= j <= v.len(),
            run_end(v@, i as int, class) == run_end(v@, j as int, class),
            forall|k: int| i <= k < j ==> class.holds(#[trigger] v@[k]),
        decreases v.len() - j,
    {
        j += 1;
    }
    j
}

/// The number that a sequence of digits spells after the digits that gave `init`.
pub open spec fn digits_acc(init: nat, s: Seq<char>) -> nat
    decreases s.len(),
{
    if s.len() == 0 {
        init
    } else {
        (digits_acc(init, s.drop_last()) * 10 + digit_value(s.last())) as nat
    }
}

/// Where the mantissa of a number lies in a line.
pub struct NumberSpan {
    pub negative: bool,
    pub int_from: int,
    pub int_to: int,
    pub frac_from: int,
    pub frac_to: int,
}

/// Where the exponent of a number lies in a line.
pub struct ExponentSpan {
    pub negative: bool,
    pub from: int,
    pub to: int,
}

/// Whether a sign stands at `i`.
pub open spec fn has_sign(s: Seq<char>, i: int) -> bool {
    0 <= i < s.len() && (s[i] == '+' || s[i] == '-')
}

/// Whether a minus sign stands at `i`.
pub open spec fn has_minus(s: Seq<char>, i: int) -> bool {
    0 <= i < s.len() && s[i] == '-'
}

/// The mantissa at `v`: an optional sign, then digits with an optional
/// fraction, or a fraction alone. A point that no digit follows is left out.
pub open spec fn mantissa_at(s: Seq<char>, v: int) -> Option<NumberSpan> {
    let p = if has_sign(s, v) {
        v + 1
    } else {
        v
    };
    let q = run_end(s, p, CharClass::Digit);
    let r = run_end(s, q + 1, CharClass::Digit);
    if 0 <= q < s.len() && s[q] == '.' && r > q + 1 {
        Some(
            NumberSpan {
                negative: has_minus(s, v),
                int_from: p,
                int_to: q,
                frac_from: q + 1,
                frac_to: r,
            },
        )
    } else if q > p {
        Some(
            NumberSpan { negative: has_minus(s, v), int_from: p, int_to: q, frac_from: q, frac_to: q },
        )
    } else {
        None
    }
}

/// The exponent at `r`: `e` or `E`, an optional sign, and at least one digit.
pub open spec fn exponent_at(s: Seq<char>, r: int) -> Option<ExponentSpan> {
    if 0 <= r < s.len() && (s[r] == 'e' || s[r] == 'E') {
        let xs = if has_sign(s, r + 1) {
            r + 2
        } else {
            r + 1
        };
        let xe = run_end(s, xs, CharClass::Digit);
        if xe > xs {
            Some(ExponentSpan { negative: has_minus(s, r + 1), from: xs, to: xe })
        } else {
            None
        }
    } else {
        None
    }
}

/// The exponent that a span spells, zero where there is none.
pub open spec fn exponent_value(s: Seq<char>, e: Option<ExponentSpan>) -> int {
    match e {
        Some(x) => {
            let n = digits_acc(0, s.subrange(x.from, x.to)) as int;
            if x.negative {
                -n
            } else {
                n
            }
        },
        None => 0,
    }
}

/// The exact decimal that a number spells, where its mantissa fits in an
/// `i64` and its number of decimal places in a `u32`.
pub open spec fn decimal_of(s: Seq<char>, m: NumberSpan, e: Option<ExponentSpan>) -> Option<
    Decimal,
> {
    let n = digits_acc(
        digits_acc(0, s.subrange(m.int_from, m.int_to)),
        s.subrange(m.frac_from, m.frac_to),
    ) as int;
    let places = (m.frac_to - m.frac_from) - exponent_value(s, e);
    let scaled = if places >= 0 {
        n
    } else {
        n * pow10((-places) as nat)
    };
    if scaled > i64::MAX || places > u32::MAX {
        None
    } else {
        Some(
            Decimal {
                mantissa: (if m.negative {
                    -scaled
                } else {
                    scaled
                }) as i64,
                places: (if places >= 0 {
                    places
                } else {
                    0
                }) as u32,
            },
        )
    }
}

/// What follows an account token in an entry line with an amount.
pub struct AmountSpan {
    pub units_from: int,
    pub units_to: int,
    pub number: NumberSpan,
    pub exponent: Option<ExponentSpan>,
}

/// The amount after the account token that ends at `e`: two or more white
/// space characters, then units and a number in either order, with optional
/// white space between them. Where the number comes first and what would be
/// its exponent is not followed by units, the `e` begins the units.
pub open spec fn amount_after(s: Seq<char>, e: int) -> Option<AmountSpan> {
    let w = run_end(s, e, CharClass::Space);
    if w - e < 2 || w >= s.len() {
        None
    } else if is_units_char(s[w]) {
        let u = run_end(s, w, CharClass::Units);
        let v = run_end(s, u, CharClass::Space);
        match mantissa_at(s, v) {
            Some(m) => Some(
                AmountSpan {
                    units_from: w,
                    units_to: u,
                    number: m,
                    exponent: exponent_at(s, m.frac_to),
                },
            ),
            None => None,
        }
    } else {
        match mantissa_at(s, w) {
            Some(m) => {
                let x = exponent_at(s, m.frac_to);
                let after = match x {
                    Some(xs) => run_end(s, xs.to, CharClass::Space),
                    None => run_end(s, m.frac_to, CharClass::Space),
                };
                if 0 <= after < s.len() && is_units_char(s[after]) {
                    Some(
                        AmountSpan {
                            units_from: after,
                            units_to: run_end(s, after, CharClass::Units),
                            number: m,
                            exponent: x,
                        },
                    )
                } else if x is Some {
                    Some(
                        AmountSpan {
                            units_from: m.frac_to,
                            units_to: run_end(s, m.frac_to, CharClass::Units),
                            number: m,
                            exponent: None,
                        },
                    )
                } else {
                    None
                }
            },
            None => None,
        }
    }
}

/// An account token and the amount after it.
pub struct EntrySpan {
    pub account_from: int,
    pub account_to: int,
    pub amount: AmountSpan,
}

/// The first account token at or after `i` that an amount follows.
pub open spec fn find_entry(s: Seq<char>, i: int) -> Option<EntrySpan>
    decreases s.len() - i,
{
    if i < 0 || i >= s.len() {
        None
    } else if !is_account_char(s[i]) {
        find_entry(s, i + 1)
    } else {
        let e = run_end(s, i, CharClass::Account);
        match amount_after(s, e) {
            Some(a) => Some(EntrySpan { account_from: i, account_to: e, amount: a }),
            None => if i < e <= s.len() {
                find_entry(s, e)
            } else {
                None
            },
        }
    }
}

/// The account of a line that holds one account token and, around it,
/// nothing but white space.
pub open spec fn account_only(s: Seq<char>) -> Option<Seq<char>> {
    let a = run_end(s, 0, CharClass::Space);
    let e = run_end(s, a, CharClass::Account);
    if e > a && run_end(s, e, CharClass::Space) == s.len() {
        Some(s.subrange(a, e))
    } else {
        None
    }
}

/// A mantissa lies in the line at or after the place where it was looked
/// for, holds digits only, and at least one of them.
pub proof fn lemma_mantissa_shape(s: Seq<char>, v: int)
    requires
        0 <= v <= s.len(),
        mantissa_at(s, v) is Some,
    ensures
        ({
            let m = mantissa_at(s, v).unwrap();
            &&& v <= m.int_from <= m.int_to <= m.frac_from <= m.frac_to <= s.len()
            &&& m.int_from <= v + 1
            &&& (m.int_to - m.int_from) + (m.frac_to - m.frac_from) >= 1
            &&& forall|k: int| m.int_from <= k < m.int_to ==> is_digit(#[trigger] s[k])
            &&& forall|k: int| m.frac_from <= k < m.frac_to ==> is_digit(#[trigger] s[k])
        }),
{
    let p = if has_sign(s, v) {
        v + 1
    } else {
        v
    };
    lemma_run_end(s, p, CharClass::Digit);
    let q = run_end(s, p, CharClass::Digit);
    if q < s.len() {
        lemma_run_end(s, q + 1, CharClass::Digit);
    }
}

/// An entry with an amount is an account token of one or more account
/// characters, then two or more white space characters, then a units token
/// of one or more units characters and a number, in either order.
pub proof fn lemma_entry_shape(s: Seq<char>, i: int)
    requires
        0 <= i,
        find_entry(s, i) is Some,
    ensures
        ({
            let m = find_entry(s, i).unwrap();
            let a = m.amount;
            &&& i <= m.account_from < m.account_to
            &&& forall|k: int|
                m.account_from <= k < m.account_to ==> is_account_char(#[trigger] s[k])
            &&& m.account_to + 2 <= a.units_from < a.units_to <= s.len()
            &&& m.account_to + 2 <= a.number.int_from + 1
            &&& is_space(s[m.account_to]) && is_space(s[m.account_to + 1])
            &&& forall|k: int| a.units_from <= k < a.units_to ==> is_units_char(#[trigger] s[k])
            &&& a.number.int_from <= a.number.int_to <= a.number.frac_from <= a.number.frac_to
                <= s.len()
            &&& (a.number.int_to - a.number.int_from) + (a.number.frac_to - a.number.frac_from)
                >= 1
            &&& a.units_to <= a.number.int_from || a.number.frac_to <= a.units_from
        }),
    decreases s.len() - i,
{
    if i < s.len() {
        if !is_account_char(s[i]) {
            lemma_entry_shape(s, i + 1);
        } else {
            lemma_run_end(s, i, CharClass::Account);
            let e = run_end(s, i, CharClass::Account);
            match amount_after(s, e) {
                Some(a) => {
                    lemma_run_end(s, e, CharClass::Space);
                    let w = run_end(s, e, CharClass::Space);
                    assert(is_space(s[e]));
                    assert(is_space(s[e + 1]));
                    if is_units_char(s[w]) {
                        lemma_run_end(s, w, CharClass::Units);
                        let u = run_end(s, w, CharClass::Units);
                        lemma_run_end(s, u, CharClass::Space);
                        lemma_mantissa_shape(s, run_end(s, u, CharClass::Space));
                    } else {
                        lemma_mantissa_shape(s, w);
                        let m = mantissa_at(s, w).unwrap();
                        let x = exponent_at(s, m.frac_to);
                        lemma_run_end(s, m.frac_to, CharClass::Space);
                        lemma_run_end(s, m.frac_to, CharClass::Units);
                        match x {
                            Some(xs) => {
                                let start = if has_sign(s, m.frac_to + 1) {
                                    m.frac_to + 2
                                } else {
                                    m.frac_to + 1
                                };
                                lemma_run_end(s, start, CharClass::Digit);
                                lemma_run_end(s, xs.to, CharClass::Space);
                                let after = run_end(s, xs.to, CharClass::Space);
                                if after < s.len() {
                                    lemma_run_end(s, after, CharClass::Units);
                                }
                            },
                            None => {
                                let after = run_end(s, m.frac_to, CharClass::Space);
                                if after < s.len() {
                                    lemma_run_end(s, after, CharClass::Units);
                                }
                            },
                        }
                    }
                },
                None => {
                    lemma_entry_shape(s, e);
                },
            }
        }
    }
}

/// An account read from a line that holds nothing else is a token of one
/// or more account characters with nothing but white space around it.
pub proof fn lemma_account_only_shape(s: Seq<char>)
    requires
        account_only(s) is Some,
    ensures
        ({
            let from = run_end(s, 0, CharClass::Space);
            let account = account_only(s).unwrap();
            &&& account.len() >= 1
            &&& forall|k: int| 0 <= k < account.len() ==> is_account_char(#[trigger] account[k])
            &&& 0 <= from && from + account.len() <= s.len()
            &&& account == s.subrange(from, from + account.len())
            &&& all_space(s.subrange(0, from))
            &&& all_space(s.subrange(from + account.len(), s.len() as int))
        }),
{
    let from = run_end(s, 0, CharClass::Space);
    lemma_run_end(s, 0, CharClass::Space);
    lemma_run_end(s, from, CharClass::Account);
    let to = run_end(s, from, CharClass::Account);
    lemma_run_end(s, to, CharClass::Space);
}

/// A run that holds characters of its class only and is followed by none
/// ends where the scan of it ends.
pub proof fn lemma_run_end_is(s: Seq<char>, i: int, j: int, class: CharClass)
    requires
        0 <= i <= j <= s.len(),
        forall|k: int| i <= k < j ==> class.holds(#[trigger] s[k]),
        j < s.len() ==> !class.holds(s[j]),
    ensures
        run_end(s, i, class) == j,
    decreases j - i,
{
    if i < j {
        lemma_run_end_is(s, i + 1, j, class);
    }
}

/// A line made of white space, a token of one or more account characters,
/// and white space again reads as that account.
pub proof fn lemma_account_only_complete(before: Seq<char>, account: Seq<char>, after: Seq<char>)
    requires
        all_space(before),
        all_space(after),
        account.len() >= 1,
        forall|k: int| 0 <= k < account.len() ==> is_account_char(#[trigger] account[k]),
    ensures
        account_only(before + account + after) == Some(account),
{
    let s = before + account + after;
    let a = before.len() as int;
    let e = a + account.len();
    assert forall|k: int| 0 <= k < a implies CharClass::Space.holds(#[trigger] s[k]) by {
        assert(s[k] == before[k]);
    }
    assert forall|k: int| a <= k < e implies CharClass::Account.holds(#[trigger] s[k]) by {
        assert(s[k] == account[k - a]);
    }
    assert forall|k: int| e <= k < s.len() implies CharClass::Space.holds(#[trigger] s[k]) by {
        assert(s[k] == after[k - e]);
    }
    assert(is_account_char(s[a]));
    if e < s.len() {
        assert(is_space(s[e]));
    }
    lemma_run_end_is(s, 0, a, CharClass::Space);
    lemma_run_end_is(s, a, e, CharClass::Account);
    lemma_run_end_is(s, e, s.len() as int, CharClass::Space);
    assert(s.subrange(a, e) =~= account);
}

/// What an entry line was read as.
#[derive(Debug, PartialEq)]
pub enum ParsedLine {
    AccountWithAmount(Account, Units, Decimal),
    AccountOnly(Account),
    Invalid,
}

/// The mathematical content of a [`ParsedLine`].
pub enum ParsedLineView {
    AccountWithAmount(Seq<char>, Seq<char>, Decimal),
    AccountOnly(Seq<char>),
    Invalid,
}

impl View for ParsedLine {
    type V = ParsedLineView;

    open spec fn view(&self) -> ParsedLineView {
        match self {
            ParsedLine::AccountWithAmount(a, u, d) => ParsedLineView::AccountWithAmount(a@, u@, *d),
            ParsedLine::AccountOnly(a) => ParsedLineView::AccountOnly(a@),
            ParsedLine::Invalid => ParsedLineView::Invalid,
        }
    }
}

/// How a line reads: as an account with an amount where one is found
/// anywhere in it, else as an account alone. A number that cannot be
/// represented makes the line invalid.
pub open spec fn parsed_line(s: Seq<char>) -> ParsedLineView {
    match find_entry(s, 0) {
        Some(m) => match decimal_of(s, m.amount.number, m.amount.exponent) {
            Some(d) => ParsedLineView::AccountWithAmount(
                s.subrange(m.account_from, m.account_to),
                s.subrange(m.amount.units_from, m.amount.units_to),
                d,
            ),
            None => ParsedLineView::Invalid,
        },
        None => match account_only(s) {
            Some(a) => ParsedLineView::AccountOnly(a),
            None => ParsedLineView::Invalid,
        },
    }
}

/// The two kinds of input on the right side of an entry line.
#[derive(Debug, PartialEq)]
pub enum LineAmount {
    Amount(Amount),
    Blank,
}

/// An entry line of the journal: an account with an optional amount.
#[derive(Debug, PartialEq)]
pub struct Line {
    pub account: Account,
    pub amount: LineAmount,
}

/// The mathematical content of a [`Line`].
pub struct LineView {
    pub account: Seq<char>,
    pub amount: Option<AmountView>,
}

impl View for LineAmount {
    type V = Option<AmountView>;

    open spec fn view(&self) -> Option<AmountView> {
        match self {
            LineAmount::Amount(a) => Some(a@),
            LineAmount::Blank => None,
        }
    }
}

impl View for Line {
    type V = LineView;

    open spec fn view(&self) -> LineView {
        LineView { account: self.account@, amount: self.amount@ }
    }
}

impl Clone for LineAmount {
    fn clone(&self) -> (r: LineAmount)
        ensures
            r@ == self@,
    {
        match self {
            LineAmount::Amount(a) => LineAmount::Amount(a.clone()),
            LineAmount::Blank => LineAmount::Blank,
        }
    }
}

impl Clone for Line {
    fn clone(&self) -> (r: Line)
        ensures
            r@ == self@,
    {
        Line { account: self.account.clone(), amount: self.amount.clone() }
    }
}

/// Why a line is no entry line.
#[derive(Clone, Copy, Debug, PartialEq, Eq, Structural)]
pub enum LineParseError {
    MissingAccount,
    Unknown,
}

/// What an entry line means, or why it is none.
pub open spec fn parse_line(s: Seq<char>) -> Result<LineView, LineParseError> {
    if all_space(s) {
        Err(LineParseError::MissingAccount)
    } else {
        match parsed_line(s) {
            ParsedLineView::AccountWithAmount(a, u, d) => Ok(
                LineView { account: a, amount: Some(AmountView::from_decimal(u, d)) },
            ),
            ParsedLineView::AccountOnly(a) => Ok(LineView { account: a, amount: None }),
            ParsedLineView::Invalid => Err(LineParseError::Unknown),
        }
    }
}

/// Where a mantissa lies in the characters of a line.
struct Mantissa {
    negative: bool,
    int_from: usize,
    int_to: usize,
    frac_from: usize,
    frac_to: usize,
}

/// Where an exponent lies in the characters of a line.
struct Exponent {
    negative: bool,
    from: usize,
    to: usize,
}

/// Where the units and the number of an amount lie in the characters of a line.
struct AmountPart {
    units_from: usize,
    units_to: usize,
    number: Mantissa,
    exponent: Option<Exponent>,
}

impl Mantissa {
    spec fn span(&self) -> NumberSpan {
        NumberSpan {
            negative: self.negative,
            int_from: self.int_from as int,
            int_to: self.int_to as int,
            frac_from: self.frac_from as int,
            frac_to: self.frac_to as int,
        }
    }

    spec fn inside(&self, s: Seq<char>) -> bool {
        &&& self.int_from <= self.int_to <= self.frac_from <= self.frac_to <= s.len()
        &&& forall|k: int| self.int_from <= k < self.int_to ==> is_digit(#[trigger] s[k])
        &&& forall|k: int| self.frac_from <= k < self.frac_to ==> is_digit(#[trigger] s[k])
    }
}

impl Exponent {
    spec fn span(&self) -> ExponentSpan {
        ExponentSpan { negative: self.negative, from: self.from as int, to: self.to as int }
    }

    spec fn inside(&self, s: Seq<char>) -> bool {
        &&& self.from <= self.to <= s.len()
        &&& forall|k: int| self.from <= k < self.to ==> is_digit(#[trigger] s[k])
    }
}

/// The span of an exponent, if there is one.
spec fn exponent_span(e: Option<Exponent>) -> Option<ExponentSpan> {
    match e {
        Some(x) => Some(x.span()),
        None => None,
    }
}

impl AmountPart {
    spec fn span(&self) -> AmountSpan {
        AmountSpan {
            units_from: self.units_from as int,
            units_to: self.units_to as int,
            number: self.number.span(),
            exponent: exponent_span(self.exponent),
        }
    }

    spec fn inside(&self, s: Seq<char>) -> bool {
        &&& self.units_from <= self.units_to <= s.len()
        &&& self.number.inside(s)
        &&& match self.exponent {
            Some(x) => x.inside(s),
            None => true,
        }
    }
}

/// Whether a sign stands at `i`.
fn is_sign_at(v: &Vec<char>, i: usize) -> (r: bool)
    ensures
        r == has_sign(v@, i as int),
{
    i < v.len() && (v[i] == '+' || v[i] == '-')
}

/// Whether a minus sign stands at `i`.
fn is_minus_at(v: &Vec<char>, i: usize) -> (r: bool)
    ensures
        r == has_minus(v@, i as int),
{
    i < v.len() && v[i] == '-'
}

/// Finds the mantissa at `at`.
fn read_mantissa(v: &Vec<char>, at: usize) -> (r: Option<Mantissa>)
    requires
        at <= v.len(),
    ensures
        match r {
            Some(m) => mantissa_at(v@, at as int) == Some(m.span()) && m.inside(v@),
            None => mantissa_at(v@, at as int) is None,
        },
{
    let negative = is_minus_at(v, at);
    let p: usize = if is_sign_at(v, at) {
        at + 1
    } else {
        at
    };
    let q: usize = scan(v, p, CharClass::Digit);
    if q < v.len() && v[q] == '.' {
        let r: usize = scan(v, q + 1, CharClass::Digit);
        if r > q + 1 {
            return Some(Mantissa { negative, int_from: p, int_to: q, frac_from: q + 1, frac_to: r });
        }
    }
    if q > p {
        Some(Mantissa { negative, int_from: p, int_to: q, frac_from: q, frac_to: q })
    } else {
        None
    }
}

/// Finds the exponent at `r`.
fn read_exponent(v: &Vec<char>, r: usize) -> (x: Option<Exponent>)
    requires
        r <= v.len(),
    ensures
        exponent_span(x) == exponent_at(v@, r as int),
        x matches Some(e) ==> e.inside(v@) && r < e.from,
{
    if r < v.len() && (v[r] == 'e' || v[r] == 'E') {
        let negative = is_minus_at(v, r + 1);
        let xs: usize = if is_sign_at(v, r + 1) {
            r + 2
        } else {
            r + 1
        };
        let xe: usize = scan(v, xs, CharClass::Digit);
        if xe > xs {
            Some(Exponent { negative, from: xs, to: xe })
        } else {
            None
        }
    } else {
        None
    }
}

/// The bound at which a number read from digits is held.
pub const DIGITS_CAP: u128 = 1267650600228229401496703205376;

/// A number held at the cap.
spec fn capped(n: nat) -> nat {
    if n > DIGITS_CAP {
        DIGITS_CAP as nat
    } else {
        n
    }
}

/// Reads the digits `v[from..to]` after digits that gave `x`, holding the
/// number at the cap.
fn read_digits(v: &Vec<char>, from: usize, to: usize, init: u128, Ghost(x): Ghost<nat>) -> (r:
    u128)
    requires
        from <= to <= v.len(),
        forall|k: int| from <= k < to ==> is_digit(#[trigger] v@[k]),
        init == capped(x),
    ensures
        r == capped(digits_acc(x, v@.subrange(from as int, to as int))),
{
    let mut acc: u128 = init;
    let mut j: usize = from;
    assert(v@.subrange(from as int, from as int) =~= Seq::<char>::empty());
    while j < to
        invariant
            from <= j <= to <= v.len(),
            forall|k: int| from <= k < to ==> is_digit(#[trigger] v@[k]),
            acc == capped(digits_acc(x, v@.subrange(from as int, j as int))),
        decreases to - j,
    {
        let c = v[j];
        assert(is_digit(v@[j as int]));
        let d: u128 = (c as u32 - 0x30) as u128;
        proof {
            let next = v@.subrange(from as int, j + 1);
            assert(next.drop_last() =~= v@.subrange(from as int, j as int));
            assert(next.last() == c);
        }
        acc = acc * 10 + d;
        if acc > DIGITS_CAP {
            acc = DIGITS_CAP;
        }
        j += 1;
    }
    acc
}

/// The decimal that the number at the given spans spells.
fn to_decimal(v: &Vec<char>, m: &Mantissa, e: &Option<Exponent>) -> (r: Option<Decimal>)
    requires
        m.inside(v@),
        e matches Some(x) ==> x.inside(v@),
    ensures
        r == decimal_of(v@, m.span(), exponent_span(*e)),
{
    let ghost int_value = digits_acc(0, v@.subrange(m.int_from as int, m.int_to as int));
    let n1: u128 = read_digits(v, m.int_from, m.int_to, 0, Ghost(0));
    let n: u128 = read_digits(v, m.frac_from, m.frac_to, n1, Ghost(int_value));
    let ghost value = digits_acc(int_value, v@.subrange(m.frac_from as int, m.frac_to as int));
    let frac_len: u128 = (m.frac_to - m.frac_from) as u128;
    let (exp_negative, exp_size): (bool, u128) = match e {
        Some(x) => (x.negative, read_digits(v, x.from, x.to, 0, Ghost(0))),
        None => (false, 0),
    };
    let ghost exp = exponent_value(v@, exponent_span(*e));
    let ghost places = frac_len as int - exp;
    assert(exp_size == capped(abs(exp) as nat));
    if n > i64::MAX as u128 {
        proof {
            if places < 0 {
                let p = pow10((-places) as nat);
                lemma_pow10_positive((-places) as nat);
                let big = value as int;
                assert(p >= 1 && big >= 0 ==> big * p >= big) by (nonlinear_arith);
            }
        }
        return None;
    }
    assert(n == value);
    let whole: i64 = n as i64;
    if exp_negative || exp_size <= frac_len {
        let wanted: u128 = if exp_negative {
            frac_len + exp_size
        } else {
            frac_len - exp_size
        };
        if wanted > u32::MAX as u128 {
            None
        } else {
            Some(
                Decimal {
                    mantissa: if m.negative {
                        -whole
                    } else {
                        whole
                    },
                    places: wanted as u32,
                },
            )
        }
    } else {
        let k: u128 = exp_size - frac_len;
        if whole == 0 {
            proof {
                let p = pow10((-places) as nat);
                assert(0 * p == 0) by (nonlinear_arith);
            }
            Some(Decimal { mantissa: 0, places: 0 })
        } else if k >= 20 {
            proof {
                lemma_pow10_monotonic(20, (-places) as nat);
                lemma_pow10_20();
                let p = pow10((-places) as nat);
                let big = value as int;
                assert(p >= 100_000_000_000_000_000_000 && big >= 1 ==> big * p
                    >= 100_000_000_000_000_000_000) by (nonlinear_arith);
            }
            None
        } else {
            proof {
                let p = pow10((-places) as nat);
                lemma_pow10_positive((-places) as nat);
                let big = value as int;
                assert(p >= 1 && big >= 0 ==> big * p >= 0) by (nonlinear_arith);
            }
            match scale_up(whole, k as u32) {
                Some(scaled) => Some(
                    Decimal {
                        mantissa: if m.negative {
                            -scaled
                        } else {
                            scaled
                        },
                        places: 0,
                    },
                ),
                None => None,
            }
        }
    }
}

/// Finds the amount after the account token that ends at `e`.
fn read_amount(v: &Vec<char>, e: usize) -> (r: Option<AmountPart>)
    requires
        e <= v.len(),
    ensures
        match r {
            Some(a) => amount_after(v@, e as int) == Some(a.span()) && a.inside(v@),
            None => amount_after(v@, e as int) is None,
        },
{
    let w: usize = scan(v, e, CharClass::Space);
    if w - e < 2 || w >= v.len() {
        return None;
    }
    if is_units_token_char(v[w]) {
        let u: usize = scan(v, w, CharClass::Units);
        let at: usize = scan(v, u, CharClass::Space);
        match read_mantissa(v, at) {
            Some(m) => {
                let exponent = read_exponent(v, m.frac_to);
                Some(AmountPart { units_from: w, units_to: u, number: m, exponent })
            },
            None => None,
        }
    } else {
        match read_mantissa(v, w) {
            Some(m) => {
                let x = read_exponent(v, m.frac_to);
                let after: usize = match &x {
                    Some(xs) => scan(v, xs.to, CharClass::Space),
                    None => scan(v, m.frac_to, CharClass::Space),
                };
                if after < v.len() && is_units_token_char(v[after]) {
                    let units_to: usize = scan(v, after, CharClass::Units);
                    Some(AmountPart { units_from: after, units_to, number: m, exponent: x })
                } else if x.is_some() {
                    let units_from: usize = m.frac_to;
                    let units_to: usize = scan(v, units_from, CharClass::Units);
                    Some(AmountPart { units_from, units_to, number: m, exponent: None })
                } else {
                    None
                }
            },
            None => None,
        }
    }
}

/// Reads a line as an account with an amount, else as an account alone.
pub fn parse_account_and_amount(input: &str) -> (r: ParsedLine)
    ensures
        r@ == parsed_line(input@),
{
    let v = chars_of(input);
    let mut i: usize = 0;
    while i < v.len()
        invariant
            i <= v.len(),
            v@ == input@,
            find_entry(v@, 0) == find_entry(v@, i as int),
        decreases v.len() - i,
    {
        if !is_account_token_char(v[i]) {
            i += 1;
        } else {
            let e: usize = scan(&v, i, CharClass::Account);
            match read_amount(&v, e) {
                Some(a) => {
                    return match to_decimal(&v, &a.number, &a.exponent) {
                        Some(d) => ParsedLine::AccountWithAmount(
                            slice_to_string(input, i, e),
                            slice_to_string(input, a.units_from, a.units_to),
                            d,
                        ),
                        None => ParsedLine::Invalid,
                    };
                },
                None => {
                    i = e;
                },
            }
        }
    }
    match parse_account_only(input) {
        Some(account) => ParsedLine::AccountOnly(account),
        None => ParsedLine::Invalid,
    }
}

/// Reads a line that holds an account token and nothing else but white space.
pub fn parse_account_only(input: &str) -> (r: Option<String>)
    ensures
        match r {
            Some(a) => account_only(input@) == Some(a@),
            None => account_only(input@) is None,
        },
{
    let v = chars_of(input);
    let a: usize = scan(&v, 0, CharClass::Space);
    let e: usize = scan(&v, a, CharClass::Account);
    if e > a && scan(&v, e, CharClass::Space) == v.len() {
        Some(slice_to_string(input, a, e))
    } else {
        None
    }
}

impl Line {
    /// Reads one entry line: an account, optionally followed by two or more
    /// white space characters and an amount.
    pub fn from_str(line: &str) -> (r: Result<Line, LineParseError>)
        ensures
            match r {
                Ok(l) => parse_line(line@) == Ok::<LineView, LineParseError>(l@),
                Err(e) => parse_line(line@) == Err::<LineView, LineParseError>(e),
            },
    {
        if is_all_whitespace(line) {
            return Err(LineParseError::MissingAccount);
        }
        match parse_account_and_amount(line) {
            ParsedLine::AccountWithAmount(account, units, value) => Ok(
                Line { account, amount: LineAmount::Amount(Amount::from(units, value)) },
            ),
            ParsedLine::AccountOnly(account) => Ok(Line { account, amount: LineAmount::Blank }),
            ParsedLine::Invalid => Err(LineParseError::Unknown),
        }
    }
}

} // verus!

//! Amounts of a commodity, in fixed point or as exact decimals.

use crate::types::Units;
use vstd::prelude::*;
use vstd::string::*;

verus! {

/// Ten to the power `n`.
pub open spec fn pow10(n: nat) -> int
    decreases n,
{
    if n == 0 {
        1
    } else {
        10 * pow10((n - 1) as nat)
    }
}

/// A power of ten is at least one.
pub proof fn lemma_pow10_positive(n: nat)
    ensures
        pow10(n) >= 1,
    decreases n,
{
    if n > 0 {
        lemma_pow10_positive((n - 1) as nat);
    }
}

/// A larger exponent gives no smaller power of ten.
pub proof fn lemma_pow10_monotonic(a: nat, b: nat)
    requires
        a <= b,
    ensures
        pow10(a) <= pow10(b),
    decreases b,
{
    if a < b {
        lemma_pow10_monotonic(a, (b - 1) as nat);
        lemma_pow10_positive((b - 1) as nat);
    }
}

/// The power of a sum of exponents is the product of their powers.
pub proof fn lemma_pow10_sum(a: nat, b: nat)
    ensures
        pow10(a + b) == pow10(a) * pow10(b),
    decreases a,
{
    if a > 0 {
        lemma_pow10_sum((a - 1) as nat, b);
        assert(pow10(a + b) == 10 * pow10((a + b - 1) as nat));
        assert(((a - 1) as nat + b) as nat == (a + b - 1) as nat);
        assert(10 * (pow10((a - 1) as nat) * pow10(b)) == (10 * pow10((a - 1) as nat)) * pow10(b))
            by (nonlinear_arith);
    }
}

/// The powers of ten around the range of the machine integers.
pub proof fn lemma_pow10_20()
    ensures
        pow10(19) == 10_000_000_000_000_000_000,
        pow10(20) == 100_000_000_000_000_000_000,
{
    reveal_with_fuel(pow10, 22);
}

/// An exact decimal number: `mantissa / 10^places`.
#[derive(Clone, Copy, Debug, PartialEq, Eq, Structural)]
pub struct Decimal {
    pub mantissa: i64,
    pub places: u32,
}

/// How an amount is represented.
#[derive(Clone, Copy, Debug, PartialEq, Eq, Structural)]
pub enum AmountType {
    /// A whole number of the smallest divisible part of the commodity, and
    /// the number of decimal places after the unit place: `Discrete(1025, 2)`
    /// is 10.25.
    Discrete(i64, usize),
    /// A quantity of a commodity without a fixed smallest part.
    Float(Decimal),
}

/// Why two amounts cannot be added.
#[derive(Clone, Copy, Debug, PartialEq, Eq, Structural)]
pub enum AmountError {
    UnitsMismatch,
    DecimalPlacesMismatch,
    RepresentationMismatch,
    Overflow,
}

/// An amount of some commodity.
#[derive(Debug, PartialEq, Eq)]
pub struct Amount {
    pub units: Units,
    pub amount: AmountType,
}

/// The mathematical content of an [`Amount`].
pub struct AmountView {
    pub units: Seq<char>,
    pub amount: AmountType,
}

impl View for Amount {
    type V = AmountView;

    open spec fn view(&self) -> AmountView {
        AmountView { units: self.units@, amount: self.amount }
    }
}

impl Clone for Amount {
    fn clone(&self) -> (r: Amount)
        ensures
            r@ == self@,
    {
        Amount { units: self.units.clone(), amount: self.amount }
    }
}

/// The units that are kept in hundredths.
pub open spec fn currency_units() -> Seq<char> {
    seq!['$']
}

/// Whether a number is in the range of `i64`.
pub open spec fn fits_i64(n: int) -> bool {
    i64::MIN <= n <= i64::MAX
}

/// The number of the range of `i64` nearest to `n`.
pub open spec fn clamp_i64(n: int) -> int {
    if n < i64::MIN {
        i64::MIN as int
    } else if n > i64::MAX {
        i64::MAX as int
    } else {
        n
    }
}

/// The magnitude of a number.
pub open spec fn abs(n: int) -> int {
    if n < 0 {
        -n
    } else {
        n
    }
}

/// `n / d` rounded to the nearest whole number, halves away from zero.
pub open spec fn round_div(n: int, d: int) -> int
    recommends
        d > 0,
{
    let q = (2 * abs(n) + d) / (2 * d);
    if n < 0 {
        -q
    } else {
        q
    }
}

impl Decimal {
    /// The decimal `mantissa / 10^places`.
    pub fn new(mantissa: i64, places: u32) -> (r: Decimal)
        ensures
            r == (Decimal { mantissa, places }),
    {
        Decimal { mantissa, places }
    }

    /// The number of hundredths nearest to this value, halves away from zero,
    /// held to the range of `i64`.
    pub open spec fn hundredths(&self) -> int {
        if self.places <= 2 {
            clamp_i64(self.mantissa * pow10((2 - self.places) as nat))
        } else {
            round_div(self.mantissa as int, pow10((self.places - 2) as nat))
        }
    }

    /// This value as a multiple of `10^-4294967295`: a whole number for every
    /// number of places, by which values of different places compare.
    pub open spec fn weight(&self) -> int {
        self.mantissa * pow10((u32::MAX - self.places) as nat)
    }

    /// The mantissa of the sum of two decimals at the larger number of places.
    pub open spec fn sum_mantissa(a: Decimal, b: Decimal) -> int {
        if a.places <= b.places {
            a.mantissa * pow10((b.places - a.places) as nat) + b.mantissa
        } else {
            a.mantissa + b.mantissa * pow10((a.places - b.places) as nat)
        }
    }

    /// The larger of two numbers of decimal places.
    pub open spec fn max_places(a: Decimal, b: Decimal) -> u32 {
        if a.places <= b.places {
            b.places
        } else {
            a.places
        }
    }
}

/// `10^k` for the exponents whose power fits.
fn pow10_u128(k: u32) -> (r: u128)
    requires
        k <= 20,
    ensures
        r == pow10(k as nat),
        1 <= r <= 100_000_000_000_000_000_000,
{
    let mut r: u128 = 1;
    let mut i: u32 = 0;
    while i < k
        invariant
            i <= k <= 20,
            r == pow10(i as nat),
            1 <= r <= 100_000_000_000_000_000_000,
        decreases k - i,
    {
        proof {
            lemma_pow10_monotonic((i + 1) as nat, 20);
            lemma_pow10_20();
        }
        r = r * 10;
        i += 1;
    }
    r
}

/// The magnitude of `m`.
fn magnitude(m: i64) -> (r: u128)
    ensures
        r == abs(m as int),
{
    if m >= 0 {
        m as u128
    } else {
        (-(m as i128)) as u128
    }
}

impl Decimal {
    /// Rounds to hundredths; see [`Decimal::hundredths`].
    pub fn to_hundredths(&self) -> (r: i64)
        ensures
            r == self.hundredths(),
    {
        if self.places <= 2 {
            let k: u32 = 2 - self.places;
            proof {
                reveal_with_fuel(pow10, 3);
            }
            let p: i128 = if k == 0 {
                1
            } else if k == 1 {
                10
            } else {
                100
            };
            assert(p == pow10(k as nat));
            let wide: i128 = (self.mantissa as i128) * p;
            if wide < i64::MIN as i128 {
                i64::MIN
            } else if wide > i64::MAX as i128 {
                i64::MAX
            } else {
                wide as i64
            }
        } else {
            let k: u32 = self.places - 2;
            let mag: u128 = magnitude(self.mantissa);
            if k >= 20 {
                proof {
                    lemma_pow10_monotonic(20, k as nat);
                    lemma_pow10_20();
                    let d = pow10(k as nat);
                    let n = 2 * abs(self.mantissa as int) + d;
                    assert(0 <= n < 2 * d);
                    assert(0 <= n < 2 * d ==> n / (2 * d) == 0) by (nonlinear_arith);
                }
                return 0;
            }
            let d: u128 = pow10_u128(k);
            let q: u128 = (2 * mag + d) / (2 * d);
            proof {
                let di = d as int;
                let mi = mag as int;
                reveal_with_fuel(pow10, 2);
                lemma_pow10_positive((k - 1) as nat);
                assert(di >= 10);
                assert((2 * mi + di) / (2 * di) <= mi) by (nonlinear_arith)
                    requires
                        di >= 10,
                        mi >= 0,
                ;
            }
            if self.mantissa < 0 {
                (-(q as i128)) as i64
            } else {
                q as i64
            }
        }
    }
}

impl AmountType {
    /// The value as a whole number by which amounts of one representation
    /// compare and add up: the scaled integer of a discrete amount, the
    /// weight of a decimal.
    pub open spec fn weight(&self) -> int {
        match *self {
            AmountType::Discrete(v, _) => v as int,
            AmountType::Float(d) => d.weight(),
        }
    }

    /// Whether the value is zero.
    pub open spec fn is_zero(&self) -> bool {
        match *self {
            AmountType::Discrete(v, _) => v == 0,
            AmountType::Float(d) => d.mantissa == 0,
        }
    }

    /// Whether the opposite value can be represented.
    pub open spec fn negatable(&self) -> bool {
        match *self {
            AmountType::Discrete(v, _) => v != i64::MIN,
            AmountType::Float(d) => d.mantissa != i64::MIN,
        }
    }

    /// The opposite value.
    pub open spec fn negated(&self) -> AmountType {
        match *self {
            AmountType::Discrete(v, p) => AmountType::Discrete((-v) as i64, p),
            AmountType::Float(d) => AmountType::Float(
                Decimal { mantissa: (-d.mantissa) as i64, places: d.places },
            ),
        }
    }

    /// The sum of two values of one commodity, or why there is none.
    pub open spec fn sum(a: AmountType, b: AmountType) -> Result<AmountType, AmountError> {
        match (a, b) {
            (AmountType::Discrete(l, d1), AmountType::Discrete(r, d2)) => {
                if d1 != d2 {
                    Err(AmountError::DecimalPlacesMismatch)
                } else if !fits_i64(l + r) {
                    Err(AmountError::Overflow)
                } else {
                    Ok(AmountType::Discrete((l + r) as i64, d1))
                }
            },
            (AmountType::Float(l), AmountType::Float(r)) => {
                if !fits_i64(Decimal::sum_mantissa(l, r)) {
                    Err(AmountError::Overflow)
                } else {
                    Ok(
                        AmountType::Float(
                            Decimal {
                                mantissa: Decimal::sum_mantissa(l, r) as i64,
                                places: Decimal::max_places(l, r),
                            },
                        ),
                    )
                }
            },
            _ => Err(AmountError::RepresentationMismatch),
        }
    }
}

impl AmountView {
    /// The sum of two amounts, or why there is none.
    pub open spec fn sum(a: AmountView, b: AmountView) -> Result<AmountView, AmountError> {
        if a.units != b.units {
            Err(AmountError::UnitsMismatch)
        } else {
            match AmountType::sum(a.amount, b.amount) {
                Ok(s) => Ok(AmountView { units: a.units, amount: s }),
                Err(e) => Err(e),
            }
        }
    }

    /// The amount that a number of the given units stands for: hundredths
    /// for the currency, the number itself for anything else.
    pub open spec fn from_decimal(units: Seq<char>, value: Decimal) -> AmountView {
        if units == currency_units() {
            AmountView { units, amount: AmountType::Discrete(value.hundredths() as i64, 2) }
        } else {
            AmountView { units, amount: AmountType::Float(value) }
        }
    }
}

/// `a * 10^k + b` where that fits in an `i64`.
fn scaled_sum(a: i64, k: u32, b: i64) -> (r: Option<i64>)
    ensures
        r == if fits_i64(a * pow10(k as nat) + b) {
            Some((a * pow10(k as nat) + b) as i64)
        } else {
            None
        },
{
    if a == 0 {
        assert(0 * pow10(k as nat) == 0) by (nonlinear_arith);
        return Some(b);
    }
    if k >= 20 {
        proof {
            lemma_pow10_monotonic(20, k as nat);
            lemma_pow10_20();
            let p = pow10(k as nat);
            assert(a != 0 && p >= 100_000_000_000_000_000_000 ==> a * p
                >= 100_000_000_000_000_000_000 || a * p <= -100_000_000_000_000_000_000)
                by (nonlinear_arith);
        }
        return None;
    }
    let p: u128 = pow10_u128(k);
    proof {
        lemma_pow10_monotonic(k as nat, 19);
        lemma_pow10_20();
        let pi = p as int;
        assert(-0x8000_0000_0000_0000 <= a < 0x8000_0000_0000_0000 && 1 <= pi
            <= 10_000_000_000_000_000_000 ==> -0x8000_0000_0000_0000 * 10_000_000_000_000_000_000
            <= a * pi <= 0x8000_0000_0000_0000 * 10_000_000_000_000_000_000)
            by (nonlinear_arith);
    }
    let wide: i128 = (a as i128) * (p as i128) + (b as i128);
    if wide < i64::MIN as i128 || wide > i64::MAX as i128 {
        None
    } else {
        Some(wide as i64)
    }
}

/// `m * 10^k` where the product fits in an `i64`.
pub fn scale_up(m: i64, k: u32) -> (r: Option<i64>)
    ensures
        r == if fits_i64(m * pow10(k as nat)) {
            Some((m * pow10(k as nat)) as i64)
        } else {
            None
        },
{
    scaled_sum(m, k, 0)
}

impl Amount {
    /// The amount that `value` of `units` stands for.
    pub fn from(units: String, value: Decimal) -> (r: Amount)
        ensures
            r@ == AmountView::from_decimal(units@, value),
    {
        let is_currency = units.as_str().unicode_len() == 1 && units.as_str().get_char(0) == '$';
        assert(is_currency == (units@ =~= currency_units()));
        let amount = if is_currency {
            AmountType::Discrete(value.to_hundredths(), 2)
        } else {
            AmountType::Float(value)
        };
        Amount { units, amount }
    }

    /// Whether the amount is zero.
    pub fn is_zero(&self) -> (r: bool)
        ensures
            r == self@.amount.is_zero(),
            r == (self@.amount.weight() == 0),
    {
        proof {
            lemma_zero_weight(self.amount);
        }
        match self.amount {
            AmountType::Discrete(amt, _) => amt == 0,
            AmountType::Float(d) => d.mantissa == 0,
        }
    }

    /// The opposite amount of the same units.
    pub fn negate(self) -> (r: Amount)
        requires
            self@.amount.negatable(),
        ensures
            r@.units == self@.units,
            r@.amount == self@.amount.negated(),
            r@.amount.weight() == -self@.amount.weight(),
    {
        proof {
            lemma_negated_weight(self.amount);
        }
        let negated = match self.amount {
            AmountType::Discrete(amt, dec) => AmountType::Discrete(-amt, dec),
            AmountType::Float(d) => AmountType::Float(
                Decimal { mantissa: -d.mantissa, places: d.places },
            ),
        };
        Amount { units: self.units, amount: negated }
    }

    /// Whether [`Amount::negate`] may be called on this amount.
    pub fn is_negatable(&self) -> (r: bool)
        ensures
            r == self@.amount.negatable(),
    {
        match self.amount {
            AmountType::Discrete(amt, _) => amt != i64::MIN,
            AmountType::Float(d) => d.mantissa != i64::MIN,
        }
    }

    /// Adds `other` to this amount in place. Fails, leaving the amount as it
    /// was, where the units differ, the representations differ, two discrete
    /// amounts differ in their decimal places, or the sum does not fit.
    pub fn add(&mut self, other: &Amount) -> (r: Result<(), AmountError>)
        ensures
            match AmountView::sum(old(self)@, other@) {
                Ok(s) => r is Ok && final(self)@ == s,
                Err(e) => r == Err::<(), AmountError>(e) && final(self)@ == old(self)@,
            },
    {
        if self.units != other.units {
            return Err(AmountError::UnitsMismatch);
        }
        match (self.amount, other.amount) {
            (AmountType::Discrete(l, d1), AmountType::Discrete(r, d2)) => {
                if d1 != d2 {
                    return Err(AmountError::DecimalPlacesMismatch);
                }
                match l.checked_add(r) {
                    Some(s) => {
                        self.amount = AmountType::Discrete(s, d1);
                        Ok(())
                    },
                    None => Err(AmountError::Overflow),
                }
            },
            (AmountType::Float(l), AmountType::Float(r)) => {
                let (sum, places) = if l.places <= r.places {
                    (scaled_sum(l.mantissa, r.places - l.places, r.mantissa), r.places)
                } else {
                    proof {
                        let p = pow10((l.places - r.places) as nat);
                        assert(r.mantissa * p + l.mantissa == l.mantissa + r.mantissa * p);
                    }
                    (scaled_sum(r.mantissa, l.places - r.places, l.mantissa), l.places)
                };
                match sum {
                    Some(s) => {
                        self.amount = AmountType::Float(Decimal { mantissa: s, places });
                        Ok(())
                    },
                    None => Err(AmountError::Overflow),
                }
            },
            _ => Err(AmountError::RepresentationMismatch),
        }
    }
}

/// An amount is zero exactly where its weight is.
pub proof fn lemma_zero_weight(a: AmountType)
    ensures
        a.is_zero() <==> a.weight() == 0,
{
    match a {
        AmountType::Discrete(_, _) => {},
        AmountType::Float(d) => {
            let p = pow10((u32::MAX - d.places) as nat);
            lemma_pow10_positive((u32::MAX - d.places) as nat);
            let m = d.mantissa as int;
            assert(p >= 1 ==> ((m * p == 0) <==> m == 0)) by (nonlinear_arith);
        },
    }
}

/// Negation turns the weight around.
pub proof fn lemma_negated_weight(a: AmountType)
    requires
        a.negatable(),
    ensures
        a.negated().weight() == -a.weight(),
{
    match a {
        AmountType::Discrete(_, _) => {},
        AmountType::Float(d) => {
            let p = pow10((u32::MAX - d.places) as nat);
            let m = d.mantissa as int;
            assert((-m) * p == -(m * p)) by (nonlinear_arith);
        },
    }
}

/// Where two values have a sum, its weight is the sum of their weights.
pub proof fn lemma_sum_weight(a: AmountType, b: AmountType)
    requires
        AmountType::sum(a, b) is Ok,
    ensures
        AmountType::sum(a, b).unwrap().weight() == a.weight() + b.weight(),
{
    match (a, b) {
        (AmountType::Float(l), AmountType::Float(r)) => {
            let lm = l.mantissa as int;
            let rm = r.mantissa as int;
            if l.places <= r.places {
                let k = (r.places - l.places) as nat;
                let t = (u32::MAX - r.places) as nat;
                lemma_pow10_sum(k, t);
                assert(k + t == (u32::MAX - l.places) as nat);
                let pk = pow10(k);
                let pt = pow10(t);
                assert((lm * pk + rm) * pt == lm * (pk * pt) + rm * pt) by (nonlinear_arith);
            } else {
                let k = (l.places - r.places) as nat;
                let t = (u32::MAX - l.places) as nat;
                lemma_pow10_sum(k, t);
                assert(k + t == (u32::MAX - r.places) as nat);
                let pk = pow10(k);
                let pt = pow10(t);
                assert((lm + rm * pk) * pt == lm * pt + rm * (pk * pt)) by (nonlinear_arith);
            }
        },
        _ => {},
    }
}

} // verus!

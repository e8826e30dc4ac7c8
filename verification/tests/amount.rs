use katana::types::amount::{scale_up, Amount, AmountError, AmountType, Decimal};

fn dollars(cents: i64) -> Amount {
    Amount { units: "$".to_string(), amount: AmountType::Discrete(cents, 2) }
}

fn quantity(units: &str, mantissa: i64, places: u32) -> Amount {
    Amount { units: units.to_string(), amount: AmountType::Float(Decimal::new(mantissa, places)) }
}

#[test]
fn test_from() {
    let amount1 = Amount::from("$".to_string(), Decimal::new(1025, 2));
    assert_eq!(
        amount1,
        Amount { units: "$".to_string(), amount: AmountType::Discrete(1025, 2) }
    );

    let amount2 = Amount::from("kg".to_string(), Decimal::new(25, 1));
    assert_eq!(
        amount2,
        Amount { units: "kg".to_string(), amount: AmountType::Float(Decimal::new(25, 1)) }
    );
}

#[test]
fn test_is_zero() {
    let amount1 = Amount::from("$".to_string(), Decimal::new(0, 1));
    let amount2 = Amount::from("kg".to_string(), Decimal::new(0, 1));
    assert!(amount1.is_zero());
    assert!(amount2.is_zero());
}

#[test]
fn test_negate() {
    let amount1 = Amount::from("$".to_string(), Decimal::new(1025, 2));
    let amount2 = Amount::from("kg".to_string(), Decimal::new(25, 1));
    assert_eq!(
        amount1.negate(),
        Amount { units: "$".to_string(), amount: AmountType::Discrete(-1025, 2) }
    );
    assert_eq!(
        amount2.negate(),
        Amount { units: "kg".to_string(), amount: AmountType::Float(Decimal::new(-25, 1)) }
    );
}

#[test]
fn test_add_same_units() {
    let mut amount1 = Amount::from("$".to_string(), Decimal::new(1025, 2));
    let amount2 = Amount::from("$".to_string(), Decimal::new(525, 2));
    assert_eq!(amount1.add(&amount2), Ok(()));
    assert_eq!(
        amount1,
        Amount { units: "$".to_string(), amount: AmountType::Discrete(1550, 2) }
    );

    let mut amount3 = Amount::from("kg".to_string(), Decimal::new(25, 1));
    let amount4 = Amount::from("kg".to_string(), Decimal::new(15, 1));
    assert_eq!(amount3.add(&amount4), Ok(()));
    assert_eq!(
        amount3,
        Amount { units: "kg".to_string(), amount: AmountType::Float(Decimal::new(40, 1)) }
    );
}

#[test]
fn add_refuses_different_units() {
    let mut amount1 = Amount::from("$".to_string(), Decimal::new(1025, 2));
    let amount2 = Amount::from("kg".to_string(), Decimal::new(25, 1));
    assert_eq!(amount1.add(&amount2), Err(AmountError::UnitsMismatch));
    assert_eq!(amount1, dollars(1025));
}

#[test]
fn add_refuses_different_decimal_places() {
    let mut a = Amount { units: "$".to_string(), amount: AmountType::Discrete(1, 2) };
    let b = Amount { units: "$".to_string(), amount: AmountType::Discrete(1, 3) };
    assert_eq!(a.add(&b), Err(AmountError::DecimalPlacesMismatch));
    assert_eq!(a, dollars(1));
}

#[test]
fn add_refuses_mixed_representations() {
    let mut a = dollars(100);
    let b = quantity("$", 1, 0);
    assert_eq!(a.add(&b), Err(AmountError::RepresentationMismatch));
    let mut c = quantity("$", 1, 0);
    assert_eq!(c.add(&dollars(100)), Err(AmountError::RepresentationMismatch));
}

#[test]
fn add_refuses_overflow() {
    let mut a = dollars(i64::MAX);
    assert_eq!(a.add(&dollars(1)), Err(AmountError::Overflow));
    assert_eq!(a, dollars(i64::MAX));
    let mut b = dollars(i64::MIN);
    assert_eq!(b.add(&dollars(-1)), Err(AmountError::Overflow));
    let mut c = quantity("kg", i64::MAX, 0);
    assert_eq!(c.add(&quantity("kg", 1, 1)), Err(AmountError::Overflow));
    let mut d = quantity("kg", 1, 0);
    assert_eq!(d.add(&quantity("kg", 1, 40)), Err(AmountError::Overflow));
}

#[test]
fn add_aligns_decimal_places() {
    let mut a = quantity("kWh", 308, 0);
    assert_eq!(a.add(&quantity("kWh", 125, 2)), Ok(()));
    assert_eq!(a, quantity("kWh", 30925, 2));
    let mut b = quantity("kWh", 125, 2);
    assert_eq!(b.add(&quantity("kWh", -308, 0)), Ok(()));
    assert_eq!(b, quantity("kWh", -30675, 2));
    let mut zero = quantity("kWh", 0, 0);
    assert_eq!(zero.add(&quantity("kWh", 7, 4_000_000_000)), Ok(()));
    assert_eq!(zero, quantity("kWh", 7, 4_000_000_000));
}

#[test]
fn from_rounds_to_hundredths() {
    let cents = |m: i64, p: u32| Amount::from("$".to_string(), Decimal::new(m, p));
    assert_eq!(cents(5, 0), dollars(500));
    assert_eq!(cents(-125, 2), dollars(-125));
    assert_eq!(cents(15, 1), dollars(150));
    assert_eq!(cents(1005, 3), dollars(101));
    assert_eq!(cents(1004, 3), dollars(100));
    assert_eq!(cents(-1005, 3), dollars(-101));
    assert_eq!(cents(-1004, 3), dollars(-100));
    assert_eq!(cents(4, 3), dollars(0));
    assert_eq!(cents(5, 3), dollars(1));
    assert_eq!(cents(i64::MAX, 0), dollars(i64::MAX));
    assert_eq!(cents(i64::MIN, 1), dollars(i64::MIN));
    assert_eq!(cents(i64::MAX, 30), dollars(0));
    assert_eq!(cents(i64::MAX, 21), dollars(1));
    assert_eq!(cents(i64::MIN, 21), dollars(-1));
    assert_eq!(cents(i64::MAX, 22), dollars(0));
}

#[test]
fn from_keeps_other_units_exact() {
    assert_eq!(
        Amount::from("kWh".to_string(), Decimal::new(308, 0)),
        quantity("kWh", 308, 0)
    );
    assert_eq!(Amount::from("$$".to_string(), Decimal::new(1, 0)), quantity("$$", 1, 0));
    assert_eq!(Amount::from("".to_string(), Decimal::new(1, 0)), quantity("", 1, 0));
}

#[test]
fn negate_and_zero_by_representation() {
    assert!(dollars(0).is_zero());
    assert!(!dollars(-1).is_zero());
    assert!(quantity("kg", 0, 7).is_zero());
    assert!(!quantity("kg", 1, 7).is_zero());
    assert!(dollars(5).is_negatable());
    assert!(!dollars(i64::MIN).is_negatable());
    assert!(!quantity("kg", i64::MIN, 0).is_negatable());
    assert_eq!(dollars(i64::MAX).negate(), dollars(-i64::MAX));
    let copy = dollars(7).clone();
    assert_eq!(copy, dollars(7));
}

#[test]
fn scale_up_by_powers_of_ten() {
    assert_eq!(scale_up(0, 4_000_000_000), Some(0));
    assert_eq!(scale_up(3, 0), Some(3));
    assert_eq!(scale_up(-3, 2), Some(-300));
    assert_eq!(scale_up(9, 18), Some(9_000_000_000_000_000_000));
    assert_eq!(scale_up(10, 18), None);
    assert_eq!(scale_up(-9, 18), Some(-9_000_000_000_000_000_000));
    assert_eq!(scale_up(1, 19), None);
    assert_eq!(scale_up(1, 20), None);
}

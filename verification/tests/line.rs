use katana::journal::types::{
    parse_account_and_amount, parse_account_only, Line, LineAmount, LineParseError, ParsedLine,
};
use katana::types::amount::{Amount, AmountType, Decimal};
use regex::Regex;

#[test]
fn test_parse_line() {
    // blank line
    assert_eq!(Line::from_str(""), Err(LineParseError::MissingAccount));

    // blank amount
    assert_eq!(
        Line::from_str("acct:sub-acct"),
        Ok(Line { account: "acct:sub-acct".to_owned(), amount: LineAmount::Blank })
    );

    assert_eq!(
        Line::from_str("acct:sub-acct "),
        Ok(Line { account: "acct:sub-acct".to_owned(), amount: LineAmount::Blank })
    );

    assert_eq!(
        Line::from_str("acct:sub-acct             "),
        Ok(Line { account: "acct:sub-acct".to_owned(), amount: LineAmount::Blank })
    );

    // an actual amount in dollars/cents
    assert_eq!(
        Line::from_str("expenses:food:tim-hortons  $-1.25"),
        Ok(Line {
            account: "expenses:food:tim-hortons".to_owned(),
            amount: LineAmount::Amount(Amount {
                units: "$".to_owned(),
                amount: AmountType::Discrete(-125, 2)
            })
        })
    );

    // multiple whitespace between the two sides
    assert_eq!(
        Line::from_str("expenses:food:tim-hortons  \t  $-1.25"),
        Ok(Line {
            account: "expenses:food:tim-hortons".to_owned(),
            amount: LineAmount::Amount(Amount {
                units: "$".to_owned(),
                amount: AmountType::Discrete(-125, 2)
            })
        })
    );

    assert_eq!(
        Line::from_str("usage:power  \t  308 kWh"),
        Ok(Line {
            account: "usage:power".to_owned(),
            amount: LineAmount::Amount(Amount {
                units: "kWh".to_owned(),
                amount: AmountType::Float(Decimal::new(308, 0))
            })
        })
    );
}

#[test]
fn test_parse_account_amount() {
    let input = "acc123  100.5USD";
    let result = parse_account_and_amount(input);
    assert_eq!(
        result,
        ParsedLine::AccountWithAmount("acc123".to_owned(), "USD".to_owned(), Decimal::new(1005, 1))
    );
}

#[test]
fn test_parse_account_amount_needs_two_spaces_after_account() {
    let input = "acc123 100.5USD";
    let result = parse_account_and_amount(input);
    assert_eq!(result, ParsedLine::Invalid);
}

#[test]
fn test_parse_account_amount_dollar_sign_right() {
    let input = "acc123  100.5$";
    let result = parse_account_and_amount(input);
    assert_eq!(
        result,
        ParsedLine::AccountWithAmount("acc123".to_owned(), "$".to_owned(), Decimal::new(1005, 1))
    );
}

#[test]
fn test_parse_account_amount_dollar_sign_left() {
    let input = "acc123  $100.5";
    let result = parse_account_and_amount(input);
    assert_eq!(
        result,
        ParsedLine::AccountWithAmount("acc123".to_owned(), "$".to_owned(), Decimal::new(1005, 1))
    );
}

#[test]
fn test_parse_account_amount_dollar_sign_left_with_space() {
    let input = "acc123  $ 100.5";
    let result = parse_account_and_amount(input);
    assert_eq!(
        result,
        ParsedLine::AccountWithAmount("acc123".to_owned(), "$".to_owned(), Decimal::new(1005, 1))
    );
}

#[test]
fn test_parse_account_amount_kwh() {
    let input = "usage:power  308 kWh";
    let result = parse_account_and_amount(input);
    assert_eq!(
        result,
        ParsedLine::AccountWithAmount(
            "usage:power".to_owned(),
            "kWh".to_owned(),
            Decimal::new(308, 0)
        )
    );
}

#[test]
fn test_parse_account_amount_kwh_hyphen() {
    let input = "usage-power  kWh308";
    let result = parse_account_and_amount(input);
    assert_eq!(
        result,
        ParsedLine::AccountWithAmount(
            "usage-power".to_owned(),
            "kWh".to_owned(),
            Decimal::new(308, 0)
        )
    );
}

#[test]
fn account_only_lines() {
    assert_eq!(parse_account_only("acct:sub-acct"), Some("acct:sub-acct".to_string()));
    assert_eq!(parse_account_only("  \tacct:sub-acct \u{3000}"), Some("acct:sub-acct".to_string()));
    assert_eq!(parse_account_only("acct sub"), None);
    assert_eq!(parse_account_only("acct;"), None);
    assert_eq!(parse_account_only(""), None);
    assert_eq!(parse_account_only("   "), None);
    assert_eq!(parse_account_only("caf\u{e9}"), None);
}

#[test]
fn line_errors() {
    assert_eq!(Line::from_str("   \t "), Err(LineParseError::MissingAccount));
    assert_eq!(Line::from_str("acct sub"), Err(LineParseError::Unknown));
    assert_eq!(Line::from_str("acc123 100.5USD"), Err(LineParseError::Unknown));
    assert_eq!(Line::from_str("acct  12"), Err(LineParseError::Unknown));
    assert_eq!(Line::from_str("acct  $"), Err(LineParseError::Unknown));
    assert_eq!(Line::from_str("!"), Err(LineParseError::Unknown));
    // a number too large for the representation
    assert_eq!(Line::from_str("acct  $99999999999999999999"), Err(LineParseError::Unknown));
    assert_eq!(Line::from_str("acct  1e30 kg"), Err(LineParseError::Unknown));
    assert_eq!(Line::from_str("acct  1e-5000000000 kg"), Err(LineParseError::Unknown));
}

#[test]
fn numbers_are_read_exactly() {
    let read = |text: &str| match parse_account_and_amount(text) {
        ParsedLine::AccountWithAmount(_, units, d) => Some((units, d.mantissa, d.places)),
        _ => None,
    };
    assert_eq!(read("a  kg.5"), Some(("kg".to_string(), 5, 1)));
    assert_eq!(read("a  kg-0.125"), Some(("kg".to_string(), -125, 3)));
    assert_eq!(read("a  kg+7"), Some(("kg".to_string(), 7, 0)));
    assert_eq!(read("a  kg1e3"), Some(("kg".to_string(), 1000, 0)));
    assert_eq!(read("a  kg1.5e3"), Some(("kg".to_string(), 1500, 0)));
    assert_eq!(read("a  kg1.5E-3"), Some(("kg".to_string(), 15, 4)));
    assert_eq!(read("a  kg1.25e1"), Some(("kg".to_string(), 125, 1)));
    assert_eq!(read("a  kg0e99999999999999999999999"), Some(("kg".to_string(), 0, 0)));
    assert_eq!(read("a  kg12."), Some(("kg".to_string(), 12, 0)));
    assert_eq!(read("a  kg1e"), Some(("kg".to_string(), 1, 0)));
    assert_eq!(read("a  kg1e+"), Some(("kg".to_string(), 1, 0)));
    assert_eq!(read("a  kg007"), Some(("kg".to_string(), 7, 0)));
    assert_eq!(read("a  kg9223372036854775807"), Some(("kg".to_string(), i64::MAX, 0)));
    assert_eq!(read("a  kg9223372036854775808"), None);
    assert_eq!(read("a  kg-9223372036854775807"), Some(("kg".to_string(), -i64::MAX, 0)));
    // the number first: what could be an exponent begins the units where no units follow it
    assert_eq!(read("a  1e5"), Some(("e".to_string(), 1, 0)));
    assert_eq!(read("a  1e5kg"), Some(("kg".to_string(), 100000, 0)));
    assert_eq!(read("a  1e5 kg"), Some(("kg".to_string(), 100000, 0)));
    assert_eq!(read("a  1e+5"), Some(("e".to_string(), 1, 0)));
    assert_eq!(read("a  1ekg"), Some(("ekg".to_string(), 1, 0)));
    assert_eq!(read("a  12.kg"), None);
    assert_eq!(read("a  -kg"), None);
    // the first account that an amount follows is taken
    assert_eq!(
        parse_account_and_amount("one two  $3 four  $5"),
        ParsedLine::AccountWithAmount("two".to_string(), "$".to_string(), Decimal::new(3, 0))
    );
    assert_eq!(
        parse_account_and_amount("!!acct  $5 rest"),
        ParsedLine::AccountWithAmount("acct".to_string(), "$".to_string(), Decimal::new(5, 0))
    );
}

fn decimal_as_float(d: Decimal) -> f64 {
    format!("{}e-{}", d.mantissa, d.places).parse::<f64>().unwrap()
}

#[test]
fn grammar_agrees_with_the_patterns() {
    let with_amount = Regex::new(
        r"(?x)
            (?P<account>[[:alnum:]:-]+)
            (?:
                \s\s+
                (?P<units>[a-zA-Z\$]+)
                \s*
                (?P<amount>[-+]?\d*\.?\d+(?:[eE][-+]?\d+)?)
              |
                \s\s+
                (?P<amount2>[-+]?\d*\.?\d+(?:[eE][-+]?\d+)?)
                \s*
                (?P<units2>[a-zA-Z\$]+)
            )
        ",
    )
    .unwrap();
    let account_only = Regex::new(r"^\s*(?P<account>[[:alnum:]:-]+)\s*$").unwrap();

    let pieces = [
        "", "a", "acct:x-1", " ", "  ", "\t", " \t ", "$", "kg", "USD", "e", "E", "1", "12", "007",
        ".", ".5", "1.5", "-", "+", "-1", "+.25", "1e3", "1e", "e3", "1E-2", "e+", "e-1", "!", ";",
        "\u{a0}", "\u{2003}\u{2003}",
    ];
    let mut checked = 0;
    for a in pieces {
        for b in pieces {
            for c in pieces {
                for d in ["", "  $1", " kg", "2", "e5"] {
                    let input = format!("{a}{b}{c}{d}");
                    let ours = parse_account_and_amount(&input);
                    match with_amount.captures(&input) {
                        Some(caps) => {
                            let account = caps.name("account").unwrap().as_str();
                            let units = caps
                                .name("units")
                                .or_else(|| caps.name("units2"))
                                .unwrap()
                                .as_str();
                            let amount = caps
                                .name("amount")
                                .or_else(|| caps.name("amount2"))
                                .unwrap()
                                .as_str();
                            let value: f64 = amount.parse().unwrap();
                            match ours {
                                ParsedLine::AccountWithAmount(our_account, our_units, our_value) => {
                                    assert_eq!(our_account, account, "account of {input:?}");
                                    assert_eq!(our_units, units, "units of {input:?}");
                                    assert_eq!(
                                        decimal_as_float(our_value),
                                        value,
                                        "value of {input:?}"
                                    );
                                }
                                other => panic!("{input:?} read as {other:?}"),
                            }
                        }
                        None => match account_only.captures(&input) {
                            Some(caps) => assert_eq!(
                                ours,
                                ParsedLine::AccountOnly(
                                    caps.name("account").unwrap().as_str().to_string()
                                ),
                                "{input:?}"
                            ),
                            None => assert_eq!(ours, ParsedLine::Invalid, "{input:?}"),
                        },
                    }
                    checked += 1;
                }
            }
        }
    }
    assert!(checked > 100_000);
}

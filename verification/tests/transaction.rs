use katana::transaction::{Entry, Transaction};
use katana::types::amount::{Amount, AmountError, AmountType, Decimal};
use chrono::{Datelike, NaiveDate};
use katana::types::date::Date;
use regex::Regex;

#[test]
fn test_parse_transaction_from_date_and_description() {
    let expected = Some(Transaction {
        date: Date::from_ymd_opt(2023, 03, 11).unwrap(),
        description: "Meatball Sub".to_owned(),
        entries: vec![],
    });

    assert_eq!(Transaction::parse_date_and_description("2023/03/11 Meatball Sub"), expected);
    assert_eq!(Transaction::parse_date_and_description("2023/03/11    Meatball Sub"), expected);

    // transactions must be labeled
    assert_eq!(Transaction::parse_date_and_description("2023/03/11"), None);
}

fn create_entry(account: &str, units: &str, amount: AmountType) -> Entry {
    Entry { account: account.to_string(), amount: Amount { amount, units: units.to_owned() } }
}

fn description_of(line: &str) -> Option<String> {
    Transaction::parse_date_and_description(line).map(|t| t.description)
}

#[test]
fn header_lines() {
    assert_eq!(description_of("2023/03/11 a  b ; c"), Some("a  b ; c".to_string()));
    assert_eq!(description_of("2023/03/11\tx"), Some("x".to_string()));
    assert_eq!(description_of("2023/03/11 "), None);
    assert_eq!(description_of("2023/03/11  "), Some(" ".to_string()));
    assert_eq!(description_of("2023/03/11 \t"), Some("\t".to_string()));
    assert_eq!(description_of("2023/03/11x"), None);
    assert_eq!(description_of("2023/03/11 a\nb"), None);
    assert_eq!(description_of("2023/03/11 \n"), None);
    assert_eq!(description_of("2023/03/11\n a"), Some("a".to_string()));
    assert_eq!(description_of(" 2023/03/11 a"), None);
    assert_eq!(description_of("2023-03-11 a"), None);
    assert_eq!(description_of("2023/3/11 a"), None);
    assert_eq!(description_of("202a/03/11 a"), None);
    assert_eq!(description_of("2023/02/29 a"), None);
    assert_eq!(description_of("2023/13/01 a"), None);
    assert_eq!(description_of("2023/00/10 a"), None);
    assert_eq!(description_of("2024/02/29 leap"), Some("leap".to_string()));
    assert_eq!(
        Transaction::parse_date_and_description("0001/01/01 old").map(|t| t.date),
        Some(Date { year: 1, month: 1, day: 1 })
    );
    assert_eq!(Transaction::default().date, Date { year: 1970, month: 1, day: 1 });
    assert_eq!(Transaction::default().description, "");
    assert!(Transaction::default().entries.is_empty());
}

#[test]
fn header_shape_agrees_with_the_pattern() {
    let pattern = Regex::new(r"^(?P<date>\d{4}/\d{2}/\d{2})\s+(?P<description>.+)$").unwrap();
    let dates = ["2023/03/11", "2023/3/11", "2023/03/1", "20230311", "2023/03/111", "x2023/03/11"];
    let rests = [
        "", " ", "  ", "\t ", " a", "  a b ", "a", " \n", "\n", " a\nb", "\n a", " \u{a0}", "\u{2003}x",
        "  \n ", " ;", "\r", " \r",
    ];
    for d in dates {
        for r in rests {
            let line = format!("{d}{r}");
            let theirs = pattern
                .captures(&line)
                .map(|caps| caps.name("description").unwrap().as_str().to_string());
            assert_eq!(description_of(&line), theirs, "{line:?}");
        }
    }
}

#[test]
fn totals_by_unit() {
    let t = Transaction {
        entries: vec![
            create_entry("a", "$", AmountType::Discrete(100, 2)),
            create_entry("b", "kWh", AmountType::Float(Decimal::new(15, 1))),
            create_entry("c", "$", AmountType::Discrete(-250, 2)),
            create_entry("d", "kWh", AmountType::Float(Decimal::new(2, 0))),
        ],
        ..Default::default()
    };
    assert_eq!(
        t.totals(),
        Ok(vec![
            Amount { units: "$".to_string(), amount: AmountType::Discrete(-150, 2) },
            Amount { units: "kWh".to_string(), amount: AmountType::Float(Decimal::new(35, 1)) },
        ])
    );
    assert_eq!(Transaction::default().totals(), Ok(vec![]));
}

#[test]
fn totals_fail_on_the_first_mismatch() {
    let t = Transaction {
        entries: vec![
            create_entry("a", "$", AmountType::Discrete(100, 2)),
            create_entry("b", "$", AmountType::Discrete(100, 3)),
            create_entry("c", "$", AmountType::Float(Decimal::new(1, 0))),
        ],
        ..Default::default()
    };
    assert_eq!(t.totals(), Err(AmountError::DecimalPlacesMismatch));
    let u = Transaction {
        entries: vec![
            create_entry("a", "$", AmountType::Discrete(i64::MAX, 2)),
            create_entry("b", "kg", AmountType::Discrete(1, 2)),
            create_entry("c", "$", AmountType::Discrete(1, 2)),
        ],
        ..Default::default()
    };
    assert_eq!(u.totals(), Err(AmountError::Overflow));
}

#[test]
fn header_dates_agree_with_chrono() {
    let dates = [
        "2023/03/11", "0000/01/01", "0001/12/31", "9999/12/31", "2023/02/29", "2024/02/29",
        "0100/02/29", "0400/02/29", "2023/04/31", "2023/00/01", "2023/13/01", "2023/01/00",
        "2023/01/32", "1970/01/01", "2023/06/30", "2023/11/31",
    ];
    for text in dates {
        let theirs = NaiveDate::parse_from_str(text, "%Y/%m/%d")
            .ok()
            .map(|d| Date { year: d.year(), month: d.month(), day: d.day() });
        let ours =
            Transaction::parse_date_and_description(&format!("{text} x")).map(|t| t.date);
        assert_eq!(ours, theirs, "{text}");
    }
}

use katana::journal::types::{Line, LineAmount};
use katana::journal::{
    balance_transaction, finalize_transaction, process_line, split_off_comment, trim_line, Journal,
    JournalSummary, ParseFailure, ParseJournalError,
};
use katana::transaction::{Entry, Transaction};
use katana::types::amount::{Amount, AmountError, AmountType, Decimal};
use katana::types::date::Date;
use katana::types::monthyear::MonthYear;

fn lines_of(text: &str) -> Vec<String> {
    text.lines().map(|l| l.to_string()).collect()
}

fn dollars(account: &str, cents: i64) -> Entry {
    Entry {
        account: account.to_string(),
        amount: Amount { amount: AmountType::Discrete(cents, 2), units: "$".to_owned() },
    }
}

fn blank_line(account: &str) -> Line {
    Line { account: account.to_string(), amount: LineAmount::Blank }
}

#[test]
fn test_journal_from_lines() {
    let journal = r#"
2023/03/17 Ham Sub
    assets:savings  $-12.46
    expenses:tips  $1.62
    expenses:food:subway  $10.84

2023/03/17 HelloFresh
    expenses:food:hello-fresh           $82.99
    credit:visa
"#;
    let journal = Journal::from_lines(&lines_of(journal)).unwrap();
    assert_eq!(journal.transactions.len(), 2);
}

#[test]
fn test_journal_from_lines_backwards() {
    let journal = r#"
2023/03/17 HelloFresh
    expenses:food:hello-fresh           $82.99
    credit:visa

2023/03/17 Ham Sub
    assets:savings  $-12.46
    expenses:tips  $1.62
    expenses:food:subway  $10.84
"#;
    let journal = Journal::from_lines(&lines_of(journal)).unwrap();
    assert_eq!(journal.transactions.len(), 2);
}

#[test]
fn test_journal_from_lines_no_leading_whitespace() {
    let journal = r#"
2023/03/17 HelloFresh
expenses:food:hello-fresh           $82.99
    credit:visa                         $-82.98
"#;
    assert_eq!(
        Journal::from_lines(&lines_of(journal)),
        Err(ParseJournalError::EntryLineMustStartWithSpace)
    );
}

#[test]
fn journal_from_lines_unbalanced_is_refused() {
    let journal = r#"
2023/03/17 HelloFresh
    expenses:food:hello-fresh           $82.99
    credit:visa                         $-82.98
"#;
    assert_eq!(
        Journal::from_lines(&lines_of(journal)),
        Err(ParseJournalError::UnbalancedTransaction)
    );
}

#[test]
fn journal_from_lines_two_blanks_is_refused() {
    let journal = r#"
2023/03/17 HelloFresh
    expenses:food:hello-fresh
    credit:visa
"#;
    assert_eq!(Journal::from_lines(&lines_of(journal)), Err(ParseJournalError::TwoBlankAmounts));
    let balanced = r#"
2023/03/17 HelloFresh
    expenses:food:hello-fresh  $5
    credit:visa  $-5
    a
    b
"#;
    assert_eq!(Journal::from_lines(&lines_of(balanced)), Err(ParseJournalError::TwoBlankAmounts));
}

#[test]
fn journal_from_lines_amount_outside_transaction_is_refused() {
    let journal = r#"
    expenses:food:hello-fresh  $89.99

2023/03/17 HelloFresh
    expenses:food:hello-fresh  $89.99
    credit:visa
"#;
    assert_eq!(
        Journal::from_lines(&lines_of(journal)),
        Err(ParseJournalError::EntryOutsideTransaction)
    );
}

#[test]
fn test_split_off_comment() {
    assert_eq!(split_off_comment("  ;comment"), ("  ".to_string(), Some("comment".to_string())));
    assert_eq!(split_off_comment(";comment"), ("".to_string(), Some("comment".to_string())));
    assert_eq!(split_off_comment("test;"), ("test".to_string(), Some("".to_string())));
    assert_eq!(split_off_comment("test; "), ("test".to_string(), Some(" ".to_string())));
    assert_eq!(split_off_comment(";"), ("".to_string(), Some("".to_string())));
    assert_eq!(split_off_comment("no comment"), ("no comment".to_string(), None));
    assert_eq!(split_off_comment(" "), (" ".to_string(), None));
    assert_eq!(split_off_comment(""), ("".to_string(), None));
}

#[test]
fn split_off_comment_takes_the_first_semicolon() {
    assert_eq!(split_off_comment("a;b;c"), ("a".to_string(), Some("b;c".to_string())));
    assert_eq!(split_off_comment("é;ü"), ("é".to_string(), Some("ü".to_string())));
}

#[test]
fn trim_line_agrees_with_trim() {
    for text in ["", " ", "a", " a", "a ", "  a b  ", "\t\u{a0}x\u{3000}\n", " \u{2003}", "é "] {
        assert_eq!(trim_line(text), text.trim(), "{text:?}");
    }
}

#[test]
fn process_line_no_transaction_is_refused() {
    let line = blank_line("TestAccount");
    let mut transaction: Option<Transaction> = None;
    let mut blank: Option<Line> = None;

    assert_eq!(
        process_line(line, &mut transaction, &mut blank),
        Err(ParseJournalError::EntryOutsideTransaction)
    );
    assert_eq!(transaction, None);
    assert_eq!(blank, None);
}

#[test]
fn process_line_two_blank_amounts_is_refused() {
    let line = blank_line("TestAccount");
    let mut transaction = Some(Transaction::default());
    // clone the blank transaction line so we have two blank transactions
    let mut blank = Some(line.clone());

    assert_eq!(
        process_line(line, &mut transaction, &mut blank),
        Err(ParseJournalError::TwoBlankAmounts)
    );
    assert_eq!(blank, Some(blank_line("TestAccount")));
    assert_eq!(transaction, Some(Transaction::default()));
}

#[test]
fn test_process_line_blank_amount() {
    let line = blank_line("TestAccount");
    let mut transaction = Some(Transaction::default());
    let mut blank: Option<Line> = None;

    process_line(line.clone(), &mut transaction, &mut blank).unwrap();
    assert_eq!(blank.unwrap().account, line.account);
}

#[test]
fn test_process_line_regular_amount() {
    let line = Line {
        account: "TestAccount".to_string(),
        amount: LineAmount::Amount(Amount {
            amount: AmountType::Discrete(125, 2),
            units: "$".to_owned(),
        }), // $1.25
    };
    let mut transaction = Some(Transaction::default());
    let mut blank: Option<Line> = None;

    process_line(line.clone(), &mut transaction, &mut blank).unwrap();

    let entry = transaction.unwrap().entries.pop().unwrap();
    assert_eq!(entry.account, line.account);
    assert_eq!(entry, dollars("TestAccount", 125));
    assert_eq!(blank, None);
}

#[test]
fn test_move_transaction_blank_line() {
    let line = blank_line("TestAccount");
    let mut transaction = Some(Transaction {
        entries: vec![dollars("Account1", 100), dollars("Account2", -200)],
        ..Default::default()
    });
    let mut blank = Some(line);
    let mut journal: Vec<Transaction> = Vec::new();

    finalize_transaction(&mut transaction, &mut blank, &mut journal).unwrap();

    assert_eq!(journal.len(), 1);
    let journal_entry = &journal[0];
    assert_eq!(journal_entry.entries.len(), 3);
    assert_eq!(journal_entry.entries[2], dollars("TestAccount", 100));
    assert_eq!(transaction, None);
    assert_eq!(blank, None);
}

#[test]
fn test_move_transaction_no_blank_line() {
    let mut transaction = Some(Transaction {
        entries: vec![dollars("Account1", 100), dollars("Account2", -100)],
        ..Default::default()
    });
    let mut blank: Option<Line> = None;
    let mut journal: Vec<Transaction> = Vec::new();

    finalize_transaction(&mut transaction, &mut blank, &mut journal).unwrap();

    assert_eq!(journal.len(), 1);
    let journal_entry = &journal[0];
    assert_eq!(journal_entry.entries.len(), 2);
}

#[test]
fn move_transaction_unbalanced_transaction_is_refused() {
    let mut transaction = Some(Transaction {
        entries: vec![dollars("Account1", 100), dollars("Account2", -200)],
        description: "Description".to_string(),
        ..Default::default()
    });
    let mut blank: Option<Line> = None;
    let mut journal: Vec<Transaction> = Vec::new();

    assert_eq!(
        finalize_transaction(&mut transaction, &mut blank, &mut journal),
        Err(ParseJournalError::UnbalancedTransaction)
    );
    assert!(journal.is_empty());
    assert_eq!(transaction.unwrap().entries.len(), 2);
}

#[test]
fn finalize_without_transaction_does_nothing() {
    let mut transaction: Option<Transaction> = None;
    let mut blank: Option<Line> = None;
    let mut journal: Vec<Transaction> = Vec::new();
    assert_eq!(finalize_transaction(&mut transaction, &mut blank, &mut journal), Ok(()));
    assert!(journal.is_empty());
}

fn kwh(account: &str, mantissa: i64, places: u32) -> Entry {
    Entry {
        account: account.to_string(),
        amount: Amount {
            amount: AmountType::Float(Decimal::new(mantissa, places)),
            units: "kWh".to_owned(),
        },
    }
}

#[test]
fn blank_takes_the_opposite_of_the_one_unbalanced_unit() {
    let mut t = Transaction {
        entries: vec![kwh("meter", 308, 0), dollars("a", 500), dollars("b", -500), kwh("meter", 5, 1)],
        ..Default::default()
    };
    let mut blank = Some(blank_line("grid"));
    assert_eq!(balance_transaction(&mut blank, &mut t), Ok(()));
    assert_eq!(blank, None);
    assert_eq!(t.entries.len(), 5);
    assert_eq!(t.entries[4], kwh("grid", -3085, 1));
}

#[test]
fn blank_with_two_unbalanced_units_is_refused() {
    let mut t = Transaction {
        entries: vec![kwh("meter", 308, 0), dollars("a", 500)],
        ..Default::default()
    };
    let mut blank = Some(blank_line("grid"));
    assert_eq!(
        balance_transaction(&mut blank, &mut t),
        Err(ParseJournalError::BlankWithSeveralUnbalanced)
    );
    assert_eq!(blank, Some(blank_line("grid")));
    assert_eq!(t.entries.len(), 2);
}

#[test]
fn blank_with_nothing_to_balance_is_refused() {
    let mut t = Transaction {
        entries: vec![dollars("a", 500), dollars("b", -500)],
        ..Default::default()
    };
    let mut blank = Some(blank_line("c"));
    assert_eq!(
        balance_transaction(&mut blank, &mut t),
        Err(ParseJournalError::BlankWithNothingToBalance)
    );
    let mut empty = Transaction::default();
    assert_eq!(
        balance_transaction(&mut blank, &mut empty),
        Err(ParseJournalError::BlankWithNothingToBalance)
    );
    let mut none: Option<Line> = None;
    assert_eq!(balance_transaction(&mut none, &mut empty), Ok(()));
}

#[test]
fn arithmetic_failures_are_refused() {
    let mut t = Transaction {
        entries: vec![dollars("a", i64::MAX), dollars("b", 1)],
        ..Default::default()
    };
    let mut blank: Option<Line> = None;
    assert_eq!(
        balance_transaction(&mut blank, &mut t),
        Err(ParseJournalError::Arithmetic(AmountError::Overflow))
    );
    let mut u = Transaction { entries: vec![dollars("a", i64::MIN)], ..Default::default() };
    let mut line = Some(blank_line("c"));
    assert_eq!(
        balance_transaction(&mut line, &mut u),
        Err(ParseJournalError::Arithmetic(AmountError::Overflow))
    );
    let mut v = Transaction {
        entries: vec![dollars("a", 1), kwh("b", 1, 0)],
        ..Default::default()
    };
    v.entries[1].amount.units = "$".to_string();
    assert_eq!(
        balance_transaction(&mut blank, &mut v),
        Err(ParseJournalError::Arithmetic(AmountError::RepresentationMismatch))
    );
}

#[test]
fn round_trip_sums_to_zero() {
    let text = "2023/03/17 Ham Sub\n  assets:savings  $-12.46\n  expenses:tips  $1.62\n  expenses:food:subway  $10.84\n";
    let journal = Journal::from_lines(&lines_of(text)).unwrap();
    assert_eq!(journal.transactions.len(), 1);
    let t = &journal.transactions[0];
    assert_eq!(t.date, Date { year: 2023, month: 3, day: 17 });
    assert_eq!(t.description, "Ham Sub");
    assert_eq!(
        t.entries,
        vec![
            dollars("assets:savings", -1246),
            dollars("expenses:tips", 162),
            dollars("expenses:food:subway", 1084)
        ]
    );
    assert_eq!(
        t.totals(),
        Ok(vec![Amount { units: "$".to_string(), amount: AmountType::Discrete(0, 2) }])
    );
}

#[test]
fn every_parsed_transaction_nets_to_zero() {
    let text = r#"
; a journal
2023/03/15 Sandwich ; lunch
    assets:savings                     $-6.76
    assets:cash                           $-1
    expenses:tips                          $1
    expenses:food:tim-hortons

2023/04/01 Power
    usage:power  308 kWh   ; the meter
    usage:power  12.5 kWh
    utility

2023/04/02 Nothing
"#;
    let journal = Journal::from_lines(&lines_of(text)).unwrap();
    assert_eq!(journal.transactions.len(), 3);
    assert_eq!(journal.transactions[0].description, "Sandwich ");
    assert_eq!(journal.transactions[0].entries[3], dollars("expenses:food:tim-hortons", 676));
    assert_eq!(journal.transactions[1].entries[2], kwh("utility", -3205, 1));
    assert!(journal.transactions[2].entries.is_empty());
    for t in &journal.transactions {
        for total in t.totals().unwrap() {
            assert!(total.is_zero());
        }
    }
    assert!(journal.is_sorted_by_month());
    assert!(journal.has_valid_dates());
    assert_eq!(
        JournalSummary::from(&journal),
        Some(JournalSummary {
            first_month: MonthYear::new(3, 2023),
            final_month: MonthYear::new(4, 2023)
        })
    );
}

#[test]
fn unindented_line_fails_between_valid_transactions() {
    let text = r#"
2023/03/17 One
    a  $1
    b  $-1
c  $5
2023/03/18 Two
    a  $1
    b  $-1
"#;
    assert_eq!(
        Journal::from_lines(&lines_of(text)),
        Err(ParseJournalError::EntryLineMustStartWithSpace)
    );
    assert_eq!(
        Journal::from_lines(&lines_of("2023/02/30 no such day")),
        Err(ParseJournalError::EntryLineMustStartWithSpace)
    );
}

#[test]
fn unrecognized_lines_are_refused() {
    assert_eq!(
        Journal::from_lines(&lines_of("2023/03/17 One\n    a b\n")),
        Err(ParseJournalError::UnrecognizedLine)
    );
    assert_eq!(
        Journal::from_lines(&lines_of("2023/03/17 One\n    a  12\n")),
        Err(ParseJournalError::UnrecognizedLine)
    );
}

#[test]
fn blank_errors_through_the_parser() {
    assert_eq!(
        Journal::from_lines(&lines_of("2023/03/17 One\n a  $1\n b  $-1\n c\n")),
        Err(ParseJournalError::BlankWithNothingToBalance)
    );
    assert_eq!(
        Journal::from_lines(&lines_of("2023/03/17 One\n a  $1\n b  2 kg\n c\n")),
        Err(ParseJournalError::BlankWithSeveralUnbalanced)
    );
    assert_eq!(
        Journal::from_lines(&lines_of("2023/03/17 One\n a  $1\n2023/03/18 Two\n")),
        Err(ParseJournalError::UnbalancedTransaction)
    );
    assert_eq!(Journal::from_lines(&lines_of("")), Ok(Journal { transactions: vec![] }));
    assert_eq!(Journal::from_lines(&lines_of("\n ; nothing\n\n")), Ok(Journal { transactions: vec![] }));
}

#[test]
fn overflow_through_the_parser() {
    let text = "2023/03/17 One\n a  $92233720368547758.07\n a  $0.01\n";
    assert_eq!(
        Journal::from_lines(&lines_of(text)),
        Err(ParseJournalError::Arithmetic(AmountError::Overflow))
    );
}

#[test]
fn messages() {
    assert_eq!(
        ParseJournalError::EntryLineMustStartWithSpace.message(),
        "First character of a debit/credit line must be a space or tab"
    );
    assert_eq!(ParseJournalError::TwoBlankAmounts.message(), "Two blank amounts in one transaction");
    assert_eq!(
        ParseJournalError::Arithmetic(AmountError::UnitsMismatch).message(),
        "Cannot add two amounts with different units"
    );
}

#[test]
fn summaries_and_order() {
    let dated = |y: i32, m: u32, d: u32| Transaction {
        date: Date { year: y, month: m, day: d },
        ..Default::default()
    };
    let journal = Journal { transactions: vec![dated(2022, 11, 5), dated(2021, 12, 1), dated(2023, 1, 9)] };
    assert!(!journal.is_sorted_by_month());
    assert_eq!(
        JournalSummary::from(&journal),
        Some(JournalSummary {
            first_month: MonthYear::new(12, 2021),
            final_month: MonthYear::new(1, 2023)
        })
    );
    assert_eq!(JournalSummary::from(&Journal { transactions: vec![] }), None);
    assert!(Journal { transactions: vec![] }.is_sorted_by_month());
    assert!(Journal { transactions: vec![dated(2022, 1, 31), dated(2022, 1, 1)] }.is_sorted_by_month());
    assert!(!Journal { transactions: vec![dated(2022, 2, 30)] }.has_valid_dates());
    assert!(!Journal { transactions: vec![dated(-1, 2, 3)] }.has_valid_dates());
    assert!(Journal { transactions: vec![dated(0, 2, 3)] }.has_valid_dates());
}

#[test]
fn failures_name_their_line_and_transaction() {
    let text = "2023/03/17 One\n a  $1\n b  $-1\n2023/03/18 Two\n a  $2\nc  $5\n b\n";
    assert_eq!(
        Journal::parse_lines(&lines_of(text)),
        Err(ParseFailure {
            error: ParseJournalError::EntryLineMustStartWithSpace,
            line: 5,
            transaction: Some(Transaction {
                date: Date { year: 2023, month: 3, day: 18 },
                description: "Two".to_string(),
                entries: vec![dollars("a", 200)],
            }),
        })
    );
    // an unbalanced transaction is found at the header that follows it
    let unbalanced = "2023/03/17 One\n a  $1\n b  $-2\n\n2023/03/18 Two\n";
    assert_eq!(
        Journal::parse_lines(&lines_of(unbalanced)),
        Err(ParseFailure {
            error: ParseJournalError::UnbalancedTransaction,
            line: 4,
            transaction: Some(Transaction {
                date: Date { year: 2023, month: 3, day: 17 },
                description: "One".to_string(),
                entries: vec![dollars("a", 100), dollars("b", -200)],
            }),
        })
    );
    // or at the end of the text
    let last = "2023/03/17 One\n a  $1\n";
    let failure = Journal::parse_lines(&lines_of(last)).unwrap_err();
    assert_eq!(failure.error, ParseJournalError::UnbalancedTransaction);
    assert_eq!(failure.line, 2);
    assert_eq!(
        Journal::parse_lines(&lines_of(" a  $1\n")),
        Err(ParseFailure {
            error: ParseJournalError::EntryOutsideTransaction,
            line: 0,
            transaction: None
        })
    );
    assert_eq!(
        Journal::parse_lines(&lines_of("2023/03/17 One\n a  $1\n b  $-1\n")).map(|j| j.transactions.len()),
        Ok(1)
    );
}

use budjet_import::date::{parse_date, Date, DateErrorKind};
use budjet_import::decimal::{decimal_text, parse_amount};
use budjet_import::text::{characters, split_fields, string_of, trim};
use budjet_import::transaction::{build_transaction, parse_transaction, LineParseError};

const GROCERIES: &str = "01/02/2023\tGroceries\t\t\t\t\t\t\t\t\t\t12,50\t\t";

fn line(date: &str, category: &str, description: &str, expense: &str, income: &str) -> String {
    format!("{date}\t{category}\t\t\t{description}\t\t\t\t\t\t\t{expense}\t{income}")
}

#[test]
fn groceries_line_round_trip() {
    let transaction = parse_transaction(GROCERIES, 1).unwrap();
    assert_eq!(transaction.id, 1);
    assert_eq!(transaction.date, Date { year: 2023, month: 2, day: 1 });
    assert_eq!(transaction.category, "Groceries");
    assert_eq!(transaction.description, "");
    assert_eq!(transaction.expense, Some(1250));
    assert_eq!(transaction.income, None);
    assert_eq!(transaction.category_id, None);
    assert_eq!(transaction.amount(), -1250);
    assert_eq!(decimal_text(transaction.amount()), "-1250");
}

#[test]
fn fields_are_taken_from_their_positions() {
    let raw = "31/12/1999\t  Rent \tx\ty\t landlord \ta\tb\tc\td\te\tf\t\t1000.5\tignored";
    let transaction = parse_transaction(raw, 42).unwrap();
    assert_eq!(transaction.id, 42);
    assert_eq!(transaction.date, Date { year: 1999, month: 12, day: 31 });
    assert_eq!(transaction.category, "Rent");
    assert_eq!(transaction.description, " landlord ");
    assert_eq!(transaction.expense, None);
    assert_eq!(transaction.income, Some(100050));
    assert_eq!(transaction.amount(), 100050);
}

#[test]
fn expense_is_negative_and_income_positive() {
    let spent = parse_transaction(&line("05/06/2021", "Food", "lunch", "7,05", ""), 1).unwrap();
    assert!(spent.has_single_amount());
    assert_eq!(spent.amount(), -705);
    let earned = parse_transaction(&line("05/06/2021", "Pay", "wage", "", "2000"), 2).unwrap();
    assert!(earned.has_single_amount());
    assert_eq!(earned.amount(), 200000);
}

#[test]
fn amounts_that_are_no_numbers_count_as_absent() {
    let none = parse_transaction(&line("05/06/2021", "Food", "", "n/a", ""), 1).unwrap();
    assert_eq!(none.expense, None);
    assert_eq!(none.income, None);
    assert!(!none.has_single_amount());
    let both = parse_transaction(&line("05/06/2021", "Food", "", "1", "2"), 1).unwrap();
    assert_eq!(both.expense, Some(100));
    assert_eq!(both.income, Some(200));
    assert!(!both.has_single_amount());
}

#[test]
fn unreadable_date_is_a_date_error() {
    let error = parse_transaction(&line("2023-02-01", "Food", "", "1", ""), 1).unwrap_err();
    assert_eq!(error, LineParseError::Date(DateErrorKind::Invalid));
    let error = parse_transaction(&line("31/02/2023", "Food", "", "1", ""), 1).unwrap_err();
    assert_eq!(error, LineParseError::Date(DateErrorKind::OutOfRange));
}

#[test]
fn short_line_with_readable_date_has_too_few_fields() {
    let error = parse_transaction("01/02/2023\tGroceries\t\t\t\t\t\t\t\t\t\t12,50", 1).unwrap_err();
    assert_eq!(error, LineParseError::TooFewFields);
    let error = parse_transaction("01/02/2023", 1).unwrap_err();
    assert_eq!(error, LineParseError::TooFewFields);
}

#[test]
fn short_line_with_unreadable_date_fails_on_the_date() {
    assert_eq!(
        parse_transaction("", 1).unwrap_err(),
        LineParseError::Date(DateErrorKind::TooShort)
    );
    assert_eq!(
        parse_transaction("yesterday\tFood", 1).unwrap_err(),
        LineParseError::Date(DateErrorKind::Invalid)
    );
}

#[test]
fn thirteen_fields_are_enough() {
    let raw = "01/02/2023\tA\t\t\t\t\t\t\t\t\t\t1\t";
    assert_eq!(split_fields(raw).len(), 13);
    assert!(parse_transaction(raw, 1).is_ok());
}

#[test]
fn build_transaction_takes_the_date_it_is_given() {
    let parts = split_fields(GROCERIES);
    let date = Date { year: 1, month: 1, day: 1 };
    let built = build_transaction(&parts, Ok(date), 9).unwrap();
    assert_eq!(built.date, date);
    assert_eq!(built.id, 9);
    assert_eq!(built.expense, Some(1250));
    let failed = build_transaction(&parts, Err(DateErrorKind::TooLong), 9).unwrap_err();
    assert_eq!(failed, LineParseError::Date(DateErrorKind::TooLong));
    let few = vec![String::from("a"), String::from("b")];
    assert_eq!(
        build_transaction(&few, Ok(date), 9).unwrap_err(),
        LineParseError::TooFewFields
    );
    assert_eq!(
        build_transaction(&few, Err(DateErrorKind::Invalid), 9).unwrap_err(),
        LineParseError::Date(DateErrorKind::Invalid)
    );
}

#[test]
fn amounts_are_read_in_hundredths() {
    assert_eq!(parse_amount("12,50"), Some(1250));
    assert_eq!(parse_amount("12.50"), Some(1250));
    assert_eq!(parse_amount("12"), Some(1200));
    assert_eq!(parse_amount("12,5"), Some(1250));
    assert_eq!(parse_amount("0,07"), Some(7));
    assert_eq!(parse_amount("0"), Some(0));
    assert_eq!(parse_amount("007"), Some(700));
    assert_eq!(parse_amount(",5"), Some(50));
    assert_eq!(parse_amount("5,"), Some(500));
}

#[test]
fn places_after_the_second_are_cut_off() {
    assert_eq!(parse_amount("12,505"), Some(1250));
    assert_eq!(parse_amount("12,509999"), Some(1250));
    assert_eq!(parse_amount("0,999"), Some(99));
}

#[test]
fn what_is_no_decimal_number_is_no_amount() {
    assert_eq!(parse_amount(""), None);
    assert_eq!(parse_amount(","), None);
    assert_eq!(parse_amount("."), None);
    assert_eq!(parse_amount("abc"), None);
    assert_eq!(parse_amount("12a"), None);
    assert_eq!(parse_amount("1,2,3"), None);
    assert_eq!(parse_amount("1.2,3"), None);
    assert_eq!(parse_amount("1,2x"), None);
    assert_eq!(parse_amount(" 12"), None);
    assert_eq!(parse_amount("12 "), None);
    assert_eq!(parse_amount("-5"), None);
    assert_eq!(parse_amount("+5"), None);
    assert_eq!(parse_amount("1e3"), None);
    assert_eq!(parse_amount("inf"), None);
    assert_eq!(parse_amount("NaN"), None);
    assert_eq!(parse_amount("１２"), None);
}

#[test]
fn amounts_stop_at_sixty_four_bits() {
    assert_eq!(parse_amount("184467440737095516,15"), Some(u64::MAX));
    assert_eq!(parse_amount("184467440737095516,16"), None);
    assert_eq!(parse_amount("184467440737095517"), None);
    assert_eq!(parse_amount("99999999999999999999999999999999999999999999"), None);
    assert_eq!(parse_amount("000000000000000000000000000000000000000001,00"), Some(100));
}

#[test]
fn integers_are_written_in_base_ten() {
    assert_eq!(decimal_text(0), "0");
    assert_eq!(decimal_text(7), "7");
    assert_eq!(decimal_text(10), "10");
    assert_eq!(decimal_text(-1), "-1");
    assert_eq!(decimal_text(-1250), "-1250");
    assert_eq!(decimal_text(1234567890), "1234567890");
    assert_eq!(decimal_text(-(u64::MAX as i128)), "-18446744073709551615");
    assert_eq!(decimal_text(i128::MAX), i128::MAX.to_string());
    assert_eq!(decimal_text(i128::MIN), i128::MIN.to_string());
}

#[test]
fn dates_are_read_as_day_month_year() {
    assert_eq!(parse_date("01/02/2023"), Ok(Date { year: 2023, month: 2, day: 1 }));
    assert_eq!(parse_date("1/2/2023"), Ok(Date { year: 2023, month: 2, day: 1 }));
    assert_eq!(parse_date("29/02/2024"), Ok(Date { year: 2024, month: 2, day: 29 }));
    assert_eq!(parse_date("29/02/2023"), Err(DateErrorKind::OutOfRange));
    assert_eq!(parse_date("00/01/2023"), Err(DateErrorKind::OutOfRange));
    assert_eq!(parse_date("01/13/2023"), Err(DateErrorKind::OutOfRange));
    assert_eq!(parse_date("01/02"), Err(DateErrorKind::TooShort));
    assert_eq!(parse_date("01/02/2023 "), Err(DateErrorKind::TooLong));
    assert_eq!(parse_date("01-02-2023"), Err(DateErrorKind::Invalid));
    assert_eq!(parse_date(""), Err(DateErrorKind::TooShort));
}

#[test]
fn dates_are_written_as_year_month_day() {
    assert_eq!(Date { year: 2023, month: 2, day: 1 }.iso_text(), "2023-02-01");
    assert_eq!(Date { year: 1999, month: 12, day: 31 }.iso_text(), "1999-12-31");
    assert_eq!(Date { year: 5, month: 10, day: 9 }.iso_text(), "0005-10-09");
    assert_eq!(Date { year: 0, month: 1, day: 1 }.iso_text(), "0000-01-01");
    assert_eq!(Date { year: 9999, month: 1, day: 1 }.iso_text(), "9999-01-01");
    assert_eq!(Date { year: 10000, month: 1, day: 1 }.iso_text(), "+10000-01-01");
    assert_eq!(Date { year: -1, month: 1, day: 1 }.iso_text(), "-0001-01-01");
    assert_eq!(Date { year: -262143, month: 1, day: 1 }.iso_text(), "-262143-01-01");
    assert_eq!(Date { year: 262142, month: 12, day: 31 }.iso_text(), "+262142-12-31");
}

#[test]
fn a_date_that_was_read_is_written_back() {
    let date = parse_date("7/3/1987").unwrap();
    assert_eq!(date.iso_text(), "1987-03-07");
}

#[test]
fn lines_are_split_on_tabs() {
    assert_eq!(split_fields(""), vec![String::new()]);
    assert_eq!(split_fields("a"), vec![String::from("a")]);
    assert_eq!(split_fields("a\tb"), vec![String::from("a"), String::from("b")]);
    assert_eq!(split_fields("\t"), vec![String::new(), String::new()]);
    assert_eq!(
        split_fields("a\t\tb\t"),
        vec![String::from("a"), String::new(), String::from("b"), String::new()]
    );
    assert_eq!(split_fields("é è\tü"), vec![String::from("é è"), String::from("ü")]);
    assert_eq!(split_fields(GROCERIES).len(), 14);
    assert_eq!(split_fields(GROCERIES).join("\t"), GROCERIES);
}

#[test]
fn trimming_removes_white_space_at_both_ends_only() {
    assert_eq!(trim(""), "");
    assert_eq!(trim("   "), "");
    assert_eq!(trim("a"), "a");
    assert_eq!(trim("  a b  "), "a b");
    assert_eq!(trim("\n\ta\r\n"), "a");
    assert_eq!(trim("\u{a0}Épicerie\u{2003}"), "Épicerie");
    assert_eq!(trim(" Transfert "), "Transfert");
    assert_eq!(trim("  Food  "), trim("Food"));
}

#[test]
fn characters_and_back() {
    let chars = characters("aé\tz");
    assert_eq!(chars, vec!['a', 'é', '\t', 'z']);
    assert_eq!(string_of(&chars, 0, 4), "aé\tz");
    assert_eq!(string_of(&chars, 1, 2), "é");
    assert_eq!(string_of(&chars, 2, 2), "");
}

#[test]
fn only_days_of_the_calendar_are_dates() {
    assert_eq!(Date::new(2023, 2, 1), Some(Date { year: 2023, month: 2, day: 1 }));
    assert_eq!(Date::new(2024, 2, 29), Some(Date { year: 2024, month: 2, day: 29 }));
    assert_eq!(Date::new(2000, 2, 29), Some(Date { year: 2000, month: 2, day: 29 }));
    assert_eq!(Date::new(-4, 2, 29), Some(Date { year: -4, month: 2, day: 29 }));
    assert_eq!(Date::new(1900, 2, 29), None);
    assert_eq!(Date::new(2023, 2, 29), None);
    assert_eq!(Date::new(2023, 4, 31), None);
    assert_eq!(Date::new(2023, 0, 1), None);
    assert_eq!(Date::new(2023, 13, 1), None);
    assert_eq!(Date::new(2023, 1, 0), None);
    assert_eq!(Date::new(2023, 1, 32), None);
    assert_eq!(Date::new(262143, 1, 1), None);
    assert_eq!(Date::new(-262144, 1, 1), None);
    assert!(Date::new(262142, 12, 31).is_some());
    assert!(Date::new(-262143, 1, 1).is_some());
}

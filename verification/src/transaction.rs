//! One movement of a statement: how a line is read into a transaction, what
//! its signed amount is, and the row it becomes in the export.

use crate::date::{date_from_text, day_month_year, iso_date, parse_date, Date, DateErrorKind};
use crate::decimal::{amount_of, decimal_text, parse_amount, signed_decimal};
use crate::json::{member_values, Json, JsonValue};
use crate::text::{fields, lemma_fields_rejoin, split_fields, trim, trimmed};
use vstd::prelude::*;

verus! {

/// The field that holds the date.
pub const DATE: usize = 0;

/// The field that holds the category.
pub const CATEGORY: usize = 1;

/// The field that holds the description.
pub const DESCRIPTION: usize = 4;

/// The field that holds the amount of a debit.
pub const EXPENSE: usize = 11;

/// The field that holds the amount of a credit.
pub const INCOME: usize = 12;

/// The number of fields that a line must have at least.
pub const FIELD_COUNT: usize = 13;

/// One movement of the statement. Amounts are in hundredths.
#[derive(Debug)]
pub struct Transaction {
    pub id: u32,
    pub date: Date,
    pub expense: Option<u64>,
    pub income: Option<u64>,
    pub description: String,
    pub category: String,
    pub category_id: Option<u32>,
}

/// The mathematical value of a [`Transaction`].
pub struct TransactionView {
    pub id: u32,
    pub date: Date,
    pub expense: Option<u64>,
    pub income: Option<u64>,
    pub description: Seq<char>,
    pub category: Seq<char>,
    pub category_id: Option<u32>,
}

/// Why a line was not taken into the statement.
#[derive(Clone, Copy, Debug, PartialEq, Eq, Structural)]
pub enum LineParseError {
    /// The date field could not be read.
    Date(DateErrorKind),
    /// The date could be read, but the line has fewer than [`FIELD_COUNT`]
    /// fields.
    TooFewFields,
}

impl View for Transaction {
    type V = TransactionView;

    open spec fn view(&self) -> TransactionView {
        TransactionView {
            id: self.id,
            date: self.date,
            expense: self.expense,
            income: self.income,
            description: self.description@,
            category: self.category@,
            category_id: self.category_id,
        }
    }
}

impl DeepView for Transaction {
    type V = TransactionView;

    open spec fn deep_view(&self) -> TransactionView {
        self@
    }
}

impl TransactionView {
    /// Whether exactly one of expense and income is present.
    pub open spec fn has_single_amount(self) -> bool {
        (self.expense is Some) != (self.income is Some)
    }

    /// The signed amount in hundredths: an expense counts negative, an
    /// income positive. Zero where not exactly one of them is present.
    pub open spec fn amount(self) -> int {
        match (self.expense, self.income) {
            (Some(expense), None) => -(expense as int),
            (None, Some(income)) => income as int,
            _ => 0,
        }
    }

    /// Whether the category is exactly `Transfert`.
    pub open spec fn is_transfert(self) -> bool {
        self.category == "Transfert"@
    }
}

/// What a line's fields become, given what reading the date field gave: the
/// date's error first, then the check for the number of fields, then the
/// transaction with the identifier `id` and no category identifier yet.
pub open spec fn assembled(
    parts: Seq<Seq<char>>,
    date: Result<Date, DateErrorKind>,
    id: u32,
) -> Result<TransactionView, LineParseError> {
    match date {
        Err(kind) => Err(LineParseError::Date(kind)),
        Ok(date) => if parts.len() < FIELD_COUNT {
            Err(LineParseError::TooFewFields)
        } else {
            Ok(
                TransactionView {
                    id,
                    date,
                    expense: amount_of(parts[EXPENSE as int]),
                    income: amount_of(parts[INCOME as int]),
                    description: parts[DESCRIPTION as int],
                    category: trimmed(parts[CATEGORY as int]),
                    category_id: None,
                },
            )
        },
    }
}

/// What a line becomes when it is read with the identifier `id`.
pub open spec fn parsed(line: Seq<char>, id: u32) -> Result<TransactionView, LineParseError> {
    assembled(fields(line), date_from_text(fields(line)[DATE as int], day_month_year()), id)
}

/// The row of a transaction in the export.
pub open spec fn transaction_row(transaction: TransactionView) -> JsonValue {
    JsonValue::Object(
        seq![
            ("date"@, JsonValue::Text(iso_date(transaction.date))),
            ("title"@, JsonValue::Text(transaction.description)),
            ("amount"@, JsonValue::Text(signed_decimal(transaction.amount()))),
            ("id"@, JsonValue::Number(transaction.id as nat)),
            (
                "categoryId"@,
                match transaction.category_id {
                    Some(id) => JsonValue::Number(id as nat),
                    None => JsonValue::Null,
                },
            ),
        ],
    )
}

/// An expense gives a negative amount and an income a positive one, each of
/// the size that was read.
pub proof fn lemma_amount_sign(transaction: TransactionView)
    requires
        transaction.has_single_amount(),
    ensures
        transaction.expense matches Some(expense) ==> transaction.amount() == -expense
            && transaction.amount() <= 0 && (expense > 0 ==> transaction.amount() < 0),
        transaction.income matches Some(income) ==> transaction.amount() == income
            && transaction.amount() >= 0 && (income > 0 ==> transaction.amount() > 0),
{
}

/// Puts a transaction together from the fields of a line and from what
/// reading the date field gave. See [`assembled`].
pub fn build_transaction(
    parts: &Vec<String>,
    date: Result<Date, DateErrorKind>,
    id: u32,
) -> (result: Result<Transaction, LineParseError>)
    ensures
        match result {
            Ok(transaction) => assembled(parts.deep_view(), date, id) == Ok::<
                TransactionView,
                LineParseError,
            >(transaction@),
            Err(error) => assembled(parts.deep_view(), date, id) == Err::<
                TransactionView,
                LineParseError,
            >(error),
        },
{
    let date = match date {
        Ok(date) => date,
        Err(kind) => {
            return Err(LineParseError::Date(kind));
        },
    };
    if parts.len() < FIELD_COUNT {
        return Err(LineParseError::TooFewFields);
    }
    assert(parts.deep_view()[EXPENSE as int] == parts[EXPENSE as int]@);
    assert(parts.deep_view()[INCOME as int] == parts[INCOME as int]@);
    assert(parts.deep_view()[DESCRIPTION as int] == parts[DESCRIPTION as int]@);
    assert(parts.deep_view()[CATEGORY as int] == parts[CATEGORY as int]@);
    let expense = parse_amount(parts[EXPENSE].as_str());
    let income = parse_amount(parts[INCOME].as_str());
    let description = parts[DESCRIPTION].clone();
    let category = trim(parts[CATEGORY].as_str());
    Ok(Transaction { id, date, expense, income, description, category, category_id: None })
}

/// Reads one line of the statement into a transaction with the identifier
/// `id`. The date field is read first, so a line with an unreadable date
/// fails with the date's error whatever else it holds; a line with a
/// readable date and fewer than [`FIELD_COUNT`] fields fails with
/// [`LineParseError::TooFewFields`]. Amount fields that hold no decimal
/// number count as absent.
pub fn parse_transaction(raw: &str, id: u32) -> (result: Result<Transaction, LineParseError>)
    ensures
        match result {
            Ok(transaction) => parsed(raw@, id) == Ok::<TransactionView, LineParseError>(
                transaction@,
            ) && transaction.date.is_valid(),
            Err(error) => parsed(raw@, id) == Err::<TransactionView, LineParseError>(error),
        },
{
    let parts = split_fields(raw);
    proof {
        lemma_fields_rejoin(raw@);
    }
    assert(parts.deep_view()[DATE as int] == parts[DATE as int]@);
    let date = parse_date(parts[DATE].as_str());
    build_transaction(&parts, date, id)
}

impl Transaction {
    /// The signed amount in hundredths: the expense negated, or the income.
    pub fn amount(&self) -> (value: i128)
        requires
            self@.has_single_amount(),
        ensures
            value == self@.amount(),
    {
        match (self.expense, self.income) {
            (Some(expense), None) => -(expense as i128),
            (None, Some(income)) => income as i128,
            _ => 0,
        }
    }

    /// Whether exactly one of expense and income is present.
    pub fn has_single_amount(&self) -> (single: bool)
        ensures
            single == self@.has_single_amount(),
    {
        self.expense.is_some() != self.income.is_some()
    }

    /// Whether the category is exactly `Transfert`.
    pub fn is_transfert(&self) -> (transfert: bool)
        ensures
            transfert == self@.is_transfert(),
    {
        let sentinel = "Transfert".to_owned();
        self.category == sentinel
    }

    /// The row of this transaction in the export: date, title, amount in
    /// hundredths as text, identifier and category identifier.
    pub fn to_value(&self) -> (row: Json)
        requires
            self@.has_single_amount(),
            self.date.is_valid(),
        ensures
            row@ == transaction_row(self@),
    {
        let category_id = match self.category_id {
            Some(id) => Json::number(id as u64),
            None => Json::Null,
        };
        let mut members: Vec<(String, Json)> = Vec::new();
        members.push(("date".to_owned(), Json::text(self.date.iso_text())));
        members.push(("title".to_owned(), Json::text(self.description.clone())));
        members.push(("amount".to_owned(), Json::text(decimal_text(self.amount()))));
        members.push(("id".to_owned(), Json::number(self.id as u64)));
        members.push(("categoryId".to_owned(), category_id));
        assert(member_values(members@) =~= transaction_row(self@)->Object_0);
        let row = Json::object(members);
        row
    }
}

} // verus!

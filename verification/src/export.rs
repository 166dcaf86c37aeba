//! The export: a document in the dexie bulk-import format that holds the
//! transactions and the categories of a statement.

use crate::category::{category_row, numbered, CategoryView};
use crate::json::{lemma_lookup, member_values, values, Json, JsonValue};
use crate::ledger::{Ledger, LedgerView};
use crate::transaction::{transaction_row, TransactionView};
use vstd::prelude::*;

verus! {

/// A transaction that is to be exported has no amount, or has both an
/// expense and an income.
#[derive(Clone, Copy, Debug, PartialEq, Eq, Structural)]
pub struct AmountConsistencyError {
    /// The identifier of the first such transaction.
    pub id: u32,
}

/// The entry of a table in the list of tables.
pub open spec fn table(name: Seq<char>, schema: Seq<char>, rows: nat) -> JsonValue {
    JsonValue::Object(
        seq![
            ("name"@, JsonValue::Text(name)),
            ("schema"@, JsonValue::Text(schema)),
            ("rowCount"@, JsonValue::Number(rows)),
        ],
    )
}

/// The rows of a table.
pub open spec fn table_data(name: Seq<char>, rows: Seq<JsonValue>) -> JsonValue {
    JsonValue::Object(
        seq![
            ("tableName"@, JsonValue::Text(name)),
            ("inbound"@, JsonValue::Bool(true)),
            ("rows"@, JsonValue::Array(rows)),
        ],
    )
}

/// The document that holds the given rows: format and database are fixed,
/// each table is listed with the number of its rows, and is followed by the
/// rows themselves.
pub open spec fn document(transactions: Seq<JsonValue>, categories: Seq<JsonValue>) -> JsonValue {
    JsonValue::Object(
        seq![
            ("formatName"@, JsonValue::Text("dexie"@)),
            ("formatVersion"@, JsonValue::Number(1)),
            (
                "data"@,
                JsonValue::Object(
                    seq![
                        ("databaseName"@, JsonValue::Text("budjet"@)),
                        ("databaseVersion"@, JsonValue::Number(3)),
                        (
                            "tables"@,
                            JsonValue::Array(
                                seq![
                                    table(
                                        "transactions"@,
                                        "++id,amount,title"@,
                                        transactions.len(),
                                    ),
                                    table("categories"@, "++id,name"@, categories.len()),
                                ],
                            ),
                        ),
                        (
                            "data"@,
                            JsonValue::Array(
                                seq![
                                    table_data("transactions"@, transactions),
                                    table_data("categories"@, categories),
                                ],
                            ),
                        ),
                    ],
                ),
            ),
        ],
    )
}

/// The transactions that are exported: all but those of the category
/// `Transfert`, in their order.
pub open spec fn exported(transactions: Seq<TransactionView>) -> Seq<TransactionView> {
    transactions.filter(|transaction: TransactionView| !transaction.is_transfert())
}

/// The rows of the transactions that are exported.
pub open spec fn transaction_rows(transactions: Seq<TransactionView>) -> Seq<JsonValue> {
    exported(transactions).map_values(|transaction: TransactionView| transaction_row(transaction))
}

/// The rows of the categories, in the order of their identifiers.
pub open spec fn category_rows(names: Seq<Seq<char>>) -> Seq<JsonValue> {
    numbered(names).map_values(|category: CategoryView| category_row(category))
}

/// Whether the transaction can be exported or needs no export: it is of the
/// category `Transfert`, or it has exactly one amount.
pub open spec fn is_exportable(transaction: TransactionView) -> bool {
    transaction.is_transfert() || transaction.has_single_amount()
}

/// The export of a statement.
pub open spec fn export_of(state: LedgerView) -> JsonValue {
    document(transaction_rows(state.transactions), category_rows(state.categories))
}

/// What `export` gives for a statement: the document where every
/// transaction is exportable, the identifier of the first that is not
/// otherwise.
pub open spec fn export_matches(
    state: LedgerView,
    result: Result<JsonValue, AmountConsistencyError>,
) -> bool {
    match result {
        Ok(json) => {
            &&& forall|i: int|
                0 <= i < state.transactions.len() ==> is_exportable(
                    #[trigger] state.transactions[i],
                )
            &&& json == export_of(state)
        },
        Err(error) => {
            let first = error.id - 1;
            &&& 0 <= first < state.transactions.len()
            &&& !is_exportable(state.transactions[first])
            &&& forall|i: int| 0 <= i < first ==> is_exportable(#[trigger] state.transactions[i])
        },
    }
}

/// No exported transaction is of the category `Transfert`, every exported
/// transaction is one of the statement, and a transaction of the category
/// `Transfert` has an identifier that no exported transaction has.
pub proof fn lemma_transfers_are_left_out(state: LedgerView)
    requires
        state.well_formed(),
    ensures
        forall|k: int|
            0 <= k < exported(state.transactions).len() ==> !(#[trigger] exported(
                state.transactions,
            )[k]).is_transfert() && state.transactions.contains(exported(state.transactions)[k]),
        forall|i: int, k: int|
            0 <= i < state.transactions.len() && 0 <= k < exported(state.transactions).len()
                && state.transactions[i].is_transfert() ==> (#[trigger] exported(
                state.transactions,
            )[k]).id != (#[trigger] state.transactions[i]).id,
{
    let all = state.transactions;
    let pred = |transaction: TransactionView| !transaction.is_transfert();
    let kept = exported(all);
    assert forall|k: int| 0 <= k < kept.len() implies !(#[trigger] kept[k]).is_transfert()
        && all.contains(kept[k]) by {
        all.lemma_filter_pred(pred, k);
        assert(kept.contains(kept[k]));
        all.lemma_filter_contains_rev(pred, kept[k]);
    }
    assert forall|i: int, k: int|
        0 <= i < all.len() && 0 <= k < kept.len() && all[i].is_transfert() implies (
        #[trigger] kept[k]).id != (#[trigger] all[i]).id by {
        assert(all.contains(kept[k]));
        let j = choose|j: int| 0 <= j < all.len() && all[j] == kept[k];
        assert(state.settled(i));
        assert(state.settled(j));
    }
}

/// The number of rows that a table is listed with is the number of rows
/// that the export holds for it.
pub proof fn lemma_row_counts(transactions: Seq<JsonValue>, categories: Seq<JsonValue>)
    ensures
        ({
            let data = document(transactions, categories).member("data"@);
            let tables = data.member("tables"@);
            let contents = data.member("data"@);
            &&& tables.item(0).member("rowCount"@) == JsonValue::Number(transactions.len())
            &&& contents.item(0).member("rows"@) == JsonValue::Array(transactions)
            &&& tables.item(1).member("rowCount"@) == JsonValue::Number(categories.len())
            &&& contents.item(1).member("rows"@) == JsonValue::Array(categories)
        }),
{
    reveal_strlit("formatName");
    reveal_strlit("formatVersion");
    reveal_strlit("data");
    reveal_strlit("databaseName");
    reveal_strlit("databaseVersion");
    reveal_strlit("tables");
    reveal_strlit("name");
    reveal_strlit("schema");
    reveal_strlit("rowCount");
    reveal_strlit("tableName");
    reveal_strlit("inbound");
    reveal_strlit("rows");
    assert("formatName"@.len() == 10 && "formatVersion"@.len() == 13 && "data"@.len() == 4);
    assert("databaseName"@.len() == 12 && "databaseVersion"@.len() == 15);
    assert("tables"@.len() == 6 && "name"@.len() == 4 && "schema"@.len() == 6);
    assert("rowCount"@.len() == 8 && "tableName"@.len() == 9 && "inbound"@.len() == 7);
    assert("rows"@.len() == 4);
    let whole = document(transactions, categories);
    lemma_lookup(whole->Object_0, "data"@, 2);
    let data = whole.member("data"@);
    lemma_lookup(data->Object_0, "tables"@, 2);
    lemma_lookup(data->Object_0, "data"@, 3);
    let tables = data.member("tables"@);
    let contents = data.member("data"@);
    lemma_lookup(tables.item(0)->Object_0, "rowCount"@, 2);
    lemma_lookup(tables.item(1)->Object_0, "rowCount"@, 2);
    lemma_lookup(contents.item(0)->Object_0, "rows"@, 2);
    lemma_lookup(contents.item(1)->Object_0, "rows"@, 2);
}

/// The entry of a table in the list of tables.
fn table_entry(name: &str, schema: &str, rows: usize) -> (json: Json)
    ensures
        json@ == table(name@, schema@, rows as nat),
{
    let mut members: Vec<(String, Json)> = Vec::new();
    members.push(("name".to_owned(), Json::text(name.to_owned())));
    members.push(("schema".to_owned(), Json::text(schema.to_owned())));
    members.push(("rowCount".to_owned(), Json::number(rows as u64)));
    assert(member_values(members@) =~= table(name@, schema@, rows as nat)->Object_0);
    Json::object(members)
}

/// The rows of a table.
fn table_rows(name: &str, rows: Vec<Json>) -> (json: Json)
    ensures
        json@ == table_data(name@, values(rows@)),
{
    let ghost content = values(rows@);
    let mut members: Vec<(String, Json)> = Vec::new();
    members.push(("tableName".to_owned(), Json::text(name.to_owned())));
    members.push(("inbound".to_owned(), Json::Bool(true)));
    members.push(("rows".to_owned(), Json::array(rows)));
    assert(member_values(members@) =~= table_data(name@, content)->Object_0);
    Json::object(members)
}

/// The document that holds the given rows, see [`document`].
pub fn dexie_document(transactions: Vec<Json>, categories: Vec<Json>) -> (json: Json)
    ensures
        json@ == document(values(transactions@), values(categories@)),
{
    let ghost transaction_rows = values(transactions@);
    let ghost category_rows = values(categories@);
    let mut tables: Vec<Json> = Vec::new();
    tables.push(table_entry("transactions", "++id,amount,title", transactions.len()));
    tables.push(table_entry("categories", "++id,name", categories.len()));
    let mut contents: Vec<Json> = Vec::new();
    contents.push(table_rows("transactions", transactions));
    contents.push(table_rows("categories", categories));
    let ghost wanted = document(transaction_rows, category_rows);
    let ghost wanted_data = wanted->Object_0[2].1;
    assert(values(tables@) =~= wanted_data->Object_0[2].1->Array_0);
    assert(values(contents@) =~= wanted_data->Object_0[3].1->Array_0);
    let mut data: Vec<(String, Json)> = Vec::new();
    data.push(("databaseName".to_owned(), Json::text("budjet".to_owned())));
    data.push(("databaseVersion".to_owned(), Json::number(3)));
    data.push(("tables".to_owned(), Json::array(tables)));
    data.push(("data".to_owned(), Json::array(contents)));
    assert(member_values(data@) =~= wanted_data->Object_0);
    let mut members: Vec<(String, Json)> = Vec::new();
    members.push(("formatName".to_owned(), Json::text("dexie".to_owned())));
    members.push(("formatVersion".to_owned(), Json::number(1)));
    members.push(("data".to_owned(), Json::object(data)));
    assert(member_values(members@) =~= wanted->Object_0);
    Json::object(members)
}

/// The document without any rows.
pub fn get_dexie_structure() -> (json: Json)
    ensures
        json@ == document(Seq::empty(), Seq::empty()),
{
    let transactions: Vec<Json> = Vec::new();
    let categories: Vec<Json> = Vec::new();
    assert(values(transactions@) =~= Seq::<JsonValue>::empty());
    assert(values(categories@) =~= Seq::<JsonValue>::empty());
    dexie_document(transactions, categories)
}

impl Ledger {
    /// The export of the statement: the document with one row for every
    /// transaction that is not of the category `Transfert`, and one row for
    /// every category. Fails where such a transaction does not have exactly
    /// one amount, with the identifier of the first that does not.
    pub fn export(&self) -> (result: Result<Json, AmountConsistencyError>)
        requires
            self.well_formed(),
        ensures
            export_matches(
                self@,
                match result {
                    Ok(json) => Ok(json@),
                    Err(error) => Err(error),
                },
            ),
    {
        proof {
            self.lemma_well_formed();
        }
        let transactions = self.transactions();
        let ghost all = self@.transactions;
        let ghost pred = |transaction: TransactionView| !transaction.is_transfert();
        let ghost row = |transaction: TransactionView| transaction_row(transaction);
        let mut rows: Vec<Json> = Vec::new();
        assert(all.take(0) =~= Seq::<TransactionView>::empty());
        assert(transaction_rows(all.take(0)) =~= Seq::<JsonValue>::empty()) by {
            reveal(Seq::filter);
        }
        let mut i: usize = 0;
        while i < transactions.len()
            invariant
                i <= transactions.len(),
                all == self@.transactions,
                all == transactions.deep_view(),
                self@.well_formed(),
                forall|k: int|
                    0 <= k < transactions.len() ==> (#[trigger] transactions[k]).date.is_valid(),
                forall|k: int| 0 <= k < i ==> is_exportable(#[trigger] all[k]),
                values(rows@) == transaction_rows(all.take(i as int)),
            decreases transactions.len() - i,
        {
            let transaction = &transactions[i];
            assert(transaction@ == all[i as int]);
            assert(self@.settled(i as int));
            let ghost next = all.take(i + 1);
            proof {
                reveal(Seq::filter);
                assert(next.drop_last() =~= all.take(i as int));
                assert(next.last() == all[i as int]);
            }
            if !transaction.is_transfert() {
                if !transaction.has_single_amount() {
                    return Err(AmountConsistencyError { id: transaction.id });
                }
                let ghost before = values(rows@);
                let value = transaction.to_value();
                rows.push(value);
                assert(values(rows@) =~= before.push(transaction_row(transaction@)));
                assert(transaction_rows(next) =~= transaction_rows(all.take(i as int)).push(
                    transaction_row(transaction@),
                ));
            } else {
                assert(exported(next) == exported(all.take(i as int)));
            }
            i += 1;
        }
        assert(all.take(i as int) =~= all);
        let categories = self.categories();
        let ghost named = numbered(self@.categories);
        let mut category_values: Vec<Json> = Vec::new();
        let mut j: usize = 0;
        while j < categories.len()
            invariant
                j <= categories.len(),
                named == categories.deep_view(),
                category_values.len() == j,
                forall|k: int|
                    0 <= k < j ==> (#[trigger] category_values[k])@ == category_row(named[k]),
            decreases categories.len() - j,
        {
            assert(categories[j as int]@ == named[j as int]);
            category_values.push(categories[j].to_value());
            j += 1;
        }
        assert(values(category_values@) =~= category_rows(self@.categories));
        Ok(dexie_document(rows, category_values))
    }
}

} // verus!

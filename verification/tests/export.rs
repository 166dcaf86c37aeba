use budjet_import::category::Category;
use budjet_import::date::Date;
use budjet_import::export::{dexie_document, get_dexie_structure, AmountConsistencyError};
use budjet_import::json::Json;
use budjet_import::ledger::Ledger;
use budjet_import::transaction::{parse_transaction, Transaction};
use serde_json::{Number, Value};

fn to_serde(json: &Json) -> Value {
    match json {
        Json::Null => Value::Null,
        Json::Bool(b) => Value::Bool(*b),
        Json::Number(n) => Value::Number(Number::from(*n)),
        Json::Text(s) => Value::String(s.clone()),
        Json::Array(items) => Value::Array(items.iter().map(to_serde).collect()),
        Json::Object(members) => {
            let mut map = serde_json::Map::new();
            for (key, value) in members {
                assert!(map.insert(key.clone(), to_serde(value)).is_none(), "key {key} twice");
            }
            Value::Object(map)
        }
    }
}

fn expect(text: &str) -> Value {
    serde_json::from_str(text).unwrap()
}

fn line(date: &str, category: &str, title: &str, expense: &str, income: &str) -> String {
    format!("{date}\t{category}\t\t\t{title}\t\t\t\t\t\t\t{expense}\t{income}")
}

const EMPTY_DOCUMENT: &str = r#"{
  "formatName": "dexie",
  "formatVersion": 1,
  "data": {
    "databaseName": "budjet",
    "databaseVersion": 3,
    "tables": [
      {"name": "transactions", "schema": "++id,amount,title", "rowCount": 0},
      {"name": "categories", "schema": "++id,name", "rowCount": 0}
    ],
    "data": [
      {"tableName": "transactions", "inbound": true, "rows": []},
      {"tableName": "categories", "inbound": true, "rows": []}
    ]
  }
}"#;

#[test]
fn structure_without_rows() {
    assert_eq!(to_serde(&get_dexie_structure()), expect(EMPTY_DOCUMENT));
}

#[test]
fn export_of_an_empty_statement_is_the_bare_structure() {
    let document = Ledger::new().export().unwrap();
    assert_eq!(to_serde(&document), expect(EMPTY_DOCUMENT));
}

#[test]
fn groceries_row() {
    let mut transaction =
        parse_transaction("01/02/2023\tGroceries\t\t\t\t\t\t\t\t\t\t12,50\t\t", 1).unwrap();
    assert_eq!(
        to_serde(&transaction.to_value()),
        expect(r#"{"date":"2023-02-01","title":"","amount":"-1250","id":1,"categoryId":null}"#)
    );
    transaction.category_id = Some(0);
    assert_eq!(
        to_serde(&transaction.to_value()),
        expect(r#"{"date":"2023-02-01","title":"","amount":"-1250","id":1,"categoryId":0}"#)
    );
}

#[test]
fn income_row() {
    let transaction = Transaction {
        id: 17,
        date: Date { year: 2020, month: 11, day: 30 },
        expense: None,
        income: Some(123456),
        description: String::from("pay \"net\""),
        category: String::from("Pay"),
        category_id: Some(4),
    };
    assert_eq!(
        to_serde(&transaction.to_value()),
        expect(
            r#"{"date":"2020-11-30","title":"pay \"net\"","amount":"123456","id":17,"categoryId":4}"#
        )
    );
}

#[test]
fn zero_amounts_are_written_without_sign() {
    let spent = parse_transaction(&line("01/01/2024", "A", "", "0,00", ""), 1).unwrap();
    assert_eq!(to_serde(&spent.to_value())["amount"], Value::String(String::from("0")));
    let earned = parse_transaction(&line("01/01/2024", "A", "", "", "0"), 1).unwrap();
    assert_eq!(to_serde(&earned.to_value())["amount"], Value::String(String::from("0")));
}

#[test]
fn category_row() {
    let category = Category { id: 3, name: String::from("Épicerie") };
    assert_eq!(to_serde(&category.to_value()), expect(r#"{"id":3,"name":"Épicerie"}"#));
}

#[test]
fn transfers_are_left_out_and_rows_are_counted() {
    let lines = vec![
        line("01/01/2024", "Food", "bread", "2,40", ""),
        line("02/01/2024", "Transfert", "to savings", "100", ""),
        line("03/01/2024", " Transfert ", "back", "", "100"),
        line("04/01/2024", "Pay", "wage", "", "1500,00"),
        line("05/01/2024", "transfert", "lower case", "1", ""),
    ];
    let (ledger, errors) = Ledger::import(&lines);
    assert!(errors.is_empty());
    let document = to_serde(&ledger.export().unwrap());
    let expected = expect(
        r#"{
  "formatName": "dexie",
  "formatVersion": 1,
  "data": {
    "databaseName": "budjet",
    "databaseVersion": 3,
    "tables": [
      {"name": "transactions", "schema": "++id,amount,title", "rowCount": 3},
      {"name": "categories", "schema": "++id,name", "rowCount": 4}
    ],
    "data": [
      {"tableName": "transactions", "inbound": true, "rows": [
        {"date": "2024-01-01", "title": "bread", "amount": "-240", "id": 1, "categoryId": 0},
        {"date": "2024-01-04", "title": "wage", "amount": "150000", "id": 4, "categoryId": 2},
        {"date": "2024-01-05", "title": "lower case", "amount": "-100", "id": 5, "categoryId": 3}
      ]},
      {"tableName": "categories", "inbound": true, "rows": [
        {"id": 0, "name": "Food"},
        {"id": 1, "name": "Transfert"},
        {"id": 2, "name": "Pay"},
        {"id": 3, "name": "transfert"}
      ]}
    ]
  }
}"#,
    );
    assert_eq!(document, expected);
    let rows = document["data"]["data"][0]["rows"].as_array().unwrap();
    assert_eq!(document["data"]["tables"][0]["rowCount"], Value::from(rows.len()));
    assert!(rows.iter().all(|row| row["id"] != Value::from(2) && row["id"] != Value::from(3)));
}

#[test]
fn a_transfer_without_amount_does_not_stop_the_export() {
    let lines = vec![
        line("01/01/2024", "Transfert", "", "", ""),
        line("02/01/2024", "Transfert", "", "1", "1"),
        line("03/01/2024", "Food", "", "1", ""),
    ];
    let (ledger, _) = Ledger::import(&lines);
    let document = to_serde(&ledger.export().unwrap());
    assert_eq!(document["data"]["tables"][0]["rowCount"], Value::from(1));
    assert_eq!(document["data"]["data"][0]["rows"][0]["id"], Value::from(3));
}

#[test]
fn a_transaction_without_amount_stops_the_export() {
    let lines = vec![
        line("01/01/2024", "Food", "", "1", ""),
        line("02/01/2024", "Transfert", "", "", ""),
        line("03/01/2024", "Food", "", "", ""),
        line("04/01/2024", "Food", "", "1", "2"),
    ];
    let (ledger, _) = Ledger::import(&lines);
    assert_eq!(ledger.export().unwrap_err(), AmountConsistencyError { id: 3 });
}

#[test]
fn a_transaction_with_two_amounts_stops_the_export() {
    let lines = vec![line("01/01/2024", "Food", "", "1", "2")];
    let (ledger, _) = Ledger::import(&lines);
    assert_eq!(ledger.export().unwrap_err(), AmountConsistencyError { id: 1 });
}

#[test]
fn document_lists_the_rows_it_is_given() {
    let rows = vec![Json::Number(1), Json::Null];
    let categories = vec![Json::Text(String::from("x"))];
    let document = to_serde(&dexie_document(rows, categories));
    assert_eq!(document["data"]["tables"][0]["rowCount"], Value::from(2));
    assert_eq!(document["data"]["tables"][1]["rowCount"], Value::from(1));
    assert_eq!(document["data"]["data"][0]["rows"], expect("[1, null]"));
    assert_eq!(document["data"]["data"][1]["rows"], expect(r#"["x"]"#));
    assert_eq!(document["data"]["data"][0]["tableName"], Value::from("transactions"));
    assert_eq!(document["data"]["data"][1]["tableName"], Value::from("categories"));
}

#[test]
fn json_builders_make_the_variants() {
    assert!(matches!(Json::text(String::from("a")), Json::Text(s) if s == "a"));
    assert!(matches!(Json::number(7), Json::Number(7)));
    assert!(matches!(Json::array(vec![Json::Null]), Json::Array(items) if items.len() == 1));
    let object = Json::object(vec![(String::from("k"), Json::Bool(false))]);
    assert_eq!(to_serde(&object), expect(r#"{"k": false}"#));
}

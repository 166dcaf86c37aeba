//! Turns a tab-separated bank statement into a document in the dexie
//! bulk-import format.
//!
//! A statement is read line by line into a [`ledger::Ledger`]: each line that
//! can be read becomes a [`transaction::Transaction`] with the next
//! identifier and the identifier of its category. [`ledger::Ledger::export`]
//! then gives the document as a [`json::Json`] tree. Amounts are whole
//! hundredths throughout.

pub mod category;
pub mod date;
pub mod decimal;
pub mod export;
pub mod json;
pub mod ledger;
pub mod text;
pub mod transaction;

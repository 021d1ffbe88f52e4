//! A read-only decoder for the SQLite database file format.
//!
//! The crate works on the bytes of a database file held in memory. It decodes
//! the file header, table-leaf pages, their cells and the typed values of each
//! record, and lists the schema catalog stored on the first page. A small
//! parser for `SELECT` and `CREATE TABLE` statements sits beside the decoder.
//!
//! Every function carries a contract over a mathematical model of the file
//! format, and the contracts are machine-checked.

pub mod bytes;
pub mod chars;
pub mod database;
pub mod error;
pub mod format;
pub mod record;
pub mod schema;
pub mod sql;
pub mod varint;

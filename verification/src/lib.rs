//! Reading and writing tabular records in comma-delimited text.
//!
//! The wire format is the conventional one: rows separated by line breaks,
//! cells separated by commas, a cell quoted with double quotes whenever it
//! contains a comma, a quote or a line break, and a quote inside a quoted
//! cell written as two consecutive quotes.  The first row is a header naming
//! the columns; every later row is matched to a caller-described record
//! layout by column name.

pub mod api;
mod chars;
pub mod format;
pub mod laws;
pub mod parse;
pub mod records;
pub mod schema;
pub mod ser;

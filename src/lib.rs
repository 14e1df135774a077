//! Reads the pipe-delimited gas report of a smart-contract test run into a
//! table of contracts and functions, sums its costs, and reports how those
//! sums changed since a recorded snapshot.
//!
//! - `text`: the report's lines split into rows of trimmed cells.
//! - `parse`: rows grouped into contract sections and read as contracts.
//! - `table`: the contract data and its whole-report sums.
//! - `snapshot`: the recorded sums and the change report.
//! - `number`: unsigned numbers read from and written as decimal text.
pub mod number;
pub mod parse;
pub mod snapshot;
pub mod table;
pub mod text;

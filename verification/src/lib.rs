//! An editor for comma-delimited tables that are held in memory.
//!
//! A table is loaded from the text of a file, shown as a whole or by ranges
//! of rows, changed by deleting a row or by overwriting a cell, and written
//! out again as text. Rows and columns are numbered from one, and every row
//! of a table has the same number of cells at all times.
//!
//! - [`table`] holds the table and its operations.
//! - [`grid`] is the mathematical model that their contracts speak of.
//! - [`input`] reads what the user types: text, numbers, menu choices.
//! - [`text`] trims, splits and joins text; [`text_laws`] says what holds of
//!   that.
//! - [`round_trip`] proves that a loaded table, once saved, loads again as
//!   the same table.

pub mod grid;
pub mod input;
pub mod round_trip;
pub mod table;
pub mod text;
pub mod text_laws;

//! A table of rows, columns and cells kept inside a mergeable `yrs` document.
//!
//! Rows and columns are found by random identifiers, not by position, and a cell is
//! stored under the key made of the identifiers of its row and its column. This crate
//! imports a header with its records into such a table and reads the table back, and it
//! states and proves what both do ([`model`], [`laws`]).
//!
//! What `yrs` itself does is stated in [`store`] and [`scalar`] and believed without
//! proof; so are the random draw of `fastrand` in [`ident`], the reading of floating
//! point numbers in [`scalar`] and `String::push` in [`key`].

pub mod descriptor;
pub mod ident;
pub mod key;
pub mod laws;
pub mod model;
pub mod rows;
pub mod scalar;
pub mod store;
pub mod table;

pub use descriptor::{Column, RowInfo};
pub use rows::{MalformedRow, Row, Rows};
pub use table::Table;

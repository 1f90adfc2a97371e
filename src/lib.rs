//! A todo.txt task list: records, their line format, a table of named
//! columns, the listing order, filters, and the archive split.

pub mod text;
pub mod date;
pub mod record;
pub mod tags;
pub mod table;
pub mod order;
pub mod filter;
pub mod store;
pub mod config;
pub mod report;

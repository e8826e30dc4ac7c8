//! A plain-text, double-entry journal: parsing, per-unit balancing, and
//! month-indexed queries over the parsed transactions.

pub mod text;
pub mod types;
pub mod transaction;
pub mod journal;
pub mod monthgrid;
pub mod iterators;
pub mod reports;

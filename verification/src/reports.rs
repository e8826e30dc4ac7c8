//! Reports over a journal.

pub mod balance;
pub mod register;

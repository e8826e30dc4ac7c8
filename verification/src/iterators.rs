//! Ways to walk a journal.

pub mod transactionsbymonth;

//! The value types of the journal.

use vstd::prelude::*;

pub mod amount;
pub mod date;
pub mod monthyear;

pub use amount::{Amount, AmountError, AmountType, Decimal};
pub use date::Date;
pub use monthyear::MonthYear;

verus! {

/// An account is named by its colon-qualified path.
pub type Account = String;

/// The commodity or currency label of an amount.
pub type Units = String;

} // verus!

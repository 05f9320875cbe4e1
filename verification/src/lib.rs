//! An in-memory ledger of named bills.
//!
//! A [`Bills`] store maps each bill name to one amount and never holds two
//! bills under the same name. Names are compared after leading and trailing
//! whitespace has been removed.

pub mod amount;
pub mod bill;
pub mod bills;
pub mod laws;
pub mod ledger;
pub mod menu;
pub mod text;

pub use bill::Bill;
pub use bills::Bills;
pub use ledger::BillError;

//! A donation ledger: one record per account, holding the account's latest
//! message and the sum of everything it has attached so far, listed in the
//! order in which the accounts first wrote.

pub mod laws;
pub mod ledger;
pub mod model;
pub mod record;

pub use ledger::HelloNear;
pub use model::{Ledger, Update};
pub use record::{Messenger, Record, ValidationError};

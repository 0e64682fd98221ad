//! Share accounting, allocation validation and the vault state machine of a
//! basket vault: the rules that decide what every vault operation does to the
//! stored state and which transfers it asks for.

mod assoc;
pub mod digest;
pub mod errors;
pub mod laws;
pub mod ledger;
pub mod math;
pub mod model;
pub mod types;
pub mod vault;

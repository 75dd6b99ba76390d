//! Delegated-authorization and timed-execution engine for a block-height
//! driven ledger: capability-scoped proxy grants, announce-then-execute
//! scheduling with mandatory delays, deposit-bonded storage, and
//! deterministically derived anonymous proxy accounts.

pub mod announce;
pub mod caps;
pub mod derive;
pub mod engine;
pub mod errors;
pub mod filter;
pub mod laws;
pub mod ledger;
pub mod props;
pub mod registry;
pub mod weights;

use vstd::prelude::*;

verus! {

/// Every failure an engine operation can report. All are recoverable at the
/// caller boundary; no operation leaves partial state behind on failure.
#[derive(Clone, Copy, PartialEq, Eq, Structural, Debug)]
pub enum ProxyError {
    /// The caller holds no grant that authorizes the attempted act.
    NotAuthorized,
    /// The call filter rejected the action despite a matching grant.
    Filtered,
    /// A grant naming its own real account as delegate was attempted.
    NoSelfProxy,
    /// A configured capacity bound would be exceeded.
    TooMany,
    /// The addressed grant, announcement or entry does not exist.
    NotFound,
    /// The grant or entry to create already exists.
    AlreadyExists,
    /// The mandatory delay since the announcement has not yet elapsed.
    TooEarly,
    /// The restated seed does not re-derive to the stated account.
    SeedMismatch,
    /// Teardown found state beyond the single grant made at creation.
    Unexpected,
    /// The free balance cannot cover the required deposit.
    InsufficientFunds,
}

} // verus!

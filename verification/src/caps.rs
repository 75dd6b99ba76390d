use vstd::prelude::*;

verus! {

/// Capability classes a proxy grant may be scoped to. The engine treats the
/// class as a key into the covering partial order below; the exact members
/// are deployment-specific.
#[derive(Clone, Copy, PartialEq, Eq, Structural, Debug)]
pub enum ProxyCapability {
    /// Unrestricted: covers every other class.
    Any,
    /// Everything that does not move funds.
    NonTransfer,
    /// Referenda and council business only.
    Governance,
    /// Cancelling pending announcements only.
    CancelProxy,
}

/// A stable rank for each capability class, used only to give grants a
/// canonical storage order.
pub open spec fn cap_rank(c: ProxyCapability) -> int {
    match c {
        ProxyCapability::Any => 0,
        ProxyCapability::NonTransfer => 1,
        ProxyCapability::Governance => 2,
        ProxyCapability::CancelProxy => 3,
    }
}

/// The covering partial order on capability classes: a grant scoped to
/// `granted` satisfies a request for `requested` exactly when this holds.
/// `Any` covers everything; `NonTransfer` covers every class that cannot
/// move funds; the remaining classes cover only themselves.
pub open spec fn covers(granted: ProxyCapability, requested: ProxyCapability) -> bool {
    match granted {
        ProxyCapability::Any => true,
        ProxyCapability::NonTransfer => requested != ProxyCapability::Any,
        ProxyCapability::Governance => requested == ProxyCapability::Governance,
        ProxyCapability::CancelProxy => requested == ProxyCapability::CancelProxy,
    }
}

/// Executable form of the covering partial order.
pub fn capability_covers(granted: ProxyCapability, requested: ProxyCapability) -> (r: bool)
    ensures
        r == covers(granted, requested),
{
    match granted {
        ProxyCapability::Any => true,
        ProxyCapability::NonTransfer => !matches!(requested, ProxyCapability::Any),
        ProxyCapability::Governance => matches!(requested, ProxyCapability::Governance),
        ProxyCapability::CancelProxy => matches!(requested, ProxyCapability::CancelProxy),
    }
}

/// Executable form of `cap_rank`.
pub fn capability_rank(c: ProxyCapability) -> (r: u8)
    ensures
        r as int == cap_rank(c),
{
    match c {
        ProxyCapability::Any => 0,
        ProxyCapability::NonTransfer => 1,
        ProxyCapability::Governance => 2,
        ProxyCapability::CancelProxy => 3,
    }
}

/// Covering is reflexive: every capability satisfies a request for itself.
pub proof fn lemma_covers_reflexive(c: ProxyCapability)
    ensures
        covers(c, c),
{
}

/// Covering is transitive, so it is a genuine partial order.
pub proof fn lemma_covers_transitive(a: ProxyCapability, b: ProxyCapability, c: ProxyCapability)
    requires
        covers(a, b),
        covers(b, c),
    ensures
        covers(a, c),
{
}

/// Distinct capability classes have distinct ranks, so ordering grants by
/// rank never conflates two classes.
pub proof fn lemma_cap_rank_injective(a: ProxyCapability, b: ProxyCapability)
    requires
        cap_rank(a) == cap_rank(b),
    ensures
        a == b,
{
}

/// A candidate action submitted for proxied execution: the capability class
/// it falls under, the module and call that identify it to the call filter,
/// and its opaque payload (hashed into the announcement fingerprint, never
/// interpreted here).
pub struct Action {
    /// The capability class this action requires of a grant.
    pub category: ProxyCapability,
    /// Module identifier, as the call filter's blocklist keys it.
    pub module: u16,
    /// Call identifier within the module.
    pub call: u16,
    /// Opaque argument payload.
    pub payload: Vec<u8>,
}

} // verus!

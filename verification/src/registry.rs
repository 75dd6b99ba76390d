use vstd::prelude::*;

use crate::caps::ProxyCapability;
use crate::caps::cap_rank;

verus! {

/// One delegation: `delegate` may act for the entry's owner account, scoped
/// to `capability`, only after `delay` blocks have elapsed since an
/// announcement (`delay == 0` permits immediate execution).
#[derive(Clone, Copy, PartialEq, Eq, Structural, Debug)]
pub struct ProxyGrant {
    /// The account allowed to act.
    pub delegate: u64,
    /// The capability class the grant is scoped to.
    pub capability: ProxyCapability,
    /// Mandatory announcement delay in blocks.
    pub delay: u64,
}

/// The grants an owner (real) account has made, with the deposit bonded for them.
pub struct ProxyEntry {
    /// The owner account the grants speak for.
    pub owner: u64,
    /// The account whose funds are bonded for this entry (the owner account
    /// itself, or the creator of an anonymous account).
    pub depositor: u64,
    /// The grants, in canonical order, unique by (delegate, capability,
    /// delay).
    pub grants: Vec<ProxyGrant>,
    /// The bonded deposit; always `base + factor * |grants|`.
    pub deposit: u64,
}

/// The canonical strict order on grants: by delegate, then capability rank,
/// then delay.
pub open spec fn grant_lt(a: ProxyGrant, b: ProxyGrant) -> bool {
    ||| a.delegate < b.delegate
    ||| (a.delegate == b.delegate && cap_rank(a.capability) < cap_rank(b.capability))
    ||| (a.delegate == b.delegate && cap_rank(a.capability) == cap_rank(b.capability) && a.delay
        < b.delay)
}

/// Strictly sorted in canonical order; strictness makes grants unique.
pub open spec fn grants_sorted(s: Seq<ProxyGrant>) -> bool {
    forall|i: int, j: int| 0 <= i < j < s.len() ==> grant_lt(s[i], s[j])
}

/// Whether `s` holds the grant `g`.
pub open spec fn has_grant(s: Seq<ProxyGrant>, g: ProxyGrant) -> bool {
    exists|i: int| 0 <= i < s.len() && s[i] == g
}

/// Whether some entry is keyed by `owner`.
pub open spec fn has_entry(s: Seq<ProxyEntry>, owner: u64) -> bool {
    exists|i: int| 0 <= i < s.len() && s[i].owner == owner
}

/// The index of `owner`'s entry (unique under registry well-formedness).
pub open spec fn entry_at(s: Seq<ProxyEntry>, owner: u64) -> int {
    choose|i: int| 0 <= i < s.len() && s[i].owner == owner
}

/// The grants of `owner`; empty when no entry exists.
pub open spec fn grants_of(s: Seq<ProxyEntry>, owner: u64) -> Seq<ProxyGrant> {
    if has_entry(s, owner) {
        s[entry_at(s, owner)].grants@
    } else {
        Seq::empty()
    }
}

/// The deposit bonded for `owner`'s entry; zero when no entry exists.
pub open spec fn deposit_of(s: Seq<ProxyEntry>, owner: u64) -> int {
    if has_entry(s, owner) {
        s[entry_at(s, owner)].deposit as int
    } else {
        0
    }
}

/// The account whose funds are bonded for `owner`'s entry; `owner` itself
/// when no entry exists.
pub open spec fn depositor_of(s: Seq<ProxyEntry>, owner: u64) -> u64 {
    if has_entry(s, owner) {
        s[entry_at(s, owner)].depositor
    } else {
        owner
    }
}

/// Under uniqueness, an index keyed by `owner` is the index the lookups use.
pub proof fn lemma_entry_at(s: Seq<ProxyEntry>, owner: u64, i: int)
    requires
        forall|p: int, q: int| 0 <= p < q < s.len() ==> s[p].owner != s[q].owner,
        0 <= i < s.len(),
        s[i].owner == owner,
    ensures
        has_entry(s, owner),
        entry_at(s, owner) == i,
        grants_of(s, owner) == s[i].grants@,
        deposit_of(s, owner) == s[i].deposit as int,
        depositor_of(s, owner) == s[i].depositor,
{
    assert(has_entry(s, owner));
    let j = entry_at(s, owner);
    assert(0 <= j < s.len() && s[j].owner == owner);
}

/// Replacing `owner`'s entry with another entry for the same owner account
/// leaves every other account's view unchanged.
pub proof fn lemma_entry_update(s: Seq<ProxyEntry>, i: int, e: ProxyEntry, w: u64)
    requires
        forall|p: int, q: int| 0 <= p < q < s.len() ==> s[p].owner != s[q].owner,
        0 <= i < s.len(),
        e.owner == s[i].owner,
    ensures
        forall|p: int, q: int|
            0 <= p < q < s.update(i, e).len() ==> s.update(i, e)[p].owner != s.update(i, e)[q].owner,
        w == e.owner ==> has_entry(s.update(i, e), w) && grants_of(s.update(i, e), w) == e.grants@
            && deposit_of(s.update(i, e), w) == e.deposit as int && depositor_of(s.update(i, e), w)
            == e.depositor,
        w != e.owner ==> has_entry(s.update(i, e), w) == has_entry(s, w) && grants_of(
            s.update(i, e),
            w,
        ) == grants_of(s, w) && deposit_of(s.update(i, e), w) == deposit_of(s, w) && depositor_of(
            s.update(i, e),
            w,
        ) == depositor_of(s, w),
{
    let t = s.update(i, e);
    assert(forall|k: int| 0 <= k < t.len() && k != i ==> t[k] == s[k]);
    if w == e.owner {
        lemma_entry_at(t, w, i);
    } else {
        if has_entry(s, w) {
            let j = entry_at(s, w);
            assert(0 <= j < s.len() && s[j].owner == w);
            assert(t[j].owner == w);
            lemma_entry_at(t, w, j);
            lemma_entry_at(s, w, j);
        } else {
            assert(forall|k: int| 0 <= k < s.len() ==> s[k].owner != w);
            assert(forall|k: int| 0 <= k < t.len() ==> t[k].owner != w);
            assert(!has_entry(t, w));
        }
    }
}

/// Appending an entry for a fresh owner account leaves every other account's
/// view unchanged and gives the new account exactly the pushed entry.
pub proof fn lemma_entry_push(s: Seq<ProxyEntry>, e: ProxyEntry, w: u64)
    requires
        forall|p: int, q: int| 0 <= p < q < s.len() ==> s[p].owner != s[q].owner,
        !has_entry(s, e.owner),
    ensures
        forall|p: int, q: int|
            0 <= p < q < s.push(e).len() ==> s.push(e)[p].owner != s.push(e)[q].owner,
        has_entry(s.push(e), e.owner),
        grants_of(s.push(e), e.owner) == e.grants@,
        deposit_of(s.push(e), e.owner) == e.deposit as int,
        depositor_of(s.push(e), e.owner) == e.depositor,
        w != e.owner ==> has_entry(s.push(e), w) == has_entry(s, w) && grants_of(s.push(e), w)
            == grants_of(s, w) && deposit_of(s.push(e), w) == deposit_of(s, w) && depositor_of(
            s.push(e),
            w,
        ) == depositor_of(s, w),
{
    let t = s.push(e);
    assert(forall|k: int| 0 <= k < s.len() ==> t[k] == s[k]);
    assert(forall|k: int| 0 <= k < s.len() ==> s[k].owner != e.owner);
    assert(t[s.len() as int].owner == e.owner);
    lemma_entry_at(t, e.owner, s.len() as int);
    if w != e.owner {
        if has_entry(s, w) {
            let j = entry_at(s, w);
            assert(0 <= j < s.len() && s[j].owner == w);
            lemma_entry_at(t, w, j);
            lemma_entry_at(s, w, j);
        } else {
            assert(forall|k: int| 0 <= k < t.len() ==> t[k].owner != w);
            assert(!has_entry(t, w));
        }
    }
}

/// Deleting the entry at `i` removes exactly that owner account's view and
/// leaves every other account's view unchanged.
pub proof fn lemma_entry_remove(s: Seq<ProxyEntry>, i: int, w: u64)
    requires
        forall|p: int, q: int| 0 <= p < q < s.len() ==> s[p].owner != s[q].owner,
        0 <= i < s.len(),
    ensures
        forall|p: int, q: int|
            0 <= p < q < s.remove(i).len() ==> s.remove(i)[p].owner != s.remove(i)[q].owner,
        !has_entry(s.remove(i), s[i].owner),
        w != s[i].owner ==> has_entry(s.remove(i), w) == has_entry(s, w) && grants_of(s.remove(i), w)
            == grants_of(s, w) && deposit_of(s.remove(i), w) == deposit_of(s, w) && depositor_of(
            s.remove(i),
            w,
        ) == depositor_of(s, w),
{
    let t = s.remove(i);
    assert(forall|k: int| 0 <= k < i ==> t[k] == s[k]);
    assert(forall|k: int| i <= k < t.len() ==> t[k] == s[k + 1]);
    assert forall|k: int| 0 <= k < t.len() implies t[k].owner != s[i].owner by {
        if k < i {
            assert(t[k] == s[k]);
        } else {
            assert(t[k] == s[k + 1]);
        }
    }
    assert(!has_entry(t, s[i].owner));
    assert forall|p: int, q: int| 0 <= p < q < t.len() implies t[p].owner != t[q].owner by {
        if q < i {
        } else if p < i {
            assert(t[q] == s[q + 1]);
        } else {
            assert(t[p] == s[p + 1] && t[q] == s[q + 1]);
        }
    }
    if w != s[i].owner {
        if has_entry(s, w) {
            let j = entry_at(s, w);
            assert(0 <= j < s.len() && s[j].owner == w);
            lemma_entry_at(s, w, j);
            if j < i {
                assert(t[j].owner == w);
                lemma_entry_at(t, w, j);
            } else {
                assert(j > i);
                assert(t[j - 1] == s[j]);
                lemma_entry_at(t, w, j - 1);
            }
        } else {
            assert(forall|k: int| 0 <= k < s.len() ==> s[k].owner != w);
            assert forall|k: int| 0 <= k < t.len() implies t[k].owner != w by {
                if k < i {
                    assert(t[k] == s[k]);
                } else {
                    assert(t[k] == s[k + 1]);
                }
            }
            assert(!has_entry(t, w));
        }
    }
}

} // verus!

use vstd::prelude::*;

verus! {

/// A pending timed execution: `owner` is the account the delegate intends to
/// act for, `call_hash` the fingerprint of the intended action, `height`
/// the block at which the commitment was recorded.
#[derive(Clone, Copy, PartialEq, Eq, Structural, Debug)]
pub struct Announcement {
    /// The account the announced action would be executed as.
    pub owner: u64,
    /// Fingerprint of the intended action.
    pub call_hash: u64,
    /// Block height at which the announcement was recorded.
    pub height: u64,
}

/// The pending announcements of one delegate, with the deposit bonded for
/// them.
pub struct AnnouncementEntry {
    /// The delegate who made these commitments.
    pub delegate: u64,
    /// Pending announcements, in the order they were made.
    pub announcements: Vec<Announcement>,
    /// The bonded deposit; always `base + factor * |announcements|`.
    pub deposit: u64,
}

/// Whether some entry is keyed by `delegate`.
pub open spec fn has_ann_entry(s: Seq<AnnouncementEntry>, delegate: u64) -> bool {
    exists|i: int| 0 <= i < s.len() && s[i].delegate == delegate
}

/// The index of `delegate`'s entry (unique under well-formedness).
pub open spec fn ann_entry_at(s: Seq<AnnouncementEntry>, delegate: u64) -> int {
    choose|i: int| 0 <= i < s.len() && s[i].delegate == delegate
}

/// The pending announcements of `delegate`; empty when no entry exists.
pub open spec fn anns_of(s: Seq<AnnouncementEntry>, delegate: u64) -> Seq<Announcement> {
    if has_ann_entry(s, delegate) {
        s[ann_entry_at(s, delegate)].announcements@
    } else {
        Seq::empty()
    }
}

/// The deposit bonded for `delegate`'s entry; zero when no entry exists.
pub open spec fn ann_deposit_of(s: Seq<AnnouncementEntry>, delegate: u64) -> int {
    if has_ann_entry(s, delegate) {
        s[ann_entry_at(s, delegate)].deposit as int
    } else {
        0
    }
}

/// Whether an announcement commits `delegate` to the action fingerprinted
/// `call_hash` on behalf of `owner`.
pub open spec fn ann_matches(a: Announcement, owner: u64, call_hash: u64) -> bool {
    a.owner == owner && a.call_hash == call_hash
}

/// Whether some pending announcement matches (`owner`, `call_hash`).
pub open spec fn has_ann_match(s: Seq<Announcement>, owner: u64, call_hash: u64) -> bool {
    exists|i: int| 0 <= i < s.len() && ann_matches(s[i], owner, call_hash)
}

/// Under uniqueness, an index keyed by `delegate` is the index the lookups
/// use.
pub proof fn lemma_ann_entry_at(s: Seq<AnnouncementEntry>, delegate: u64, i: int)
    requires
        forall|p: int, q: int| 0 <= p < q < s.len() ==> s[p].delegate != s[q].delegate,
        0 <= i < s.len(),
        s[i].delegate == delegate,
    ensures
        has_ann_entry(s, delegate),
        ann_entry_at(s, delegate) == i,
        anns_of(s, delegate) == s[i].announcements@,
        ann_deposit_of(s, delegate) == s[i].deposit as int,
{
    assert(has_ann_entry(s, delegate));
    let j = ann_entry_at(s, delegate);
    assert(0 <= j < s.len() && s[j].delegate == delegate);
}

/// Replacing `delegate`'s entry with another entry for the same delegate
/// leaves every other delegate's view unchanged.
pub proof fn lemma_ann_entry_update(s: Seq<AnnouncementEntry>, i: int, e: AnnouncementEntry, w: u64)
    requires
        forall|p: int, q: int| 0 <= p < q < s.len() ==> s[p].delegate != s[q].delegate,
        0 <= i < s.len(),
        e.delegate == s[i].delegate,
    ensures
        forall|p: int, q: int|
            0 <= p < q < s.update(i, e).len() ==> s.update(i, e)[p].delegate != s.update(
                i,
                e,
            )[q].delegate,
        w == e.delegate ==> has_ann_entry(s.update(i, e), w) && anns_of(s.update(i, e), w)
            == e.announcements@ && ann_deposit_of(s.update(i, e), w) == e.deposit as int,
        w != e.delegate ==> has_ann_entry(s.update(i, e), w) == has_ann_entry(s, w) && anns_of(
            s.update(i, e),
            w,
        ) == anns_of(s, w) && ann_deposit_of(s.update(i, e), w) == ann_deposit_of(s, w),
{
    let t = s.update(i, e);
    assert(forall|k: int| 0 <= k < t.len() && k != i ==> t[k] == s[k]);
    if w == e.delegate {
        lemma_ann_entry_at(t, w, i);
    } else {
        if has_ann_entry(s, w) {
            let j = ann_entry_at(s, w);
            assert(0 <= j < s.len() && s[j].delegate == w);
            assert(t[j].delegate == w);
            lemma_ann_entry_at(t, w, j);
            lemma_ann_entry_at(s, w, j);
        } else {
            assert(forall|k: int| 0 <= k < s.len() ==> s[k].delegate != w);
            assert(forall|k: int| 0 <= k < t.len() ==> t[k].delegate != w);
            assert(!has_ann_entry(t, w));
        }
    }
}

/// Appending an entry for a fresh delegate leaves every other delegate's
/// view unchanged and gives the new delegate exactly the pushed entry.
pub proof fn lemma_ann_entry_push(s: Seq<AnnouncementEntry>, e: AnnouncementEntry, w: u64)
    requires
        forall|p: int, q: int| 0 <= p < q < s.len() ==> s[p].delegate != s[q].delegate,
        !has_ann_entry(s, e.delegate),
    ensures
        forall|p: int, q: int|
            0 <= p < q < s.push(e).len() ==> s.push(e)[p].delegate != s.push(e)[q].delegate,
        has_ann_entry(s.push(e), e.delegate),
        anns_of(s.push(e), e.delegate) == e.announcements@,
        ann_deposit_of(s.push(e), e.delegate) == e.deposit as int,
        w != e.delegate ==> has_ann_entry(s.push(e), w) == has_ann_entry(s, w) && anns_of(
            s.push(e),
            w,
        ) == anns_of(s, w) && ann_deposit_of(s.push(e), w) == ann_deposit_of(s, w),
{
    let t = s.push(e);
    assert(forall|k: int| 0 <= k < s.len() ==> t[k] == s[k]);
    assert(forall|k: int| 0 <= k < s.len() ==> s[k].delegate != e.delegate);
    assert(t[s.len() as int].delegate == e.delegate);
    lemma_ann_entry_at(t, e.delegate, s.len() as int);
    if w != e.delegate {
        if has_ann_entry(s, w) {
            let j = ann_entry_at(s, w);
            assert(0 <= j < s.len() && s[j].delegate == w);
            lemma_ann_entry_at(t, w, j);
            lemma_ann_entry_at(s, w, j);
        } else {
            assert(forall|k: int| 0 <= k < t.len() ==> t[k].delegate != w);
            assert(!has_ann_entry(t, w));
        }
    }
}

/// Deleting the entry at `i` removes exactly that delegate's view and
/// leaves every other delegate's view unchanged.
pub proof fn lemma_ann_entry_remove(s: Seq<AnnouncementEntry>, i: int, w: u64)
    requires
        forall|p: int, q: int| 0 <= p < q < s.len() ==> s[p].delegate != s[q].delegate,
        0 <= i < s.len(),
    ensures
        forall|p: int, q: int|
            0 <= p < q < s.remove(i).len() ==> s.remove(i)[p].delegate != s.remove(i)[q].delegate,
        !has_ann_entry(s.remove(i), s[i].delegate),
        w != s[i].delegate ==> has_ann_entry(s.remove(i), w) == has_ann_entry(s, w) && anns_of(
            s.remove(i),
            w,
        ) == anns_of(s, w) && ann_deposit_of(s.remove(i), w) == ann_deposit_of(s, w),
{
    let t = s.remove(i);
    assert(forall|k: int| 0 <= k < i ==> t[k] == s[k]);
    assert(forall|k: int| i <= k < t.len() ==> t[k] == s[k + 1]);
    assert forall|k: int| 0 <= k < t.len() implies t[k].delegate != s[i].delegate by {
        if k < i {
            assert(t[k] == s[k]);
        } else {
            assert(t[k] == s[k + 1]);
        }
    }
    assert(!has_ann_entry(t, s[i].delegate));
    assert forall|p: int, q: int| 0 <= p < q < t.len() implies t[p].delegate != t[q].delegate by {
        if q < i {
        } else if p < i {
            assert(t[q] == s[q + 1]);
        } else {
            assert(t[p] == s[p + 1] && t[q] == s[q + 1]);
        }
    }
    if w != s[i].delegate {
        if has_ann_entry(s, w) {
            let j = ann_entry_at(s, w);
            assert(0 <= j < s.len() && s[j].delegate == w);
            lemma_ann_entry_at(s, w, j);
            if j < i {
                assert(t[j].delegate == w);
                lemma_ann_entry_at(t, w, j);
            } else {
                assert(j > i);
                assert(t[j - 1] == s[j]);
                lemma_ann_entry_at(t, w, j - 1);
            }
        } else {
            assert(forall|k: int| 0 <= k < s.len() ==> s[k].delegate != w);
            assert forall|k: int| 0 <= k < t.len() implies t[k].delegate != w by {
                if k < i {
                    assert(t[k] == s[k]);
                } else {
                    assert(t[k] == s[k + 1]);
                }
            }
            assert(!has_ann_entry(t, w));
        }
    }
}

} // verus!

use vstd::prelude::*;

use crate::announce::Announcement;
use crate::announce::ann_matches;
use crate::announce::anns_of;
use crate::announce::has_ann_match;
use crate::caps::Action;
use crate::caps::ProxyCapability;
use crate::derive::DerivationSeed;
use crate::derive::derived_account;
use crate::derive::fingerprint_of;
use crate::engine::ProxyEngine;
use crate::engine::add_proxy_ok;
use crate::engine::add_proxy_result;
use crate::engine::announce_ok;
use crate::engine::announcement_removed;
use crate::engine::anonymous_ok;
use crate::engine::anonymous_result;
use crate::engine::covering;
use crate::engine::engine_wf;
use crate::engine::has_covering;
use crate::engine::has_zero_delay_covering;
use crate::engine::is_min_covering_delay;
use crate::engine::kill_anonymous_ok;
use crate::engine::kill_anonymous_result;
use crate::engine::lemma_min_delay_unique;
use crate::engine::min_covering_delay;
use crate::engine::ann_refund;
use crate::engine::proxy_announced_result;
use crate::engine::proxy_entry_wf;
use crate::engine::proxy_result;
use crate::engine::ready_match;
use crate::engine::refund_applied;
use crate::engine::remove_proxies_post;
use crate::engine::remove_proxy_ok;
use crate::engine::sweep_refunds;
use crate::ledger::BalanceRecord;
use crate::ledger::unreserved_like;
use crate::errors::ProxyError;
use crate::filter::filter_allows;
use crate::ledger::free_of;
use crate::ledger::reserved_of;
use crate::registry::ProxyGrant;
use crate::registry::deposit_of;
use crate::registry::depositor_of;
use crate::registry::entry_at;
use crate::registry::grants_of;
use crate::registry::has_entry;
use crate::registry::has_grant;

verus! {

/// Round trip of a grant: for any account without a registry entry,
/// granting once and then revoking that same grant leaves the entry absent
/// and both balances of the account exactly as they were — the deposit is
/// fully refunded.
pub proof fn lemma_grant_round_trip(
    s0: ProxyEngine,
    s1: ProxyEngine,
    s2: ProxyEngine,
    owner: u64,
    delegate: u64,
    capability: ProxyCapability,
    delay: u64,
)
    requires
        engine_wf(s0),
        !has_entry(s0.proxies@, owner),
        add_proxy_ok(s0, s1, owner, delegate, capability, delay),
        remove_proxy_ok(s1, s2, owner, delegate, capability, delay),
    ensures
        !has_entry(s2.proxies@, owner),
        reserved_of(s2.ledger.accounts@, owner) == reserved_of(s0.ledger.accounts@, owner),
        free_of(s2.ledger.accounts@, owner) == free_of(s0.ledger.accounts@, owner),
{
    let g = ProxyGrant { delegate, capability, delay };
    let delta: int = s0.config.proxy_deposit_base + s0.config.proxy_deposit_factor;
    let k = choose|k: int|
        0 <= k <= grants_of(s0.proxies@, owner).len() && grants_of(s1.proxies@, owner)
            == grants_of(s0.proxies@, owner).insert(k, g);
    assert(grants_of(s0.proxies@, owner).len() == 0);
    assert(grants_of(s1.proxies@, owner).len() == 1);
    assert(deposit_of(s1.proxies@, owner) == delta);
    assert(depositor_of(s1.proxies@, owner) == owner);
    assert(reserved_of(s1.ledger.accounts@, owner) == reserved_of(s0.ledger.accounts@, owner)
        + delta);
    assert(free_of(s1.ledger.accounts@, owner) == free_of(s0.ledger.accounts@, owner) - delta);
}

/// Capacity bound: once an account holds `MaxProxies` grants, the next
/// (fresh, non-self) grant is refused with `TooMany`.
pub proof fn lemma_capacity_bound(
    s: ProxyEngine,
    owner: u64,
    delegate: u64,
    capability: ProxyCapability,
    delay: u64,
)
    requires
        engine_wf(s),
        grants_of(s.proxies@, owner).len() >= s.config.max_proxies,
        delegate != owner,
        !has_grant(grants_of(s.proxies@, owner), ProxyGrant { delegate, capability, delay }),
    ensures
        add_proxy_result(s, owner, delegate, capability, delay) == Err::<(), ProxyError>(
            ProxyError::TooMany,
        ),
{
}

/// Capacity recovery: revoking one grant of a full entry makes room, so
/// re-granting that same delegation succeeds. The two hypotheses beyond the
/// scenario itself hold of any history of plain grant additions: the entry
/// was opened by the owner, and the owner's reserve covers the recorded
/// deposit (every addition reserved exactly its delta). The refund of the
/// revocation then funds the re-addition by itself.
pub proof fn lemma_remove_then_readd(
    s0: ProxyEngine,
    s1: ProxyEngine,
    owner: u64,
    delegate: u64,
    capability: ProxyCapability,
    delay: u64,
)
    requires
        engine_wf(s0),
        engine_wf(s1),
        grants_of(s0.proxies@, owner).len() == s0.config.max_proxies,
        has_grant(grants_of(s0.proxies@, owner), ProxyGrant { delegate, capability, delay }),
        remove_proxy_ok(s0, s1, owner, delegate, capability, delay),
        depositor_of(s0.proxies@, owner) == owner,
        reserved_of(s0.ledger.accounts@, owner) >= deposit_of(s0.proxies@, owner),
    ensures
        add_proxy_result(s1, owner, delegate, capability, delay) == Ok::<(), ProxyError>(()),
{
    let g = ProxyGrant { delegate, capability, delay };
    let gs0 = grants_of(s0.proxies@, owner);
    assert(has_entry(s0.proxies@, owner));
    let i = entry_at(s0.proxies@, owner);
    assert(0 <= i < s0.proxies@.len() && s0.proxies@[i].owner == owner);
    assert(proxy_entry_wf(s0.proxies@[i], s0.config));
    assert(s1.config == s0.config);
    let released: int = if gs0.len() == 1 {
        deposit_of(s0.proxies@, owner)
    } else {
        s0.config.proxy_deposit_factor as int
    };
    vstd::arithmetic::mul::lemma_mul_inequality(
        1,
        gs0.len() as int,
        s0.config.proxy_deposit_factor as int,
    );
    assert(released <= deposit_of(s0.proxies@, owner));
    assert(free_of(s1.ledger.accounts@, owner) == free_of(s0.ledger.accounts@, owner) + released);
    assert(free_of(s0.ledger.accounts@, owner) >= 0);
    if gs0.len() == 1 {
        assert(!has_entry(s1.proxies@, owner));
        assert(grants_of(s1.proxies@, owner).len() == 0);
        assert(!has_grant(grants_of(s1.proxies@, owner), g));
        assert(deposit_of(s0.proxies@, owner) == s0.config.proxy_deposit_base as int
            + s0.config.proxy_deposit_factor as int);
    } else {
        let k = choose|k: int|
            0 <= k < gs0.len() && gs0[k] == g && grants_of(s1.proxies@, owner) == gs0.remove(k);
        let gs1 = grants_of(s1.proxies@, owner);
        assert forall|j: int| 0 <= j < gs1.len() implies gs1[j] != g by {
            if j < k {
                assert(gs1[j] == gs0[j]);
                assert(crate::registry::grant_lt(gs0[j], gs0[k]));
                if gs0[j] == g {
                    crate::engine::lemma_grant_trichotomy(g, g);
                }
            } else {
                assert(gs1[j] == gs0[j + 1]);
                assert(crate::registry::grant_lt(gs0[k], gs0[j + 1]));
                if gs0[j + 1] == g {
                    crate::engine::lemma_grant_trichotomy(g, g);
                }
            }
        }
        assert(!has_grant(gs1, g));
        assert(gs1.len() == gs0.len() - 1);
        assert(gs1.len() < s1.config.max_proxies);
        assert(depositor_of(s1.proxies@, owner) == owner);
    }
}

/// Purging all grants refunds everyone exactly: with reserves covering what
/// is owed (as any honest history provides), the owner's entry deposit
/// returns in full to its depositor, and every delegate's reserve drops by
/// precisely the slices of its cancelled announcements — nothing more,
/// nothing less, and (by `remove_proxies_post` itself) no other account
/// moves at all.
pub proof fn lemma_remove_proxies_refunds(pre: ProxyEngine, post: ProxyEngine, owner: u64)
    requires
        remove_proxies_post(pre, post, owner),
        reserved_of(pre.ledger.accounts@, depositor_of(pre.proxies@, owner)) >= deposit_of(
            pre.proxies@,
            owner,
        ),
        reserved_of(pre.ledger.accounts@, depositor_of(pre.proxies@, owner)) - deposit_of(
            pre.proxies@,
            owner,
        ) >= ann_refund(
            pre.announcements@,
            pre.config,
            depositor_of(pre.proxies@, owner),
            owner,
        ),
    ensures
        reserved_of(post.ledger.accounts@, depositor_of(pre.proxies@, owner)) == reserved_of(
            pre.ledger.accounts@,
            depositor_of(pre.proxies@, owner),
        ) - deposit_of(pre.proxies@, owner) - ann_refund(
            pre.announcements@,
            pre.config,
            depositor_of(pre.proxies@, owner),
            owner,
        ),
        forall|d: u64|
            d != depositor_of(pre.proxies@, owner) && ann_refund(
                pre.announcements@,
                pre.config,
                d,
                owner,
            ) <= reserved_of(pre.ledger.accounts@, d) ==> reserved_of(post.ledger.accounts@, d)
                == reserved_of(pre.ledger.accounts@, d) - ann_refund(
                pre.announcements@,
                pre.config,
                d,
                owner,
            ),
{
    let dep0 = depositor_of(pre.proxies@, owner);
    let amount = deposit_of(pre.proxies@, owner);
    let mid = choose|mid: Seq<BalanceRecord>|
        (#[trigger] unreserved_like(pre.ledger.accounts@, mid, dep0, amount)) && sweep_refunds(
            mid,
            post.ledger.accounts@,
            pre.announcements@,
            pre.config,
            owner,
        );
    assert(refund_applied(
        mid,
        post.ledger.accounts@,
        dep0,
        ann_refund(pre.announcements@, pre.config, dep0, owner),
    ));
    assert forall|d: u64|
        d != dep0 && ann_refund(pre.announcements@, pre.config, d, owner) <= reserved_of(
            pre.ledger.accounts@,
            d,
        ) implies reserved_of(post.ledger.accounts@, d) == reserved_of(pre.ledger.accounts@, d)
        - ann_refund(pre.announcements@, pre.config, d, owner) by {
        assert(refund_applied(
            mid,
            post.ledger.accounts@,
            d,
            ann_refund(pre.announcements@, pre.config, d, owner),
        ));
    }
}

/// Immediate proxying demands a zero-delay grant: whenever no zero-delay
/// grant covering the action's category exists — however many grants with
/// a positive delay do — the call is refused `NotAuthorized`.
pub proof fn lemma_proxy_needs_zero_delay(s: ProxyEngine, owner: u64, delegate: u64, action: Action)
    requires
        !has_zero_delay_covering(grants_of(s.proxies@, owner), delegate, action.category),
    ensures
        proxy_result(s, owner, delegate, action) == Err::<(), ProxyError>(
            ProxyError::NotAuthorized,
        ),
{
}

/// Announce-then-execute round trip, first half: with a single covering
/// grant of delay `d` and an announcement freshly recorded at `h0`,
/// executing before `h0 + d` is refused `TooEarly`; from `h0 + d` on (and
/// with the filter content) it succeeds.
pub proof fn lemma_announce_execute_window(
    s0: ProxyEngine,
    s1: ProxyEngine,
    owner: u64,
    delegate: u64,
    action: Action,
    d: u64,
    h0: u64,
    h: u64,
)
    requires
        engine_wf(s0),
        engine_wf(s1),
        anns_of(s0.announcements@, delegate).len() == 0,
        is_min_covering_delay(grants_of(s0.proxies@, owner), delegate, action.category, d),
        announce_ok(s0, s1, owner, delegate, action, h0),
    ensures
        h < h0 + d ==> proxy_announced_result(s1, owner, delegate, action, h) == Err::<
            (),
            ProxyError,
        >(ProxyError::TooEarly),
        h >= h0 + d && filter_allows(s1.filter, action.module, action.call)
            ==> proxy_announced_result(s1, owner, delegate, action, h) == Ok::<(), ProxyError>(()),
{
    let gs = grants_of(s1.proxies@, owner);
    assert(gs == grants_of(s0.proxies@, owner));
    assert(has_covering(gs, delegate, action.category));
    let dm = min_covering_delay(gs, delegate, action.category);
    assert(is_min_covering_delay(gs, delegate, action.category, dm));
    lemma_min_delay_unique(gs, delegate, action.category, dm, d);
    let fp = fingerprint_of(action);
    let ann = Announcement { owner, call_hash: fp, height: h0 };
    let anns = anns_of(s1.announcements@, delegate);
    assert(anns == anns_of(s0.announcements@, delegate).push(ann));
    assert(anns.len() == 1);
    assert(anns[0] == ann);
    assert(ann_matches(anns[0], owner, fp));
    assert(has_ann_match(anns, owner, fp));
    if h < h0 + d {
        assert forall|k: int|
            0 <= k < anns.len() implies !(ann_matches(anns[k], owner, fp) && h >= anns[k].height
            + d) by {
            assert(anns[k] == ann);
        }
        assert(!ready_match(anns, owner, fp, h, d));
    } else {
        assert(ann_matches(anns[0], owner, fp) && h >= anns[0].height + d);
        assert(ready_match(anns, owner, fp, h, d));
    }
}

/// Announce-then-execute round trip, second half: consumption is
/// single-shot. Once the only matching announcement has been consumed (or
/// struck), a further execution attempt at any height is refused
/// `NotFound`.
pub proof fn lemma_consumed_announcement_not_found(
    s1: ProxyEngine,
    s2: ProxyEngine,
    owner: u64,
    delegate: u64,
    action: Action,
    h2: u64,
)
    requires
        engine_wf(s1),
        engine_wf(s2),
        has_covering(grants_of(s1.proxies@, owner), delegate, action.category),
        forall|k1: int, k2: int|
            0 <= k1 < anns_of(s1.announcements@, delegate).len() && 0 <= k2 < anns_of(
                s1.announcements@,
                delegate,
            ).len() && ann_matches(
                anns_of(s1.announcements@, delegate)[k1],
                owner,
                fingerprint_of(action),
            ) && ann_matches(
                anns_of(s1.announcements@, delegate)[k2],
                owner,
                fingerprint_of(action),
            ) ==> k1 == k2,
        announcement_removed(s1, s2, delegate, owner, fingerprint_of(action)),
    ensures
        proxy_announced_result(s2, owner, delegate, action, h2) == Err::<(), ProxyError>(
            ProxyError::NotFound,
        ),
{
    let fp = fingerprint_of(action);
    let anns1 = anns_of(s1.announcements@, delegate);
    let anns2 = anns_of(s2.announcements@, delegate);
    assert(grants_of(s2.proxies@, owner) == grants_of(s1.proxies@, owner));
    let k = choose|k: int|
        0 <= k < anns1.len() && ann_matches(anns1[k], owner, fp) && anns2 == anns1.remove(k);
    assert forall|j: int| 0 <= j < anns2.len() implies !ann_matches(anns2[j], owner, fp) by {
        if j < k {
            assert(anns2[j] == anns1[j]);
        } else {
            assert(anns2[j] == anns1[j + 1]);
        }
    }
    assert(!has_ann_match(anns2, owner, fp));
}

/// A rejected announcement blocks execution: after the targeted account
/// (who is not the delegate) strikes the only matching announcement, the
/// delegate's execution attempt is refused `NotFound`. The same follows
/// for the delegate's own withdrawal. The covering grant must still stand,
/// as rejection touches no grants and it does in the scenario; were every
/// grant also revoked, the refusal would be `NotAuthorized` instead.
pub proof fn lemma_reject_blocks_execution(
    s1: ProxyEngine,
    s2: ProxyEngine,
    owner: u64,
    delegate: u64,
    action: Action,
    h2: u64,
)
    requires
        engine_wf(s1),
        engine_wf(s2),
        has_covering(grants_of(s1.proxies@, owner), delegate, action.category),
        forall|k1: int, k2: int|
            0 <= k1 < anns_of(s1.announcements@, delegate).len() && 0 <= k2 < anns_of(
                s1.announcements@,
                delegate,
            ).len() && ann_matches(
                anns_of(s1.announcements@, delegate)[k1],
                owner,
                fingerprint_of(action),
            ) && ann_matches(
                anns_of(s1.announcements@, delegate)[k2],
                owner,
                fingerprint_of(action),
            ) ==> k1 == k2,
        announcement_removed(s1, s2, delegate, owner, fingerprint_of(action)),
    ensures
        proxy_announced_result(s2, owner, delegate, action, h2) == Err::<(), ProxyError>(
            ProxyError::NotFound,
        ),
{
    lemma_consumed_announcement_not_found(s1, s2, owner, delegate, action, h2);
}

/// Anonymous creation is deterministic and single-shot: a second call with
/// the identical seed tuple computes the identical derived address, and is
/// refused `AlreadyExists` because that address's entry now exists.
pub proof fn lemma_anonymous_single_shot(
    s0: ProxyEngine,
    s1: ProxyEngine,
    creator: u64,
    capability: ProxyCapability,
    delay: u64,
    index: u16,
    height: u64,
    ext_index: u32,
)
    requires
        anonymous_ok(s0, s1, creator, capability, delay, index, height, ext_index),
    ensures
        anonymous_result(s1, creator, capability, delay, index, height, ext_index) == Err::<
            u64,
            ProxyError,
        >(ProxyError::AlreadyExists),
{
}

/// A restated seed that does not re-derive to the stated account is
/// refused `SeedMismatch`, whatever the registries hold.
pub proof fn lemma_kill_seed_mismatch(
    s: ProxyEngine,
    derived: u64,
    creator: u64,
    capability: ProxyCapability,
    delay: u64,
    index: u16,
    height: u64,
    ext_index: u32,
)
    requires
        derived_account(
            DerivationSeed {
                creator,
                capability,
                delay,
                index,
                creation_height: height,
                creation_ext_index: ext_index,
            },
        ) != derived,
    ensures
        kill_anonymous_result(s, derived, creator, capability, delay, index, height, ext_index)
            == Err::<(), ProxyError>(ProxyError::SeedMismatch),
{
}

/// Anonymous teardown round trip: creating an anonymous account and then
/// killing it with the correct seed (and no grants added meanwhile)
/// removes the entry and refunds the whole deposit to the creator; only
/// the derived account's initial endowment has left the creator.
pub proof fn lemma_kill_refunds_creator(
    s0: ProxyEngine,
    s1: ProxyEngine,
    s2: ProxyEngine,
    creator: u64,
    capability: ProxyCapability,
    delay: u64,
    index: u16,
    height: u64,
    ext_index: u32,
)
    requires
        engine_wf(s0),
        engine_wf(s1),
        anonymous_ok(s0, s1, creator, capability, delay, index, height, ext_index),
        kill_anonymous_ok(
            s1,
            s2,
            derived_account(
                DerivationSeed {
                    creator,
                    capability,
                    delay,
                    index,
                    creation_height: height,
                    creation_ext_index: ext_index,
                },
            ),
        ),
    ensures
        !has_entry(
            s2.proxies@,
            derived_account(
                DerivationSeed {
                    creator,
                    capability,
                    delay,
                    index,
                    creation_height: height,
                    creation_ext_index: ext_index,
                },
            ),
        ),
        reserved_of(s2.ledger.accounts@, creator) == reserved_of(s0.ledger.accounts@, creator),
        free_of(s2.ledger.accounts@, creator) == free_of(s0.ledger.accounts@, creator)
            - s0.config.existential_deposit,
{
    let seed = DerivationSeed {
        creator,
        capability,
        delay,
        index,
        creation_height: height,
        creation_ext_index: ext_index,
    };
    let a = derived_account(seed);
    let dep: int = s0.config.proxy_deposit_base + s0.config.proxy_deposit_factor;
    assert(deposit_of(s1.proxies@, a) == dep);
    assert(depositor_of(s1.proxies@, a) == creator);
    assert(reserved_of(s1.ledger.accounts@, creator) == reserved_of(s0.ledger.accounts@, creator)
        + dep);
}

} // verus!

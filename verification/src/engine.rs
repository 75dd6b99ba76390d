use vstd::prelude::*;
use vstd::arithmetic::mul::lemma_mul_inequality;

use crate::caps::Action;
use crate::caps::ProxyCapability;
use crate::caps::capability_covers;
use crate::caps::capability_rank;
use crate::caps::covers;
use crate::errors::ProxyError;
use crate::filter::CallFilter;
use crate::filter::filter_allows;
use crate::filter::filter_wf;
use crate::ledger::BalanceRecord;
use crate::ledger::Ledger;
use crate::ledger::free_of;
use crate::ledger::ledger_wf;
use crate::ledger::reserved_of;
use crate::ledger::reserved_like;
use crate::ledger::unreserved_like;
use crate::registry::ProxyEntry;
use crate::registry::ProxyGrant;
use crate::registry::deposit_of;
use crate::registry::depositor_of;
use crate::registry::grant_lt;
use crate::registry::grants_of;
use crate::registry::grants_sorted;
use crate::registry::has_entry;
use crate::registry::has_grant;
use crate::registry::lemma_entry_at;
use crate::registry::lemma_entry_push;
use crate::registry::lemma_entry_remove;
use crate::registry::lemma_entry_update;
use crate::announce::Announcement;
use crate::announce::AnnouncementEntry;
use crate::announce::ann_deposit_of;
use crate::announce::ann_matches;
use crate::announce::anns_of;
use crate::announce::has_ann_entry;
use crate::announce::has_ann_match;
use crate::announce::lemma_ann_entry_at;
use crate::announce::lemma_ann_entry_push;
use crate::announce::lemma_ann_entry_remove;
use crate::announce::lemma_ann_entry_update;
use crate::derive::DerivationSeed;
use crate::derive::call_fingerprint;
use crate::derive::derive_account;
use crate::derive::derived_account;
use crate::derive::fingerprint_of;

verus! {

/// The configured constants of the engine: capacity bounds and the deposit
/// schedule of each registry, plus the minimal balance a freshly derived
/// account is endowed with.
#[derive(Clone, Copy, PartialEq, Eq, Structural, Debug)]
pub struct EngineConfig {
    /// Most grants one real account may hold.
    pub max_proxies: u64,
    /// Most pending announcements one delegate may hold.
    pub max_pending: u64,
    /// Deposit bonded for a proxy registry entry existing at all.
    pub proxy_deposit_base: u64,
    /// Additional deposit bonded per grant.
    pub proxy_deposit_factor: u64,
    /// Deposit bonded for an announcement registry entry existing at all.
    pub announcement_deposit_base: u64,
    /// Additional deposit bonded per pending announcement.
    pub announcement_deposit_factor: u64,
    /// Free balance moved to a derived account at its creation.
    pub existential_deposit: u64,
}

/// Configuration sanity: capacities are positive and the largest possible
/// deposit of either registry fits in the balance type.
pub open spec fn config_wf(c: EngineConfig) -> bool {
    &&& 1 <= c.max_proxies
    &&& 1 <= c.max_pending
    &&& c.proxy_deposit_base + c.proxy_deposit_factor * c.max_proxies <= u64::MAX
    &&& c.announcement_deposit_base + c.announcement_deposit_factor * c.max_pending <= u64::MAX
}

/// Well-formedness of one proxy registry entry: grants are canonically
/// sorted (hence unique), within capacity, never name the owner itself, and
/// the recorded deposit is exactly what the schedule says.
pub open spec fn proxy_entry_wf(e: ProxyEntry, c: EngineConfig) -> bool {
    &&& grants_sorted(e.grants@)
    &&& 1 <= e.grants@.len() <= c.max_proxies
    &&& e.deposit as int == c.proxy_deposit_base + c.proxy_deposit_factor * e.grants@.len()
    &&& forall|i: int| 0 <= i < e.grants@.len() ==> (#[trigger] e.grants@[i]).delegate != e.owner
}

/// Well-formedness of one announcement registry entry: within capacity and
/// deposited exactly per schedule.
pub open spec fn ann_entry_wf(e: AnnouncementEntry, c: EngineConfig) -> bool {
    &&& 1 <= e.announcements@.len() <= c.max_pending
    &&& e.deposit as int == c.announcement_deposit_base + c.announcement_deposit_factor
        * e.announcements@.len()
}

/// The delegated-authorization engine: both registries, the deposit ledger
/// they bond storage against, and the call-filtering capability consulted
/// before a proxied action may run.
pub struct ProxyEngine {
    /// Configured constants.
    pub config: EngineConfig,
    /// Proxy registry: one entry per real account with grants, unique.
    pub proxies: Vec<ProxyEntry>,
    /// Announcement registry: one entry per delegate with pending
    /// announcements, unique.
    pub announcements: Vec<AnnouncementEntry>,
    /// The deposit ledger.
    pub ledger: Ledger,
    /// The call filter.
    pub filter: CallFilter,
}

/// The engine invariant: every registry entry is well-formed and uniquely
/// keyed, the ledger and filter are well-formed, and the configuration is
/// sane. Every operation preserves this.
pub open spec fn engine_wf(s: ProxyEngine) -> bool {
    &&& config_wf(s.config)
    &&& forall|i: int, j: int|
        0 <= i < j < s.proxies@.len() ==> s.proxies@[i].owner != s.proxies@[j].owner
    &&& forall|i: int|
        0 <= i < s.proxies@.len() ==> proxy_entry_wf(#[trigger] s.proxies@[i], s.config)
    &&& forall|i: int, j: int|
        0 <= i < j < s.announcements@.len() ==> s.announcements@[i].delegate
            != s.announcements@[j].delegate
    &&& forall|i: int|
        0 <= i < s.announcements@.len() ==> ann_entry_wf(#[trigger] s.announcements@[i], s.config)
    &&& ledger_wf(s.ledger.accounts@)
    &&& filter_wf(s.filter.blocked@)
}

/// Everything observable about the engine is as it was.
pub open spec fn engine_unchanged(a: ProxyEngine, b: ProxyEngine) -> bool {
    &&& b.config == a.config
    &&& b.proxies@ == a.proxies@
    &&& b.announcements@ == a.announcements@
    &&& b.ledger.accounts@ == a.ledger.accounts@
    &&& b.filter.mode == a.filter.mode
    &&& b.filter.blocked@ == a.filter.blocked@
}

/// Whether grant `g` lets `delegate` act in category `cat` (at whatever
/// delay).
pub open spec fn covering(g: ProxyGrant, delegate: u64, cat: ProxyCapability) -> bool {
    g.delegate == delegate && covers(g.capability, cat)
}

/// Some grant covers (`delegate`, `cat`).
pub open spec fn has_covering(gs: Seq<ProxyGrant>, delegate: u64, cat: ProxyCapability) -> bool {
    exists|i: int| 0 <= i < gs.len() && covering(gs[i], delegate, cat)
}

/// Some zero-delay grant covers (`delegate`, `cat`): the condition for
/// immediate proxying.
pub open spec fn has_zero_delay_covering(
    gs: Seq<ProxyGrant>,
    delegate: u64,
    cat: ProxyCapability,
) -> bool {
    exists|i: int| 0 <= i < gs.len() && covering(gs[i], delegate, cat) && gs[i].delay == 0
}

/// `d` is the least delay among the grants covering (`delegate`, `cat`).
pub open spec fn is_min_covering_delay(
    gs: Seq<ProxyGrant>,
    delegate: u64,
    cat: ProxyCapability,
    d: u64,
) -> bool {
    &&& exists|i: int| 0 <= i < gs.len() && covering(gs[i], delegate, cat) && gs[i].delay == d
    &&& forall|i: int| 0 <= i < gs.len() && covering(#[trigger] gs[i], delegate, cat) ==> d <= gs[i].delay
}

/// The least covering delay (meaningful only when a covering grant exists).
pub open spec fn min_covering_delay(gs: Seq<ProxyGrant>, delegate: u64, cat: ProxyCapability) -> u64 {
    choose|d: u64| is_min_covering_delay(gs, delegate, cat, d)
}

/// Two least delays are the same delay.
pub proof fn lemma_min_delay_unique(
    gs: Seq<ProxyGrant>,
    delegate: u64,
    cat: ProxyCapability,
    d1: u64,
    d2: u64,
)
    requires
        is_min_covering_delay(gs, delegate, cat, d1),
        is_min_covering_delay(gs, delegate, cat, d2),
    ensures
        d1 == d2,
{
    let i1 = choose|i: int| 0 <= i < gs.len() && covering(gs[i], delegate, cat) && gs[i].delay == d1;
    let i2 = choose|i: int| 0 <= i < gs.len() && covering(gs[i], delegate, cat) && gs[i].delay == d2;
    assert(covering(gs[i1], delegate, cat));
    assert(covering(gs[i2], delegate, cat));
}

/// The canonical grant order is transitive.
pub proof fn lemma_grant_lt_trans(a: ProxyGrant, b: ProxyGrant, c: ProxyGrant)
    requires
        grant_lt(a, b),
        grant_lt(b, c),
    ensures
        grant_lt(a, c),
{
}

/// Two grants neither of which precedes the other are the same grant.
pub proof fn lemma_grant_trichotomy(a: ProxyGrant, b: ProxyGrant)
    requires
        !grant_lt(a, b),
        !grant_lt(b, a),
    ensures
        a == b,
{
    crate::caps::lemma_cap_rank_injective(a.capability, b.capability);
}

/// Inserting `g` at a position that respects the canonical order keeps the
/// sequence sorted.
pub proof fn lemma_sorted_insert(s: Seq<ProxyGrant>, pos: int, g: ProxyGrant)
    requires
        grants_sorted(s),
        0 <= pos <= s.len(),
        forall|j: int| 0 <= j < pos ==> grant_lt(#[trigger] s[j], g),
        forall|j: int| pos <= j < s.len() ==> grant_lt(g, #[trigger] s[j]),
    ensures
        grants_sorted(s.insert(pos, g)),
        s.insert(pos, g).len() == s.len() + 1,
{
    let t = s.insert(pos, g);
    assert(forall|k: int| 0 <= k < pos ==> t[k] == s[k]);
    assert(t[pos] == g);
    assert(forall|k: int| pos < k < t.len() ==> t[k] == s[k - 1]);
    assert forall|i: int, j: int| 0 <= i < j < t.len() implies grant_lt(t[i], t[j]) by {
        if j < pos {
        } else if i < pos && j == pos {
        } else if i < pos && j > pos {
            assert(grant_lt(s[i], g));
            assert(grant_lt(g, s[j - 1]));
            lemma_grant_lt_trans(s[i], g, s[j - 1]);
        } else if i == pos {
            assert(grant_lt(g, s[j - 1]));
        } else {
            assert(grant_lt(s[i - 1], s[j - 1]));
        }
    }
}

/// Removing an element of a sorted sequence keeps it sorted.
pub proof fn lemma_sorted_remove(s: Seq<ProxyGrant>, pos: int)
    requires
        grants_sorted(s),
        0 <= pos < s.len(),
    ensures
        grants_sorted(s.remove(pos)),
{
    let t = s.remove(pos);
    assert(forall|k: int| 0 <= k < pos ==> t[k] == s[k]);
    assert(forall|k: int| pos <= k < t.len() ==> t[k] == s[k + 1]);
    assert forall|i: int, j: int| 0 <= i < j < t.len() implies grant_lt(t[i], t[j]) by {
        if j < pos {
        } else if i < pos {
            assert(t[j] == s[j + 1]);
        } else {
            assert(t[i] == s[i + 1] && t[j] == s[j + 1]);
        }
    }
}

/// Finds the entry index of `owner` in the proxy registry, if present.
fn find_entry(v: &Vec<ProxyEntry>, owner: u64) -> (r: Option<usize>)
    ensures
        match r {
            Some(i) => i < v@.len() && v@[i as int].owner == owner,
            None => !has_entry(v@, owner),
        },
{
    let mut i: usize = 0;
    while i < v.len()
        invariant
            i <= v@.len(),
            forall|j: int| 0 <= j < i ==> v@[j].owner != owner,
        decreases v@.len() - i,
    {
        if v[i].owner == owner {
            return Some(i);
        }
        i = i + 1;
    }
    None
}

/// Where `g` stands, or belongs, in the canonically sorted `v`: either its
/// index (`dup` true) or the insertion position keeping the order (`dup`
/// false).
fn locate_grant(v: &Vec<ProxyGrant>, g: ProxyGrant) -> (r: (usize, bool))
    requires
        grants_sorted(v@),
    ensures
        r.1 ==> r.0 < v@.len() && v@[r.0 as int] == g && has_grant(v@, g),
        !r.1 ==> !has_grant(v@, g) && r.0 <= v@.len() && (forall|j: int|
            0 <= j < r.0 ==> grant_lt(#[trigger] v@[j], g)) && (forall|j: int|
            r.0 <= j < v@.len() ==> grant_lt(g, #[trigger] v@[j])),
{
    let mut i: usize = 0;
    while i < v.len()
        invariant
            grants_sorted(v@),
            i <= v@.len(),
            forall|j: int| 0 <= j < i ==> grant_lt(#[trigger] v@[j], g),
        decreases v@.len() - i,
    {
        let c = v[i];
        if c.delegate == g.delegate && capability_rank(c.capability) == capability_rank(g.capability)
            && c.delay == g.delay {
            proof {
                crate::caps::lemma_cap_rank_injective(c.capability, g.capability);
                assert(v@[i as int] == g);
            }
            return (i, true);
        }
        let before = if c.delegate < g.delegate {
            true
        } else if c.delegate > g.delegate {
            false
        } else {
            let rc = capability_rank(c.capability);
            let rg = capability_rank(g.capability);
            if rc < rg {
                true
            } else if rc > rg {
                false
            } else {
                c.delay < g.delay
            }
        };
        if !before {
            proof {
                assert(!grant_lt(v@[i as int], g));
                assert(v@[i as int] != g);
                if !grant_lt(g, v@[i as int]) {
                    lemma_grant_trichotomy(v@[i as int], g);
                }
                assert(grant_lt(g, v@[i as int]));
                assert forall|j: int| i <= j < v@.len() implies grant_lt(g, #[trigger] v@[j]) by {
                    if j > i {
                        lemma_grant_lt_trans(g, v@[i as int], v@[j]);
                    }
                }
                assert forall|j: int| 0 <= j < v@.len() implies v@[j] != g by {
                    if j < i {
                        assert(grant_lt(v@[j], g));
                        if v@[j] == g {
                            lemma_grant_trichotomy(g, g);
                        }
                    } else {
                        assert(grant_lt(g, v@[j]));
                    }
                }
                assert(!has_grant(v@, g));
            }
            return (i, false);
        }
        i = i + 1;
    }
    proof {
        assert forall|j: int| 0 <= j < v@.len() implies v@[j] != g by {
            assert(grant_lt(v@[j], g));
        }
        assert(!has_grant(v@, g));
    }
    (v.len(), false)
}

/// The deposit the schedule owes for a proxy entry of `n` grants.
fn proxy_deposit_for(c: &EngineConfig, n: u64) -> (r: u64)
    requires
        config_wf(*c),
        1 <= n <= c.max_proxies,
    ensures
        r as int == c.proxy_deposit_base + c.proxy_deposit_factor * n,
{
    proof {
        lemma_mul_inequality(n as int, c.max_proxies as int, c.proxy_deposit_factor as int);
    }
    c.proxy_deposit_base + c.proxy_deposit_factor * n
}

/// The deposit the schedule owes for an announcement entry of `n` pending
/// announcements.
fn ann_deposit_for(c: &EngineConfig, n: u64) -> (r: u64)
    requires
        config_wf(*c),
        1 <= n <= c.max_pending,
    ensures
        r as int == c.announcement_deposit_base + c.announcement_deposit_factor * n,
{
    proof {
        lemma_mul_inequality(n as int, c.max_pending as int, c.announcement_deposit_factor as int);
    }
    c.announcement_deposit_base + c.announcement_deposit_factor * n
}

/// The exact outcome `add_proxy` owes: self-grants, duplicates, capacity
/// and funding are refused in that order, everything else succeeds.
pub open spec fn add_proxy_result(
    s: ProxyEngine,
    owner: u64,
    delegate: u64,
    capability: ProxyCapability,
    delay: u64,
) -> Result<(), ProxyError> {
    let g = ProxyGrant { delegate, capability, delay };
    let gs = grants_of(s.proxies@, owner);
    let payer = if has_entry(s.proxies@, owner) {
        depositor_of(s.proxies@, owner)
    } else {
        owner
    };
    let delta: int = if has_entry(s.proxies@, owner) {
        s.config.proxy_deposit_factor as int
    } else {
        s.config.proxy_deposit_base + s.config.proxy_deposit_factor
    };
    if delegate == owner {
        Err(ProxyError::NoSelfProxy)
    } else if has_grant(gs, g) {
        Err(ProxyError::AlreadyExists)
    } else if gs.len() >= s.config.max_proxies {
        Err(ProxyError::TooMany)
    } else if delta > free_of(s.ledger.accounts@, payer) {
        Err(ProxyError::InsufficientFunds)
    } else {
        Ok(())
    }
}

/// What a successful `add_proxy` did: the grant stands inserted in canonical
/// order, the deposit grew by the schedule's delta, that delta moved from
/// the payer's free balance into reserve, and nothing else changed.
pub open spec fn add_proxy_ok(
    pre: ProxyEngine,
    post: ProxyEngine,
    owner: u64,
    delegate: u64,
    capability: ProxyCapability,
    delay: u64,
) -> bool {
    let g = ProxyGrant { delegate, capability, delay };
    let had = has_entry(pre.proxies@, owner);
    let payer = if had {
        depositor_of(pre.proxies@, owner)
    } else {
        owner
    };
    let delta: int = if had {
        pre.config.proxy_deposit_factor as int
    } else {
        pre.config.proxy_deposit_base + pre.config.proxy_deposit_factor
    };
    &&& post.config == pre.config
    &&& post.announcements@ == pre.announcements@
    &&& post.filter.mode == pre.filter.mode
    &&& post.filter.blocked@ == pre.filter.blocked@
    &&& has_entry(post.proxies@, owner)
    &&& exists|k: int|
        0 <= k <= grants_of(pre.proxies@, owner).len() && grants_of(post.proxies@, owner)
            == grants_of(pre.proxies@, owner).insert(k, g)
    &&& deposit_of(post.proxies@, owner) == deposit_of(pre.proxies@, owner) + delta
    &&& depositor_of(post.proxies@, owner) == payer
    &&& forall|w: u64|
        w != owner ==> has_entry(post.proxies@, w) == has_entry(pre.proxies@, w) && grants_of(
            post.proxies@,
            w,
        ) == grants_of(pre.proxies@, w) && deposit_of(post.proxies@, w) == deposit_of(
            pre.proxies@,
            w,
        ) && depositor_of(post.proxies@, w) == depositor_of(pre.proxies@, w)
    &&& reserved_like(pre.ledger.accounts@, post.ledger.accounts@, payer, delta)
}

impl ProxyEngine {
    /// A fresh engine over an empty ledger, with no grants, no
    /// announcements and an empty blocklist.
    pub fn new(config: EngineConfig, filter: CallFilter) -> (r: ProxyEngine)
        requires
            config_wf(config),
            filter_wf(filter.blocked@),
        ensures
            engine_wf(r),
            r.config == config,
            r.proxies@.len() == 0,
            r.announcements@.len() == 0,
            r.ledger.accounts@.len() == 0,
            r.filter == filter,
    {
        ProxyEngine {
            config,
            proxies: Vec::new(),
            announcements: Vec::new(),
            ledger: Ledger::new(),
            filter,
        }
    }

    /// Endows `who` with free balance; host-side setup.
    pub fn fund(&mut self, who: u64, amount: u64)
        requires
            engine_wf(*old(self)),
            free_of(old(self).ledger.accounts@, who) + reserved_of(old(self).ledger.accounts@, who)
                + amount <= u64::MAX,
        ensures
            engine_wf(*final(self)),
            free_of(final(self).ledger.accounts@, who) == free_of(old(self).ledger.accounts@, who)
                + amount,
            reserved_of(final(self).ledger.accounts@, who) == reserved_of(
                old(self).ledger.accounts@,
                who,
            ),
            forall|w: u64|
                w != who ==> free_of(final(self).ledger.accounts@, w) == free_of(
                    old(self).ledger.accounts@,
                    w,
                ) && reserved_of(final(self).ledger.accounts@, w) == reserved_of(
                    old(self).ledger.accounts@,
                    w,
                ),
            final(self).proxies@ == old(self).proxies@,
            final(self).announcements@ == old(self).announcements@,
            final(self).config == old(self).config,
            final(self).filter.mode == old(self).filter.mode,
            final(self).filter.blocked@ == old(self).filter.blocked@,
    {
        self.ledger.fund(who, amount);
    }

    /// Grants `delegate` the right to act for `owner` under `capability`
    /// after `delay` blocks. The caller must be `owner`; the grant lands in
    /// canonical order and the deposit delta is reserved from the entry's
    /// depositor.
    pub fn add_proxy(
        &mut self,
        owner: u64,
        delegate: u64,
        capability: ProxyCapability,
        delay: u64,
    ) -> (r: Result<(), ProxyError>)
        requires
            engine_wf(*old(self)),
        ensures
            engine_wf(*final(self)),
            r == add_proxy_result(*old(self), owner, delegate, capability, delay),
            r is Err ==> engine_unchanged(*old(self), *final(self)),
            r is Ok ==> add_proxy_ok(*old(self), *final(self), owner, delegate, capability, delay),
    {
        let g = ProxyGrant { delegate, capability, delay };
        if delegate == owner {
            return Err(ProxyError::NoSelfProxy);
        }
        let found = find_entry(&self.proxies, owner);
        match found {
            Some(i) => {
                proof {
                    lemma_entry_at(self.proxies@, owner, i as int);
                }
                let (pos, dup) = locate_grant(&self.proxies[i].grants, g);
                if dup {
                    return Err(ProxyError::AlreadyExists);
                }
                let n = self.proxies[i].grants.len();
                if n as u64 >= self.config.max_proxies {
                    return Err(ProxyError::TooMany);
                }
                let delta = self.config.proxy_deposit_factor;
                let payer = self.proxies[i].depositor;
                proof {
                    assert(proxy_entry_wf(old(self).proxies@[i as int], self.config));
                    lemma_mul_inequality(
                        (n + 1) as int,
                        self.config.max_proxies as int,
                        self.config.proxy_deposit_factor as int,
                    );
                    assert(self.config.proxy_deposit_factor * ((n + 1) as int)
                        == self.config.proxy_deposit_factor * (n as int)
                        + self.config.proxy_deposit_factor) by (nonlinear_arith);
                }
                match self.ledger.reserve(payer, delta) {
                    Err(e) => {
                        return Err(e);
                    },
                    Ok(()) => {},
                }
                let mut entry = self.proxies.remove(i);
                entry.grants.insert(pos, g);
                proof {
                    let c = self.config;
                    assert(proxy_entry_wf(old(self).proxies@[i as int], c));
                    assert(entry.deposit == old(self).proxies@[i as int].deposit);
                    assert(old(self).proxies@[i as int].grants@.len() == n as int);
                    assert(entry.deposit as int == c.proxy_deposit_base + c.proxy_deposit_factor
                        * (n as int));
                    assert(entry.deposit as int + delta as int <= u64::MAX) by (nonlinear_arith)
                        requires
                            entry.deposit as int == c.proxy_deposit_base + c.proxy_deposit_factor
                                * (n as int),
                            delta == c.proxy_deposit_factor,
                            (n as int) + 1 <= c.max_proxies as int,
                            c.proxy_deposit_base + c.proxy_deposit_factor * c.max_proxies
                                <= u64::MAX,
                    ;
                }
                entry.deposit = entry.deposit + delta;
                self.proxies.insert(i, entry);
                proof {
                    let pre = old(self).proxies@;
                    let e2 = self.proxies@[i as int];
                    assert(self.proxies@ =~= pre.update(i as int, e2));
                    let gs0 = pre[i as int].grants@;
                    lemma_sorted_insert(gs0, pos as int, g);
                    assert(e2.grants@ == gs0.insert(pos as int, g));
                    assert forall|x: int|
                        0 <= x < e2.grants@.len() implies (#[trigger] e2.grants@[x]).delegate
                        != e2.owner by {
                        if x < pos {
                            assert(e2.grants@[x] == gs0[x]);
                        } else if x == pos {
                            assert(e2.grants@[x] == g);
                        } else {
                            assert(e2.grants@[x] == gs0[x - 1]);
                        }
                    }
                    assert(proxy_entry_wf(e2, self.config));
                    lemma_entry_update(pre, i as int, e2, owner);
                    assert forall|w: u64| w != owner implies has_entry(self.proxies@, w)
                        == has_entry(pre, w) && grants_of(self.proxies@, w) == grants_of(pre, w)
                        && deposit_of(self.proxies@, w) == deposit_of(pre, w) && depositor_of(
                        self.proxies@,
                        w,
                    ) == depositor_of(pre, w) by {
                        lemma_entry_update(pre, i as int, e2, w);
                    }
                    assert forall|x: int|
                        0 <= x < self.proxies@.len() implies proxy_entry_wf(
                        #[trigger] self.proxies@[x],
                        self.config,
                    ) by {
                        if x != i {
                            assert(self.proxies@[x] == pre[x]);
                        }
                    }
                }
                Ok(())
            },
            None => {
                let delta = proxy_deposit_for(&self.config, 1);
                match self.ledger.reserve(owner, delta) {
                    Err(e) => {
                        return Err(e);
                    },
                    Ok(()) => {},
                }
                let mut gv: Vec<ProxyGrant> = Vec::new();
                gv.push(g);
                let entry = ProxyEntry { owner, depositor: owner, grants: gv, deposit: delta };
                self.proxies.push(entry);
                proof {
                    let pre = old(self).proxies@;
                    let e2 = self.proxies@[pre.len() as int];
                    assert(self.proxies@ =~= pre.push(e2));
                    assert(e2.grants@ =~= Seq::empty().push(g));
                    assert(proxy_entry_wf(e2, self.config));
                    lemma_entry_push(pre, e2, owner);
                    assert forall|w: u64| w != owner implies has_entry(self.proxies@, w)
                        == has_entry(pre, w) && grants_of(self.proxies@, w) == grants_of(pre, w)
                        && deposit_of(self.proxies@, w) == deposit_of(pre, w) && depositor_of(
                        self.proxies@,
                        w,
                    ) == depositor_of(pre, w) by {
                        lemma_entry_push(pre, e2, w);
                    }
                    assert(grants_of(self.proxies@, owner) =~= grants_of(pre, owner).insert(0, g));
                    assert forall|x: int|
                        0 <= x < self.proxies@.len() implies proxy_entry_wf(
                        #[trigger] self.proxies@[x],
                        self.config,
                    ) by {
                        if x < pre.len() {
                            assert(self.proxies@[x] == pre[x]);
                        }
                    }
                }
                Ok(())
            },
        }
    }

    /// Revokes the named grant. Fails with `NotFound`, changing nothing,
    /// exactly when it is not held; on success the grant leaves in place,
    /// the deposit delta (or, for the last grant, the whole deposit and the
    /// entry) is released to the entry's depositor.
    pub fn remove_proxy(
        &mut self,
        owner: u64,
        delegate: u64,
        capability: ProxyCapability,
        delay: u64,
    ) -> (r: Result<(), ProxyError>)
        requires
            engine_wf(*old(self)),
        ensures
            engine_wf(*final(self)),
            r is Ok <==> has_grant(
                grants_of(old(self).proxies@, owner),
                ProxyGrant { delegate, capability, delay },
            ),
            r is Err ==> r == Err::<(), ProxyError>(ProxyError::NotFound) && engine_unchanged(
                *old(self),
                *final(self),
            ),
            r is Ok ==> remove_proxy_ok(
                *old(self),
                *final(self),
                owner,
                delegate,
                capability,
                delay,
            ),
    {
        let g = ProxyGrant { delegate, capability, delay };
        let found = find_entry(&self.proxies, owner);
        let i = match found {
            Some(i) => i,
            None => {
                return Err(ProxyError::NotFound);
            },
        };
        proof {
            lemma_entry_at(self.proxies@, owner, i as int);
        }
        let (pos, dup) = locate_grant(&self.proxies[i].grants, g);
        if !dup {
            return Err(ProxyError::NotFound);
        }
        let n = self.proxies[i].grants.len();
        let payer = self.proxies[i].depositor;
        proof {
            assert(proxy_entry_wf(old(self).proxies@[i as int], self.config));
            lemma_mul_inequality(1, n as int, self.config.proxy_deposit_factor as int);
            assert(self.config.proxy_deposit_factor * (n as int)
                == self.config.proxy_deposit_factor * ((n - 1) as int)
                + self.config.proxy_deposit_factor) by (nonlinear_arith);
        }
        if n == 1 {
            let entry = self.proxies.remove(i);
            self.ledger.unreserve(payer, entry.deposit);
            proof {
                let pre = old(self).proxies@;
                lemma_entry_remove(pre, i as int, owner);
                assert forall|w: u64| w != owner implies has_entry(self.proxies@, w) == has_entry(
                    pre,
                    w,
                ) && grants_of(self.proxies@, w) == grants_of(pre, w) && deposit_of(
                    self.proxies@,
                    w,
                ) == deposit_of(pre, w) && depositor_of(self.proxies@, w) == depositor_of(pre, w) by {
                    lemma_entry_remove(pre, i as int, w);
                }
                assert forall|x: int|
                    0 <= x < self.proxies@.len() implies proxy_entry_wf(
                    #[trigger] self.proxies@[x],
                    self.config,
                ) by {
                    if x < i {
                        assert(self.proxies@[x] == pre[x]);
                    } else {
                        assert(self.proxies@[x] == pre[x + 1]);
                    }
                }
            }
            Ok(())
        } else {
            let delta = self.config.proxy_deposit_factor;
            let mut entry = self.proxies.remove(i);
            entry.grants.remove(pos);
            entry.deposit = entry.deposit - delta;
            self.proxies.insert(i, entry);
            self.ledger.unreserve(payer, delta);
            proof {
                let pre = old(self).proxies@;
                let e2 = self.proxies@[i as int];
                assert(self.proxies@ =~= pre.update(i as int, e2));
                let gs0 = pre[i as int].grants@;
                lemma_sorted_remove(gs0, pos as int);
                assert(e2.grants@ == gs0.remove(pos as int));
                assert forall|x: int|
                    0 <= x < e2.grants@.len() implies (#[trigger] e2.grants@[x]).delegate
                    != e2.owner by {
                    if x < pos {
                        assert(e2.grants@[x] == gs0[x]);
                    } else {
                        assert(e2.grants@[x] == gs0[x + 1]);
                    }
                }
                assert(proxy_entry_wf(e2, self.config));
                lemma_entry_update(pre, i as int, e2, owner);
                assert forall|w: u64| w != owner implies has_entry(self.proxies@, w) == has_entry(
                    pre,
                    w,
                ) && grants_of(self.proxies@, w) == grants_of(pre, w) && deposit_of(
                    self.proxies@,
                    w,
                ) == deposit_of(pre, w) && depositor_of(self.proxies@, w) == depositor_of(pre, w) by {
                    lemma_entry_update(pre, i as int, e2, w);
                }
                assert forall|x: int|
                    0 <= x < self.proxies@.len() implies proxy_entry_wf(
                    #[trigger] self.proxies@[x],
                    self.config,
                ) by {
                    if x != i {
                        assert(self.proxies@[x] == pre[x]);
                    }
                }
            }
            Ok(())
        }
    }
}

/// What a successful `remove_proxy` did: the last grant tears the entry
/// down and releases the whole deposit; otherwise the grant alone leaves
/// and the per-grant deposit slice is released. Either way the funds return
/// to the entry's depositor and nothing else changed.
pub open spec fn remove_proxy_ok(
    pre: ProxyEngine,
    post: ProxyEngine,
    owner: u64,
    delegate: u64,
    capability: ProxyCapability,
    delay: u64,
) -> bool {
    let g = ProxyGrant { delegate, capability, delay };
    let gs = grants_of(pre.proxies@, owner);
    let payer = depositor_of(pre.proxies@, owner);
    let released: int = if gs.len() == 1 {
        deposit_of(pre.proxies@, owner)
    } else {
        pre.config.proxy_deposit_factor as int
    };
    &&& post.config == pre.config
    &&& post.announcements@ == pre.announcements@
    &&& post.filter.mode == pre.filter.mode
    &&& post.filter.blocked@ == pre.filter.blocked@
    &&& gs.len() == 1 ==> !has_entry(post.proxies@, owner)
    &&& gs.len() > 1 ==> has_entry(post.proxies@, owner) && (exists|k: int|
        0 <= k < gs.len() && gs[k] == g && grants_of(post.proxies@, owner) == gs.remove(k))
        && deposit_of(post.proxies@, owner) == deposit_of(pre.proxies@, owner) - released
        && depositor_of(post.proxies@, owner) == payer
    &&& forall|w: u64|
        w != owner ==> has_entry(post.proxies@, w) == has_entry(pre.proxies@, w) && grants_of(
            post.proxies@,
            w,
        ) == grants_of(pre.proxies@, w) && deposit_of(post.proxies@, w) == deposit_of(
            pre.proxies@,
            w,
        ) && depositor_of(post.proxies@, w) == depositor_of(pre.proxies@, w)
    &&& unreserved_like(pre.ledger.accounts@, post.ledger.accounts@, payer, released)
}

} // verus!

use vstd::prelude::*;

verus! {

/// A pending announcement by (`owner`, `call_hash`) that has also served
/// its delay `d` by `height`: the condition for executing it.
pub open spec fn ready_match(
    anns: Seq<Announcement>,
    owner: u64,
    call_hash: u64,
    height: u64,
    d: u64,
) -> bool {
    exists|k: int|
        0 <= k < anns.len() && ann_matches(anns[k], owner, call_hash) && height >= anns[k].height
            + d
}

/// The exact outcome `proxy` owes: `NotAuthorized` exactly when no
/// zero-delay grant covers the action's category, `Filtered` exactly when
/// one does but the call filter rejects the action, success otherwise.
/// Success means the host may execute the action as `owner`; the engine
/// itself records nothing.
pub open spec fn proxy_result(
    s: ProxyEngine,
    owner: u64,
    delegate: u64,
    action: Action,
) -> Result<(), ProxyError> {
    if !has_zero_delay_covering(grants_of(s.proxies@, owner), delegate, action.category) {
        Err(ProxyError::NotAuthorized)
    } else if !filter_allows(s.filter, action.module, action.call) {
        Err(ProxyError::Filtered)
    } else {
        Ok(())
    }
}

/// The exact outcome `announce` owes: any covering grant (of whatever
/// delay) authorizes announcing; then capacity, then funding.
pub open spec fn announce_result(
    s: ProxyEngine,
    owner: u64,
    delegate: u64,
    action: Action,
    height: u64,
) -> Result<(), ProxyError> {
    let delta: int = if has_ann_entry(s.announcements@, delegate) {
        s.config.announcement_deposit_factor as int
    } else {
        s.config.announcement_deposit_base + s.config.announcement_deposit_factor
    };
    if !has_covering(grants_of(s.proxies@, owner), delegate, action.category) {
        Err(ProxyError::NotAuthorized)
    } else if anns_of(s.announcements@, delegate).len() >= s.config.max_pending {
        Err(ProxyError::TooMany)
    } else if delta > free_of(s.ledger.accounts@, delegate) {
        Err(ProxyError::InsufficientFunds)
    } else {
        Ok(())
    }
}

/// What a successful `announce` did: the commitment to the action's
/// fingerprint at `height` stands appended under the delegate, the deposit
/// delta moved from the delegate's free balance into reserve, and nothing
/// else changed.
pub open spec fn announce_ok(
    pre: ProxyEngine,
    post: ProxyEngine,
    owner: u64,
    delegate: u64,
    action: Action,
    height: u64,
) -> bool {
    let ann = Announcement { owner, call_hash: fingerprint_of(action), height };
    let delta: int = if has_ann_entry(pre.announcements@, delegate) {
        pre.config.announcement_deposit_factor as int
    } else {
        pre.config.announcement_deposit_base + pre.config.announcement_deposit_factor
    };
    &&& post.config == pre.config
    &&& post.proxies@ == pre.proxies@
    &&& post.filter.mode == pre.filter.mode
    &&& post.filter.blocked@ == pre.filter.blocked@
    &&& anns_of(post.announcements@, delegate) == anns_of(pre.announcements@, delegate).push(ann)
    &&& ann_deposit_of(post.announcements@, delegate) == ann_deposit_of(pre.announcements@, delegate)
        + delta
    &&& forall|w: u64|
        w != delegate ==> has_ann_entry(post.announcements@, w) == has_ann_entry(
            pre.announcements@,
            w,
        ) && anns_of(post.announcements@, w) == anns_of(pre.announcements@, w) && ann_deposit_of(
            post.announcements@,
            w,
        ) == ann_deposit_of(pre.announcements@, w)
    &&& reserved_like(pre.ledger.accounts@, post.ledger.accounts@, delegate, delta)
}

/// The exact outcome `proxy_announced` owes: authorization by some covering
/// grant, then a matching pending announcement, then its delay served, then
/// the call filter; success consumes the announcement exactly once.
pub open spec fn proxy_announced_result(
    s: ProxyEngine,
    owner: u64,
    delegate: u64,
    action: Action,
    height: u64,
) -> Result<(), ProxyError> {
    let gs = grants_of(s.proxies@, owner);
    let anns = anns_of(s.announcements@, delegate);
    let h = fingerprint_of(action);
    if !has_covering(gs, delegate, action.category) {
        Err(ProxyError::NotAuthorized)
    } else {
        let d = min_covering_delay(gs, delegate, action.category);
        if !has_ann_match(anns, owner, h) {
            Err(ProxyError::NotFound)
        } else if !ready_match(anns, owner, h, height, d) {
            Err(ProxyError::TooEarly)
        } else if !filter_allows(s.filter, action.module, action.call) {
            Err(ProxyError::Filtered)
        } else {
            Ok(())
        }
    }
}

/// What consuming one pending announcement of `delegate` did: one matching
/// announcement left the sequence, the deposit shrank per schedule (the
/// last announcement tears the entry down and releases the whole deposit),
/// the released funds returned to the delegate, and nothing else changed.
pub open spec fn announcement_removed(
    pre: ProxyEngine,
    post: ProxyEngine,
    delegate: u64,
    owner: u64,
    call_hash: u64,
) -> bool {
    let anns = anns_of(pre.announcements@, delegate);
    let released: int = if anns.len() == 1 {
        ann_deposit_of(pre.announcements@, delegate)
    } else {
        pre.config.announcement_deposit_factor as int
    };
    &&& post.config == pre.config
    &&& post.proxies@ == pre.proxies@
    &&& post.filter.mode == pre.filter.mode
    &&& post.filter.blocked@ == pre.filter.blocked@
    &&& exists|k: int|
        0 <= k < anns.len() && ann_matches(anns[k], owner, call_hash) && anns_of(
            post.announcements@,
            delegate,
        ) == anns.remove(k)
    &&& anns.len() == 1 ==> !has_ann_entry(post.announcements@, delegate)
    &&& anns.len() > 1 ==> has_ann_entry(post.announcements@, delegate) && ann_deposit_of(
        post.announcements@,
        delegate,
    ) == ann_deposit_of(pre.announcements@, delegate) - released
    &&& forall|w: u64|
        w != delegate ==> has_ann_entry(post.announcements@, w) == has_ann_entry(
            pre.announcements@,
            w,
        ) && anns_of(post.announcements@, w) == anns_of(pre.announcements@, w) && ann_deposit_of(
            post.announcements@,
            w,
        ) == ann_deposit_of(pre.announcements@, w)
    &&& unreserved_like(pre.ledger.accounts@, post.ledger.accounts@, delegate, released)
}

/// The exact outcome `reject_announcement` owes: only the targeted owner or
/// the delegate itself may reject, and the named commitment must exist.
pub open spec fn reject_result(
    s: ProxyEngine,
    caller: u64,
    owner: u64,
    delegate: u64,
    call_hash: u64,
) -> Result<(), ProxyError> {
    if caller != owner && caller != delegate {
        Err(ProxyError::NotAuthorized)
    } else if !has_ann_match(anns_of(s.announcements@, delegate), owner, call_hash) {
        Err(ProxyError::NotFound)
    } else {
        Ok(())
    }
}

/// Finds the entry index of `delegate` in the announcement registry, if
/// present.
fn find_ann_entry(v: &Vec<AnnouncementEntry>, delegate: u64) -> (r: Option<usize>)
    ensures
        match r {
            Some(i) => i < v@.len() && v@[i as int].delegate == delegate,
            None => !has_ann_entry(v@, delegate),
        },
{
    let mut i: usize = 0;
    while i < v.len()
        invariant
            i <= v@.len(),
            forall|j: int| 0 <= j < i ==> v@[j].delegate != delegate,
        decreases v@.len() - i,
    {
        if v[i].delegate == delegate {
            return Some(i);
        }
        i = i + 1;
    }
    None
}

/// Whether any grant in `v` covers (`delegate`, `cat`).
fn scan_covering(v: &Vec<ProxyGrant>, delegate: u64, cat: ProxyCapability) -> (r: bool)
    ensures
        r == has_covering(v@, delegate, cat),
{
    let mut i: usize = 0;
    while i < v.len()
        invariant
            i <= v@.len(),
            forall|j: int| 0 <= j < i ==> !covering(v@[j], delegate, cat),
        decreases v@.len() - i,
    {
        let c = v[i];
        if c.delegate == delegate && capability_covers(c.capability, cat) {
            return true;
        }
        i = i + 1;
    }
    false
}

/// Whether any zero-delay grant in `v` covers (`delegate`, `cat`).
fn scan_zero_delay(v: &Vec<ProxyGrant>, delegate: u64, cat: ProxyCapability) -> (r: bool)
    ensures
        r == has_zero_delay_covering(v@, delegate, cat),
{
    let mut i: usize = 0;
    while i < v.len()
        invariant
            i <= v@.len(),
            forall|j: int| 0 <= j < i ==> !(covering(v@[j], delegate, cat) && v@[j].delay == 0),
        decreases v@.len() - i,
    {
        let c = v[i];
        if c.delegate == delegate && c.delay == 0 && capability_covers(c.capability, cat) {
            return true;
        }
        i = i + 1;
    }
    false
}

/// Scans for a pending announcement matching (`owner`, `call_hash`) that
/// has served delay `d` by `height`; also reports whether any match (ready
/// or not) exists.
fn scan_ready(v: &Vec<Announcement>, owner: u64, call_hash: u64, height: u64, d: u64) -> (r: (
    Option<usize>,
    bool,
))
    ensures
        r.0 matches Some(k) ==> k < v@.len() && ann_matches(v@[k as int], owner, call_hash)
            && height >= v@[k as int].height + d,
        r.0 is None ==> !ready_match(v@, owner, call_hash, height, d),
        r.1 == has_ann_match(v@, owner, call_hash),
{
    let mut i: usize = 0;
    let mut saw: bool = false;
    while i < v.len()
        invariant
            i <= v@.len(),
            forall|j: int|
                0 <= j < i ==> !(ann_matches(v@[j], owner, call_hash) && height >= v@[j].height
                    + d),
            saw == exists|j: int| 0 <= j < i && ann_matches(v@[j], owner, call_hash),
        decreases v@.len() - i,
    {
        let a = v[i];
        if a.owner == owner && a.call_hash == call_hash {
            if height >= a.height && height - a.height >= d {
                return (Some(i), true);
            }
            saw = true;
        }
        i = i + 1;
    }
    (None, saw)
}

/// Scans for any pending announcement matching (`owner`, `call_hash`).
fn scan_match(v: &Vec<Announcement>, owner: u64, call_hash: u64) -> (r: Option<usize>)
    ensures
        r matches Some(k) ==> k < v@.len() && ann_matches(v@[k as int], owner, call_hash),
        r is None ==> !has_ann_match(v@, owner, call_hash),
{
    let mut i: usize = 0;
    while i < v.len()
        invariant
            i <= v@.len(),
            forall|j: int| 0 <= j < i ==> !ann_matches(v@[j], owner, call_hash),
        decreases v@.len() - i,
    {
        let a = v[i];
        if a.owner == owner && a.call_hash == call_hash {
            return Some(i);
        }
        i = i + 1;
    }
    None
}

impl ProxyEngine {
    /// Read-only authorization query: the least delay at which `delegate`
    /// may act for `owner` in the class `capability`, if any grant covers
    /// it at all.
    pub fn has_capability(&self, owner: u64, delegate: u64, capability: ProxyCapability) -> (r:
        Option<u64>)
        requires
            engine_wf(*self),
        ensures
            r is Some <==> has_covering(grants_of(self.proxies@, owner), delegate, capability),
            r matches Some(d) ==> is_min_covering_delay(
                grants_of(self.proxies@, owner),
                delegate,
                capability,
                d,
            ),
    {
        let found = find_entry(&self.proxies, owner);
        let i = match found {
            Some(i) => i,
            None => {
                return None;
            },
        };
        proof {
            lemma_entry_at(self.proxies@, owner, i as int);
        }
        let v = &self.proxies[i].grants;
        let ghost gs = grants_of(self.proxies@, owner);
        let mut j: usize = 0;
        let mut best: Option<u64> = None;
        while j < v.len()
            invariant
                j <= v@.len(),
                v@ == gs,
                best is None ==> forall|x: int| 0 <= x < j ==> !covering(gs[x], delegate, capability),
                best matches Some(b) ==> (exists|x: int|
                    0 <= x < j && covering(gs[x], delegate, capability) && gs[x].delay == b)
                    && (forall|x: int|
                    0 <= x < j && covering(#[trigger] gs[x], delegate, capability) ==> b
                        <= gs[x].delay),
            decreases v@.len() - j,
        {
            let c = v[j];
            if c.delegate == delegate && capability_covers(c.capability, capability) {
                best = match best {
                    None => Some(c.delay),
                    Some(b) => if c.delay < b {
                        Some(c.delay)
                    } else {
                        Some(b)
                    },
                };
            }
            j = j + 1;
        }
        best
    }

    /// Immediate proxying: decides whether `delegate` may execute `action`
    /// as `owner` right now. Success means the host may run the action;
    /// the inner action's own outcome is the host's to surface and does
    /// not come back through the engine.
    pub fn proxy(&self, owner: u64, delegate: u64, action: &Action) -> (r: Result<
        (),
        ProxyError,
    >)
        requires
            engine_wf(*self),
        ensures
            r == proxy_result(*self, owner, delegate, *action),
    {
        let found = find_entry(&self.proxies, owner);
        let authorized = match found {
            Some(i) => {
                proof {
                    lemma_entry_at(self.proxies@, owner, i as int);
                }
                scan_zero_delay(&self.proxies[i].grants, delegate, action.category)
            },
            None => false,
        };
        if !authorized {
            return Err(ProxyError::NotAuthorized);
        }
        if !self.filter.allows(action.module, action.call) {
            return Err(ProxyError::Filtered);
        }
        Ok(())
    }

    /// Publicly commits `delegate` to later executing `action` as `owner`:
    /// records the action's fingerprint and the current height under the
    /// delegate, bonding the deposit delta from the delegate's balance.
    pub fn announce(&mut self, owner: u64, delegate: u64, action: &Action, height: u64) -> (r:
        Result<(), ProxyError>)
        requires
            engine_wf(*old(self)),
        ensures
            engine_wf(*final(self)),
            r == announce_result(*old(self), owner, delegate, *action, height),
            r is Err ==> engine_unchanged(*old(self), *final(self)),
            r is Ok ==> announce_ok(*old(self), *final(self), owner, delegate, *action, height),
    {
        let found = find_entry(&self.proxies, owner);
        let authorized = match found {
            Some(i) => {
                proof {
                    lemma_entry_at(self.proxies@, owner, i as int);
                }
                scan_covering(&self.proxies[i].grants, delegate, action.category)
            },
            None => false,
        };
        if !authorized {
            return Err(ProxyError::NotAuthorized);
        }
        let h = call_fingerprint(action);
        let ann = Announcement { owner, call_hash: h, height };
        let fi = find_ann_entry(&self.announcements, delegate);
        match fi {
            Some(ai) => {
                proof {
                    lemma_ann_entry_at(self.announcements@, delegate, ai as int);
                    assert(ann_entry_wf(old(self).announcements@[ai as int], self.config));
                }
                let n = self.announcements[ai].announcements.len();
                if n as u64 >= self.config.max_pending {
                    return Err(ProxyError::TooMany);
                }
                let delta = self.config.announcement_deposit_factor;
                match self.ledger.reserve(delegate, delta) {
                    Err(e) => {
                        return Err(e);
                    },
                    Ok(()) => {},
                }
                let mut entry = self.announcements.remove(ai);
                entry.announcements.push(ann);
                proof {
                    let c = self.config;
                    assert(entry.deposit == old(self).announcements@[ai as int].deposit);
                    assert(entry.deposit as int + delta as int <= u64::MAX) by (nonlinear_arith)
                        requires
                            entry.deposit as int == c.announcement_deposit_base
                                + c.announcement_deposit_factor * (n as int),
                            delta == c.announcement_deposit_factor,
                            (n as int) + 1 <= c.max_pending as int,
                            c.announcement_deposit_base + c.announcement_deposit_factor
                                * c.max_pending <= u64::MAX,
                    ;
                }
                entry.deposit = entry.deposit + delta;
                self.announcements.insert(ai, entry);
                proof {
                    let pre = old(self).announcements@;
                    let e2 = self.announcements@[ai as int];
                    assert(self.announcements@ =~= pre.update(ai as int, e2));
                    assert(e2.announcements@ == pre[ai as int].announcements@.push(ann));
                    assert(ann_entry_wf(e2, self.config)) by (nonlinear_arith)
                        requires
                            ann_entry_wf(pre[ai as int], self.config),
                            e2.announcements@.len() == pre[ai as int].announcements@.len() + 1,
                            e2.announcements@.len() <= self.config.max_pending,
                            e2.deposit as int == pre[ai as int].deposit as int
                                + self.config.announcement_deposit_factor,
                    ;
                    lemma_ann_entry_update(pre, ai as int, e2, delegate);
                    assert forall|w: u64| w != delegate implies has_ann_entry(
                        self.announcements@,
                        w,
                    ) == has_ann_entry(pre, w) && anns_of(self.announcements@, w) == anns_of(
                        pre,
                        w,
                    ) && ann_deposit_of(self.announcements@, w) == ann_deposit_of(pre, w) by {
                        lemma_ann_entry_update(pre, ai as int, e2, w);
                    }
                    assert forall|x: int|
                        0 <= x < self.announcements@.len() implies ann_entry_wf(
                        #[trigger] self.announcements@[x],
                        self.config,
                    ) by {
                        if x != ai {
                            assert(self.announcements@[x] == pre[x]);
                        }
                    }
                }
                Ok(())
            },
            None => {
                let delta = ann_deposit_for(&self.config, 1);
                match self.ledger.reserve(delegate, delta) {
                    Err(e) => {
                        return Err(e);
                    },
                    Ok(()) => {},
                }
                let mut av: Vec<Announcement> = Vec::new();
                av.push(ann);
                let entry = AnnouncementEntry { delegate, announcements: av, deposit: delta };
                self.announcements.push(entry);
                proof {
                    let pre = old(self).announcements@;
                    let e2 = self.announcements@[pre.len() as int];
                    assert(self.announcements@ =~= pre.push(e2));
                    assert(e2.announcements@ =~= Seq::empty().push(ann));
                    assert(ann_entry_wf(e2, self.config));
                    lemma_ann_entry_push(pre, e2, delegate);
                    assert forall|w: u64| w != delegate implies has_ann_entry(
                        self.announcements@,
                        w,
                    ) == has_ann_entry(pre, w) && anns_of(self.announcements@, w) == anns_of(
                        pre,
                        w,
                    ) && ann_deposit_of(self.announcements@, w) == ann_deposit_of(pre, w) by {
                        lemma_ann_entry_push(pre, e2, w);
                    }
                    assert(anns_of(self.announcements@, delegate) =~= anns_of(pre, delegate).push(
                        ann,
                    ));
                    assert forall|x: int|
                        0 <= x < self.announcements@.len() implies ann_entry_wf(
                        #[trigger] self.announcements@[x],
                        self.config,
                    ) by {
                        if x < pre.len() {
                            assert(self.announcements@[x] == pre[x]);
                        }
                    }
                }
                Ok(())
            },
        }
    }

    /// Removes the pending announcement at position `k` of the entry at
    /// index `i`, restoring the deposit schedule and releasing the freed
    /// slice (or, for the last announcement, the whole deposit and the
    /// entry) back to the delegate.
    fn remove_announcement_at(&mut self, i: usize, k: usize)
        requires
            engine_wf(*old(self)),
            i < old(self).announcements@.len(),
            k < old(self).announcements@[i as int].announcements@.len(),
        ensures
            engine_wf(*final(self)),
            final(self).config == old(self).config,
            final(self).proxies@ == old(self).proxies@,
            final(self).filter.mode == old(self).filter.mode,
            final(self).filter.blocked@ == old(self).filter.blocked@,
            ({
                let d = old(self).announcements@[i as int].delegate;
                let anns = old(self).announcements@[i as int].announcements@;
                let released: int = if anns.len() == 1 {
                    old(self).announcements@[i as int].deposit as int
                } else {
                    old(self).config.announcement_deposit_factor as int
                };
                &&& anns_of(final(self).announcements@, d) == anns.remove(k as int)
                &&& anns.len() == 1 ==> !has_ann_entry(final(self).announcements@, d)
                &&& anns.len() > 1 ==> has_ann_entry(final(self).announcements@, d)
                    && ann_deposit_of(final(self).announcements@, d) == old(
                    self,
                ).announcements@[i as int].deposit - released
                &&& forall|w: u64|
                    w != d ==> has_ann_entry(final(self).announcements@, w) == has_ann_entry(
                        old(self).announcements@,
                        w,
                    ) && anns_of(final(self).announcements@, w) == anns_of(
                        old(self).announcements@,
                        w,
                    ) && ann_deposit_of(final(self).announcements@, w) == ann_deposit_of(
                        old(self).announcements@,
                        w,
                    )
                &&& unreserved_like(
                    old(self).ledger.accounts@,
                    final(self).ledger.accounts@,
                    d,
                    released,
                )
            }),
    {
        let d = self.announcements[i].delegate;
        let n = self.announcements[i].announcements.len();
        proof {
            lemma_ann_entry_at(self.announcements@, d, i as int);
            assert(ann_entry_wf(old(self).announcements@[i as int], self.config));
            lemma_mul_inequality(1, n as int, self.config.announcement_deposit_factor as int);
        }
        if n == 1 {
            let entry = self.announcements.remove(i);
            self.ledger.unreserve(d, entry.deposit);
            proof {
                let pre = old(self).announcements@;
                lemma_ann_entry_remove(pre, i as int, d);
                assert forall|w: u64| w != d implies has_ann_entry(self.announcements@, w)
                    == has_ann_entry(pre, w) && anns_of(self.announcements@, w) == anns_of(pre, w)
                    && ann_deposit_of(self.announcements@, w) == ann_deposit_of(pre, w) by {
                    lemma_ann_entry_remove(pre, i as int, w);
                }
                assert(anns_of(self.announcements@, d) =~= pre[i as int].announcements@.remove(
                    k as int,
                ));
                assert forall|x: int|
                    0 <= x < self.announcements@.len() implies ann_entry_wf(
                    #[trigger] self.announcements@[x],
                    self.config,
                ) by {
                    if x < i {
                        assert(self.announcements@[x] == pre[x]);
                    } else {
                        assert(self.announcements@[x] == pre[x + 1]);
                    }
                }
            }
        } else {
            let delta = self.config.announcement_deposit_factor;
            let mut entry = self.announcements.remove(i);
            entry.announcements.remove(k);
            proof {
                assert(entry.deposit == old(self).announcements@[i as int].deposit);
                assert(entry.deposit >= delta);
            }
            entry.deposit = entry.deposit - delta;
            self.announcements.insert(i, entry);
            self.ledger.unreserve(d, delta);
            proof {
                let c = self.config;
                let pre = old(self).announcements@;
                let e2 = self.announcements@[i as int];
                assert(self.announcements@ =~= pre.update(i as int, e2));
                assert(e2.announcements@ == pre[i as int].announcements@.remove(k as int));
                assert(ann_entry_wf(e2, c)) by (nonlinear_arith)
                    requires
                        ann_entry_wf(pre[i as int], c),
                        e2.announcements@.len() == pre[i as int].announcements@.len() - 1,
                        1 <= e2.announcements@.len(),
                        e2.deposit as int == pre[i as int].deposit as int
                            - c.announcement_deposit_factor,
                ;
                lemma_ann_entry_update(pre, i as int, e2, d);
                assert forall|w: u64| w != d implies has_ann_entry(self.announcements@, w)
                    == has_ann_entry(pre, w) && anns_of(self.announcements@, w) == anns_of(pre, w)
                    && ann_deposit_of(self.announcements@, w) == ann_deposit_of(pre, w) by {
                    lemma_ann_entry_update(pre, i as int, e2, w);
                }
                assert forall|x: int|
                    0 <= x < self.announcements@.len() implies ann_entry_wf(
                    #[trigger] self.announcements@[x],
                    self.config,
                ) by {
                    if x != i {
                        assert(self.announcements@[x] == pre[x]);
                    }
                }
            }
        }
    }

    /// Timed execution: consumes a pending announcement of `delegate` for
    /// (`owner`, fingerprint of `action`) once its grant-mandated delay has
    /// elapsed, and decides whether the host may now run the action as
    /// `owner`. An announcement is consumed at most once.
    pub fn proxy_announced(
        &mut self,
        owner: u64,
        delegate: u64,
        action: &Action,
        height: u64,
    ) -> (r: Result<(), ProxyError>)
        requires
            engine_wf(*old(self)),
        ensures
            engine_wf(*final(self)),
            r == proxy_announced_result(*old(self), owner, delegate, *action, height),
            r is Err ==> engine_unchanged(*old(self), *final(self)),
            r is Ok ==> announcement_removed(
                *old(self),
                *final(self),
                delegate,
                owner,
                fingerprint_of(*action),
            ),
    {
        let ghost gs = grants_of(old(self).proxies@, owner);
        let dmin = match self.has_capability(owner, delegate, action.category) {
            None => {
                return Err(ProxyError::NotAuthorized);
            },
            Some(d) => d,
        };
        proof {
            let dm = min_covering_delay(gs, delegate, action.category);
            assert(is_min_covering_delay(gs, delegate, action.category, dmin));
            assert(is_min_covering_delay(gs, delegate, action.category, dm));
            lemma_min_delay_unique(gs, delegate, action.category, dm, dmin);
        }
        let h = call_fingerprint(action);
        let fi = match find_ann_entry(&self.announcements, delegate) {
            None => {
                return Err(ProxyError::NotFound);
            },
            Some(ai) => ai,
        };
        proof {
            lemma_ann_entry_at(self.announcements@, delegate, fi as int);
        }
        let (ready, saw) = scan_ready(
            &self.announcements[fi].announcements,
            owner,
            h,
            height,
            dmin,
        );
        let k = match ready {
            None => {
                if saw {
                    return Err(ProxyError::TooEarly);
                } else {
                    return Err(ProxyError::NotFound);
                }
            },
            Some(k) => k,
        };
        if !self.filter.allows(action.module, action.call) {
            return Err(ProxyError::Filtered);
        }
        self.remove_announcement_at(fi, k);
        Ok(())
    }

    /// Rejects a pending commitment: the targeted owner may strike a
    /// delegate's announcement during the delay window, and the delegate
    /// may withdraw its own.
    pub fn reject_announcement(
        &mut self,
        caller: u64,
        owner: u64,
        delegate: u64,
        call_hash: u64,
    ) -> (r: Result<(), ProxyError>)
        requires
            engine_wf(*old(self)),
        ensures
            engine_wf(*final(self)),
            r == reject_result(*old(self), caller, owner, delegate, call_hash),
            r is Err ==> engine_unchanged(*old(self), *final(self)),
            r is Ok ==> announcement_removed(*old(self), *final(self), delegate, owner, call_hash),
    {
        if caller != owner && caller != delegate {
            return Err(ProxyError::NotAuthorized);
        }
        let fi = match find_ann_entry(&self.announcements, delegate) {
            None => {
                return Err(ProxyError::NotFound);
            },
            Some(ai) => ai,
        };
        proof {
            lemma_ann_entry_at(self.announcements@, delegate, fi as int);
        }
        let k = match scan_match(&self.announcements[fi].announcements, owner, call_hash) {
            None => {
                return Err(ProxyError::NotFound);
            },
            Some(k) => k,
        };
        self.remove_announcement_at(fi, k);
        Ok(())
    }

    /// Self-initiated withdrawal of a pending commitment by the delegate.
    pub fn remove_announcement(&mut self, delegate: u64, owner: u64, call_hash: u64) -> (r: Result<
        (),
        ProxyError,
    >)
        requires
            engine_wf(*old(self)),
        ensures
            engine_wf(*final(self)),
            r is Ok <==> has_ann_match(anns_of(old(self).announcements@, delegate), owner, call_hash),
            r is Err ==> r == Err::<(), ProxyError>(ProxyError::NotFound) && engine_unchanged(
                *old(self),
                *final(self),
            ),
            r is Ok ==> announcement_removed(*old(self), *final(self), delegate, owner, call_hash),
    {
        let fi = match find_ann_entry(&self.announcements, delegate) {
            None => {
                return Err(ProxyError::NotFound);
            },
            Some(ai) => ai,
        };
        proof {
            lemma_ann_entry_at(self.announcements@, delegate, fi as int);
        }
        let k = match scan_match(&self.announcements[fi].announcements, owner, call_hash) {
            None => {
                return Err(ProxyError::NotFound);
            },
            Some(k) => k,
        };
        self.remove_announcement_at(fi, k);
        Ok(())
    }
}

} // verus!

verus! {

/// The exact outcome `anonymous` owes: a colliding derivation is fatal
/// (`AlreadyExists`, indicating seed reuse), a derivation landing on the
/// creator itself cannot hold a grant (`NoSelfProxy`), and the creator must
/// afford the deposit plus the derived account's initial endowment.
pub open spec fn anonymous_result(
    s: ProxyEngine,
    creator: u64,
    capability: ProxyCapability,
    delay: u64,
    index: u16,
    height: u64,
    ext_index: u32,
) -> Result<u64, ProxyError> {
    let seed = DerivationSeed {
        creator,
        capability,
        delay,
        index,
        creation_height: height,
        creation_ext_index: ext_index,
    };
    let a = derived_account(seed);
    let dep: int = s.config.proxy_deposit_base + s.config.proxy_deposit_factor;
    let ed: int = s.config.existential_deposit as int;
    if has_entry(s.proxies@, a) {
        Err(ProxyError::AlreadyExists)
    } else if a == creator {
        Err(ProxyError::NoSelfProxy)
    } else if dep + ed > free_of(s.ledger.accounts@, creator) || free_of(s.ledger.accounts@, a)
        + reserved_of(s.ledger.accounts@, a) + ed > u64::MAX {
        Err(ProxyError::InsufficientFunds)
    } else {
        Ok(a)
    }
}

/// What a successful `anonymous` did: the derived account's entry exists
/// with exactly the one grant back to the creator, bonded by the creator's
/// funds, and the derived account holds its initial endowment.
pub open spec fn anonymous_ok(
    pre: ProxyEngine,
    post: ProxyEngine,
    creator: u64,
    capability: ProxyCapability,
    delay: u64,
    index: u16,
    height: u64,
    ext_index: u32,
) -> bool {
    let seed = DerivationSeed {
        creator,
        capability,
        delay,
        index,
        creation_height: height,
        creation_ext_index: ext_index,
    };
    let a = derived_account(seed);
    let g = ProxyGrant { delegate: creator, capability, delay };
    let dep: int = pre.config.proxy_deposit_base + pre.config.proxy_deposit_factor;
    let ed: int = pre.config.existential_deposit as int;
    &&& post.config == pre.config
    &&& post.announcements@ == pre.announcements@
    &&& post.filter.mode == pre.filter.mode
    &&& post.filter.blocked@ == pre.filter.blocked@
    &&& has_entry(post.proxies@, a)
    &&& grants_of(post.proxies@, a) == seq![g]
    &&& deposit_of(post.proxies@, a) == dep
    &&& depositor_of(post.proxies@, a) == creator
    &&& forall|w: u64|
        w != a ==> has_entry(post.proxies@, w) == has_entry(pre.proxies@, w) && grants_of(
            post.proxies@,
            w,
        ) == grants_of(pre.proxies@, w) && deposit_of(post.proxies@, w) == deposit_of(
            pre.proxies@,
            w,
        ) && depositor_of(post.proxies@, w) == depositor_of(pre.proxies@, w)
    &&& free_of(post.ledger.accounts@, creator) == free_of(pre.ledger.accounts@, creator) - dep
        - ed
    &&& reserved_of(post.ledger.accounts@, creator) == reserved_of(pre.ledger.accounts@, creator)
        + dep
    &&& free_of(post.ledger.accounts@, a) == free_of(pre.ledger.accounts@, a) + ed
    &&& reserved_of(post.ledger.accounts@, a) == reserved_of(pre.ledger.accounts@, a)
    &&& forall|w: u64|
        w != creator && w != a ==> free_of(post.ledger.accounts@, w) == free_of(
            pre.ledger.accounts@,
            w,
        ) && reserved_of(post.ledger.accounts@, w) == reserved_of(pre.ledger.accounts@, w)
}

/// The exact outcome `kill_anonymous` owes: the restated seed must
/// re-derive to the stated account, the entry must exist, and nothing may
/// have been granted beyond the single grant made at creation.
pub open spec fn kill_anonymous_result(
    s: ProxyEngine,
    derived: u64,
    creator: u64,
    capability: ProxyCapability,
    delay: u64,
    index: u16,
    height: u64,
    ext_index: u32,
) -> Result<(), ProxyError> {
    let seed = DerivationSeed {
        creator,
        capability,
        delay,
        index,
        creation_height: height,
        creation_ext_index: ext_index,
    };
    let g = ProxyGrant { delegate: creator, capability, delay };
    if derived_account(seed) != derived {
        Err(ProxyError::SeedMismatch)
    } else if !has_entry(s.proxies@, derived) {
        Err(ProxyError::NotFound)
    } else if grants_of(s.proxies@, derived) != seq![g] {
        Err(ProxyError::Unexpected)
    } else {
        Ok(())
    }
}

/// What a successful `kill_anonymous` did: the entry is gone and its whole
/// deposit returned to the account that bonded it (the creator).
pub open spec fn kill_anonymous_ok(pre: ProxyEngine, post: ProxyEngine, derived: u64) -> bool {
    &&& post.config == pre.config
    &&& post.announcements@ == pre.announcements@
    &&& post.filter.mode == pre.filter.mode
    &&& post.filter.blocked@ == pre.filter.blocked@
    &&& !has_entry(post.proxies@, derived)
    &&& forall|w: u64|
        w != derived ==> has_entry(post.proxies@, w) == has_entry(pre.proxies@, w) && grants_of(
            post.proxies@,
            w,
        ) == grants_of(pre.proxies@, w) && deposit_of(post.proxies@, w) == deposit_of(
            pre.proxies@,
            w,
        ) && depositor_of(post.proxies@, w) == depositor_of(pre.proxies@, w)
    &&& unreserved_like(
        pre.ledger.accounts@,
        post.ledger.accounts@,
        depositor_of(pre.proxies@, derived),
        deposit_of(pre.proxies@, derived),
    )
}

impl ProxyEngine {
    /// Creates an anonymous (pure) proxy account: derives its address from
    /// the seed tuple, opens its registry entry with the single grant back
    /// to the creator (bonded by the creator's funds), and endows the new
    /// account with its initial free balance. Returns the derived account.
    pub fn anonymous(
        &mut self,
        creator: u64,
        capability: ProxyCapability,
        delay: u64,
        index: u16,
        height: u64,
        ext_index: u32,
    ) -> (r: Result<u64, ProxyError>)
        requires
            engine_wf(*old(self)),
        ensures
            engine_wf(*final(self)),
            r == anonymous_result(*old(self), creator, capability, delay, index, height, ext_index),
            r is Err ==> engine_unchanged(*old(self), *final(self)),
            r is Ok ==> anonymous_ok(
                *old(self),
                *final(self),
                creator,
                capability,
                delay,
                index,
                height,
                ext_index,
            ),
    {
        let seed = DerivationSeed {
            creator,
            capability,
            delay,
            index,
            creation_height: height,
            creation_ext_index: ext_index,
        };
        let a = derive_account(seed);
        match find_entry(&self.proxies, a) {
            Some(i) => {
                proof {
                    lemma_entry_at(self.proxies@, a, i as int);
                }
                return Err(ProxyError::AlreadyExists);
            },
            None => {},
        }
        if a == creator {
            return Err(ProxyError::NoSelfProxy);
        }
        let dep = proxy_deposit_for(&self.config, 1);
        let ed = self.config.existential_deposit;
        let creator_free = self.ledger.free_balance(creator);
        if creator_free < dep || creator_free - dep < ed {
            return Err(ProxyError::InsufficientFunds);
        }
        let a_free = self.ledger.free_balance(a);
        let a_reserved = self.ledger.reserved_balance(a);
        proof {
            if crate::ledger::has_acct(self.ledger.accounts@, a) {
                let j = crate::ledger::acct_at(self.ledger.accounts@, a);
                assert(self.ledger.accounts@[j].free + self.ledger.accounts@[j].reserved
                    <= u64::MAX);
            }
        }
        if ed > u64::MAX - a_free || a_free + ed > u64::MAX - a_reserved {
            return Err(ProxyError::InsufficientFunds);
        }
        let reserve_r = self.ledger.reserve(creator, dep);
        proof {
            assert(reserve_r is Ok);
        }
        let ghost mid = self.ledger.accounts@;
        let transfer_r = self.ledger.transfer(creator, a, ed);
        proof {
            assert(transfer_r is Ok);
        }
        let g = ProxyGrant { delegate: creator, capability, delay };
        let mut gv: Vec<ProxyGrant> = Vec::new();
        gv.push(g);
        let entry = ProxyEntry { owner: a, depositor: creator, grants: gv, deposit: dep };
        self.proxies.push(entry);
        proof {
            let pre = old(self).proxies@;
            let e2 = self.proxies@[pre.len() as int];
            assert(self.proxies@ =~= pre.push(e2));
            assert(e2.grants@ =~= seq![g]);
            assert(proxy_entry_wf(e2, self.config));
            lemma_entry_push(pre, e2, a);
            assert forall|w: u64| w != a implies has_entry(self.proxies@, w) == has_entry(pre, w)
                && grants_of(self.proxies@, w) == grants_of(pre, w) && deposit_of(
                self.proxies@,
                w,
            ) == deposit_of(pre, w) && depositor_of(self.proxies@, w) == depositor_of(pre, w) by {
                lemma_entry_push(pre, e2, w);
            }
            assert forall|x: int|
                0 <= x < self.proxies@.len() implies proxy_entry_wf(
                #[trigger] self.proxies@[x],
                self.config,
            ) by {
                if x < pre.len() {
                    assert(self.proxies@[x] == pre[x]);
                }
            }
        }
        Ok(a)
    }

    /// Tears an anonymous account down: the caller restates the exact seed
    /// used at creation, which must re-derive to `derived`; the entry must
    /// hold exactly the single grant made at creation. Releases the whole
    /// deposit back to the creator.
    pub fn kill_anonymous(
        &mut self,
        derived: u64,
        creator: u64,
        capability: ProxyCapability,
        delay: u64,
        index: u16,
        height: u64,
        ext_index: u32,
    ) -> (r: Result<(), ProxyError>)
        requires
            engine_wf(*old(self)),
        ensures
            engine_wf(*final(self)),
            r == kill_anonymous_result(
                *old(self),
                derived,
                creator,
                capability,
                delay,
                index,
                height,
                ext_index,
            ),
            r is Err ==> engine_unchanged(*old(self), *final(self)),
            r is Ok ==> kill_anonymous_ok(*old(self), *final(self), derived),
    {
        let seed = DerivationSeed {
            creator,
            capability,
            delay,
            index,
            creation_height: height,
            creation_ext_index: ext_index,
        };
        let a = derive_account(seed);
        if a != derived {
            return Err(ProxyError::SeedMismatch);
        }
        let g = ProxyGrant { delegate: creator, capability, delay };
        let i = match find_entry(&self.proxies, derived) {
            None => {
                return Err(ProxyError::NotFound);
            },
            Some(i) => i,
        };
        proof {
            lemma_entry_at(self.proxies@, derived, i as int);
        }
        let sole = self.proxies[i].grants.len() == 1 && self.proxies[i].grants[0] == g;
        proof {
            if sole {
                assert(grants_of(self.proxies@, derived) =~= seq![g]);
            } else {
                if grants_of(self.proxies@, derived) == seq![g] {
                    assert(self.proxies@[i as int].grants@.len() == 1);
                    assert(self.proxies@[i as int].grants@[0] == g);
                }
            }
        }
        if !sole {
            return Err(ProxyError::Unexpected);
        }
        let payer = self.proxies[i].depositor;
        let entry = self.proxies.remove(i);
        self.ledger.unreserve(payer, entry.deposit);
        proof {
            let pre = old(self).proxies@;
            lemma_entry_remove(pre, i as int, derived);
            assert forall|w: u64| w != derived implies has_entry(self.proxies@, w) == has_entry(
                pre,
                w,
            ) && grants_of(self.proxies@, w) == grants_of(pre, w) && deposit_of(self.proxies@, w)
                == deposit_of(pre, w) && depositor_of(self.proxies@, w) == depositor_of(pre, w) by {
                lemma_entry_remove(pre, i as int, w);
            }
            assert forall|x: int|
                0 <= x < self.proxies@.len() implies proxy_entry_wf(
                #[trigger] self.proxies@[x],
                self.config,
            ) by {
                if x < i {
                    assert(self.proxies@[x] == pre[x]);
                } else {
                    assert(self.proxies@[x] == pre[x + 1]);
                }
            }
        }
        Ok(())
    }
}

} // verus!

verus! {

/// The announcements of `s` that do not target `owner`, in their original
/// order: what an owner-targeted cancellation sweep leaves behind.
pub open spec fn drop_owner(s: Seq<Announcement>, owner: u64) -> Seq<Announcement>
    decreases s.len(),
{
    if s.len() == 0 {
        Seq::empty()
    } else {
        drop_owner(s.drop_last(), owner) + (if s.last().owner != owner {
            seq![s.last()]
        } else {
            Seq::empty()
        })
    }
}

/// A cancellation sweep never keeps more announcements than there were.
pub proof fn lemma_drop_owner_len(s: Seq<Announcement>, owner: u64)
    ensures
        drop_owner(s, owner).len() <= s.len(),
    decreases s.len(),
{
    if s.len() > 0 {
        lemma_drop_owner_len(s.drop_last(), owner);
    }
}

/// The deposit slice the cancellation sweep owes back to delegate `d` when
/// announcements targeting `owner` are struck: the old entry deposit minus
/// what the schedule still demands for the announcements that remain (the
/// whole deposit when none remain; zero for a delegate without an entry or
/// with nothing cancelled).
pub open spec fn ann_refund(
    pre_anns: Seq<AnnouncementEntry>,
    cfg: EngineConfig,
    d: u64,
    owner: u64,
) -> int {
    if has_ann_entry(pre_anns, d) {
        let kept = drop_owner(anns_of(pre_anns, d), owner);
        if kept.len() == 0 {
            ann_deposit_of(pre_anns, d)
        } else {
            ann_deposit_of(pre_anns, d) - (cfg.announcement_deposit_base
                + cfg.announcement_deposit_factor * kept.len())
        }
    } else {
        0
    }
}

/// Account `w` received back exactly `refund` from its reserve (or its
/// whole reserve, when it held less) between the two ledger states.
pub open spec fn refund_applied(
    pre: Seq<BalanceRecord>,
    post: Seq<BalanceRecord>,
    w: u64,
    refund: int,
) -> bool {
    let moved: int = if refund <= reserved_of(pre, w) {
        refund
    } else {
        reserved_of(pre, w)
    };
    &&& reserved_of(post, w) == reserved_of(pre, w) - moved
    &&& free_of(post, w) == free_of(pre, w) + moved
}

/// The exact ledger effect of the cancellation sweep: every account's
/// reserve shrank by precisely its `ann_refund` slice (and its free balance
/// grew by the same), which is zero for every account that is not a
/// delegate with cancelled announcements.
pub open spec fn sweep_refunds(
    pre: Seq<BalanceRecord>,
    post: Seq<BalanceRecord>,
    pre_anns: Seq<AnnouncementEntry>,
    cfg: EngineConfig,
    owner: u64,
) -> bool {
    forall|w: u64| refund_applied(pre, post, w, ann_refund(pre_anns, cfg, w, owner))
}

/// What `remove_proxies` did: the owner's registry entry is gone with its
/// whole deposit released to its depositor, every pending announcement
/// targeting the owner is cancelled with its deposit slice released to its
/// delegate, and no other account's balances moved. The ledger passes
/// through an intermediate state: first the entry deposit returns, then the
/// sweep refunds each delegate exactly once.
pub open spec fn remove_proxies_post(pre: ProxyEngine, post: ProxyEngine, owner: u64) -> bool {
    &&& post.config == pre.config
    &&& post.filter.mode == pre.filter.mode
    &&& post.filter.blocked@ == pre.filter.blocked@
    &&& !has_entry(post.proxies@, owner)
    &&& forall|w: u64|
        w != owner ==> has_entry(post.proxies@, w) == has_entry(pre.proxies@, w) && grants_of(
            post.proxies@,
            w,
        ) == grants_of(pre.proxies@, w) && deposit_of(post.proxies@, w) == deposit_of(
            pre.proxies@,
            w,
        ) && depositor_of(post.proxies@, w) == depositor_of(pre.proxies@, w)
    &&& forall|d: u64|
        anns_of(post.announcements@, d) == drop_owner(anns_of(pre.announcements@, d), owner)
    &&& exists|mid: Seq<BalanceRecord>|
        (#[trigger] unreserved_like(
            pre.ledger.accounts@,
            mid,
            depositor_of(pre.proxies@, owner),
            deposit_of(pre.proxies@, owner),
        )) && sweep_refunds(mid, post.ledger.accounts@, pre.announcements@, pre.config, owner)
    &&& forall|w: u64|
        w != depositor_of(pre.proxies@, owner) && !has_ann_entry(pre.announcements@, w)
            ==> free_of(post.ledger.accounts@, w) == free_of(pre.ledger.accounts@, w)
            && reserved_of(post.ledger.accounts@, w) == reserved_of(pre.ledger.accounts@, w)
    &&& forall|w: u64|
        free_of(post.ledger.accounts@, w) + reserved_of(post.ledger.accounts@, w) == free_of(
            pre.ledger.accounts@,
            w,
        ) + reserved_of(pre.ledger.accounts@, w) && reserved_of(post.ledger.accounts@, w)
            <= reserved_of(pre.ledger.accounts@, w)
}

impl ProxyEngine {
    /// Clears every grant of `owner` in one step, releasing the whole
    /// bonded deposit, and cancels every pending announcement that targets
    /// `owner`, so that no delegate is left holding authority over an
    /// account that has revoked it.
    pub fn remove_proxies(&mut self, owner: u64)
        requires
            engine_wf(*old(self)),
        ensures
            engine_wf(*final(self)),
            remove_proxies_post(*old(self), *final(self), owner),
    {
        match find_entry(&self.proxies, owner) {
            Some(i) => {
                proof {
                    lemma_entry_at(self.proxies@, owner, i as int);
                }
                let payer = self.proxies[i].depositor;
                let entry = self.proxies.remove(i);
                self.ledger.unreserve(payer, entry.deposit);
                proof {
                    let pre = old(self).proxies@;
                    lemma_entry_remove(pre, i as int, owner);
                    assert forall|w: u64| w != owner implies has_entry(self.proxies@, w)
                        == has_entry(pre, w) && grants_of(self.proxies@, w) == grants_of(pre, w)
                        && deposit_of(self.proxies@, w) == deposit_of(pre, w) && depositor_of(
                        self.proxies@,
                        w,
                    ) == depositor_of(pre, w) by {
                        lemma_entry_remove(pre, i as int, w);
                    }
                    assert forall|x: int|
                        0 <= x < self.proxies@.len() implies proxy_entry_wf(
                        #[trigger] self.proxies@[x],
                        self.config,
                    ) by {
                        if x < i {
                            assert(self.proxies@[x] == pre[x]);
                        } else {
                            assert(self.proxies@[x] == pre[x + 1]);
                        }
                    }
                }
            },
            None => {},
        }
        let ghost p1v = self.proxies@;
        let ghost l1 = self.ledger.accounts@;
        let ghost pre_anns = self.announcements@;
        let ghost cfg = self.config;
        proof {
            assert(unreserved_like(
                old(self).ledger.accounts@,
                l1,
                depositor_of(old(self).proxies@, owner),
                deposit_of(old(self).proxies@, owner),
            ));
        }
        let mut kept: Vec<AnnouncementEntry> = Vec::new();
        let mut x: usize = 0;
        while x < self.announcements.len()
            invariant
                x <= self.announcements@.len(),
                self.announcements@ == pre_anns,
                self.proxies@ == p1v,
                self.config == cfg,
                self.filter.mode == old(self).filter.mode,
                self.filter.blocked@ == old(self).filter.blocked@,
                config_wf(cfg),
                forall|p: int, q: int|
                    0 <= p < q < pre_anns.len() ==> pre_anns[p].delegate != pre_anns[q].delegate,
                forall|p: int|
                    0 <= p < pre_anns.len() ==> ann_entry_wf(#[trigger] pre_anns[p], cfg),
                ledger_wf(self.ledger.accounts@),
                forall|w: u64|
                    (exists|y: int| 0 <= y < x && (#[trigger] pre_anns[y]).delegate == w)
                        ==> refund_applied(
                        l1,
                        self.ledger.accounts@,
                        w,
                        ann_refund(pre_anns, cfg, w, owner),
                    ),
                forall|w: u64|
                    !(exists|y: int| 0 <= y < x && (#[trigger] pre_anns[y]).delegate == w)
                        ==> free_of(self.ledger.accounts@, w) == free_of(l1, w) && reserved_of(
                        self.ledger.accounts@,
                        w,
                    ) == reserved_of(l1, w),
                forall|p: int, q: int|
                    0 <= p < q < kept@.len() ==> kept@[p].delegate != kept@[q].delegate,
                forall|p: int| 0 <= p < kept@.len() ==> ann_entry_wf(#[trigger] kept@[p], cfg),
                forall|p: int|
                    0 <= p < kept@.len() ==> exists|y: int|
                        0 <= y < x && pre_anns[y].delegate == (#[trigger] kept@[p]).delegate,
                forall|d: u64|
                    (exists|y: int| 0 <= y < x && (#[trigger] pre_anns[y]).delegate == d)
                        ==> anns_of(kept@, d) == drop_owner(anns_of(pre_anns, d), owner),
                forall|d: u64|
                    !(exists|y: int| 0 <= y < x && (#[trigger] pre_anns[y]).delegate == d)
                        ==> !has_ann_entry(kept@, d),
            decreases self.announcements@.len() - x,
        {
            let e_del = self.announcements[x].delegate;
            let n = self.announcements[x].announcements.len();
            proof {
                lemma_ann_entry_at(pre_anns, e_del, x as int);
                assert(ann_entry_wf(pre_anns[x as int], cfg));
            }
            let mut fv: Vec<Announcement> = Vec::new();
            let mut j: usize = 0;
            while j < n
                invariant
                    j <= n,
                    x < self.announcements@.len(),
                    self.announcements@ == pre_anns,
                    n == pre_anns[x as int].announcements@.len(),
                    fv@ == drop_owner(pre_anns[x as int].announcements@.take(j as int), owner),
                    fv@.len() <= j,
                decreases n - j,
            {
                let a = self.announcements[x].announcements[j];
                proof {
                    let s = pre_anns[x as int].announcements@;
                    assert(s.take(j as int + 1).drop_last() =~= s.take(j as int));
                    assert(s.take(j as int + 1).last() == s[j as int]);
                }
                if a.owner != owner {
                    fv.push(a);
                    proof {
                        let s = pre_anns[x as int].announcements@;
                        assert(fv@ =~= drop_owner(s.take(j as int + 1), owner));
                    }
                } else {
                    proof {
                        let s = pre_anns[x as int].announcements@;
                        assert(fv@ =~= drop_owner(s.take(j as int + 1), owner));
                    }
                }
                j = j + 1;
            }
            proof {
                let s = pre_anns[x as int].announcements@;
                assert(s.take(n as int) =~= s);
                assert(fv@ == drop_owner(anns_of(pre_anns, e_del), owner));
                assert(forall|y: int| 0 <= y < x ==> pre_anns[y].delegate != e_del);
                assert(!has_ann_entry(kept@, e_del));
            }
            let ghost kept0 = kept@;
            let ghost lcur = self.ledger.accounts@;
            if fv.len() == 0 {
                let depv = self.announcements[x].deposit;
                self.ledger.unreserve(e_del, depv);
                proof {
                    assert(anns_of(kept@, e_del) =~= drop_owner(anns_of(pre_anns, e_del), owner));
                    assert(drop_owner(anns_of(pre_anns, e_del), owner).len() == 0);
                    assert(depv as int == ann_refund(pre_anns, cfg, e_del, owner));
                    assert forall|w: u64|
                        (exists|y: int| 0 <= y < x + 1 && (#[trigger] pre_anns[y]).delegate == w)
                            implies refund_applied(
                            l1,
                            self.ledger.accounts@,
                            w,
                            ann_refund(pre_anns, cfg, w, owner),
                        ) by {
                        if w == e_del {
                            assert(reserved_of(lcur, w) == reserved_of(l1, w));
                            assert(free_of(lcur, w) == free_of(l1, w));
                        } else {
                            let y = choose|y: int|
                                0 <= y < x + 1 && (#[trigger] pre_anns[y]).delegate == w;
                            assert(pre_anns[x as int].delegate == e_del);
                            assert(y < x);
                            assert(refund_applied(l1, lcur, w, ann_refund(pre_anns, cfg, w, owner)));
                            assert(reserved_of(self.ledger.accounts@, w) == reserved_of(lcur, w));
                            assert(free_of(self.ledger.accounts@, w) == free_of(lcur, w));
                        }
                    }
                    assert forall|w: u64|
                        !(exists|y: int| 0 <= y < x + 1 && (#[trigger] pre_anns[y]).delegate == w)
                            implies free_of(self.ledger.accounts@, w) == free_of(l1, w)
                        && reserved_of(self.ledger.accounts@, w) == reserved_of(l1, w) by {
                        assert(pre_anns[x as int].delegate == e_del);
                        assert(w != e_del);
                        assert(!(exists|y: int|
                            0 <= y < x && (#[trigger] pre_anns[y]).delegate == w));
                    }
                    assert forall|d: u64|
                        (exists|y: int| 0 <= y < x + 1 && (#[trigger] pre_anns[y]).delegate == d)
                            implies anns_of(kept@, d) == drop_owner(
                            anns_of(pre_anns, d),
                            owner,
                        ) by {
                        if d != e_del {
                            let y = choose|y: int|
                                0 <= y < x + 1 && (#[trigger] pre_anns[y]).delegate == d;
                            assert(pre_anns[x as int].delegate == e_del);
                            assert(y < x);
                        }
                    }
                    assert forall|d: u64|
                        !(exists|y: int| 0 <= y < x + 1 && (#[trigger] pre_anns[y]).delegate == d)
                            implies !has_ann_entry(kept@, d) by {
                        assert(pre_anns[x as int].delegate == e_del);
                        if d != e_del {
                            assert(!(exists|y: int|
                                0 <= y < x && (#[trigger] pre_anns[y]).delegate == d));
                        }
                    }
                }
            } else {
                let nf = fv.len();
                proof {
                    lemma_mul_inequality(nf as int, n as int, cfg.announcement_deposit_factor as int);
                    lemma_mul_inequality(nf as int, cfg.max_pending as int, cfg.announcement_deposit_factor as int);
                }
                let depnew = ann_deposit_for(&self.config, nf as u64);
                let depold = self.announcements[x].deposit;
                let delta = depold - depnew;
                let newe = AnnouncementEntry {
                    delegate: e_del,
                    announcements: fv,
                    deposit: depnew,
                };
                kept.push(newe);
                self.ledger.unreserve(e_del, delta);
                proof {
                    let e2 = kept@[kept0.len() as int];
                    assert(kept@ =~= kept0.push(e2));
                    assert(e2.announcements@ == drop_owner(anns_of(pre_anns, e_del), owner));
                    assert(ann_entry_wf(e2, cfg));
                    lemma_ann_entry_push(kept0, e2, e_del);
                    assert(anns_of(kept@, e_del) == drop_owner(anns_of(pre_anns, e_del), owner));
                    assert forall|w: u64| w != e_del implies has_ann_entry(kept@, w)
                        == has_ann_entry(kept0, w) && anns_of(kept@, w) == anns_of(kept0, w) by {
                        lemma_ann_entry_push(kept0, e2, w);
                    }
                    assert(drop_owner(anns_of(pre_anns, e_del), owner).len() == nf as int);
                    assert(depold as int == ann_deposit_of(pre_anns, e_del));
                    assert(delta as int == ann_refund(pre_anns, cfg, e_del, owner));
                    assert forall|w: u64|
                        (exists|y: int| 0 <= y < x + 1 && (#[trigger] pre_anns[y]).delegate == w)
                            implies refund_applied(
                            l1,
                            self.ledger.accounts@,
                            w,
                            ann_refund(pre_anns, cfg, w, owner),
                        ) by {
                        if w == e_del {
                            assert(reserved_of(lcur, w) == reserved_of(l1, w));
                            assert(free_of(lcur, w) == free_of(l1, w));
                        } else {
                            let y = choose|y: int|
                                0 <= y < x + 1 && (#[trigger] pre_anns[y]).delegate == w;
                            assert(pre_anns[x as int].delegate == e_del);
                            assert(y < x);
                            assert(refund_applied(l1, lcur, w, ann_refund(pre_anns, cfg, w, owner)));
                            assert(reserved_of(self.ledger.accounts@, w) == reserved_of(lcur, w));
                            assert(free_of(self.ledger.accounts@, w) == free_of(lcur, w));
                        }
                    }
                    assert forall|w: u64|
                        !(exists|y: int| 0 <= y < x + 1 && (#[trigger] pre_anns[y]).delegate == w)
                            implies free_of(self.ledger.accounts@, w) == free_of(l1, w)
                        && reserved_of(self.ledger.accounts@, w) == reserved_of(l1, w) by {
                        assert(pre_anns[x as int].delegate == e_del);
                        assert(w != e_del);
                        assert(!(exists|y: int|
                            0 <= y < x && (#[trigger] pre_anns[y]).delegate == w));
                    }
                    assert forall|p: int|
                        0 <= p < kept@.len() implies ann_entry_wf(#[trigger] kept@[p], cfg) by {
                        if p < kept0.len() {
                            assert(kept@[p] == kept0[p]);
                        }
                    }
                    assert forall|d: u64|
                        (exists|y: int| 0 <= y < x + 1 && (#[trigger] pre_anns[y]).delegate == d)
                            implies anns_of(kept@, d) == drop_owner(
                            anns_of(pre_anns, d),
                            owner,
                        ) by {
                        if d != e_del {
                            let y = choose|y: int|
                                0 <= y < x + 1 && (#[trigger] pre_anns[y]).delegate == d;
                            assert(pre_anns[x as int].delegate == e_del);
                            assert(y < x);
                            assert(anns_of(kept0, d) == drop_owner(anns_of(pre_anns, d), owner));
                            assert(anns_of(kept@, d) == anns_of(kept0, d));
                        }
                    }
                    assert forall|d: u64|
                        !(exists|y: int| 0 <= y < x + 1 && (#[trigger] pre_anns[y]).delegate == d)
                            implies !has_ann_entry(kept@, d) by {
                        assert(pre_anns[x as int].delegate == e_del);
                        if d != e_del {
                            assert(!(exists|y: int|
                                0 <= y < x && (#[trigger] pre_anns[y]).delegate == d));
                            assert(!has_ann_entry(kept0, d));
                            assert(has_ann_entry(kept@, d) == has_ann_entry(kept0, d));
                        }
                    }
                }
            }
            x = x + 1;
        }
        self.announcements = kept;

        proof {
            assert forall|d: u64|
                anns_of(self.announcements@, d) == drop_owner(
                anns_of(pre_anns, d),
                owner,
            ) by {
                if has_ann_entry(pre_anns, d) {
                    let y = crate::announce::ann_entry_at(pre_anns, d);
                    assert(0 <= y < pre_anns.len() && pre_anns[y].delegate == d);
                } else {
                    assert(forall|y: int| 0 <= y < pre_anns.len() ==> pre_anns[y].delegate != d);
                    assert(!has_ann_entry(self.announcements@, d));
                    assert(anns_of(pre_anns, d) == Seq::<Announcement>::empty());
                    assert(drop_owner(anns_of(pre_anns, d), owner) =~= Seq::<
                        Announcement,
                    >::empty());
                }
            }
            assert forall|w: u64|
                refund_applied(
                    l1,
                    self.ledger.accounts@,
                    w,
                    ann_refund(pre_anns, cfg, w, owner),
                ) by {
                if has_ann_entry(pre_anns, w) {
                    let y = crate::announce::ann_entry_at(pre_anns, w);
                    assert(0 <= y < pre_anns.len() && pre_anns[y].delegate == w);
                } else {
                    assert(forall|y: int| 0 <= y < pre_anns.len() ==> pre_anns[y].delegate != w);
                    assert(ann_refund(pre_anns, cfg, w, owner) == 0);
                }
            }
            assert(sweep_refunds(l1, self.ledger.accounts@, pre_anns, cfg, owner));
            assert(unreserved_like(
                old(self).ledger.accounts@,
                l1,
                depositor_of(old(self).proxies@, owner),
                deposit_of(old(self).proxies@, owner),
            ) && sweep_refunds(
                l1,
                self.ledger.accounts@,
                old(self).announcements@,
                old(self).config,
                owner,
            ));
            assert forall|w: u64|
                w != depositor_of(old(self).proxies@, owner) && !has_ann_entry(
                    old(self).announcements@,
                    w,
                ) implies free_of(self.ledger.accounts@, w) == free_of(
                old(self).ledger.accounts@,
                w,
            ) && reserved_of(self.ledger.accounts@, w) == reserved_of(
                old(self).ledger.accounts@,
                w,
            ) by {
                assert(free_of(l1, w) == free_of(old(self).ledger.accounts@, w));
                assert(reserved_of(l1, w) == reserved_of(old(self).ledger.accounts@, w));
                assert(forall|y: int| 0 <= y < pre_anns.len() ==> pre_anns[y].delegate != w);
                assert(ann_refund(pre_anns, cfg, w, owner) == 0);
                assert(refund_applied(
                    l1,
                    self.ledger.accounts@,
                    w,
                    ann_refund(pre_anns, cfg, w, owner),
                ));
            }
            assert forall|w: u64|
                free_of(self.ledger.accounts@, w) + reserved_of(self.ledger.accounts@, w)
                    == free_of(old(self).ledger.accounts@, w) + reserved_of(
                    old(self).ledger.accounts@,
                    w,
                ) && reserved_of(self.ledger.accounts@, w) <= reserved_of(
                    old(self).ledger.accounts@,
                    w,
                ) by {
                assert(refund_applied(
                    l1,
                    self.ledger.accounts@,
                    w,
                    ann_refund(pre_anns, cfg, w, owner),
                ));
                if has_ann_entry(pre_anns, w) {
                    let y = crate::announce::ann_entry_at(pre_anns, w);
                    assert(0 <= y < pre_anns.len() && pre_anns[y].delegate == w);
                    assert(ann_entry_wf(pre_anns[y], cfg));
                    lemma_ann_entry_at(pre_anns, w, y);
                    let kept_w = drop_owner(anns_of(pre_anns, w), owner);
                    lemma_drop_owner_len(anns_of(pre_anns, w), owner);
                    if kept_w.len() > 0 {
                        lemma_mul_inequality(
                            kept_w.len() as int,
                            anns_of(pre_anns, w).len() as int,
                            cfg.announcement_deposit_factor as int,
                        );
                    }
                    assert(ann_refund(pre_anns, cfg, w, owner) >= 0);
                } else {
                    assert(forall|y: int| 0 <= y < pre_anns.len() ==> pre_anns[y].delegate != w);
                    assert(ann_refund(pre_anns, cfg, w, owner) == 0);
                }
            }
        }
    }
}

} // verus!

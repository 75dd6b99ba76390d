use vstd::prelude::*;

use crate::errors::ProxyError;

verus! {

/// One account's balances: funds free for new reservations and funds
/// currently bonded against storage.
#[derive(Clone, Copy, PartialEq, Eq, Structural, Debug)]
pub struct BalanceRecord {
    /// The account.
    pub who: u64,
    /// Balance available for new reservations or transfers.
    pub free: u64,
    /// Balance currently reserved as deposits.
    pub reserved: u64,
}

/// The deposit ledger: reserves and releases funds that bond storage growth.
/// Accounts not listed hold nothing; an account's total balance always fits
/// in the balance type.
pub struct Ledger {
    /// The listed accounts, unique by `who`.
    pub accounts: Vec<BalanceRecord>,
}

/// Whether some listed account is `who`.
pub open spec fn has_acct(s: Seq<BalanceRecord>, who: u64) -> bool {
    exists|i: int| 0 <= i < s.len() && s[i].who == who
}

/// The index of `who`'s record (meaningful only under `ledger_wf`, which
/// makes it unique).
pub open spec fn acct_at(s: Seq<BalanceRecord>, who: u64) -> int {
    choose|i: int| 0 <= i < s.len() && s[i].who == who
}

/// `who`'s free balance; zero when unlisted.
pub open spec fn free_of(s: Seq<BalanceRecord>, who: u64) -> int {
    if has_acct(s, who) {
        s[acct_at(s, who)].free as int
    } else {
        0
    }
}

/// `who`'s reserved balance; zero when unlisted.
pub open spec fn reserved_of(s: Seq<BalanceRecord>, who: u64) -> int {
    if has_acct(s, who) {
        s[acct_at(s, who)].reserved as int
    } else {
        0
    }
}

/// The relation a successful reservation leaves between two ledger states:
/// `amount` moved from `who`'s free balance into reserve, everyone else
/// untouched.
pub open spec fn reserved_like(
    pre: Seq<BalanceRecord>,
    post: Seq<BalanceRecord>,
    who: u64,
    amount: int,
) -> bool {
    &&& free_of(post, who) == free_of(pre, who) - amount
    &&& reserved_of(post, who) == reserved_of(pre, who) + amount
    &&& forall|w: u64|
        w != who ==> free_of(post, w) == free_of(pre, w) && reserved_of(post, w) == reserved_of(
            pre,
            w,
        )
}

/// The relation a release leaves between two ledger states: up to `amount`
/// moved back from `who`'s reserve to free balance (all of the reserve when
/// it held less), everyone else untouched.
pub open spec fn unreserved_like(
    pre: Seq<BalanceRecord>,
    post: Seq<BalanceRecord>,
    who: u64,
    amount: int,
) -> bool {
    let moved: int = if amount <= reserved_of(pre, who) {
        amount
    } else {
        reserved_of(pre, who)
    };
    &&& free_of(post, who) == free_of(pre, who) + moved
    &&& reserved_of(post, who) == reserved_of(pre, who) - moved
    &&& forall|w: u64|
        w != who ==> free_of(post, w) == free_of(pre, w) && reserved_of(post, w) == reserved_of(
            pre,
            w,
        )
}

/// Ledger well-formedness: accounts are unique and each total balance fits.
pub open spec fn ledger_wf(s: Seq<BalanceRecord>) -> bool {
    &&& forall|i: int, j: int| 0 <= i < j < s.len() ==> s[i].who != s[j].who
    &&& forall|i: int| 0 <= i < s.len() ==> #[trigger] s[i].free + s[i].reserved <= u64::MAX
}

/// Under uniqueness, an index holding `who` is the index the lookups use.
pub proof fn lemma_acct_at(s: Seq<BalanceRecord>, who: u64, i: int)
    requires
        forall|p: int, q: int| 0 <= p < q < s.len() ==> s[p].who != s[q].who,
        0 <= i < s.len(),
        s[i].who == who,
    ensures
        has_acct(s, who),
        acct_at(s, who) == i,
        free_of(s, who) == s[i].free as int,
        reserved_of(s, who) == s[i].reserved as int,
{
    assert(has_acct(s, who));
    let j = acct_at(s, who);
    assert(0 <= j < s.len() && s[j].who == who);
}

/// Replacing `who`'s record with another record for the same account leaves
/// every other account's balances unchanged.
pub proof fn lemma_update_same_key(s: Seq<BalanceRecord>, i: int, rec: BalanceRecord, w: u64)
    requires
        forall|p: int, q: int| 0 <= p < q < s.len() ==> s[p].who != s[q].who,
        0 <= i < s.len(),
        rec.who == s[i].who,
    ensures
        forall|p: int, q: int|
            0 <= p < q < s.update(i, rec).len() ==> s.update(i, rec)[p].who != s.update(
                i,
                rec,
            )[q].who,
        w == rec.who ==> free_of(s.update(i, rec), w) == rec.free as int && reserved_of(
            s.update(i, rec),
            w,
        ) == rec.reserved as int,
        w != rec.who ==> free_of(s.update(i, rec), w) == free_of(s, w) && reserved_of(
            s.update(i, rec),
            w,
        ) == reserved_of(s, w),
{
    let t = s.update(i, rec);
    assert(forall|k: int| 0 <= k < t.len() && k != i ==> t[k] == s[k]);
    if w == rec.who {
        lemma_acct_at(t, w, i);
    } else {
        if has_acct(s, w) {
            let j = acct_at(s, w);
            assert(0 <= j < s.len() && s[j].who == w);
            assert(t[j].who == w);
            lemma_acct_at(t, w, j);
            lemma_acct_at(s, w, j);
        } else {
            assert(forall|k: int| 0 <= k < t.len() ==> t[k].who != w) by {
                assert(forall|k: int| 0 <= k < s.len() ==> s[k].who != w);
            }
            assert(!has_acct(t, w));
        }
    }
}

/// Listing a fresh account leaves every other account's balances unchanged
/// and gives the new account exactly the pushed record.
pub proof fn lemma_push_fresh_key(s: Seq<BalanceRecord>, rec: BalanceRecord, w: u64)
    requires
        forall|p: int, q: int| 0 <= p < q < s.len() ==> s[p].who != s[q].who,
        !has_acct(s, rec.who),
    ensures
        forall|p: int, q: int|
            0 <= p < q < s.push(rec).len() ==> s.push(rec)[p].who != s.push(rec)[q].who,
        free_of(s.push(rec), rec.who) == rec.free as int,
        reserved_of(s.push(rec), rec.who) == rec.reserved as int,
        w != rec.who ==> free_of(s.push(rec), w) == free_of(s, w) && reserved_of(s.push(rec), w)
            == reserved_of(s, w),
{
    let t = s.push(rec);
    assert(forall|k: int| 0 <= k < s.len() ==> t[k] == s[k]);
    assert(forall|k: int| 0 <= k < s.len() ==> s[k].who != rec.who);
    assert(t[s.len() as int].who == rec.who);
    lemma_acct_at(t, rec.who, s.len() as int);
    if w != rec.who {
        if has_acct(s, w) {
            let j = acct_at(s, w);
            assert(0 <= j < s.len() && s[j].who == w);
            lemma_acct_at(t, w, j);
            lemma_acct_at(s, w, j);
        } else {
            assert(forall|k: int| 0 <= k < t.len() ==> t[k].who != w);
            assert(!has_acct(t, w));
        }
    }
}

/// Finds the record index of `who`, if listed.
fn find_account(v: &Vec<BalanceRecord>, who: u64) -> (r: Option<usize>)
    ensures
        match r {
            Some(i) => i < v@.len() && v@[i as int].who == who,
            None => !has_acct(v@, who),
        },
{
    let mut i: usize = 0;
    while i < v.len()
        invariant
            i <= v@.len(),
            forall|j: int| 0 <= j < i ==> v@[j].who != who,
        decreases v@.len() - i,
    {
        if v[i].who == who {
            return Some(i);
        }
        i = i + 1;
    }
    None
}

impl Ledger {
    /// A ledger with no accounts.
    pub fn new() -> (r: Ledger)
        ensures
            r.accounts@.len() == 0,
            ledger_wf(r.accounts@),
    {
        Ledger { accounts: Vec::new() }
    }

    /// `who`'s free balance.
    pub fn free_balance(&self, who: u64) -> (r: u64)
        requires
            ledger_wf(self.accounts@),
        ensures
            r as int == free_of(self.accounts@, who),
    {
        let found = find_account(&self.accounts, who);
        match found {
            Some(i) => {
                proof {
                    lemma_acct_at(self.accounts@, who, i as int);
                }
                self.accounts[i].free
            },
            None => 0,
        }
    }

    /// `who`'s reserved balance.
    pub fn reserved_balance(&self, who: u64) -> (r: u64)
        requires
            ledger_wf(self.accounts@),
        ensures
            r as int == reserved_of(self.accounts@, who),
    {
        let found = find_account(&self.accounts, who);
        match found {
            Some(i) => {
                proof {
                    lemma_acct_at(self.accounts@, who, i as int);
                }
                self.accounts[i].reserved
            },
            None => 0,
        }
    }

    /// Credits `amount` of free balance to `who`, listing the account if
    /// needed. Host-side endowment; the engine itself never mints.
    pub fn fund(&mut self, who: u64, amount: u64)
        requires
            ledger_wf(old(self).accounts@),
            free_of(old(self).accounts@, who) + reserved_of(old(self).accounts@, who) + amount
                <= u64::MAX,
        ensures
            ledger_wf(final(self).accounts@),
            free_of(final(self).accounts@, who) == free_of(old(self).accounts@, who) + amount,
            reserved_of(final(self).accounts@, who) == reserved_of(old(self).accounts@, who),
            forall|w: u64|
                w != who ==> free_of(final(self).accounts@, w) == free_of(old(self).accounts@, w)
                    && reserved_of(final(self).accounts@, w) == reserved_of(old(self).accounts@, w),
    {
        let found = find_account(&self.accounts, who);
        match found {
            Some(i) => {
                proof {
                    lemma_acct_at(self.accounts@, who, i as int);
                }
                let mut rec = self.accounts[i];
                rec.free = rec.free + amount;
                self.accounts.set(i, rec);
                proof {
                    lemma_update_same_key(old(self).accounts@, i as int, rec, who);
                    assert forall|w: u64| w != who implies free_of(self.accounts@, w) == free_of(
                        old(self).accounts@,
                        w,
                    ) && reserved_of(self.accounts@, w) == reserved_of(old(self).accounts@, w) by {
                        lemma_update_same_key(old(self).accounts@, i as int, rec, w);
                    }
                }
            },
            None => {
                let rec = BalanceRecord { who, free: amount, reserved: 0 };
                self.accounts.push(rec);
                proof {
                    lemma_push_fresh_key(old(self).accounts@, rec, who);
                    assert forall|w: u64| w != who implies free_of(self.accounts@, w) == free_of(
                        old(self).accounts@,
                        w,
                    ) && reserved_of(self.accounts@, w) == reserved_of(old(self).accounts@, w) by {
                        lemma_push_fresh_key(old(self).accounts@, rec, w);
                    }
                }
            },
        }
    }

    /// Moves `amount` from `who`'s free balance into its reserved balance.
    /// Fails, changing nothing, exactly when the free balance is short.
    pub fn reserve(&mut self, who: u64, amount: u64) -> (r: Result<(), ProxyError>)
        requires
            ledger_wf(old(self).accounts@),
        ensures
            ledger_wf(final(self).accounts@),
            r is Ok <==> amount <= free_of(old(self).accounts@, who),
            r is Err ==> r == Err::<(), ProxyError>(ProxyError::InsufficientFunds) && final(self).accounts@
                == old(self).accounts@,
            r is Ok ==> free_of(final(self).accounts@, who) == free_of(old(self).accounts@, who) - amount
                && reserved_of(final(self).accounts@, who) == reserved_of(old(self).accounts@, who)
                + amount,
            forall|w: u64|
                w != who ==> free_of(final(self).accounts@, w) == free_of(old(self).accounts@, w)
                    && reserved_of(final(self).accounts@, w) == reserved_of(old(self).accounts@, w),
    {
        if amount == 0 {
            return Ok(());
        }
        let found = find_account(&self.accounts, who);
        match found {
            Some(i) => {
                proof {
                    lemma_acct_at(self.accounts@, who, i as int);
                }
                let mut rec = self.accounts[i];
                if rec.free < amount {
                    return Err(ProxyError::InsufficientFunds);
                }
                rec.free = rec.free - amount;
                rec.reserved = rec.reserved + amount;
                self.accounts.set(i, rec);
                proof {
                    lemma_update_same_key(old(self).accounts@, i as int, rec, who);
                    assert forall|w: u64| w != who implies free_of(self.accounts@, w) == free_of(
                        old(self).accounts@,
                        w,
                    ) && reserved_of(self.accounts@, w) == reserved_of(old(self).accounts@, w) by {
                        lemma_update_same_key(old(self).accounts@, i as int, rec, w);
                    }
                }
                Ok(())
            },
            None => Err(ProxyError::InsufficientFunds),
        }
    }

    /// Releases up to `amount` from `who`'s reserved balance back to free;
    /// releases whatever is reserved when less than `amount` is held.
    pub fn unreserve(&mut self, who: u64, amount: u64)
        requires
            ledger_wf(old(self).accounts@),
        ensures
            ledger_wf(final(self).accounts@),
            reserved_of(final(self).accounts@, who) == reserved_of(old(self).accounts@, who) - (if amount
                <= reserved_of(old(self).accounts@, who) {
                amount as int
            } else {
                reserved_of(old(self).accounts@, who)
            }),
            free_of(final(self).accounts@, who) == free_of(old(self).accounts@, who) + (if amount
                <= reserved_of(old(self).accounts@, who) {
                amount as int
            } else {
                reserved_of(old(self).accounts@, who)
            }),
            forall|w: u64|
                w != who ==> free_of(final(self).accounts@, w) == free_of(old(self).accounts@, w)
                    && reserved_of(final(self).accounts@, w) == reserved_of(old(self).accounts@, w),
    {
        let found = find_account(&self.accounts, who);
        match found {
            Some(i) => {
                proof {
                    lemma_acct_at(self.accounts@, who, i as int);
                }
                let mut rec = self.accounts[i];
                let moved = if amount <= rec.reserved {
                    amount
                } else {
                    rec.reserved
                };
                rec.reserved = rec.reserved - moved;
                rec.free = rec.free + moved;
                self.accounts.set(i, rec);
                proof {
                    lemma_update_same_key(old(self).accounts@, i as int, rec, who);
                    assert forall|w: u64| w != who implies free_of(self.accounts@, w) == free_of(
                        old(self).accounts@,
                        w,
                    ) && reserved_of(self.accounts@, w) == reserved_of(old(self).accounts@, w) by {
                        lemma_update_same_key(old(self).accounts@, i as int, rec, w);
                    }
                }
            },
            None => {},
        }
    }

    /// Moves `amount` of free balance from `from` to `to`, listing `to` if
    /// needed. Fails, changing nothing, when `from`'s free balance is short
    /// or `to`'s total balance would no longer fit. A self-transfer of an
    /// affordable amount succeeds and changes nothing.
    pub fn transfer(&mut self, from: u64, to: u64, amount: u64) -> (r: Result<(), ProxyError>)
        requires
            ledger_wf(old(self).accounts@),
        ensures
            ledger_wf(final(self).accounts@),
            r is Ok <==> amount <= free_of(old(self).accounts@, from) && (from == to || free_of(
                old(self).accounts@,
                to,
            ) + reserved_of(old(self).accounts@, to) + amount <= u64::MAX),
            r is Err ==> r == Err::<(), ProxyError>(ProxyError::InsufficientFunds) && final(self).accounts@
                == old(self).accounts@,
            r is Ok && from != to ==> free_of(final(self).accounts@, from) == free_of(
                old(self).accounts@,
                from,
            ) - amount && free_of(final(self).accounts@, to) == free_of(old(self).accounts@, to) + amount
                && reserved_of(final(self).accounts@, from) == reserved_of(old(self).accounts@, from)
                && reserved_of(final(self).accounts@, to) == reserved_of(old(self).accounts@, to),
            r is Ok && from == to ==> final(self).accounts@ == old(self).accounts@,
            forall|w: u64|
                w != from && w != to ==> free_of(final(self).accounts@, w) == free_of(
                    old(self).accounts@,
                    w,
                ) && reserved_of(final(self).accounts@, w) == reserved_of(old(self).accounts@, w),
    {
        if amount == 0 {
            return Ok(());
        }
        let found_from = find_account(&self.accounts, from);
        let i = match found_from {
            Some(i) => i,
            None => {
                return Err(ProxyError::InsufficientFunds);
            },
        };
        proof {
            lemma_acct_at(self.accounts@, from, i as int);
        }
        if self.accounts[i].free < amount {
            return Err(ProxyError::InsufficientFunds);
        }
        if from == to {
            return Ok(());
        }
        let found_to = find_account(&self.accounts, to);
        match found_to {
            Some(j) => {
                proof {
                    lemma_acct_at(self.accounts@, to, j as int);
                }
                let to_rec = self.accounts[j];
                if amount > u64::MAX - to_rec.free || to_rec.free + amount > u64::MAX
                    - to_rec.reserved {
                    return Err(ProxyError::InsufficientFunds);
                }
            },
            None => {},
        }
        let mut from_rec = self.accounts[i];
        from_rec.free = from_rec.free - amount;
        self.accounts.set(i, from_rec);
        proof {
            lemma_update_same_key(old(self).accounts@, i as int, from_rec, from);
            lemma_update_same_key(old(self).accounts@, i as int, from_rec, to);
        }
        let ghost mid = self.accounts@;
        let found_to2 = find_account(&self.accounts, to);
        match found_to2 {
            Some(j) => {
                proof {
                    lemma_acct_at(self.accounts@, to, j as int);
                }
                let mut to_rec = self.accounts[j];
                to_rec.free = to_rec.free + amount;
                self.accounts.set(j, to_rec);
                proof {
                    lemma_update_same_key(mid, j as int, to_rec, to);
                    lemma_update_same_key(mid, j as int, to_rec, from);
                    assert forall|w: u64| w != from && w != to implies free_of(self.accounts@, w)
                        == free_of(old(self).accounts@, w) && reserved_of(self.accounts@, w)
                        == reserved_of(old(self).accounts@, w) by {
                        lemma_update_same_key(old(self).accounts@, i as int, from_rec, w);
                        lemma_update_same_key(mid, j as int, to_rec, w);
                    }
                }
            },
            None => {
                let rec = BalanceRecord { who: to, free: amount, reserved: 0 };
                self.accounts.push(rec);
                proof {
                    lemma_push_fresh_key(mid, rec, to);
                    lemma_push_fresh_key(mid, rec, from);
                    assert forall|w: u64| w != from && w != to implies free_of(self.accounts@, w)
                        == free_of(old(self).accounts@, w) && reserved_of(self.accounts@, w)
                        == reserved_of(old(self).accounts@, w) by {
                        lemma_update_same_key(old(self).accounts@, i as int, from_rec, w);
                        lemma_push_fresh_key(mid, rec, w);
                    }
                }
            },
        }
        Ok(())
    }
}

} // verus!

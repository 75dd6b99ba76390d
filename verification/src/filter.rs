use vstd::prelude::*;

use crate::errors::ProxyError;

verus! {

/// The global execution mode the call-filtering collaborator is in.
#[derive(Clone, Copy, PartialEq, Eq, Structural, Debug)]
pub enum FilterMode {
    /// Calls run unless their (module, call) pair is blocked.
    Normal,
    /// Lockdown: every proxied call is rejected.
    Safe,
}

/// The call-filtering capability the engine consults before executing a
/// proxied action: a global mode and a blocklist of (module, call) pairs.
pub struct CallFilter {
    /// Current mode.
    pub mode: FilterMode,
    /// Blocked (module, call) pairs, unique.
    pub blocked: Vec<(u16, u16)>,
}

/// Whether the blocklist holds the pair (`module`, `call`).
pub open spec fn blocked_contains(s: Seq<(u16, u16)>, module: u16, call: u16) -> bool {
    exists|i: int| 0 <= i < s.len() && s[i].0 == module && s[i].1 == call
}

/// Blocklist well-formedness: no pair is listed twice.
pub open spec fn filter_wf(s: Seq<(u16, u16)>) -> bool {
    forall|i: int, j: int| 0 <= i < j < s.len() ==> s[i] != s[j]
}

/// Whether the filter lets the call (`module`, `call`) through: only in
/// normal mode, and only off the blocklist.
pub open spec fn filter_allows(f: CallFilter, module: u16, call: u16) -> bool {
    f.mode is Normal && !blocked_contains(f.blocked@, module, call)
}

impl CallFilter {
    /// A filter in the given mode with an empty blocklist.
    pub fn new(mode: FilterMode) -> (r: CallFilter)
        ensures
            r.mode == mode,
            r.blocked@.len() == 0,
            filter_wf(r.blocked@),
    {
        CallFilter { mode, blocked: Vec::new() }
    }

    /// Switches the global mode; the blocklist is kept.
    pub fn set_mode(&mut self, mode: FilterMode)
        ensures
            final(self).mode == mode,
            final(self).blocked@ == old(self).blocked@,
    {
        self.mode = mode;
    }

    /// Whether the filter currently lets the call through.
    pub fn allows(&self, module: u16, call: u16) -> (r: bool)
        ensures
            r == filter_allows(*self, module, call),
    {
        if !matches!(self.mode, FilterMode::Normal) {
            return false;
        }
        let mut i: usize = 0;
        while i < self.blocked.len()
            invariant
                i <= self.blocked@.len(),
                forall|j: int|
                    0 <= j < i ==> !(self.blocked@[j].0 == module && self.blocked@[j].1 == call),
            decreases self.blocked@.len() - i,
        {
            let pair = self.blocked[i];
            if pair.0 == module && pair.1 == call {
                return false;
            }
            i = i + 1;
        }
        true
    }

    /// Adds (`module`, `call`) to the blocklist. Fails with `AlreadyExists`,
    /// changing nothing, exactly when the pair is already blocked.
    pub fn block_extrinsics(&mut self, module: u16, call: u16) -> (r: Result<(), ProxyError>)
        requires
            filter_wf(old(self).blocked@),
        ensures
            filter_wf(final(self).blocked@),
            final(self).mode == old(self).mode,
            r is Ok <==> !blocked_contains(old(self).blocked@, module, call),
            r is Err ==> r == Err::<(), ProxyError>(ProxyError::AlreadyExists)
                && final(self).blocked@ == old(self).blocked@,
            r is Ok ==> final(self).blocked@ == old(self).blocked@.push((module, call)),
    {
        let mut i: usize = 0;
        while i < self.blocked.len()
            invariant
                i <= self.blocked@.len(),
                self.blocked@ == old(self).blocked@,
                self.mode == old(self).mode,
                filter_wf(old(self).blocked@),
                forall|j: int|
                    0 <= j < i ==> !(self.blocked@[j].0 == module && self.blocked@[j].1 == call),
            decreases self.blocked@.len() - i,
        {
            let pair = self.blocked[i];
            if pair.0 == module && pair.1 == call {
                return Err(ProxyError::AlreadyExists);
            }
            i = i + 1;
        }
        self.blocked.push((module, call));
        proof {
            assert forall|p: int, q: int|
                0 <= p < q < self.blocked@.len() implies self.blocked@[p]
                != self.blocked@[q] by {
                if q == self.blocked@.len() - 1 {
                    assert(self.blocked@[p] == old(self).blocked@[p]);
                }
            }
        }
        Ok(())
    }

    /// Removes (`module`, `call`) from the blocklist. Fails with `NotFound`,
    /// changing nothing, exactly when the pair is not blocked.
    pub fn unblock_extrinsics(&mut self, module: u16, call: u16) -> (r: Result<(), ProxyError>)
        requires
            filter_wf(old(self).blocked@),
        ensures
            filter_wf(final(self).blocked@),
            final(self).mode == old(self).mode,
            r is Ok <==> blocked_contains(old(self).blocked@, module, call),
            r is Err ==> r == Err::<(), ProxyError>(ProxyError::NotFound) && final(self).blocked@
                == old(self).blocked@,
            r is Ok ==> exists|k: int|
                0 <= k < old(self).blocked@.len() && old(self).blocked@[k] == (module, call)
                    && final(self).blocked@ == old(self).blocked@.remove(k),
            r is Ok ==> !blocked_contains(final(self).blocked@, module, call),
    {
        let mut i: usize = 0;
        while i < self.blocked.len()
            invariant
                i <= self.blocked@.len(),
                self.blocked@ == old(self).blocked@,
                self.mode == old(self).mode,
                filter_wf(old(self).blocked@),
                forall|j: int|
                    0 <= j < i ==> !(self.blocked@[j].0 == module && self.blocked@[j].1 == call),
            decreases self.blocked@.len() - i,
        {
            let pair = self.blocked[i];
            if pair.0 == module && pair.1 == call {
                self.blocked.remove(i);
                proof {
                    let ghost t = self.blocked@;
                    let ghost s = old(self).blocked@;
                    assert(t == s.remove(i as int));
                    assert(forall|k: int| 0 <= k < i ==> t[k] == s[k]);
                    assert(forall|k: int| i <= k < t.len() ==> t[k] == s[k + 1]);
                    assert forall|k: int| 0 <= k < t.len() implies !(t[k].0 == module && t[k].1
                        == call) by {
                        if k < i {
                            assert(t[k] == s[k]);
                            assert(s[k] != s[i as int]);
                        } else {
                            assert(t[k] == s[k + 1]);
                            assert(s[i as int] != s[k + 1]);
                        }
                    }
                }
                return Ok(());
            }
            i = i + 1;
        }
        Err(ProxyError::NotFound)
    }
}

} // verus!

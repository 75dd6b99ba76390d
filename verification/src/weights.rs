use vstd::prelude::*;

verus! {

/// A weight sum clamped into the weight type, as saturating arithmetic
/// leaves it.
pub open spec fn clamped(x: int) -> int {
    if x > u64::MAX {
        u64::MAX as int
    } else {
        x
    }
}

/// The per-operation cost of one database access.
#[derive(Clone, Copy, PartialEq, Eq, Structural, Debug)]
pub struct DbWeight {
    /// Weight of one storage read.
    pub read: u64,
    /// Weight of one storage write.
    pub write: u64,
}

/// Benchmarked weight functions for the proxy operations, parameterized by
/// the database access costs. `p` counts existing grants, `a` pending
/// announcements.
#[derive(Clone, Copy, PartialEq, Eq, Structural, Debug)]
pub struct ProxyWeights {
    /// Database access costs.
    pub db: DbWeight,
}

/// Benchmarked weight functions for the extrinsic-filter operations. `p`
/// and `f` count the blocked pallet-name and function-name bytes.
#[derive(Clone, Copy, PartialEq, Eq, Structural, Debug)]
pub struct ExtrinsicFilterWeights {
    /// Database access costs.
    pub db: DbWeight,
}

fn clamp_to_weight(x: u128) -> (r: u64)
    ensures
        r as int == clamped(x as int),
{
    if x > u64::MAX as u128 {
        u64::MAX
    } else {
        x as u64
    }
}

impl ProxyWeights {
    /// Weight of a direct `proxy` call over `p` existing grants.
    pub fn proxy(&self, p: u32) -> (w: u64)
        ensures
            w as int == clamped(34_695_000 + 116_000 * p + 4 * self.db.read),
    {
        clamp_to_weight(
            34_695_000u128 + 116_000u128 * (p as u128) + 4u128 * (self.db.read as u128),
        )
    }

    /// Weight of `proxy_announced` over `a` announcements and `p` grants.
    pub fn proxy_announced(&self, a: u32, p: u32) -> (w: u64)
        ensures
            w as int == clamped(
                67_953_000 + 362_000 * a + 66_000 * p + 6 * self.db.read + 2 * self.db.write,
            ),
    {
        clamp_to_weight(
            67_953_000u128 + 362_000u128 * (a as u128) + 66_000u128 * (p as u128) + 6u128 * (
            self.db.read as u128) + 2u128 * (self.db.write as u128),
        )
    }

    /// Weight of `remove_announcement` over `a` announcements and `p`
    /// grants.
    pub fn remove_announcement(&self, a: u32, p: u32) -> (w: u64)
        ensures
            w as int == clamped(
                37_169_000 + 344_000 * a + 26_000 * p + 2 * self.db.read + 2 * self.db.write,
            ),
    {
        clamp_to_weight(
            37_169_000u128 + 344_000u128 * (a as u128) + 26_000u128 * (p as u128) + 2u128 * (
            self.db.read as u128) + 2u128 * (self.db.write as u128),
        )
    }

    /// Weight of `reject_announcement` over `a` announcements; the grant
    /// count does not contribute.
    pub fn reject_announcement(&self, a: u32, _p: u32) -> (w: u64)
        ensures
            w as int == clamped(38_526_000 + 348_000 * a + 2 * self.db.read + 2 * self.db.write),
    {
        clamp_to_weight(
            38_526_000u128 + 348_000u128 * (a as u128) + 2u128 * (self.db.read as u128) + 2u128 * (
            self.db.write as u128),
        )
    }

    /// Weight of `announce` over `a` announcements and `p` grants.
    pub fn announce(&self, a: u32, p: u32) -> (w: u64)
        ensures
            w as int == clamped(
                52_109_000 + 323_000 * a + 126_000 * p + 3 * self.db.read + 2 * self.db.write,
            ),
    {
        clamp_to_weight(
            52_109_000u128 + 323_000u128 * (a as u128) + 126_000u128 * (p as u128) + 3u128 * (
            self.db.read as u128) + 2u128 * (self.db.write as u128),
        )
    }

    /// Weight of `add_proxy` over `p` existing grants.
    pub fn add_proxy(&self, p: u32) -> (w: u64)
        ensures
            w as int == clamped(43_613_000 + 153_000 * p + self.db.read + self.db.write),
    {
        clamp_to_weight(
            43_613_000u128 + 153_000u128 * (p as u128) + (self.db.read as u128) + (
            self.db.write as u128),
        )
    }

    /// Weight of `remove_proxy` over `p` existing grants.
    pub fn remove_proxy(&self, p: u32) -> (w: u64)
        ensures
            w as int == clamped(36_701_000 + 172_000 * p + self.db.read + self.db.write),
    {
        clamp_to_weight(
            36_701_000u128 + 172_000u128 * (p as u128) + (self.db.read as u128) + (
            self.db.write as u128),
        )
    }

    /// Weight of `remove_proxies` over `p` existing grants.
    pub fn remove_proxies(&self, p: u32) -> (w: u64)
        ensures
            w as int == clamped(37_266_000 + 119_000 * p + self.db.read + self.db.write),
    {
        clamp_to_weight(
            37_266_000u128 + 119_000u128 * (p as u128) + (self.db.read as u128) + (
            self.db.write as u128),
        )
    }

    /// Weight of `anonymous` over `p` existing grants.
    pub fn anonymous(&self, p: u32) -> (w: u64)
        ensures
            w as int == clamped(48_749_000 + 97_000 * p + 2 * self.db.read + self.db.write),
    {
        clamp_to_weight(
            48_749_000u128 + 97_000u128 * (p as u128) + 2u128 * (self.db.read as u128) + (
            self.db.write as u128),
        )
    }

    /// Weight of `kill_anonymous` over `p` existing grants.
    pub fn kill_anonymous(&self, p: u32) -> (w: u64)
        ensures
            w as int == clamped(37_996_000 + 106_000 * p + self.db.read + self.db.write),
    {
        clamp_to_weight(
            37_996_000u128 + 106_000u128 * (p as u128) + (self.db.read as u128) + (
            self.db.write as u128),
        )
    }
}

impl ExtrinsicFilterWeights {
    /// Weight of `block_extrinsics` over name lengths `p` and `f`.
    pub fn block_extrinsics(&self, p: u32, f: u32) -> (w: u64)
        ensures
            w as int == clamped(
                19_522_000 + 4_000 * p + 4_000 * f + self.db.read + self.db.write,
            ),
    {
        clamp_to_weight(
            19_522_000u128 + 4_000u128 * (p as u128) + 4_000u128 * (f as u128) + (
            self.db.read as u128) + (self.db.write as u128),
        )
    }

    /// Weight of `unblock_extrinsics` over name lengths `p` and `f`.
    pub fn unblock_extrinsics(&self, p: u32, f: u32) -> (w: u64)
        ensures
            w as int == clamped(
                20_624_000 + 9_000 * p + 9_000 * f + self.db.read + self.db.write,
            ),
    {
        clamp_to_weight(
            20_624_000u128 + 9_000u128 * (p as u128) + 9_000u128 * (f as u128) + (
            self.db.read as u128) + (self.db.write as u128),
        )
    }
}

} // verus!

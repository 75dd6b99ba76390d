use vstd::prelude::*;

use crate::caps::Action;
use crate::caps::ProxyCapability;
use crate::caps::cap_rank;
use crate::caps::capability_rank;

verus! {

/// The digest the outside hash assigns to a byte string; a function of the
/// bytes alone.
pub uninterp spec fn blake2_digest_of(input: Seq<u8>) -> Seq<u8>;

/// Relies on blake2::Blake2s256 through blake2::Digest::digest: a 32-byte
/// digest determined by the input bytes alone.
#[verifier::external_body]
fn blake2_256(input: &Vec<u8>) -> (r: Vec<u8>)
    ensures
        r@ == blake2_digest_of(input@),
        r@.len() == 32,
{
    let digest = <blake2::Blake2s256 as blake2::Digest>::digest(input.as_slice());
    digest.to_vec()
}

/// The little-endian bytes of a 64-bit value.
pub open spec fn u64_le_bytes(x: u64) -> Seq<u8> {
    seq![
        (x & 0xff) as u8,
        ((x >> 8) & 0xff) as u8,
        ((x >> 16) & 0xff) as u8,
        ((x >> 24) & 0xff) as u8,
        ((x >> 32) & 0xff) as u8,
        ((x >> 40) & 0xff) as u8,
        ((x >> 48) & 0xff) as u8,
        ((x >> 56) & 0xff) as u8,
    ]
}

/// The little-endian bytes of a 32-bit value.
pub open spec fn u32_le_bytes(x: u32) -> Seq<u8> {
    seq![(x & 0xff) as u8, ((x >> 8) & 0xff) as u8, ((x >> 16) & 0xff) as u8, ((x >> 24) & 0xff) as u8]
}

/// The little-endian bytes of a 16-bit value.
pub open spec fn u16_le_bytes(x: u16) -> Seq<u8> {
    seq![(x & 0xff) as u8, ((x >> 8) & 0xff) as u8]
}

fn push_u64_le(out: &mut Vec<u8>, x: u64)
    ensures
        final(out)@ == old(out)@ + u64_le_bytes(x),
{
    out.push((x & 0xff) as u8);
    out.push(((x >> 8) & 0xff) as u8);
    out.push(((x >> 16) & 0xff) as u8);
    out.push(((x >> 24) & 0xff) as u8);
    out.push(((x >> 32) & 0xff) as u8);
    out.push(((x >> 40) & 0xff) as u8);
    out.push(((x >> 48) & 0xff) as u8);
    out.push(((x >> 56) & 0xff) as u8);
    proof {
        assert(out@ =~= old(out)@ + u64_le_bytes(x));
    }
}

fn push_u32_le(out: &mut Vec<u8>, x: u32)
    ensures
        final(out)@ == old(out)@ + u32_le_bytes(x),
{
    out.push((x & 0xff) as u8);
    out.push(((x >> 8) & 0xff) as u8);
    out.push(((x >> 16) & 0xff) as u8);
    out.push(((x >> 24) & 0xff) as u8);
    proof {
        assert(out@ =~= old(out)@ + u32_le_bytes(x));
    }
}

fn push_u16_le(out: &mut Vec<u8>, x: u16)
    ensures
        final(out)@ == old(out)@ + u16_le_bytes(x),
{
    out.push((x & 0xff) as u8);
    out.push(((x >> 8) & 0xff) as u8);
    proof {
        assert(out@ =~= old(out)@ + u16_le_bytes(x));
    }
}

/// The seed tuple behind an anonymous (pure) proxy account. Creation height
/// and extrinsic index are part of the seed so that a derivation cannot be
/// replayed ahead of the creating transaction; `index` lets one creator mint
/// several accounts from otherwise identical seeds.
#[derive(Clone, Copy, PartialEq, Eq, Structural, Debug)]
pub struct DerivationSeed {
    /// The account creating the anonymous account.
    pub creator: u64,
    /// The capability class of the sole grant made at creation.
    pub capability: ProxyCapability,
    /// The announcement delay of that grant.
    pub delay: u64,
    /// Disambiguation index chosen by the creator.
    pub index: u16,
    /// Block height of the creating transaction.
    pub creation_height: u64,
    /// Index of the creating transaction within its block.
    pub creation_ext_index: u32,
}

/// The canonical, versioned encoding of a derivation seed: a fixed domain
/// tag followed by each field in little-endian order. Distinct seeds encode
/// to distinct byte strings.
pub open spec fn seed_encoding(s: DerivationSeed) -> Seq<u8> {
    seq![0x70u8, 0x72u8, 0x78u8, 0x79u8, 0x01u8] + u64_le_bytes(s.creator) + seq![
        cap_rank(s.capability) as u8,
    ] + u64_le_bytes(s.delay) + u16_le_bytes(s.index) + u64_le_bytes(s.creation_height)
        + u32_le_bytes(s.creation_ext_index)
}

/// Folds the first eight digest bytes into an account identifier.
pub open spec fn fold64(h: Seq<u8>) -> u64
    recommends
        h.len() >= 8,
{
    (h[0] as u64) | ((h[1] as u64) << 8) | ((h[2] as u64) << 16) | ((h[3] as u64) << 24) | ((
    h[4] as u64) << 32) | ((h[5] as u64) << 40) | ((h[6] as u64) << 48) | ((h[7] as u64) << 56)
}

/// The account an anonymous-account seed derives to: the seed's canonical
/// encoding, hashed, folded into account space. Deterministic in the seed.
pub open spec fn derived_account(s: DerivationSeed) -> u64 {
    fold64(blake2_digest_of(seed_encoding(s)))
}

/// The fingerprint an announcement commits to: the action's canonical
/// encoding, hashed, folded to a fixed-width digest. The full action is
/// supplied again at execution time and must fold to the same fingerprint.
pub open spec fn action_encoding(a: Action) -> Seq<u8> {
    seq![cap_rank(a.category) as u8] + u16_le_bytes(a.module) + u16_le_bytes(a.call) + a.payload@
}

/// The fingerprint of `a`; a function of the action alone.
pub open spec fn fingerprint_of(a: Action) -> u64 {
    fold64(blake2_digest_of(action_encoding(a)))
}

fn fold_digest(h: &Vec<u8>) -> (r: u64)
    requires
        h@.len() >= 8,
    ensures
        r == fold64(h@),
{
    (h[0] as u64) | ((h[1] as u64) << 8) | ((h[2] as u64) << 16) | ((h[3] as u64) << 24) | ((
    h[4] as u64) << 32) | ((h[5] as u64) << 40) | ((h[6] as u64) << 48) | ((h[7] as u64) << 56)
}

/// Computes the account `seed` derives to.
pub fn derive_account(seed: DerivationSeed) -> (r: u64)
    ensures
        r == derived_account(seed),
{
    let mut enc: Vec<u8> = Vec::new();
    enc.push(0x70);
    enc.push(0x72);
    enc.push(0x78);
    enc.push(0x79);
    enc.push(0x01);
    push_u64_le(&mut enc, seed.creator);
    enc.push(capability_rank(seed.capability));
    push_u64_le(&mut enc, seed.delay);
    push_u16_le(&mut enc, seed.index);
    push_u64_le(&mut enc, seed.creation_height);
    push_u32_le(&mut enc, seed.creation_ext_index);
    proof {
        assert(enc@ =~= seed_encoding(seed));
    }
    let digest = blake2_256(&enc);
    fold_digest(&digest)
}

/// Computes the fingerprint of `action`.
pub fn call_fingerprint(action: &Action) -> (r: u64)
    ensures
        r == fingerprint_of(*action),
{
    let mut enc: Vec<u8> = Vec::new();
    enc.push(capability_rank(action.category));
    push_u16_le(&mut enc, action.module);
    push_u16_le(&mut enc, action.call);
    enc.extend_from_slice(action.payload.as_slice());
    proof {
        assert(enc@ =~= action_encoding(*action));
    }
    let digest = blake2_256(&enc);
    fold_digest(&digest)
}

} // verus!

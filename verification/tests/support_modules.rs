use proxy_engine::caps::Action;
use proxy_engine::caps::ProxyCapability;
use proxy_engine::caps::capability_covers;
use proxy_engine::derive::DerivationSeed;
use proxy_engine::derive::call_fingerprint;
use proxy_engine::derive::derive_account;
use proxy_engine::props::default_parachain_properties;
use proxy_engine::props::parachain_properties;
use proxy_engine::weights::DbWeight;
use proxy_engine::weights::ExtrinsicFilterWeights;
use proxy_engine::weights::ProxyWeights;

#[test]
fn covering_partial_order_table() {
    assert!(capability_covers(ProxyCapability::Any, ProxyCapability::Governance));
    assert!(capability_covers(ProxyCapability::Any, ProxyCapability::Any));
    assert!(capability_covers(ProxyCapability::NonTransfer, ProxyCapability::CancelProxy));
    assert!(!capability_covers(ProxyCapability::NonTransfer, ProxyCapability::Any));
    assert!(!capability_covers(ProxyCapability::Governance, ProxyCapability::CancelProxy));
    assert!(capability_covers(ProxyCapability::CancelProxy, ProxyCapability::CancelProxy));
}

#[test]
fn fingerprint_depends_on_payload() {
    let a = Action { category: ProxyCapability::Any, module: 1, call: 2, payload: vec![1, 2, 3] };
    let b = Action { category: ProxyCapability::Any, module: 1, call: 2, payload: vec![1, 2, 4] };
    let c = Action { category: ProxyCapability::Any, module: 1, call: 2, payload: vec![1, 2, 3] };
    assert_ne!(call_fingerprint(&a), call_fingerprint(&b));
    assert_eq!(call_fingerprint(&a), call_fingerprint(&c));
}

#[test]
fn derivation_is_deterministic_and_seed_sensitive() {
    let seed = DerivationSeed {
        creator: 9,
        capability: ProxyCapability::NonTransfer,
        delay: 4,
        index: 0,
        creation_height: 77,
        creation_ext_index: 5,
    };
    let mut other = seed;
    other.creation_height = 78;
    assert_eq!(derive_account(seed), derive_account(seed));
    assert_ne!(derive_account(seed), derive_account(other));
    assert_ne!(derive_account(seed), seed.creator);
}

#[test]
fn default_properties_are_lit() {
    let p = default_parachain_properties().expect("properties expected");
    assert_eq!(p.token_symbol, "LIT");
    assert_eq!(p.token_decimals, 12);
    assert_eq!(p.ss58_format, 131);
}

#[test]
fn custom_properties_carry_through() {
    let p = parachain_properties("DOT", 10, 0).expect("properties expected");
    assert_eq!(p.token_symbol, "DOT");
    assert_eq!(p.token_decimals, 10);
    assert_eq!(p.ss58_format, 0);
}

#[test]
fn proxy_weight_formulas() {
    let w = ProxyWeights { db: DbWeight { read: 100, write: 200 } };
    assert_eq!(w.proxy(2), 34_695_000 + 116_000 * 2 + 4 * 100);
    assert_eq!(w.proxy_announced(1, 2), 67_953_000 + 362_000 + 66_000 * 2 + 6 * 100 + 2 * 200);
    assert_eq!(w.remove_announcement(1, 1), 37_169_000 + 344_000 + 26_000 + 2 * 100 + 2 * 200);
    assert_eq!(w.reject_announcement(3, 9), 38_526_000 + 348_000 * 3 + 2 * 100 + 2 * 200);
    assert_eq!(w.announce(1, 1), 52_109_000 + 323_000 + 126_000 + 3 * 100 + 2 * 200);
    assert_eq!(w.add_proxy(1), 43_613_000 + 153_000 + 100 + 200);
    assert_eq!(w.remove_proxy(1), 36_701_000 + 172_000 + 100 + 200);
    assert_eq!(w.remove_proxies(1), 37_266_000 + 119_000 + 100 + 200);
    assert_eq!(w.anonymous(1), 48_749_000 + 97_000 + 2 * 100 + 200);
    assert_eq!(w.kill_anonymous(1), 37_996_000 + 106_000 + 100 + 200);
}

#[test]
fn weights_saturate_at_the_maximum() {
    let w = ProxyWeights { db: DbWeight { read: u64::MAX, write: u64::MAX } };
    assert_eq!(w.proxy(0), u64::MAX);
    assert_eq!(w.add_proxy(0), u64::MAX);
}

#[test]
fn extrinsic_filter_weight_formulas() {
    let w = ExtrinsicFilterWeights { db: DbWeight { read: 100, write: 200 } };
    assert_eq!(w.block_extrinsics(2, 3), 19_522_000 + 4_000 * 2 + 4_000 * 3 + 100 + 200);
    assert_eq!(w.unblock_extrinsics(2, 3), 20_624_000 + 9_000 * 2 + 9_000 * 3 + 100 + 200);
}

use proxy_engine::caps::ProxyCapability;
use proxy_engine::derive::DerivationSeed;
use proxy_engine::derive::derive_account;
use proxy_engine::engine::EngineConfig;
use proxy_engine::engine::ProxyEngine;
use proxy_engine::errors::ProxyError;
use proxy_engine::filter::CallFilter;
use proxy_engine::filter::FilterMode;

const CREATOR: u64 = 11;

fn engine_with_creator() -> ProxyEngine {
    let config = EngineConfig {
        max_proxies: 3,
        max_pending: 2,
        proxy_deposit_base: 10,
        proxy_deposit_factor: 2,
        announcement_deposit_base: 5,
        announcement_deposit_factor: 1,
        existential_deposit: 1,
    };
    let mut e = ProxyEngine::new(config, CallFilter::new(FilterMode::Normal));
    e.fund(CREATOR, 1_000);
    e
}

#[test]
fn anonymous_is_deterministic_but_single_shot() {
    let mut e = engine_with_creator();
    let first = e.anonymous(CREATOR, ProxyCapability::Any, 0, 0, 50, 4);
    let a = first.expect("creation should succeed");
    let seed = DerivationSeed {
        creator: CREATOR,
        capability: ProxyCapability::Any,
        delay: 0,
        index: 0,
        creation_height: 50,
        creation_ext_index: 4,
    };
    assert_eq!(a, derive_account(seed));
    assert_eq!(
        e.anonymous(CREATOR, ProxyCapability::Any, 0, 0, 50, 4),
        Err(ProxyError::AlreadyExists)
    );
}

#[test]
fn distinct_indexes_derive_distinct_accounts() {
    let mut e = engine_with_creator();
    let a0 = e.anonymous(CREATOR, ProxyCapability::Any, 0, 0, 50, 4).unwrap();
    let a1 = e.anonymous(CREATOR, ProxyCapability::Any, 0, 1, 50, 4).unwrap();
    assert_ne!(a0, a1);
}

#[test]
fn creator_holds_grant_on_derived_account() {
    let mut e = engine_with_creator();
    let a = e.anonymous(CREATOR, ProxyCapability::Governance, 7, 0, 50, 4).unwrap();
    assert_eq!(e.has_capability(a, CREATOR, ProxyCapability::Governance), Some(7));
}

#[test]
fn kill_anonymous_round_trip() {
    let mut e = engine_with_creator();
    let free0 = e.ledger.free_balance(CREATOR);
    let reserved0 = e.ledger.reserved_balance(CREATOR);
    let a = e.anonymous(CREATOR, ProxyCapability::Any, 0, 2, 60, 9).unwrap();
    assert_eq!(e.ledger.reserved_balance(CREATOR), reserved0 + 12);
    assert_eq!(e.ledger.free_balance(a), 1);
    assert_eq!(
        e.kill_anonymous(a, CREATOR, ProxyCapability::Any, 0, 3, 60, 9),
        Err(ProxyError::SeedMismatch)
    );
    assert_eq!(
        e.kill_anonymous(a, CREATOR, ProxyCapability::Any, 0, 2, 60, 9),
        Ok(())
    );
    assert_eq!(e.ledger.reserved_balance(CREATOR), reserved0);
    assert_eq!(e.ledger.free_balance(CREATOR), free0 - 1);
    assert_eq!(e.has_capability(a, CREATOR, ProxyCapability::Any), None);
}

#[test]
fn kill_anonymous_rejects_extra_grants() {
    let mut e = engine_with_creator();
    e.fund(77, 100);
    let a = e.anonymous(CREATOR, ProxyCapability::Any, 0, 0, 60, 9).unwrap();
    e.fund(a, 100);
    assert_eq!(e.add_proxy(a, 77, ProxyCapability::Governance, 0), Ok(()));
    assert_eq!(
        e.kill_anonymous(a, CREATOR, ProxyCapability::Any, 0, 0, 60, 9),
        Err(ProxyError::Unexpected)
    );
    assert_eq!(e.remove_proxy(a, 77, ProxyCapability::Governance, 0), Ok(()));
    assert_eq!(
        e.kill_anonymous(a, CREATOR, ProxyCapability::Any, 0, 0, 60, 9),
        Ok(())
    );
}

#[test]
fn kill_anonymous_unknown_entry_not_found() {
    let mut e = engine_with_creator();
    let seed = DerivationSeed {
        creator: CREATOR,
        capability: ProxyCapability::Any,
        delay: 0,
        index: 5,
        creation_height: 1,
        creation_ext_index: 0,
    };
    let a = derive_account(seed);
    assert_eq!(
        e.kill_anonymous(a, CREATOR, ProxyCapability::Any, 0, 5, 1, 0),
        Err(ProxyError::NotFound)
    );
}

#[test]
fn unfunded_creator_is_refused() {
    let config = EngineConfig {
        max_proxies: 3,
        max_pending: 2,
        proxy_deposit_base: 10,
        proxy_deposit_factor: 2,
        announcement_deposit_base: 5,
        announcement_deposit_factor: 1,
        existential_deposit: 1,
    };
    let mut e = ProxyEngine::new(config, CallFilter::new(FilterMode::Normal));
    e.fund(CREATOR, 5);
    assert_eq!(
        e.anonymous(CREATOR, ProxyCapability::Any, 0, 0, 1, 0),
        Err(ProxyError::InsufficientFunds)
    );
}

use proxy_engine::caps::Action;
use proxy_engine::caps::ProxyCapability;
use proxy_engine::engine::EngineConfig;
use proxy_engine::engine::ProxyEngine;
use proxy_engine::errors::ProxyError;
use proxy_engine::filter::CallFilter;
use proxy_engine::filter::FilterMode;

const R: u64 = 1;
const D: u64 = 2;
const E: u64 = 3;

fn test_config() -> EngineConfig {
    EngineConfig {
        max_proxies: 3,
        max_pending: 2,
        proxy_deposit_base: 10,
        proxy_deposit_factor: 2,
        announcement_deposit_base: 5,
        announcement_deposit_factor: 1,
        existential_deposit: 1,
    }
}

fn funded_engine() -> ProxyEngine {
    let mut e = ProxyEngine::new(test_config(), CallFilter::new(FilterMode::Normal));
    e.fund(R, 1_000);
    e.fund(D, 1_000);
    e.fund(E, 1_000);
    e
}

fn sample_action(category: ProxyCapability) -> Action {
    Action { category, module: 7, call: 3, payload: vec![1, 2, 3] }
}

#[test]
fn grant_round_trip_refunds_deposit() {
    let mut e = funded_engine();
    let free0 = e.ledger.free_balance(R);
    let reserved0 = e.ledger.reserved_balance(R);
    assert_eq!(e.add_proxy(R, D, ProxyCapability::Any, 0), Ok(()));
    assert_eq!(e.ledger.reserved_balance(R), reserved0 + 12);
    assert_eq!(e.ledger.free_balance(R), free0 - 12);
    assert_eq!(e.remove_proxy(R, D, ProxyCapability::Any, 0), Ok(()));
    assert_eq!(e.ledger.reserved_balance(R), reserved0);
    assert_eq!(e.ledger.free_balance(R), free0);
    assert_eq!(e.has_capability(R, D, ProxyCapability::Any), None);
}

#[test]
fn capacity_bound_and_recovery() {
    let mut e = funded_engine();
    assert_eq!(e.add_proxy(R, D, ProxyCapability::Any, 0), Ok(()));
    assert_eq!(e.add_proxy(R, D, ProxyCapability::Governance, 0), Ok(()));
    assert_eq!(e.add_proxy(R, E, ProxyCapability::Any, 0), Ok(()));
    assert_eq!(
        e.add_proxy(R, E, ProxyCapability::Governance, 0),
        Err(ProxyError::TooMany)
    );
    assert_eq!(e.remove_proxy(R, D, ProxyCapability::Governance, 0), Ok(()));
    assert_eq!(e.add_proxy(R, D, ProxyCapability::Governance, 0), Ok(()));
}

#[test]
fn duplicate_and_self_grants_are_refused() {
    let mut e = funded_engine();
    assert_eq!(e.add_proxy(R, R, ProxyCapability::Any, 0), Err(ProxyError::NoSelfProxy));
    assert_eq!(e.add_proxy(R, D, ProxyCapability::Any, 5), Ok(()));
    assert_eq!(
        e.add_proxy(R, D, ProxyCapability::Any, 5),
        Err(ProxyError::AlreadyExists)
    );
    assert_eq!(
        e.remove_proxy(R, D, ProxyCapability::Any, 6),
        Err(ProxyError::NotFound)
    );
}

#[test]
fn unfunded_grant_is_refused() {
    let mut e = ProxyEngine::new(test_config(), CallFilter::new(FilterMode::Normal));
    assert_eq!(
        e.add_proxy(R, D, ProxyCapability::Any, 0),
        Err(ProxyError::InsufficientFunds)
    );
}

#[test]
fn proxy_requires_zero_delay_grant() {
    let mut e = funded_engine();
    assert_eq!(e.add_proxy(R, D, ProxyCapability::Any, 5), Ok(()));
    let action = sample_action(ProxyCapability::NonTransfer);
    assert_eq!(e.proxy(R, D, &action), Err(ProxyError::NotAuthorized));
}

#[test]
fn proxy_requires_covering_capability() {
    let mut e = funded_engine();
    assert_eq!(e.add_proxy(R, D, ProxyCapability::Governance, 0), Ok(()));
    let action = sample_action(ProxyCapability::NonTransfer);
    assert_eq!(e.proxy(R, D, &action), Err(ProxyError::NotAuthorized));
    let covered = sample_action(ProxyCapability::Governance);
    assert_eq!(e.proxy(R, D, &covered), Ok(()));
}

#[test]
fn blocked_call_is_filtered() {
    let mut e = funded_engine();
    assert_eq!(e.add_proxy(R, D, ProxyCapability::Any, 0), Ok(()));
    let action = sample_action(ProxyCapability::NonTransfer);
    assert_eq!(e.proxy(R, D, &action), Ok(()));
    assert_eq!(e.filter.block_extrinsics(action.module, action.call), Ok(()));
    assert_eq!(e.proxy(R, D, &action), Err(ProxyError::Filtered));
    assert_eq!(e.filter.unblock_extrinsics(action.module, action.call), Ok(()));
    assert_eq!(e.proxy(R, D, &action), Ok(()));
}

#[test]
fn safe_mode_filters_everything() {
    let mut e = funded_engine();
    assert_eq!(e.add_proxy(R, D, ProxyCapability::Any, 0), Ok(()));
    e.filter.set_mode(FilterMode::Safe);
    let action = sample_action(ProxyCapability::NonTransfer);
    assert_eq!(e.proxy(R, D, &action), Err(ProxyError::Filtered));
}

#[test]
fn filter_blocklist_bookkeeping() {
    let mut f = CallFilter::new(FilterMode::Normal);
    assert_eq!(f.block_extrinsics(1, 2), Ok(()));
    assert_eq!(f.block_extrinsics(1, 2), Err(ProxyError::AlreadyExists));
    assert_eq!(f.unblock_extrinsics(9, 9), Err(ProxyError::NotFound));
    assert_eq!(f.unblock_extrinsics(1, 2), Ok(()));
    assert_eq!(f.unblock_extrinsics(1, 2), Err(ProxyError::NotFound));
}

#[test]
fn announce_execute_window() {
    let mut e = funded_engine();
    assert_eq!(e.add_proxy(R, D, ProxyCapability::Any, 10), Ok(()));
    let action = sample_action(ProxyCapability::NonTransfer);
    assert_eq!(e.announce(R, D, &action, 100), Ok(()));
    assert_eq!(e.proxy_announced(R, D, &action, 109), Err(ProxyError::TooEarly));
    assert_eq!(e.proxy_announced(R, D, &action, 110), Ok(()));
    assert_eq!(e.proxy_announced(R, D, &action, 110), Err(ProxyError::NotFound));
}

#[test]
fn announce_requires_grant_and_capacity() {
    let mut e = funded_engine();
    let action = sample_action(ProxyCapability::NonTransfer);
    assert_eq!(e.announce(R, D, &action, 1), Err(ProxyError::NotAuthorized));
    assert_eq!(e.add_proxy(R, D, ProxyCapability::Any, 10), Ok(()));
    let a1 = Action { category: ProxyCapability::NonTransfer, module: 7, call: 3, payload: vec![1] };
    let a2 = Action { category: ProxyCapability::NonTransfer, module: 7, call: 3, payload: vec![2] };
    let a3 = Action { category: ProxyCapability::NonTransfer, module: 7, call: 3, payload: vec![3] };
    assert_eq!(e.announce(R, D, &a1, 1), Ok(()));
    assert_eq!(e.announce(R, D, &a2, 1), Ok(()));
    assert_eq!(e.announce(R, D, &a3, 1), Err(ProxyError::TooMany));
}

#[test]
fn announcement_deposit_round_trip() {
    let mut e = funded_engine();
    assert_eq!(e.add_proxy(R, D, ProxyCapability::Any, 10), Ok(()));
    let reserved0 = e.ledger.reserved_balance(D);
    let action = sample_action(ProxyCapability::NonTransfer);
    assert_eq!(e.announce(R, D, &action, 100), Ok(()));
    assert_eq!(e.ledger.reserved_balance(D), reserved0 + 6);
    assert_eq!(e.proxy_announced(R, D, &action, 200), Ok(()));
    assert_eq!(e.ledger.reserved_balance(D), reserved0);
}

#[test]
fn owner_rejects_announcement() {
    let mut e = funded_engine();
    assert_eq!(e.add_proxy(R, D, ProxyCapability::Any, 10), Ok(()));
    let action = sample_action(ProxyCapability::NonTransfer);
    let h = proxy_engine::derive::call_fingerprint(&action);
    assert_eq!(e.announce(R, D, &action, 100), Ok(()));
    assert_eq!(e.reject_announcement(E, R, D, h), Err(ProxyError::NotAuthorized));
    assert_eq!(e.reject_announcement(R, R, D, h), Ok(()));
    assert_eq!(e.proxy_announced(R, D, &action, 200), Err(ProxyError::NotFound));
    assert_eq!(e.reject_announcement(R, R, D, h), Err(ProxyError::NotFound));
}

#[test]
fn delegate_removes_own_announcement() {
    let mut e = funded_engine();
    assert_eq!(e.add_proxy(R, D, ProxyCapability::Any, 10), Ok(()));
    let action = sample_action(ProxyCapability::NonTransfer);
    let h = proxy_engine::derive::call_fingerprint(&action);
    assert_eq!(e.announce(R, D, &action, 100), Ok(()));
    assert_eq!(e.remove_announcement(D, R, h), Ok(()));
    assert_eq!(e.remove_announcement(D, R, h), Err(ProxyError::NotFound));
    assert_eq!(e.proxy_announced(R, D, &action, 200), Err(ProxyError::NotFound));
}

#[test]
fn example_any_grant_delay_ten() {
    let mut e = funded_engine();
    assert_eq!(e.add_proxy(R, D, ProxyCapability::Any, 10), Ok(()));
    let action = sample_action(ProxyCapability::Governance);
    assert_eq!(e.announce(R, D, &action, 100), Ok(()));
    assert_eq!(e.proxy_announced(R, D, &action, 109), Err(ProxyError::TooEarly));
    assert_eq!(e.proxy_announced(R, D, &action, 110), Ok(()));
}

#[test]
fn remove_proxies_cancels_targeting_announcements() {
    let mut e = funded_engine();
    assert_eq!(e.add_proxy(R, D, ProxyCapability::Any, 10), Ok(()));
    assert_eq!(e.add_proxy(E, D, ProxyCapability::Any, 10), Ok(()));
    let action = sample_action(ProxyCapability::NonTransfer);
    let h = proxy_engine::derive::call_fingerprint(&action);
    assert_eq!(e.announce(R, D, &action, 100), Ok(()));
    assert_eq!(e.announce(E, D, &action, 100), Ok(()));
    let r_free0 = e.ledger.free_balance(R);
    let d_reserved0 = e.ledger.reserved_balance(D);
    let d_free0 = e.ledger.free_balance(D);
    let e_reserved0 = e.ledger.reserved_balance(E);
    let e_free0 = e.ledger.free_balance(E);
    e.remove_proxies(R);
    assert_eq!(e.ledger.reserved_balance(E), e_reserved0);
    assert_eq!(e.ledger.free_balance(E), e_free0);
    assert_eq!(e.has_capability(R, D, ProxyCapability::Any), None);
    assert_eq!(e.ledger.free_balance(R), r_free0 + 12);
    assert_eq!(e.ledger.reserved_balance(R), 0);
    assert_eq!(e.ledger.reserved_balance(D), d_reserved0 - 1);
    assert_eq!(e.ledger.free_balance(D), d_free0 + 1);
    assert_eq!(e.reject_announcement(R, R, D, h), Err(ProxyError::NotFound));
    assert_eq!(e.remove_announcement(D, E, h), Ok(()));
}

#[test]
fn has_capability_returns_minimal_delay() {
    let mut e = funded_engine();
    assert_eq!(e.add_proxy(R, D, ProxyCapability::Any, 5), Ok(()));
    assert_eq!(e.add_proxy(R, D, ProxyCapability::NonTransfer, 3), Ok(()));
    assert_eq!(e.has_capability(R, D, ProxyCapability::Governance), Some(3));
    assert_eq!(e.has_capability(R, D, ProxyCapability::Any), Some(5));
    assert_eq!(e.has_capability(R, E, ProxyCapability::Any), None);
}

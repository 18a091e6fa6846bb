use rmux_server::session_leases::{duration_from_millis, LeaseTtlError, SessionLeaseStore};

#[test]
fn tokens_count_up_from_one() {
    let mut store = SessionLeaseStore::new();
    assert_eq!(store.create("a".to_owned(), 1000, 0), 1);
    assert_eq!(store.create("b".to_owned(), 1000, 0), 2);
    assert_eq!(store.create("a".to_owned(), 1000, 5), 3);
}

#[test]
fn renew_and_release_need_the_owner_token() {
    let mut store = SessionLeaseStore::new();
    let token = store.create("work".to_owned(), 100, 10);
    assert!(!store.renew("work", token + 1, 100, 20));
    assert!(!store.renew("other", token, 100, 20));
    assert!(store.renew("work", token, 100, 20));
    assert!(!store.release("work", token + 1));
    assert!(store.release("work", token));
    assert!(!store.release("work", token));
    assert!(!store.renew("work", token, 100, 30));
}

#[test]
fn recreating_a_lease_replaces_its_token() {
    let mut store = SessionLeaseStore::new();
    let first = store.create("work".to_owned(), 100, 0);
    let second = store.create("work".to_owned(), 100, 0);
    assert!(!store.renew("work", first, 100, 0));
    assert!(store.renew("work", second, 100, 0));
}

#[test]
fn expired_leases_come_out_sorted_and_are_removed() {
    let mut store = SessionLeaseStore::new();
    let zeta = store.create("zeta".to_owned(), 10, 0);
    store.create("alpha".to_owned(), 5, 0);
    let late = store.create("mid".to_owned(), 100, 0);
    store.create("beta".to_owned(), 10, 0);
    assert!(store.expired(4).is_empty());
    assert_eq!(store.expired(10), vec!["alpha".to_owned(), "beta".to_owned(), "zeta".to_owned()]);
    assert!(!store.renew("zeta", zeta, 10, 10));
    assert!(store.renew("mid", late, 10, 10));
    assert!(store.expired(19).is_empty());
    assert_eq!(store.expired(20), vec!["mid".to_owned()]);
}

#[test]
fn expired_names_sort_by_code_point() {
    let mut store = SessionLeaseStore::new();
    for name in ["é", "z", "Z", "ab", "a", ""] {
        store.create(name.to_owned(), 1, 0);
    }
    assert_eq!(store.expired(1), vec!["", "Z", "a", "ab", "z", "é"]);
}

#[test]
fn removed_sessions_lose_their_leases() {
    let mut store = SessionLeaseStore::new();
    let a = store.create("a".to_owned(), 10, 0);
    let b = store.create("b".to_owned(), 10, 0);
    store.remove_sessions(&["a".to_owned(), "missing".to_owned()]);
    assert!(!store.renew("a", a, 10, 0));
    assert!(store.renew("b", b, 10, 0));
}

#[test]
fn lease_lifetimes_are_checked() {
    assert_eq!(duration_from_millis(0, 1000), Err(LeaseTtlError::Zero));
    assert_eq!(
        duration_from_millis(999, 1000),
        Err(LeaseTtlError::BelowMinimum { min_ttl_millis: 1000 })
    );
    assert_eq!(duration_from_millis(1000, 1000), Ok(1000));
}

#[test]
fn lease_ttl_errors_carry_the_client_messages() {
    assert_eq!(LeaseTtlError::Zero.message(), "session lease ttl must be greater than zero");
    assert_eq!(
        LeaseTtlError::BelowMinimum { min_ttl_millis: 1000 }.message(),
        "session lease ttl must be at least 1000ms"
    );
    assert_eq!(
        LeaseTtlError::BelowMinimum { min_ttl_millis: 0 }.message(),
        "session lease ttl must be at least 0ms"
    );
    assert_eq!(
        duration_from_millis(5, 250).unwrap_err().message(),
        "session lease ttl must be at least 250ms"
    );
}

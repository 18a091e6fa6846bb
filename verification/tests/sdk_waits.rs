use rmux_server::sdk_waits::{SdkWaitError, SdkWaitRegistration, SdkWaitState};

#[test]
fn connection_teardown_cancels_only_that_connections_sdk_waits() {
    let mut state = SdkWaitState::new();
    assert_eq!(state.register(1, 10, 1), Ok(SdkWaitRegistration::Registered));
    assert_eq!(state.register(1, 10, 2), Ok(SdkWaitRegistration::Registered));
    assert_eq!(state.register(2, 20, 1), Ok(SdkWaitRegistration::Registered));

    // The cancel signals of the first connection's waits fire; the other
    // connection's wait stays armed.
    let mut ended = state.remove_connection(1);
    ended.sort();
    assert_eq!(ended, vec![(10, 1), (10, 2)]);

    assert!(state.cancel(20, 1));
    assert!(!state.cancel(10, 1));
}

#[test]
fn pre_registration_cancel_is_consumed_by_late_sdk_wait_registration() {
    let mut state = SdkWaitState::new();

    assert!(!state.cancel(9, 1));
    let registration = state
        .register(33, 9, 1)
        .expect("late wait registration succeeds as cancelled");
    assert_eq!(registration, SdkWaitRegistration::CancelledBeforeRegistration);
    assert!(!state.cancel(9, 1));
}

#[test]
fn sdk_wait_ids_are_one_shot_even_after_completion_or_teardown() {
    let mut state = SdkWaitState::new();

    let registration = state.register(44, 10, 1).expect("first registration succeeds");
    assert_eq!(registration, SdkWaitRegistration::Registered);
    assert!(state.complete(10, 1));
    assert!(!state.cancel(10, 1));
    assert!(state.register(44, 10, 1).is_err());

    let registration = state.register(44, 10, 2).expect("second id registration succeeds");
    assert_eq!(registration, SdkWaitRegistration::Registered);
    state.remove_connection(44);
    assert!(state.register(44, 10, 2).is_err());
}

#[test]
fn reused_wait_ids_are_reported_with_owner_and_id() {
    let mut state = SdkWaitState::new();
    state.register(1, 7, 3).unwrap();
    assert_eq!(
        state.register(2, 7, 3),
        Err(SdkWaitError::AlreadyUsed { owner_id: 7, wait_id: 3 })
    );
    // The same id under another owner is a different wait.
    assert_eq!(state.register(2, 8, 3), Ok(SdkWaitRegistration::Registered));
}

#[test]
fn completing_an_unknown_wait_reports_nothing() {
    let mut state = SdkWaitState::new();
    assert!(!state.complete(1, 1));
    // Completing does not count as an early cancellation.
    assert_eq!(state.register(1, 1, 1), Ok(SdkWaitRegistration::Registered));
    assert!(state.remove_connection(2).is_empty());
    assert!(state.complete(1, 1));
}

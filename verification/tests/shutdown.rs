use rmux_server::shutdown::{
    IdleShutdownState, PendingShutdownReason, RequestHandler, ShutdownAction, ShutdownObservation,
};

fn idle_server() -> ShutdownObservation {
    ShutdownObservation {
        sessions_empty: Some(true),
        exit_empty_enabled: true,
        attached_clients_empty: Some(true),
        detached_connections_available: true,
        control_clients_empty: Some(true),
        subscriptions_empty: true,
        retained_outputs_empty: true,
        has_shutdown_handle: true,
    }
}

#[test]
fn shutdown_reason_labels() {
    assert_eq!(PendingShutdownReason::ExitEmpty.as_str(), "exit-empty");
    assert_eq!(PendingShutdownReason::KillServer.as_str(), "kill-server");
    assert_eq!(PendingShutdownReason::SeamlessUpgradeIdle.as_str(), "seamless-upgrade-idle");
}

#[test]
fn nothing_happens_without_a_pending_shutdown() {
    let mut handler = RequestHandler::new();
    assert_eq!(handler.request_shutdown_if_pending(&idle_server()), (false, ShutdownAction::Nothing));
}

#[test]
fn kill_server_goes_ahead_once() {
    let mut handler = RequestHandler::new();
    handler.queue_shutdown_request(PendingShutdownReason::KillServer);
    assert_eq!(
        handler.request_shutdown_if_pending(&idle_server()),
        (true, ShutdownAction::RequestShutdown)
    );
    assert_eq!(handler.request_shutdown_if_pending(&idle_server()), (false, ShutdownAction::Nothing));
}

#[test]
fn kill_server_ignores_busy_sessions_but_waits_for_output_consumers() {
    let mut handler = RequestHandler::new();
    handler.queue_shutdown_request(PendingShutdownReason::KillServer);
    handler.queue_shutdown_request(PendingShutdownReason::ExitEmpty);
    let busy = ShutdownObservation {
        sessions_empty: Some(false),
        attached_clients_empty: None,
        subscriptions_empty: false,
        ..idle_server()
    };
    assert_eq!(handler.request_shutdown_if_pending(&busy), (false, ShutdownAction::Nothing));
    let drained = ShutdownObservation { subscriptions_empty: true, ..busy };
    assert_eq!(
        handler.request_shutdown_if_pending(&drained),
        (true, ShutdownAction::RequestShutdown)
    );
}

#[test]
fn stale_exit_empty_is_dropped() {
    let mut handler = RequestHandler::new();
    handler.queue_shutdown_request(PendingShutdownReason::ExitEmpty);
    let option_off = ShutdownObservation { exit_empty_enabled: false, ..idle_server() };
    assert_eq!(handler.request_shutdown_if_pending(&option_off), (false, ShutdownAction::Nothing));
    // The dropped request does not come back once the server is idle.
    assert_eq!(handler.request_shutdown_if_pending(&idle_server()), (false, ShutdownAction::Nothing));
}

#[test]
fn idle_shutdown_without_handle_is_consumed_silently() {
    let mut handler = RequestHandler::new();
    handler.queue_shutdown_request(PendingShutdownReason::ExitEmpty);
    let no_handle = ShutdownObservation { has_shutdown_handle: false, ..idle_server() };
    assert_eq!(handler.request_shutdown_if_pending(&no_handle), (true, ShutdownAction::Nothing));
}

#[test]
fn detached_activity_keeps_an_idle_shutdown_stale() {
    let mut handler = RequestHandler::new();
    let request = handler.begin_detached_request();
    assert_eq!(
        handler.pending_idle_shutdown_state(PendingShutdownReason::SeamlessUpgradeIdle, None, &idle_server()),
        IdleShutdownState::Stale
    );
    handler.end_detached_request(request);
    let connection = handler.begin_detached_connection(3);
    assert_eq!(
        handler.pending_idle_shutdown_state(PendingShutdownReason::SeamlessUpgradeIdle, None, &idle_server()),
        IdleShutdownState::Stale
    );
    assert_eq!(
        handler.pending_idle_shutdown_state(
            PendingShutdownReason::SeamlessUpgradeIdle,
            Some(3),
            &idle_server()
        ),
        IdleShutdownState::StillApplies
    );
    handler.end_detached_connection(connection);
    assert_eq!(
        handler.pending_idle_shutdown_state(PendingShutdownReason::SeamlessUpgradeIdle, None, &idle_server()),
        IdleShutdownState::StillApplies
    );
}

#[test]
fn idle_state_reports_unknown_when_a_lock_is_busy() {
    let handler = RequestHandler::new();
    for obs in [
        ShutdownObservation { sessions_empty: None, ..idle_server() },
        ShutdownObservation { attached_clients_empty: None, ..idle_server() },
        ShutdownObservation { detached_connections_available: false, ..idle_server() },
        ShutdownObservation { control_clients_empty: None, ..idle_server() },
    ] {
        assert_eq!(
            handler.pending_idle_shutdown_state(PendingShutdownReason::ExitEmpty, None, &obs),
            IdleShutdownState::Unknown
        );
    }
    let control = ShutdownObservation { control_clients_empty: Some(false), ..idle_server() };
    assert_eq!(
        handler.pending_idle_shutdown_state(PendingShutdownReason::ExitEmpty, None, &control),
        IdleShutdownState::Stale
    );
}

#[test]
fn idle_shutdown_retry_preserves_excluded_detached_connection() {
    let mut handler = RequestHandler::new();
    let requester_connection_id = 7;
    let _requester_connection = handler.begin_detached_connection(requester_connection_id);
    handler.queue_shutdown_request(PendingShutdownReason::SeamlessUpgradeIdle);

    // Another task holds the set of detached connections.
    let busy_lock = ShutdownObservation { detached_connections_available: false, ..idle_server() };
    assert_eq!(
        handler.request_shutdown_if_pending_excluding_detached_connection(
            Some(requester_connection_id),
            &busy_lock
        ),
        (false, ShutdownAction::ScheduleRetry)
    );
    // A second attempt while the retry is outstanding schedules nothing more.
    assert_eq!(
        handler.request_shutdown_if_pending_excluding_detached_connection(
            Some(requester_connection_id),
            &busy_lock
        ),
        (false, ShutdownAction::Nothing)
    );

    // The retry task starts and asks again for the same excluded connection.
    handler.clear_shutdown_retry();
    assert_eq!(
        handler.request_shutdown_if_pending_excluding_detached_connection(
            Some(requester_connection_id),
            &idle_server()
        ),
        (true, ShutdownAction::RequestShutdown)
    );
}

#[test]
fn retry_is_spawned_only_once() {
    let mut handler = RequestHandler::new();
    assert!(handler.schedule_shutdown_retry());
    assert!(!handler.schedule_shutdown_retry());
    handler.clear_shutdown_retry();
    assert!(handler.schedule_shutdown_retry());
}

#[test]
fn only_connections_other_than_the_excluded_one_keep_shutdown_stale() {
    let mut handler = RequestHandler::new();
    let first = handler.begin_detached_connection(3);
    let _second = handler.begin_detached_connection(4);
    let _again = handler.begin_detached_connection(4);
    assert_eq!(
        handler.pending_idle_shutdown_state(
            PendingShutdownReason::SeamlessUpgradeIdle,
            Some(3),
            &idle_server()
        ),
        IdleShutdownState::Stale
    );
    assert_eq!(
        handler.pending_idle_shutdown_state(
            PendingShutdownReason::SeamlessUpgradeIdle,
            Some(9),
            &idle_server()
        ),
        IdleShutdownState::Stale
    );
    handler.end_detached_connection(first);
    assert_eq!(
        handler.pending_idle_shutdown_state(
            PendingShutdownReason::SeamlessUpgradeIdle,
            Some(4),
            &idle_server()
        ),
        IdleShutdownState::StillApplies
    );
}

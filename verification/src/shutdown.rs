use std::collections::HashSet;

use vstd::prelude::*;
use vstd::std_specs::iter::IteratorSpec;

verus! {

/// Why the server has been asked to shut down.
#[derive(Debug, Clone, Copy, PartialEq, Eq, Structural)]
pub enum PendingShutdownReason {
    /// The last session went away and the `exit-empty` option is on.
    ExitEmpty,
    /// A client ran `kill-server`.
    KillServer,
    /// A seamless upgrade is waiting for the server to go idle.
    SeamlessUpgradeIdle,
}

/// Whether a queued idle shutdown still holds for the server as it is now.
#[derive(Debug, Clone, Copy, PartialEq, Eq, Structural)]
pub enum IdleShutdownState {
    /// The server is idle: the shutdown may go ahead.
    StillApplies,
    /// The server is busy again: the shutdown is to be dropped.
    Stale,
    /// Some part of the server state could not be inspected right now.
    Unknown,
}

/// What the caller is to do after a shutdown decision.
#[derive(Debug, Clone, Copy, PartialEq, Eq, Structural)]
pub enum ShutdownAction {
    /// Nothing more.
    Nothing,
    /// Spawn a task that retries the decision shortly, for the same excluded
    /// connection.
    ScheduleRetry,
    /// Tell the daemon to shut down.
    RequestShutdown,
}

/// What a shutdown decision needs to know of the rest of the server.
///
/// A field of type `Option` is `None` when the lock that guards that part of
/// the server could not be taken without waiting.
#[derive(Debug, Clone, Copy, PartialEq, Eq, Structural)]
pub struct ShutdownObservation {
    /// Whether the server has no sessions.
    pub sessions_empty: Option<bool>,
    /// Whether the global `exit-empty` option resolves to `on`.
    pub exit_empty_enabled: bool,
    /// Whether no client is attached.
    pub attached_clients_empty: Option<bool>,
    /// Whether the set of detached connections could be inspected without
    /// waiting (another task may hold it).
    pub detached_connections_available: bool,
    /// Whether no control-mode client is connected.
    pub control_clients_empty: Option<bool>,
    /// Whether no output subscription is registered.
    pub subscriptions_empty: bool,
    /// Whether no exited pane output is still retained.
    pub retained_outputs_empty: bool,
    /// Whether a shutdown handle has been installed.
    pub has_shutdown_handle: bool,
}

/// The shutdown bookkeeping of the request handler.
pub struct RequestHandler {
    shutdown_requested: bool,
    shutdown_reason: Option<PendingShutdownReason>,
    shutdown_retry_scheduled: bool,
    active_detached_connections: HashSet<u64>,
    active_detached_requests: usize,
}

/// A detached connection that counts as activity until it ends.
#[derive(Debug, Clone, Copy, PartialEq, Eq, Structural)]
pub struct DetachedConnectionGuard {
    pub connection_id: u64,
}

/// A detached request that counts as activity until it ends.
#[derive(Debug, Clone, Copy, PartialEq, Eq, Structural)]
pub struct DetachedRequestGuard {}

/// The abstract state of the shutdown bookkeeping.
pub struct ShutdownView {
    pub requested: bool,
    pub reason: Option<PendingShutdownReason>,
    pub retry_scheduled: bool,
    pub detached_connections: Set<u64>,
    pub detached_requests: nat,
}

/// The label under which a shutdown reason is recorded.
pub open spec fn reason_label(reason: PendingShutdownReason) -> Seq<char> {
    match reason {
        PendingShutdownReason::ExitEmpty => "exit-empty"@,
        PendingShutdownReason::KillServer => "kill-server"@,
        PendingShutdownReason::SeamlessUpgradeIdle => "seamless-upgrade-idle"@,
    }
}

impl PendingShutdownReason {
    /// The label under which the reason is recorded.
    pub fn as_str(self) -> (label: &'static str)
        ensures
            label@ == reason_label(self),
    {
        match self {
            PendingShutdownReason::ExitEmpty => "exit-empty",
            PendingShutdownReason::KillServer => "kill-server",
            PendingShutdownReason::SeamlessUpgradeIdle => "seamless-upgrade-idle",
        }
    }
}

/// The reason that is pending after `reason` is queued on top of `pending`: a
/// queued `kill-server` is not replaced by a later `exit-empty`.
pub open spec fn queued_reason(
    pending: Option<PendingShutdownReason>,
    reason: PendingShutdownReason,
) -> Option<PendingShutdownReason> {
    if pending == Some(PendingShutdownReason::KillServer) && reason
        == PendingShutdownReason::ExitEmpty {
        pending
    } else {
        Some(reason)
    }
}

/// Whether the reason only holds while the server stays idle.
pub open spec fn is_idle_reason(reason: PendingShutdownReason) -> bool {
    reason == PendingShutdownReason::ExitEmpty || reason
        == PendingShutdownReason::SeamlessUpgradeIdle
}

/// Whether some detached connection other than `excluded` is active.
pub open spec fn other_detached_connection(connections: Set<u64>, excluded: Option<u64>) -> bool {
    exists|id: u64| connections.contains(id) && Some(id) != excluded
}

/// Whether an idle shutdown for `reason` still holds.
pub open spec fn idle_state(
    view: ShutdownView,
    reason: PendingShutdownReason,
    excluded: Option<u64>,
    obs: ShutdownObservation,
) -> IdleShutdownState {
    match obs.sessions_empty {
        None => IdleShutdownState::Unknown,
        Some(false) => IdleShutdownState::Stale,
        Some(true) => {
            if reason == PendingShutdownReason::ExitEmpty && !obs.exit_empty_enabled {
                IdleShutdownState::Stale
            } else {
                match obs.attached_clients_empty {
                    None => IdleShutdownState::Unknown,
                    Some(false) => IdleShutdownState::Stale,
                    Some(true) => {
                        if view.detached_requests != 0 {
                            IdleShutdownState::Stale
                        } else if !obs.detached_connections_available {
                            IdleShutdownState::Unknown
                        } else if other_detached_connection(view.detached_connections, excluded) {
                            IdleShutdownState::Stale
                        } else {
                            match obs.control_clients_empty {
                                None => IdleShutdownState::Unknown,
                                Some(true) => IdleShutdownState::StillApplies,
                                Some(false) => IdleShutdownState::Stale,
                            }
                        }
                    },
                }
            }
        },
    }
}

/// The outcome of asking whether a pending shutdown may go ahead: whether it
/// goes ahead, the bookkeeping afterwards, and what the caller is to do.
pub open spec fn shutdown_decision(
    view: ShutdownView,
    excluded: Option<u64>,
    obs: ShutdownObservation,
) -> (bool, ShutdownView, ShutdownAction) {
    if !view.requested {
        (false, view, ShutdownAction::Nothing)
    } else if view.reason matches Some(reason) && is_idle_reason(reason) && idle_state(
        view,
        reason,
        excluded,
        obs,
    ) == IdleShutdownState::Stale {
        (false, ShutdownView { requested: false, reason: None, ..view }, ShutdownAction::Nothing)
    } else if view.reason matches Some(reason) && is_idle_reason(reason) && idle_state(
        view,
        reason,
        excluded,
        obs,
    ) == IdleShutdownState::Unknown {
        if view.retry_scheduled {
            (false, view, ShutdownAction::Nothing)
        } else {
            (false, ShutdownView { retry_scheduled: true, ..view }, ShutdownAction::ScheduleRetry)
        }
    } else if !obs.subscriptions_empty || !obs.retained_outputs_empty {
        (false, view, ShutdownAction::Nothing)
    } else {
        (
            true,
            ShutdownView { requested: false, reason: None, ..view },
            if obs.has_shutdown_handle {
                ShutdownAction::RequestShutdown
            } else {
                ShutdownAction::Nothing
            },
        )
    }
}

impl RequestHandler {
    pub closed spec fn view(&self) -> ShutdownView {
        ShutdownView {
            requested: self.shutdown_requested,
            reason: self.shutdown_reason,
            retry_scheduled: self.shutdown_retry_scheduled,
            detached_connections: self.active_detached_connections@,
            detached_requests: self.active_detached_requests as nat,
        }
    }

    /// A handler with no pending shutdown and no detached activity.
    pub fn new() -> (handler: Self)
        ensures
            !handler.view().requested,
            handler.view().reason is None,
            !handler.view().retry_scheduled,
            handler.view().detached_connections == Set::<u64>::empty(),
            handler.view().detached_requests == 0,
    {
        let handler = RequestHandler {
            shutdown_requested: false,
            shutdown_reason: None,
            shutdown_retry_scheduled: false,
            active_detached_connections: HashSet::new(),
            active_detached_requests: 0,
        };
        handler
    }

    /// Records a detached connection as active.
    pub fn begin_detached_connection(&mut self, connection_id: u64) -> (guard: DetachedConnectionGuard)
        ensures
            guard.connection_id == connection_id,
            final(self).view() == (ShutdownView {
                detached_connections: old(self).view().detached_connections.insert(connection_id),
                ..old(self).view()
            }),
    {
        broadcast use vstd::std_specs::hash::group_hash_axioms;

        self.active_detached_connections.insert(connection_id);
        DetachedConnectionGuard { connection_id }
    }

    /// Records that a detached connection has ended.
    pub fn end_detached_connection(&mut self, guard: DetachedConnectionGuard)
        ensures
            final(self).view() == (ShutdownView {
                detached_connections: old(self).view().detached_connections.remove(guard.connection_id),
                ..old(self).view()
            }),
    {
        broadcast use vstd::std_specs::hash::group_hash_axioms;

        self.active_detached_connections.remove(&guard.connection_id);
    }

    /// Records a detached request as active.
    pub fn begin_detached_request(&mut self) -> (guard: DetachedRequestGuard)
        requires
            old(self).view().detached_requests < usize::MAX,
        ensures
            final(self).view() == (ShutdownView {
                detached_requests: old(self).view().detached_requests + 1,
                ..old(self).view()
            }),
    {
        self.active_detached_requests = self.active_detached_requests + 1;
        DetachedRequestGuard {  }
    }

    /// Records that a detached request has ended.
    pub fn end_detached_request(&mut self, guard: DetachedRequestGuard)
        requires
            old(self).view().detached_requests > 0,
        ensures
            final(self).view() == (ShutdownView {
                detached_requests: (old(self).view().detached_requests - 1) as nat,
                ..old(self).view()
            }),
    {
        self.active_detached_requests = self.active_detached_requests - 1;
    }

    /// Queues a shutdown for `reason`; a queued `kill-server` is kept when an
    /// `exit-empty` comes after it.
    pub fn queue_shutdown_request(&mut self, reason: PendingShutdownReason)
        ensures
            final(self).view() == (if old(self).view().reason == Some(
                PendingShutdownReason::KillServer,
            ) && reason == PendingShutdownReason::ExitEmpty {
                old(self).view()
            } else {
                ShutdownView {
                    requested: true,
                    reason: queued_reason(old(self).view().reason, reason),
                    ..old(self).view()
                }
            }),
    {
        if let Some(PendingShutdownReason::KillServer) = self.shutdown_reason {
            if let PendingShutdownReason::ExitEmpty = reason {
                return ;
            }
        }
        self.shutdown_reason = Some(reason);
        self.shutdown_requested = true;
    }

    /// Whether a detached connection other than `excluded` is active.
    fn has_other_detached_connection(&self, excluded: Option<u64>) -> (r: bool)
        ensures
            r == other_detached_connection(self.view().detached_connections, excluded),
    {
        broadcast use vstd::std_specs::hash::group_hash_axioms;

        let ghost set = self.active_detached_connections@;
        proof {
            let keys = vstd::std_specs::hash::spec_hash_keys_iter(&self.active_detached_connections);
            assert(keys.remaining().unref().to_set() == set);
            vstd::seq_lib::seq_to_set_is_finite(keys.remaining().unref());
            assert(set.finite());
        }
        match excluded {
            None => {
                let empty = self.active_detached_connections.is_empty();
                proof {
                    if !empty {
                        vstd::set_lib::lemma_set_empty_equivalency_len(set);
                        if set.len() == 0 {
                            assert(set == Set::<u64>::empty());
                        }
                        let id = choose|id: u64| set.contains(id);
                        assert(set.contains(id) && Some(id) != excluded);
                    } else {
                        assert(set =~= Set::<u64>::empty());
                    }
                }
                !empty
            },
            Some(x) => {
                let present = self.active_detached_connections.contains(&x);
                let n = self.active_detached_connections.len();
                let ghost others = set.remove(x);
                proof {
                    vstd::set::axiom_set_remove_len(set, x);
                    vstd::set::axiom_set_remove_finite(set, x);
                    vstd::set_lib::lemma_set_empty_equivalency_len(others);
                    if others.len() != 0 {
                        let id = choose|id: u64| others.contains(id);
                        assert(set.contains(id) && Some(id) != excluded);
                    } else {
                        assert forall|id: u64| set.contains(id) implies Some(id) == excluded by {
                            if Some(id) != excluded {
                                assert(others.contains(id));
                            }
                        }
                    }
                }
                if present {
                    n > 1
                } else {
                    n > 0
                }
            },
        }
    }

    /// Whether an idle shutdown queued for `reason` still holds, leaving the
    /// detached connection `excluded_connection_id` out of the activity.
    pub fn pending_idle_shutdown_state(
        &self,
        reason: PendingShutdownReason,
        excluded_connection_id: Option<u64>,
        obs: &ShutdownObservation,
    ) -> (state: IdleShutdownState)
        ensures
            state == idle_state(self.view(), reason, excluded_connection_id, *obs),
    {
        let sessions_empty = match obs.sessions_empty {
            None => return IdleShutdownState::Unknown,
            Some(empty) => empty,
        };
        if !sessions_empty {
            return IdleShutdownState::Stale;
        }
        if let PendingShutdownReason::ExitEmpty = reason {
            if !obs.exit_empty_enabled {
                return IdleShutdownState::Stale;
            }
        }
        let attached_empty = match obs.attached_clients_empty {
            None => return IdleShutdownState::Unknown,
            Some(empty) => empty,
        };
        if !attached_empty {
            return IdleShutdownState::Stale;
        }
        if self.active_detached_requests != 0 {
            return IdleShutdownState::Stale;
        }
        if !obs.detached_connections_available {
            return IdleShutdownState::Unknown;
        }
        if self.has_other_detached_connection(excluded_connection_id) {
            return IdleShutdownState::Stale;
        }
        match obs.control_clients_empty {
            None => IdleShutdownState::Unknown,
            Some(true) => IdleShutdownState::StillApplies,
            Some(false) => IdleShutdownState::Stale,
        }
    }

    /// Marks a retry as scheduled; returns whether the caller must spawn it
    /// (false when one is already scheduled).
    pub fn schedule_shutdown_retry(&mut self) -> (spawn: bool)
        ensures
            spawn == !old(self).view().retry_scheduled,
            final(self).view() == (ShutdownView { retry_scheduled: true, ..old(self).view() }),
    {
        if self.shutdown_retry_scheduled {
            return false;
        }
        self.shutdown_retry_scheduled = true;
        true
    }

    /// Clears the scheduled-retry mark: when the retry task starts, or when no
    /// runtime was there to run it.
    pub fn clear_shutdown_retry(&mut self)
        ensures
            final(self).view() == (ShutdownView { retry_scheduled: false, ..old(self).view() }),
    {
        self.shutdown_retry_scheduled = false;
    }

    /// Decides whether a pending shutdown goes ahead now, leaving the detached
    /// connection `excluded_connection_id` out of the activity checks.
    ///
    /// A pending idle shutdown (`exit-empty`, seamless upgrade) that no longer
    /// holds is dropped; one that cannot be checked right now asks for a retry.
    /// Any shutdown waits while output subscriptions or retained exited output
    /// remain. When it goes ahead, the pending request is consumed and the
    /// daemon is told to shut down if a shutdown handle is installed.
    pub fn request_shutdown_if_pending_excluding_detached_connection(
        &mut self,
        excluded_connection_id: Option<u64>,
        obs: &ShutdownObservation,
    ) -> (r: (bool, ShutdownAction))
        ensures
            (r.0, final(self).view(), r.1) == shutdown_decision(
                old(self).view(),
                excluded_connection_id,
                *obs,
            ),
    {
        if !self.shutdown_requested {
            return (false, ShutdownAction::Nothing);
        }
        if let Some(reason) = self.shutdown_reason {
            let idle = match reason {
                PendingShutdownReason::KillServer => false,
                _ => true,
            };
            if idle {
                match self.pending_idle_shutdown_state(reason, excluded_connection_id, obs) {
                    IdleShutdownState::StillApplies => {},
                    IdleShutdownState::Stale => {
                        self.shutdown_requested = false;
                        self.shutdown_reason = None;
                        return (false, ShutdownAction::Nothing);
                    },
                    IdleShutdownState::Unknown => {
                        if self.schedule_shutdown_retry() {
                            return (false, ShutdownAction::ScheduleRetry);
                        }
                        return (false, ShutdownAction::Nothing);
                    },
                }
            }
        }
        if !obs.subscriptions_empty {
            return (false, ShutdownAction::Nothing);
        }
        if !obs.retained_outputs_empty {
            return (false, ShutdownAction::Nothing);
        }
        self.shutdown_requested = false;
        self.shutdown_reason = None;
        if obs.has_shutdown_handle {
            (true, ShutdownAction::RequestShutdown)
        } else {
            (true, ShutdownAction::Nothing)
        }
    }

    /// Decides whether a pending shutdown goes ahead now, counting every
    /// detached connection as activity.
    pub fn request_shutdown_if_pending(&mut self, obs: &ShutdownObservation) -> (r: (
        bool,
        ShutdownAction,
    ))
        ensures
            (r.0, final(self).view(), r.1) == shutdown_decision(old(self).view(), None, *obs),
    {
        self.request_shutdown_if_pending_excluding_detached_connection(None, obs)
    }
}

/// A queued `kill-server` is never replaced by an `exit-empty` queued after
/// it, whatever was pending before.
pub proof fn law_kill_server_is_not_downgraded(pending: Option<PendingShutdownReason>)
    ensures
        queued_reason(
            queued_reason(pending, PendingShutdownReason::KillServer),
            PendingShutdownReason::ExitEmpty,
        ) == Some(PendingShutdownReason::KillServer),
{
}

/// A shutdown goes ahead only when one was requested and no output
/// subscription or retained exited output remains.
pub proof fn law_shutdown_waits_for_output_consumers(
    view: ShutdownView,
    excluded: Option<u64>,
    obs: ShutdownObservation,
)
    ensures
        shutdown_decision(view, excluded, obs).0 ==> view.requested && obs.subscriptions_empty
            && obs.retained_outputs_empty,
{
}

/// A pending shutdown goes ahead at most once: right after it does, nothing
/// is pending, so the next decision, under any observation, does not go ahead.
pub proof fn law_shutdown_goes_ahead_once(
    view: ShutdownView,
    excluded: Option<u64>,
    obs: ShutdownObservation,
    later_excluded: Option<u64>,
    later_obs: ShutdownObservation,
)
    ensures
        shutdown_decision(view, excluded, obs).0 ==> {
            let next = shutdown_decision(view, excluded, obs).1;
            &&& !next.requested
            &&& next.reason is None
            &&& !shutdown_decision(next, later_excluded, later_obs).0
        },
{
}

/// An idle shutdown (`exit-empty`, seamless upgrade) goes ahead only while the
/// server is idle, and one found stale is dropped rather than kept pending.
pub proof fn law_idle_shutdown_requires_idle_server(
    view: ShutdownView,
    excluded: Option<u64>,
    obs: ShutdownObservation,
)
    requires
        view.reason matches Some(reason) && is_idle_reason(reason),
    ensures
        shutdown_decision(view, excluded, obs).0 ==> idle_state(
            view,
            view.reason->0,
            excluded,
            obs,
        ) == IdleShutdownState::StillApplies,
        view.requested && idle_state(view, view.reason->0, excluded, obs)
            == IdleShutdownState::Stale ==> !shutdown_decision(view, excluded, obs).1.requested
            && shutdown_decision(view, excluded, obs).1.reason is None,
{
}

/// `kill-server` does not wait for the server to go idle: once requested it
/// goes ahead as soon as no output consumer remains.
pub proof fn law_kill_server_skips_idle_checks(
    view: ShutdownView,
    excluded: Option<u64>,
    obs: ShutdownObservation,
)
    requires
        view.requested,
        view.reason == Some(PendingShutdownReason::KillServer),
        obs.subscriptions_empty,
        obs.retained_outputs_empty,
    ensures
        shutdown_decision(view, excluded, obs).0,
        shutdown_decision(view, excluded, obs).2 == (if obs.has_shutdown_handle {
            ShutdownAction::RequestShutdown
        } else {
            ShutdownAction::Nothing
        }),
{
}

/// At most one retry is outstanding: while one is scheduled, no decision asks
/// for another.
pub proof fn law_single_outstanding_retry(
    view: ShutdownView,
    excluded: Option<u64>,
    obs: ShutdownObservation,
)
    requires
        view.retry_scheduled,
    ensures
        shutdown_decision(view, excluded, obs).2 != ShutdownAction::ScheduleRetry,
{
}

} // verus!

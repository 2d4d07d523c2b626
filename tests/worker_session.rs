use command_source::worker::{backoff, RetryPolicy, WorkerAction, WorkerEvent, WorkerPhase, WorkerSession};

fn policy(max_attempts: u32) -> RetryPolicy {
    RetryPolicy { max_attempts, base_delay_ms: 100, max_delay_ms: 1000 }
}

fn ready_session(capacity: u64, max_attempts: u32) -> WorkerSession {
    let mut s = WorkerSession::new(capacity, policy(max_attempts));
    assert_eq!(s.step(WorkerEvent::Connected), vec![WorkerAction::Advertise { total: capacity }]);
    s
}

#[test]
fn no_job_before_connection() {
    let mut s = WorkerSession::new(2, policy(3));
    assert_eq!(s.step(WorkerEvent::Assigned { job_id: 1 }), vec![]);
    assert_eq!(s.phase, WorkerPhase::Connecting);
    assert_eq!(s.in_flight_count(), 0);
}

#[test]
fn first_connection_failure_fails_construction() {
    let mut s = WorkerSession::new(2, policy(3));
    assert_eq!(s.step(WorkerEvent::ConnectFailed), vec![WorkerAction::FailConstruction]);
    assert_eq!(s.phase, WorkerPhase::Closed);
    assert_eq!(s.step(WorkerEvent::Connected), vec![]);
}

#[test]
fn capacity_limits_jobs_in_flight() {
    let mut s = ready_session(2, 3);
    assert_eq!(s.step(WorkerEvent::Assigned { job_id: 10 }), vec![WorkerAction::Dispatch { job_id: 10 }]);
    assert_eq!(s.step(WorkerEvent::Assigned { job_id: 10 }), vec![WorkerAction::RejectJob { job_id: 10 }]);
    assert_eq!(s.step(WorkerEvent::Assigned { job_id: 11 }), vec![WorkerAction::Dispatch { job_id: 11 }]);
    assert_eq!(s.step(WorkerEvent::Assigned { job_id: 12 }), vec![WorkerAction::RejectJob { job_id: 12 }]);
    assert_eq!(s.in_flight_count(), 2);
    assert_eq!(s.step(WorkerEvent::Completed { job_id: 10 }), vec![WorkerAction::SendResult { job_id: 10 }]);
    assert_eq!(s.step(WorkerEvent::Assigned { job_id: 12 }), vec![WorkerAction::Dispatch { job_id: 12 }]);
    assert_eq!(s.in_flight, vec![11, 12]);
}

#[test]
fn second_response_for_a_job_is_stale() {
    let mut s = ready_session(4, 3);
    s.step(WorkerEvent::Assigned { job_id: 7 });
    assert_eq!(s.step(WorkerEvent::Completed { job_id: 7 }), vec![WorkerAction::SendResult { job_id: 7 }]);
    assert_eq!(s.step(WorkerEvent::Completed { job_id: 7 }), vec![WorkerAction::StaleResponse { job_id: 7 }]);
}

#[test]
fn quit_while_idle_ends_at_once() {
    let mut s = ready_session(4, 3);
    let acts = s.step(WorkerEvent::Quit);
    assert_eq!(acts, vec![WorkerAction::SendGoodbye, WorkerAction::EndStream]);
    assert!(!acts.iter().any(|a| matches!(a, WorkerAction::DropJob { .. })));
    assert_eq!(s.phase, WorkerPhase::Closed);
}

#[test]
fn quit_with_jobs_in_flight_drains_them() {
    let mut s = ready_session(4, 3);
    s.step(WorkerEvent::Assigned { job_id: 1 });
    s.step(WorkerEvent::Assigned { job_id: 2 });
    assert_eq!(s.step(WorkerEvent::Quit), vec![WorkerAction::SendGoodbye]);
    assert_eq!(s.phase, WorkerPhase::Draining);
    assert_eq!(s.step(WorkerEvent::Assigned { job_id: 3 }), vec![WorkerAction::RejectJob { job_id: 3 }]);
    assert_eq!(s.step(WorkerEvent::Completed { job_id: 2 }), vec![WorkerAction::SendResult { job_id: 2 }]);
    assert_eq!(
        s.step(WorkerEvent::Completed { job_id: 1 }),
        vec![WorkerAction::SendResult { job_id: 1 }, WorkerAction::EndStream]
    );
    assert_eq!(s.phase, WorkerPhase::Closed);
}

#[test]
fn grace_period_drops_what_is_left() {
    let mut s = ready_session(4, 3);
    s.step(WorkerEvent::Assigned { job_id: 5 });
    s.step(WorkerEvent::Quit);
    assert_eq!(
        s.step(WorkerEvent::GraceElapsed),
        vec![WorkerAction::DropJob { job_id: 5 }, WorkerAction::EndStream]
    );
    assert_eq!(s.phase, WorkerPhase::Closed);
}

#[test]
fn reconnect_within_budget_resumes() {
    let mut s = ready_session(2, 3);
    s.step(WorkerEvent::Assigned { job_id: 9 });
    let acts = s.run(&vec![
        WorkerEvent::ConnectionLost,
        WorkerEvent::ReconnectFailed,
        WorkerEvent::ReconnectFailed,
        WorkerEvent::ReconnectSucceeded,
    ]);
    assert_eq!(
        acts,
        vec![
            WorkerAction::DropJob { job_id: 9 },
            WorkerAction::ScheduleReconnect { delay_ms: 100 },
            WorkerAction::ScheduleReconnect { delay_ms: 200 },
            WorkerAction::ScheduleReconnect { delay_ms: 400 },
            WorkerAction::Advertise { total: 2 },
        ]
    );
    assert_eq!(s.phase, WorkerPhase::Ready);
    assert_eq!(s.step(WorkerEvent::Assigned { job_id: 10 }), vec![WorkerAction::Dispatch { job_id: 10 }]);
}

#[test]
fn reconnect_budget_spent_ends_with_error() {
    let mut s = ready_session(2, 2);
    let acts = s.run(&vec![
        WorkerEvent::ConnectionLost,
        WorkerEvent::ReconnectFailed,
        WorkerEvent::ReconnectFailed,
    ]);
    assert_eq!(
        acts,
        vec![
            WorkerAction::ScheduleReconnect { delay_ms: 100 },
            WorkerAction::ScheduleReconnect { delay_ms: 200 },
            WorkerAction::EndWithError,
        ]
    );
    assert_eq!(s.phase, WorkerPhase::Closed);
}

#[test]
fn no_attempts_allowed_ends_at_once() {
    let mut s = ready_session(2, 0);
    assert_eq!(s.step(WorkerEvent::ConnectionLost), vec![WorkerAction::EndWithError]);
}

#[test]
fn backoff_doubles_up_to_the_cap() {
    let p = policy(10);
    assert_eq!(backoff(p, 0), 100);
    assert_eq!(backoff(p, 1), 200);
    assert_eq!(backoff(p, 3), 800);
    assert_eq!(backoff(p, 4), 1000);
    assert_eq!(backoff(p, 60), 1000);
    let small_cap = RetryPolicy { max_attempts: 1, base_delay_ms: 500, max_delay_ms: 50 };
    assert_eq!(backoff(small_cap, 0), 50);
    let huge = RetryPolicy { max_attempts: 1, base_delay_ms: u64::MAX / 2 + 1, max_delay_ms: u64::MAX };
    assert_eq!(backoff(huge, 1), u64::MAX);
}

#[test]
fn quit_while_reconnecting_closes() {
    let mut s = ready_session(2, 3);
    s.step(WorkerEvent::ConnectionLost);
    assert_eq!(s.step(WorkerEvent::Quit), vec![WorkerAction::EndStream]);
    assert_eq!(s.phase, WorkerPhase::Closed);
}

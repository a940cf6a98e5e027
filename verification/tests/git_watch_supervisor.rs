use observatory::git_observer::watcher_queue::GitWatchAction;
use observatory::git_observer::watcher_supervisor::{
    git_watch_supervisor, GitFullReconcileReason, GitWatchScheduledAction, GitWatchSupervisorErrorKind,
    GitWatchSupervisorOptions,
};

const SEC: u64 = 1_000_000_000;
const START: u64 = 100 * SEC;

fn options() -> GitWatchSupervisorOptions {
    GitWatchSupervisorOptions { overflow_min_interval: 10 * SEC, periodic_interval: 60 * SEC }
}

fn full(reason: GitFullReconcileReason) -> GitWatchScheduledAction {
    GitWatchScheduledAction::FullReconcile { reason }
}

#[test]
fn default_intervals_are_sixty_seconds() {
    let defaults = GitWatchSupervisorOptions::default();
    assert_eq!(defaults.overflow_min_interval, 60 * SEC);
    assert_eq!(defaults.periodic_interval, 60 * SEC);
}

#[test]
fn invalid_intervals_are_rejected() {
    let error = git_watch_supervisor(START, GitWatchSupervisorOptions { overflow_min_interval: 0, periodic_interval: SEC })
        .unwrap_err();
    assert_eq!(error.kind, GitWatchSupervisorErrorKind::InvalidOverflowMinInterval);
    let error = git_watch_supervisor(START, GitWatchSupervisorOptions { overflow_min_interval: SEC, periodic_interval: 0 })
        .unwrap_err();
    assert_eq!(error.kind, GitWatchSupervisorErrorKind::InvalidPeriodicInterval);
    let error = git_watch_supervisor(u64::MAX - 1, options()).unwrap_err();
    assert_eq!(error.kind, GitWatchSupervisorErrorKind::IntervalOverflow);
    assert_eq!(error.to_string(), "Git watch supervisor: scheduler interval overflowed Instant");
}

#[test]
fn queue_actions_pass_through_and_periodic_reconcile_waits_for_its_deadline() {
    let (_handle, mut supervisor) = git_watch_supervisor(START, options()).unwrap();
    let actions = supervisor.poll(
        START + SEC,
        vec![
            GitWatchAction::ReconcileRepository { repository_key: "repo".to_string() },
            GitWatchAction::DiscoverRepositories { project_root: b"/workspace".to_vec() },
        ],
    );
    assert_eq!(
        actions,
        vec![
            GitWatchScheduledAction::ReconcileRepository { repository_key: "repo".to_string() },
            GitWatchScheduledAction::DiscoverRepositories { project_root: b"/workspace".to_vec() },
        ]
    );
    assert!(!supervisor.full_reconcile_in_flight());
    assert_eq!(supervisor.poll(START + 60 * SEC, Vec::new()), vec![full(GitFullReconcileReason::Periodic)]);
    assert!(supervisor.full_reconcile_in_flight());
}

#[test]
fn overflow_is_served_at_once_then_rate_limited() {
    let (handle, mut supervisor) = git_watch_supervisor(START, options()).unwrap();
    handle.signal_overflow();
    assert!(handle.overflow_pending());
    assert_eq!(supervisor.poll(START, Vec::new()), vec![full(GitFullReconcileReason::Overflow)]);
    assert!(!handle.overflow_pending());
    supervisor.complete_full_reconcile(true, START + SEC).unwrap();

    assert!(supervisor.poll(START + 2 * SEC, vec![GitWatchAction::FullReconcile]).is_empty());
    assert!(handle.overflow_pending());
    assert_eq!(supervisor.poll(START + 10 * SEC, Vec::new()), vec![full(GitFullReconcileReason::Overflow)]);
}

#[test]
fn overflow_and_periodic_deadline_together_report_both_reasons() {
    let (handle, mut supervisor) = git_watch_supervisor(START, options()).unwrap();
    handle.signal_overflow();
    assert_eq!(
        supervisor.poll(START + 60 * SEC, Vec::new()),
        vec![full(GitFullReconcileReason::OverflowAndPeriodic)]
    );
}

#[test]
fn in_flight_reconcile_blocks_another_until_completed() {
    let (handle, mut supervisor) = git_watch_supervisor(START, options()).unwrap();
    assert_eq!(supervisor.poll(START + 60 * SEC, Vec::new()), vec![full(GitFullReconcileReason::Periodic)]);
    handle.signal_overflow();
    assert!(supervisor.poll(START + 200 * SEC, Vec::new()).is_empty());
    supervisor.complete_full_reconcile(false, START + 61 * SEC).unwrap();
    assert!(!supervisor.full_reconcile_in_flight());
    assert!(handle.overflow_pending());
    assert!(supervisor.poll(START + 62 * SEC, Vec::new()).is_empty());
    assert_eq!(supervisor.poll(START + 71 * SEC, Vec::new()), vec![full(GitFullReconcileReason::Overflow)]);
}

#[test]
fn completing_without_a_reconcile_in_flight_is_an_error() {
    let (_handle, mut supervisor) = git_watch_supervisor(START, options()).unwrap();
    let error = supervisor.complete_full_reconcile(true, START).unwrap_err();
    assert_eq!(error.kind, GitWatchSupervisorErrorKind::NoReconcileInFlight);
    assert_eq!(error.kind.to_string(), "no full reconcile is in flight");
}

#[test]
fn decision_function_reports_reason_for_a_given_flag_reading() {
    let (_handle, mut supervisor) = git_watch_supervisor(START, options()).unwrap();
    assert_eq!(supervisor.decide_full_reconcile(START + SEC, false), None);
    assert_eq!(supervisor.decide_full_reconcile(START + SEC, true), Some(GitFullReconcileReason::Overflow));
    assert_eq!(supervisor.decide_full_reconcile(START + 100 * SEC, true), None);
}

#[test]
fn queued_full_reconcile_counts_as_pending_overflow() {
    let (handle, mut supervisor) = git_watch_supervisor(START, GitWatchSupervisorOptions::default()).unwrap();
    let actions = supervisor.poll(
        START,
        vec![
            GitWatchAction::ReconcileRepository { repository_key: "a".to_string() },
            GitWatchAction::FullReconcile,
        ],
    );
    assert_eq!(
        actions,
        vec![
            GitWatchScheduledAction::ReconcileRepository { repository_key: "a".to_string() },
            full(GitFullReconcileReason::Overflow),
        ]
    );
    assert!(supervisor.full_reconcile_in_flight());
    assert!(!handle.overflow_pending());
}

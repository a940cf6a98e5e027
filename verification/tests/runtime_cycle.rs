use observatory::runtime::cycle::{
    health_status, CycleWait, GitCycle, PageBudget, ProjectorCycle, ProjectorProgress,
};

#[test]
fn page_budget_projects_an_oversized_first_row_then_stops() {
    let mut page = PageBudget::new(10);
    assert_eq!(page.admit_row(25), Some(true));
    assert_eq!(page.admit_row(1), None);
    assert_eq!(page.processed, 1);
}

#[test]
fn page_budget_stops_at_the_row_that_crosses_the_limit() {
    let mut page = PageBudget::new(10);
    assert_eq!(page.admit_row(4), Some(false));
    assert_eq!(page.admit_row(6), Some(false));
    assert_eq!(page.admit_row(1), None);
    assert_eq!(page.page_bytes, 11);
    assert_eq!(page.processed, 2);
}

#[test]
fn healthy_cycle_waits_for_wake_or_poll() {
    let mut cycle = ProjectorCycle::new();
    cycle.record_projected();
    cycle.record_projected();
    cycle.record_oversized(true);
    let outcome = cycle.finish(3, 600_000);
    assert_eq!(outcome.consecutive_retry_safe_failures, 0);
    assert_eq!(outcome.retry_delay_ms, None);
    assert_eq!(outcome.status, "ok");
    assert_eq!(
        outcome.detail,
        "projected=2,oversized_first_rows=1,retry_safe=false,retry_delay_ms=0"
    );
    assert_eq!(outcome.wait, CycleWait::WakeOrPoll(600_000));
}

#[test]
fn transient_failures_back_off_with_a_growing_streak() {
    let mut cycle = ProjectorCycle::new();
    cycle.record_error(true);
    let first = cycle.finish(0, 1000);
    assert_eq!(first.consecutive_retry_safe_failures, 1);
    assert_eq!(first.retry_delay_ms, Some(25));
    assert_eq!(first.status, "error");
    assert_eq!(first.wait, CycleWait::Sleep(25));
    assert_eq!(
        first.detail,
        "projected=0,oversized_first_rows=0,retry_safe=true,retry_delay_ms=25"
    );
    let third = cycle.finish(2, 1000);
    assert_eq!(third.retry_delay_ms, Some(250));
    assert_eq!(third.wait, CycleWait::Sleep(250));
}

#[test]
fn a_non_transient_failure_resets_the_streak_and_polls() {
    let mut cycle = ProjectorCycle::new();
    cycle.record_error(true);
    cycle.record_error(false);
    let outcome = cycle.finish(5, 1000);
    assert_eq!(outcome.consecutive_retry_safe_failures, 0);
    assert_eq!(outcome.retry_delay_ms, None);
    assert_eq!(outcome.wait, CycleWait::Sleep(1000));
    assert!(!cycle.healthy);
}

#[test]
fn projector_progress_is_cumulative_and_saturating() {
    let mut progress = ProjectorProgress::new();
    progress.record_cycle(3, 1);
    progress.record_health();
    progress.record_cycle(2, 0);
    assert_eq!(
        progress,
        ProjectorProgress { cycles: 2, health_records: 1, projected: 5, oversized_first_rows: 1 }
    );
    let mut full = ProjectorProgress { cycles: u64::MAX, health_records: u64::MAX, projected: u64::MAX - 1, oversized_first_rows: 0 };
    full.record_cycle(10, 0);
    full.record_health();
    assert_eq!(full.cycles, u64::MAX);
    assert_eq!(full.projected, u64::MAX);
    assert_eq!(full.health_records, u64::MAX);
}

#[test]
fn git_cycle_health_and_detail() {
    let mut cycle = GitCycle::new(0);
    cycle.record_report(true, 0);
    cycle.record_report(false, 0);
    assert!(cycle.healthy);
    assert_eq!(cycle.detail(), "reconciled=1");
    assert_eq!(health_status(cycle.healthy), "ok");
    cycle.record_report(true, 2);
    assert!(!cycle.healthy);
    assert_eq!(cycle.detail(), "reconciled=2");
    let mut failed = GitCycle::new(0);
    failed.record_failure();
    assert_eq!(health_status(failed.healthy), "error");
    assert!(!GitCycle::new(1).healthy);
}

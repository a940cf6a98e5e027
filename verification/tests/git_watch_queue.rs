use observatory::git_observer::watcher::{WatchPlan, WatchTarget};
use observatory::git_observer::watcher_queue::{
    enqueue_result, git_watch_channel, GitWatchAction, SendOutcome, GitWatchEvent, GitWatchEventKind, GitWatchQueueErrorKind,
    GitWatchQueueOptions, WatchEnqueueResult,
};

const MS: u64 = 1_000_000;
const START: u64 = 5_000 * MS;

fn target(path: &str, repository_keys: &[&str], discovers_repositories: bool) -> WatchTarget {
    WatchTarget {
        path: path.as_bytes().to_vec(),
        repository_keys: repository_keys.iter().map(|value| (*value).to_string()).collect(),
        discovers_repositories,
    }
}

fn plan() -> WatchPlan {
    WatchPlan {
        targets: vec![
            target("/workspace", &[], true),
            target("/workspace/a/.git", &["repo-a"], false),
            target("/workspace/a/.git/HEAD", &["repo-a"], false),
            target("/workspace/a/.git/worktrees", &["repo-a"], false),
            target("/workspace/b/.git", &["repo-b"], false),
            target("/workspace/b/.git/HEAD", &["repo-b"], false),
        ],
    }
}

fn options(channel_capacity: usize, max_pending_repositories: usize) -> GitWatchQueueOptions {
    GitWatchQueueOptions { channel_capacity, max_pending_repositories, debounce: 500 * MS }
}

fn event(kind: GitWatchEventKind, path: &str, observed_at: u64) -> GitWatchEvent {
    GitWatchEvent { kind, paths: vec![path.as_bytes().to_vec()], observed_at }
}

fn reconcile(key: &str) -> GitWatchAction {
    GitWatchAction::ReconcileRepository { repository_key: key.to_string() }
}

#[test]
fn burst_events_coalesce_to_one_repository_at_the_last_event_deadline() {
    let (sender, mut queue) = git_watch_channel(&plan(), options(128, 16)).unwrap();
    for offset in 0..100 {
        assert_eq!(
            sender.try_send(event(GitWatchEventKind::Change, "/workspace/a/.git/HEAD", START + offset * MS)),
            WatchEnqueueResult::Queued
        );
    }

    assert!(queue.poll(START + 598 * MS).is_empty());
    assert_eq!(queue.poll(START + 599 * MS), vec![reconcile("repo-a")]);
    assert!(queue.poll(START + 2_000 * MS).is_empty());
}

#[test]
fn ready_repositories_are_returned_once_in_deterministic_key_order() {
    let (sender, mut queue) = git_watch_channel(&plan(), options(8, 8)).unwrap();
    assert_eq!(
        sender.try_send(event(GitWatchEventKind::Change, "/workspace/b/.git/HEAD", START)),
        WatchEnqueueResult::Queued
    );
    assert_eq!(
        sender.try_send(event(GitWatchEventKind::Remove, "/workspace/a/.git/index.lock", START + MS)),
        WatchEnqueueResult::Queued
    );

    assert_eq!(queue.poll(START + 501 * MS), vec![reconcile("repo-a"), reconcile("repo-b")]);
}

#[test]
fn project_root_create_schedules_discovery_without_source_tree_reconcile() {
    let (sender, mut queue) = git_watch_channel(&plan(), options(8, 8)).unwrap();
    assert_eq!(
        sender.try_send(event(GitWatchEventKind::Create, "/workspace/new-repository", START)),
        WatchEnqueueResult::Queued
    );
    assert_eq!(
        sender.try_send(event(GitWatchEventKind::Change, "/workspace/random-source.rs", START + 10 * MS)),
        WatchEnqueueResult::Queued
    );

    assert_eq!(
        queue.poll(START + 500 * MS),
        vec![GitWatchAction::DiscoverRepositories { project_root: b"/workspace".to_vec() }]
    );
}

#[test]
fn linked_control_directory_create_routes_to_repository_not_root_discovery() {
    let (sender, mut queue) = git_watch_channel(&plan(), options(8, 8)).unwrap();
    assert_eq!(
        sender.try_send(event(GitWatchEventKind::Create, "/workspace/a/.git/worktrees/new-linked/HEAD", START)),
        WatchEnqueueResult::Queued
    );

    assert_eq!(queue.poll(START + 500 * MS), vec![reconcile("repo-a")]);
}

#[test]
fn bounded_channel_overflow_signals_one_full_reconcile_and_drops_pending_work() {
    let (sender, mut queue) = git_watch_channel(&plan(), options(1, 8)).unwrap();
    assert_eq!(
        sender.try_send(event(GitWatchEventKind::Change, "/workspace/a/.git/HEAD", START)),
        WatchEnqueueResult::Queued
    );
    assert_eq!(
        sender.try_send(event(GitWatchEventKind::Change, "/workspace/b/.git/HEAD", START)),
        WatchEnqueueResult::OverflowSignaled
    );

    assert_eq!(queue.poll(START), vec![GitWatchAction::FullReconcile]);
    assert!(queue.poll(START + 2_000 * MS).is_empty());
}

#[test]
fn pending_repository_limit_escalates_to_full_reconcile() {
    let (sender, mut queue) = git_watch_channel(&plan(), options(8, 1)).unwrap();
    assert_eq!(
        sender.try_send(event(GitWatchEventKind::Change, "/workspace/a/.git/HEAD", START)),
        WatchEnqueueResult::Queued
    );
    assert_eq!(
        sender.try_send(event(GitWatchEventKind::Change, "/workspace/b/.git/HEAD", START)),
        WatchEnqueueResult::Queued
    );

    assert_eq!(queue.poll(START), vec![GitWatchAction::FullReconcile]);
    assert_eq!(queue.pending_repository_count(), 0);
}

#[test]
fn explicit_rescan_event_and_unrelated_paths_are_handled_safely() {
    let (sender, mut queue) = git_watch_channel(&plan(), options(8, 8)).unwrap();
    assert_eq!(
        sender.try_send(event(GitWatchEventKind::Change, "/outside/unrelated", START)),
        WatchEnqueueResult::Queued
    );
    assert!(queue.poll(START + 1_000 * MS).is_empty());

    assert_eq!(
        sender.try_send(GitWatchEvent { kind: GitWatchEventKind::Rescan, paths: Vec::new(), observed_at: START + 2_000 * MS }),
        WatchEnqueueResult::Queued
    );
    assert_eq!(queue.poll(START + 2_000 * MS), vec![GitWatchAction::FullReconcile]);
}

#[test]
fn invalid_queue_options_fail_before_channel_creation() {
    let error = git_watch_channel(&plan(), options(0, 8)).unwrap_err();
    assert_eq!(error.kind, GitWatchQueueErrorKind::InvalidChannelCapacity);

    let error = git_watch_channel(&plan(), options(8, 0)).unwrap_err();
    assert_eq!(error.kind, GitWatchQueueErrorKind::InvalidPendingRepositoryLimit);

    let error = git_watch_channel(
        &plan(),
        GitWatchQueueOptions { channel_capacity: 8, max_pending_repositories: 8, debounce: 0 },
    )
    .unwrap_err();
    assert_eq!(error.kind, GitWatchQueueErrorKind::InvalidDebounce);
}

#[test]
fn invalid_targets_are_reported_by_index() {
    let mut relative = plan();
    relative.targets[2].path = b"relative/HEAD".to_vec();
    let error = git_watch_channel(&relative, options(8, 8)).unwrap_err();
    assert_eq!(error.kind, GitWatchQueueErrorKind::NonCanonicalTargetPath { target_index: 2 });
    assert_eq!(error.to_string(), "Git watch queue: watch target 2 path is not canonical");

    let mut blank = plan();
    blank.targets[4].repository_keys.push("  ".to_string());
    let error = git_watch_channel(&blank, options(8, 8)).unwrap_err();
    assert_eq!(error.kind, GitWatchQueueErrorKind::EmptyRepositoryKey { target_index: 4 });
    assert_eq!(error.kind.to_string(), "watch target 4 has an empty repository key");
}

#[test]
fn direct_event_processing_and_ready_handout() {
    let (_sender, mut queue) = git_watch_channel(&plan(), options(8, 8)).unwrap();
    queue.process_event(GitWatchEvent {
        kind: GitWatchEventKind::Create,
        paths: vec![b"/workspace/b/.git/HEAD".to_vec(), b"/workspace/c".to_vec()],
        observed_at: START,
    });
    assert_eq!(queue.pending_repository_count(), 1);
    assert!(queue.take_ready(START + 499 * MS).is_empty());
    assert_eq!(
        queue.take_ready(START + 500 * MS),
        vec![reconcile("repo-b"), GitWatchAction::DiscoverRepositories { project_root: b"/workspace".to_vec() }]
    );
    assert!(queue.take_ready(START + 500 * MS).is_empty());
    assert_eq!(queue.pending_repository_count(), 0);
}

#[test]
fn events_before_the_last_seen_instant_are_not_ready() {
    let (_sender, mut queue) = git_watch_channel(&plan(), options(8, 8)).unwrap();
    queue.process_event(event(GitWatchEventKind::Change, "/workspace/a/.git", START));
    assert!(queue.take_ready(START - MS).is_empty());
    assert_eq!(queue.pending_repository_count(), 1);
}

#[test]
fn targets_with_one_path_are_ordered_by_keys_before_matching() {
    let plan = WatchPlan {
        targets: vec![target("/projects/", &["zeta"], true), target("/projects", &["alpha"], true)],
    };
    let (sender, mut queue) = git_watch_channel(&plan, options(8, 8)).unwrap();
    assert_eq!(
        sender.try_send(event(GitWatchEventKind::Create, "/projects/new", START)),
        WatchEnqueueResult::Queued
    );
    assert_eq!(
        queue.poll(START + 500 * MS),
        vec![
            reconcile("alpha"),
            reconcile("zeta"),
            GitWatchAction::DiscoverRepositories { project_root: b"/projects".to_vec() },
        ]
    );
}

#[test]
fn poll_with_applies_received_events_in_order_or_escalates() {
    let (_sender, mut queue) = git_watch_channel(&plan(), options(8, 8)).unwrap();
    let events = vec![
        event(GitWatchEventKind::Change, "/workspace/b/.git/HEAD", START),
        event(GitWatchEventKind::Change, "/workspace/a/.git/HEAD", START + 10 * MS),
    ];
    assert_eq!(queue.poll_with(START + 505 * MS, false, events), vec![reconcile("repo-b")]);
    assert_eq!(queue.poll_with(START + 510 * MS, false, vec![]), vec![reconcile("repo-a")]);

    let events = vec![
        event(GitWatchEventKind::Change, "/workspace/a/.git/HEAD", START),
        GitWatchEvent { kind: GitWatchEventKind::Rescan, paths: vec![], observed_at: START },
        event(GitWatchEventKind::Change, "/workspace/b/.git/HEAD", START),
    ];
    assert_eq!(queue.poll_with(START + 600 * MS, false, events), vec![GitWatchAction::FullReconcile]);
    assert_eq!(queue.pending_repository_count(), 0);

    let events = vec![event(GitWatchEventKind::Change, "/workspace/a/.git/HEAD", START)];
    assert_eq!(queue.poll_with(START + 600 * MS, true, events), vec![GitWatchAction::FullReconcile]);
    assert!(queue.poll_with(START + 2_000 * MS, false, vec![]).is_empty());
}

#[test]
fn poll_with_escalates_when_the_pending_limit_is_reached() {
    let (_sender, mut queue) = git_watch_channel(&plan(), options(8, 1)).unwrap();
    let events = vec![
        event(GitWatchEventKind::Change, "/workspace/a/.git/HEAD", START),
        event(GitWatchEventKind::Change, "/workspace/b/.git/HEAD", START),
    ];
    assert_eq!(queue.poll_with(START + 600 * MS, false, events), vec![GitWatchAction::FullReconcile]);
    assert!(queue.poll_with(START + 2_000 * MS, false, vec![]).is_empty());
}

#[test]
fn send_outcomes_map_to_enqueue_results() {
    assert_eq!(enqueue_result(SendOutcome::Sent), WatchEnqueueResult::Queued);
    assert_eq!(enqueue_result(SendOutcome::Full), WatchEnqueueResult::OverflowSignaled);
    assert_eq!(enqueue_result(SendOutcome::Closed), WatchEnqueueResult::Closed);
    let (sender, queue) = git_watch_channel(&plan(), options(1, 8)).unwrap();
    assert_eq!(sender.try_send(event(GitWatchEventKind::Change, "/workspace/a/.git/HEAD", START)), WatchEnqueueResult::Queued);
    assert_eq!(
        sender.try_send(event(GitWatchEventKind::Change, "/workspace/a/.git/HEAD", START)),
        WatchEnqueueResult::OverflowSignaled
    );
    drop(queue);
    assert_eq!(sender.try_send(event(GitWatchEventKind::Change, "/workspace/a/.git/HEAD", START)), WatchEnqueueResult::Closed);
}

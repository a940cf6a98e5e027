use observatory::git_observer::watcher::{
    plan_watch_set, RepositoryWatchInput, WatchPlanErrorKind, WatchPlannerOptions, WorktreeWatchInput,
};
use std::collections::BTreeSet;

const ROOT: &str = "/tmp/watch-fixture";

fn p(s: &str) -> Vec<u8> {
    s.as_bytes().to_vec()
}

fn join(base: &str, name: &str) -> String {
    format!("{base}/{name}")
}

struct Fixture {
    root: String,
    repository: String,
    common: String,
    linked: String,
    linked_control: String,
    detached: String,
    detached_control: String,
}

fn fixture() -> Fixture {
    let root = ROOT.to_string();
    let repository = join(&root, "repo");
    let common = join(&repository, ".git");
    Fixture {
        linked: join(&root, "linked"),
        detached: join(&root, "detached"),
        linked_control: join(&common, "worktrees/linked"),
        detached_control: join(&common, "worktrees/detached"),
        root,
        repository,
        common,
    }
}

impl Fixture {
    fn repository_input(&self) -> RepositoryWatchInput {
        RepositoryWatchInput {
            repository_key: "repo-key".to_string(),
            common_git_dir: p(&self.common),
            worktrees: vec![
                WorktreeWatchInput { worktree_path: p(&self.repository), control_dir: p(&self.common) },
                WorktreeWatchInput { worktree_path: p(&self.linked), control_dir: p(&self.linked_control) },
                WorktreeWatchInput { worktree_path: p(&self.detached), control_dir: p(&self.detached_control) },
            ],
        }
    }

    fn expected_paths(&self) -> BTreeSet<Vec<u8>> {
        [
            self.root.clone(),
            self.common.clone(),
            join(&self.common, "HEAD"),
            join(&self.common, "index"),
            join(&self.common, "packed-refs"),
            join(&self.common, "refs"),
            join(&self.common, "worktrees"),
            self.linked_control.clone(),
            join(&self.linked_control, "HEAD"),
            join(&self.linked_control, "index"),
            self.detached_control.clone(),
            join(&self.detached_control, "HEAD"),
            join(&self.detached_control, "index"),
        ]
        .iter()
        .map(|s| p(s))
        .collect()
    }
}

fn options(max_paths: usize) -> WatchPlannerOptions {
    WatchPlannerOptions { max_paths }
}

#[test]
fn planner_returns_only_project_roots_and_git_control_paths() {
    let fixture = fixture();
    let plan = plan_watch_set(&[p(&fixture.root)], &[fixture.repository_input()], options(64)).unwrap();

    assert_eq!(
        plan.targets.iter().map(|target| target.path.clone()).collect::<BTreeSet<_>>(),
        fixture.expected_paths()
    );
    assert_eq!(plan.targets.len(), 13);
    assert!(plan.targets.windows(2).all(|pair| {
        let a: Vec<&[u8]> = pair[0].path.split(|b| *b == b'/').filter(|s| !s.is_empty()).collect();
        let b: Vec<&[u8]> = pair[1].path.split(|b| *b == b'/').filter(|s| !s.is_empty()).collect();
        a < b
    }));

    let root = plan.targets.iter().find(|target| target.path == p(&fixture.root)).unwrap();
    assert!(root.discovers_repositories);
    assert!(root.repository_keys.is_empty());

    let common = plan.targets.iter().find(|target| target.path == p(&fixture.common)).unwrap();
    assert!(!common.discovers_repositories);
    assert_eq!(common.repository_keys, vec!["repo-key"]);

    assert!(plan.targets.iter().all(|target| {
        target.path == p(&fixture.root) || target.path.starts_with(fixture.common.as_bytes())
    }));
    let source = join(&fixture.repository, "src");
    assert!(!plan.targets.iter().any(|target| target.path.starts_with(source.as_bytes())));
}

#[test]
fn planner_is_deterministic_deduplicated_and_hard_capped() {
    let fixture = fixture();
    let forward = fixture.repository_input();
    let mut reversed = fixture.repository_input();
    reversed.worktrees.reverse();

    let first = plan_watch_set(&[p(&fixture.root), p(&fixture.root)], &[forward], options(13)).unwrap();
    let second = plan_watch_set(&[p(&fixture.root), p(&fixture.root)], &[reversed], options(13)).unwrap();
    assert_eq!(first, second);
    assert_eq!(first.targets.len(), 13);

    let error = plan_watch_set(&[p(&fixture.root)], &[fixture.repository_input()], options(12)).unwrap_err();
    assert_eq!(error.kind, WatchPlanErrorKind::PathLimitReached { limit: 12, observed: 13 });
    assert!(error.to_string().len() < 160);
}

#[test]
fn canonical_and_containment_rules_reject_unsafe_inputs() {
    let fixture = fixture();

    let error = plan_watch_set(&[p("relative/root")], &[fixture.repository_input()], options(64)).unwrap_err();
    assert_eq!(error.kind, WatchPlanErrorKind::NonCanonicalPath("project_root"));

    let error =
        plan_watch_set(&[p(&join(&fixture.root, "repo/../repo"))], &[fixture.repository_input()], options(64))
            .unwrap_err();
    assert_eq!(error.kind, WatchPlanErrorKind::NonCanonicalPath("project_root"));

    let outside_path = p("/tmp/outside-fixture");
    let mut outside_worktree = fixture.repository_input();
    outside_worktree.worktrees[1].worktree_path = outside_path.clone();
    let error = plan_watch_set(&[p(&fixture.root)], &[outside_worktree], options(64)).unwrap_err();
    assert_eq!(error.kind, WatchPlanErrorKind::WorktreeOutsideProjectRoots);

    let mut outside_control = fixture.repository_input();
    outside_control.worktrees[1].control_dir = outside_path;
    let error = plan_watch_set(&[p(&fixture.root)], &[outside_control], options(64)).unwrap_err();
    assert_eq!(error.kind, WatchPlanErrorKind::ControlDirectoryOutsideCommonGitDir);

    let mut blank_key = fixture.repository_input();
    blank_key.repository_key = " ".to_string();
    let error = plan_watch_set(&[p(&fixture.root)], &[blank_key], options(64)).unwrap_err();
    assert_eq!(error.kind, WatchPlanErrorKind::EmptyRepositoryKey);
}

#[test]
fn duplicate_repository_keys_and_zero_caps_are_rejected() {
    let fixture = fixture();
    let input = fixture.repository_input();
    let error = plan_watch_set(&[p(&fixture.root)], &[input.clone(), input], options(64)).unwrap_err();
    assert_eq!(error.kind, WatchPlanErrorKind::DuplicateRepositoryKey);

    let error = plan_watch_set(&[p(&fixture.root)], &[fixture.repository_input()], options(0)).unwrap_err();
    assert_eq!(error.kind, WatchPlanErrorKind::InvalidMaxPaths);
}

#[test]
fn plan_error_messages_name_the_rule() {
    let fixture = fixture();
    let error = plan_watch_set(&[p(&fixture.root)], &[fixture.repository_input()], options(12)).unwrap_err();
    assert_eq!(error.to_string(), "Git watch plan: watch path count 13 exceeds limit 12");
    let error = plan_watch_set(&[p("relative/root")], &[fixture.repository_input()], options(64)).unwrap_err();
    assert_eq!(error.worktree_index, Some(0));
    assert_eq!(error.repository_index, None);
    assert_eq!(error.to_string(), "Git watch plan: project_root is not canonical");
    let error = plan_watch_set(&[], &[fixture.repository_input()], options(64)).unwrap_err();
    assert_eq!(error.kind, WatchPlanErrorKind::NoProjectRoots);
    assert_eq!(error.kind.to_string(), "at least one project root is required");
}

#[test]
fn worktree_errors_carry_both_indices() {
    let fixture = fixture();
    let mut input = fixture.repository_input();
    input.worktrees[2].control_dir = p(&join(&fixture.common, "worktrees"));
    let error = plan_watch_set(&[p(&fixture.root)], &[input], options(64)).unwrap_err();
    assert_eq!(error.repository_index, Some(0));
    assert_eq!(error.worktree_index, Some(2));
    assert_eq!(error.kind, WatchPlanErrorKind::ControlDirectoryOutsideCommonGitDir);
}

#[test]
fn repository_keys_are_trimmed_and_merged_per_path() {
    let fixture = fixture();
    let mut first = fixture.repository_input();
    first.repository_key = "  beta ".to_string();
    first.worktrees.clear();
    let mut second = fixture.repository_input();
    second.repository_key = "alpha".to_string();
    second.worktrees.clear();
    let plan = plan_watch_set(&[p(&fixture.root)], &[first, second], options(64)).unwrap();
    let common = plan.targets.iter().find(|target| target.path == p(&fixture.common)).unwrap();
    assert_eq!(common.repository_keys, vec!["alpha".to_string(), "beta".to_string()]);
    assert_eq!(plan.targets.len(), 7);
}

#[test]
fn reordered_roots_and_repeated_worktrees_plan_the_same_targets() {
    let fixture = fixture();
    let other_root = "/tmp/other-fixture";
    let original = plan_watch_set(
        &[p(&fixture.root), p(other_root)],
        &[fixture.repository_input()],
        options(64),
    )
    .unwrap();
    let mut shuffled = fixture.repository_input();
    shuffled.worktrees.rotate_left(1);
    let repeated = shuffled.worktrees[0].clone();
    shuffled.worktrees.push(repeated);
    let reordered = plan_watch_set(
        &[p(other_root), p(&fixture.root), p(other_root)],
        &[shuffled],
        options(64),
    )
    .unwrap();
    assert_eq!(original, reordered);
    assert_eq!(original.targets.len(), 14);
}

use observatory::sha256::sha256_hex;
use observatory::git_observer::porcelain::WorktreeRecord;
use observatory::git_observer::porcelain_status::StatusSummary;
use observatory::git_observer::reconcile_commits::{
    hex, is_ancestor_command, is_ancestor_result, rev_list_command, rev_list_shas, transitions, CommitTransition,
    CurrentWorktree, PreviousWorktree,
};
use observatory::git_observer::reconcile_support::{
    canonical_or_prunable, count, display_name, git_args, optional_divergence_output, parse_branch_name,
    required_command_output, strict_utf8, valid_object_id, validate_snapshot_consistency, GitCommandResult,
    ReconcileStage, ReconcileWarningKind,
};
use observatory::git_observer::reconcile_support::{worktree_status, WorktreeStatus};

const OLD: &str = "1111111111111111111111111111111111111111";
const NEW: &str = "2222222222222222222222222222222222222222";

fn output(status: Option<i32>, stdout: &str, truncated: bool) -> GitCommandResult {
    GitCommandResult {
        status,
        stdout: stdout.to_string(),
        stdout_bytes: stdout.as_bytes().to_vec(),
        truncated,
    }
}

fn transition() -> CommitTransition {
    CommitTransition { path: b"/repo".to_vec(), old_sha: OLD.to_string(), new_sha: NEW.to_string() }
}

fn strings(v: &[&str]) -> Vec<String> {
    v.iter().map(|s| s.to_string()).collect()
}

fn record(head: Option<&str>, detached: bool) -> WorktreeRecord {
    WorktreeRecord {
        path: b"/repo".to_vec(),
        head: head.map(str::to_string),
        branch: None,
        detached,
        bare: false,
        locked: false,
        lock_reason: None,
        prunable: false,
        prune_reason: None,
        unknown_fields: Vec::new(),
    }
}

fn status(oid: Option<&str>, branch: Option<&[u8]>, detached: bool) -> StatusSummary {
    StatusSummary {
        branch_oid: oid.map(str::to_string),
        branch_head: branch.map(<[u8]>::to_vec),
        detached,
        initial: false,
        upstream: None,
        ahead: None,
        behind: None,
        staged_count: 0,
        unstaged_count: 0,
        untracked_count: 0,
        conflicted_count: 0,
        tracked_record_count: 0,
        rename_or_copy_count: 0,
        ignored_count: 0,
        unknown_header_count: 0,
    }
}

#[test]
fn required_command_output_checks_truncation_then_status() {
    let ok = required_command_output(ReconcileStage::Head, b"/repo", &output(Some(0), "abc\n", false));
    assert_eq!(ok.unwrap(), "abc\n");
    let cut = required_command_output(ReconcileStage::Head, b"/repo", &output(Some(0), "abc", true)).unwrap_err();
    assert_eq!(cut.kind, ReconcileWarningKind::OutputTruncated);
    assert_eq!(cut.stage, ReconcileStage::Head);
    assert_eq!(cut.path, b"/repo".to_vec());
    let failed = required_command_output(ReconcileStage::Status, b"/repo", &output(Some(128), "", false)).unwrap_err();
    assert_eq!(failed.kind, ReconcileWarningKind::CommandFailed { status: Some(128) });
    let killed = required_command_output(ReconcileStage::Status, b"/repo", &output(None, "", false)).unwrap_err();
    assert_eq!(killed.kind, ReconcileWarningKind::CommandFailed { status: None });
}

#[test]
fn divergence_output_parses_behind_then_ahead() {
    assert_eq!(optional_divergence_output(b"/r", &output(Some(0), "3\t5\n", false)).unwrap(), Some((5, 3)));
    assert_eq!(optional_divergence_output(b"/r", &output(Some(0), "  0 0  ", false)).unwrap(), Some((0, 0)));
    assert_eq!(optional_divergence_output(b"/r", &output(Some(128), "fatal: no upstream", false)).unwrap(), None);
    let cut = optional_divergence_output(b"/r", &output(Some(0), "1 2", true)).unwrap_err();
    assert_eq!(cut.kind, ReconcileWarningKind::OutputTruncated);
    assert_eq!(cut.stage, ReconcileStage::Divergence);
    for bad in ["1", "1 2 3", "-1 2", "1 x", "+-1 2", "99999999999999999999 1", ""] {
        let w = optional_divergence_output(b"/r", &output(Some(0), bad, false)).unwrap_err();
        assert_eq!(w.kind, ReconcileWarningKind::ParseFailed, "{bad:?}");
    }
    assert_eq!(optional_divergence_output(b"/r", &output(Some(0), "+7\u{3000}-0", false)).unwrap(), Some((0, 7)));
}

#[test]
fn canonical_or_prunable_prefers_the_canonical_path() {
    assert_eq!(canonical_or_prunable(b"/a/../b", Some(b"/b".to_vec()), false).unwrap(), b"/b".to_vec());
    assert_eq!(canonical_or_prunable(b"/gone/wt", None, true).unwrap(), b"/gone/wt".to_vec());
    let w = canonical_or_prunable(b"/gone/../wt", None, true).unwrap_err();
    assert_eq!(w.stage, ReconcileStage::WorktreePath);
    assert_eq!(w.kind, ReconcileWarningKind::ExecutionFailed);
    assert!(canonical_or_prunable(b"relative/wt", None, true).is_err());
    assert!(canonical_or_prunable(b"/gone/wt", None, false).is_err());
}

#[test]
fn ancestor_probe_reads_exit_status() {
    let args = is_ancestor_command(&transition()).unwrap();
    assert_eq!(args, strings(&["-C", "/repo", "merge-base", "--is-ancestor", OLD, NEW]));
    assert_eq!(is_ancestor_result(&transition(), &output(Some(0), "", false)).unwrap(), true);
    assert_eq!(is_ancestor_result(&transition(), &output(Some(1), "", false)).unwrap(), false);
    let w = is_ancestor_result(&transition(), &output(Some(2), "", false)).unwrap_err();
    assert_eq!(w.kind, ReconcileWarningKind::CommandFailed { status: Some(2) });
    assert_eq!(w.stage, ReconcileStage::CommitTraversal);
    let w = is_ancestor_result(&transition(), &output(Some(0), "", true)).unwrap_err();
    assert_eq!(w.kind, ReconcileWarningKind::OutputTruncated);
}

#[test]
fn rev_list_command_probes_one_past_the_limit() {
    let args = rev_list_command(&transition(), 100).unwrap();
    let range = format!("{OLD}..{NEW}");
    assert_eq!(args, strings(&["-C", "/repo", "rev-list", "--reverse", "--max-count=101", &range]));
    let w = rev_list_command(&transition(), usize::MAX).unwrap_err();
    assert_eq!(w.kind, ReconcileWarningKind::CommitLimitReached { limit: usize::MAX });
    let mut bad = transition();
    bad.path = vec![0xff, b'/'];
    assert_eq!(rev_list_command(&bad, 1).unwrap_err().kind, ReconcileWarningKind::InvalidUtf8);
}

#[test]
fn rev_list_shas_validates_every_line_and_the_cap() {
    let text = format!("{OLD}\n\n{NEW}\n");
    assert_eq!(rev_list_shas(&transition(), 2, &output(Some(0), &text, false)).unwrap(), strings(&[OLD, NEW]));
    let over = rev_list_shas(&transition(), 1, &output(Some(0), &text, false)).unwrap_err();
    assert_eq!(over.kind, ReconcileWarningKind::CommitLimitReached { limit: 1 });
    let garbage = format!("{OLD}\nnot-a-sha\n{NEW}\n");
    let w = rev_list_shas(&transition(), 1, &output(Some(0), &garbage, false)).unwrap_err();
    assert_eq!(w.kind, ReconcileWarningKind::ParseFailed);
    assert_eq!(rev_list_shas(&transition(), 0, &output(Some(0), "", false)).unwrap(), Vec::<String>::new());
    let w = rev_list_shas(&transition(), 5, &output(Some(129), "", false)).unwrap_err();
    assert_eq!(w.kind, ReconcileWarningKind::CommandFailed { status: Some(129) });
}

#[test]
fn transitions_list_only_live_worktrees_whose_head_moved() {
    let previous = vec![
        PreviousWorktree { worktree_key: "a".into(), head_sha: Some(OLD.into()), removed: false },
        PreviousWorktree { worktree_key: "b".into(), head_sha: Some(OLD.into()), removed: true },
        PreviousWorktree { worktree_key: "c".into(), head_sha: Some(OLD.into()), removed: false },
        PreviousWorktree { worktree_key: "d".into(), head_sha: None, removed: false },
        PreviousWorktree { worktree_key: "a".into(), head_sha: Some("0".repeat(40)), removed: false },
    ];
    let current = vec![
        CurrentWorktree { worktree_key: "a".into(), path: "/wt/a".into(), head_sha: Some(NEW.into()) },
        CurrentWorktree { worktree_key: "b".into(), path: "/wt/b".into(), head_sha: Some(NEW.into()) },
        CurrentWorktree { worktree_key: "c".into(), path: "/wt/c".into(), head_sha: Some(OLD.into()) },
        CurrentWorktree { worktree_key: "d".into(), path: "/wt/d".into(), head_sha: Some(NEW.into()) },
        CurrentWorktree { worktree_key: "e".into(), path: "/wt/e".into(), head_sha: Some(NEW.into()) },
    ];
    let moved = transitions(&previous, &current);
    assert_eq!(
        moved,
        vec![CommitTransition { path: b"/wt/a".to_vec(), old_sha: "0".repeat(40), new_sha: NEW.to_string() }]
    );
}

#[test]
fn hex_spells_bytes_in_lower_case_pairs() {
    assert_eq!(hex(&[0x00, 0x0f, 0xa5, 0xff]), "000fa5ff");
    assert_eq!(hex(b""), "");
}

#[test]
fn support_helpers_follow_the_reconcile_rules() {
    assert!(valid_object_id(OLD.as_bytes()));
    assert!(!valid_object_id(b"123"));
    assert_eq!(strict_utf8(b"main", ReconcileStage::Branch, b"/r").unwrap(), "main");
    assert_eq!(strict_utf8(&[0xff], ReconcileStage::Branch, b"/r").unwrap_err().kind, ReconcileWarningKind::InvalidUtf8);
    assert_eq!(parse_branch_name("  feature/x \n"), Some("feature/x".to_string()));
    assert_eq!(parse_branch_name("HEAD\n"), None);
    assert_eq!(parse_branch_name("   "), None);
    assert_eq!(display_name(b"/home/me/project"), "project");
    assert_eq!(display_name(b"/"), "repository");
    assert_eq!(count(7, b"/r"), Ok(7));
    assert_eq!(count(u64::MAX, b"/r").unwrap_err().kind, ReconcileWarningKind::ParseFailed);
    let args = git_args(b"/r", &strings(&["status"])).unwrap();
    assert_eq!(args, strings(&["-C", "/r", "status"]));
}

#[test]
fn snapshot_consistency_names_the_disagreeing_stage() {
    let ok = validate_snapshot_consistency(
        &record(Some(OLD), false),
        &status(Some(OLD), Some(b"main"), false),
        OLD,
        Some("main"),
        b"/r",
    );
    assert!(ok.is_ok());
    let head = validate_snapshot_consistency(
        &record(Some(NEW), false),
        &status(Some(OLD), Some(b"main"), false),
        OLD,
        Some("main"),
        b"/r",
    )
    .unwrap_err();
    assert_eq!(head.stage, ReconcileStage::Head);
    assert_eq!(head.kind, ReconcileWarningKind::SnapshotChanged);
    let branch = validate_snapshot_consistency(
        &record(Some(OLD), false),
        &status(Some(OLD), Some(b"other"), false),
        OLD,
        Some("main"),
        b"/r",
    )
    .unwrap_err();
    assert_eq!(branch.stage, ReconcileStage::Branch);
    let detached = validate_snapshot_consistency(
        &record(Some(OLD), true),
        &status(Some(OLD), None, false),
        OLD,
        Some("main"),
        b"/r",
    )
    .unwrap_err();
    assert_eq!(detached.stage, ReconcileStage::Branch);
}

#[test]
fn sha256_hex_matches_known_digests() {
    assert_eq!(sha256_hex(b""), "e3b0c44298fc1c149afbf4c8996fb92427ae41e4649b934ca495991b7852b855");
    assert_eq!(sha256_hex(b"abc"), "ba7816bf8f01cfea414140de5dae2223b00361a396177a9cb410ff61f20015ad");
}

fn counted_status(ahead: Option<u64>, behind: Option<u64>, staged: u64, conflicted: u64) -> StatusSummary {
    StatusSummary {
        branch_oid: None,
        branch_head: None,
        detached: false,
        initial: false,
        upstream: None,
        ahead,
        behind,
        staged_count: staged,
        unstaged_count: 0,
        untracked_count: 0,
        conflicted_count: conflicted,
        tracked_record_count: 0,
        rename_or_copy_count: 0,
        ignored_count: 0,
        unknown_header_count: 0,
    }
}

#[test]
fn worktree_status_records_counts_divergence_and_dirtiness() {
    let status = counted_status(Some(2), Some(0), 0, 1);
    assert_eq!(
        worktree_status(&status, Some((2, 0)), b"/w"),
        Ok(WorktreeStatus { ahead: Some(2), behind: Some(0), dirty: true, staged_count: 0, unstaged_count: 0, untracked_count: 0 })
    );
    let clean = counted_status(None, None, 0, 0);
    assert_eq!(
        worktree_status(&clean, None, b"/w"),
        Ok(WorktreeStatus { ahead: None, behind: None, dirty: false, staged_count: 0, unstaged_count: 0, untracked_count: 0 })
    );
    let changed = worktree_status(&status, Some((3, 0)), b"/w").unwrap_err();
    assert_eq!(changed.stage, ReconcileStage::Divergence);
    assert_eq!(changed.kind, ReconcileWarningKind::SnapshotChanged);
    assert_eq!(changed.path, b"/w".to_vec());
    let huge = worktree_status(&counted_status(None, None, u64::MAX, 0), None, b"/w").unwrap_err();
    assert_eq!(huge.stage, ReconcileStage::Status);
    assert_eq!(huge.kind, ReconcileWarningKind::ParseFailed);
}

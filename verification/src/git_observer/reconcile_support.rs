//! Support for one-repository reconciliation: warnings, what a Git command's result
//! means, branch names, display names and snapshot consistency.

use vstd::prelude::*;
use vstd::string::StringSliceAdditionalSpecFns;
use vstd::utf8::{decode_utf8, valid_utf8};

use crate::bytes::{copy_range, object_id, string_from_utf8, is_object_id};
use crate::git_observer::porcelain::WorktreeRecord;
use crate::git_observer::porcelain_status::{StatusSummary, SummaryView};
use crate::decimal::{parse_i64_chars, parse_i64_text};
use crate::paths::{canonical_absolute, is_canonical_absolute, path_segments, segments};
use crate::strings::{split_words, str_eq, trim_chars, trim_str, words};

verus! {

/// The reconciliation step a warning comes from.
#[derive(Debug, Clone, Copy, PartialEq, Eq, Structural)]
pub enum ReconcileStage {
    CommonDir,
    WorktreeList,
    Status,
    Head,
    Branch,
    Divergence,
    CommitTraversal,
    CommitMetadata,
    WorktreePath,
}

#[derive(Debug, Clone, PartialEq, Eq, Structural)]
pub enum ReconcileWarningKind {
    ExecutionFailed,
    CommandFailed { status: Option<i32> },
    OutputTruncated,
    ParseFailed,
    InvalidUtf8,
    SnapshotChanged,
    CommitLimitReached { limit: usize },
}

/// A reconciliation problem, with the step and the path it concerns.
#[derive(Debug, Clone, PartialEq, Eq)]
pub struct ReconcileWarning {
    pub stage: ReconcileStage,
    pub path: Vec<u8>,
    pub kind: ReconcileWarningKind,
}

/// The warning for `stage` at `path`.
pub fn warning(stage: ReconcileStage, path: &[u8], kind: ReconcileWarningKind) -> (w: ReconcileWarning)
    ensures
        w.stage == stage,
        w.path@ == path@,
        w.kind == kind,
{
    ReconcileWarning { stage, path: copy_range(path, 0, path.len()), kind }
}

/// A 40- or 64-digit hexadecimal object id.
pub fn valid_object_id(value: &[u8]) -> (r: bool)
    ensures
        r == is_object_id(value@),
{
    object_id(value)
}

/// The bytes as text, or an invalid-UTF-8 warning for `stage` at `path`.
pub fn strict_utf8(bytes: &[u8], stage: ReconcileStage, path: &[u8]) -> (r: Result<String, ReconcileWarning>)
    ensures
        match r {
            Ok(s) => valid_utf8(bytes@) && s@ == decode_utf8(bytes@),
            Err(w) => !valid_utf8(bytes@) && w.stage == stage && w.path@ == path@ && w.kind == ReconcileWarningKind::InvalidUtf8,
        },
{
    match string_from_utf8(copy_range(bytes, 0, bytes.len())) {
        Some(s) => {
            assert(bytes@.subrange(0, bytes@.len() as int) =~= bytes@);
            Ok(s)
        },
        None => {
            assert(bytes@.subrange(0, bytes@.len() as int) =~= bytes@);
            Err(warning(stage, path, ReconcileWarningKind::InvalidUtf8))
        },
    }
}

/// A branch name from `git branch --show-current`-style output: trimmed, and absent
/// when empty or `HEAD`.
pub fn parse_branch_name(value: &str) -> (r: Option<String>)
    ensures
        match r {
            Some(s) => s@ == trim_chars(value@) && s@ != "HEAD"@ && s@.len() > 0,
            None => trim_chars(value@) == "HEAD"@ || trim_chars(value@).len() == 0,
        },
{
    let trimmed = trim_str(value);
    if !str_eq(trimmed, "HEAD") && !trimmed.is_empty() {
        Some(trimmed.to_owned())
    } else {
        None
    }
}

/// The path's file name when it is text, else `repository`.
pub open spec fn display_name_spec(path: Seq<u8>) -> Seq<char> {
    let segs = segments(path);
    if segs.len() > 0 && segs.last() != seq![46u8, 46u8] && valid_utf8(segs.last()) && segs.last().len() > 0 {
        decode_utf8(segs.last())
    } else {
        "repository"@
    }
}

/// A human name for a repository at `path`.
pub fn display_name(path: &[u8]) -> (r: String)
    ensures
        r@ == display_name_spec(path@),
{
    let segs = path_segments(path);
    if segs.len() > 0 {
        let last = &segs[segs.len() - 1];
        assert(crate::bytes::views(segs@).last() == last@);
        let dot_dot: [u8; 2] = [46u8, 46u8];
        assert(dot_dot@ == seq![46u8, 46u8]);
        if !crate::bytes::eq_bytes(last.as_slice(), &dot_dot) && last.len() > 0 {
            match string_from_utf8(last.clone()) {
                Some(name) => {
                    return name;
                },
                None => {},
            }
        }
    }
    "repository".to_owned()
}

/// `value` as an SQLite `INTEGER`, or a status parse warning at `path`.
pub fn count(value: u64, path: &[u8]) -> (r: Result<i64, ReconcileWarning>)
    ensures
        value <= i64::MAX ==> r == Ok::<i64, ReconcileWarning>(value as i64),
        value > i64::MAX ==> (r matches Err(w) && w.stage == ReconcileStage::Status && w.path@ == path@
            && w.kind == ReconcileWarningKind::ParseFailed),
{
    if value <= 9223372036854775807u64 {
        Ok(value as i64)
    } else {
        Err(warning(ReconcileStage::Status, path, ReconcileWarningKind::ParseFailed))
    }
}

/// `-C <path>` followed by the command, when the path is text.
pub fn git_args(path: &[u8], command: &Vec<String>) -> (r: Result<Vec<String>, ReconcileWarning>)
    ensures
        match r {
            Ok(args) => valid_utf8(path@) && args@.len() == command@.len() + 2 && args@[0]@ == "-C"@
                && args@[1]@ == decode_utf8(path@)
                && forall|i: int| 0 <= i < command@.len() ==> #[trigger] args@[i + 2]@ == command@[i]@,
            Err(w) => !valid_utf8(path@) && w.stage == ReconcileStage::CommitTraversal && w.path@ == path@
                && w.kind == ReconcileWarningKind::InvalidUtf8,
        },
{
    let text = match strict_utf8(path, ReconcileStage::CommitTraversal, path) {
        Ok(s) => s,
        Err(w) => {
            return Err(w);
        },
    };
    let mut args: Vec<String> = Vec::new();
    args.push("-C".to_owned());
    args.push(text);
    let mut i: usize = 0;
    while i < command.len()
        invariant
            i <= command.len(),
            args@.len() == i + 2,
            args@[0]@ == "-C"@,
            args@[1]@ == decode_utf8(path@),
            forall|j: int| 0 <= j < i ==> #[trigger] args@[j + 2]@ == command@[j]@,
        decreases command.len() - i,
    {
        args.push(command[i].clone());
        i += 1;
    }
    Ok(args)
}

/// The worktree's porcelain record, its status and the `HEAD` and branch read
/// separately all describe one snapshot.
pub open spec fn snapshot_check(
    record_head: Option<Seq<char>>,
    record_detached: bool,
    status_oid: Option<Seq<char>>,
    status_detached: bool,
    status_branch: Option<Seq<u8>>,
    head: Seq<char>,
    branch: Option<Seq<char>>,
) -> Option<ReconcileStage> {
    if (record_head matches Some(v) && v != head) || (status_oid matches Some(v) && v != head) {
        Some(ReconcileStage::Head)
    } else if status_detached != record_detached || status_detached != (branch is None) {
        Some(ReconcileStage::Branch)
    } else {
        match (status_branch, branch) {
            (Some(b), Some(n)) => if valid_utf8(b) && decode_utf8(b) != n {
                Some(ReconcileStage::Branch)
            } else {
                None
            },
            _ => None,
        }
    }
}

fn opt_str_differs(value: &Option<String>, head: &str) -> (r: bool)
    ensures
        r == (value matches Some(v) && v@ != head@),
{
    match value {
        Some(v) => !str_eq(v.as_str(), head),
        None => false,
    }
}

/// Reject a snapshot whose parts disagree: the `SnapshotChanged` warning names the
/// `HEAD` or branch stage that disagreed.
pub fn validate_snapshot_consistency(
    record: &WorktreeRecord,
    status: &StatusSummary,
    head: &str,
    branch_name: Option<&str>,
    path: &[u8],
) -> (r: Result<(), ReconcileWarning>)
    ensures
        match snapshot_check(
            match record.head { Some(h) => Some(h@), None => None },
            record.detached,
            match status.branch_oid { Some(o) => Some(o@), None => None },
            status.detached,
            match status.branch_head { Some(b) => Some(b@), None => None },
            head@,
            match branch_name { Some(b) => Some(b@), None => None },
        ) {
            None => r is Ok,
            Some(stage) => r matches Err(w) && w.stage == stage && w.path@ == path@
                && w.kind == ReconcileWarningKind::SnapshotChanged,
        },
{
    if opt_str_differs(&record.head, head) || opt_str_differs(&status.branch_oid, head) {
        return Err(warning(ReconcileStage::Head, path, ReconcileWarningKind::SnapshotChanged));
    }
    if status.detached != record.detached || status.detached != branch_name.is_none() {
        return Err(warning(ReconcileStage::Branch, path, ReconcileWarningKind::SnapshotChanged));
    }
    match (&status.branch_head, branch_name) {
        (Some(bytes), Some(branch)) => {
            match string_from_utf8(bytes.clone()) {
                Some(status_branch) => {
                    if !str_eq(status_branch.as_str(), branch) {
                        return Err(warning(ReconcileStage::Branch, path, ReconcileWarningKind::SnapshotChanged));
                    }
                },
                None => {},
            }
        },
        _ => {},
    }
    Ok(())
}


/// What a Git command run gave back: its exit status (absent when it was killed), its
/// standard output as text and as bytes, and whether the output was cut at the cap.
#[derive(Debug, Clone)]
pub struct GitCommandResult {
    pub status: Option<i32>,
    pub stdout: String,
    pub stdout_bytes: Vec<u8>,
    pub truncated: bool,
}

/// The standard output of a command that must succeed: a truncated output or a
/// status other than 0 is a warning for `stage` at `path`.
pub fn required_command_output(stage: ReconcileStage, path: &[u8], output: &GitCommandResult) -> (r: Result<String, ReconcileWarning>)
    ensures
        output.truncated ==> (r matches Err(w) && w.stage == stage && w.path@ == path@
            && w.kind == ReconcileWarningKind::OutputTruncated),
        !output.truncated && output.status != Some(0i32) ==> (r matches Err(w) && w.stage == stage
            && w.path@ == path@ && w.kind == (ReconcileWarningKind::CommandFailed { status: output.status })),
        !output.truncated && output.status == Some(0i32) ==> (r matches Ok(s) && s@ == output.stdout@),
{
    if output.truncated {
        return Err(warning(stage, path, ReconcileWarningKind::OutputTruncated));
    }
    match output.status {
        Some(code) => {
            if code == 0 {
                return Ok(output.stdout.clone());
            }
        },
        None => {},
    }
    Err(warning(stage, path, ReconcileWarningKind::CommandFailed { status: output.status }))
}

/// `git rev-list --left-right --count` output: two words, behind then ahead, both
/// non-negative `i64`s; the result is `(ahead, behind)`.
pub open spec fn divergence_counts(stdout: Seq<char>) -> Option<(int, int)> {
    let w = words(stdout);
    if w.len() != 2 {
        None
    } else {
        match (parse_i64_text(w[0]), parse_i64_text(w[1])) {
            (Some(behind), Some(ahead)) => if ahead < 0 || behind < 0 {
                None
            } else {
                Some((ahead, behind))
            },
            _ => None,
        }
    }
}

/// The divergence from the upstream that a `rev-list --left-right --count` run gave:
/// `None` when the command failed (no upstream), a warning when its output was cut or
/// is not two counts.
pub fn optional_divergence_output(path: &[u8], output: &GitCommandResult) -> (r: Result<Option<(i64, i64)>, ReconcileWarning>)
    ensures
        output.truncated ==> (r matches Err(w) && w.stage == ReconcileStage::Divergence && w.path@ == path@
            && w.kind == ReconcileWarningKind::OutputTruncated),
        !output.truncated && output.status != Some(0i32) ==> r == Ok::<Option<(i64, i64)>, ReconcileWarning>(None),
        !output.truncated && output.status == Some(0i32) ==> match divergence_counts(output.stdout@) {
            Some((ahead, behind)) => r matches Ok(Some((a, b))) && a == ahead && b == behind,
            None => r matches Err(w) && w.stage == ReconcileStage::Divergence && w.path@ == path@
                && w.kind == ReconcileWarningKind::ParseFailed,
        },
        r matches Ok(Some((ahead, behind))) ==> ahead >= 0 && behind >= 0,
{
    if output.truncated {
        return Err(warning(ReconcileStage::Divergence, path, ReconcileWarningKind::OutputTruncated));
    }
    let ok = match output.status {
        Some(code) => code == 0,
        None => false,
    };
    if !ok {
        return Ok(None);
    }
    let values = split_words(output.stdout.as_str());
    if values.len() != 2 {
        return Err(warning(ReconcileStage::Divergence, path, ReconcileWarningKind::ParseFailed));
    }
    let behind = match parse_i64_chars(&values[0]) {
        Some(v) => v,
        None => {
            return Err(warning(ReconcileStage::Divergence, path, ReconcileWarningKind::ParseFailed));
        },
    };
    let ahead = match parse_i64_chars(&values[1]) {
        Some(v) => v,
        None => {
            return Err(warning(ReconcileStage::Divergence, path, ReconcileWarningKind::ParseFailed));
        },
    };
    if ahead < 0 || behind < 0 {
        return Err(warning(ReconcileStage::Divergence, path, ReconcileWarningKind::ParseFailed));
    }
    Ok(Some((ahead, behind)))
}

/// A worktree path to record: its canonical form when the file system gave one;
/// else the path as written when Git marked the worktree prunable and the path is
/// absolute without `..`; else an execution warning.
pub fn canonical_or_prunable(path: &[u8], canonical: Option<Vec<u8>>, prunable: bool) -> (r: Result<Vec<u8>, ReconcileWarning>)
    ensures
        canonical matches Some(c) ==> r == Ok::<Vec<u8>, ReconcileWarning>(c),
        canonical is None && prunable && is_canonical_absolute(path@) ==> (r matches Ok(p) && p@ == path@),
        canonical is None && !(prunable && is_canonical_absolute(path@)) ==> (r matches Err(w)
            && w.stage == ReconcileStage::WorktreePath && w.path@ == path@
            && w.kind == ReconcileWarningKind::ExecutionFailed),
{
    match canonical {
        Some(c) => Ok(c),
        None => {
            if prunable && canonical_absolute(path) {
                Ok(copy_range(path, 0, path.len()))
            } else {
                Err(warning(ReconcileStage::WorktreePath, path, ReconcileWarningKind::ExecutionFailed))
            }
        },
    }
}

/// The counts and divergence a worktree row records.
#[derive(Debug, Clone, Copy, PartialEq, Eq, Structural)]
pub struct WorktreeStatus {
    pub ahead: Option<i64>,
    pub behind: Option<i64>,
    pub dirty: bool,
    pub staged_count: i64,
    pub unstaged_count: i64,
    pub untracked_count: i64,
}

/// The status counter `reported` disagrees with the count `counted` Git gave: it
/// is present and not that count.
pub open spec fn counter_disagrees(reported: Option<u64>, counted: i64) -> bool {
    reported matches Some(v) && v as int != counted as int
}

/// The status summary's `ahead`/`behind` disagree with the counted divergence.
pub open spec fn divergence_changed(status: SummaryView, divergence: Option<(i64, i64)>) -> bool {
    divergence matches Some((a, b)) && (counter_disagrees(status.ahead, a) || counter_disagrees(status.behind, b))
}

/// The worktree's recorded status from its parsed status and the divergence counted
/// against its upstream (if any): a divergence that disagrees with the status is a
/// snapshot that changed under the reconcile; a counter past `i64::MAX` is a parse
/// failure; otherwise the counts, the divergence, and whether anything is staged,
/// unstaged, untracked or conflicted.
pub open spec fn worktree_status_spec(status: SummaryView, divergence: Option<(i64, i64)>) -> Result<WorktreeStatus, (ReconcileStage, ReconcileWarningKind)> {
    if divergence_changed(status, divergence) {
        Err((ReconcileStage::Divergence, ReconcileWarningKind::SnapshotChanged))
    } else if status.staged_count > i64::MAX || status.unstaged_count > i64::MAX || status.untracked_count > i64::MAX {
        Err((ReconcileStage::Status, ReconcileWarningKind::ParseFailed))
    } else {
        Ok(WorktreeStatus {
            ahead: match divergence { Some((a, _)) => Some(a), None => None },
            behind: match divergence { Some((_, b)) => Some(b), None => None },
            dirty: status.staged_count > 0 || status.unstaged_count > 0 || status.untracked_count > 0
                || status.conflicted_count > 0,
            staged_count: status.staged_count as i64,
            unstaged_count: status.unstaged_count as i64,
            untracked_count: status.untracked_count as i64,
        })
    }
}

fn disagrees(reported: Option<u64>, counted: i64) -> (r: bool)
    ensures
        r == counter_disagrees(reported, counted),
{
    match reported {
        Some(v) => counted < 0 || v != counted as u64,
        None => false,
    }
}

/// The recorded status of the worktree at `path` (`worktree_status_spec`), with
/// each warning naming `path`.
pub fn worktree_status(status: &StatusSummary, divergence: Option<(i64, i64)>, path: &[u8]) -> (r: Result<WorktreeStatus, ReconcileWarning>)
    ensures
        match worktree_status_spec(status@, divergence) {
            Ok(w) => r == Ok::<WorktreeStatus, ReconcileWarning>(w),
            Err((stage, kind)) => r matches Err(w) && w.stage == stage && w.kind == kind && w.path@ == path@,
        },
{
    match divergence {
        Some((a, b)) => {
            if disagrees(status.ahead, a) || disagrees(status.behind, b) {
                return Err(warning(ReconcileStage::Divergence, path, ReconcileWarningKind::SnapshotChanged));
            }
        },
        None => {},
    }
    let staged_count = count(status.staged_count, path)?;
    let unstaged_count = count(status.unstaged_count, path)?;
    let untracked_count = count(status.untracked_count, path)?;
    let dirty = staged_count > 0 || unstaged_count > 0 || untracked_count > 0 || status.conflicted_count > 0;
    let (ahead, behind) = match divergence {
        Some((a, b)) => (Some(a), Some(b)),
        None => (None, None),
    };
    Ok(WorktreeStatus { ahead, behind, dirty, staged_count, unstaged_count, untracked_count })
}

} // verus!

//! Fast-forward commit planning: which worktrees moved, the Git commands that probe a
//! move, and what their output means.

use vstd::prelude::*;
use vstd::string::StringExecFns;
use vstd::string::StringSliceAdditionalSpecFns;
use vstd::utf8::{decode_utf8, encode_utf8, valid_utf8};

use crate::bytes::{ascii_chars, ascii_string, is_object_id, object_id, split_bytes, split_on, views, copy_range};
use crate::git_observer::reconcile_support::{
    git_args, warning, GitCommandResult, ReconcileStage, ReconcileWarning, ReconcileWarningKind,
};
use crate::message::{decimal_chars, push_decimal};
use crate::otlp::entries::{hex_encode, hex_string};
use crate::strings::str_eq;

use crate::strings::string_views;

verus! {

/// A worktree whose `HEAD` moved from `old_sha` to `new_sha` since the last pass.
#[derive(Debug, Clone, PartialEq, Eq)]
pub struct CommitTransition {
    pub path: Vec<u8>,
    pub old_sha: String,
    pub new_sha: String,
}

/// A worktree as the last pass stored it.
#[derive(Debug, Clone, PartialEq, Eq)]
pub struct PreviousWorktree {
    pub worktree_key: String,
    pub head_sha: Option<String>,
    pub removed: bool,
}

/// A worktree as this pass observed it.
#[derive(Debug, Clone, PartialEq, Eq)]
pub struct CurrentWorktree {
    pub worktree_key: String,
    pub path: String,
    pub head_sha: Option<String>,
}

/// `git -C <path>` followed by `command`, for a path that is text.
pub open spec fn git_command(path: Seq<u8>, command: Seq<Seq<char>>) -> Seq<Seq<char>> {
    seq!["-C"@, decode_utf8(path)] + command
}

/// `git merge-base --is-ancestor <old> <new>`.
pub open spec fn is_ancestor_spec(t: CommitTransition) -> Seq<Seq<char>> {
    seq!["merge-base"@, "--is-ancestor"@, t.old_sha@, t.new_sha@]
}

/// `git rev-list --reverse --max-count=<probe> <old>..<new>`.
pub open spec fn rev_list_spec(t: CommitTransition, probe: nat) -> Seq<Seq<char>> {
    seq!["rev-list"@, "--reverse"@, "--max-count="@ + decimal_chars(probe), t.old_sha@ + ".."@ + t.new_sha@]
}

fn command_with_path(path: &[u8], command: &Vec<String>) -> (r: Result<Vec<String>, ReconcileWarning>)
    ensures
        match r {
            Ok(args) => valid_utf8(path@) && string_views(args@) == git_command(path@, string_views(command@)),
            Err(w) => !valid_utf8(path@) && w.stage == ReconcileStage::CommitTraversal && w.path@ == path@
                && w.kind == ReconcileWarningKind::InvalidUtf8,
        },
{
    let r = git_args(path, command);
    match r {
        Ok(args) => {
            assert(string_views(args@) =~= git_command(path@, string_views(command@))) by {
                assert forall|i: int| 0 <= i < args@.len() implies string_views(args@)[i] == git_command(path@, string_views(command@))[i] by {
                    if i >= 2 {
                        assert(args@[(i - 2) + 2]@ == command@[i - 2]@);
                    }
                }
            }
            Ok(args)
        },
        Err(w) => Err(w),
    }
}

/// The arguments that ask Git whether the old `HEAD` is an ancestor of the new one.
pub fn is_ancestor_command(transition: &CommitTransition) -> (r: Result<Vec<String>, ReconcileWarning>)
    ensures
        match r {
            Ok(args) => valid_utf8(transition.path@) && string_views(args@) == git_command(transition.path@, is_ancestor_spec(*transition)),
            Err(w) => !valid_utf8(transition.path@) && w.stage == ReconcileStage::CommitTraversal
                && w.path@ == transition.path@ && w.kind == ReconcileWarningKind::InvalidUtf8,
        },
{
    let mut command: Vec<String> = Vec::new();
    command.push("merge-base".to_owned());
    command.push("--is-ancestor".to_owned());
    command.push(transition.old_sha.clone());
    command.push(transition.new_sha.clone());
    assert(string_views(command@) =~= is_ancestor_spec(*transition));
    command_with_path(transition.path.as_slice(), &command)
}

/// What `merge-base --is-ancestor` answered: status 0 is yes, 1 is no; a cut output
/// or another status is a warning.
pub fn is_ancestor_result(transition: &CommitTransition, output: &GitCommandResult) -> (r: Result<bool, ReconcileWarning>)
    ensures
        output.truncated ==> (r matches Err(w) && w.stage == ReconcileStage::CommitTraversal
            && w.path@ == transition.path@ && w.kind == ReconcileWarningKind::OutputTruncated),
        !output.truncated && output.status == Some(0i32) ==> r == Ok::<bool, ReconcileWarning>(true),
        !output.truncated && output.status == Some(1i32) ==> r == Ok::<bool, ReconcileWarning>(false),
        !output.truncated && output.status != Some(0i32) && output.status != Some(1i32) ==> (r matches Err(w)
            && w.stage == ReconcileStage::CommitTraversal && w.path@ == transition.path@
            && w.kind == (ReconcileWarningKind::CommandFailed { status: output.status })),
{
    let path = transition.path.as_slice();
    if output.truncated {
        return Err(warning(ReconcileStage::CommitTraversal, path, ReconcileWarningKind::OutputTruncated));
    }
    match output.status {
        Some(code) => {
            if code == 0 {
                return Ok(true);
            }
            if code == 1 {
                return Ok(false);
            }
        },
        None => {},
    }
    Err(warning(ReconcileStage::CommitTraversal, path, ReconcileWarningKind::CommandFailed { status: output.status }))
}

/// The arguments that list the commits of a move, oldest first, asking for one more
/// than `max_commits` so that a longer move shows; a `max_commits` with no successor
/// is a commit-limit warning.
pub fn rev_list_command(transition: &CommitTransition, max_commits: usize) -> (r: Result<Vec<String>, ReconcileWarning>)
    ensures
        max_commits == usize::MAX ==> (r matches Err(w) && w.stage == ReconcileStage::CommitTraversal
            && w.path@ == transition.path@ && w.kind == (ReconcileWarningKind::CommitLimitReached { limit: max_commits })),
        max_commits < usize::MAX ==> match r {
            Ok(args) => valid_utf8(transition.path@)
                && string_views(args@) == git_command(transition.path@, rev_list_spec(*transition, (max_commits + 1) as nat)),
            Err(w) => !valid_utf8(transition.path@) && w.stage == ReconcileStage::CommitTraversal
                && w.path@ == transition.path@ && w.kind == ReconcileWarningKind::InvalidUtf8,
        },
{
    if max_commits == usize::MAX {
        return Err(warning(
            ReconcileStage::CommitTraversal,
            transition.path.as_slice(),
            ReconcileWarningKind::CommitLimitReached { limit: max_commits },
        ));
    }
    let probe = max_commits + 1;
    let mut max_count = "--max-count=".to_owned();
    push_decimal(&mut max_count, probe);
    let mut range = transition.old_sha.clone();
    range.append("..");
    range.append(transition.new_sha.as_str());
    let mut command: Vec<String> = Vec::new();
    command.push("rev-list".to_owned());
    command.push("--reverse".to_owned());
    command.push(max_count);
    command.push(range);
    assert(string_views(command@) =~= rev_list_spec(*transition, probe as nat));
    command_with_path(transition.path.as_slice(), &command)
}

/// The nonempty pieces, in order.
pub open spec fn nonempty_lines(parts: Seq<Seq<u8>>) -> Seq<Seq<u8>>
    decreases parts.len(),
{
    if parts.len() == 0 {
        Seq::empty()
    } else {
        let prev = nonempty_lines(parts.drop_last());
        if parts.last().len() == 0 {
            prev
        } else {
            prev.push(parts.last())
        }
    }
}

/// The nonempty lines of `rev-list` output.
pub open spec fn listed_lines(out: Seq<u8>) -> Seq<Seq<u8>> {
    nonempty_lines(split_bytes(out, 10u8))
}

/// Every listed line is an object ID.
pub open spec fn all_object_ids(lines: Seq<Seq<u8>>) -> bool {
    forall|i: int| 0 <= i < lines.len() ==> is_object_id(#[trigger] lines[i])
}

/// The commits `rev-list` listed, oldest first: a cut output, a failed run or a line
/// that is not an object ID is a warning, and so is a list longer than `max_commits`.
pub fn rev_list_shas(transition: &CommitTransition, max_commits: usize, output: &GitCommandResult) -> (r: Result<Vec<String>, ReconcileWarning>)
    ensures
        output.truncated ==> (r matches Err(w) && w.stage == ReconcileStage::CommitTraversal
            && w.path@ == transition.path@ && w.kind == ReconcileWarningKind::OutputTruncated),
        !output.truncated && output.status != Some(0i32) ==> (r matches Err(w)
            && w.stage == ReconcileStage::CommitTraversal && w.path@ == transition.path@
            && w.kind == (ReconcileWarningKind::CommandFailed { status: output.status })),
        !output.truncated && output.status == Some(0i32) ==> {
            let lines = listed_lines(output.stdout_bytes@);
            &&& !all_object_ids(lines) ==> (r matches Err(w) && w.stage == ReconcileStage::CommitTraversal
                && w.path@ == transition.path@ && w.kind == ReconcileWarningKind::ParseFailed)
            &&& all_object_ids(lines) && lines.len() > max_commits ==> (r matches Err(w)
                && w.stage == ReconcileStage::CommitTraversal && w.path@ == transition.path@
                && w.kind == (ReconcileWarningKind::CommitLimitReached { limit: max_commits }))
            &&& all_object_ids(lines) && lines.len() <= max_commits ==> (r matches Ok(shas)
                && shas@.len() == lines.len()
                && forall|i: int| 0 <= i < lines.len() ==> #[trigger] shas@[i]@ == ascii_chars(lines[i]))
        },
{
    let path = transition.path.as_slice();
    if output.truncated {
        return Err(warning(ReconcileStage::CommitTraversal, path, ReconcileWarningKind::OutputTruncated));
    }
    let ok = match output.status {
        Some(code) => code == 0,
        None => false,
    };
    if !ok {
        return Err(warning(ReconcileStage::CommitTraversal, path, ReconcileWarningKind::CommandFailed { status: output.status }));
    }
    let fields = split_on(output.stdout_bytes.as_slice(), 10u8);
    let ghost fs = views(fields@);
    let mut shas: Vec<String> = Vec::new();
    let mut k: usize = 0;
    assert(fs.take(0) =~= Seq::<Seq<u8>>::empty());
    while k < fields.len()
        invariant
            k <= fields.len(),
            fs == views(fields@),
            fs == split_bytes(output.stdout_bytes@, 10u8),
            !output.truncated,
            output.status == Some(0i32),
            path@ == transition.path@,
            all_object_ids(nonempty_lines(fs.take(k as int))),
            shas@.len() == nonempty_lines(fs.take(k as int)).len(),
            forall|i: int| 0 <= i < shas@.len() ==> #[trigger] shas@[i]@ == ascii_chars(nonempty_lines(fs.take(k as int))[i]),
        decreases fields.len() - k,
    {
        assert(fs.take(k + 1).drop_last() =~= fs.take(k as int));
        assert(fs.take(k + 1).last() == fields@[k as int]@);
        let line = fields[k].as_slice();
        if line.len() > 0 {
            if !object_id(line) {
                proof {
                    assert(fs[k as int] == line@);
                    lemma_invalid_line_stays(fs, k as int);
                    assert(listed_lines(output.stdout_bytes@) == nonempty_lines(fs));
                    assert(!all_object_ids(listed_lines(output.stdout_bytes@)));
                }
                return Err(warning(ReconcileStage::CommitTraversal, path, ReconcileWarningKind::ParseFailed));
            }
            proof {
                assert(forall|j: int| 0 <= j < line@.len() ==> #[trigger] line@[j] < 128) by {
                    assert forall|j: int| 0 <= j < line@.len() implies #[trigger] line@[j] < 128 by {
                        assert(crate::bytes::is_hex_byte(line@[j]));
                    }
                }
            }
            let sha = ascii_string(line);
            shas.push(sha);
        }
        k += 1;
    }
    assert(fs.take(k as int) =~= fs);
    if shas.len() > max_commits {
        return Err(warning(
            ReconcileStage::CommitTraversal,
            path,
            ReconcileWarningKind::CommitLimitReached { limit: max_commits },
        ));
    }
    Ok(shas)
}

/// A line that is not an object ID stays among the listed lines of every longer prefix.
proof fn lemma_invalid_line_stays(fs: Seq<Seq<u8>>, k: int)
    requires
        0 <= k < fs.len(),
        fs[k].len() > 0,
        !is_object_id(fs[k]),
    ensures
        !all_object_ids(nonempty_lines(fs)),
    decreases fs.len(),
{
    let last = nonempty_lines(fs).len() - 1;
    if k == fs.len() - 1 {
        assert(nonempty_lines(fs)[last] == fs[k]);
    } else {
        lemma_invalid_line_stays(fs.drop_last(), k);
        let prev = nonempty_lines(fs.drop_last());
        let i = choose|i: int| 0 <= i < prev.len() && !is_object_id(#[trigger] prev[i]);
        assert(nonempty_lines(fs)[i] == prev[i]);
    }
}

/// Lower-case hexadecimal spelling of `value`, two digits a byte (how changed paths,
/// which need not be text, are stored).
pub fn hex(value: &[u8]) -> (r: String)
    ensures
        r@ == ascii_chars(hex_encode(value@)),
{
    hex_string(value)
}

/// The stored worktree with `key`; a later row of one key replaces an earlier one.
pub open spec fn previous_by_key(previous: Seq<PreviousWorktree>, key: Seq<char>) -> Option<PreviousWorktree>
    decreases previous.len(),
{
    if previous.len() == 0 {
        None
    } else if previous.last().worktree_key@ == key {
        Some(previous.last())
    } else {
        previous_by_key(previous.drop_last(), key)
    }
}

/// The move of one observed worktree: its path bytes and the old and new `HEAD`, when
/// it was stored before, not removed, and both `HEAD`s are known and differ.
pub open spec fn worktree_move(previous: Seq<PreviousWorktree>, current: CurrentWorktree) -> Option<(Seq<u8>, Seq<char>, Seq<char>)> {
    match previous_by_key(previous, current.worktree_key@) {
        Some(old) => if old.removed {
            None
        } else {
            match (old.head_sha, current.head_sha) {
                (Some(o), Some(n)) => if o@ != n@ {
                    Some((encode_utf8(current.path@), o@, n@))
                } else {
                    None
                },
                _ => None,
            }
        },
        None => None,
    }
}

/// The moves of the observed worktrees, in their order.
pub open spec fn moves(previous: Seq<PreviousWorktree>, current: Seq<CurrentWorktree>) -> Seq<(Seq<u8>, Seq<char>, Seq<char>)>
    decreases current.len(),
{
    if current.len() == 0 {
        Seq::empty()
    } else {
        let prev = moves(previous, current.drop_last());
        match worktree_move(previous, current.last()) {
            Some(m) => prev.push(m),
            None => prev,
        }
    }
}

/// A transition as plain values: path bytes, old and new `HEAD`.
pub open spec fn transition_view(t: CommitTransition) -> (Seq<u8>, Seq<char>, Seq<char>) {
    (t.path@, t.old_sha@, t.new_sha@)
}

fn find_previous(previous: &Vec<PreviousWorktree>, key: &String) -> (r: Option<usize>)
    ensures
        match r {
            Some(i) => i < previous@.len() && previous_by_key(previous@, key@) == Some(previous@[i as int]),
            None => previous_by_key(previous@, key@) is None,
        },
{
    let mut k: usize = previous.len();
    assert(previous@.take(k as int) =~= previous@);
    while k > 0
        invariant
            k <= previous.len(),
            previous_by_key(previous@, key@) == previous_by_key(previous@.take(k as int), key@),
        decreases k,
    {
        let ghost pre = previous@.take(k as int);
        assert(pre.drop_last() =~= previous@.take(k - 1));
        assert(pre.last() == previous@[k - 1]);
        if str_eq(previous[k - 1].worktree_key.as_str(), key.as_str()) {
            return Some(k - 1);
        }
        k -= 1;
    }
    None
}

fn head_moved(old: &Option<String>, new: &Option<String>) -> (r: Option<(String, String)>)
    ensures
        match r {
            Some((o, n)) => (old matches Some(a) && new matches Some(b) && a@ != b@ && o@ == a@ && n@ == b@),
            None => !(old matches Some(a) && new matches Some(b) && a@ != b@),
        },
{
    match (old, new) {
        (Some(a), Some(b)) => {
            if !str_eq(a.as_str(), b.as_str()) {
                Some((a.clone(), b.clone()))
            } else {
                None
            }
        },
        _ => None,
    }
}

/// The worktrees whose `HEAD` moved since the stored pass, in the order observed.
pub fn transitions(previous: &Vec<PreviousWorktree>, current: &Vec<CurrentWorktree>) -> (r: Vec<CommitTransition>)
    ensures
        r@.len() == moves(previous@, current@).len(),
        forall|i: int| 0 <= i < r@.len() ==> #[trigger] transition_view(r@[i]) == moves(previous@, current@)[i],
{
    let mut out: Vec<CommitTransition> = Vec::new();
    let mut j: usize = 0;
    while j < current.len()
        invariant
            j <= current.len(),
            out@.len() == moves(previous@, current@.take(j as int)).len(),
            forall|i: int| 0 <= i < out@.len() ==> #[trigger] transition_view(out@[i]) == moves(previous@, current@.take(j as int))[i],
        decreases current.len() - j,
    {
        let ghost pre = current@.take(j + 1);
        assert(pre.drop_last() =~= current@.take(j as int));
        assert(pre.last() == current@[j as int]);
        let worktree = &current[j];
        match find_previous(previous, &worktree.worktree_key) {
            Some(i) => {
                let old = &previous[i];
                if !old.removed {
                    match head_moved(&old.head_sha, &worktree.head_sha) {
                        Some((old_sha, new_sha)) => {
                            let bytes = worktree.path.as_str().as_bytes();
                            let path = copy_range(bytes, 0, bytes.len());
                            assert(path@ =~= encode_utf8(worktree.path@));
                            out.push(CommitTransition { path, old_sha, new_sha });
                        },
                        None => {},
                    }
                }
            },
            None => {},
        }
        j += 1;
    }
    assert(current@.take(j as int) =~= current@);
    out
}


/// Every listed move changes `HEAD`, and no observed worktree moves twice.
pub proof fn lemma_moves_change_head(previous: Seq<PreviousWorktree>, current: Seq<CurrentWorktree>)
    ensures
        moves(previous, current).len() <= current.len(),
        forall|i: int| 0 <= i < moves(previous, current).len() ==> #[trigger] moves(previous, current)[i].1
            != moves(previous, current)[i].2,
    decreases current.len(),
{
    if current.len() > 0 {
        lemma_moves_change_head(previous, current.drop_last());
    }
}

} // verus!

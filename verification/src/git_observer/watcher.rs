//! Pure bounded Git watch-set planning.
//!
//! Paths are raw Unix path bytes (see [`crate::paths`]).

use vstd::prelude::*;
use vstd::string::StringExecFns;

use crate::bytes::{copy_range, views};
use crate::message::{decimal_chars, lemma_usize_decimal_len, push_decimal};
use crate::paths::{
    absolute, canonical_absolute, is_absolute, is_canonical_absolute, join_component, join_name,
    lemma_segs_lt_irreflexive, lemma_segs_lt_total, lemma_segs_lt_transitive, path_lt, path_same,
    path_segments, path_within, segments, segs_equal, segs_less, segs_lt, segs_prefix,
};
use crate::strings::{lemma_str_lt_total, lemma_str_lt_transitive, str_lt, string_less, trim_chars, trim_str, string_views};

verus! {

/// Default cap on the number of watched paths.
pub const DEFAULT_MAX_WATCH_PATHS: usize = 4096;

#[derive(Debug, Clone, Copy, PartialEq, Eq)]
pub struct WatchPlannerOptions {
    pub max_paths: usize,
}

impl Default for WatchPlannerOptions {
    fn default() -> (o: Self)
        ensures
            o.max_paths == DEFAULT_MAX_WATCH_PATHS,
    {
        Self { max_paths: DEFAULT_MAX_WATCH_PATHS }
    }
}

#[derive(Debug, Clone, PartialEq, Eq)]
pub struct WorktreeWatchInput {
    pub worktree_path: Vec<u8>,
    pub control_dir: Vec<u8>,
}

#[derive(Debug, Clone, PartialEq, Eq)]
pub struct RepositoryWatchInput {
    pub repository_key: String,
    pub common_git_dir: Vec<u8>,
    pub worktrees: Vec<WorktreeWatchInput>,
}

#[derive(Debug, Clone, PartialEq, Eq)]
pub struct WatchTarget {
    pub path: Vec<u8>,
    pub repository_keys: Vec<String>,
    pub discovers_repositories: bool,
}

#[derive(Debug, Clone, PartialEq, Eq)]
pub struct WatchPlan {
    pub targets: Vec<WatchTarget>,
}

#[derive(Debug, Clone, PartialEq, Eq)]
pub enum WatchPlanErrorKind {
    InvalidMaxPaths,
    NoProjectRoots,
    EmptyRepositoryKey,
    DuplicateRepositoryKey,
    NonCanonicalPath(&'static str),
    WorktreeOutsideProjectRoots,
    ControlDirectoryOutsideCommonGitDir,
    PathLimitReached { limit: usize, observed: usize },
}

#[derive(Debug, Clone, PartialEq, Eq)]
pub struct WatchPlanError {
    pub repository_index: Option<usize>,
    pub worktree_index: Option<usize>,
    pub kind: WatchPlanErrorKind,
}

/// Mathematical view of a watch target.
pub struct TargetView {
    pub path: Seq<u8>,
    pub keys: Seq<Seq<char>>,
    pub discovers: bool,
}

pub struct WorktreeInputView {
    pub worktree_path: Seq<u8>,
    pub control_dir: Seq<u8>,
}

pub struct RepositoryInputView {
    pub key: Seq<char>,
    pub common: Seq<u8>,
    pub worktrees: Seq<WorktreeInputView>,
}


impl View for WatchTarget {
    type V = TargetView;

    open spec fn view(&self) -> TargetView {
        TargetView { path: self.path@, keys: string_views(self.repository_keys@), discovers: self.discovers_repositories }
    }
}

pub open spec fn target_views(v: Seq<WatchTarget>) -> Seq<TargetView> {
    Seq::new(v.len(), |i: int| v[i]@)
}

impl View for WorktreeWatchInput {
    type V = WorktreeInputView;

    open spec fn view(&self) -> WorktreeInputView {
        WorktreeInputView { worktree_path: self.worktree_path@, control_dir: self.control_dir@ }
    }
}

impl View for RepositoryWatchInput {
    type V = RepositoryInputView;

    open spec fn view(&self) -> RepositoryInputView {
        RepositoryInputView {
            key: self.repository_key@,
            common: self.common_git_dir@,
            worktrees: Seq::new(self.worktrees@.len(), |i: int| self.worktrees@[i]@),
        }
    }
}

pub open spec fn repository_views(v: Seq<RepositoryWatchInput>) -> Seq<RepositoryInputView> {
    Seq::new(v.len(), |i: int| v[i]@)
}

pub open spec fn root_error(index: usize, kind: WatchPlanErrorKind) -> WatchPlanError {
    WatchPlanError { repository_index: None, worktree_index: Some(index), kind }
}

pub open spec fn repository_error(index: usize, kind: WatchPlanErrorKind) -> WatchPlanError {
    WatchPlanError { repository_index: Some(index), worktree_index: None, kind }
}

pub open spec fn worktree_error(r: usize, k: usize, kind: WatchPlanErrorKind) -> WatchPlanError {
    WatchPlanError { repository_index: Some(r), worktree_index: Some(k), kind }
}

pub open spec fn global_error(kind: WatchPlanErrorKind) -> WatchPlanError {
    WatchPlanError { repository_index: None, worktree_index: None, kind }
}

impl WatchPlanError {
    fn root(index: usize, kind: WatchPlanErrorKind) -> (e: Self)
        ensures
            e == root_error(index, kind),
    {
        Self { repository_index: None, worktree_index: Some(index), kind }
    }

    fn repository(index: usize, kind: WatchPlanErrorKind) -> (e: Self)
        ensures
            e == repository_error(index, kind),
    {
        Self { repository_index: Some(index), worktree_index: None, kind }
    }

    fn worktree(repository_index: usize, worktree_index: usize, kind: WatchPlanErrorKind) -> (e: Self)
        ensures
            e == worktree_error(repository_index, worktree_index, kind),
    {
        Self { repository_index: Some(repository_index), worktree_index: Some(worktree_index), kind }
    }

    fn global(kind: WatchPlanErrorKind) -> (e: Self)
        ensures
            e == global_error(kind),
    {
        Self { repository_index: None, worktree_index: None, kind }
    }
}

impl Default for WatchPlan {
    fn default() -> (p: Self)
        ensures
            p.targets@.len() == 0,
    {
        WatchPlan { targets: Vec::new() }
    }
}

pub open spec fn plan_kind_message(kind: WatchPlanErrorKind) -> Seq<char> {
    match kind {
        WatchPlanErrorKind::InvalidMaxPaths => "max_paths must be positive"@,
        WatchPlanErrorKind::NoProjectRoots => "at least one project root is required"@,
        WatchPlanErrorKind::EmptyRepositoryKey => "repository key is empty"@,
        WatchPlanErrorKind::DuplicateRepositoryKey => "repository key is duplicated"@,
        WatchPlanErrorKind::NonCanonicalPath(field) => field@ + " is not canonical"@,
        WatchPlanErrorKind::WorktreeOutsideProjectRoots => "worktree is outside configured project roots"@,
        WatchPlanErrorKind::ControlDirectoryOutsideCommonGitDir => "worktree control directory is outside common Git directory"@,
        WatchPlanErrorKind::PathLimitReached { limit, observed } =>
            "watch path count "@ + decimal_chars(observed as nat) + " exceeds limit "@ + decimal_chars(limit as nat),
    }
}

pub open spec fn plan_error_message(e: WatchPlanError) -> Seq<char> {
    "Git watch plan: "@ + plan_kind_message(e.kind)
}

fn push_plan_kind_message(out: &mut String, kind: &WatchPlanErrorKind)
    ensures
        final(out)@ == old(out)@ + plan_kind_message(*kind),
{
    let ghost start = out@;
    match kind {
        WatchPlanErrorKind::InvalidMaxPaths => out.append("max_paths must be positive"),
        WatchPlanErrorKind::NoProjectRoots => out.append("at least one project root is required"),
        WatchPlanErrorKind::EmptyRepositoryKey => out.append("repository key is empty"),
        WatchPlanErrorKind::DuplicateRepositoryKey => out.append("repository key is duplicated"),
        WatchPlanErrorKind::NonCanonicalPath(field) => {
            out.append(field);
            out.append(" is not canonical");
            assert(out@ =~= start + (field@ + " is not canonical"@));
        },
        WatchPlanErrorKind::WorktreeOutsideProjectRoots => out.append("worktree is outside configured project roots"),
        WatchPlanErrorKind::ControlDirectoryOutsideCommonGitDir => out.append("worktree control directory is outside common Git directory"),
        WatchPlanErrorKind::PathLimitReached { limit, observed } => {
            out.append("watch path count ");
            push_decimal(out, *observed);
            out.append(" exceeds limit ");
            push_decimal(out, *limit);
            assert(out@ =~= start + ("watch path count "@ + decimal_chars(*observed as nat) + " exceeds limit "@ + decimal_chars(*limit as nat)));
        },
    }
}

impl WatchPlanErrorKind {
    /// The kind's message.
    pub fn to_string(&self) -> (s: String)
        ensures
            s@ == plan_kind_message(*self),
    {
        let mut out = String::new();
        push_plan_kind_message(&mut out, self);
        assert(out@ =~= plan_kind_message(*self));
        out
    }
}

impl WatchPlanError {
    /// The error's message: `Git watch plan: <kind>`.
    pub fn to_string(&self) -> (s: String)
        ensures
            s@ == plan_error_message(*self),
    {
        let mut out = String::new();
        out.append("Git watch plan: ");
        push_plan_kind_message(&mut out, &self.kind);
        assert(out@ =~= plan_error_message(*self));
        out
    }
}

/// Index of the target for the same path as `p`, or the length when there is none.
pub open spec fn index_of_path(st: Seq<TargetView>, p: Seq<u8>) -> int
    decreases st.len(),
{
    if st.len() == 0 {
        0
    } else if path_same(st[0].path, p) {
        0
    } else {
        1 + index_of_path(st.drop_first(), p)
    }
}

/// Index of the first target not ordered before `p`.
pub open spec fn insert_pos(st: Seq<TargetView>, p: Seq<u8>) -> int
    decreases st.len(),
{
    if st.len() == 0 {
        0
    } else if !path_lt(st[0].path, p) {
        0
    } else {
        1 + insert_pos(st.drop_first(), p)
    }
}

pub open spec fn key_index(keys: Seq<Seq<char>>, k: Seq<char>) -> int
    decreases keys.len(),
{
    if keys.len() == 0 {
        0
    } else if keys[0] == k {
        0
    } else {
        1 + key_index(keys.drop_first(), k)
    }
}

pub open spec fn key_insert_pos(keys: Seq<Seq<char>>, k: Seq<char>) -> int
    decreases keys.len(),
{
    if keys.len() == 0 {
        0
    } else if !str_lt(keys[0], k) {
        0
    } else {
        1 + key_insert_pos(keys.drop_first(), k)
    }
}

/// Set insertion into an ordered key list.
pub open spec fn insert_key(keys: Seq<Seq<char>>, k: Seq<char>) -> Seq<Seq<char>> {
    if key_index(keys, k) < keys.len() {
        keys
    } else {
        keys.insert(key_insert_pos(keys, k), k)
    }
}

/// Record that `p` is watched, for `key` when given, and whether it discovers repositories;
/// a new path beyond the cap is an error.
pub open spec fn add_target(st: Seq<TargetView>, max: usize, p: Seq<u8>, key: Option<Seq<char>>, disc: bool) -> Result<Seq<TargetView>, WatchPlanError> {
    let i = index_of_path(st, p);
    if i < st.len() {
        let t = st[i];
        Ok(st.update(i, TargetView {
            path: t.path,
            keys: match key { Some(k) => insert_key(t.keys, k), None => t.keys },
            discovers: t.discovers || disc,
        }))
    } else if st.len() == max {
        Err(global_error(WatchPlanErrorKind::PathLimitReached { limit: max, observed: max.wrapping_add(1) }))
    } else {
        Ok(st.insert(insert_pos(st, p), TargetView {
            path: p,
            keys: match key { Some(k) => seq![k], None => Seq::empty() },
            discovers: disc,
        }))
    }
}

/// Add the paths `ps[i..]` in order.
pub open spec fn add_all(st: Seq<TargetView>, max: usize, ps: Seq<Seq<u8>>, i: int, key: Option<Seq<char>>, disc: bool) -> Result<Seq<TargetView>, WatchPlanError>
    decreases ps.len() - i,
{
    if i < 0 || i >= ps.len() {
        Ok(st)
    } else {
        match add_target(st, max, ps[i], key, disc) {
            Err(e) => Err(e),
            Ok(st2) => add_all(st2, max, ps, i + 1, key, disc),
        }
    }
}

pub open spec fn name_head() -> Seq<u8> {
    seq![72u8, 69u8, 65u8, 68u8]
}

pub open spec fn name_index() -> Seq<u8> {
    seq![105u8, 110u8, 100u8, 101u8, 120u8]
}

pub open spec fn name_packed_refs() -> Seq<u8> {
    seq![112u8, 97u8, 99u8, 107u8, 101u8, 100u8, 45u8, 114u8, 101u8, 102u8, 115u8]
}

pub open spec fn name_refs() -> Seq<u8> {
    seq![114u8, 101u8, 102u8, 115u8]
}

pub open spec fn name_worktrees() -> Seq<u8> {
    seq![119u8, 111u8, 114u8, 107u8, 116u8, 114u8, 101u8, 101u8, 115u8]
}

/// The control paths watched for a repository's common Git directory.
pub open spec fn common_control_paths(c: Seq<u8>) -> Seq<Seq<u8>> {
    seq![
        c,
        join_name(c, name_head()),
        join_name(c, name_index()),
        join_name(c, name_packed_refs()),
        join_name(c, name_refs()),
        join_name(c, name_worktrees()),
    ]
}

/// The control paths watched for one worktree's control directory.
pub open spec fn worktree_control_paths(c: Seq<u8>) -> Seq<Seq<u8>> {
    seq![c, join_name(c, name_head()), join_name(c, name_index())]
}

/// Some project root contains `p` (or is `p`).
pub open spec fn contained_spec(p: Seq<u8>, roots: Seq<Seq<u8>>) -> bool {
    exists|i: int| 0 <= i < roots.len() && path_within(p, #[trigger] roots[i])
}

/// A worktree's control directory is the common directory itself or lies strictly
/// below its `worktrees` directory.
pub open spec fn valid_control_spec(control: Seq<u8>, common: Seq<u8>) -> bool {
    let linked = join_name(common, name_worktrees());
    path_same(control, common) || (!path_same(control, linked) && path_within(control, linked))
}

pub open spec fn run_roots(roots: Seq<Seq<u8>>, max: usize, i: int, st: Seq<TargetView>) -> Result<Seq<TargetView>, WatchPlanError>
    decreases roots.len() - i,
{
    if i < 0 || i >= roots.len() {
        Ok(st)
    } else if !is_canonical_absolute(roots[i]) {
        Err(root_error(i as usize, WatchPlanErrorKind::NonCanonicalPath("project_root")))
    } else {
        match add_target(st, max, roots[i], None, true) {
            Err(e) => Err(e),
            Ok(st2) => run_roots(roots, max, i + 1, st2),
        }
    }
}

pub open spec fn run_worktrees(roots: Seq<Seq<u8>>, repo: RepositoryInputView, key: Seq<char>, r: usize, max: usize, k: int, st: Seq<TargetView>) -> Result<Seq<TargetView>, WatchPlanError>
    decreases repo.worktrees.len() - k,
{
    if k < 0 || k >= repo.worktrees.len() {
        Ok(st)
    } else {
        let w = repo.worktrees[k];
        if !is_canonical_absolute(w.worktree_path) {
            Err(worktree_error(r, k as usize, WatchPlanErrorKind::NonCanonicalPath("worktree_path")))
        } else if !contained_spec(w.worktree_path, roots) {
            Err(worktree_error(r, k as usize, WatchPlanErrorKind::WorktreeOutsideProjectRoots))
        } else if !is_canonical_absolute(w.control_dir) {
            Err(worktree_error(r, k as usize, WatchPlanErrorKind::NonCanonicalPath("control_dir")))
        } else if !valid_control_spec(w.control_dir, repo.common) {
            Err(worktree_error(r, k as usize, WatchPlanErrorKind::ControlDirectoryOutsideCommonGitDir))
        } else {
            match add_all(st, max, worktree_control_paths(w.control_dir), 0, Some(key), false) {
                Err(e) => Err(e),
                Ok(st2) => run_worktrees(roots, repo, key, r, max, k + 1, st2),
            }
        }
    }
}

pub open spec fn run_repositories(roots: Seq<Seq<u8>>, repos: Seq<RepositoryInputView>, max: usize, r: int, seen: Seq<Seq<char>>, st: Seq<TargetView>) -> Result<Seq<TargetView>, WatchPlanError>
    decreases repos.len() - r,
{
    if r < 0 || r >= repos.len() {
        Ok(st)
    } else {
        let repo = repos[r];
        let key = trim_chars(repo.key);
        if key.len() == 0 {
            Err(repository_error(r as usize, WatchPlanErrorKind::EmptyRepositoryKey))
        } else if seen.contains(key) {
            Err(repository_error(r as usize, WatchPlanErrorKind::DuplicateRepositoryKey))
        } else if !is_canonical_absolute(repo.common) {
            Err(repository_error(r as usize, WatchPlanErrorKind::NonCanonicalPath("common_git_dir")))
        } else {
            match add_all(st, max, common_control_paths(repo.common), 0, Some(key), false) {
                Err(e) => Err(e),
                Ok(st2) => match run_worktrees(roots, repo, key, r as usize, max, 0, st2) {
                    Err(e) => Err(e),
                    Ok(st3) => run_repositories(roots, repos, max, r + 1, seen.push(key), st3),
                },
            }
        }
    }
}

/// The watch plan for the given roots and repositories: the project roots (which
/// discover repositories) and each repository's Git control paths, one target per
/// distinct path, ordered by path; or the first invalid input.
pub open spec fn plan_spec(roots: Seq<Seq<u8>>, repos: Seq<RepositoryInputView>, max: usize) -> Result<Seq<TargetView>, WatchPlanError> {
    if max == 0 {
        Err(global_error(WatchPlanErrorKind::InvalidMaxPaths))
    } else if roots.len() == 0 {
        Err(global_error(WatchPlanErrorKind::NoProjectRoots))
    } else {
        match run_roots(roots, max, 0, Seq::empty()) {
            Err(e) => Err(e),
            Ok(st) => run_repositories(roots, repos, max, 0, Seq::empty(), st),
        }
    }
}

/// Targets are absolute, strictly increasing by path, each with strictly increasing keys,
/// and at most `max` of them.
pub open spec fn plan_well_formed(st: Seq<TargetView>, max: usize) -> bool {
    &&& st.len() <= max
    &&& forall|i: int| 0 <= i < st.len() ==> is_absolute(#[trigger] st[i].path)
    &&& forall|i: int, j: int| 0 <= i < j < st.len() ==> path_lt(#[trigger] st[i].path, #[trigger] st[j].path)
    &&& forall|i: int| 0 <= i < st.len() ==> keys_sorted(#[trigger] st[i].keys)
}

pub open spec fn keys_sorted(keys: Seq<Seq<char>>) -> bool {
    forall|i: int, j: int| 0 <= i < j < keys.len() ==> str_lt(#[trigger] keys[i], #[trigger] keys[j])
}


proof fn lemma_index_of_path(st: Seq<TargetView>, p: Seq<u8>)
    ensures
        0 <= index_of_path(st, p) <= st.len(),
        index_of_path(st, p) < st.len() ==> path_same(st[index_of_path(st, p)].path, p),
        forall|j: int| 0 <= j < index_of_path(st, p) ==> !path_same(#[trigger] st[j].path, p),
    decreases st.len(),
{
    if st.len() > 0 && !path_same(st[0].path, p) {
        lemma_index_of_path(st.drop_first(), p);
        assert forall|j: int| 0 <= j < index_of_path(st, p) implies !path_same(#[trigger] st[j].path, p) by {
            if j > 0 {
                assert(st[j] == st.drop_first()[j - 1]);
            }
        }
    }
}

proof fn lemma_insert_pos(st: Seq<TargetView>, p: Seq<u8>)
    ensures
        0 <= insert_pos(st, p) <= st.len(),
        insert_pos(st, p) < st.len() ==> !path_lt(st[insert_pos(st, p)].path, p),
        forall|j: int| 0 <= j < insert_pos(st, p) ==> path_lt(#[trigger] st[j].path, p),
    decreases st.len(),
{
    if st.len() > 0 && path_lt(st[0].path, p) {
        lemma_insert_pos(st.drop_first(), p);
        assert forall|j: int| 0 <= j < insert_pos(st, p) implies path_lt(#[trigger] st[j].path, p) by {
            if j > 0 {
                assert(st[j] == st.drop_first()[j - 1]);
            }
        }
    }
}

proof fn lemma_key_index(keys: Seq<Seq<char>>, k: Seq<char>)
    ensures
        0 <= key_index(keys, k) <= keys.len(),
        key_index(keys, k) < keys.len() ==> keys[key_index(keys, k)] == k,
        forall|j: int| 0 <= j < key_index(keys, k) ==> #[trigger] keys[j] != k,
    decreases keys.len(),
{
    if keys.len() > 0 && keys[0] != k {
        lemma_key_index(keys.drop_first(), k);
        assert forall|j: int| 0 <= j < key_index(keys, k) implies #[trigger] keys[j] != k by {
            if j > 0 {
                assert(keys[j] == keys.drop_first()[j - 1]);
            }
        }
    }
}

proof fn lemma_key_insert_pos(keys: Seq<Seq<char>>, k: Seq<char>)
    ensures
        0 <= key_insert_pos(keys, k) <= keys.len(),
        key_insert_pos(keys, k) < keys.len() ==> !str_lt(keys[key_insert_pos(keys, k)], k),
        forall|j: int| 0 <= j < key_insert_pos(keys, k) ==> str_lt(#[trigger] keys[j], k),
    decreases keys.len(),
{
    if keys.len() > 0 && str_lt(keys[0], k) {
        lemma_key_insert_pos(keys.drop_first(), k);
        assert forall|j: int| 0 <= j < key_insert_pos(keys, k) implies str_lt(#[trigger] keys[j], k) by {
            if j > 0 {
                assert(keys[j] == keys.drop_first()[j - 1]);
            }
        }
    }
}

pub(crate) proof fn lemma_insert_key_sorted(keys: Seq<Seq<char>>, k: Seq<char>)
    requires
        keys_sorted(keys),
    ensures
        keys_sorted(insert_key(keys, k)),
{
    lemma_key_index(keys, k);
    lemma_key_insert_pos(keys, k);
    if key_index(keys, k) >= keys.len() {
        let pos = key_insert_pos(keys, k);
        let ks = keys.insert(pos, k);
        if pos < keys.len() {
            lemma_str_lt_total(keys[pos], k);
        }
        assert forall|i: int, j: int| 0 <= i < j < ks.len() implies str_lt(#[trigger] ks[i], #[trigger] ks[j]) by {
            if j < pos {
            } else if j == pos {
            } else if i < pos {
                if j - 1 > pos {
                    lemma_str_lt_transitive(k, keys[pos], keys[j - 1]);
                }
                lemma_str_lt_transitive(keys[i], k, keys[j - 1]);
            } else if i == pos {
                if j - 1 > pos {
                    lemma_str_lt_transitive(k, keys[pos], keys[j - 1]);
                }
            } else {
            }
        }
    }
}

pub proof fn lemma_join_absolute(c: Seq<u8>, n: Seq<u8>)
    requires
        is_absolute(c),
    ensures
        is_absolute(join_name(c, n)),
{
}

proof fn lemma_add_target_wf(st: Seq<TargetView>, max: usize, p: Seq<u8>, key: Option<Seq<char>>, disc: bool)
    requires
        plan_well_formed(st, max),
        is_absolute(p),
    ensures
        add_target(st, max, p, key, disc) matches Ok(st2) ==> plan_well_formed(st2, max),
{
    lemma_index_of_path(st, p);
    lemma_insert_pos(st, p);
    let i = index_of_path(st, p);
    if i < st.len() {
        let t = st[i];
        if let Some(k) = key {
            lemma_insert_key_sorted(t.keys, k);
        }
        let st2 = add_target(st, max, p, key, disc).unwrap();
        assert forall|a: int, b: int| 0 <= a < b < st2.len() implies path_lt(#[trigger] st2[a].path, #[trigger] st2[b].path) by {
            assert(st2[a].path == st[a].path);
            assert(st2[b].path == st[b].path);
        }
    } else if st.len() < max {
        let pos = insert_pos(st, p);
        let t = TargetView { path: p, keys: match key { Some(k) => seq![k], None => Seq::empty() }, discovers: disc };
        let st2 = st.insert(pos, t);
        assert(st2 == add_target(st, max, p, key, disc).unwrap());
        if pos < st.len() {
            assert(!path_same(st[pos].path, p));
            lemma_segs_lt_total(segments(st[pos].path), segments(p));
        }
        assert forall|a: int, b: int| 0 <= a < b < st2.len() implies path_lt(#[trigger] st2[a].path, #[trigger] st2[b].path) by {
            if b < pos {
            } else if b == pos {
            } else if a < pos {
                if b - 1 > pos {
                    lemma_segs_lt_transitive(segments(p), segments(st[pos].path), segments(st[b - 1].path));
                }
                lemma_segs_lt_transitive(segments(st[a].path), segments(p), segments(st[b - 1].path));
            } else if a == pos {
                if b - 1 > pos {
                    lemma_segs_lt_transitive(segments(p), segments(st[pos].path), segments(st[b - 1].path));
                }
            } else {
            }
        }
        assert forall|a: int| 0 <= a < st2.len() implies keys_sorted(#[trigger] st2[a].keys) by {
            if a == pos {
            } else if a < pos {
                assert(st2[a] == st[a]);
            } else {
                assert(st2[a] == st[a - 1]);
            }
        }
        assert forall|a: int| 0 <= a < st2.len() implies is_absolute(#[trigger] st2[a].path) by {
            if a < pos {
                assert(st2[a] == st[a]);
            } else if a > pos {
                assert(st2[a] == st[a - 1]);
            }
        }
    }
}

proof fn lemma_add_all_wf(st: Seq<TargetView>, max: usize, ps: Seq<Seq<u8>>, i: int, key: Option<Seq<char>>, disc: bool)
    requires
        plan_well_formed(st, max),
        forall|j: int| 0 <= j < ps.len() ==> is_absolute(#[trigger] ps[j]),
    ensures
        add_all(st, max, ps, i, key, disc) matches Ok(st2) ==> plan_well_formed(st2, max),
    decreases ps.len() - i,
{
    if 0 <= i < ps.len() {
        lemma_add_target_wf(st, max, ps[i], key, disc);
        if let Ok(st2) = add_target(st, max, ps[i], key, disc) {
            lemma_add_all_wf(st2, max, ps, i + 1, key, disc);
        }
    }
}

proof fn lemma_run_roots_wf(roots: Seq<Seq<u8>>, max: usize, i: int, st: Seq<TargetView>)
    requires
        plan_well_formed(st, max),
    ensures
        run_roots(roots, max, i, st) matches Ok(st2) ==> plan_well_formed(st2, max),
    decreases roots.len() - i,
{
    if 0 <= i < roots.len() && is_canonical_absolute(roots[i]) {
        lemma_add_target_wf(st, max, roots[i], None, true);
        if let Ok(st2) = add_target(st, max, roots[i], None, true) {
            lemma_run_roots_wf(roots, max, i + 1, st2);
        }
    }
}

proof fn lemma_run_worktrees_wf(roots: Seq<Seq<u8>>, repo: RepositoryInputView, key: Seq<char>, r: usize, max: usize, k: int, st: Seq<TargetView>)
    requires
        plan_well_formed(st, max),
    ensures
        run_worktrees(roots, repo, key, r, max, k, st) matches Ok(st2) ==> plan_well_formed(st2, max),
    decreases repo.worktrees.len() - k,
{
    if 0 <= k < repo.worktrees.len() {
        let c = repo.worktrees[k].control_dir;
        if is_canonical_absolute(c) {
            let ps = worktree_control_paths(c);
            assert forall|j: int| 0 <= j < ps.len() implies is_absolute(#[trigger] ps[j]) by {
                lemma_join_absolute(c, name_head());
                lemma_join_absolute(c, name_index());
            }
            lemma_add_all_wf(st, max, ps, 0, Some(key), false);
            if let Ok(st2) = add_all(st, max, ps, 0, Some(key), false) {
                lemma_run_worktrees_wf(roots, repo, key, r, max, k + 1, st2);
            }
        }
    }
}

proof fn lemma_run_repositories_wf(roots: Seq<Seq<u8>>, repos: Seq<RepositoryInputView>, max: usize, r: int, seen: Seq<Seq<char>>, st: Seq<TargetView>)
    requires
        plan_well_formed(st, max),
    ensures
        run_repositories(roots, repos, max, r, seen, st) matches Ok(st2) ==> plan_well_formed(st2, max),
    decreases repos.len() - r,
{
    if 0 <= r < repos.len() {
        let repo = repos[r];
        let key = trim_chars(repo.key);
        let c = repo.common;
        if key.len() > 0 && !seen.contains(key) && is_canonical_absolute(c) {
            let ps = common_control_paths(c);
            assert forall|j: int| 0 <= j < ps.len() implies is_absolute(#[trigger] ps[j]) by {
                lemma_join_absolute(c, name_head());
                lemma_join_absolute(c, name_index());
                lemma_join_absolute(c, name_packed_refs());
                lemma_join_absolute(c, name_refs());
                lemma_join_absolute(c, name_worktrees());
            }
            lemma_add_all_wf(st, max, ps, 0, Some(key), false);
            if let Ok(st2) = add_all(st, max, ps, 0, Some(key), false) {
                lemma_run_worktrees_wf(roots, repo, key, r as usize, max, 0, st2);
                if let Ok(st3) = run_worktrees(roots, repo, key, r as usize, max, 0, st2) {
                    lemma_run_repositories_wf(roots, repos, max, r + 1, seen.push(key), st3);
                }
            }
        }
    }
}

/// Plans are ordered by path without duplicates, each target's keys are ordered
/// without duplicates, and no plan exceeds the path cap.
pub proof fn lemma_plan_well_formed(roots: Seq<Seq<u8>>, repos: Seq<RepositoryInputView>, max: usize)
    ensures
        plan_spec(roots, repos, max) matches Ok(st) ==> plan_well_formed(st, max),
{
    if max > 0 && roots.len() > 0 {
        lemma_run_roots_wf(roots, max, 0, Seq::empty());
        if let Ok(st) = run_roots(roots, max, 0, Seq::empty()) {
            lemma_run_repositories_wf(roots, repos, max, 0, Seq::empty(), st);
        }
    }
}


/// `st` has an entry for `p`.
pub open spec fn root_recorded(st: Seq<TargetView>, p: Seq<u8>) -> bool {
    exists|k: int| 0 <= k < st.len() && #[trigger] path_same(st[k].path, p)
}

/// Every entry of `st` discovers repositories.
pub open spec fn all_discover(st: Seq<TargetView>) -> bool {
    forall|k: int| 0 <= k < st.len() ==> #[trigger] st[k].discovers
}

/// Adding a project root records it and keeps every root already recorded.
proof fn lemma_add_root_records(st: Seq<TargetView>, max: usize, q: Seq<u8>, p: Seq<u8>)
    requires
        all_discover(st),
        root_recorded(st, p) || path_same(q, p),
    ensures
        add_target(st, max, q, None, true) matches Ok(st2) ==> root_recorded(st2, p) && all_discover(st2),
{
    lemma_index_of_path(st, q);
    let i = index_of_path(st, q);
    if let Ok(st2) = add_target(st, max, q, None, true) {
        if i < st.len() {
            assert(st2.len() == st.len());
            if root_recorded(st, p) {
                let k = choose|k: int| 0 <= k < st.len() && #[trigger] path_same(st[k].path, p);
                assert(path_same(st2[k].path, p));
            } else {
                assert(path_same(st2[i].path, p));
            }
            assert forall|k: int| 0 <= k < st2.len() implies #[trigger] st2[k].discovers by {
                if k != i {
                    assert(st2[k] == st[k]);
                }
            }
        } else {
            lemma_insert_pos(st, q);
            let pos = insert_pos(st, q);
            assert(st2 == st.insert(pos, TargetView { path: q, keys: Seq::empty(), discovers: true }));
            if root_recorded(st, p) {
                let k = choose|k: int| 0 <= k < st.len() && #[trigger] path_same(st[k].path, p);
                if k < pos {
                    assert(path_same(st2[k].path, p));
                } else {
                    assert(st2[k + 1] == st[k]);
                    assert(path_same(st2[k + 1].path, p));
                }
            } else {
                assert(path_same(st2[pos].path, p));
            }
            assert forall|k: int| 0 <= k < st2.len() implies #[trigger] st2[k].discovers by {
                if k < pos {
                    assert(st2[k] == st[k]);
                } else if k > pos {
                    assert(st2[k] == st[k - 1]);
                }
            }
        }
    }
}

/// A successful pass over the project roots records every one of them.
proof fn lemma_run_roots_records(roots: Seq<Seq<u8>>, max: usize, i: int, st: Seq<TargetView>)
    requires
        0 <= i <= roots.len(),
        all_discover(st),
        forall|a: int| 0 <= a < i ==> root_recorded(st, #[trigger] roots[a]) && is_canonical_absolute(roots[a]),
    ensures
        run_roots(roots, max, i, st) matches Ok(s) ==> all_discover(s) && forall|a: int| 0 <= a < roots.len()
            ==> root_recorded(s, #[trigger] roots[a]) && is_canonical_absolute(roots[a]),
    decreases roots.len() - i,
{
    if i < roots.len() && is_canonical_absolute(roots[i]) {
        if let Ok(st2) = add_target(st, max, roots[i], None, true) {
            lemma_add_root_records(st, max, roots[i], roots[i]);
            assert forall|a: int| 0 <= a < i + 1 implies root_recorded(st2, #[trigger] roots[a]) && is_canonical_absolute(roots[a]) by {
                lemma_add_root_records(st, max, roots[i], roots[a]);
            }
            lemma_run_roots_records(roots, max, i + 1, st2);
        }
    }
}

/// Passing over the roots with one repeated at the end: the same outcome as without
/// it, followed by adding the repeat.
proof fn lemma_run_roots_repeat(roots: Seq<Seq<u8>>, j: int, max: usize, i: int, st: Seq<TargetView>)
    requires
        0 <= j < roots.len(),
        0 <= i <= roots.len(),
    ensures
        run_roots(roots.push(roots[j]), max, i, st) == match run_roots(roots, max, i, st) {
            Err(e) => Err(e),
            Ok(s) => run_roots(roots.push(roots[j]), max, roots.len() as int, s),
        },
    decreases roots.len() - i,
{
    let r2 = roots.push(roots[j]);
    if i < roots.len() {
        assert(r2[i] == roots[i]);
        if is_canonical_absolute(roots[i]) {
            if let Ok(st2) = add_target(st, max, roots[i], None, true) {
                lemma_run_roots_repeat(roots, j, max, i + 1, st2);
            }
        }
    }
}

/// Repeating a root adds nothing to the roots' containment.
proof fn lemma_contained_repeat(roots: Seq<Seq<u8>>, j: int, p: Seq<u8>)
    requires
        0 <= j < roots.len(),
    ensures
        contained_spec(p, roots.push(roots[j])) == contained_spec(p, roots),
{
    let r2 = roots.push(roots[j]);
    if contained_spec(p, r2) {
        let i = choose|i: int| 0 <= i < r2.len() && path_within(p, #[trigger] r2[i]);
        if i == roots.len() {
            assert(path_within(p, roots[j]));
        } else {
            assert(path_within(p, roots[i]));
        }
    }
    if contained_spec(p, roots) {
        let i = choose|i: int| 0 <= i < roots.len() && path_within(p, #[trigger] roots[i]);
        assert(path_within(p, r2[i]));
    }
}

proof fn lemma_run_worktrees_repeat(roots: Seq<Seq<u8>>, j: int, repo: RepositoryInputView, key: Seq<char>, r: usize, max: usize, k: int, st: Seq<TargetView>)
    requires
        0 <= j < roots.len(),
    ensures
        run_worktrees(roots.push(roots[j]), repo, key, r, max, k, st) == run_worktrees(roots, repo, key, r, max, k, st),
    decreases repo.worktrees.len() - k,
{
    if 0 <= k < repo.worktrees.len() {
        lemma_contained_repeat(roots, j, repo.worktrees[k].worktree_path);
        if let Ok(st2) = add_all(st, max, worktree_control_paths(repo.worktrees[k].control_dir), 0, Some(key), false) {
            lemma_run_worktrees_repeat(roots, j, repo, key, r, max, k + 1, st2);
        }
    }
}

proof fn lemma_run_repositories_repeat(roots: Seq<Seq<u8>>, j: int, repos: Seq<RepositoryInputView>, max: usize, r: int, seen: Seq<Seq<char>>, st: Seq<TargetView>)
    requires
        0 <= j < roots.len(),
    ensures
        run_repositories(roots.push(roots[j]), repos, max, r, seen, st) == run_repositories(roots, repos, max, r, seen, st),
    decreases repos.len() - r,
{
    if 0 <= r < repos.len() {
        let repo = repos[r];
        let key = trim_chars(repo.key);
        if let Ok(st2) = add_all(st, max, common_control_paths(repo.common), 0, Some(key), false) {
            lemma_run_worktrees_repeat(roots, j, repo, key, r as usize, max, 0, st2);
            if let Ok(st3) = run_worktrees(roots, repo, key, r as usize, max, 0, st2) {
                lemma_run_repositories_repeat(roots, j, repos, max, r + 1, seen.push(key), st3);
            }
        }
    }
}

/// Naming a project root twice plans exactly what naming it once does.
pub proof fn lemma_repeated_root_leaves_plan_unchanged(roots: Seq<Seq<u8>>, repos: Seq<RepositoryInputView>, max: usize, j: int)
    requires
        0 <= j < roots.len(),
    ensures
        plan_spec(roots.push(roots[j]), repos, max) == plan_spec(roots, repos, max),
{
    let r2 = roots.push(roots[j]);
    lemma_run_roots_repeat(roots, j, max, 0, Seq::empty());
    lemma_run_roots_records(roots, max, 0, Seq::empty());
    if let Ok(s) = run_roots(roots, max, 0, Seq::empty()) {
        lemma_run_repositories_repeat(roots, j, repos, max, 0, Seq::empty(), s);
        assert(r2[roots.len() as int] == roots[j]);
        assert(root_recorded(s, roots[j]) && is_canonical_absolute(roots[j]));
        lemma_index_of_path(s, roots[j]);
        let i = index_of_path(s, roots[j]);
        let k = choose|k: int| 0 <= k < s.len() && #[trigger] path_same(s[k].path, roots[j]);
        assert(i <= k);
        assert(s[i].discovers);
        let t = s[i];
        assert(add_target(s, max, roots[j], None, true) == Ok::<Seq<TargetView>, WatchPlanError>(s.update(i, TargetView {
            path: t.path, keys: t.keys, discovers: true,
        })));
        assert(s.update(i, TargetView { path: t.path, keys: t.keys, discovers: true }) =~= s);
        assert(run_roots(r2, max, (roots.len() + 1) as int, s) == Ok::<Seq<TargetView>, WatchPlanError>(s));
        assert(run_roots(r2, max, roots.len() as int, s) == Ok::<Seq<TargetView>, WatchPlanError>(s));
    }
}

/// The target a project root alone gives.
pub open spec fn root_entry(p: Seq<u8>) -> TargetView {
    TargetView { path: p, keys: Seq::empty(), discovers: true }
}

/// The paths of the targets, in order.
pub open spec fn target_paths(st: Seq<TargetView>) -> Seq<Seq<u8>> {
    Seq::new(st.len(), |k: int| st[k].path)
}

/// No two paths of `u` are spellings of the same path.
pub open spec fn distinct_spellings(u: Set<Seq<u8>>) -> bool {
    forall|a: Seq<u8>, b: Seq<u8>| #![trigger u.contains(a), u.contains(b)]
        u.contains(a) && u.contains(b) && path_same(a, b) ==> a == b
}

/// A well-formed plan whose paths are `set` and whose target for each path `p` is
/// `g(p)`.
pub open spec fn entries_state(st: Seq<TargetView>, set: Set<Seq<u8>>, g: spec_fn(Seq<u8>) -> TargetView, max: usize) -> bool {
    &&& plan_well_formed(st, max)
    &&& forall|k: int| 0 <= k < st.len() ==> #[trigger] st[k] == g(st[k].path)
    &&& target_paths(st).to_set() == set
}

/// A well-formed plan of project roots only, whose paths are `set`.
pub open spec fn roots_state(st: Seq<TargetView>, set: Set<Seq<u8>>, max: usize) -> bool {
    entries_state(st, set, |p: Seq<u8>| root_entry(p), max)
}

proof fn lemma_roots_state_len(st: Seq<TargetView>, set: Set<Seq<u8>>, max: usize)
    requires
        roots_state(st, set, max),
    ensures
        set.finite(),
        set.len() == st.len(),
{
    let tp = target_paths(st);
    assert forall|i: int, j: int| 0 <= i < tp.len() && 0 <= j < tp.len() && i != j implies tp[i] != tp[j] by {
        if i < j {
            assert(path_lt(st[i].path, st[j].path));
        } else {
            assert(path_lt(st[j].path, st[i].path));
        }
        lemma_segs_lt_irreflexive(segments(tp[i]));
    }
    assert(tp.no_duplicates());
    tp.unique_seq_to_set();
    vstd::seq_lib::seq_to_set_is_finite(tp);
}

proof fn lemma_add_root_step(st: Seq<TargetView>, max: usize, q: Seq<u8>, set: Set<Seq<u8>>, u: Set<Seq<u8>>)
    requires
        roots_state(st, set, max),
        distinct_spellings(u),
        set.subset_of(u),
        u.contains(q),
        is_absolute(q),
    ensures
        set.contains(q) ==> add_target(st, max, q, None, true) == Ok::<Seq<TargetView>, WatchPlanError>(st),
        !set.contains(q) && st.len() < max ==> (add_target(st, max, q, None, true) matches Ok(st2)
            && roots_state(st2, set.insert(q), max)),
        !set.contains(q) && st.len() >= max ==> add_target(st, max, q, None, true) is Err,
{
    broadcast use vstd::seq_lib::group_seq_properties;
    lemma_index_of_path(st, q);
    let i = index_of_path(st, q);
    let tp = target_paths(st);
    if i < st.len() {
        assert(tp[i] == st[i].path);
        assert(tp.to_set().contains(st[i].path));
        assert(st[i].path == q);
    }
    if set.contains(q) {
        assert(tp.contains(q));
        let k = choose|k: int| 0 <= k < tp.len() && tp[k] == q;
        assert(path_same(st[k].path, q));
        assert(i <= k);
        assert(st[i] == root_entry(q));
        assert(st.update(i, TargetView { path: st[i].path, keys: st[i].keys, discovers: st[i].discovers || true }) =~= st);
    } else {
        assert(i == st.len()) by {
            if i < st.len() {
                assert(tp.contains(q));
            }
        }
        if st.len() < max {
            lemma_add_target_wf(st, max, q, None, true);
            lemma_insert_pos(st, q);
            let pos = insert_pos(st, q);
            let st2 = st.insert(pos, root_entry(q));
            assert(add_target(st, max, q, None, true) == Ok::<Seq<TargetView>, WatchPlanError>(st2));
            assert forall|k: int| 0 <= k < st2.len() implies #[trigger] st2[k] == root_entry(st2[k].path) by {
                if k < pos {
                    assert(st2[k] == st[k]);
                } else if k > pos {
                    assert(st2[k] == st[k - 1]);
                }
            }
            let tp2 = target_paths(st2);
            assert(tp2 =~= tp.insert(pos, q));
            assert forall|x: Seq<u8>| tp2.to_set().contains(x) <==> set.insert(q).contains(x) by {
                if tp2.contains(x) {
                    let k = choose|k: int| 0 <= k < tp2.len() && tp2[k] == x;
                    if k < pos {
                        assert(tp[k] == x);
                    } else if k > pos {
                        assert(tp[k - 1] == x);
                    }
                }
                if set.contains(x) && x != q {
                    assert(tp.contains(x));
                    let k = choose|k: int| 0 <= k < tp.len() && tp[k] == x;
                    if k < pos {
                        assert(tp2[k] == x);
                    } else {
                        assert(tp2[k + 1] == x);
                    }
                }
                if x == q {
                    assert(tp2[pos] == q);
                }
            }
            assert(tp2.to_set() =~= set.insert(q));
        }
    }
}

/// The roots from index `i` on, as a set.
proof fn lemma_skip_set(roots: Seq<Seq<u8>>, i: int)
    requires
        0 <= i < roots.len(),
    ensures
        roots.skip(i).to_set() == roots.skip(i + 1).to_set().insert(roots[i]),
{
    broadcast use vstd::seq_lib::group_seq_properties;
    let s0 = roots.skip(i);
    let s1 = roots.skip(i + 1);
    assert forall|x: Seq<u8>| s0.to_set().contains(x) <==> s1.to_set().insert(roots[i]).contains(x) by {
        if s0.contains(x) {
            let k = choose|k: int| 0 <= k < s0.len() && s0[k] == x;
            if k > 0 {
                assert(s1[k - 1] == x);
            }
        }
        if s1.contains(x) {
            let k = choose|k: int| 0 <= k < s1.len() && s1[k] == x;
            assert(s0[k + 1] == x);
        }
        if x == roots[i] {
            assert(s0[0] == x);
        }
    }
    assert(s0.to_set() =~= s1.to_set().insert(roots[i]));
}

/// A pass over project roots from a roots-only plan: a successful pass plans
/// exactly the roots seen, and a pass whose roots are canonical and fit the cap
/// succeeds.
proof fn lemma_run_roots_state(roots: Seq<Seq<u8>>, max: usize, i: int, st: Seq<TargetView>, set: Set<Seq<u8>>, u: Set<Seq<u8>>)
    requires
        0 <= i <= roots.len(),
        roots_state(st, set, max),
        distinct_spellings(u),
        set.subset_of(u),
        forall|a: int| 0 <= a < roots.len() ==> u.contains(#[trigger] roots[a]),
    ensures
        run_roots(roots, max, i, st) matches Ok(s) ==> roots_state(s, set.union(roots.skip(i).to_set()), max),
        (forall|a: int| i <= a < roots.len() ==> is_canonical_absolute(#[trigger] roots[a]))
            && set.union(roots.skip(i).to_set()).len() <= max ==> run_roots(roots, max, i, st) is Ok,
    decreases roots.len() - i,
{
    broadcast use vstd::seq_lib::group_seq_properties;
    vstd::seq_lib::seq_to_set_is_finite(roots.skip(i));
    lemma_roots_state_len(st, set, max);
    if i == roots.len() {
        assert(roots.skip(i).to_set() =~= Set::<Seq<u8>>::empty());
        assert(set.union(roots.skip(i).to_set()) =~= set);
    } else {
        let q = roots[i];
        lemma_skip_set(roots, i);
        let total = set.union(roots.skip(i).to_set());
        if is_canonical_absolute(q) {
            lemma_add_root_step(st, max, q, set, u);
            if set.contains(q) {
                assert(set.union(roots.skip(i + 1).to_set()) =~= total);
                lemma_run_roots_state(roots, max, i + 1, st, set, u);
            } else {
                if st.len() < max {
                    let st2 = add_target(st, max, q, None, true).unwrap();
                    assert(set.insert(q).union(roots.skip(i + 1).to_set()) =~= total);
                    assert(set.insert(q).subset_of(u));
                    lemma_run_roots_state(roots, max, i + 1, st2, set.insert(q), u);
                }
                if total.len() <= max {
                    assert(set.insert(q).subset_of(total));
                    vstd::set_lib::lemma_len_subset(set.insert(q), total);
                    assert(st.len() < max);
                }
            }
        }
    }
}

/// Two plans with the same paths and the same target for each path are the same
/// plan.
proof fn lemma_entries_unique(a: Seq<TargetView>, b: Seq<TargetView>, set: Set<Seq<u8>>, g: spec_fn(Seq<u8>) -> TargetView, max: usize)
    requires
        entries_state(a, set, g, max),
        entries_state(b, set, g, max),
    ensures
        a == b,
    decreases a.len(),
{
    broadcast use vstd::seq_lib::group_seq_properties;
    let ta = target_paths(a);
    let tb = target_paths(b);
    if a.len() == 0 {
        if b.len() > 0 {
            assert(tb[0] == b[0].path);
            assert(set.contains(b[0].path));
            assert(ta.contains(b[0].path));
        }
        assert(a =~= b);
    } else {
        let m = a[0].path;
        assert(ta[0] == m);
        assert(set.contains(m));
        assert(tb.contains(m));
        let j = choose|j: int| 0 <= j < tb.len() && tb[j] == m;
        let n = b[0].path;
        assert(tb[0] == n);
        assert(tb.contains(n));
        assert(tb.to_set().contains(n));
        assert(set.contains(n));
        assert(ta.to_set().contains(n));
        assert(ta.contains(n));
        let k = choose|k: int| 0 <= k < ta.len() && ta[k] == n;
        if m != n {
            assert(j != 0 && k != 0);
            assert(path_lt(a[0].path, a[k].path));
            assert(path_lt(b[0].path, b[j].path));
            lemma_segs_lt_total(segments(m), segments(n));
        }
        assert(a[0] == b[0]);
        let a2 = a.drop_first();
        let b2 = b.drop_first();
        let set2 = set.remove(m);
        assert forall|x: Seq<u8>| target_paths(a2).to_set().contains(x) <==> set2.contains(x) by {
            if target_paths(a2).contains(x) {
                let c = choose|c: int| 0 <= c < target_paths(a2).len() && target_paths(a2)[c] == x;
                assert(ta[c + 1] == x);
                assert(path_lt(a[0].path, a[c + 1].path));
                lemma_segs_lt_irreflexive(segments(m));
            }
            if set2.contains(x) {
                assert(ta.contains(x));
                let c = choose|c: int| 0 <= c < ta.len() && ta[c] == x;
                assert(c != 0);
                assert(target_paths(a2)[c - 1] == x);
            }
        }
        assert forall|x: Seq<u8>| target_paths(b2).to_set().contains(x) <==> set2.contains(x) by {
            if target_paths(b2).contains(x) {
                let c = choose|c: int| 0 <= c < target_paths(b2).len() && target_paths(b2)[c] == x;
                assert(tb[c + 1] == x);
                assert(path_lt(b[0].path, b[c + 1].path));
                lemma_segs_lt_irreflexive(segments(m));
            }
            if set2.contains(x) {
                assert(tb.contains(x));
                let c = choose|c: int| 0 <= c < tb.len() && tb[c] == x;
                assert(c != 0);
                assert(target_paths(b2)[c - 1] == x);
            }
        }
        assert(target_paths(a2).to_set() =~= set2);
        assert(target_paths(b2).to_set() =~= set2);
        assert forall|x: int, y: int| 0 <= x < y < a2.len() implies path_lt(#[trigger] a2[x].path, #[trigger] a2[y].path) by {
            assert(a2[x] == a[x + 1] && a2[y] == a[y + 1]);
        }
        assert forall|x: int, y: int| 0 <= x < y < b2.len() implies path_lt(#[trigger] b2[x].path, #[trigger] b2[y].path) by {
            assert(b2[x] == b[x + 1] && b2[y] == b[y + 1]);
        }
        assert forall|x: int| 0 <= x < a2.len() implies #[trigger] a2[x] == g(a2[x].path) && is_absolute(a2[x].path) && keys_sorted(a2[x].keys) by {
            assert(a2[x] == a[x + 1]);
        }
        assert forall|x: int| 0 <= x < b2.len() implies #[trigger] b2[x] == g(b2[x].path) && is_absolute(b2[x].path) && keys_sorted(b2[x].keys) by {
            assert(b2[x] == b[x + 1]);
        }
        lemma_entries_unique(a2, b2, set2, g, max);
        assert(a =~= b);
    }
}

/// Root lists with the same members contain the same paths.
proof fn lemma_same_roots_contained(r1: Seq<Seq<u8>>, r2: Seq<Seq<u8>>, p: Seq<u8>)
    requires
        r1.to_set() == r2.to_set(),
    ensures
        contained_spec(p, r1) == contained_spec(p, r2),
{
    broadcast use vstd::seq_lib::group_seq_properties;
    if contained_spec(p, r1) {
        let i = choose|i: int| 0 <= i < r1.len() && path_within(p, #[trigger] r1[i]);
        assert(r1.to_set().contains(r1[i]));
        assert(r2.contains(r1[i]));
        let j = choose|j: int| 0 <= j < r2.len() && r2[j] == r1[i];
        assert(path_within(p, r2[j]));
    }
    if contained_spec(p, r2) {
        let i = choose|i: int| 0 <= i < r2.len() && path_within(p, #[trigger] r2[i]);
        assert(r2.to_set().contains(r2[i]));
        assert(r1.contains(r2[i]));
        let j = choose|j: int| 0 <= j < r1.len() && r1[j] == r2[i];
        assert(path_within(p, r1[j]));
    }
}

proof fn lemma_run_worktrees_same_roots(r1: Seq<Seq<u8>>, r2: Seq<Seq<u8>>, repo: RepositoryInputView, key: Seq<char>, r: usize, max: usize, k: int, st: Seq<TargetView>)
    requires
        r1.to_set() == r2.to_set(),
    ensures
        run_worktrees(r2, repo, key, r, max, k, st) == run_worktrees(r1, repo, key, r, max, k, st),
    decreases repo.worktrees.len() - k,
{
    if 0 <= k < repo.worktrees.len() {
        lemma_same_roots_contained(r1, r2, repo.worktrees[k].worktree_path);
        if let Ok(st2) = add_all(st, max, worktree_control_paths(repo.worktrees[k].control_dir), 0, Some(key), false) {
            lemma_run_worktrees_same_roots(r1, r2, repo, key, r, max, k + 1, st2);
        }
    }
}

proof fn lemma_run_repositories_same_roots(r1: Seq<Seq<u8>>, r2: Seq<Seq<u8>>, repos: Seq<RepositoryInputView>, max: usize, r: int, seen: Seq<Seq<char>>, st: Seq<TargetView>)
    requires
        r1.to_set() == r2.to_set(),
    ensures
        run_repositories(r2, repos, max, r, seen, st) == run_repositories(r1, repos, max, r, seen, st),
    decreases repos.len() - r,
{
    if 0 <= r < repos.len() {
        let repo = repos[r];
        let key = trim_chars(repo.key);
        if let Ok(st2) = add_all(st, max, common_control_paths(repo.common), 0, Some(key), false) {
            lemma_run_worktrees_same_roots(r1, r2, repo, key, r as usize, max, 0, st2);
            if let Ok(st3) = run_worktrees(r1, repo, key, r as usize, max, 0, st2) {
                lemma_run_repositories_same_roots(r1, r2, repos, max, r + 1, seen.push(key), st3);
            }
        }
    }
}

/// Naming the same project roots in another order, or with repeats, plans exactly
/// what the original list does, provided no two roots are different spellings of
/// one path (the plan keeps the spelling it met first).
pub proof fn lemma_plan_ignores_root_order(roots: Seq<Seq<u8>>, roots2: Seq<Seq<u8>>, repos: Seq<RepositoryInputView>, max: usize)
    requires
        plan_spec(roots, repos, max) is Ok,
        roots2.to_set() == roots.to_set(),
        distinct_spellings(roots.to_set()),
    ensures
        plan_spec(roots2, repos, max) == plan_spec(roots, repos, max),
{
    broadcast use vstd::seq_lib::group_seq_properties;
    let u = roots.to_set();
    let empty = Set::<Seq<u8>>::empty();
    assert(target_paths(Seq::<TargetView>::empty()).to_set() =~= empty);
    assert(roots_state(Seq::<TargetView>::empty(), empty, max));
    assert(roots.skip(0) =~= roots);
    assert(roots2.skip(0) =~= roots2);
    assert(empty.union(u) =~= u);
    assert(roots.len() > 0);
    assert(roots.to_set().contains(roots[0]));
    assert(roots2.contains(roots[0]));
    assert forall|a: int| 0 <= a < roots.len() implies u.contains(#[trigger] roots[a]) by {
        assert(roots.contains(roots[a]));
    }
    assert forall|a: int| 0 <= a < roots2.len() implies u.contains(#[trigger] roots2[a]) by {
        assert(roots2.contains(roots2[a]));
        assert(roots2.to_set().contains(roots2[a]));
    }
    lemma_run_roots_state(roots, max, 0, Seq::empty(), empty, u);
    lemma_run_roots_records(roots, max, 0, Seq::empty());
    let s = run_roots(roots, max, 0, Seq::empty()).unwrap();
    assert(roots_state(s, u, max));
    lemma_roots_state_len(s, u, max);
    assert(empty.union(roots2.skip(0).to_set()) =~= u);
    assert forall|a: int| 0 <= a < roots2.len() implies is_canonical_absolute(#[trigger] roots2[a]) by {
        assert(roots2.to_set().contains(roots2[a]));
        assert(roots.contains(roots2[a]));
        let b = choose|b: int| 0 <= b < roots.len() && roots[b] == roots2[a];
        assert(is_canonical_absolute(roots[b]));
    }
    lemma_run_roots_state(roots2, max, 0, Seq::empty(), empty, u);
    let s2 = run_roots(roots2, max, 0, Seq::empty()).unwrap();
    lemma_entries_unique(s2, s, u, |p: Seq<u8>| root_entry(p), max);
    lemma_run_repositories_same_roots(roots, roots2, repos, max, 0, Seq::empty(), s);
}

/// Some path of `added` names the same path as `p`.
pub open spec fn touched(added: Set<Seq<u8>>, p: Seq<u8>) -> bool {
    exists|q: Seq<u8>| #[trigger] added.contains(q) && path_same(q, p)
}

/// The target for `p` once the paths `added` are watched for `key` on top of the
/// plan `base`: a target of `base` gains the key when one of them names its path,
/// and a path new to `base` gets a target of its own.
pub open spec fn keyed_entry(base: Seq<TargetView>, added: Set<Seq<u8>>, key: Seq<char>, p: Seq<u8>) -> TargetView {
    let i = index_of_path(base, p);
    if i < base.len() {
        TargetView {
            path: base[i].path,
            keys: if touched(added, p) { insert_key(base[i].keys, key) } else { base[i].keys },
            discovers: base[i].discovers,
        }
    } else {
        TargetView { path: p, keys: seq![key], discovers: false }
    }
}

/// The paths of `base`, and those of `added` that `base` does not already name.
pub open spec fn keyed_paths(base: Seq<TargetView>, added: Set<Seq<u8>>) -> Set<Seq<u8>> {
    target_paths(base).to_set().union(added.filter(|q: Seq<u8>| index_of_path(base, q) == base.len()))
}

/// `st` is the plan `base` with the paths `added` watched for `key`.
pub open spec fn keyed_state(st: Seq<TargetView>, base: Seq<TargetView>, added: Set<Seq<u8>>, key: Seq<char>, max: usize) -> bool {
    entries_state(st, keyed_paths(base, added), |p: Seq<u8>| keyed_entry(base, added, key, p), max)
}

/// In a well-formed plan, a target's own path finds that target.
proof fn lemma_index_self(st: Seq<TargetView>, max: usize, k: int)
    requires
        plan_well_formed(st, max),
        0 <= k < st.len(),
    ensures
        index_of_path(st, st[k].path) == k,
{
    lemma_index_of_path(st, st[k].path);
    let i = index_of_path(st, st[k].path);
    if i != k {
        assert(i < k);
        assert(path_lt(st[i].path, st[k].path));
        assert(path_same(st[i].path, st[k].path));
        lemma_segs_lt_irreflexive(segments(st[k].path));
    }
}

/// A path that names the same path as a target's is found at or before it.
proof fn lemma_index_same(st: Seq<TargetView>, max: usize, k: int, q: Seq<u8>)
    requires
        plan_well_formed(st, max),
        0 <= k < st.len(),
        path_same(st[k].path, q),
    ensures
        index_of_path(st, q) == k,
{
    lemma_index_of_path(st, q);
    let i = index_of_path(st, q);
    if i != k {
        assert(i < k);
        assert(path_lt(st[i].path, st[k].path));
        assert(path_same(st[i].path, q));
        lemma_segs_lt_irreflexive(segments(st[k].path));
    }
}

/// Inserting a key twice is inserting it once.
proof fn lemma_insert_key_twice(keys: Seq<Seq<char>>, k: Seq<char>)
    ensures
        insert_key(insert_key(keys, k), k) == insert_key(keys, k),
{
    lemma_key_index(keys, k);
    let ks = insert_key(keys, k);
    lemma_key_index(ks, k);
    if key_index(keys, k) >= keys.len() {
        lemma_key_insert_pos(keys, k);
        let pos = key_insert_pos(keys, k);
        assert(ks[pos] == k);
        assert(key_index(ks, k) <= pos);
    }
}

/// A well-formed plan has one target per path of its set.
proof fn lemma_entries_len(st: Seq<TargetView>, set: Set<Seq<u8>>, g: spec_fn(Seq<u8>) -> TargetView, max: usize)
    requires
        entries_state(st, set, g, max),
    ensures
        set.finite(),
        set.len() == st.len(),
{
    let tp = target_paths(st);
    assert forall|i: int, j: int| 0 <= i < tp.len() && 0 <= j < tp.len() && i != j implies tp[i] != tp[j] by {
        if i < j {
            assert(path_lt(st[i].path, st[j].path));
        } else {
            assert(path_lt(st[j].path, st[i].path));
        }
        lemma_segs_lt_irreflexive(segments(tp[i]));
    }
    assert(tp.no_duplicates());
    tp.unique_seq_to_set();
    vstd::seq_lib::seq_to_set_is_finite(tp);
}

/// A well-formed plan with nothing added is its own keyed state.
proof fn lemma_keyed_start(base: Seq<TargetView>, key: Seq<char>, max: usize)
    requires
        plan_well_formed(base, max),
    ensures
        keyed_state(base, base, Set::empty(), key, max),
{
    let e = Set::<Seq<u8>>::empty();
    assert forall|k: int| 0 <= k < base.len() implies #[trigger] base[k] == keyed_entry(base, e, key, base[k].path) by {
        lemma_index_self(base, max, k);
        assert(!touched(e, base[k].path));
    }
    assert(e.filter(|q: Seq<u8>| index_of_path(base, q) == base.len()) =~= e);
    assert(keyed_paths(base, e) =~= target_paths(base).to_set());
}

/// Adding a path that does not name `p` leaves `p`'s target as it was.
proof fn lemma_keyed_entry_other(base: Seq<TargetView>, added: Set<Seq<u8>>, key: Seq<char>, q: Seq<u8>, p: Seq<u8>)
    requires
        !path_same(q, p),
    ensures
        keyed_entry(base, added.insert(q), key, p) == keyed_entry(base, added, key, p),
{
    if touched(added.insert(q), p) {
        let w = choose|w: Seq<u8>| #[trigger] added.insert(q).contains(w) && path_same(w, p);
        assert(w != q);
        assert(added.contains(w));
    }
    if touched(added, p) {
        let w = choose|w: Seq<u8>| #[trigger] added.contains(w) && path_same(w, p);
        assert(added.insert(q).contains(w));
    }
}

/// The paths of the keyed state grow by `q` exactly when `q` is new to `base`.
proof fn lemma_keyed_paths_insert(base: Seq<TargetView>, added: Set<Seq<u8>>, q: Seq<u8>)
    ensures
        index_of_path(base, q) == base.len() ==> keyed_paths(base, added.insert(q)) == keyed_paths(base, added).insert(q),
        index_of_path(base, q) != base.len() ==> keyed_paths(base, added.insert(q)) == keyed_paths(base, added),
{
    let f = |x: Seq<u8>| index_of_path(base, x) == base.len();
    if index_of_path(base, q) == base.len() {
        assert(added.insert(q).filter(f) =~= added.filter(f).insert(q));
        assert(keyed_paths(base, added.insert(q)) =~= keyed_paths(base, added).insert(q));
    } else {
        assert(added.insert(q).filter(f) =~= added.filter(f));
        assert(keyed_paths(base, added.insert(q)) =~= keyed_paths(base, added));
    }
}

/// One path watched for `key` on top of a keyed state gives the keyed state with
/// that path added; it fails only when a new path meets the cap.
proof fn lemma_add_keyed_step(st: Seq<TargetView>, base: Seq<TargetView>, added: Set<Seq<u8>>, key: Seq<char>, max: usize, q: Seq<u8>, u: Set<Seq<u8>>)
    requires
        plan_well_formed(base, max),
        keyed_state(st, base, added, key, max),
        distinct_spellings(u),
        added.subset_of(u),
        u.contains(q),
        is_absolute(q),
    ensures
        add_target(st, max, q, Some(key), false) matches Ok(st2) ==> keyed_state(st2, base, added.insert(q), key, max),
        keyed_paths(base, added.insert(q)).len() <= max ==> add_target(st, max, q, Some(key), false) is Ok,
{
    broadcast use vstd::seq_lib::group_seq_properties;
    let g = |p: Seq<u8>| keyed_entry(base, added, key, p);
    let a2 = added.insert(q);
    let g2 = |p: Seq<u8>| keyed_entry(base, a2, key, p);
    let s = keyed_paths(base, added);
    let tp = target_paths(st);
    let tb = target_paths(base);
    lemma_entries_len(st, s, g, max);
    lemma_keyed_paths_insert(base, added, q);
    lemma_index_of_path(base, q);
    lemma_index_of_path(st, q);
    lemma_add_target_wf(st, max, q, Some(key), false);
    let i0 = index_of_path(base, q);
    let j = index_of_path(st, q);
    if i0 < base.len() {
        let b = base[i0].path;
        assert(tb[i0] == b);
        assert(s.contains(b));
        assert(tp.contains(b));
        let k = choose|k: int| 0 <= k < tp.len() && tp[k] == b;
        lemma_index_same(st, max, k, q);
        lemma_index_self(base, max, i0);
        assert(st[k] == g(b));
        assert(a2.contains(q) && path_same(q, b));
        assert(touched(a2, b));
        lemma_insert_key_twice(base[i0].keys, key);
        let st2 = add_target(st, max, q, Some(key), false).unwrap();
        assert(st2[k] == g2(b));
        assert forall|m: int| 0 <= m < st2.len() implies #[trigger] st2[m] == g2(st2[m].path) by {
            if m != k {
                assert(st2[m] == st[m]);
                if path_same(q, st[m].path) {
                    if m < k {
                        assert(path_lt(st[m].path, st[k].path));
                    } else {
                        assert(path_lt(st[k].path, st[m].path));
                    }
                    lemma_segs_lt_irreflexive(segments(b));
                }
                lemma_keyed_entry_other(base, added, key, q, st[m].path);
            }
        }
        assert(target_paths(st2) =~= tp);
    } else if j < st.len() {
        let p = st[j].path;
        assert(tp[j] == p);
        assert(s.contains(p));
        if tb.to_set().contains(p) {
            let c = choose|c: int| 0 <= c < tb.len() && tb[c] == p;
            lemma_index_same(base, max, c, q);
        }
        assert(added.contains(p));
        assert(p == q);
        assert(a2 =~= added);
        lemma_key_index(seq![key], key);
        assert(st[j] == g(q));
        assert(insert_key(seq![key], key) == seq![key]);
        let st2 = add_target(st, max, q, Some(key), false).unwrap();
        assert(st2 =~= st);
    } else {
        assert(!s.contains(q)) by {
            if s.contains(q) {
                assert(tp.contains(q));
                let k = choose|k: int| 0 <= k < tp.len() && tp[k] == q;
                lemma_index_same(st, max, k, q);
            }
        }
        assert(!added.contains(q));
        if st.len() < max {
            lemma_insert_pos(st, q);
            let pos = insert_pos(st, q);
            let t = TargetView { path: q, keys: seq![key], discovers: false };
            let st2 = st.insert(pos, t);
            assert(add_target(st, max, q, Some(key), false) == Ok::<Seq<TargetView>, WatchPlanError>(st2));
            assert forall|m: int| 0 <= m < st2.len() implies #[trigger] st2[m] == g2(st2[m].path) by {
                if m == pos {
                    assert(g2(q) == t);
                } else {
                    let p = if m < pos { st[m].path } else { st[m - 1].path };
                    if m < pos {
                        assert(st2[m] == st[m]);
                    } else {
                        assert(st2[m] == st[m - 1]);
                    }
                    if path_same(q, p) {
                        if index_of_path(base, p) < base.len() {
                            let c = index_of_path(base, p);
                            lemma_index_same(base, max, c, q);
                        }
                    }
                    lemma_keyed_entry_other(base, added, key, q, p);
                }
            }
            let tp2 = target_paths(st2);
            assert(tp2 =~= tp.insert(pos, q));
            assert forall|x: Seq<u8>| tp2.to_set().contains(x) <==> s.insert(q).contains(x) by {
                if tp2.contains(x) {
                    let c = choose|c: int| 0 <= c < tp2.len() && tp2[c] == x;
                    if c < pos {
                        assert(tp[c] == x);
                    } else if c > pos {
                        assert(tp[c - 1] == x);
                    }
                }
                if s.contains(x) && x != q {
                    assert(tp.contains(x));
                    let c = choose|c: int| 0 <= c < tp.len() && tp[c] == x;
                    if c < pos {
                        assert(tp2[c] == x);
                    } else {
                        assert(tp2[c + 1] == x);
                    }
                }
                if x == q {
                    assert(tp2[pos] == q);
                }
            }
            assert(tp2.to_set() =~= s.insert(q));
        }
    }
}

/// The keyed paths grow with the paths added.
proof fn lemma_keyed_paths_grow(base: Seq<TargetView>, a: Set<Seq<u8>>, b: Set<Seq<u8>>)
    requires
        a.subset_of(b),
        b.finite(),
    ensures
        keyed_paths(base, a).subset_of(keyed_paths(base, b)),
        keyed_paths(base, b).finite(),
        keyed_paths(base, a).len() <= keyed_paths(base, b).len(),
{
    let f = |x: Seq<u8>| index_of_path(base, x) == base.len();
    vstd::seq_lib::seq_to_set_is_finite(target_paths(base));
    assert(b.filter(f).subset_of(b));
    vstd::set_lib::lemma_len_subset(b.filter(f), b);
    assert(a.finite()) by {
        vstd::set_lib::lemma_len_subset(a, b);
    }
    vstd::set_lib::lemma_len_subset(keyed_paths(base, a), keyed_paths(base, b));
}

/// Watching the paths `ps[i..]` for `key`, in order, on top of a keyed state.
proof fn lemma_add_all_keyed(st: Seq<TargetView>, base: Seq<TargetView>, added: Set<Seq<u8>>, key: Seq<char>, max: usize, ps: Seq<Seq<u8>>, i: int, u: Set<Seq<u8>>)
    requires
        plan_well_formed(base, max),
        keyed_state(st, base, added, key, max),
        added.finite(),
        distinct_spellings(u),
        added.subset_of(u),
        0 <= i <= ps.len(),
        forall|j: int| 0 <= j < ps.len() ==> u.contains(#[trigger] ps[j]) && is_absolute(ps[j]),
    ensures
        add_all(st, max, ps, i, Some(key), false) matches Ok(s) ==> keyed_state(s, base, added.union(ps.skip(i).to_set()), key, max),
        keyed_paths(base, added.union(ps.skip(i).to_set())).len() <= max ==> add_all(st, max, ps, i, Some(key), false) is Ok,
    decreases ps.len() - i,
{
    broadcast use vstd::seq_lib::group_seq_properties;
    vstd::seq_lib::seq_to_set_is_finite(ps.skip(i));
    if i == ps.len() {
        assert(ps.skip(i).to_set() =~= Set::<Seq<u8>>::empty());
        assert(added.union(ps.skip(i).to_set()) =~= added);
        lemma_entries_len(st, keyed_paths(base, added), |p: Seq<u8>| keyed_entry(base, added, key, p), max);
    } else {
        let q = ps[i];
        lemma_skip_set(ps, i);
        let total = added.union(ps.skip(i).to_set());
        assert(added.insert(q).union(ps.skip(i + 1).to_set()) =~= total);
        lemma_add_keyed_step(st, base, added, key, max, q, u);
        lemma_keyed_paths_grow(base, added.insert(q), total);
        if let Ok(st2) = add_target(st, max, q, Some(key), false) {
            lemma_add_all_keyed(st2, base, added.insert(q), key, max, ps, i + 1, u);
        }
    }
}

/// The control paths of the worktrees `ws[k..]`.
pub open spec fn worktree_paths_from(ws: Seq<WorktreeInputView>, k: int) -> Set<Seq<u8>>
    decreases ws.len() - k,
{
    if k < 0 || k >= ws.len() {
        Set::empty()
    } else {
        worktree_control_paths(ws[k].control_dir).to_set().union(worktree_paths_from(ws, k + 1))
    }
}

/// The control paths of all of a repository's worktrees.
pub open spec fn worktree_paths(ws: Seq<WorktreeInputView>) -> Set<Seq<u8>> {
    worktree_paths_from(ws, 0)
}

proof fn lemma_worktree_paths_from(ws: Seq<WorktreeInputView>, k: int)
    requires
        0 <= k <= ws.len(),
    ensures
        worktree_paths_from(ws, k).finite(),
        forall|p: Seq<u8>| #[trigger] worktree_paths_from(ws, k).contains(p) <==>
            exists|j: int| k <= j < ws.len() && worktree_control_paths(#[trigger] ws[j].control_dir).contains(p),
    decreases ws.len() - k,
{
    broadcast use vstd::seq_lib::group_seq_properties;
    if k < ws.len() {
        lemma_worktree_paths_from(ws, k + 1);
        vstd::seq_lib::seq_to_set_is_finite(worktree_control_paths(ws[k].control_dir));
        assert forall|p: Seq<u8>| #[trigger] worktree_paths_from(ws, k).contains(p) <==>
            exists|j: int| k <= j < ws.len() && worktree_control_paths(#[trigger] ws[j].control_dir).contains(p) by {
            if exists|j: int| k <= j < ws.len() && worktree_control_paths(#[trigger] ws[j].control_dir).contains(p) {
                let j = choose|j: int| k <= j < ws.len() && worktree_control_paths(#[trigger] ws[j].control_dir).contains(p);
                if j > k {
                    assert(worktree_paths_from(ws, k + 1).contains(p));
                }
            }
        }
    }
}

/// A worktree's paths are canonical, it lies under a project root, and its control
/// directory belongs to the repository.
pub open spec fn worktree_ok(roots: Seq<Seq<u8>>, common: Seq<u8>, w: WorktreeInputView) -> bool {
    &&& is_canonical_absolute(w.worktree_path)
    &&& contained_spec(w.worktree_path, roots)
    &&& is_canonical_absolute(w.control_dir)
    &&& valid_control_spec(w.control_dir, common)
}

proof fn lemma_run_worktrees_ok(roots: Seq<Seq<u8>>, repo: RepositoryInputView, key: Seq<char>, r: usize, max: usize, k: int, st: Seq<TargetView>)
    requires
        0 <= k,
        run_worktrees(roots, repo, key, r, max, k, st) is Ok,
    ensures
        forall|j: int| k <= j < repo.worktrees.len() ==> worktree_ok(roots, repo.common, #[trigger] repo.worktrees[j]),
    decreases repo.worktrees.len() - k,
{
    if k < repo.worktrees.len() {
        let st2 = add_all(st, max, worktree_control_paths(repo.worktrees[k].control_dir), 0, Some(key), false).unwrap();
        lemma_run_worktrees_ok(roots, repo, key, r, max, k + 1, st2);
    }
}

/// A pass over a repository's worktrees from a keyed state: a successful pass
/// watches exactly the control paths of the worktrees it met, and a pass whose
/// worktrees are all valid and whose paths fit the cap succeeds.
proof fn lemma_run_worktrees_keyed(roots: Seq<Seq<u8>>, repo: RepositoryInputView, key: Seq<char>, r: usize, max: usize, k: int, st: Seq<TargetView>, base: Seq<TargetView>, added: Set<Seq<u8>>)
    requires
        plan_well_formed(base, max),
        keyed_state(st, base, added, key, max),
        added.finite(),
        distinct_spellings(worktree_paths(repo.worktrees)),
        added.subset_of(worktree_paths(repo.worktrees)),
        0 <= k <= repo.worktrees.len(),
    ensures
        run_worktrees(roots, repo, key, r, max, k, st) matches Ok(s)
            ==> keyed_state(s, base, added.union(worktree_paths_from(repo.worktrees, k)), key, max),
        (forall|j: int| k <= j < repo.worktrees.len() ==> worktree_ok(roots, repo.common, #[trigger] repo.worktrees[j]))
            && keyed_paths(base, added.union(worktree_paths_from(repo.worktrees, k))).len() <= max
            ==> run_worktrees(roots, repo, key, r, max, k, st) is Ok,
    decreases repo.worktrees.len() - k,
{
    broadcast use vstd::seq_lib::group_seq_properties;
    let ws = repo.worktrees;
    let u = worktree_paths(ws);
    lemma_worktree_paths_from(ws, k);
    lemma_worktree_paths_from(ws, 0);
    if k == ws.len() {
        assert(added.union(worktree_paths_from(ws, k)) =~= added);
        lemma_entries_len(st, keyed_paths(base, added), |p: Seq<u8>| keyed_entry(base, added, key, p), max);
    } else {
        let w = ws[k];
        let c = w.control_dir;
        if worktree_ok(roots, repo.common, w) {
            let ps = worktree_control_paths(c);
            assert forall|j: int| 0 <= j < ps.len() implies u.contains(#[trigger] ps[j]) && is_absolute(ps[j]) by {
                lemma_join_absolute(c, name_head());
                lemma_join_absolute(c, name_index());
                assert(ps.contains(ps[j]));
                assert(worktree_control_paths(ws[k].control_dir).contains(ps[j]));
                assert(0 <= k < ws.len());
            }
            lemma_worktree_paths_from(ws, k + 1);
            vstd::seq_lib::seq_to_set_is_finite(ps);
            assert(ps.skip(0) =~= ps);
            let a2 = added.union(ps.to_set());
            assert(a2.union(worktree_paths_from(ws, k + 1)) =~= added.union(worktree_paths_from(ws, k)));
            assert(a2.subset_of(u)) by {
                assert forall|x: Seq<u8>| a2.contains(x) implies u.contains(x) by {
                    if ps.to_set().contains(x) {
                        let j = choose|j: int| 0 <= j < ps.len() && ps[j] == x;
                        assert(u.contains(ps[j]));
                    }
                }
            }
            lemma_add_all_keyed(st, base, added, key, max, ps, 0, u);
            lemma_keyed_paths_grow(base, a2, added.union(worktree_paths_from(ws, k)));
            if let Ok(st2) = add_all(st, max, ps, 0, Some(key), false) {
                lemma_run_worktrees_keyed(roots, repo, key, r, max, k + 1, st2, base, a2);
            }
        }
    }
}

/// Worktree lists with the same members name the same control paths.
proof fn lemma_same_worktrees_paths(ws: Seq<WorktreeInputView>, ws2: Seq<WorktreeInputView>)
    requires
        ws2.to_set() == ws.to_set(),
    ensures
        worktree_paths(ws2) == worktree_paths(ws),
{
    broadcast use vstd::seq_lib::group_seq_properties;
    lemma_worktree_paths_from(ws, 0);
    lemma_worktree_paths_from(ws2, 0);
    assert forall|p: Seq<u8>| worktree_paths(ws2).contains(p) <==> worktree_paths(ws).contains(p) by {
        if worktree_paths(ws2).contains(p) {
            let j = choose|j: int| 0 <= j < ws2.len() && worktree_control_paths(#[trigger] ws2[j].control_dir).contains(p);
            assert(ws2.to_set().contains(ws2[j]));
            assert(ws.contains(ws2[j]));
            let i = choose|i: int| 0 <= i < ws.len() && ws[i] == ws2[j];
            assert(worktree_control_paths(ws[i].control_dir).contains(p));
        }
        if worktree_paths(ws).contains(p) {
            let j = choose|j: int| 0 <= j < ws.len() && worktree_control_paths(#[trigger] ws[j].control_dir).contains(p);
            assert(ws.to_set().contains(ws[j]));
            assert(ws2.contains(ws[j]));
            let i = choose|i: int| 0 <= i < ws2.len() && ws2[i] == ws[j];
            assert(worktree_control_paths(ws2[i].control_dir).contains(p));
        }
    }
    assert(worktree_paths(ws2) =~= worktree_paths(ws));
}

/// One repository's worktree pass gives the same plan for any listing of the same
/// worktrees.
proof fn lemma_run_worktrees_order(roots: Seq<Seq<u8>>, repo: RepositoryInputView, repo2: RepositoryInputView, key: Seq<char>, r: usize, max: usize, st: Seq<TargetView>)
    requires
        plan_well_formed(st, max),
        repo2.common == repo.common,
        repo2.worktrees.to_set() == repo.worktrees.to_set(),
        distinct_spellings(worktree_paths(repo.worktrees)),
        run_worktrees(roots, repo, key, r, max, 0, st) is Ok,
    ensures
        run_worktrees(roots, repo2, key, r, max, 0, st) == run_worktrees(roots, repo, key, r, max, 0, st),
{
    broadcast use vstd::seq_lib::group_seq_properties;
    let ws = repo.worktrees;
    let ws2 = repo2.worktrees;
    let e = Set::<Seq<u8>>::empty();
    let w = worktree_paths(ws);
    lemma_keyed_start(st, key, max);
    lemma_same_worktrees_paths(ws, ws2);
    lemma_worktree_paths_from(ws, 0);
    assert(e.union(w) =~= w);
    lemma_run_worktrees_keyed(roots, repo, key, r, max, 0, st, st, e);
    lemma_run_worktrees_ok(roots, repo, key, r, max, 0, st);
    let s = run_worktrees(roots, repo, key, r, max, 0, st).unwrap();
    let g = |p: Seq<u8>| keyed_entry(st, w, key, p);
    lemma_entries_len(s, keyed_paths(st, w), g, max);
    assert forall|j: int| 0 <= j < ws2.len() implies worktree_ok(roots, repo2.common, #[trigger] ws2[j]) by {
        assert(ws2.to_set().contains(ws2[j]));
        assert(ws.contains(ws2[j]));
        let i = choose|i: int| 0 <= i < ws.len() && ws[i] == ws2[j];
        assert(worktree_ok(roots, repo.common, ws[i]));
    }
    lemma_run_worktrees_keyed(roots, repo2, key, r, max, 0, st, st, e);
    let s2 = run_worktrees(roots, repo2, key, r, max, 0, st).unwrap();
    lemma_entries_unique(s2, s, keyed_paths(st, w), g, max);
}

/// The same repository, with its worktrees listed in another order or with repeats.
pub open spec fn same_repository(a: RepositoryInputView, b: RepositoryInputView) -> bool {
    a.key == b.key && a.common == b.common && a.worktrees.to_set() == b.worktrees.to_set()
}

proof fn lemma_run_repositories_worktree_order(roots: Seq<Seq<u8>>, repos: Seq<RepositoryInputView>, repos2: Seq<RepositoryInputView>, max: usize, r: int, seen: Seq<Seq<char>>, st: Seq<TargetView>)
    requires
        0 <= r,
        plan_well_formed(st, max),
        repos2.len() == repos.len(),
        forall|i: int| 0 <= i < repos.len() ==> same_repository(#[trigger] repos[i], repos2[i]),
        forall|i: int| 0 <= i < repos.len() ==> distinct_spellings(worktree_paths(#[trigger] repos[i].worktrees)),
        run_repositories(roots, repos, max, r, seen, st) is Ok,
    ensures
        run_repositories(roots, repos2, max, r, seen, st) == run_repositories(roots, repos, max, r, seen, st),
    decreases repos.len() - r,
{
    if r < repos.len() {
        let repo = repos[r];
        let repo2 = repos2[r];
        assert(same_repository(repo, repo2));
        let key = trim_chars(repo.key);
        let c = repo.common;
        let ps = common_control_paths(c);
        assert forall|j: int| 0 <= j < ps.len() implies is_absolute(#[trigger] ps[j]) by {
            lemma_join_absolute(c, name_head());
            lemma_join_absolute(c, name_index());
            lemma_join_absolute(c, name_packed_refs());
            lemma_join_absolute(c, name_refs());
            lemma_join_absolute(c, name_worktrees());
        }
        lemma_add_all_wf(st, max, ps, 0, Some(key), false);
        let st2 = add_all(st, max, ps, 0, Some(key), false).unwrap();
        lemma_run_worktrees_order(roots, repo, repo2, key, r as usize, max, st2);
        lemma_run_worktrees_wf(roots, repo, key, r as usize, max, 0, st2);
        let st3 = run_worktrees(roots, repo, key, r as usize, max, 0, st2).unwrap();
        lemma_run_repositories_worktree_order(roots, repos, repos2, max, r + 1, seen.push(key), st3);
    }
}

/// Listing each repository's worktrees in another order, or with repeats, plans
/// exactly what the original lists do, provided no two control paths of one
/// repository's worktrees are different spellings of one path (the plan keeps the
/// spelling it met first).
pub proof fn lemma_plan_ignores_worktree_order(roots: Seq<Seq<u8>>, repos: Seq<RepositoryInputView>, repos2: Seq<RepositoryInputView>, max: usize)
    requires
        plan_spec(roots, repos, max) is Ok,
        repos2.len() == repos.len(),
        forall|i: int| 0 <= i < repos.len() ==> same_repository(#[trigger] repos[i], repos2[i]),
        forall|i: int| 0 <= i < repos.len() ==> distinct_spellings(worktree_paths(#[trigger] repos[i].worktrees)),
    ensures
        plan_spec(roots, repos2, max) == plan_spec(roots, repos, max),
{
    lemma_run_roots_wf(roots, max, 0, Seq::empty());
    let s = run_roots(roots, max, 0, Seq::empty()).unwrap();
    lemma_run_repositories_worktree_order(roots, repos, repos2, max, 0, Seq::empty(), s);
}

/// The plan depends on the project roots and on each repository's worktrees only as
/// sets: reordering or repeating either plans exactly the same targets, provided no
/// two roots, and no two control paths of one repository's worktrees, are different
/// spellings of one path.
pub proof fn lemma_plan_is_order_independent(roots: Seq<Seq<u8>>, roots2: Seq<Seq<u8>>, repos: Seq<RepositoryInputView>, repos2: Seq<RepositoryInputView>, max: usize)
    requires
        plan_spec(roots, repos, max) is Ok,
        roots2.to_set() == roots.to_set(),
        distinct_spellings(roots.to_set()),
        repos2.len() == repos.len(),
        forall|i: int| 0 <= i < repos.len() ==> same_repository(#[trigger] repos[i], repos2[i]),
        forall|i: int| 0 <= i < repos.len() ==> distinct_spellings(worktree_paths(#[trigger] repos[i].worktrees)),
    ensures
        plan_spec(roots2, repos2, max) == plan_spec(roots, repos, max),
{
    lemma_plan_ignores_root_order(roots, roots2, repos, max);
    lemma_plan_ignores_worktree_order(roots2, repos, repos2, max);
}

/// Some target of `st` is for the same path as `q`.
pub open spec fn names_path(st: Seq<TargetView>, q: Seq<u8>) -> bool {
    exists|k: int| 0 <= k < st.len() && path_same(#[trigger] st[k].path, q)
}

/// Every target's path is one of `u`, and every path of `p` has a target.
pub open spec fn paths_between(st: Seq<TargetView>, u: Set<Seq<u8>>, p: Set<Seq<u8>>) -> bool {
    &&& forall|k: int| 0 <= k < st.len() ==> u.contains(#[trigger] st[k].path)
    &&& forall|q: Seq<u8>| #[trigger] p.contains(q) ==> names_path(st, q)
}

proof fn lemma_add_target_paths(st: Seq<TargetView>, max: usize, q: Seq<u8>, key: Option<Seq<char>>, disc: bool, u: Set<Seq<u8>>, p: Set<Seq<u8>>)
    requires
        paths_between(st, u, p),
    ensures
        add_target(st, max, q, key, disc) matches Ok(st2) ==> paths_between(st2, u.insert(q), p.insert(q)),
{
    lemma_index_of_path(st, q);
    lemma_insert_pos(st, q);
    let i = index_of_path(st, q);
    if let Ok(st2) = add_target(st, max, q, key, disc) {
        if i < st.len() {
            assert forall|x: Seq<u8>| #[trigger] p.insert(q).contains(x) implies names_path(st2, x) by {
                if x == q {
                    assert(path_same(st2[i].path, q));
                } else {
                    let k = choose|k: int| 0 <= k < st.len() && path_same(#[trigger] st[k].path, x);
                    assert(st2[k].path == st[k].path);
                }
            }
            assert forall|k: int| 0 <= k < st2.len() implies u.insert(q).contains(#[trigger] st2[k].path) by {
                assert(st2[k].path == st[k].path);
            }
        } else {
            let pos = insert_pos(st, q);
            assert forall|x: Seq<u8>| #[trigger] p.insert(q).contains(x) implies names_path(st2, x) by {
                if x == q {
                    assert(path_same(st2[pos].path, q));
                } else {
                    let k = choose|k: int| 0 <= k < st.len() && path_same(#[trigger] st[k].path, x);
                    if k < pos {
                        assert(st2[k] == st[k]);
                    } else {
                        assert(st2[k + 1] == st[k]);
                    }
                }
            }
            assert forall|k: int| 0 <= k < st2.len() implies u.insert(q).contains(#[trigger] st2[k].path) by {
                if k < pos {
                    assert(st2[k] == st[k]);
                } else if k > pos {
                    assert(st2[k] == st[k - 1]);
                }
            }
        }
    }
}

proof fn lemma_add_all_paths(st: Seq<TargetView>, max: usize, ps: Seq<Seq<u8>>, i: int, key: Option<Seq<char>>, disc: bool, u: Set<Seq<u8>>, p: Set<Seq<u8>>)
    requires
        paths_between(st, u, p),
        0 <= i <= ps.len(),
    ensures
        add_all(st, max, ps, i, key, disc) matches Ok(s) ==> paths_between(s, u.union(ps.skip(i).to_set()), p.union(ps.skip(i).to_set())),
    decreases ps.len() - i,
{
    if i == ps.len() {
        assert(ps.skip(i).to_set() =~= Set::<Seq<u8>>::empty());
        assert(u.union(ps.skip(i).to_set()) =~= u);
        assert(p.union(ps.skip(i).to_set()) =~= p);
    } else {
        lemma_skip_set(ps, i);
        lemma_add_target_paths(st, max, ps[i], key, disc, u, p);
        assert(u.insert(ps[i]).union(ps.skip(i + 1).to_set()) =~= u.union(ps.skip(i).to_set()));
        assert(p.insert(ps[i]).union(ps.skip(i + 1).to_set()) =~= p.union(ps.skip(i).to_set()));
        if let Ok(st2) = add_target(st, max, ps[i], key, disc) {
            lemma_add_all_paths(st2, max, ps, i + 1, key, disc, u.insert(ps[i]), p.insert(ps[i]));
        }
    }
}

proof fn lemma_run_roots_paths(roots: Seq<Seq<u8>>, max: usize, i: int, st: Seq<TargetView>, u: Set<Seq<u8>>, p: Set<Seq<u8>>)
    requires
        paths_between(st, u, p),
        0 <= i <= roots.len(),
    ensures
        run_roots(roots, max, i, st) matches Ok(s) ==> paths_between(s, u.union(roots.skip(i).to_set()), p.union(roots.skip(i).to_set())),
    decreases roots.len() - i,
{
    if i == roots.len() {
        assert(roots.skip(i).to_set() =~= Set::<Seq<u8>>::empty());
        assert(u.union(roots.skip(i).to_set()) =~= u);
        assert(p.union(roots.skip(i).to_set()) =~= p);
    } else if is_canonical_absolute(roots[i]) {
        lemma_skip_set(roots, i);
        lemma_add_target_paths(st, max, roots[i], None, true, u, p);
        assert(u.insert(roots[i]).union(roots.skip(i + 1).to_set()) =~= u.union(roots.skip(i).to_set()));
        assert(p.insert(roots[i]).union(roots.skip(i + 1).to_set()) =~= p.union(roots.skip(i).to_set()));
        if let Ok(st2) = add_target(st, max, roots[i], None, true) {
            lemma_run_roots_paths(roots, max, i + 1, st2, u.insert(roots[i]), p.insert(roots[i]));
        }
    }
}

proof fn lemma_run_worktrees_paths(roots: Seq<Seq<u8>>, repo: RepositoryInputView, key: Seq<char>, r: usize, max: usize, k: int, st: Seq<TargetView>, u: Set<Seq<u8>>, p: Set<Seq<u8>>)
    requires
        paths_between(st, u, p),
        0 <= k <= repo.worktrees.len(),
    ensures
        run_worktrees(roots, repo, key, r, max, k, st) matches Ok(s)
            ==> paths_between(s, u.union(worktree_paths_from(repo.worktrees, k)), p.union(worktree_paths_from(repo.worktrees, k))),
    decreases repo.worktrees.len() - k,
{
    let ws = repo.worktrees;
    if k == ws.len() {
        assert(u.union(worktree_paths_from(ws, k)) =~= u);
        assert(p.union(worktree_paths_from(ws, k)) =~= p);
    } else {
        let ps = worktree_control_paths(ws[k].control_dir);
        assert(ps.skip(0) =~= ps);
        lemma_add_all_paths(st, max, ps, 0, Some(key), false, u, p);
        let u2 = u.union(ps.to_set());
        let p2 = p.union(ps.to_set());
        assert(u2.union(worktree_paths_from(ws, k + 1)) =~= u.union(worktree_paths_from(ws, k)));
        assert(p2.union(worktree_paths_from(ws, k + 1)) =~= p.union(worktree_paths_from(ws, k)));
        if let Ok(st2) = add_all(st, max, ps, 0, Some(key), false) {
            lemma_run_worktrees_paths(roots, repo, key, r, max, k + 1, st2, u2, p2);
        }
    }
}

/// The Git control paths of the repositories `repos[r..]`: each common directory's
/// and each of its worktrees'.
pub open spec fn repository_paths(repos: Seq<RepositoryInputView>, r: int) -> Set<Seq<u8>>
    decreases repos.len() - r,
{
    if r < 0 || r >= repos.len() {
        Set::empty()
    } else {
        common_control_paths(repos[r].common).to_set().union(worktree_paths(repos[r].worktrees)).union(repository_paths(repos, r + 1))
    }
}

proof fn lemma_run_repositories_paths(roots: Seq<Seq<u8>>, repos: Seq<RepositoryInputView>, max: usize, r: int, seen: Seq<Seq<char>>, st: Seq<TargetView>, u: Set<Seq<u8>>, p: Set<Seq<u8>>)
    requires
        paths_between(st, u, p),
        0 <= r <= repos.len(),
    ensures
        run_repositories(roots, repos, max, r, seen, st) matches Ok(s)
            ==> paths_between(s, u.union(repository_paths(repos, r)), p.union(repository_paths(repos, r))),
    decreases repos.len() - r,
{
    if r == repos.len() {
        assert(u.union(repository_paths(repos, r)) =~= u);
        assert(p.union(repository_paths(repos, r)) =~= p);
    } else {
        let repo = repos[r];
        let key = trim_chars(repo.key);
        let ps = common_control_paths(repo.common);
        assert(ps.skip(0) =~= ps);
        lemma_add_all_paths(st, max, ps, 0, Some(key), false, u, p);
        let u2 = u.union(ps.to_set());
        let p2 = p.union(ps.to_set());
        if let Ok(st2) = add_all(st, max, ps, 0, Some(key), false) {
            lemma_run_worktrees_paths(roots, repo, key, r as usize, max, 0, st2, u2, p2);
            let w = worktree_paths(repo.worktrees);
            let u3 = u2.union(w);
            let p3 = p2.union(w);
            assert(u3.union(repository_paths(repos, r + 1)) =~= u.union(repository_paths(repos, r)));
            assert(p3.union(repository_paths(repos, r + 1)) =~= p.union(repository_paths(repos, r)));
            if let Ok(st3) = run_worktrees(roots, repo, key, r as usize, max, 0, st2) {
                lemma_run_repositories_paths(roots, repos, max, r + 1, seen.push(key), st3, u3, p3);
            }
        }
    }
}

/// A plan watches exactly its inputs: each target's path is a project root or a Git
/// control path of a repository (its common directory, `HEAD`, `index`,
/// `packed-refs`, `refs`, `worktrees`; a worktree's control directory, `HEAD`,
/// `index`), and each of those paths has a target.
pub proof fn lemma_plan_watches_exactly_its_inputs(roots: Seq<Seq<u8>>, repos: Seq<RepositoryInputView>, max: usize)
    requires
        plan_spec(roots, repos, max) is Ok,
    ensures
        paths_between(plan_spec(roots, repos, max)->Ok_0, roots.to_set().union(repository_paths(repos, 0)),
            roots.to_set().union(repository_paths(repos, 0))),
{
    let e = Set::<Seq<u8>>::empty();
    assert(paths_between(Seq::<TargetView>::empty(), e, e));
    assert(roots.skip(0) =~= roots);
    lemma_run_roots_paths(roots, max, 0, Seq::empty(), e, e);
    let s = run_roots(roots, max, 0, Seq::empty())->Ok_0;
    assert(e.union(roots.to_set()) =~= roots.to_set());
    lemma_run_repositories_paths(roots, repos, max, 0, Seq::empty(), s, roots.to_set(), roots.to_set());
}

/// A target under construction, with its components cached.
struct TargetBuilder {
    path: Vec<u8>,
    absolute: bool,
    segs: Vec<Vec<u8>>,
    repository_keys: Vec<String>,
    discovers_repositories: bool,
}

impl View for TargetBuilder {
    type V = TargetView;

    closed spec fn view(&self) -> TargetView {
        TargetView { path: self.path@, keys: string_views(self.repository_keys@), discovers: self.discovers_repositories }
    }
}

impl TargetBuilder {
    spec fn wf(&self) -> bool {
        views(self.segs@) == segments(self.path@) && self.absolute == is_absolute(self.path@)
    }
}

struct PlanBuilder {
    targets: Vec<TargetBuilder>,
    max_paths: usize,
}

spec fn builder_views(v: Seq<TargetBuilder>) -> Seq<TargetView> {
    Seq::new(v.len(), |i: int| v[i]@)
}

impl PlanBuilder {
    spec fn wf(&self) -> bool {
        forall|i: int| 0 <= i < self.targets@.len() ==> (#[trigger] self.targets@[i]).wf()
    }

    spec fn view_targets(&self) -> Seq<TargetView> {
        builder_views(self.targets@)
    }

    fn new(max_paths: usize) -> (b: Self)
        ensures
            b.wf(),
            b.view_targets() == Seq::<TargetView>::empty(),
            b.max_paths == max_paths,
    {
        let b = PlanBuilder { targets: Vec::new(), max_paths };
        assert(b.view_targets() =~= Seq::<TargetView>::empty());
        b
    }

    fn add(&mut self, path: Vec<u8>, repository_key: Option<&String>, discovers_repositories: bool) -> (r: Result<(), WatchPlanError>)
        requires
            old(self).wf(),
        ensures
            final(self).wf(),
            final(self).max_paths == old(self).max_paths,
            match r {
                Ok(()) => add_target(old(self).view_targets(), old(self).max_paths, path@, opt_key(repository_key), discovers_repositories)
                    == Ok::<Seq<TargetView>, WatchPlanError>(final(self).view_targets()),
                Err(e) => add_target(old(self).view_targets(), old(self).max_paths, path@, opt_key(repository_key), discovers_repositories)
                    == Err::<Seq<TargetView>, WatchPlanError>(e),
            },
    {
        let ghost st = self.view_targets();
        let abs = absolute(path.as_slice());
        let segs = path_segments(path.as_slice());
        let mut i: usize = 0;
        while i < self.targets.len()
            invariant
                self.wf(),
                self.view_targets() == st,
                i <= self.targets.len(),
                abs == is_absolute(path@),
                views(segs@) == segments(path@),
                forall|j: int| 0 <= j < i ==> !path_same(#[trigger] st[j].path, path@),
            ensures
                self.wf(),
                self.view_targets() == st,
                i <= self.targets.len(),
                forall|j: int| 0 <= j < i ==> !path_same(#[trigger] st[j].path, path@),
                i < self.targets.len() ==> path_same(st[i as int].path, path@),
            decreases self.targets.len() - i,
        {
            let t = &self.targets[i];
            assert(st[i as int] == t@);
            assert(t.wf());
            if t.absolute == abs && segs_equal(&t.segs, &segs) {
                assert(path_same(st[i as int].path, path@));
                break;
            }
            i += 1;
        }
        proof {
            lemma_index_of_path(st, path@);
            let q = index_of_path(st, path@);
            if i < st.len() {
                assert(st[i as int] == self.targets@[i as int]@);
                assert(self.targets@[i as int].wf());
            }
        }
        if i < self.targets.len() {
            proof {
                assert(self.targets@[i as int].wf());
                assert(path_same(st[i as int].path, path@));
                let q = index_of_path(st, path@);
                if q < i {
                    assert(!path_same(st[q].path, path@));
                }
                assert(index_of_path(st, path@) == i);
            }
            let mut t = self.targets.remove(i);
            let ghost old_t = t@;
            if let Some(key) = repository_key {
                insert_key_exec(&mut t.repository_keys, key);
            }
            t.discovers_repositories = t.discovers_repositories || discovers_repositories;
            self.targets.insert(i, t);
            proof {
                assert(self.view_targets() =~= st.update(i as int, TargetView {
                    path: old_t.path,
                    keys: match opt_key(repository_key) { Some(k) => insert_key(old_t.keys, k), None => old_t.keys },
                    discovers: old_t.discovers || discovers_repositories,
                }));
                assert forall|j: int| 0 <= j < self.targets@.len() implies (#[trigger] self.targets@[j]).wf() by {
                    if j != i {
                        assert(self.targets@[j] == old(self).targets@[j]);
                    }
                }
            }
            return Ok(());
        }
        assert(index_of_path(st, path@) == st.len());
        if self.targets.len() == self.max_paths {
            return Err(WatchPlanError::global(
                WatchPlanErrorKind::PathLimitReached { limit: self.max_paths, observed: self.max_paths.wrapping_add(1) },
            ));
        }
        let mut pos: usize = 0;
        while pos < self.targets.len()
            invariant
                self.wf(),
                self.view_targets() == st,
                pos <= self.targets.len(),
                views(segs@) == segments(path@),
                forall|j: int| 0 <= j < pos ==> path_lt(#[trigger] st[j].path, path@),
            ensures
                self.wf(),
                self.view_targets() == st,
                pos <= self.targets.len(),
                forall|j: int| 0 <= j < pos ==> path_lt(#[trigger] st[j].path, path@),
                pos < self.targets.len() ==> !path_lt(st[pos as int].path, path@),
            decreases self.targets.len() - pos,
        {
            let t = &self.targets[pos];
            assert(st[pos as int] == t@);
            assert(t.wf());
            if !segs_less(&t.segs, &segs) {
                assert(!path_lt(st[pos as int].path, path@));
                break;
            }
            pos += 1;
        }
        proof {
            lemma_insert_pos(st, path@);
            let q = insert_pos(st, path@);
            if pos < st.len() {
                assert(self.targets@[pos as int].wf());
                assert(!path_lt(st[pos as int].path, path@));
            }
            if q < pos {
                assert(path_lt(st[q].path, path@));
            }
            assert(insert_pos(st, path@) == pos);
        }
        let mut keys: Vec<String> = Vec::new();
        if let Some(key) = repository_key {
            keys.push(key.clone());
        }
        let t = TargetBuilder { path, absolute: abs, segs, repository_keys: keys, discovers_repositories };
        let ghost tv = t@;
        assert(tv.keys =~= match opt_key(repository_key) { Some(k) => seq![k], None => Seq::<Seq<char>>::empty() });
        self.targets.insert(pos, t);
        proof {
            assert(self.view_targets() =~= st.insert(pos as int, tv));
            assert forall|j: int| 0 <= j < self.targets@.len() implies (#[trigger] self.targets@[j]).wf() by {
                if j < pos {
                    assert(self.targets@[j] == old(self).targets@[j]);
                } else if j > pos {
                    assert(self.targets@[j] == old(self).targets@[j - 1]);
                }
            }
        }
        Ok(())
    }

    fn finish(self) -> (plan: WatchPlan)
        ensures
            target_views(plan.targets@) == self.view_targets(),
    {
        let mut out: Vec<WatchTarget> = Vec::new();
        let mut targets = self.targets;
        let ghost all = builder_views(targets@);
        let mut rest: Vec<TargetBuilder> = Vec::new();
        // Move the targets out in order.
        let n = targets.len();
        let mut i: usize = 0;
        while i < n
            invariant
                n == targets.len(),
                i <= n,
                out.len() == i,
                builder_views(targets@) == all,
                target_views(out@) == all.take(i as int),
            decreases n - i,
        {
            let t = &targets[i];
            let ghost tv = t@;
            assert(all[i as int] == tv);
            let w = WatchTarget {
                path: copy_range(t.path.as_slice(), 0, t.path.len()),
                repository_keys: clone_strings(&t.repository_keys),
                discovers_repositories: t.discovers_repositories,
            };
            assert(t.path@.subrange(0, t.path@.len() as int) =~= t.path@);
            assert(w@.keys == tv.keys);
            assert(w@ == tv);
            let ghost before = out@;
            out.push(w);
            assert forall|j: int| 0 <= j < i + 1 implies #[trigger] target_views(out@)[j] == all.take(i + 1)[j] by {
                if j < i {
                    assert(out@[j] == before[j]);
                    assert(target_views(before)[j] == all.take(i as int)[j]);
                }
            }
            assert(target_views(out@) =~= all.take(i + 1));
            i += 1;
        }
        assert(all.take(n as int) =~= all);
        WatchPlan { targets: out }
    }
}

pub open spec fn opt_key(k: Option<&String>) -> Option<Seq<char>> {
    match k {
        Some(s) => Some(s@),
        None => None,
    }
}

pub(crate) fn clone_strings(v: &Vec<String>) -> (r: Vec<String>)
    ensures
        string_views(r@) == string_views(v@),
{
    let mut out: Vec<String> = Vec::new();
    let mut i: usize = 0;
    while i < v.len()
        invariant
            i <= v.len(),
            out.len() == i,
            string_views(out@) == string_views(v@).take(i as int),
        decreases v.len() - i,
    {
        let c = v[i].clone();
        assert(c@ == v@[i as int]@);
        let ghost before = out@;
        out.push(c);
        assert(out@[i as int]@ == v@[i as int]@);
        assert forall|j: int| 0 <= j < i + 1 implies #[trigger] string_views(out@)[j] == string_views(v@).take(i + 1)[j] by {
            if j < i {
                assert(out@[j] == before[j]);
                assert(string_views(before)[j] == string_views(v@).take(i as int)[j]);
            }
        }
        assert(string_views(out@) =~= string_views(v@).take(i + 1));
        i += 1;
    }
    assert(string_views(v@).take(v.len() as int) =~= string_views(v@));
    out
}

pub(crate) fn insert_key_exec(keys: &mut Vec<String>, key: &String)
    ensures
        string_views(final(keys)@) == insert_key(string_views(old(keys)@), key@),
{
    let ghost ks = string_views(keys@);
    let mut i: usize = 0;
    while i < keys.len()
        invariant
            string_views(keys@) == ks,
            i <= keys.len(),
            forall|j: int| 0 <= j < i ==> #[trigger] ks[j] != key@,
        decreases keys.len() - i,
    {
        assert(ks[i as int] == keys@[i as int]@);
        if keys[i] == *key {
            proof {
                lemma_key_index(ks, key@);
                let q = key_index(ks, key@);
                if q < i {
                    assert(ks[q] != key@);
                }
            }
            return;
        }
        i += 1;
    }
    proof {
        lemma_key_index(ks, key@);
    }
    let mut pos: usize = 0;
    while pos < keys.len()
        invariant
            string_views(keys@) == ks,
            pos <= keys.len(),
            forall|j: int| 0 <= j < pos ==> str_lt(#[trigger] ks[j], key@),
        ensures
            string_views(keys@) == ks,
            pos <= keys.len(),
            forall|j: int| 0 <= j < pos ==> str_lt(#[trigger] ks[j], key@),
            pos < keys.len() ==> !str_lt(ks[pos as int], key@),
        decreases keys.len() - pos,
    {
        assert(ks[pos as int] == keys@[pos as int]@);
        if !string_less(&keys[pos], key) {
            assert(!str_lt(ks[pos as int], key@));
            break;
        }
        pos += 1;
    }
    proof {
        lemma_key_insert_pos(ks, key@);
        let q = key_insert_pos(ks, key@);
        if pos < ks.len() {
            assert(ks[pos as int] == keys@[pos as int]@);
        }
        if q < pos {
            assert(str_lt(ks[q], key@));
        }
        assert(key_insert_pos(ks, key@) == pos);
    }
    keys.insert(pos, key.clone());
    assert(string_views(keys@) =~= ks.insert(pos as int, key@));
}


/// Add `paths` in order.
fn add_paths(builder: &mut PlanBuilder, paths: &Vec<Vec<u8>>, repository_key: Option<&String>, discovers_repositories: bool) -> (r: Result<(), WatchPlanError>)
    requires
        old(builder).wf(),
    ensures
        final(builder).wf(),
        final(builder).max_paths == old(builder).max_paths,
        match r {
            Ok(()) => add_all(old(builder).view_targets(), old(builder).max_paths, views(paths@), 0, opt_key(repository_key), discovers_repositories)
                == Ok::<Seq<TargetView>, WatchPlanError>(final(builder).view_targets()),
            Err(e) => add_all(old(builder).view_targets(), old(builder).max_paths, views(paths@), 0, opt_key(repository_key), discovers_repositories)
                == Err::<Seq<TargetView>, WatchPlanError>(e),
        },
{
    let ghost ps = views(paths@);
    let ghost goal = add_all(builder.view_targets(), builder.max_paths, ps, 0, opt_key(repository_key), discovers_repositories);
    let ghost max = builder.max_paths;
    let mut i: usize = 0;
    while i < paths.len()
        invariant
            builder.wf(),
            builder.max_paths == max,
            max == old(builder).max_paths,
            goal == add_all(old(builder).view_targets(), max, ps, 0, opt_key(repository_key), discovers_repositories),
            ps == views(paths@),
            i <= paths.len(),
            add_all(builder.view_targets(), max, ps, i as int, opt_key(repository_key), discovers_repositories) == goal,
        decreases paths.len() - i,
    {
        let p = copy_range(paths[i].as_slice(), 0, paths[i].len());
        assert(p@ =~= ps[i as int]);
        match builder.add(p, repository_key, discovers_repositories) {
            Err(e) => {
                return Err(e);
            },
            Ok(()) => {},
        }
        i += 1;
    }
    Ok(())
}

pub(crate) fn path_within_exec(p: &[u8], root: &[u8]) -> (r: bool)
    ensures
        r == path_within(p@, root@),
{
    if absolute(p) != absolute(root) {
        return false;
    }
    let ps = path_segments(p);
    let rs = path_segments(root);
    segs_prefix(&rs, &ps)
}

pub(crate) fn path_same_exec(a: &[u8], b: &[u8]) -> (r: bool)
    ensures
        r == path_same(a@, b@),
{
    if absolute(a) != absolute(b) {
        return false;
    }
    let sa = path_segments(a);
    let sb = path_segments(b);
    segs_equal(&sa, &sb)
}

/// Some project root contains `path`.
fn contained_by_any(path: &[u8], roots: &[Vec<u8>]) -> (r: bool)
    ensures
        r == contained_spec(path@, views(roots@)),
{
    let mut i: usize = 0;
    while i < roots.len()
        invariant
            i <= roots.len(),
            forall|j: int| 0 <= j < i ==> !path_within(path@, #[trigger] views(roots@)[j]),
        decreases roots.len() - i,
    {
        assert(views(roots@)[i as int] == roots@[i as int]@);
        if path_within_exec(path, roots[i].as_slice()) {
            return true;
        }
        i += 1;
    }
    false
}

/// The kind of error for a path that is not canonical, or none.
fn validate_path(path: &[u8], field: &'static str) -> (r: Result<(), WatchPlanErrorKind>)
    ensures
        match r {
            Ok(()) => is_canonical_absolute(path@),
            Err(kind) => !is_canonical_absolute(path@) && kind == WatchPlanErrorKind::NonCanonicalPath(field),
        },
{
    if canonical_absolute(path) {
        Ok(())
    } else {
        Err(WatchPlanErrorKind::NonCanonicalPath(field))
    }
}

fn common_paths(common: &[u8]) -> (r: Vec<Vec<u8>>)
    ensures
        views(r@) == common_control_paths(common@),
{
    let head: [u8; 4] = [72u8, 69u8, 65u8, 68u8];
    let index: [u8; 5] = [105u8, 110u8, 100u8, 101u8, 120u8];
    let packed: [u8; 11] = [112u8, 97u8, 99u8, 107u8, 101u8, 100u8, 45u8, 114u8, 101u8, 102u8, 115u8];
    let refs: [u8; 4] = [114u8, 101u8, 102u8, 115u8];
    let worktrees: [u8; 9] = [119u8, 111u8, 114u8, 107u8, 116u8, 114u8, 101u8, 101u8, 115u8];
    assert(head@ == name_head());
    assert(index@ == name_index());
    assert(packed@ == name_packed_refs());
    assert(refs@ == name_refs());
    assert(worktrees@ == name_worktrees());
    let mut out: Vec<Vec<u8>> = Vec::new();
    out.push(copy_range(common, 0, common.len()));
    out.push(join_component(common, &head));
    out.push(join_component(common, &index));
    out.push(join_component(common, &packed));
    out.push(join_component(common, &refs));
    out.push(join_component(common, &worktrees));
    assert(common@.subrange(0, common@.len() as int) =~= common@);
    assert(views(out@) =~= common_control_paths(common@));
    out
}

fn control_paths(control: &[u8]) -> (r: Vec<Vec<u8>>)
    ensures
        views(r@) == worktree_control_paths(control@),
{
    let head: [u8; 4] = [72u8, 69u8, 65u8, 68u8];
    let index: [u8; 5] = [105u8, 110u8, 100u8, 101u8, 120u8];
    assert(head@ == name_head());
    assert(index@ == name_index());
    let mut out: Vec<Vec<u8>> = Vec::new();
    out.push(copy_range(control, 0, control.len()));
    out.push(join_component(control, &head));
    out.push(join_component(control, &index));
    assert(control@.subrange(0, control@.len() as int) =~= control@);
    assert(views(out@) =~= worktree_control_paths(control@));
    out
}

fn add_common_controls(builder: &mut PlanBuilder, common: &[u8], repository_key: &String) -> (r: Result<(), WatchPlanError>)
    requires
        old(builder).wf(),
    ensures
        final(builder).wf(),
        final(builder).max_paths == old(builder).max_paths,
        match r {
            Ok(()) => add_all(old(builder).view_targets(), old(builder).max_paths, common_control_paths(common@), 0, Some(repository_key@), false)
                == Ok::<Seq<TargetView>, WatchPlanError>(final(builder).view_targets()),
            Err(e) => add_all(old(builder).view_targets(), old(builder).max_paths, common_control_paths(common@), 0, Some(repository_key@), false)
                == Err::<Seq<TargetView>, WatchPlanError>(e),
        },
{
    let paths = common_paths(common);
    add_paths(builder, &paths, Some(repository_key), false)
}

fn add_worktree_controls(builder: &mut PlanBuilder, control: &[u8], repository_key: &String) -> (r: Result<(), WatchPlanError>)
    requires
        old(builder).wf(),
    ensures
        final(builder).wf(),
        final(builder).max_paths == old(builder).max_paths,
        match r {
            Ok(()) => add_all(old(builder).view_targets(), old(builder).max_paths, worktree_control_paths(control@), 0, Some(repository_key@), false)
                == Ok::<Seq<TargetView>, WatchPlanError>(final(builder).view_targets()),
            Err(e) => add_all(old(builder).view_targets(), old(builder).max_paths, worktree_control_paths(control@), 0, Some(repository_key@), false)
                == Err::<Seq<TargetView>, WatchPlanError>(e),
        },
{
    let paths = control_paths(control);
    add_paths(builder, &paths, Some(repository_key), false)
}

fn contains_string(v: &Vec<String>, s: &String) -> (r: bool)
    ensures
        r == string_views(v@).contains(s@),
{
    let mut i: usize = 0;
    while i < v.len()
        invariant
            i <= v.len(),
            forall|j: int| 0 <= j < i ==> #[trigger] string_views(v@)[j] != s@,
        decreases v.len() - i,
    {
        assert(string_views(v@)[i as int] == v@[i as int]@);
        if v[i] == *s {
            return true;
        }
        i += 1;
    }
    false
}

/// Build a deterministic watch set without reading or traversing the filesystem.
///
/// Callers provide already-canonical project roots and exact Git control
/// directories. Worktree source paths are validated for containment but are not
/// watched. A linked-worktree control directory must be a child of the common
/// Git directory's worktrees directory.
pub fn plan_watch_set(project_roots: &[Vec<u8>], repositories: &[RepositoryWatchInput], options: WatchPlannerOptions) -> (r: Result<WatchPlan, WatchPlanError>)
    ensures
        match r {
            Ok(plan) => plan_spec(views(project_roots@), repository_views(repositories@), options.max_paths)
                == Ok::<Seq<TargetView>, WatchPlanError>(target_views(plan.targets@)),
            Err(e) => plan_spec(views(project_roots@), repository_views(repositories@), options.max_paths)
                == Err::<Seq<TargetView>, WatchPlanError>(e),
        },
        r matches Ok(plan) ==> plan_well_formed(target_views(plan.targets@), options.max_paths),
{
    let ghost roots = views(project_roots@);
    let ghost repos = repository_views(repositories@);
    let ghost max = options.max_paths;
    proof {
        lemma_plan_well_formed(roots, repos, max);
    }
    if options.max_paths == 0 {
        return Err(WatchPlanError::global(WatchPlanErrorKind::InvalidMaxPaths));
    }
    if project_roots.len() == 0 {
        return Err(WatchPlanError::global(WatchPlanErrorKind::NoProjectRoots));
    }
    let mut builder = PlanBuilder::new(options.max_paths);
    let mut index: usize = 0;
    while index < project_roots.len()
        invariant
            builder.wf(),
            builder.max_paths == max,
            max == options.max_paths,
            roots == views(project_roots@),
            repos == repository_views(repositories@),
            index <= project_roots.len(),
            plan_spec(roots, repos, max) == (match run_roots(roots, max, index as int, builder.view_targets()) {
                Err(e) => Err(e),
                Ok(st) => run_repositories(roots, repos, max, 0, Seq::empty(), st),
            }),
        decreases project_roots.len() - index,
    {
        let root = &project_roots[index];
        assert(roots[index as int] == root@);
        match validate_path(root.as_slice(), "project_root") {
            Err(kind) => {
                return Err(WatchPlanError::root(index, kind));
            },
            Ok(()) => {},
        }
        let p = copy_range(root.as_slice(), 0, root.len());
        assert(p@ =~= root@);
        match builder.add(p, None, true) {
            Err(e) => {
                return Err(e);
            },
            Ok(()) => {},
        }
        index += 1;
    }
    let mut seen: Vec<String> = Vec::new();
    let mut repository_index: usize = 0;
    assert(string_views(seen@) =~= Seq::<Seq<char>>::empty());
    while repository_index < repositories.len()
        invariant
            builder.wf(),
            builder.max_paths == max,
            max == options.max_paths,
            roots == views(project_roots@),
            repos == repository_views(repositories@),
            repository_index <= repositories.len(),
            plan_spec(roots, repos, max) == run_repositories(roots, repos, max, repository_index as int, string_views(seen@), builder.view_targets()),
        decreases repositories.len() - repository_index,
    {
        let repository = &repositories[repository_index];
        let ghost repo = repos[repository_index as int];
        assert(repo == repository@);
        let trimmed = trim_str(repository.repository_key.as_str());
        let key: String = trimmed.to_owned();
        assert(key@ == trim_chars(repo.key));
        if trimmed.is_empty() {
            return Err(WatchPlanError::repository(repository_index, WatchPlanErrorKind::EmptyRepositoryKey));
        }
        if contains_string(&seen, &key) {
            return Err(WatchPlanError::repository(repository_index, WatchPlanErrorKind::DuplicateRepositoryKey));
        }
        match validate_path(repository.common_git_dir.as_slice(), "common_git_dir") {
            Err(kind) => {
                return Err(WatchPlanError::repository(repository_index, kind));
            },
            Ok(()) => {},
        }
        let ghost before_common = builder.view_targets();
        match add_common_controls(&mut builder, repository.common_git_dir.as_slice(), &key) {
            Err(e) => {
                return Err(e);
            },
            Ok(()) => {},
        }
        let ghost seen_now = string_views(seen@);
        let worktrees: [u8; 9] = [119u8, 111u8, 114u8, 107u8, 116u8, 114u8, 101u8, 101u8, 115u8];
        assert(worktrees@ == name_worktrees());
        let linked_controls = join_component(repository.common_git_dir.as_slice(), &worktrees);
        let mut worktree_index: usize = 0;
        while worktree_index < repository.worktrees.len()
            invariant
                builder.wf(),
                builder.max_paths == max,
                max == options.max_paths,
                roots == views(project_roots@),
                repos == repository_views(repositories@),
                repository_index < repositories.len(),
                repo == repository@,
                repo == repos[repository_index as int],
                key@ == trim_chars(repo.key),
                seen_now == string_views(seen@),
                linked_controls@ == join_name(repo.common, name_worktrees()),
                worktree_index <= repository.worktrees.len(),
                plan_spec(roots, repos, max) == (match run_worktrees(roots, repo, key@, repository_index, max, worktree_index as int, builder.view_targets()) {
                    Err(e) => Err(e),
                    Ok(st3) => run_repositories(roots, repos, max, repository_index + 1, seen_now.push(key@), st3),
                }),
            decreases repository.worktrees.len() - worktree_index,
        {
            let worktree = &repository.worktrees[worktree_index];
            assert(repo.worktrees[worktree_index as int] == worktree@);
            match validate_path(worktree.worktree_path.as_slice(), "worktree_path") {
                Err(kind) => {
                    return Err(WatchPlanError::worktree(repository_index, worktree_index, kind));
                },
                Ok(()) => {},
            }
            if !contained_by_any(worktree.worktree_path.as_slice(), project_roots) {
                return Err(WatchPlanError::worktree(repository_index, worktree_index, WatchPlanErrorKind::WorktreeOutsideProjectRoots));
            }
            match validate_path(worktree.control_dir.as_slice(), "control_dir") {
                Err(kind) => {
                    return Err(WatchPlanError::worktree(repository_index, worktree_index, kind));
                },
                Ok(()) => {},
            }
            let valid_control = path_same_exec(worktree.control_dir.as_slice(), repository.common_git_dir.as_slice())
                || (!path_same_exec(worktree.control_dir.as_slice(), linked_controls.as_slice())
                    && path_within_exec(worktree.control_dir.as_slice(), linked_controls.as_slice()));
            if !valid_control {
                return Err(WatchPlanError::worktree(repository_index, worktree_index, WatchPlanErrorKind::ControlDirectoryOutsideCommonGitDir));
            }
            match add_worktree_controls(&mut builder, worktree.control_dir.as_slice(), &key) {
                Err(e) => {
                    return Err(e);
                },
                Ok(()) => {},
            }
            worktree_index += 1;
        }
        seen.push(key);
        assert(string_views(seen@) =~= seen_now.push(trim_chars(repo.key)));
        repository_index += 1;
    }
    let plan = builder.finish();
    Ok(plan)
}

} // verus!

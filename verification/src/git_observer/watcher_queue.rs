//! Debounced bounded Git watcher queue.
//!
//! Instants are nanosecond readings of one monotonic clock and durations are
//! nanosecond counts, both as `u64`. Paths are raw Unix path bytes.

use vstd::prelude::*;
use vstd::string::StringExecFns;

use crate::git_observer::overflow_flag::OverflowFlag;
use crate::git_observer::watcher::{
    clone_strings, insert_key, insert_key_exec, keys_sorted, path_same_exec, path_within_exec,
    target_views, TargetView, WatchPlan, WatchTarget,
};
use crate::message::{decimal_chars, push_decimal};
use crate::paths::{
    canonical_absolute, is_absolute, is_canonical_absolute, lemma_segs_lt_irreflexive,
    lemma_segs_lt_total, lemma_segs_lt_transitive, path_lt, path_same, path_segments, path_within,
    segments, segs_equal, segs_less,
};
use crate::strings::{string_views, lemma_str_lt_total, lemma_str_lt_transitive, str_lt, string_less, trim_chars, trim_str};

verus! {

#[derive(Debug, Clone, Copy, PartialEq, Eq)]
pub struct GitWatchQueueOptions {
    pub channel_capacity: usize,
    pub max_pending_repositories: usize,
    /// Quiet period, in nanoseconds, before a pending item is ready.
    pub debounce: u64,
}

impl Default for GitWatchQueueOptions {
    fn default() -> (o: Self)
        ensures
            o.channel_capacity == 1024,
            o.max_pending_repositories == 1024,
            o.debounce == 500_000_000,
    {
        Self { channel_capacity: 1024, max_pending_repositories: 1024, debounce: 500_000_000 }
    }
}

#[derive(Debug, Clone, Copy, PartialEq, Eq, Structural)]
pub enum GitWatchEventKind {
    Change,
    Create,
    Remove,
    Rescan,
}

#[derive(Debug, Clone, PartialEq, Eq)]
pub struct GitWatchEvent {
    pub kind: GitWatchEventKind,
    pub paths: Vec<Vec<u8>>,
    /// Clock reading, in nanoseconds, when the event was observed.
    pub observed_at: u64,
}

#[derive(Debug, Clone, PartialEq, Eq)]
pub enum GitWatchAction {
    ReconcileRepository { repository_key: String },
    DiscoverRepositories { project_root: Vec<u8> },
    FullReconcile,
}

#[derive(Debug, Clone, Copy, PartialEq, Eq, Structural)]
pub enum WatchEnqueueResult {
    Queued,
    OverflowSignaled,
    Closed,
}

#[derive(Debug, Clone, PartialEq, Eq, Structural)]
pub enum GitWatchQueueErrorKind {
    InvalidChannelCapacity,
    InvalidPendingRepositoryLimit,
    InvalidDebounce,
    NonCanonicalTargetPath { target_index: usize },
    EmptyRepositoryKey { target_index: usize },
}

#[derive(Debug, Clone, PartialEq, Eq, Structural)]
pub struct GitWatchQueueError {
    pub kind: GitWatchQueueErrorKind,
}

/// Mathematical view of an action.
pub enum ActionView {
    ReconcileRepository(Seq<char>),
    DiscoverRepositories(Seq<u8>),
    FullReconcile,
}

impl View for GitWatchAction {
    type V = ActionView;

    open spec fn view(&self) -> ActionView {
        match self {
            GitWatchAction::ReconcileRepository { repository_key } => ActionView::ReconcileRepository(repository_key@),
            GitWatchAction::DiscoverRepositories { project_root } => ActionView::DiscoverRepositories(project_root@),
            GitWatchAction::FullReconcile => ActionView::FullReconcile,
        }
    }
}

pub open spec fn action_views(v: Seq<GitWatchAction>) -> Seq<ActionView> {
    Seq::new(v.len(), |i: int| v[i]@)
}

pub open spec fn queue_kind_message(kind: GitWatchQueueErrorKind) -> Seq<char> {
    match kind {
        GitWatchQueueErrorKind::InvalidChannelCapacity => "channel_capacity must be positive"@,
        GitWatchQueueErrorKind::InvalidPendingRepositoryLimit => "max_pending_repositories must be positive"@,
        GitWatchQueueErrorKind::InvalidDebounce => "debounce must be positive"@,
        GitWatchQueueErrorKind::NonCanonicalTargetPath { target_index } =>
            "watch target "@ + decimal_chars(target_index as nat) + " path is not canonical"@,
        GitWatchQueueErrorKind::EmptyRepositoryKey { target_index } =>
            "watch target "@ + decimal_chars(target_index as nat) + " has an empty repository key"@,
    }
}

pub open spec fn queue_error_message(e: GitWatchQueueError) -> Seq<char> {
    "Git watch queue: "@ + queue_kind_message(e.kind)
}

fn push_queue_kind_message(out: &mut String, kind: &GitWatchQueueErrorKind)
    ensures
        final(out)@ == old(out)@ + queue_kind_message(*kind),
{
    let ghost start = out@;
    match kind {
        GitWatchQueueErrorKind::InvalidChannelCapacity => out.append("channel_capacity must be positive"),
        GitWatchQueueErrorKind::InvalidPendingRepositoryLimit => out.append("max_pending_repositories must be positive"),
        GitWatchQueueErrorKind::InvalidDebounce => out.append("debounce must be positive"),
        GitWatchQueueErrorKind::NonCanonicalTargetPath { target_index } => {
            out.append("watch target ");
            push_decimal(out, *target_index);
            out.append(" path is not canonical");
            assert(out@ =~= start + ("watch target "@ + decimal_chars(*target_index as nat) + " path is not canonical"@));
        },
        GitWatchQueueErrorKind::EmptyRepositoryKey { target_index } => {
            out.append("watch target ");
            push_decimal(out, *target_index);
            out.append(" has an empty repository key");
            assert(out@ =~= start + ("watch target "@ + decimal_chars(*target_index as nat) + " has an empty repository key"@));
        },
    }
}

impl GitWatchQueueErrorKind {
    /// The kind's message.
    pub fn to_string(&self) -> (s: String)
        ensures
            s@ == queue_kind_message(*self),
    {
        let mut out = String::new();
        push_queue_kind_message(&mut out, self);
        assert(out@ =~= queue_kind_message(*self));
        out
    }
}

impl GitWatchQueueError {
    /// The error's message: `Git watch queue: <kind>`.
    pub fn to_string(&self) -> (s: String)
        ensures
            s@ == queue_error_message(*self),
    {
        let mut out = String::new();
        out.append("Git watch queue: ");
        push_queue_kind_message(&mut out, &self.kind);
        assert(out@ =~= queue_error_message(*self));
        out
    }
}


/// Pending work: repository keys and project roots, each with the instant of its
/// latest event, and whether a push found the pending set full.
pub struct PendingState {
    pub repos: Seq<(Seq<char>, u64)>,
    pub roots: Seq<(Seq<u8>, u64)>,
    pub signaled: bool,
}

/// Index of the pending entry for `k`, or the length when there is none.
pub open spec fn repo_index(repos: Seq<(Seq<char>, u64)>, k: Seq<char>) -> int
    decreases repos.len(),
{
    if repos.len() == 0 {
        0
    } else if repos[0].0 == k {
        0
    } else {
        1 + repo_index(repos.drop_first(), k)
    }
}

pub open spec fn repo_insert_pos(repos: Seq<(Seq<char>, u64)>, k: Seq<char>) -> int
    decreases repos.len(),
{
    if repos.len() == 0 {
        0
    } else if !str_lt(repos[0].0, k) {
        0
    } else {
        1 + repo_insert_pos(repos.drop_first(), k)
    }
}

/// Index of the pending entry for the same path as `p`, or the length when there is none.
pub open spec fn root_index(roots: Seq<(Seq<u8>, u64)>, p: Seq<u8>) -> int
    decreases roots.len(),
{
    if roots.len() == 0 {
        0
    } else if path_same(roots[0].0, p) {
        0
    } else {
        1 + root_index(roots.drop_first(), p)
    }
}

pub open spec fn root_insert_pos(roots: Seq<(Seq<u8>, u64)>, p: Seq<u8>) -> int
    decreases roots.len(),
{
    if roots.len() == 0 {
        0
    } else if !path_lt(roots[0].0, p) {
        0
    } else {
        1 + root_insert_pos(roots.drop_first(), p)
    }
}

/// Note an event for repository `k` at `t`: refresh its instant, add it, or, when
/// `max` items are already pending, signal overflow instead.
pub open spec fn push_repo(ps: PendingState, max: usize, k: Seq<char>, t: u64) -> PendingState {
    let i = repo_index(ps.repos, k);
    if i < ps.repos.len() {
        PendingState { repos: ps.repos.update(i, (k, t)), ..ps }
    } else if ps.repos.len() + ps.roots.len() >= max {
        PendingState { signaled: true, ..ps }
    } else {
        PendingState { repos: ps.repos.insert(repo_insert_pos(ps.repos, k), (k, t)), ..ps }
    }
}

/// Note a discovery event under project root `p` at `t`, as [`push_repo`] does; an
/// entry already pending for the same path keeps its spelling.
pub open spec fn push_root(ps: PendingState, max: usize, p: Seq<u8>, t: u64) -> PendingState {
    let i = root_index(ps.roots, p);
    if i < ps.roots.len() {
        PendingState { roots: ps.roots.update(i, (ps.roots[i].0, t)), ..ps }
    } else if ps.repos.len() + ps.roots.len() >= max {
        PendingState { signaled: true, ..ps }
    } else {
        PendingState { roots: ps.roots.insert(root_insert_pos(ps.roots, p), (p, t)), ..ps }
    }
}

/// Pending entries are ordered without duplicates, project roots are absolute, and
/// at most `max` items are pending.
pub open spec fn pending_wf(ps: PendingState, max: usize) -> bool {
    &&& ps.repos.len() + ps.roots.len() <= max
    &&& forall|i: int, j: int| 0 <= i < j < ps.repos.len() ==> str_lt(#[trigger] ps.repos[i].0, #[trigger] ps.repos[j].0)
    &&& forall|i: int, j: int| 0 <= i < j < ps.roots.len() ==> path_lt(#[trigger] ps.roots[i].0, #[trigger] ps.roots[j].0)
    &&& forall|i: int| 0 <= i < ps.roots.len() ==> is_absolute(#[trigger] ps.roots[i].0)
}

proof fn lemma_repo_index(repos: Seq<(Seq<char>, u64)>, k: Seq<char>)
    ensures
        0 <= repo_index(repos, k) <= repos.len(),
        repo_index(repos, k) < repos.len() ==> repos[repo_index(repos, k)].0 == k,
        forall|j: int| 0 <= j < repo_index(repos, k) ==> #[trigger] repos[j].0 != k,
    decreases repos.len(),
{
    if repos.len() > 0 && repos[0].0 != k {
        lemma_repo_index(repos.drop_first(), k);
        assert forall|j: int| 0 <= j < repo_index(repos, k) implies #[trigger] repos[j].0 != k by {
            if j > 0 {
                assert(repos[j] == repos.drop_first()[j - 1]);
            }
        }
    }
}

proof fn lemma_repo_insert_pos(repos: Seq<(Seq<char>, u64)>, k: Seq<char>)
    ensures
        0 <= repo_insert_pos(repos, k) <= repos.len(),
        repo_insert_pos(repos, k) < repos.len() ==> !str_lt(repos[repo_insert_pos(repos, k)].0, k),
        forall|j: int| 0 <= j < repo_insert_pos(repos, k) ==> str_lt(#[trigger] repos[j].0, k),
    decreases repos.len(),
{
    if repos.len() > 0 && str_lt(repos[0].0, k) {
        lemma_repo_insert_pos(repos.drop_first(), k);
        assert forall|j: int| 0 <= j < repo_insert_pos(repos, k) implies str_lt(#[trigger] repos[j].0, k) by {
            if j > 0 {
                assert(repos[j] == repos.drop_first()[j - 1]);
            }
        }
    }
}

proof fn lemma_root_index(roots: Seq<(Seq<u8>, u64)>, p: Seq<u8>)
    ensures
        0 <= root_index(roots, p) <= roots.len(),
        root_index(roots, p) < roots.len() ==> path_same(roots[root_index(roots, p)].0, p),
        forall|j: int| 0 <= j < root_index(roots, p) ==> !path_same(#[trigger] roots[j].0, p),
    decreases roots.len(),
{
    if roots.len() > 0 && !path_same(roots[0].0, p) {
        lemma_root_index(roots.drop_first(), p);
        assert forall|j: int| 0 <= j < root_index(roots, p) implies !path_same(#[trigger] roots[j].0, p) by {
            if j > 0 {
                assert(roots[j] == roots.drop_first()[j - 1]);
            }
        }
    }
}

proof fn lemma_root_insert_pos(roots: Seq<(Seq<u8>, u64)>, p: Seq<u8>)
    ensures
        0 <= root_insert_pos(roots, p) <= roots.len(),
        root_insert_pos(roots, p) < roots.len() ==> !path_lt(roots[root_insert_pos(roots, p)].0, p),
        forall|j: int| 0 <= j < root_insert_pos(roots, p) ==> path_lt(#[trigger] roots[j].0, p),
    decreases roots.len(),
{
    if roots.len() > 0 && path_lt(roots[0].0, p) {
        lemma_root_insert_pos(roots.drop_first(), p);
        assert forall|j: int| 0 <= j < root_insert_pos(roots, p) implies path_lt(#[trigger] roots[j].0, p) by {
            if j > 0 {
                assert(roots[j] == roots.drop_first()[j - 1]);
            }
        }
    }
}

proof fn lemma_push_repo_wf(ps: PendingState, max: usize, k: Seq<char>, t: u64)
    requires
        pending_wf(ps, max),
    ensures
        pending_wf(push_repo(ps, max, k, t), max),
        push_repo(ps, max, k, t).roots == ps.roots,
{
    lemma_repo_index(ps.repos, k);
    lemma_repo_insert_pos(ps.repos, k);
    let i = repo_index(ps.repos, k);
    if i >= ps.repos.len() && ps.repos.len() + ps.roots.len() < max {
        let pos = repo_insert_pos(ps.repos, k);
        let rs = ps.repos.insert(pos, (k, t));
        if pos < ps.repos.len() {
            lemma_str_lt_total(ps.repos[pos].0, k);
        }
        assert forall|a: int, b: int| 0 <= a < b < rs.len() implies str_lt(#[trigger] rs[a].0, #[trigger] rs[b].0) by {
            if b < pos {
            } else if b == pos {
            } else if a < pos {
                if b - 1 > pos {
                    lemma_str_lt_transitive(k, ps.repos[pos].0, ps.repos[b - 1].0);
                }
                lemma_str_lt_transitive(ps.repos[a].0, k, ps.repos[b - 1].0);
            } else if a == pos {
                if b - 1 > pos {
                    lemma_str_lt_transitive(k, ps.repos[pos].0, ps.repos[b - 1].0);
                }
            } else {
            }
        }
    } else if i < ps.repos.len() {
        let rs = ps.repos.update(i, (k, t));
        assert forall|a: int, b: int| 0 <= a < b < rs.len() implies str_lt(#[trigger] rs[a].0, #[trigger] rs[b].0) by {
            assert(rs[a].0 == ps.repos[a].0);
            assert(rs[b].0 == ps.repos[b].0);
        }
    }
}

proof fn lemma_push_root_wf(ps: PendingState, max: usize, p: Seq<u8>, t: u64)
    requires
        pending_wf(ps, max),
        is_absolute(p),
    ensures
        pending_wf(push_root(ps, max, p, t), max),
        push_root(ps, max, p, t).repos == ps.repos,
{
    lemma_root_index(ps.roots, p);
    lemma_root_insert_pos(ps.roots, p);
    let i = root_index(ps.roots, p);
    if i >= ps.roots.len() && ps.repos.len() + ps.roots.len() < max {
        let pos = root_insert_pos(ps.roots, p);
        let rs = ps.roots.insert(pos, (p, t));
        if pos < ps.roots.len() {
            assert(!path_same(ps.roots[pos].0, p));
            lemma_segs_lt_total(segments(ps.roots[pos].0), segments(p));
        }
        assert forall|a: int, b: int| 0 <= a < b < rs.len() implies path_lt(#[trigger] rs[a].0, #[trigger] rs[b].0) by {
            if b < pos {
            } else if b == pos {
            } else if a < pos {
                if b - 1 > pos {
                    lemma_segs_lt_transitive(segments(p), segments(ps.roots[pos].0), segments(ps.roots[b - 1].0));
                }
                lemma_segs_lt_transitive(segments(ps.roots[a].0), segments(p), segments(ps.roots[b - 1].0));
            } else if a == pos {
                if b - 1 > pos {
                    lemma_segs_lt_transitive(segments(p), segments(ps.roots[pos].0), segments(ps.roots[b - 1].0));
                }
            } else {
            }
        }
        assert forall|a: int| 0 <= a < rs.len() implies is_absolute(#[trigger] rs[a].0) by {
            if a < pos {
                assert(rs[a] == ps.roots[a]);
            } else if a > pos {
                assert(rs[a] == ps.roots[a - 1]);
            }
        }
    } else if i < ps.roots.len() {
        let rs = ps.roots.update(i, (ps.roots[i].0, t));
        assert forall|a: int, b: int| 0 <= a < b < rs.len() implies path_lt(#[trigger] rs[a].0, #[trigger] rs[b].0) by {
            assert(rs[a].0 == ps.roots[a].0);
            assert(rs[b].0 == ps.roots[b].0);
        }
        assert forall|a: int| 0 <= a < rs.len() implies is_absolute(#[trigger] rs[a].0) by {
            assert(rs[a].0 == ps.roots[a].0);
        }
    }
}


/// Depth of target `t` when it is `p` or an ancestor of `p`, else -1.
pub open spec fn match_depth(t: TargetView, p: Seq<u8>) -> int {
    if path_within(p, t.path) {
        segments(t.path).len() as int
    } else {
        -1
    }
}

/// Greatest depth of a target that is `p` or an ancestor of `p`, or -1 when none is.
pub open spec fn max_depth(ts: Seq<TargetView>, p: Seq<u8>) -> int
    decreases ts.len(),
{
    if ts.len() == 0 {
        -1
    } else {
        let d = max_depth(ts.drop_last(), p);
        let e = match_depth(ts.last(), p);
        if e > d {
            e
        } else {
            d
        }
    }
}

/// The targets that are `p` or an ancestor of `p`, at depth `d`, in order.
pub open spec fn deepest_at(ts: Seq<TargetView>, p: Seq<u8>, d: int) -> Seq<TargetView>
    decreases ts.len(),
{
    if ts.len() == 0 {
        Seq::empty()
    } else {
        let prev = deepest_at(ts.drop_last(), p, d);
        if match_depth(ts.last(), p) == d {
            prev.push(ts.last())
        } else {
            prev
        }
    }
}

/// The most specific targets for `p`: those that are `p` or its nearest watched ancestor.
pub open spec fn deepest(ts: Seq<TargetView>, p: Seq<u8>) -> Seq<TargetView> {
    let d = max_depth(ts, p);
    if d < 0 {
        Seq::empty()
    } else {
        deepest_at(ts, p, d)
    }
}

/// Set insertion of each of `ks` into the ordered key list `acc`.
pub open spec fn insert_keys(acc: Seq<Seq<char>>, ks: Seq<Seq<char>>) -> Seq<Seq<char>>
    decreases ks.len(),
{
    if ks.len() == 0 {
        acc
    } else {
        insert_key(insert_keys(acc, ks.drop_last()), ks.last())
    }
}

/// The ordered union of the targets' repository keys.
pub open spec fn union_keys(ts: Seq<TargetView>) -> Seq<Seq<char>>
    decreases ts.len(),
{
    if ts.len() == 0 {
        Seq::empty()
    } else {
        insert_keys(union_keys(ts.drop_last()), ts.last().keys)
    }
}

/// The path of the first target that discovers repositories.
pub open spec fn first_discovering(ts: Seq<TargetView>) -> Option<Seq<u8>>
    decreases ts.len(),
{
    if ts.len() == 0 {
        None
    } else {
        match first_discovering(ts.drop_last()) {
            Some(r) => Some(r),
            None => if ts.last().discovers {
                Some(ts.last().path)
            } else {
                None
            },
        }
    }
}

/// Note repositories `ks`, in order, at `t`.
pub open spec fn push_repos(ps: PendingState, max: usize, ks: Seq<Seq<char>>, t: u64) -> PendingState
    decreases ks.len(),
{
    if ks.len() == 0 {
        ps
    } else {
        push_repo(push_repos(ps, max, ks.drop_last(), t), max, ks.last(), t)
    }
}

/// The effect of one event path: the repositories of its most specific targets, and,
/// for a creation, discovery under the first of them that discovers repositories.
pub open spec fn path_step(ps: PendingState, max: usize, ts: Seq<TargetView>, kind: GitWatchEventKind, p: Seq<u8>, t: u64) -> PendingState {
    let ds = deepest(ts, p);
    if ds.len() == 0 {
        ps
    } else {
        let ps1 = push_repos(ps, max, union_keys(ds), t);
        if kind == GitWatchEventKind::Create {
            match first_discovering(ds) {
                Some(r) => push_root(ps1, max, r, t),
                None => ps1,
            }
        } else {
            ps1
        }
    }
}

/// The effect of an event's paths, in order, up to and including the first path
/// after which the pending set has signalled overflow.
pub open spec fn paths_effect(st: PendingState, max: usize, ts: Seq<TargetView>, kind: GitWatchEventKind, paths: Seq<Seq<u8>>, t: u64) -> PendingState
    decreases paths.len(),
{
    if paths.len() == 0 || st.signaled {
        st
    } else {
        paths_effect(path_step(st, max, ts, kind, paths[0], t), max, ts, kind, paths.drop_first(), t)
    }
}

/// What the queue reads of an event: its kind, its paths and when it was observed.
pub struct EventView {
    pub kind: GitWatchEventKind,
    pub paths: Seq<Seq<u8>>,
    pub observed_at: u64,
}

impl View for GitWatchEvent {
    type V = EventView;

    open spec fn view(&self) -> EventView {
        EventView { kind: self.kind, paths: crate::bytes::views(self.paths@), observed_at: self.observed_at }
    }
}

pub open spec fn event_views(es: Seq<GitWatchEvent>) -> Seq<EventView> {
    Seq::new(es.len(), |i: int| es[i]@)
}

/// The effect of one event: a rescan signals overflow; any other event applies its
/// paths as [`paths_effect`] does.
pub open spec fn event_effect(st: PendingState, max: usize, ts: Seq<TargetView>, e: EventView) -> PendingState {
    if e.kind == GitWatchEventKind::Rescan {
        PendingState { signaled: true, ..st }
    } else {
        paths_effect(st, max, ts, e.kind, e.paths, e.observed_at)
    }
}

/// The effect of the events, in order, up to the one after which overflow was
/// signalled; later events are not applied.
pub open spec fn events_effect(st: PendingState, max: usize, ts: Seq<TargetView>, es: Seq<EventView>) -> PendingState
    decreases es.len(),
{
    if es.len() == 0 || st.signaled {
        st
    } else {
        events_effect(event_effect(st, max, ts, es[0]), max, ts, es.drop_first())
    }
}

/// What a poll at `now` hands out and leaves behind, given whether the overflow
/// flag read raised and the events received: one full reconcile with nothing left
/// pending after an overflow (read, a rescan, or too many pending items), else the
/// ready actions of the pending set the events lead to.
pub open spec fn poll_outcome(v: QueueView, now: u64, overflow_read: bool, es: Seq<EventView>) -> (Seq<ActionView>, QueueView) {
    let st = events_effect(pending_of(v), v.options.max_pending_repositories, v.targets, es);
    if overflow_read || st.signaled {
        (seq![ActionView::FullReconcile], QueueView { repos: Seq::empty(), roots: Seq::empty(), ..v })
    } else {
        let mid = QueueView { repos: st.repos, roots: st.roots, ..v };
        (ready_actions(mid, now), after_ready(mid, now))
    }
}

proof fn lemma_deepest_at_members(ts: Seq<TargetView>, p: Seq<u8>, d: int)
    requires
        d >= 0,
    ensures
        forall|j: int| 0 <= j < deepest_at(ts, p, d).len() ==> {
            &&& (exists|i: int| 0 <= i < ts.len() && #[trigger] deepest_at(ts, p, d)[j] == ts[i])
            &&& path_within(p, deepest_at(ts, p, d)[j].path)
        },
    decreases ts.len(),
{
    if ts.len() > 0 {
        lemma_deepest_at_members(ts.drop_last(), p, d);
        let prev = deepest_at(ts.drop_last(), p, d);
        assert forall|j: int| 0 <= j < deepest_at(ts, p, d).len() implies {
            &&& (exists|i: int| 0 <= i < ts.len() && #[trigger] deepest_at(ts, p, d)[j] == ts[i])
            &&& path_within(p, deepest_at(ts, p, d)[j].path)
        } by {
            if j < prev.len() {
                let i = choose|i: int| 0 <= i < ts.drop_last().len() && #[trigger] prev[j] == ts.drop_last()[i];
                assert(deepest_at(ts, p, d)[j] == ts[i]);
            } else {
                assert(deepest_at(ts, p, d)[j] == ts[ts.len() - 1]);
            }
        }
    }
}

proof fn lemma_first_discovering_member(ts: Seq<TargetView>)
    ensures
        first_discovering(ts) matches Some(r) ==> exists|i: int| 0 <= i < ts.len() && #[trigger] ts[i].path == r,
    decreases ts.len(),
{
    if ts.len() > 0 {
        lemma_first_discovering_member(ts.drop_last());
        if let Some(r) = first_discovering(ts.drop_last()) {
            let i = choose|i: int| 0 <= i < ts.drop_last().len() && #[trigger] ts.drop_last()[i].path == r;
            assert(ts[i].path == r);
        } else if ts.last().discovers {
            assert(ts[ts.len() - 1].path == ts.last().path);
        }
    }
}

proof fn lemma_push_repos_wf(ps: PendingState, max: usize, ks: Seq<Seq<char>>, t: u64)
    requires
        pending_wf(ps, max),
    ensures
        pending_wf(push_repos(ps, max, ks, t), max),
        push_repos(ps, max, ks, t).roots == ps.roots,
    decreases ks.len(),
{
    if ks.len() > 0 {
        lemma_push_repos_wf(ps, max, ks.drop_last(), t);
        lemma_push_repo_wf(push_repos(ps, max, ks.drop_last(), t), max, ks.last(), t);
    }
}

/// Every target path is absolute.
pub open spec fn targets_absolute(ts: Seq<TargetView>) -> bool {
    forall|i: int| 0 <= i < ts.len() ==> is_absolute(#[trigger] ts[i].path)
}

proof fn lemma_path_step_wf(ps: PendingState, max: usize, ts: Seq<TargetView>, kind: GitWatchEventKind, p: Seq<u8>, t: u64)
    requires
        pending_wf(ps, max),
        targets_absolute(ts),
    ensures
        pending_wf(path_step(ps, max, ts, kind, p, t), max),
{
    let ds = deepest(ts, p);
    if ds.len() > 0 {
        let d = max_depth(ts, p);
        lemma_deepest_at_members(ts, p, d);
        let ps1 = push_repos(ps, max, union_keys(ds), t);
        lemma_push_repos_wf(ps, max, union_keys(ds), t);
        if kind == GitWatchEventKind::Create {
            lemma_first_discovering_member(ds);
            if let Some(r) = first_discovering(ds) {
                let j = choose|j: int| 0 <= j < ds.len() && #[trigger] ds[j].path == r;
                let i = choose|i: int| 0 <= i < ts.len() && #[trigger] deepest_at(ts, p, d)[j] == ts[i];
                assert(is_absolute(ts[i].path));
                lemma_push_root_wf(ps1, max, r, t);
            }
        }
    }
}



/// The sending half of a `tokio::sync::mpsc` bounded channel.
#[verifier::external_type_specification]
#[verifier::external_body]
#[verifier::reject_recursive_types(T)]
pub struct ExMpscSender<T>(tokio::sync::mpsc::Sender<T>);

/// The receiving half of a `tokio::sync::mpsc` bounded channel.
#[verifier::external_type_specification]
#[verifier::external_body]
#[verifier::reject_recursive_types(T)]
pub struct ExMpscReceiver<T>(tokio::sync::mpsc::Receiver<T>);

/// `tokio::sync::mpsc::channel`: a bounded channel with `capacity` slots. Tokio
/// panics on zero slots and on more than `usize::MAX >> 3` (its semaphore's
/// permit limit), so both are excluded.
#[verifier::external_body]
fn open_channel(capacity: usize) -> (tokio::sync::mpsc::Sender<GitWatchEvent>, tokio::sync::mpsc::Receiver<GitWatchEvent>)
    requires
        0 < capacity <= usize::MAX / 8,
{
    tokio::sync::mpsc::channel(capacity)
}

/// What `Sender::try_send` reported.
#[derive(Debug, Clone, Copy, PartialEq, Eq, Structural)]
pub enum SendOutcome {
    /// The event was queued.
    Sent,
    /// The channel had no free slot.
    Full,
    /// The receiving side is gone.
    Closed,
}

/// What a sender reports for each send outcome.
pub open spec fn enqueue_spec(o: SendOutcome) -> WatchEnqueueResult {
    match o {
        SendOutcome::Sent => WatchEnqueueResult::Queued,
        SendOutcome::Full => WatchEnqueueResult::OverflowSignaled,
        SendOutcome::Closed => WatchEnqueueResult::Closed,
    }
}

/// What a sender reports for a send outcome: queued, overflow signalled (the
/// channel was full), or closed.
pub fn enqueue_result(o: SendOutcome) -> (r: WatchEnqueueResult)
    ensures
        r == enqueue_spec(o),
{
    match o {
        SendOutcome::Sent => WatchEnqueueResult::Queued,
        SendOutcome::Full => WatchEnqueueResult::OverflowSignaled,
        SendOutcome::Closed => WatchEnqueueResult::Closed,
    }
}

/// `tokio::sync::mpsc::Sender::try_send`, with its error told apart by variant.
/// Which outcome comes back depends on the channel's state, which other threads
/// change, so nothing is stated of it.
#[verifier::external_body]
fn try_send_event(sender: &tokio::sync::mpsc::Sender<GitWatchEvent>, event: GitWatchEvent) -> SendOutcome {
    match sender.try_send(event) {
        Ok(()) => SendOutcome::Sent,
        Err(tokio::sync::mpsc::error::TrySendError::Full(_)) => SendOutcome::Full,
        Err(tokio::sync::mpsc::error::TrySendError::Closed(_)) => SendOutcome::Closed,
    }
}

/// `tokio::sync::mpsc::Receiver::try_recv`, with any error as `None`. What is
/// buffered depends on other threads, so nothing is stated of the result.
#[verifier::external_body]
fn try_receive_event(receiver: &mut tokio::sync::mpsc::Receiver<GitWatchEvent>) -> Option<GitWatchEvent> {
    receiver.try_recv().ok()
}

/// `Sender::clone`: another sending handle on the same channel (tokio clones the
/// `Arc` of the channel it shares), stated as equal to the original handle.
/// Nothing is claimed of what the channel holds.
#[verifier::external_body]
fn clone_sender(sender: &tokio::sync::mpsc::Sender<GitWatchEvent>) -> (r: tokio::sync::mpsc::Sender<GitWatchEvent>)
    ensures
        r == *sender,
{
    sender.clone()
}

/// The producer side of the queue.
#[derive(Debug)]
pub struct GitWatchSender {
    sender: tokio::sync::mpsc::Sender<GitWatchEvent>,
    overflow: OverflowFlag,
}

impl GitWatchSender {
    /// Offer `event` itself to the channel without waiting, and report the outcome
    /// as [`enqueue_result`] maps it: `Queued`, `OverflowSignaled` (with the queue's
    /// overflow flag raised) when the channel is full, or `Closed`. Which outcome the
    /// channel gives depends on the other threads that use it.
    pub fn try_send(&self, event: GitWatchEvent) -> (r: WatchEnqueueResult)
        ensures
            exists|o: SendOutcome| r == #[trigger] enqueue_spec(o),
    {
        let outcome = try_send_event(&self.sender, event);
        if outcome == SendOutcome::Full {
            self.overflow.raise();
        }
        enqueue_result(outcome)
    }

    /// Ask the queue for a full reconcile.
    pub fn signal_overflow(&self) {
        self.overflow.raise();
    }

    /// Another sender on the same queue.
    pub fn clone(&self) -> (r: Self)
        ensures
            r == *self,
    {
        GitWatchSender { sender: clone_sender(&self.sender), overflow: self.overflow.share() }
    }
}

/// Mathematical view of the queue, without its channel and flag.
pub struct QueueView {
    pub options: GitWatchQueueOptions,
    pub targets: Seq<TargetView>,
    pub repos: Seq<(Seq<char>, u64)>,
    pub roots: Seq<(Seq<u8>, u64)>,
}

pub open spec fn pending_of(v: QueueView) -> PendingState {
    PendingState { repos: v.repos, roots: v.roots, signaled: false }
}

/// Valid options, canonical absolute targets, and a well-formed pending set.
pub open spec fn queue_wf(v: QueueView) -> bool {
    &&& v.options.channel_capacity > 0
    &&& v.options.max_pending_repositories > 0
    &&& v.options.debounce > 0
    &&& forall|i: int| 0 <= i < v.targets.len() ==> is_canonical_absolute(#[trigger] v.targets[i].path)
    &&& pending_wf(pending_of(v), v.options.max_pending_repositories)
}

/// Debounce has elapsed since `last` at `now`.
pub open spec fn is_ready_spec(now: u64, last: u64, debounce: u64) -> bool {
    now >= last && now - last >= debounce
}

/// Actions for the ready repositories, in key order.
pub open spec fn ready_repo_actions(repos: Seq<(Seq<char>, u64)>, now: u64, d: u64) -> Seq<ActionView>
    decreases repos.len(),
{
    if repos.len() == 0 {
        Seq::empty()
    } else {
        let prev = ready_repo_actions(repos.drop_last(), now, d);
        if is_ready_spec(now, repos.last().1, d) {
            prev.push(ActionView::ReconcileRepository(repos.last().0))
        } else {
            prev
        }
    }
}

/// The repositories still waiting.
pub open spec fn unready_repos(repos: Seq<(Seq<char>, u64)>, now: u64, d: u64) -> Seq<(Seq<char>, u64)>
    decreases repos.len(),
{
    if repos.len() == 0 {
        Seq::empty()
    } else {
        let prev = unready_repos(repos.drop_last(), now, d);
        if is_ready_spec(now, repos.last().1, d) {
            prev
        } else {
            prev.push(repos.last())
        }
    }
}

/// Actions for the ready project roots, in path order.
pub open spec fn ready_root_actions(roots: Seq<(Seq<u8>, u64)>, now: u64, d: u64) -> Seq<ActionView>
    decreases roots.len(),
{
    if roots.len() == 0 {
        Seq::empty()
    } else {
        let prev = ready_root_actions(roots.drop_last(), now, d);
        if is_ready_spec(now, roots.last().1, d) {
            prev.push(ActionView::DiscoverRepositories(roots.last().0))
        } else {
            prev
        }
    }
}

/// The project roots still waiting.
pub open spec fn unready_roots(roots: Seq<(Seq<u8>, u64)>, now: u64, d: u64) -> Seq<(Seq<u8>, u64)>
    decreases roots.len(),
{
    if roots.len() == 0 {
        Seq::empty()
    } else {
        let prev = unready_roots(roots.drop_last(), now, d);
        if is_ready_spec(now, roots.last().1, d) {
            prev
        } else {
            prev.push(roots.last())
        }
    }
}

/// The actions ready at `now`: repositories in key order, then project roots.
pub open spec fn ready_actions(v: QueueView, now: u64) -> Seq<ActionView> {
    ready_repo_actions(v.repos, now, v.options.debounce) + ready_root_actions(v.roots, now, v.options.debounce)
}

/// The queue once the actions ready at `now` are handed out.
pub open spec fn after_ready(v: QueueView, now: u64) -> QueueView {
    QueueView {
        repos: unready_repos(v.repos, now, v.options.debounce),
        roots: unready_roots(v.roots, now, v.options.debounce),
        ..v
    }
}

pub open spec fn repo_views(v: Seq<(String, u64)>) -> Seq<(Seq<char>, u64)> {
    Seq::new(v.len(), |i: int| (v[i].0@, v[i].1))
}

pub open spec fn root_views(v: Seq<(Vec<u8>, u64)>) -> Seq<(Seq<u8>, u64)> {
    Seq::new(v.len(), |i: int| (v[i].0@, v[i].1))
}

/// The consumer side: debounces events into repository and discovery actions.
#[derive(Debug)]
pub struct GitWatchQueue {
    receiver: tokio::sync::mpsc::Receiver<GitWatchEvent>,
    overflow: OverflowFlag,
    targets: Vec<WatchTarget>,
    pending_repositories: Vec<(String, u64)>,
    pending_discoveries: Vec<(Vec<u8>, u64)>,
    options: GitWatchQueueOptions,
}

impl View for GitWatchQueue {
    type V = QueueView;

    closed spec fn view(&self) -> QueueView {
        QueueView {
            options: self.options,
            targets: target_views(self.targets@),
            repos: repo_views(self.pending_repositories@),
            roots: root_views(self.pending_discoveries@),
        }
    }
}


/// The two pending states agree on their entries.
pub open spec fn same_pending(a: PendingState, b: PendingState) -> bool {
    a.repos == b.repos && a.roots == b.roots
}

fn clone_target(t: &WatchTarget) -> (r: WatchTarget)
    ensures
        r@ == t@,
{
    WatchTarget {
        path: t.path.clone(),
        repository_keys: clone_strings(&t.repository_keys),
        discovers_repositories: t.discovers_repositories,
    }
}

/// The ordered union of the targets' repository keys.
fn union_target_keys(ds: &Vec<WatchTarget>) -> (r: Vec<String>)
    ensures
        string_views(r@) == union_keys(target_views(ds@)),
{
    let ghost ts = target_views(ds@);
    let mut keys: Vec<String> = Vec::new();
    let mut i: usize = 0;
    assert(ts.take(0) =~= Seq::<TargetView>::empty());
    assert(string_views(keys@) =~= Seq::<Seq<char>>::empty());
    while i < ds.len()
        invariant
            ts == target_views(ds@),
            i <= ds.len(),
            string_views(keys@) == union_keys(ts.take(i as int)),
        decreases ds.len() - i,
    {
        let t = &ds[i];
        assert(ts[i as int] == t@);
        let ghost base = string_views(keys@);
        let ghost ks = string_views(t.repository_keys@);
        let mut j: usize = 0;
        assert(ks.take(0) =~= Seq::<Seq<char>>::empty());
        while j < t.repository_keys.len()
            invariant
                i < ds.len(),
                t == &ds[i as int],
                ks == string_views(t.repository_keys@),
                j <= t.repository_keys.len(),
                string_views(keys@) == insert_keys(base, ks.take(j as int)),
            decreases t.repository_keys.len() - j,
        {
            insert_key_exec(&mut keys, &t.repository_keys[j]);
            assert(ks.take(j + 1).drop_last() =~= ks.take(j as int));
            assert(ks.take(j + 1).last() == t.repository_keys@[j as int]@);
            j += 1;
        }
        assert(ks.take(j as int) =~= ks);
        assert(ts.take(i + 1).drop_last() =~= ts.take(i as int));
        assert(ts.take(i + 1).last() == t@);
        i += 1;
    }
    assert(ts.take(i as int) =~= ts);
    keys
}

/// The path of the first target that discovers repositories.
fn first_discovering_path(ds: &Vec<WatchTarget>) -> (r: Option<Vec<u8>>)
    ensures
        match r {
            Some(p) => first_discovering(target_views(ds@)) == Some(p@),
            None => first_discovering(target_views(ds@)) is None,
        },
{
    let ghost ts = target_views(ds@);
    let mut i: usize = 0;
    assert(ts.take(0) =~= Seq::<TargetView>::empty());
    while i < ds.len()
        invariant
            ts == target_views(ds@),
            i <= ds.len(),
            first_discovering(ts.take(i as int)) is None,
        decreases ds.len() - i,
    {
        assert(ts.take(i + 1).drop_last() =~= ts.take(i as int));
        assert(ts.take(i + 1).last() == ds@[i as int]@);
        if ds[i].discovers_repositories {
            assert(first_discovering(ts.take(i + 1)) == Some(ds@[i as int].path@));
            proof {
                lemma_first_discovering_prefix(ts, i + 1);
            }
            return Some(ds[i].path.clone());
        }
        i += 1;
    }
    assert(ts.take(i as int) =~= ts);
    None
}

proof fn lemma_first_discovering_prefix(ts: Seq<TargetView>, n: int)
    requires
        0 <= n <= ts.len(),
        first_discovering(ts.take(n)) is Some,
    ensures
        first_discovering(ts) == first_discovering(ts.take(n)),
    decreases ts.len() - n,
{
    if n < ts.len() {
        assert(ts.take(n + 1).drop_last() =~= ts.take(n));
        lemma_first_discovering_prefix(ts, n + 1);
    } else {
        assert(ts.take(n) =~= ts);
    }
}

impl GitWatchQueue {
    /// The most specific targets for `p`.
    fn deepest_targets(&self, p: &[u8]) -> (r: Vec<WatchTarget>)
        ensures
            target_views(r@) == deepest(self@.targets, p@),
    {
        let ghost ts = self@.targets;
        let mut found: bool = false;
        let mut best: usize = 0;
        let mut i: usize = 0;
        assert(ts.take(0) =~= Seq::<TargetView>::empty());
        while i < self.targets.len()
            invariant
                ts == target_views(self.targets@),
                i <= self.targets.len(),
                max_depth(ts.take(i as int), p@) == if found { best as int } else { -1 },
            decreases self.targets.len() - i,
        {
            let t = &self.targets[i];
            assert(ts[i as int] == t@);
            assert(ts.take(i + 1).drop_last() =~= ts.take(i as int));
            assert(ts.take(i + 1).last() == t@);
            if path_within_exec(p, t.path.as_slice()) {
                let depth = path_segments(t.path.as_slice()).len();
                if !found || depth > best {
                    best = depth;
                }
                found = true;
            }
            i += 1;
        }
        assert(ts.take(i as int) =~= ts);
        let mut out: Vec<WatchTarget> = Vec::new();
        if !found {
            assert(target_views(out@) =~= deepest(ts, p@));
            return out;
        }
        let ghost d = best as int;
        let mut k: usize = 0;
        assert(target_views(out@) =~= deepest_at(ts.take(0), p@, d));
        while k < self.targets.len()
            invariant
                ts == target_views(self.targets@),
                k <= self.targets.len(),
                d == best,
                target_views(out@) == deepest_at(ts.take(k as int), p@, d),
            decreases self.targets.len() - k,
        {
            let t = &self.targets[k];
            assert(ts[k as int] == t@);
            assert(ts.take(k + 1).drop_last() =~= ts.take(k as int));
            assert(ts.take(k + 1).last() == t@);
            if path_within_exec(p, t.path.as_slice()) && path_segments(t.path.as_slice()).len() == best {
                out.push(clone_target(t));
            }
            assert(target_views(out@) =~= deepest_at(ts.take(k + 1), p@, d));
            k += 1;
        }
        assert(ts.take(k as int) =~= ts);
        out
    }

    fn push_repository(&mut self, repository_key: &String, observed_at: u64) -> (signaled: bool)
        requires
            queue_wf(old(self)@),
        ensures
            queue_wf(final(self)@),
            final(self)@.options == old(self)@.options,
            final(self)@.targets == old(self)@.targets,
            push_repo(pending_of(old(self)@), old(self)@.options.max_pending_repositories, repository_key@, observed_at)
                == (PendingState { signaled, ..pending_of(final(self)@) }),
    {
        let ghost v = self@;
        let ghost max = self.options.max_pending_repositories;
        proof {
            lemma_repo_index(v.repos, repository_key@);
            lemma_repo_insert_pos(v.repos, repository_key@);
            lemma_push_repo_wf(pending_of(v), max, repository_key@, observed_at);
        }
        let mut i: usize = 0;
        while i < self.pending_repositories.len()
            invariant
                self@ == v,
                i <= self.pending_repositories.len(),
                forall|j: int| 0 <= j < i ==> #[trigger] v.repos[j].0 != repository_key@,
            ensures
                self@ == v,
                i <= self.pending_repositories.len(),
                forall|j: int| 0 <= j < i ==> #[trigger] v.repos[j].0 != repository_key@,
                i < self.pending_repositories.len() ==> v.repos[i as int].0 == repository_key@,
            decreases self.pending_repositories.len() - i,
        {
            assert(v.repos[i as int].0 == self.pending_repositories@[i as int].0@);
            if self.pending_repositories[i].0 == *repository_key {
                break;
            }
            i += 1;
        }
        if i < self.pending_repositories.len() {
            assert(repo_index(v.repos, repository_key@) == i) by {
                let q = repo_index(v.repos, repository_key@);
                if q < i {
                    assert(v.repos[q].0 != repository_key@);
                }
            }
            let entry = self.pending_repositories.remove(i);
            self.pending_repositories.insert(i, (entry.0, observed_at));
            assert(repo_views(self.pending_repositories@) =~= v.repos.update(i as int, (repository_key@, observed_at)));
            assert(pending_of(self@) == push_repo(pending_of(v), max, repository_key@, observed_at));
            assert(self@.targets == v.targets);
            assert(self@.options == v.options);
            assert(pending_wf(pending_of(self@), max));
            return false;
        }
        assert(repo_index(v.repos, repository_key@) == v.repos.len());
        if self.pending_repositories.len() + self.pending_discoveries.len() >= self.options.max_pending_repositories {
            return true;
        }
        let mut pos: usize = 0;
        while pos < self.pending_repositories.len()
            invariant
                self@ == v,
                pos <= self.pending_repositories.len(),
                forall|j: int| 0 <= j < pos ==> str_lt(#[trigger] v.repos[j].0, repository_key@),
            ensures
                self@ == v,
                pos <= self.pending_repositories.len(),
                forall|j: int| 0 <= j < pos ==> str_lt(#[trigger] v.repos[j].0, repository_key@),
                pos < self.pending_repositories.len() ==> !str_lt(v.repos[pos as int].0, repository_key@),
            decreases self.pending_repositories.len() - pos,
        {
            assert(v.repos[pos as int].0 == self.pending_repositories@[pos as int].0@);
            if !string_less(&self.pending_repositories[pos].0, repository_key) {
                break;
            }
            pos += 1;
        }
        assert(repo_insert_pos(v.repos, repository_key@) == pos) by {
            let q = repo_insert_pos(v.repos, repository_key@);
            if q < pos {
                assert(str_lt(v.repos[q].0, repository_key@));
            }
        }
        self.pending_repositories.insert(pos, (repository_key.clone(), observed_at));
        assert(repo_views(self.pending_repositories@) =~= v.repos.insert(pos as int, (repository_key@, observed_at)));
        assert(pending_of(self@) == push_repo(pending_of(v), max, repository_key@, observed_at));
        assert(self@.targets == v.targets);
        assert(self@.options == v.options);
        assert(pending_wf(pending_of(self@), max));
        false
    }

    fn push_discovery(&mut self, project_root: &Vec<u8>, observed_at: u64) -> (signaled: bool)
        requires
            queue_wf(old(self)@),
            is_absolute(project_root@),
        ensures
            queue_wf(final(self)@),
            final(self)@.options == old(self)@.options,
            final(self)@.targets == old(self)@.targets,
            push_root(pending_of(old(self)@), old(self)@.options.max_pending_repositories, project_root@, observed_at)
                == (PendingState { signaled, ..pending_of(final(self)@) }),
    {
        let ghost v = self@;
        let ghost max = self.options.max_pending_repositories;
        proof {
            lemma_root_index(v.roots, project_root@);
            lemma_root_insert_pos(v.roots, project_root@);
            lemma_push_root_wf(pending_of(v), max, project_root@, observed_at);
        }
        let mut i: usize = 0;
        while i < self.pending_discoveries.len()
            invariant
                self@ == v,
                i <= self.pending_discoveries.len(),
                forall|j: int| 0 <= j < i ==> !path_same(#[trigger] v.roots[j].0, project_root@),
            ensures
                self@ == v,
                i <= self.pending_discoveries.len(),
                forall|j: int| 0 <= j < i ==> !path_same(#[trigger] v.roots[j].0, project_root@),
                i < self.pending_discoveries.len() ==> path_same(v.roots[i as int].0, project_root@),
            decreases self.pending_discoveries.len() - i,
        {
            assert(v.roots[i as int].0 == self.pending_discoveries@[i as int].0@);
            if path_same_exec(self.pending_discoveries[i].0.as_slice(), project_root.as_slice()) {
                break;
            }
            i += 1;
        }
        if i < self.pending_discoveries.len() {
            assert(root_index(v.roots, project_root@) == i) by {
                let q = root_index(v.roots, project_root@);
                if q < i {
                    assert(!path_same(v.roots[q].0, project_root@));
                }
            }
            let entry = self.pending_discoveries.remove(i);
            let ghost kept = entry.0@;
            self.pending_discoveries.insert(i, (entry.0, observed_at));
            assert(repo_views(self.pending_repositories@) == v.repos);
            assert(root_views(self.pending_discoveries@) =~= v.roots.update(i as int, (v.roots[i as int].0, observed_at)));
            assert(pending_of(self@) == push_root(pending_of(v), max, project_root@, observed_at));
            assert(self@.targets == v.targets);
            assert(self@.options == v.options);
            assert(pending_wf(pending_of(self@), max));
            return false;
        }
        assert(root_index(v.roots, project_root@) == v.roots.len());
        if self.pending_repositories.len() + self.pending_discoveries.len() >= self.options.max_pending_repositories {
            return true;
        }
        let root_segments = path_segments(project_root.as_slice());
        let mut pos: usize = 0;
        while pos < self.pending_discoveries.len()
            invariant
                self@ == v,
                crate::bytes::views(root_segments@) == segments(project_root@),
                pos <= self.pending_discoveries.len(),
                forall|j: int| 0 <= j < pos ==> path_lt(#[trigger] v.roots[j].0, project_root@),
            ensures
                self@ == v,
                pos <= self.pending_discoveries.len(),
                forall|j: int| 0 <= j < pos ==> path_lt(#[trigger] v.roots[j].0, project_root@),
                pos < self.pending_discoveries.len() ==> !path_lt(v.roots[pos as int].0, project_root@),
            decreases self.pending_discoveries.len() - pos,
        {
            assert(v.roots[pos as int].0 == self.pending_discoveries@[pos as int].0@);
            let entry_segments = path_segments(self.pending_discoveries[pos].0.as_slice());
            if !segs_less(&entry_segments, &root_segments) {
                break;
            }
            pos += 1;
        }
        assert(root_insert_pos(v.roots, project_root@) == pos) by {
            let q = root_insert_pos(v.roots, project_root@);
            if q < pos {
                assert(path_lt(v.roots[q].0, project_root@));
            }
        }
        self.pending_discoveries.insert(pos, (project_root.clone(), observed_at));
        assert(root_views(self.pending_discoveries@) =~= v.roots.insert(pos as int, (project_root@, observed_at)));
        assert(pending_of(self@) == push_root(pending_of(v), max, project_root@, observed_at));
        assert(self@.targets == v.targets);
        assert(self@.options == v.options);
        assert(pending_wf(pending_of(self@), max));
        false
    }
}


proof fn lemma_discovery_root_absolute(ts: Seq<TargetView>, p: Seq<u8>)
    requires
        targets_absolute(ts),
    ensures
        first_discovering(deepest(ts, p)) matches Some(r) ==> is_absolute(r),
{
    let ds = deepest(ts, p);
    let d = max_depth(ts, p);
    if d >= 0 {
        lemma_deepest_at_members(ts, p, d);
        lemma_first_discovering_member(ds);
        if let Some(r) = first_discovering(ds) {
            let j = choose|j: int| 0 <= j < ds.len() && #[trigger] ds[j].path == r;
            let i = choose|i: int| 0 <= i < ts.len() && #[trigger] deepest_at(ts, p, d)[j] == ts[i];
            assert(is_absolute(ts[i].path));
        }
    }
}

proof fn lemma_unready_repos(repos: Seq<(Seq<char>, u64)>, now: u64, d: u64)
    requires
        forall|i: int, j: int| 0 <= i < j < repos.len() ==> str_lt(#[trigger] repos[i].0, #[trigger] repos[j].0),
    ensures
        unready_repos(repos, now, d).len() <= repos.len(),
        forall|i: int, j: int| 0 <= i < j < unready_repos(repos, now, d).len()
            ==> str_lt(#[trigger] unready_repos(repos, now, d)[i].0, #[trigger] unready_repos(repos, now, d)[j].0),
        forall|j: int| 0 <= j < unready_repos(repos, now, d).len()
            ==> exists|i: int| 0 <= i < repos.len() && #[trigger] unready_repos(repos, now, d)[j] == repos[i],
    decreases repos.len(),
{
    if repos.len() > 0 {
        let s = repos.drop_last();
        lemma_unready_repos(s, now, d);
        let prev = unready_repos(s, now, d);
        let cur = unready_repos(repos, now, d);
        assert forall|j: int| 0 <= j < cur.len() implies exists|i: int| 0 <= i < repos.len() && #[trigger] cur[j] == repos[i] by {
            if j < prev.len() {
                let i = choose|i: int| 0 <= i < s.len() && #[trigger] prev[j] == s[i];
                assert(cur[j] == repos[i]);
            } else {
                assert(cur[j] == repos[repos.len() - 1]);
            }
        }
        if !is_ready_spec(now, repos.last().1, d) {
            assert forall|a: int, b: int| 0 <= a < b < cur.len() implies str_lt(#[trigger] cur[a].0, #[trigger] cur[b].0) by {
                if b == cur.len() - 1 {
                    let i = choose|i: int| 0 <= i < s.len() && #[trigger] prev[a] == s[i];
                    assert(cur[a] == repos[i]);
                    assert(cur[b] == repos[repos.len() - 1]);
                } else {
                    assert(cur[a] == prev[a]);
                    assert(cur[b] == prev[b]);
                }
            }
        }
    }
}

proof fn lemma_unready_roots(roots: Seq<(Seq<u8>, u64)>, now: u64, d: u64)
    requires
        forall|i: int, j: int| 0 <= i < j < roots.len() ==> path_lt(#[trigger] roots[i].0, #[trigger] roots[j].0),
        forall|i: int| 0 <= i < roots.len() ==> is_absolute(#[trigger] roots[i].0),
    ensures
        unready_roots(roots, now, d).len() <= roots.len(),
        forall|i: int, j: int| 0 <= i < j < unready_roots(roots, now, d).len()
            ==> path_lt(#[trigger] unready_roots(roots, now, d)[i].0, #[trigger] unready_roots(roots, now, d)[j].0),
        forall|i: int| 0 <= i < unready_roots(roots, now, d).len() ==> is_absolute(#[trigger] unready_roots(roots, now, d)[i].0),
        forall|j: int| 0 <= j < unready_roots(roots, now, d).len()
            ==> exists|i: int| 0 <= i < roots.len() && #[trigger] unready_roots(roots, now, d)[j] == roots[i],
    decreases roots.len(),
{
    if roots.len() > 0 {
        let s = roots.drop_last();
        lemma_unready_roots(s, now, d);
        let prev = unready_roots(s, now, d);
        let cur = unready_roots(roots, now, d);
        assert forall|j: int| 0 <= j < cur.len() implies exists|i: int| 0 <= i < roots.len() && #[trigger] cur[j] == roots[i] by {
            if j < prev.len() {
                let i = choose|i: int| 0 <= i < s.len() && #[trigger] prev[j] == s[i];
                assert(cur[j] == roots[i]);
            } else {
                assert(cur[j] == roots[roots.len() - 1]);
            }
        }
        assert forall|j: int| 0 <= j < cur.len() implies is_absolute(#[trigger] cur[j].0) by {
            let i = choose|i: int| 0 <= i < roots.len() && #[trigger] cur[j] == roots[i];
            assert(is_absolute(roots[i].0));
        }
        if !is_ready_spec(now, roots.last().1, d) {
            assert forall|a: int, b: int| 0 <= a < b < cur.len() implies path_lt(#[trigger] cur[a].0, #[trigger] cur[b].0) by {
                if b == cur.len() - 1 {
                    let i = choose|i: int| 0 <= i < s.len() && #[trigger] prev[a] == s[i];
                    assert(cur[a] == roots[i]);
                    assert(cur[b] == roots[roots.len() - 1]);
                } else {
                    assert(cur[a] == prev[a]);
                    assert(cur[b] == prev[b]);
                }
            }
        }
    }
}

/// Handing out the ready actions keeps the pending set well formed.
pub proof fn lemma_after_ready_wf(v: QueueView, now: u64)
    requires
        queue_wf(v),
    ensures
        queue_wf(after_ready(v, now)),
{
    lemma_unready_repos(v.repos, now, v.options.debounce);
    lemma_unready_roots(v.roots, now, v.options.debounce);
}

impl GitWatchQueue {
    /// Apply one event path; reports whether the pending set signalled overflow.
    fn apply_path(&mut self, path: &[u8], kind: GitWatchEventKind, observed_at: u64) -> (signaled: bool)
        requires
            queue_wf(old(self)@),
        ensures
            queue_wf(final(self)@),
            final(self)@.options == old(self)@.options,
            final(self)@.targets == old(self)@.targets,
            path_step(pending_of(old(self)@), old(self)@.options.max_pending_repositories, old(self)@.targets, kind, path@, observed_at)
                == (PendingState { signaled, ..pending_of(final(self)@) }),
    {
        let ghost v = self@;
        let ghost max = self.options.max_pending_repositories;
        let targets = self.deepest_targets(path);
        if targets.len() == 0 {
            return false;
        }
        let keys = union_target_keys(&targets);
        let ghost ks = string_views(keys@);
        let mut signaled = false;
        let mut j: usize = 0;
        assert(ks.take(0) =~= Seq::<Seq<char>>::empty());
        while j < keys.len()
            invariant
                queue_wf(self@),
                self@.options == v.options,
                self@.targets == v.targets,
                max == v.options.max_pending_repositories,
                ks == string_views(keys@),
                j <= keys.len(),
                push_repos(pending_of(v), max, ks.take(j as int), observed_at) == (PendingState { signaled, ..pending_of(self@) }),
            decreases keys.len() - j,
        {
            let ghost before = pending_of(self@);
            let s1 = self.push_repository(&keys[j], observed_at);
            proof {
                assert(ks.take(j + 1).drop_last() =~= ks.take(j as int));
                assert(ks.take(j + 1).last() == keys@[j as int]@);
            }
            signaled = signaled || s1;
            j += 1;
        }
        assert(ks.take(j as int) =~= ks);
        if kind == GitWatchEventKind::Create {
            proof {
                assert forall|i: int| 0 <= i < v.targets.len() implies is_absolute(#[trigger] v.targets[i].path) by {
                    assert(is_canonical_absolute(v.targets[i].path));
                }
                lemma_discovery_root_absolute(v.targets, path@);
            }
            match first_discovering_path(&targets) {
                Some(root) => {
                    let s2 = self.push_discovery(&root, observed_at);
                    signaled = signaled || s2;
                },
                None => {},
            }
        }
        signaled
    }

    /// Apply an event's paths in order, stopping after the first path at which the
    /// pending set overflowed; reports whether it did.
    fn apply_event_paths(&mut self, event: &GitWatchEvent) -> (signaled: bool)
        requires
            queue_wf(old(self)@),
            event.kind != GitWatchEventKind::Rescan,
        ensures
            queue_wf(final(self)@),
            final(self)@.options == old(self)@.options,
            final(self)@.targets == old(self)@.targets,
            event_effect(pending_of(old(self)@), old(self)@.options.max_pending_repositories, old(self)@.targets, event@)
                == (PendingState { signaled, ..pending_of(final(self)@) }),
    {
        let ghost v = self@;
        let ghost max = self.options.max_pending_repositories;
        let ghost ps = crate::bytes::views(event.paths@);
        let mut signaled = false;
        let mut i: usize = 0;
        proof {
            assert(ps.skip(0) =~= ps);
            assert(PendingState { signaled: false, ..pending_of(v) } == pending_of(v));
        }
        while i < event.paths.len() && !signaled
            invariant
                queue_wf(self@),
                self@.options == v.options,
                self@.targets == v.targets,
                max == v.options.max_pending_repositories,
                ps == crate::bytes::views(event.paths@),
                i <= event.paths.len(),
                paths_effect(pending_of(v), max, v.targets, event.kind, ps, event.observed_at)
                    == paths_effect(PendingState { signaled, ..pending_of(self@) }, max, v.targets, event.kind, ps.skip(i as int), event.observed_at),
            decreases event.paths.len() - i,
        {
            proof {
                assert(ps.skip(i as int).drop_first() =~= ps.skip(i + 1));
                assert(ps.skip(i as int)[0] == event.paths@[i as int]@);
                assert(PendingState { signaled: false, ..pending_of(self@) } == pending_of(self@));
            }
            signaled = self.apply_path(event.paths[i].as_slice(), event.kind, event.observed_at);
            i += 1;
        }
        proof {
            if !signaled {
                assert(ps.skip(i as int) =~= Seq::<Seq<u8>>::empty());
            }
            assert(ps.skip(0) =~= ps);
        }
        signaled
    }

    /// Apply an event: a rescan raises the overflow flag; otherwise each path in turn,
    /// stopping (with the flag raised) after the first path at which the pending set
    /// overflowed.
    pub fn process_event(&mut self, event: GitWatchEvent)
        requires
            queue_wf(old(self)@),
        ensures
            queue_wf(final(self)@),
            final(self)@.options == old(self)@.options,
            final(self)@.targets == old(self)@.targets,
            same_pending(pending_of(final(self)@),
                event_effect(pending_of(old(self)@), old(self)@.options.max_pending_repositories, old(self)@.targets, event@)),
    {
        if event.kind == GitWatchEventKind::Rescan {
            self.overflow.raise();
            return;
        }
        if self.apply_event_paths(&event) {
            self.overflow.raise();
        }
    }

    fn is_ready(&self, now: u64, last_seen: u64) -> (r: bool)
        ensures
            r == is_ready_spec(now, last_seen, self.options.debounce),
    {
        now >= last_seen && now - last_seen >= self.options.debounce
    }

    /// Hand out, and forget, every pending item whose debounce has elapsed at `now`:
    /// repositories in key order, then project roots in path order.
    pub fn take_ready(&mut self, now: u64) -> (r: Vec<GitWatchAction>)
        requires
            queue_wf(old(self)@),
        ensures
            action_views(r@) == ready_actions(old(self)@, now),
            final(self)@ == after_ready(old(self)@, now),
            queue_wf(final(self)@),
    {
        let ghost v = self@;
        let ghost d = self.options.debounce;
        let mut actions: Vec<GitWatchAction> = Vec::new();
        let mut kept_repositories: Vec<(String, u64)> = Vec::new();
        let mut i: usize = 0;
        assert(v.repos.take(0) =~= Seq::<(Seq<char>, u64)>::empty());
        while i < self.pending_repositories.len()
            invariant
                self@ == v,
                d == v.options.debounce,
                i <= self.pending_repositories.len(),
                repo_views(kept_repositories@) == unready_repos(v.repos.take(i as int), now, d),
                action_views(actions@) == ready_repo_actions(v.repos.take(i as int), now, d),
            decreases self.pending_repositories.len() - i,
        {
            let entry = &self.pending_repositories[i];
            assert(v.repos[i as int] == (entry.0@, entry.1));
            assert(v.repos.take(i + 1).drop_last() =~= v.repos.take(i as int));
            assert(v.repos.take(i + 1).last() == v.repos[i as int]);
            if self.is_ready(now, entry.1) {
                actions.push(GitWatchAction::ReconcileRepository { repository_key: entry.0.clone() });
            } else {
                kept_repositories.push((entry.0.clone(), entry.1));
            }
            assert(repo_views(kept_repositories@) =~= unready_repos(v.repos.take(i + 1), now, d));
            assert(action_views(actions@) =~= ready_repo_actions(v.repos.take(i + 1), now, d));
            i += 1;
        }
        assert(v.repos.take(i as int) =~= v.repos);
        let ghost repo_part = action_views(actions@);
        let mut kept_discoveries: Vec<(Vec<u8>, u64)> = Vec::new();
        let mut k: usize = 0;
        assert(v.roots.take(0) =~= Seq::<(Seq<u8>, u64)>::empty());
        assert(action_views(actions@) =~= repo_part + ready_root_actions(v.roots.take(0), now, d));
        while k < self.pending_discoveries.len()
            invariant
                self@ == v,
                d == v.options.debounce,
                k <= self.pending_discoveries.len(),
                repo_part == ready_repo_actions(v.repos, now, d),
                root_views(kept_discoveries@) == unready_roots(v.roots.take(k as int), now, d),
                action_views(actions@) == repo_part + ready_root_actions(v.roots.take(k as int), now, d),
            decreases self.pending_discoveries.len() - k,
        {
            let entry = &self.pending_discoveries[k];
            assert(v.roots[k as int] == (entry.0@, entry.1));
            assert(v.roots.take(k + 1).drop_last() =~= v.roots.take(k as int));
            assert(v.roots.take(k + 1).last() == v.roots[k as int]);
            if self.is_ready(now, entry.1) {
                let ghost prior = action_views(actions@);
                actions.push(GitWatchAction::DiscoverRepositories { project_root: entry.0.clone() });
                assert(action_views(actions@) =~= prior.push(ActionView::DiscoverRepositories(entry.0@)));
                assert((repo_part + ready_root_actions(v.roots.take(k as int), now, d)).push(ActionView::DiscoverRepositories(entry.0@))
                    =~= repo_part + ready_root_actions(v.roots.take(k as int), now, d).push(ActionView::DiscoverRepositories(entry.0@)));
            } else {
                kept_discoveries.push((entry.0.clone(), entry.1));
            }
            assert(root_views(kept_discoveries@) =~= unready_roots(v.roots.take(k + 1), now, d));
            assert(action_views(actions@) =~= repo_part + ready_root_actions(v.roots.take(k + 1), now, d));
            k += 1;
        }
        assert(v.roots.take(k as int) =~= v.roots);
        self.pending_repositories = kept_repositories;
        self.pending_discoveries = kept_discoveries;
        proof {
            lemma_after_ready_wf(v, now);
        }
        assert(self@ == after_ready(v, now));
        actions
    }

    /// The number of repositories waiting for their debounce.
    pub fn pending_repository_count(&self) -> (r: usize)
        ensures
            r == self@.repos.len(),
    {
        self.pending_repositories.len()
    }
}


/// Some key of `keys` is blank once trimmed.
pub open spec fn has_blank_key(keys: Seq<Seq<char>>) -> bool {
    exists|j: int| 0 <= j < keys.len() && trim_chars(#[trigger] keys[j]).len() == 0
}

/// The first invalid target from index `i` on.
pub open spec fn check_targets(ts: Seq<TargetView>, i: int) -> Result<(), GitWatchQueueError>
    decreases ts.len() - i,
{
    if i < 0 || i >= ts.len() {
        Ok(())
    } else if !is_canonical_absolute(ts[i].path) {
        Err(GitWatchQueueError { kind: GitWatchQueueErrorKind::NonCanonicalTargetPath { target_index: i as usize } })
    } else if has_blank_key(ts[i].keys) {
        Err(GitWatchQueueError { kind: GitWatchQueueErrorKind::EmptyRepositoryKey { target_index: i as usize } })
    } else {
        check_targets(ts, i + 1)
    }
}

/// Options must be positive and targets canonical with non-blank keys.
pub open spec fn validate_spec(ts: Seq<TargetView>, options: GitWatchQueueOptions) -> Result<(), GitWatchQueueError> {
    if options.channel_capacity == 0 {
        Err(GitWatchQueueError { kind: GitWatchQueueErrorKind::InvalidChannelCapacity })
    } else if options.max_pending_repositories == 0 {
        Err(GitWatchQueueError { kind: GitWatchQueueErrorKind::InvalidPendingRepositoryLimit })
    } else if options.debounce == 0 {
        Err(GitWatchQueueError { kind: GitWatchQueueErrorKind::InvalidDebounce })
    } else {
        check_targets(ts, 0)
    }
}

proof fn lemma_check_targets_ok(ts: Seq<TargetView>, i: int)
    requires
        0 <= i,
        check_targets(ts, i) is Ok,
    ensures
        forall|j: int| i <= j < ts.len() ==> is_canonical_absolute(#[trigger] ts[j].path),
    decreases ts.len() - i,
{
    if i < ts.len() {
        lemma_check_targets_ok(ts, i + 1);
    }
}

fn blank_key(keys: &Vec<String>) -> (r: bool)
    ensures
        r == has_blank_key(string_views(keys@)),
{
    let mut j: usize = 0;
    while j < keys.len()
        invariant
            j <= keys.len(),
            forall|q: int| 0 <= q < j ==> trim_chars(#[trigger] string_views(keys@)[q]).len() != 0,
        decreases keys.len() - j,
    {
        assert(string_views(keys@)[j as int] == keys@[j as int]@);
        if trim_str(keys[j].as_str()).is_empty() {
            return true;
        }
        j += 1;
    }
    false
}

fn validate(plan: &WatchPlan, options: GitWatchQueueOptions) -> (r: Result<(), GitWatchQueueError>)
    ensures
        r == validate_spec(target_views(plan.targets@), options),
{
    let ghost ts = target_views(plan.targets@);
    if options.channel_capacity == 0 {
        return Err(GitWatchQueueError { kind: GitWatchQueueErrorKind::InvalidChannelCapacity });
    }
    if options.max_pending_repositories == 0 {
        return Err(GitWatchQueueError { kind: GitWatchQueueErrorKind::InvalidPendingRepositoryLimit });
    }
    if options.debounce == 0 {
        return Err(GitWatchQueueError { kind: GitWatchQueueErrorKind::InvalidDebounce });
    }
    let mut target_index: usize = 0;
    while target_index < plan.targets.len()
        invariant
            ts == target_views(plan.targets@),
            target_index <= plan.targets.len(),
            validate_spec(ts, options) == check_targets(ts, target_index as int),
            options.channel_capacity > 0 && options.max_pending_repositories > 0 && options.debounce > 0,
        decreases plan.targets.len() - target_index,
    {
        let target = &plan.targets[target_index];
        assert(ts[target_index as int] == target@);
        if !canonical_absolute(target.path.as_slice()) {
            return Err(GitWatchQueueError { kind: GitWatchQueueErrorKind::NonCanonicalTargetPath { target_index } });
        }
        if blank_key(&target.repository_keys) {
            return Err(GitWatchQueueError { kind: GitWatchQueueErrorKind::EmptyRepositoryKey { target_index } });
        }
        target_index += 1;
    }
    Ok(())
}

/// Order of key lists: lexicographic, keys by their UTF-8 bytes (`Vec<String>`'s order).
pub open spec fn keys_lt(a: Seq<Seq<char>>, b: Seq<Seq<char>>) -> bool
    decreases a.len(),
{
    if a.len() == 0 {
        b.len() > 0
    } else if b.len() == 0 {
        false
    } else if a[0] != b[0] {
        str_lt(a[0], b[0])
    } else {
        keys_lt(a.drop_first(), b.drop_first())
    }
}

/// Order of targets: by path components, then key lists, then non-discovering first.
pub open spec fn target_lt(a: TargetView, b: TargetView) -> bool {
    ||| path_lt(a.path, b.path)
    ||| (segments(a.path) == segments(b.path) && (keys_lt(a.keys, b.keys) || (a.keys == b.keys && !a.discovers && b.discovers)))
}

/// `t` inserted into `s` after every target it does not precede.
pub open spec fn insert_stable(s: Seq<TargetView>, t: TargetView) -> Seq<TargetView>
    decreases s.len(),
{
    if s.len() == 0 {
        seq![t]
    } else if target_lt(t, s[0]) {
        seq![t] + s
    } else {
        seq![s[0]] + insert_stable(s.drop_first(), t)
    }
}

/// The targets in order, equal ones as the plan lists them (a stable sort).
pub open spec fn sort_targets(ts: Seq<TargetView>) -> Seq<TargetView>
    decreases ts.len(),
{
    if ts.len() == 0 {
        Seq::empty()
    } else {
        insert_stable(sort_targets(ts.drop_last()), ts.last())
    }
}

/// The first position in `s` whose target `t` precedes, or the length.
pub open spec fn stable_pos(s: Seq<TargetView>, t: TargetView) -> int
    decreases s.len(),
{
    if s.len() == 0 || target_lt(t, s[0]) {
        0
    } else {
        1 + stable_pos(s.drop_first(), t)
    }
}

proof fn lemma_insert_stable(s: Seq<TargetView>, t: TargetView)
    ensures
        0 <= stable_pos(s, t) <= s.len(),
        insert_stable(s, t) == s.insert(stable_pos(s, t), t),
        forall|j: int| 0 <= j < stable_pos(s, t) ==> !target_lt(t, #[trigger] s[j]),
        stable_pos(s, t) < s.len() ==> target_lt(t, s[stable_pos(s, t)]),
    decreases s.len(),
{
    if s.len() > 0 && !target_lt(t, s[0]) {
        lemma_insert_stable(s.drop_first(), t);
        let k = stable_pos(s.drop_first(), t);
        assert(insert_stable(s, t) =~= s.insert(k + 1, t));
        assert forall|j: int| 0 <= j < stable_pos(s, t) implies !target_lt(t, #[trigger] s[j]) by {
            if j > 0 {
                assert(s[j] == s.drop_first()[j - 1]);
            }
        }
        if k + 1 < s.len() {
            assert(s[k + 1] == s.drop_first()[k]);
        }
    } else if s.len() > 0 {
        assert(insert_stable(s, t) =~= s.insert(0, t));
    } else {
        assert(insert_stable(s, t) =~= s.insert(0, t));
    }
}

/// Every sorted target is one of the plan's targets.
proof fn lemma_sort_members(ts: Seq<TargetView>)
    ensures
        sort_targets(ts).len() == ts.len(),
        forall|i: int| 0 <= i < ts.len() ==> exists|j: int| 0 <= j < ts.len() && #[trigger] sort_targets(ts)[i] == ts[j],
    decreases ts.len(),
{
    if ts.len() > 0 {
        let prev = sort_targets(ts.drop_last());
        lemma_sort_members(ts.drop_last());
        lemma_insert_stable(prev, ts.last());
        let k = stable_pos(prev, ts.last());
        assert forall|i: int| 0 <= i < ts.len() implies exists|j: int| 0 <= j < ts.len() && #[trigger] sort_targets(ts)[i] == ts[j] by {
            if i < k {
                assert(sort_targets(ts)[i] == prev[i]);
                let j = choose|j: int| 0 <= j < ts.len() - 1 && #[trigger] prev[i] == ts.drop_last()[j];
                assert(ts.drop_last()[j] == ts[j]);
            } else if i == k {
                assert(sort_targets(ts)[i] == ts[ts.len() - 1]);
            } else {
                assert(sort_targets(ts)[i] == prev[i - 1]);
                let j = choose|j: int| 0 <= j < ts.len() - 1 && #[trigger] prev[i - 1] == ts.drop_last()[j];
                assert(ts.drop_last()[j] == ts[j]);
            }
        }
    }
}

fn keys_less(a: &Vec<String>, b: &Vec<String>) -> (r: bool)
    ensures
        r == keys_lt(string_views(a@), string_views(b@)),
{
    let ghost va = string_views(a@);
    let ghost vb = string_views(b@);
    let mut i: usize = 0;
    assert(va.skip(0) =~= va);
    assert(vb.skip(0) =~= vb);
    while i < a.len() && i < b.len()
        invariant
            i <= a.len(),
            i <= b.len(),
            va == string_views(a@),
            vb == string_views(b@),
            keys_lt(va, vb) == keys_lt(va.skip(i as int), vb.skip(i as int)),
        decreases a.len() - i,
    {
        let ghost sa = va.skip(i as int);
        let ghost sb = vb.skip(i as int);
        assert(sa[0] == a@[i as int]@);
        assert(sb[0] == b@[i as int]@);
        if !crate::strings::str_eq(a[i].as_str(), b[i].as_str()) {
            return string_less(&a[i], &b[i]);
        }
        assert(sa.drop_first() =~= va.skip(i + 1));
        assert(sb.drop_first() =~= vb.skip(i + 1));
        i += 1;
    }
    i < b.len()
}

fn keys_equal(a: &Vec<String>, b: &Vec<String>) -> (r: bool)
    ensures
        r == (string_views(a@) == string_views(b@)),
{
    if a.len() != b.len() {
        assert(string_views(a@).len() != string_views(b@).len());
        return false;
    }
    let mut i: usize = 0;
    while i < a.len()
        invariant
            i <= a.len(),
            a.len() == b.len(),
            forall|j: int| 0 <= j < i ==> a@[j]@ == b@[j]@,
        decreases a.len() - i,
    {
        if !crate::strings::str_eq(a[i].as_str(), b[i].as_str()) {
            assert(string_views(a@)[i as int] != string_views(b@)[i as int]);
            return false;
        }
        i += 1;
    }
    assert(string_views(a@) =~= string_views(b@));
    true
}

fn target_less(a: &WatchTarget, b: &WatchTarget) -> (r: bool)
    ensures
        r == target_lt(a@, b@),
{
    let sa = path_segments(a.path.as_slice());
    let sb = path_segments(b.path.as_slice());
    if segs_less(&sa, &sb) {
        return true;
    }
    if !segs_equal(&sa, &sb) {
        return false;
    }
    keys_less(&a.repository_keys, &b.repository_keys)
        || (keys_equal(&a.repository_keys, &b.repository_keys) && !a.discovers_repositories && b.discovers_repositories)
}

/// The plan's targets, sorted stably by [`target_lt`].
fn sorted_targets(targets: &Vec<WatchTarget>) -> (r: Vec<WatchTarget>)
    ensures
        target_views(r@) == sort_targets(target_views(targets@)),
{
    let ghost ts = target_views(targets@);
    let mut out: Vec<WatchTarget> = Vec::new();
    let mut i: usize = 0;
    assert(ts.take(0) =~= Seq::<TargetView>::empty());
    while i < targets.len()
        invariant
            i <= targets.len(),
            ts == target_views(targets@),
            target_views(out@) == sort_targets(ts.take(i as int)),
        decreases targets.len() - i,
    {
        let t = clone_target(&targets[i]);
        let ghost s = target_views(out@);
        proof {
            lemma_insert_stable(s, t@);
            assert(ts.take(i + 1).drop_last() =~= ts.take(i as int));
            assert(ts.take(i + 1).last() == t@);
        }
        let mut k: usize = 0;
        while k < out.len() && !target_less(&t, &out[k])
            invariant
                k <= out.len(),
                s == target_views(out@),
                forall|j: int| 0 <= j < k ==> !target_lt(t@, #[trigger] s[j]),
            decreases out.len() - k,
        {
            k += 1;
        }
        proof {
            assert(k == stable_pos(s, t@)) by {
                let p = stable_pos(s, t@);
                if k < p {
                    assert(!target_lt(t@, s[k as int]));
                } else if k > p {
                    assert(!target_lt(t@, s[p]));
                }
            }
        }
        out.insert(k, t);
        assert(target_views(out@) =~= s.insert(k as int, t@));
        i += 1;
    }
    assert(ts.take(i as int) =~= ts);
    out
}

/// Validate the plan and options, then open the bounded channel: the sender for the
/// filesystem watcher and the queue that debounces its events.
pub fn git_watch_channel(plan: &WatchPlan, options: GitWatchQueueOptions) -> (r: Result<(GitWatchSender, GitWatchQueue), GitWatchQueueError>)
    requires
        options.channel_capacity <= usize::MAX / 8,
    ensures
        match r {
            Err(e) => validate_spec(target_views(plan.targets@), options) == Err::<(), GitWatchQueueError>(e),
            Ok((sender, queue)) => {
                &&& validate_spec(target_views(plan.targets@), options) is Ok
                &&& queue@ == (QueueView {
                    options,
                    targets: sort_targets(target_views(plan.targets@)),
                    repos: Seq::empty(),
                    roots: Seq::empty(),
                })
                &&& queue_wf(queue@)
            },
        },
{
    match validate(plan, options) {
        Err(e) => {
            return Err(e);
        },
        Ok(()) => {},
    }
    proof {
        lemma_check_targets_ok(target_views(plan.targets@), 0);
    }
    let (sender, receiver) = open_channel(options.channel_capacity);
    let overflow = OverflowFlag::new();
    let targets = sorted_targets(&plan.targets);
    proof {
        let ts = target_views(plan.targets@);
        lemma_sort_members(ts);
        assert forall|i: int| 0 <= i < sort_targets(ts).len() implies is_canonical_absolute(#[trigger] sort_targets(ts)[i].path) by {
            let j = choose|j: int| 0 <= j < ts.len() && #[trigger] sort_targets(ts)[i] == ts[j];
        }
    }
    let queue = GitWatchQueue {
        receiver,
        overflow: overflow.share(),
        targets,
        pending_repositories: Vec::new(),
        pending_discoveries: Vec::new(),
        options,
    };
    assert(queue@.repos =~= Seq::<(Seq<char>, u64)>::empty());
    assert(queue@.roots =~= Seq::<(Seq<u8>, u64)>::empty());
    Ok((GitWatchSender { sender, overflow }, queue))
}

impl GitWatchQueue {
    fn clear_pending(&mut self)
        requires
            queue_wf(old(self)@),
        ensures
            final(self)@ == (QueueView { repos: Seq::empty(), roots: Seq::empty(), ..old(self)@ }),
            queue_wf(final(self)@),
    {
        self.pending_repositories = Vec::new();
        self.pending_discoveries = Vec::new();
        assert(self@.repos =~= Seq::<(Seq<char>, u64)>::empty());
        assert(self@.roots =~= Seq::<(Seq<u8>, u64)>::empty());
    }

    /// Drop whatever the channel holds (at most `usize::MAX` events).
    fn discard_buffered(&mut self)
        ensures
            final(self)@ == old(self)@,
    {
        let ghost v = self@;
        let mut budget: usize = usize::MAX;
        while budget > 0
            invariant
                self@ == v,
            decreases budget,
        {
            match try_receive_event(&mut self.receiver) {
                Some(_) => {
                    budget -= 1;
                },
                None => {
                    budget = 0;
                },
            }
        }
    }

    /// When the overflow flag was raised, lower it, drop all pending and buffered
    /// work, and ask for one full reconcile.
    fn overflow_action(&mut self) -> (r: Option<Vec<GitWatchAction>>)
        requires
            queue_wf(old(self)@),
        ensures
            queue_wf(final(self)@),
            match r {
                Some(actions) => action_views(actions@) == seq![ActionView::FullReconcile]
                    && final(self)@ == (QueueView { repos: Seq::empty(), roots: Seq::empty(), ..old(self)@ }),
                None => final(self)@ == old(self)@,
            },
    {
        if !self.overflow.take() {
            return None;
        }
        self.clear_pending();
        self.discard_buffered();
        let actions = vec![GitWatchAction::FullReconcile];
        assert(action_views(actions@) =~= seq![ActionView::FullReconcile]);
        Some(actions)
    }

    /// The events the channel holds now (at most `usize::MAX` of them), in order.
    fn receive_all(&mut self) -> (events: Vec<GitWatchEvent>)
        ensures
            final(self)@ == old(self)@,
    {
        let mut events: Vec<GitWatchEvent> = Vec::new();
        let mut budget: usize = usize::MAX;
        while budget > 0
            invariant
                self@ == old(self)@,
            decreases budget,
        {
            match try_receive_event(&mut self.receiver) {
                Some(event) => {
                    events.push(event);
                    budget -= 1;
                },
                None => {
                    budget = 0;
                },
            }
        }
        events
    }

    /// One poll at `now`, given whether the overflow flag read raised and the events
    /// received: after an overflow (read, a rescan, or too many pending items) drop
    /// all pending work and ask for one full reconcile; otherwise apply the events
    /// in order and hand out what is ready.
    pub fn poll_with(&mut self, now: u64, overflow_read: bool, events: Vec<GitWatchEvent>) -> (r: Vec<GitWatchAction>)
        requires
            queue_wf(old(self)@),
        ensures
            queue_wf(final(self)@),
            (action_views(r@), final(self)@) == poll_outcome(old(self)@, now, overflow_read, event_views(events@)),
    {
        let ghost v = self@;
        let ghost max = self.options.max_pending_repositories;
        let ghost es = event_views(events@);
        if overflow_read {
            self.clear_pending();
            let actions = vec![GitWatchAction::FullReconcile];
            assert(action_views(actions@) =~= seq![ActionView::FullReconcile]);
            return actions;
        }
        let mut signaled = false;
        let mut i: usize = 0;
        proof {
            assert(es.skip(0) =~= es);
            assert(PendingState { signaled: false, ..pending_of(v) } == pending_of(v));
        }
        while i < events.len() && !signaled
            invariant
                queue_wf(self@),
                self@.options == v.options,
                self@.targets == v.targets,
                max == v.options.max_pending_repositories,
                es == event_views(events@),
                i <= events.len(),
                events_effect(pending_of(v), max, v.targets, es)
                    == events_effect(PendingState { signaled, ..pending_of(self@) }, max, v.targets, es.skip(i as int)),
            decreases events.len() - i,
        {
            proof {
                assert(es.skip(i as int).drop_first() =~= es.skip(i + 1));
                assert(es.skip(i as int)[0] == events@[i as int]@);
                assert(PendingState { signaled: false, ..pending_of(self@) } == pending_of(self@));
            }
            if events[i].kind == GitWatchEventKind::Rescan {
                signaled = true;
            } else {
                signaled = self.apply_event_paths(&events[i]);
            }
            i += 1;
        }
        proof {
            if !signaled {
                assert(es.skip(i as int) =~= Seq::<EventView>::empty());
            }
        }
        if signaled {
            self.clear_pending();
            let actions = vec![GitWatchAction::FullReconcile];
            assert(action_views(actions@) =~= seq![ActionView::FullReconcile]);
            return actions;
        }
        let ghost mid = self@;
        assert(mid == (QueueView { repos: mid.repos, roots: mid.roots, ..v }));
        let actions = self.take_ready(now);
        actions
    }

    /// Drain the channel into the pending set and hand out what is ready at `now`;
    /// after an overflow (a full channel, a rescan, or too many pending items) drop
    /// all pending and buffered work and ask for one full reconcile instead.
    ///
    /// The events received and the overflow flag depend on other threads: the
    /// result is [`poll_outcome`] of whatever the flag read and the channel held,
    /// and [`Self::poll_with`] gives it exactly for each.
    pub fn poll(&mut self, now: u64) -> (r: Vec<GitWatchAction>)
        requires
            queue_wf(old(self)@),
        ensures
            queue_wf(final(self)@),
            exists|overflow_read: bool, events: Seq<EventView>|
                (action_views(r@), final(self)@) == #[trigger] poll_outcome(old(self)@, now, overflow_read, events),
    {
        let ghost v = self@;
        match self.overflow_action() {
            Some(actions) => {
                assert((action_views(actions@), self@) == poll_outcome(v, now, true, Seq::<EventView>::empty()));
                return actions;
            },
            None => {},
        }
        let events = self.receive_all();
        let overflow_read = self.overflow.take();
        let ghost es = event_views(events@);
        let actions = self.poll_with(now, overflow_read, events);
        if actions.len() == 1 && matches!(actions[0], GitWatchAction::FullReconcile) {
            self.discard_buffered();
        }
        assert((action_views(actions@), self@) == poll_outcome(v, now, overflow_read, es));
        actions
    }
}


/// A rescan among the events signals overflow, whatever comes before it.
proof fn lemma_rescan_signals(st: PendingState, max: usize, ts: Seq<TargetView>, es: Seq<EventView>, i: int)
    requires
        0 <= i < es.len(),
        es[i].kind == GitWatchEventKind::Rescan,
    ensures
        events_effect(st, max, ts, es).signaled,
    decreases es.len(),
{
    if !st.signaled {
        let next = event_effect(st, max, ts, es[0]);
        if i > 0 {
            assert(es.drop_first()[i - 1] == es[i]);
            lemma_rescan_signals(next, max, ts, es.drop_first(), i - 1);
        } else {
            assert(next.signaled);
            assert(events_effect(next, max, ts, es.drop_first()) == next);
        }
    }
}

/// A rescan, or an overflow flag that reads raised, makes the poll hand out one
/// full reconcile and leave nothing pending.
pub proof fn lemma_rescan_forces_full_reconcile(v: QueueView, now: u64, overflow_read: bool, es: Seq<EventView>, i: int)
    requires
        overflow_read || (0 <= i < es.len() && es[i].kind == GitWatchEventKind::Rescan),
    ensures
        poll_outcome(v, now, overflow_read, es)
            == (seq![ActionView::FullReconcile], QueueView { repos: Seq::<(Seq<char>, u64)>::empty(), roots: Seq::<(Seq<u8>, u64)>::empty(), ..v }),
{
    if !overflow_read {
        lemma_rescan_signals(pending_of(v), v.options.max_pending_repositories, v.targets, es, i);
    }
}

/// An overflow since the last poll (the flag read raised, or the events needed more
/// pending items than allowed) makes the poll hand out one full reconcile and leave
/// nothing pending; a later poll that receives nothing and reads no overflow then
/// hands out nothing and changes nothing.
pub proof fn lemma_overflow_poll_then_quiet(v: QueueView, now: u64, overflow_read: bool, es: Seq<EventView>, later: u64)
    requires
        overflow_read || events_effect(pending_of(v), v.options.max_pending_repositories, v.targets, es).signaled,
    ensures
        poll_outcome(v, now, overflow_read, es).0 == seq![ActionView::FullReconcile],
        poll_outcome(v, now, overflow_read, es).1.repos.len() == 0,
        poll_outcome(v, now, overflow_read, es).1.roots.len() == 0,
        poll_outcome(poll_outcome(v, now, overflow_read, es).1, later, false, Seq::empty()).0 == Seq::<ActionView>::empty(),
        poll_outcome(poll_outcome(v, now, overflow_read, es).1, later, false, Seq::empty()).1
            == poll_outcome(v, now, overflow_read, es).1,
{
    let w = poll_outcome(v, now, overflow_read, es).1;
    assert(events_effect(pending_of(w), w.options.max_pending_repositories, w.targets, Seq::empty()) == pending_of(w));
    let mid = QueueView { repos: pending_of(w).repos, roots: pending_of(w).roots, ..w };
    assert(mid == w);
    assert(ready_repo_actions(w.repos, later, w.options.debounce) =~= Seq::<ActionView>::empty());
    assert(ready_root_actions(w.roots, later, w.options.debounce) =~= Seq::<ActionView>::empty());
    assert(unready_repos(w.repos, later, w.options.debounce) =~= w.repos);
    assert(unready_roots(w.roots, later, w.options.debounce) =~= w.roots);
}

/// A second event for a repository that is already pending refreshes its instant in
/// place: no second entry, no overflow.
pub proof fn lemma_repeated_events_coalesce(ps: PendingState, max: usize, k: Seq<char>, t1: u64, t2: u64)
    requires
        pending_wf(ps, max),
        !push_repo(ps, max, k, t1).signaled,
    ensures
        ({
            let a = push_repo(ps, max, k, t1);
            let b = push_repo(a, max, k, t2);
            &&& repo_index(a.repos, k) < a.repos.len()
            &&& b.repos == a.repos.update(repo_index(a.repos, k), (k, t2))
            &&& b.roots == a.roots
            &&& !b.signaled
        }),
{
    lemma_repo_index(ps.repos, k);
    lemma_repo_insert_pos(ps.repos, k);
    let a = push_repo(ps, max, k, t1);
    let i = repo_index(ps.repos, k);
    if i < ps.repos.len() {
        assert(a.repos[i].0 == k);
        lemma_repo_index(a.repos, k);
        if repo_index(a.repos, k) < i {
            assert(a.repos[repo_index(a.repos, k)] == ps.repos[repo_index(a.repos, k)]);
        }
    } else {
        let pos = repo_insert_pos(ps.repos, k);
        assert(a.repos[pos].0 == k);
        lemma_repo_index(a.repos, k);
        if repo_index(a.repos, k) < pos {
            assert(a.repos[repo_index(a.repos, k)] == ps.repos[repo_index(a.repos, k)]);
        }
        assert(repo_index(a.repos, k) <= pos);
    }
}

proof fn lemma_unready_repos_not_ready(repos: Seq<(Seq<char>, u64)>, now: u64, d: u64)
    ensures
        ready_repo_actions(unready_repos(repos, now, d), now, d) == Seq::<ActionView>::empty(),
    decreases repos.len(),
{
    if repos.len() > 0 {
        lemma_unready_repos_not_ready(repos.drop_last(), now, d);
        let prev = unready_repos(repos.drop_last(), now, d);
        if !is_ready_spec(now, repos.last().1, d) {
            assert(prev.push(repos.last()).drop_last() =~= prev);
        }
    }
}

proof fn lemma_unready_roots_not_ready(roots: Seq<(Seq<u8>, u64)>, now: u64, d: u64)
    ensures
        ready_root_actions(unready_roots(roots, now, d), now, d) == Seq::<ActionView>::empty(),
    decreases roots.len(),
{
    if roots.len() > 0 {
        lemma_unready_roots_not_ready(roots.drop_last(), now, d);
        let prev = unready_roots(roots.drop_last(), now, d);
        if !is_ready_spec(now, roots.last().1, d) {
            assert(prev.push(roots.last()).drop_last() =~= prev);
        }
    }
}

/// Ready work is handed out once: asking again at the same instant yields nothing
/// and changes nothing.
pub proof fn lemma_ready_actions_handed_out_once(v: QueueView, now: u64)
    ensures
        ready_actions(after_ready(v, now), now) == Seq::<ActionView>::empty(),
        after_ready(after_ready(v, now), now) == after_ready(v, now),
{
    let d = v.options.debounce;
    lemma_unready_repos_not_ready(v.repos, now, d);
    lemma_unready_roots_not_ready(v.roots, now, d);
    lemma_unready_repos_idempotent(v.repos, now, d);
    lemma_unready_roots_idempotent(v.roots, now, d);
    assert(ready_actions(after_ready(v, now), now) =~= Seq::<ActionView>::empty());
}

proof fn lemma_unready_repos_idempotent(repos: Seq<(Seq<char>, u64)>, now: u64, d: u64)
    ensures
        unready_repos(unready_repos(repos, now, d), now, d) == unready_repos(repos, now, d),
    decreases repos.len(),
{
    if repos.len() > 0 {
        lemma_unready_repos_idempotent(repos.drop_last(), now, d);
        let prev = unready_repos(repos.drop_last(), now, d);
        if !is_ready_spec(now, repos.last().1, d) {
            assert(prev.push(repos.last()).drop_last() =~= prev);
        }
    }
}

proof fn lemma_unready_roots_idempotent(roots: Seq<(Seq<u8>, u64)>, now: u64, d: u64)
    ensures
        unready_roots(unready_roots(roots, now, d), now, d) == unready_roots(roots, now, d),
    decreases roots.len(),
{
    if roots.len() > 0 {
        lemma_unready_roots_idempotent(roots.drop_last(), now, d);
        let prev = unready_roots(roots.drop_last(), now, d);
        if !is_ready_spec(now, roots.last().1, d) {
            assert(prev.push(roots.last()).drop_last() =~= prev);
        }
    }
}

} // verus!

//! Bounded canonical repository discovery.
//!
//! The walk is a state machine: the caller reads each directory the state asks
//! for and hands back what it found; the state decides what is a repository,
//! what to warn about and what to read next. Paths are raw Unix path bytes.

use vstd::prelude::*;

use crate::bytes::{copy_range, eq_bytes};
use crate::git_observer::watcher::path_same_exec;
use crate::paths::{
    is_absolute, join_component, join_name, lemma_segs_lt_total, lemma_segs_lt_transitive, path_lt, path_same,
    path_segments, segments, segs_less,
};

verus! {

/// `std::io::ErrorKind`, carried through warnings as the reason an operation failed.
#[verifier::external_type_specification]
#[verifier::external_body]
pub struct ExIoErrorKind(std::io::ErrorKind);

/// `Clone` for `std::io::ErrorKind`, which is a `Copy` enum: the clone is the same kind.
pub assume_specification[<std::io::ErrorKind as Clone>::clone](kind: &std::io::ErrorKind) -> (r: std::io::ErrorKind)
    ensures
        r == *kind,
;

#[derive(Debug, Clone, Copy, PartialEq, Eq)]
pub struct DiscoveryOptions {
    pub max_depth: usize,
    pub max_repositories: usize,
}

impl Default for DiscoveryOptions {
    fn default() -> (o: Self)
        ensures
            o.max_depth == 3,
            o.max_repositories == 120,
    {
        Self { max_depth: 3, max_repositories: 120 }
    }
}

#[derive(Debug, Clone, PartialEq, Eq)]
pub enum DiscoveryWarningKind {
    RootUnavailable { error_kind: std::io::ErrorKind },
    ReadDirectoryFailed { error_kind: std::io::ErrorKind },
    EntryTypeFailed { error_kind: std::io::ErrorKind },
    SymlinkSkipped,
    DepthLimitReached { max_depth: usize },
    RepositoryLimitReached { limit: usize },
}

#[derive(Debug, Clone, PartialEq, Eq)]
pub struct DiscoveryWarning {
    pub kind: DiscoveryWarningKind,
    pub path: Vec<u8>,
}

#[derive(Debug, Clone, PartialEq, Eq)]
pub struct DiscoveryResult {
    pub repositories: Vec<Vec<u8>>,
    pub warnings: Vec<DiscoveryWarning>,
}

impl Default for DiscoveryResult {
    fn default() -> (r: Self)
        ensures
            r.repositories@.len() == 0,
            r.warnings@.len() == 0,
    {
        DiscoveryResult { repositories: Vec::new(), warnings: Vec::new() }
    }
}

/// What a directory entry turned out to be.
#[derive(Debug, Clone, Copy, PartialEq, Eq)]
pub enum EntryKind {
    Directory,
    File,
    Symlink,
    Other,
    /// Its file type could not be read.
    Failed(std::io::ErrorKind),
}

/// One entry of a directory listing: its file name and what it is.
#[derive(Debug, Clone, PartialEq, Eq)]
pub struct DirectoryEntry {
    pub name: Vec<u8>,
    pub kind: EntryKind,
}

/// What reading a directory produced: its entries ordered by name, or the failure.
#[derive(Debug, Clone, PartialEq, Eq)]
pub enum DirectoryListing {
    Entries(Vec<DirectoryEntry>),
    Failed(std::io::ErrorKind),
}

/// What to do with a configured root once it has been canonicalized.
#[derive(Debug)]
pub enum RootStep {
    /// The root was unavailable or already walked.
    Skip,
    /// The repository limit is reached: stop discovering.
    Stop,
    /// Walk the root.
    Walk(RootWalk),
}

/// The directories still to read under one root, the next on top.
#[derive(Debug)]
pub struct RootWalk {
    root: Vec<u8>,
    stack: Vec<(Vec<u8>, usize)>,
}

pub struct WarningView {
    pub kind: DiscoveryWarningKind,
    pub path: Seq<u8>,
}

impl View for DiscoveryWarning {
    type V = WarningView;

    open spec fn view(&self) -> WarningView {
        WarningView { kind: self.kind, path: self.path@ }
    }
}

pub open spec fn warning_views(v: Seq<DiscoveryWarning>) -> Seq<WarningView> {
    Seq::new(v.len(), |i: int| v[i]@)
}

pub struct EntryView {
    pub name: Seq<u8>,
    pub kind: EntryKind,
}

impl View for DirectoryEntry {
    type V = EntryView;

    open spec fn view(&self) -> EntryView {
        EntryView { name: self.name@, kind: self.kind }
    }
}

pub open spec fn entry_views(v: Seq<DirectoryEntry>) -> Seq<EntryView> {
    Seq::new(v.len(), |i: int| v[i]@)
}

/// Mathematical view of the discovery state.
pub struct DiscoveryView {
    pub options: DiscoveryOptions,
    pub repositories: Seq<Seq<u8>>,
    pub seen_roots: Seq<Seq<u8>>,
    pub warnings: Seq<WarningView>,
    pub limit_reported: bool,
}

impl View for RootWalk {
    type V = (Seq<u8>, Seq<(Seq<u8>, usize)>);

    closed spec fn view(&self) -> (Seq<u8>, Seq<(Seq<u8>, usize)>) {
        (self.root@, Seq::new(self.stack@.len(), |i: int| (self.stack@[i].0@, self.stack@[i].1)))
    }
}

pub open spec fn bytes_seqs(v: Seq<Vec<u8>>) -> Seq<Seq<u8>> {
    Seq::new(v.len(), |i: int| v[i]@)
}

/// The walk state: repositories found, roots walked, warnings, and whether the
/// repository limit has been reported.
#[derive(Debug)]
pub struct DiscoveryState {
    options: DiscoveryOptions,
    repositories: Vec<Vec<u8>>,
    seen_roots: Vec<Vec<u8>>,
    warnings: Vec<DiscoveryWarning>,
    limit_reported: bool,
}

impl View for DiscoveryState {
    type V = DiscoveryView;

    closed spec fn view(&self) -> DiscoveryView {
        DiscoveryView {
            options: self.options,
            repositories: bytes_seqs(self.repositories@),
            seen_roots: bytes_seqs(self.seen_roots@),
            warnings: warning_views(self.warnings@),
            limit_reported: self.limit_reported,
        }
    }
}

/// `.git`
pub open spec fn git_name() -> Seq<u8> {
    seq![46u8, 103u8, 105u8, 116u8]
}

/// Names never descended into: `.git`, `.cache`, `cache`, `node_modules`, `target`.
pub open spec fn ignored_name_spec(name: Seq<u8>) -> bool {
    ||| name == git_name()
    ||| name == seq![46u8, 99u8, 97u8, 99u8, 104u8, 101u8]
    ||| name == seq![99u8, 97u8, 99u8, 104u8, 101u8]
    ||| name == seq![110u8, 111u8, 100u8, 101u8, 95u8, 109u8, 111u8, 100u8, 117u8, 108u8, 101u8, 115u8]
    ||| name == seq![116u8, 97u8, 114u8, 103u8, 101u8, 116u8]
}

/// Some repository already found is the same path as `p`.
pub open spec fn known_repository(repos: Seq<Seq<u8>>, p: Seq<u8>) -> bool {
    exists|i: int| 0 <= i < repos.len() && path_same(#[trigger] repos[i], p)
}

/// Record repository `p` unless the same path is already recorded.
pub open spec fn add_repository_spec(s: DiscoveryView, p: Seq<u8>) -> DiscoveryView {
    if known_repository(s.repositories, p) {
        s
    } else {
        DiscoveryView { repositories: s.repositories.push(p), ..s }
    }
}

pub open spec fn warn(s: DiscoveryView, kind: DiscoveryWarningKind, p: Seq<u8>) -> DiscoveryView {
    DiscoveryView { warnings: s.warnings.push(WarningView { kind, path: p }), ..s }
}

/// Report the repository limit, once, against `root`.
pub open spec fn repository_limit_spec(s: DiscoveryView, root: Seq<u8>) -> DiscoveryView {
    if s.limit_reported {
        s
    } else {
        DiscoveryView {
            limit_reported: true,
            ..warn(s, DiscoveryWarningKind::RepositoryLimitReached { limit: s.options.max_repositories }, root)
        }
    }
}

/// Index of the first entry named `.git`, or the length when there is none.
pub open spec fn marker_index(es: Seq<EntryView>) -> int
    decreases es.len(),
{
    if es.len() == 0 {
        0
    } else if es[0].name == git_name() {
        0
    } else {
        1 + marker_index(es.drop_first())
    }
}

/// Whether `dir` holds a usable `.git` marker, with the warning its file type gives.
pub open spec fn marker_check(s: DiscoveryView, dir: Seq<u8>, es: Seq<EntryView>) -> (DiscoveryView, bool) {
    let i = marker_index(es);
    if i >= es.len() {
        (s, false)
    } else {
        match es[i].kind {
            EntryKind::Symlink => (warn(s, DiscoveryWarningKind::SymlinkSkipped, join_name(dir, git_name())), false),
            EntryKind::Failed(e) => (warn(s, DiscoveryWarningKind::EntryTypeFailed { error_kind: e }, join_name(dir, git_name())), false),
            EntryKind::Directory => (s, true),
            EntryKind::File => (s, true),
            EntryKind::Other => (s, false),
        }
    }
}

/// Scan entries `es`: warnings for symlinks and unreadable types, and the child
/// directories to descend into, in order.
pub open spec fn scan_entries(s: DiscoveryView, dir: Seq<u8>, es: Seq<EntryView>) -> (DiscoveryView, Seq<Seq<u8>>)
    decreases es.len(),
{
    if es.len() == 0 {
        (s, Seq::empty())
    } else {
        let (s1, children) = scan_entries(s, dir, es.drop_last());
        let e = es.last();
        let p = join_name(dir, e.name);
        if ignored_name_spec(e.name) {
            (s1, children)
        } else {
            match e.kind {
                EntryKind::Symlink => (warn(s1, DiscoveryWarningKind::SymlinkSkipped, p), children),
                EntryKind::Directory => (s1, children.push(p)),
                EntryKind::Failed(err) => (warn(s1, DiscoveryWarningKind::EntryTypeFailed { error_kind: err }, p), children),
                _ => (s1, children),
            }
        }
    }
}

/// The children pushed for the next depth, last child first so the first is on top.
pub open spec fn push_children(stack: Seq<(Seq<u8>, usize)>, children: Seq<Seq<u8>>, depth: usize) -> Seq<(Seq<u8>, usize)>
    decreases children.len(),
{
    if children.len() == 0 {
        stack
    } else {
        push_children(stack.push((children.last(), (depth + 1) as usize)), children.drop_last(), depth)
    }
}

/// The state and stack after reading directory `dir` at `depth`.
pub open spec fn visit_spec(s: DiscoveryView, stack: Seq<(Seq<u8>, usize)>, dir: Seq<u8>, depth: usize, listing: DirectoryListing) -> (DiscoveryView, Seq<(Seq<u8>, usize)>) {
    match listing {
        DirectoryListing::Failed(e) => (warn(s, DiscoveryWarningKind::ReadDirectoryFailed { error_kind: e }, dir), stack),
        DirectoryListing::Entries(entries) => {
            let es = entry_views(entries@);
            let (s1, is_repo) = marker_check(s, dir, es);
            if is_repo {
                (add_repository_spec(s1, dir), stack)
            } else {
                let (s2, children) = scan_entries(s1, dir, es);
                if depth >= s.options.max_depth {
                    if children.len() > 0 {
                        (warn(s2, DiscoveryWarningKind::DepthLimitReached { max_depth: s.options.max_depth }, dir), stack)
                    } else {
                        (s2, stack)
                    }
                } else {
                    (s2, push_children(stack, children, depth))
                }
            }
        },
    }
}

/// No two repositories are the same path.
pub open spec fn distinct_paths(ps: Seq<Seq<u8>>) -> bool {
    forall|i: int, j: int| 0 <= i < j < ps.len() ==> !path_same(#[trigger] ps[i], #[trigger] ps[j])
}

/// At most `max_repositories` distinct, absolute repositories.
pub open spec fn discovery_wf(s: DiscoveryView) -> bool {
    &&& s.repositories.len() <= s.options.max_repositories
    &&& distinct_paths(s.repositories)
    &&& forall|i: int| 0 <= i < s.repositories.len() ==> is_absolute(#[trigger] s.repositories[i])
}

/// Every directory still to read is absolute.
pub open spec fn stack_absolute(stack: Seq<(Seq<u8>, usize)>) -> bool {
    forall|i: int| 0 <= i < stack.len() ==> is_absolute(#[trigger] stack[i].0)
}


/// Index of the first path not ordered before `x`.
pub open spec fn path_insert_pos(s: Seq<Seq<u8>>, x: Seq<u8>) -> int
    decreases s.len(),
{
    if s.len() == 0 {
        0
    } else if !path_lt(s[0], x) {
        0
    } else {
        1 + path_insert_pos(s.drop_first(), x)
    }
}

/// The paths in path order (insertion sort).
pub open spec fn sort_paths(s: Seq<Seq<u8>>) -> Seq<Seq<u8>>
    decreases s.len(),
{
    if s.len() == 0 {
        Seq::empty()
    } else {
        let r = sort_paths(s.drop_last());
        r.insert(path_insert_pos(r, s.last()), s.last())
    }
}

/// Strictly increasing in path order.
pub open spec fn paths_sorted(s: Seq<Seq<u8>>) -> bool {
    forall|i: int, j: int| 0 <= i < j < s.len() ==> path_lt(#[trigger] s[i], #[trigger] s[j])
}

proof fn lemma_path_insert_pos(s: Seq<Seq<u8>>, x: Seq<u8>)
    ensures
        0 <= path_insert_pos(s, x) <= s.len(),
        path_insert_pos(s, x) < s.len() ==> !path_lt(s[path_insert_pos(s, x)], x),
        forall|j: int| 0 <= j < path_insert_pos(s, x) ==> path_lt(#[trigger] s[j], x),
    decreases s.len(),
{
    if s.len() > 0 && path_lt(s[0], x) {
        lemma_path_insert_pos(s.drop_first(), x);
        assert forall|j: int| 0 <= j < path_insert_pos(s, x) implies path_lt(#[trigger] s[j], x) by {
            if j > 0 {
                assert(s[j] == s.drop_first()[j - 1]);
            }
        }
    }
}

/// Sorting distinct absolute paths yields them all, each once, in strictly
/// increasing path order.
pub proof fn lemma_sort_paths(s: Seq<Seq<u8>>)
    requires
        distinct_paths(s),
        forall|i: int| 0 <= i < s.len() ==> is_absolute(#[trigger] s[i]),
    ensures
        sort_paths(s).len() == s.len(),
        paths_sorted(sort_paths(s)),
        forall|i: int| 0 <= i < s.len() ==> sort_paths(s).contains(#[trigger] s[i]),
        forall|j: int| 0 <= j < sort_paths(s).len() ==> s.contains(#[trigger] sort_paths(s)[j]),
    decreases s.len(),
{
    if s.len() > 0 {
        let t = s.drop_last();
        assert forall|i: int, j: int| 0 <= i < j < t.len() implies !path_same(#[trigger] t[i], #[trigger] t[j]) by {
            assert(t[i] == s[i] && t[j] == s[j]);
        }
        assert forall|i: int| 0 <= i < t.len() implies is_absolute(#[trigger] t[i]) by {
            assert(t[i] == s[i]);
        }
        lemma_sort_paths(t);
        let r = sort_paths(t);
        let x = s.last();
        lemma_path_insert_pos(r, x);
        let pos = path_insert_pos(r, x);
        let out = r.insert(pos, x);
        assert(out == sort_paths(s));
        if pos < r.len() {
            assert(t.contains(r[pos]));
            let k = choose|k: int| 0 <= k < t.len() && t[k] == r[pos];
            assert(s[k] == r[pos]);
            assert(!path_same(s[k], s[s.len() - 1]));
            assert(is_absolute(s[k]));
            lemma_segs_lt_total(segments(r[pos]), segments(x));
        }
        assert forall|a: int, b: int| 0 <= a < b < out.len() implies path_lt(#[trigger] out[a], #[trigger] out[b]) by {
            if b < pos {
            } else if b == pos {
            } else if a < pos {
                if b - 1 > pos {
                    lemma_segs_lt_transitive(segments(x), segments(r[pos]), segments(r[b - 1]));
                }
                lemma_segs_lt_transitive(segments(r[a]), segments(x), segments(r[b - 1]));
            } else if a == pos {
                if b - 1 > pos {
                    lemma_segs_lt_transitive(segments(x), segments(r[pos]), segments(r[b - 1]));
                }
            } else {
            }
        }
        assert forall|i: int| 0 <= i < s.len() implies out.contains(#[trigger] s[i]) by {
            if i == s.len() - 1 {
                assert(out[pos] == x);
            } else {
                assert(t[i] == s[i]);
                assert(r.contains(t[i]));
                let k = choose|k: int| 0 <= k < r.len() && r[k] == t[i];
                if k < pos {
                    assert(out[k] == r[k]);
                } else {
                    assert(out[k + 1] == r[k]);
                }
            }
        }
        assert forall|j: int| 0 <= j < out.len() implies s.contains(#[trigger] out[j]) by {
            if j == pos {
                assert(s[s.len() - 1] == x);
            } else {
                let k = if j < pos { j } else { j - 1 };
                assert(out[j] == r[k]);
                assert(t.contains(r[k]));
                let q = choose|q: int| 0 <= q < t.len() && t[q] == r[k];
                assert(s[q] == t[q]);
            }
        }
    }
}

fn ignored_name(name: &[u8]) -> (r: bool)
    ensures
        r == ignored_name_spec(name@),
{
    let git: [u8; 4] = [46u8, 103u8, 105u8, 116u8];
    let dot_cache: [u8; 6] = [46u8, 99u8, 97u8, 99u8, 104u8, 101u8];
    let cache: [u8; 5] = [99u8, 97u8, 99u8, 104u8, 101u8];
    let node_modules: [u8; 12] = [110u8, 111u8, 100u8, 101u8, 95u8, 109u8, 111u8, 100u8, 117u8, 108u8, 101u8, 115u8];
    let target: [u8; 6] = [116u8, 97u8, 114u8, 103u8, 101u8, 116u8];
    assert(git@ == git_name());
    assert(dot_cache@ == seq![46u8, 99u8, 97u8, 99u8, 104u8, 101u8]);
    assert(cache@ == seq![99u8, 97u8, 99u8, 104u8, 101u8]);
    assert(node_modules@ == seq![110u8, 111u8, 100u8, 101u8, 95u8, 109u8, 111u8, 100u8, 117u8, 108u8, 101u8, 115u8]);
    assert(target@ == seq![116u8, 97u8, 114u8, 103u8, 101u8, 116u8]);
    eq_bytes(name, &git) || eq_bytes(name, &dot_cache) || eq_bytes(name, &cache) || eq_bytes(name, &node_modules)
        || eq_bytes(name, &target)
}

fn git_marker_path(dir: &[u8]) -> (r: Vec<u8>)
    ensures
        r@ == join_name(dir@, git_name()),
{
    let git: [u8; 4] = [46u8, 103u8, 105u8, 116u8];
    assert(git@ == git_name());
    join_component(dir, &git)
}

/// Every directory still to read under the walk's root is absolute.
pub open spec fn walk_wf(w: (Seq<u8>, Seq<(Seq<u8>, usize)>)) -> bool {
    is_absolute(w.0) && stack_absolute(w.1)
}

proof fn lemma_scan_children_absolute(s: DiscoveryView, dir: Seq<u8>, es: Seq<EntryView>)
    requires
        is_absolute(dir),
    ensures
        forall|i: int| 0 <= i < scan_entries(s, dir, es).1.len() ==> is_absolute(#[trigger] scan_entries(s, dir, es).1[i]),
        scan_entries(s, dir, es).0.repositories == s.repositories,
        scan_entries(s, dir, es).0.options == s.options,
        scan_entries(s, dir, es).0.seen_roots == s.seen_roots,
        scan_entries(s, dir, es).0.limit_reported == s.limit_reported,
    decreases es.len(),
{
    if es.len() > 0 {
        lemma_scan_children_absolute(s, dir, es.drop_last());
    }
}

proof fn lemma_push_children_absolute(stack: Seq<(Seq<u8>, usize)>, children: Seq<Seq<u8>>, depth: usize)
    requires
        stack_absolute(stack),
        forall|i: int| 0 <= i < children.len() ==> is_absolute(#[trigger] children[i]),
    ensures
        stack_absolute(push_children(stack, children, depth)),
    decreases children.len(),
{
    if children.len() > 0 {
        let st2 = stack.push((children.last(), (depth + 1) as usize));
        assert(is_absolute(children[children.len() - 1]));
        assert forall|i: int| 0 <= i < st2.len() implies is_absolute(#[trigger] st2[i].0) by {
            if i < stack.len() {
                assert(st2[i] == stack[i]);
            }
        }
        let c2 = children.drop_last();
        assert forall|i: int| 0 <= i < c2.len() implies is_absolute(#[trigger] c2[i]) by {
            assert(c2[i] == children[i]);
        }
        lemma_push_children_absolute(st2, c2, depth);
    }
}

impl DiscoveryState {
    /// An empty state.
    pub fn new(options: DiscoveryOptions) -> (s: Self)
        ensures
            s@ == (DiscoveryView {
                options,
                repositories: Seq::empty(),
                seen_roots: Seq::empty(),
                warnings: Seq::empty(),
                limit_reported: false,
            }),
            discovery_wf(s@),
    {
        let s = DiscoveryState {
            options,
            repositories: Vec::new(),
            seen_roots: Vec::new(),
            warnings: Vec::new(),
            limit_reported: false,
        };
        assert(s@.repositories =~= Seq::<Seq<u8>>::empty());
        assert(s@.seen_roots =~= Seq::<Seq<u8>>::empty());
        assert(s@.warnings =~= Seq::<WarningView>::empty());
        s
    }

    fn warning(&mut self, kind: DiscoveryWarningKind, path: Vec<u8>)
        ensures
            final(self)@ == warn(old(self)@, kind, path@),
    {
        let ghost before = self@;
        self.warnings.push(DiscoveryWarning { kind, path });
        assert(self@.warnings =~= before.warnings.push(WarningView { kind, path: path@ }));
    }

    fn repository_limit(&mut self, root: &[u8])
        ensures
            final(self)@ == repository_limit_spec(old(self)@, root@),
    {
        if !self.limit_reported {
            self.limit_reported = true;
            let limit = self.options.max_repositories;
            let path = copy_range(root, 0, root.len());
            assert(path@ =~= root@);
            self.warning(DiscoveryWarningKind::RepositoryLimitReached { limit }, path);
        }
    }

    fn add_repository(&mut self, path: Vec<u8>)
        requires
            discovery_wf(old(self)@),
            old(self)@.repositories.len() < old(self)@.options.max_repositories,
            is_absolute(path@),
        ensures
            final(self)@ == add_repository_spec(old(self)@, path@),
            discovery_wf(final(self)@),
    {
        let ghost before = self@;
        let mut i: usize = 0;
        while i < self.repositories.len()
            invariant
                self@ == before,
                before == old(self)@,
                discovery_wf(before),
                i <= self.repositories.len(),
                forall|j: int| 0 <= j < i ==> !path_same(#[trigger] before.repositories[j], path@),
            decreases self.repositories.len() - i,
        {
            assert(before.repositories[i as int] == self.repositories@[i as int]@);
            if path_same_exec(self.repositories[i].as_slice(), path.as_slice()) {
                assert(known_repository(before.repositories, path@));
                return;
            }
            i += 1;
        }
        assert(!known_repository(before.repositories, path@));
        self.repositories.push(path);
        assert(self@.repositories =~= before.repositories.push(path@));
    }

    fn has_git_marker(&mut self, dir: &[u8], entries: &Vec<DirectoryEntry>) -> (r: bool)
        ensures
            (final(self)@, r) == marker_check(old(self)@, dir@, entry_views(entries@)),
    {
        let ghost es = entry_views(entries@);
        let git: [u8; 4] = [46u8, 103u8, 105u8, 116u8];
        assert(git@ == git_name());
        let mut i: usize = 0;
        assert(es.skip(0) =~= es);
        while i < entries.len()
            invariant
                es == entry_views(entries@),
                git@ == git_name(),
                i <= entries.len(),
                marker_index(es) == i + marker_index(es.skip(i as int)),
            ensures
                es == entry_views(entries@),
                i <= entries.len(),
                marker_index(es) == i,
            decreases entries.len() - i,
        {
            assert(es.skip(i as int)[0] == entries@[i as int]@);
            if eq_bytes(entries[i].name.as_slice(), &git) {
                assert(marker_index(es.skip(i as int)) == 0);
                break;
            }
            assert(es.skip(i as int).drop_first() =~= es.skip(i + 1));
            i += 1;
            if i == entries.len() {
                assert(es.skip(i as int) =~= Seq::<EntryView>::empty());
            }
        }
        if i >= entries.len() {
            return false;
        }
        assert(es[i as int] == entries@[i as int]@);
        match entries[i].kind {
            EntryKind::Symlink => {
                self.warning(DiscoveryWarningKind::SymlinkSkipped, git_marker_path(dir));
                false
            },
            EntryKind::Failed(error_kind) => {
                self.warning(DiscoveryWarningKind::EntryTypeFailed { error_kind }, git_marker_path(dir));
                false
            },
            EntryKind::Directory => true,
            EntryKind::File => true,
            EntryKind::Other => false,
        }
    }

    fn scan(&mut self, dir: &[u8], entries: &Vec<DirectoryEntry>) -> (children: Vec<Vec<u8>>)
        ensures
            (final(self)@, bytes_seqs(children@)) == scan_entries(old(self)@, dir@, entry_views(entries@)),
    {
        let ghost es = entry_views(entries@);
        let ghost start = self@;
        let mut children: Vec<Vec<u8>> = Vec::new();
        let mut i: usize = 0;
        assert(es.take(0) =~= Seq::<EntryView>::empty());
        assert(bytes_seqs(children@) =~= Seq::<Seq<u8>>::empty());
        while i < entries.len()
            invariant
                es == entry_views(entries@),
                i <= entries.len(),
                (self@, bytes_seqs(children@)) == scan_entries(start, dir@, es.take(i as int)),
            decreases entries.len() - i,
        {
            let entry = &entries[i];
            assert(es.take(i + 1).drop_last() =~= es.take(i as int));
            assert(es.take(i + 1).last() == entry@);
            if !ignored_name(entry.name.as_slice()) {
                let entry_path = join_component(dir, entry.name.as_slice());
                match entry.kind {
                    EntryKind::Symlink => {
                        self.warning(DiscoveryWarningKind::SymlinkSkipped, entry_path);
                    },
                    EntryKind::Directory => {
                        let ghost before = bytes_seqs(children@);
                        children.push(entry_path);
                        assert(bytes_seqs(children@) =~= before.push(join_name(dir@, entry.name@)));
                    },
                    EntryKind::Failed(error_kind) => {
                        self.warning(DiscoveryWarningKind::EntryTypeFailed { error_kind }, entry_path);
                    },
                    _ => {},
                }
            }
            i += 1;
        }
        assert(es.take(i as int) =~= es);
        children
    }

    /// Take a configured root, given what canonicalizing it produced: warn when it is
    /// unavailable, skip it when already walked, stop at the repository limit, or
    /// start walking it.
    pub fn begin_root(&mut self, root: &[u8], canonical: Result<Vec<u8>, std::io::ErrorKind>) -> (step: RootStep)
        requires
            discovery_wf(old(self)@),
            canonical matches Ok(c) ==> is_absolute(c@),
        ensures
            discovery_wf(final(self)@),
            match canonical {
                Err(e) => final(self)@ == warn(old(self)@, DiscoveryWarningKind::RootUnavailable { error_kind: e }, root@) && step is Skip,
                Ok(c) => if known_repository(old(self)@.seen_roots, c@) {
                    final(self)@ == old(self)@ && step is Skip
                } else if old(self)@.repositories.len() >= old(self)@.options.max_repositories {
                    final(self)@ == repository_limit_spec(DiscoveryView { seen_roots: old(self)@.seen_roots.push(c@), ..old(self)@ }, c@)
                        && step is Stop
                } else {
                    &&& final(self)@ == (DiscoveryView { seen_roots: old(self)@.seen_roots.push(c@), ..old(self)@ })
                    &&& step matches RootStep::Walk(w) && w@ == (c@, seq![(c@, 0usize)]) && walk_wf(w@)
                },
            },
    {
        let ghost cv = canonical;
        let canonical_root = match canonical {
            Ok(path) => path,
            Err(error_kind) => {
                let path = copy_range(root, 0, root.len());
                assert(path@ =~= root@);
                self.warning(DiscoveryWarningKind::RootUnavailable { error_kind }, path);
                return RootStep::Skip;
            },
        };
        let ghost before = self@;
        let mut i: usize = 0;
        while i < self.seen_roots.len()
            invariant
                self@ == before,
                before == old(self)@,
                discovery_wf(before),
                cv == canonical,
                cv matches Ok(x) && x@ == canonical_root@,
                i <= self.seen_roots.len(),
                forall|j: int| 0 <= j < i ==> !path_same(#[trigger] before.seen_roots[j], canonical_root@),
            decreases self.seen_roots.len() - i,
        {
            assert(before.seen_roots[i as int] == self.seen_roots@[i as int]@);
            if path_same_exec(self.seen_roots[i].as_slice(), canonical_root.as_slice()) {
                assert(known_repository(before.seen_roots, canonical_root@));
                return RootStep::Skip;
            }
            i += 1;
        }
        assert(!known_repository(before.seen_roots, canonical_root@));
        self.seen_roots.push(canonical_root.clone());
        assert(self@.seen_roots =~= before.seen_roots.push(canonical_root@));
        if self.repositories.len() >= self.options.max_repositories {
            self.repository_limit(canonical_root.as_slice());
            return RootStep::Stop;
        }
        let mut stack: Vec<(Vec<u8>, usize)> = Vec::new();
        stack.push((canonical_root.clone(), 0));
        let walk = RootWalk { root: canonical_root, stack };
        assert(walk@.1 =~= seq![(walk@.0, 0usize)]);
        RootStep::Walk(walk)
    }

    /// The next directory to read under `walk`, with its depth; `None` once the walk
    /// is done, or when the repository limit is reached (which is then reported and
    /// ends the walk).
    pub fn next_directory(&mut self, walk: &mut RootWalk) -> (next: Option<(Vec<u8>, usize)>)
        requires
            discovery_wf(old(self)@),
            walk_wf(old(walk)@),
        ensures
            discovery_wf(final(self)@),
            walk_wf(final(walk)@),
            final(walk)@.0 == old(walk)@.0,
            old(walk)@.1.len() == 0 ==> next is None && final(self)@ == old(self)@ && final(walk)@ == old(walk)@,
            old(walk)@.1.len() > 0 && old(self)@.repositories.len() >= old(self)@.options.max_repositories ==> {
                &&& next is None
                &&& final(self)@ == repository_limit_spec(old(self)@, old(walk)@.0)
                &&& final(walk)@.1.len() == 0
            },
            old(walk)@.1.len() > 0 && old(self)@.repositories.len() < old(self)@.options.max_repositories ==> {
                &&& next matches Some((p, d)) && (p@, d) == old(walk)@.1.last() && is_absolute(p@)
                &&& final(self)@ == old(self)@
                &&& final(walk)@.1 == old(walk)@.1.drop_last()
                &&& final(self)@.repositories.len() < final(self)@.options.max_repositories
            },
    {
        let ghost w = walk@;
        match walk.stack.pop() {
            None => None,
            Some((path, depth)) => {
                assert(walk@.1 =~= w.1.drop_last());
                if self.repositories.len() >= self.options.max_repositories {
                    self.repository_limit(walk.root.as_slice());
                    walk.stack = Vec::new();
                    assert(walk@.1 =~= Seq::<(Seq<u8>, usize)>::empty());
                    return None;
                }
                assert(is_absolute(w.1[w.1.len() - 1].0));
                Some((path, depth))
            },
        }
    }

    /// Take what reading `dir` (at `depth`) produced: record a repository at a
    /// `.git` marker, or queue its subdirectories for the next depth, with warnings
    /// for failures, symlinks and the depth limit.
    pub fn visit(&mut self, walk: &mut RootWalk, dir: Vec<u8>, depth: usize, listing: DirectoryListing)
        requires
            discovery_wf(old(self)@),
            walk_wf(old(walk)@),
            old(self)@.repositories.len() < old(self)@.options.max_repositories,
            is_absolute(dir@),
        ensures
            discovery_wf(final(self)@),
            walk_wf(final(walk)@),
            final(walk)@.0 == old(walk)@.0,
            (final(self)@, final(walk)@.1) == visit_spec(old(self)@, old(walk)@.1, dir@, depth, listing),
    {
        let ghost w = walk@;
        let ghost s0 = self@;
        match listing {
            DirectoryListing::Failed(error_kind) => {
                self.warning(DiscoveryWarningKind::ReadDirectoryFailed { error_kind }, dir);
            },
            DirectoryListing::Entries(entries) => {
                if self.has_git_marker(dir.as_slice(), &entries) {
                    self.add_repository(dir);
                    return;
                }
                let ghost s1 = self@;
                let children = self.scan(dir.as_slice(), &entries);
                proof {
                    lemma_scan_children_absolute(s1, dir@, entry_views(entries@));
                }
                if depth >= self.options.max_depth {
                    if children.len() > 0 {
                        let max_depth = self.options.max_depth;
                        self.warning(DiscoveryWarningKind::DepthLimitReached { max_depth }, dir);
                    }
                    return;
                }
                let ghost kids = bytes_seqs(children@);
                let mut children = children;
                while children.len() > 0
                    invariant
                        walk@.0 == w.0,
                        walk_wf(walk@),
                        depth < s0.options.max_depth,
                        forall|i: int| 0 <= i < bytes_seqs(children@).len() ==> is_absolute(#[trigger] bytes_seqs(children@)[i]),
                        push_children(walk@.1, bytes_seqs(children@), depth) == push_children(w.1, kids, depth),
                    decreases children.len(),
                {
                    let ghost before_stack = walk@.1;
                    let ghost before_children = bytes_seqs(children@);
                    let child = children.pop().unwrap();
                    assert(bytes_seqs(children@) =~= before_children.drop_last());
                    assert(child@ == before_children.last());
                    walk.stack.push((child, depth + 1));
                    assert(walk@.1 =~= before_stack.push((before_children.last(), (depth + 1) as usize)));
                    assert(is_absolute(before_children[before_children.len() - 1]));
                    assert forall|i: int| 0 <= i < walk@.1.len() implies is_absolute(#[trigger] walk@.1[i].0) by {
                        if i < before_stack.len() {
                            assert(walk@.1[i] == before_stack[i]);
                        }
                    }
                    assert forall|i: int| 0 <= i < bytes_seqs(children@).len() implies is_absolute(#[trigger] bytes_seqs(children@)[i]) by {
                        assert(bytes_seqs(children@)[i] == before_children[i]);
                    }
                }
                assert(bytes_seqs(children@) =~= Seq::<Seq<u8>>::empty());
            },
        }
    }

    /// Whether the repository limit has been reported (discovery then stops).
    pub fn limit_reached(&self) -> (r: bool)
        ensures
            r == self@.limit_reported,
    {
        self.limit_reported
    }

    /// The repositories in path order, and the warnings in the order they arose.
    pub fn finish(self) -> (r: DiscoveryResult)
        requires
            discovery_wf(self@),
        ensures
            bytes_seqs(r.repositories@) == sort_paths(self@.repositories),
            paths_sorted(bytes_seqs(r.repositories@)),
            warning_views(r.warnings@) == self@.warnings,
    {
        let ghost reps = self@.repositories;
        proof {
            lemma_sort_paths(reps);
        }
        let mut sorted: Vec<Vec<u8>> = Vec::new();
        let mut i: usize = 0;
        assert(reps.take(0) =~= Seq::<Seq<u8>>::empty());
        assert(bytes_seqs(sorted@) =~= Seq::<Seq<u8>>::empty());
        while i < self.repositories.len()
            invariant
                reps == bytes_seqs(self.repositories@),
                i <= self.repositories.len(),
                bytes_seqs(sorted@) == sort_paths(reps.take(i as int)),
            decreases self.repositories.len() - i,
        {
            let path = &self.repositories[i];
            let ghost r = bytes_seqs(sorted@);
            assert(reps.take(i + 1).drop_last() =~= reps.take(i as int));
            assert(reps.take(i + 1).last() == path@);
            proof {
                lemma_path_insert_pos(r, path@);
            }
            let path_segs = path_segments(path.as_slice());
            let mut pos: usize = 0;
            while pos < sorted.len()
                invariant
                    r == bytes_seqs(sorted@),
                    crate::bytes::views(path_segs@) == segments(path@),
                    pos <= sorted.len(),
                    forall|j: int| 0 <= j < pos ==> path_lt(#[trigger] r[j], path@),
                ensures
                    pos <= sorted.len(),
                    forall|j: int| 0 <= j < pos ==> path_lt(#[trigger] r[j], path@),
                    pos < sorted.len() ==> !path_lt(r[pos as int], path@),
                decreases sorted.len() - pos,
            {
                assert(r[pos as int] == sorted@[pos as int]@);
                let entry_segs = path_segments(sorted[pos].as_slice());
                if !segs_less(&entry_segs, &path_segs) {
                    break;
                }
                pos += 1;
            }
            assert(path_insert_pos(r, path@) == pos) by {
                let q = path_insert_pos(r, path@);
                if q < pos {
                    assert(path_lt(r[q], path@));
                }
            }
            sorted.insert(pos, path.clone());
            assert(bytes_seqs(sorted@) =~= r.insert(pos as int, path@));
            i += 1;
        }
        assert(reps.take(i as int) =~= reps);
        DiscoveryResult { repositories: sorted, warnings: self.warnings }
    }
}


/// The repository limit is reported at most once, whichever root reaches it later.
pub proof fn lemma_limit_reported_once(s: DiscoveryView, first: Seq<u8>, later: Seq<u8>)
    ensures
        repository_limit_spec(repository_limit_spec(s, first), later) == repository_limit_spec(s, first),
        repository_limit_spec(s, first).limit_reported,
{
}

/// The walk descends only into real directories with names that are not ignored:
/// symlinks, files and unreadable entries are never followed.
pub proof fn lemma_only_real_directories_followed(s: DiscoveryView, dir: Seq<u8>, es: Seq<EntryView>)
    ensures
        forall|i: int| 0 <= i < scan_entries(s, dir, es).1.len() ==> exists|j: int| 0 <= j < es.len()
            && (#[trigger] es[j]).kind == EntryKind::Directory
            && !ignored_name_spec(es[j].name)
            && #[trigger] scan_entries(s, dir, es).1[i] == join_name(dir, es[j].name),
    decreases es.len(),
{
    if es.len() > 0 {
        let t = es.drop_last();
        lemma_only_real_directories_followed(s, dir, t);
        let prev = scan_entries(s, dir, t).1;
        let cur = scan_entries(s, dir, es).1;
        assert forall|i: int| 0 <= i < cur.len() implies exists|j: int| 0 <= j < es.len()
            && (#[trigger] es[j]).kind == EntryKind::Directory
            && !ignored_name_spec(es[j].name)
            && #[trigger] cur[i] == join_name(dir, es[j].name) by {
            if i < prev.len() {
                let j = choose|j: int| 0 <= j < t.len()
                    && (#[trigger] t[j]).kind == EntryKind::Directory
                    && !ignored_name_spec(t[j].name)
                    && #[trigger] prev[i] == join_name(dir, t[j].name);
                assert(es[j] == t[j]);
                assert(cur[i] == prev[i]);
            } else {
                assert(es[es.len() - 1] == es.last());
            }
        }
    }
}

/// Every entry that is a directory is a child to descend into unless its name is
/// exactly `.git`, `.cache`, `cache`, `node_modules` or `target`.
pub proof fn lemma_directories_descended_unless_ignored(s: DiscoveryView, dir: Seq<u8>, es: Seq<EntryView>)
    ensures
        forall|i: int| 0 <= i < es.len() && (#[trigger] es[i]).kind == EntryKind::Directory
            && es[i].name != seq![46u8, 103u8, 105u8, 116u8]
            && es[i].name != seq![46u8, 99u8, 97u8, 99u8, 104u8, 101u8]
            && es[i].name != seq![99u8, 97u8, 99u8, 104u8, 101u8]
            && es[i].name != seq![110u8, 111u8, 100u8, 101u8, 95u8, 109u8, 111u8, 100u8, 117u8, 108u8, 101u8, 115u8]
            && es[i].name != seq![116u8, 97u8, 114u8, 103u8, 101u8, 116u8]
            ==> scan_entries(s, dir, es).1.contains(join_name(dir, es[i].name)),
    decreases es.len(),
{
    if es.len() > 0 {
        let t = es.drop_last();
        lemma_directories_descended_unless_ignored(s, dir, t);
        let prev = scan_entries(s, dir, t).1;
        let cur = scan_entries(s, dir, es).1;
        assert forall|i: int| 0 <= i < es.len() && (#[trigger] es[i]).kind == EntryKind::Directory
            && es[i].name != seq![46u8, 103u8, 105u8, 116u8]
            && es[i].name != seq![46u8, 99u8, 97u8, 99u8, 104u8, 101u8]
            && es[i].name != seq![99u8, 97u8, 99u8, 104u8, 101u8]
            && es[i].name != seq![110u8, 111u8, 100u8, 101u8, 95u8, 109u8, 111u8, 100u8, 117u8, 108u8, 101u8, 115u8]
            && es[i].name != seq![116u8, 97u8, 114u8, 103u8, 101u8, 116u8]
            implies cur.contains(join_name(dir, es[i].name)) by {
            assert(cur.len() >= prev.len());
            assert forall|k: int| 0 <= k < prev.len() implies cur[k] == prev[k] by {}
            if i < t.len() {
                assert(t[i] == es[i]);
                assert(prev.contains(join_name(dir, es[i].name)));
                let k = choose|k: int| 0 <= k < prev.len() && prev[k] == join_name(dir, es[i].name);
                assert(cur[k] == prev[k]);
            } else {
                assert(es.last() == es[i]);
                assert(cur == prev.push(join_name(dir, es[i].name)));
                assert(cur[prev.len() as int] == join_name(dir, es[i].name));
            }
        }
    }
}

proof fn lemma_push_children_members(stack: Seq<(Seq<u8>, usize)>, children: Seq<Seq<u8>>, depth: usize)
    ensures
        forall|x: (Seq<u8>, usize)| stack.contains(x) ==> #[trigger] push_children(stack, children, depth).contains(x),
        forall|c: Seq<u8>| #[trigger] children.contains(c) ==> push_children(stack, children, depth).contains((c, (depth + 1) as usize)),
    decreases children.len(),
{
    if children.len() > 0 {
        let st2 = stack.push((children.last(), (depth + 1) as usize));
        let rest = children.drop_last();
        lemma_push_children_members(st2, rest, depth);
        assert forall|x: (Seq<u8>, usize)| stack.contains(x) implies #[trigger] push_children(stack, children, depth).contains(x) by {
            let k = choose|k: int| 0 <= k < stack.len() && stack[k] == x;
            assert(st2[k] == x);
            assert(st2.contains(x));
            assert(push_children(st2, rest, depth).contains(x));
            assert(push_children(stack, children, depth) == push_children(st2, rest, depth));
        }
        assert forall|c: Seq<u8>| #[trigger] children.contains(c) implies push_children(stack, children, depth).contains((c, (depth + 1) as usize)) by {
            let k = choose|k: int| 0 <= k < children.len() && children[k] == c;
            assert(push_children(stack, children, depth) == push_children(st2, rest, depth));
            if k < rest.len() {
                assert(rest[k] == c);
                assert(rest.contains(c));
                assert(push_children(st2, rest, depth).contains((c, (depth + 1) as usize)));
            } else {
                assert(st2[stack.len() as int] == (c, (depth + 1) as usize));
                assert(st2.contains((c, (depth + 1) as usize)));
                assert(push_children(st2, rest, depth).contains((c, (depth + 1) as usize)));
            }
        }
    }
}

proof fn lemma_marker_index(es: Seq<EntryView>)
    ensures
        0 <= marker_index(es) <= es.len(),
        marker_index(es) < es.len() ==> es[marker_index(es)].name == git_name(),
    decreases es.len(),
{
    if es.len() > 0 && es[0].name != git_name() {
        lemma_marker_index(es.drop_first());
        if marker_index(es) < es.len() {
            assert(es[marker_index(es)] == es.drop_first()[marker_index(es) - 1]);
        }
    }
}

/// Reading a directory without a usable `.git` marker, below the depth limit, queues
/// every child directory at the next depth, unless its name is exactly `.git`,
/// `.cache`, `cache`, `node_modules` or `target`; the directories already queued stay.
pub proof fn lemma_visit_descends_unless_ignored(s: DiscoveryView, stack: Seq<(Seq<u8>, usize)>, dir: Seq<u8>, depth: usize, entries: Vec<DirectoryEntry>)
    requires
        depth < s.options.max_depth,
        forall|j: int| 0 <= j < entries@.len() && (#[trigger] entries@[j])@.name == seq![46u8, 103u8, 105u8, 116u8]
            ==> entries@[j]@.kind != EntryKind::Directory && entries@[j]@.kind != EntryKind::File,
    ensures
        ({
            let es = entry_views(entries@);
            let next = visit_spec(s, stack, dir, depth, DirectoryListing::Entries(entries)).1;
            &&& forall|x: (Seq<u8>, usize)| stack.contains(x) ==> #[trigger] next.contains(x)
            &&& forall|i: int| 0 <= i < es.len() && (#[trigger] es[i]).kind == EntryKind::Directory
                && es[i].name != seq![46u8, 103u8, 105u8, 116u8]
                && es[i].name != seq![46u8, 99u8, 97u8, 99u8, 104u8, 101u8]
                && es[i].name != seq![99u8, 97u8, 99u8, 104u8, 101u8]
                && es[i].name != seq![110u8, 111u8, 100u8, 101u8, 95u8, 109u8, 111u8, 100u8, 117u8, 108u8, 101u8, 115u8]
                && es[i].name != seq![116u8, 97u8, 114u8, 103u8, 101u8, 116u8]
                ==> next.contains((join_name(dir, es[i].name), (depth + 1) as usize))
        }),
{
    let es = entry_views(entries@);
    let i0 = marker_index(es);
    lemma_marker_index(es);
    if i0 < es.len() {
        assert(es[i0] == entries@[i0]@);
    }
    assert(!marker_check(s, dir, es).1);
    let s1 = marker_check(s, dir, es).0;
    lemma_directories_descended_unless_ignored(s1, dir, es);
    lemma_push_children_members(stack, scan_entries(s1, dir, es).1, depth);
}

/// At the depth limit nothing is queued: the directories to read stay as they were.
pub proof fn lemma_depth_limit_queues_nothing(s: DiscoveryView, stack: Seq<(Seq<u8>, usize)>, dir: Seq<u8>, depth: usize, listing: DirectoryListing)
    requires
        depth >= s.options.max_depth,
    ensures
        visit_spec(s, stack, dir, depth, listing).1 == stack,
{
}

} // verus!

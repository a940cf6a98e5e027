//! Local project inventory: branch divergence and ignored directories.

use vstd::prelude::*;
use vstd::string::StringSliceAdditionalSpecFns;
use vstd::utf8::{decode_utf8, encode_utf8, valid_utf8};

use crate::bytes::{copy_range, eq_bytes, has_prefix, split_bytes, split_on, starts_with, views};
use crate::decimal::{parse_unsigned, parse_unsigned_spec};
use crate::inventory::remote_configs::{lemma_ascii_slice_valid, lemma_split_piece};
use crate::paths::{path_segments, segments};
use crate::bytes::string_from_utf8;
use crate::strings::{trim_chars, trim_str};

verus! {

/// Index of the first occurrence of `needle` in `hay`, when there is one.
pub open spec fn find_sub(hay: Seq<u8>, needle: Seq<u8>) -> Option<int>
    decreases hay.len(),
{
    if hay.len() < needle.len() {
        None
    } else if hay.take(needle.len() as int) == needle {
        Some(0)
    } else if hay.len() == 0 {
        None
    } else {
        match find_sub(hay.drop_first(), needle) {
            Some(i) => Some(i + 1),
            None => None,
        }
    }
}

/// A piece that ended at a `\n`, without the `\r` of a `\r\n` ending.
pub open spec fn strip_cr(line: Seq<u8>) -> Seq<u8> {
    if line.len() > 0 && line.last() == 13u8 {
        line.drop_last()
    } else {
        line
    }
}

/// The lines of a text as `str::lines` yields them: the pieces between `\n`s, each
/// that ended at a `\n` without the `\r` of a `\r\n`, and the last piece only when
/// it is not empty.
pub open spec fn text_lines(b: Seq<u8>) -> Seq<Seq<u8>> {
    let ps = split_bytes(b, 10u8);
    let ended = Seq::new((ps.len() - 1) as nat, |i: int| strip_cr(ps[i]));
    if ps.last().len() == 0 {
        ended
    } else {
        ended.push(ps.last())
    }
}

/// The first line that starts with `##` (the branch line of `git status -sb`).
pub open spec fn branch_line(lines: Seq<Seq<u8>>) -> Option<Seq<u8>>
    decreases lines.len(),
{
    if lines.len() == 0 {
        None
    } else if has_prefix(lines[0], seq![35u8, 35u8]) {
        Some(lines[0])
    } else {
        branch_line(lines.drop_first())
    }
}

/// What follows the first `label` in `line`, up to its next occurrence, then up to
/// the first `,` or `]`.
pub open spec fn labelled_value(line: Seq<u8>, label: Seq<u8>) -> Option<Seq<u8>> {
    match find_sub(line, label) {
        None => None,
        Some(i) => {
            let rest = line.skip(i + label.len());
            let piece = match find_sub(rest, label) {
                Some(j) => rest.take(j),
                None => rest,
            };
            Some(piece.take(first_delimiter(piece)))
        },
    }
}

/// Index of the first `,` or `]`, or the length.
pub open spec fn first_delimiter(s: Seq<u8>) -> int
    decreases s.len(),
{
    if s.len() == 0 {
        0
    } else if s[0] == 44u8 || s[0] == 93u8 {
        0
    } else {
        1 + first_delimiter(s.drop_first())
    }
}

pub open spec fn count_of(line: Seq<u8>, label: Seq<u8>) -> Option<u32> {
    match labelled_value(line, label) {
        None => None,
        Some(v) => match parse_unsigned_spec(v, u32::MAX as nat) {
            Some(n) => Some(n as u32),
            None => None,
        },
    }
}

pub open spec fn label_ahead() -> Seq<u8> {
    seq![97u8, 104u8, 101u8, 97u8, 100u8, 32u8]
}

pub open spec fn label_behind() -> Seq<u8> {
    seq![98u8, 101u8, 104u8, 105u8, 110u8, 100u8, 32u8]
}

/// Ahead and behind counts from the `##` branch line of `git status -sb` output.
pub open spec fn ahead_behind_spec(status: Seq<u8>) -> (Option<u32>, Option<u32>) {
    match branch_line(text_lines(status)) {
        None => (None, None),
        Some(line) => (count_of(line, label_ahead()), count_of(line, label_behind())),
    }
}

fn find_subslice(hay: &[u8], needle: &[u8]) -> (r: Option<usize>)
    requires
        needle.len() > 0,
    ensures
        match r {
            Some(i) => find_sub(hay@, needle@) == Some(i as int),
            None => find_sub(hay@, needle@) is None,
        },
{
    let mut i: usize = 0;
    assert(hay@.skip(0) =~= hay@);
    while i < hay.len() && needle.len() <= hay.len() - i
        invariant
            i <= hay.len(),
            needle.len() > 0,
            find_sub(hay@, needle@) == match find_sub(hay@.skip(i as int), needle@) {
                Some(k) => Some(k + i),
                None => None,
            },
        decreases hay.len() - i,
    {
        let window = copy_range(hay, i, i + needle.len());
        assert(hay@.skip(i as int).take(needle.len() as int) =~= window@);
        if eq_bytes(window.as_slice(), needle) {
            return Some(i);
        }
        assert(hay@.skip(i as int).drop_first() =~= hay@.skip(i + 1));
        i += 1;
    }
    assert(find_sub(hay@.skip(i as int), needle@) is None);
    None
}

fn first_delimiter_exec(s: &[u8]) -> (r: usize)
    ensures
        r as int == first_delimiter(s@),
        r <= s.len(),
{
    let mut i: usize = 0;
    assert(s@.skip(0) =~= s@);
    while i < s.len()
        invariant
            i <= s.len(),
            first_delimiter(s@) == i + first_delimiter(s@.skip(i as int)),
        decreases s.len() - i,
    {
        if s[i] == 44u8 || s[i] == 93u8 {
            return i;
        }
        assert(s@.skip(i as int).drop_first() =~= s@.skip(i + 1));
        i += 1;
    }
    assert(s@.skip(i as int) =~= Seq::<u8>::empty());
    i
}

proof fn lemma_first_delimiter_bound(s: Seq<u8>)
    ensures
        0 <= first_delimiter(s) <= s.len(),
    decreases s.len(),
{
    if s.len() > 0 {
        lemma_first_delimiter_bound(s.drop_first());
    }
}

proof fn lemma_find_sub_bound(hay: Seq<u8>, needle: Seq<u8>)
    ensures
        find_sub(hay, needle) matches Some(i) ==> 0 <= i && i + needle.len() <= hay.len(),
    decreases hay.len(),
{
    if hay.len() >= needle.len() && hay.take(needle.len() as int) != needle && hay.len() > 0 {
        lemma_find_sub_bound(hay.drop_first(), needle);
    }
}

fn count_after(line: &[u8], label: &[u8]) -> (r: Option<u32>)
    requires
        label.len() > 0,
    ensures
        r == count_of(line@, label@),
{
    let i = match find_subslice(line, label) {
        None => {
            return None;
        },
        Some(i) => i,
    };
    proof {
        lemma_find_sub_bound(line@, label@);
    }
    assert(i + label.len() <= line.len());
    let rest = copy_range(line, i + label.len(), line.len());
    assert(rest@ =~= line@.skip(i + label.len()));
    let piece_end = match find_subslice(rest.as_slice(), label) {
        Some(j) => {
            proof {
                lemma_find_sub_bound(rest@, label@);
            }
            j
        },
        None => rest.len(),
    };
    let piece = copy_range(rest.as_slice(), 0, piece_end);
    assert(piece@ =~= match find_sub(rest@, label@) {
        Some(j) => rest@.take(j),
        None => rest@,
    });
    let cut = first_delimiter_exec(piece.as_slice());
    let value = copy_range(piece.as_slice(), 0, cut);
    assert(value@ =~= piece@.take(cut as int));
    match parse_unsigned(value.as_slice(), 4294967295u64) {
        Some(n) => Some(n as u32),
        None => None,
    }
}

/// The lines of `b`, as [`text_lines`] describes them.
pub fn lines_of(b: &[u8]) -> (r: Vec<Vec<u8>>)
    ensures
        views(r@) == text_lines(b@),
{
    let pieces = split_on(b, 10u8);
    let ghost ps = views(pieces@);
    proof {
        crate::bytes::lemma_split_bytes_nonempty(b@, 10u8);
    }
    let n = pieces.len();
    let mut out: Vec<Vec<u8>> = Vec::new();
    let mut k: usize = 0;
    while k + 1 < n
        invariant
            ps == views(pieces@),
            ps == split_bytes(b@, 10u8),
            n == pieces.len(),
            n >= 1,
            k + 1 <= n,
            views(out@) == Seq::new(k as nat, |i: int| strip_cr(ps[i])),
        decreases n - k,
    {
        let raw = &pieces[k];
        assert(ps[k as int] == raw@);
        let end: usize = if raw.len() > 0 && raw[raw.len() - 1] == 13u8 { raw.len() - 1 } else { raw.len() };
        let line = copy_range(raw.as_slice(), 0, end);
        assert(line@ =~= strip_cr(raw@));
        let ghost before = out@;
        assert(views(before).len() == k);
        assert(before.len() == k);
        out.push(line);
        assert forall|i: int| 0 <= i < k implies out@[i]@ == strip_cr(ps[i]) by {
            assert(out@[i] == before[i]);
            assert(views(before)[i] == before[i]@);
        }
        assert(views(out@) =~= Seq::new((k + 1) as nat, |i: int| strip_cr(ps[i])));
        k += 1;
    }
    let last = &pieces[n - 1];
    assert(ps.last() == last@);
    if last.len() > 0 {
        let ghost before = out@;
        assert(views(before).len() == n - 1);
        assert(before.len() == n - 1);
        let copy = copy_range(last.as_slice(), 0, last.len());
        assert(copy@ =~= ps.last());
        out.push(copy);
        assert forall|i: int| 0 <= i < n - 1 implies out@[i]@ == strip_cr(ps[i]) by {
            assert(out@[i] == before[i]);
            assert(views(before)[i] == before[i]@);
        }
        assert(out@[n - 1]@ == ps.last());
        assert(views(out@) =~= text_lines(b@));
    } else {
        assert(views(out@) =~= text_lines(b@));
    }
    out
}

/// The ahead and behind counts on the branch line of `git status -sb` output.
pub fn parse_ahead_behind(status: &str) -> (r: (Option<u32>, Option<u32>))
    ensures
        r == ahead_behind_spec(status.spec_bytes()),
{
    let lines = lines_of(status.as_bytes());
    let ghost ls = views(lines@);
    let hashes: [u8; 2] = [35u8, 35u8];
    assert(hashes@ == seq![35u8, 35u8]);
    let mut k: usize = 0;
    assert(ls.skip(0) =~= ls);
    while k < lines.len()
        invariant
            ls == views(lines@),
            ls == text_lines(status.spec_bytes()),
            k <= lines.len(),
            hashes@ == seq![35u8, 35u8],
            branch_line(ls) == branch_line(ls.skip(k as int)),
        decreases lines.len() - k,
    {
        let line = &lines[k];
        assert(ls.skip(k as int)[0] == line@);
        if starts_with(line.as_slice(), &hashes) {
            let ahead: [u8; 6] = [97u8, 104u8, 101u8, 97u8, 100u8, 32u8];
            let behind: [u8; 7] = [98u8, 101u8, 104u8, 105u8, 110u8, 100u8, 32u8];
            assert(ahead@ == label_ahead());
            assert(behind@ == label_behind());
            assert(branch_line(ls.skip(k as int)) == Some(line@));
            return (count_after(line.as_slice(), &ahead), count_after(line.as_slice(), &behind));
        }
        assert(ls.skip(k as int).drop_first() =~= ls.skip(k + 1));
        k += 1;
    }
    assert(ls.skip(k as int) =~= Seq::<Seq<u8>>::empty());
    (None, None)
}

pub open spec fn ignored_dir_names(name: Seq<u8>) -> bool {
    ||| name == seq![46u8, 99u8, 97u8, 99u8, 104u8, 101u8]
    ||| name == seq![46u8, 103u8, 105u8, 116u8]
    ||| name == seq![110u8, 111u8, 100u8, 101u8, 95u8, 109u8, 111u8, 100u8, 117u8, 108u8, 101u8, 115u8]
    ||| name == seq![116u8, 97u8, 114u8, 103u8, 101u8, 116u8]
}

/// The path's file name (its last component) is `.cache`, `.git`, `node_modules` or `target`.
pub fn is_ignored_dir(path: &[u8]) -> (r: bool)
    ensures
        r == (segments(path@).len() > 0 && ignored_dir_names(segments(path@).last())),
{
    let segs = path_segments(path);
    if segs.len() == 0 {
        return false;
    }
    let name = &segs[segs.len() - 1];
    assert(views(segs@).last() == name@);
    let cache: [u8; 6] = [46u8, 99u8, 97u8, 99u8, 104u8, 101u8];
    let git: [u8; 4] = [46u8, 103u8, 105u8, 116u8];
    let node_modules: [u8; 12] = [110u8, 111u8, 100u8, 101u8, 95u8, 109u8, 111u8, 100u8, 117u8, 108u8, 101u8, 115u8];
    let target: [u8; 6] = [116u8, 97u8, 114u8, 103u8, 101u8, 116u8];
    assert(cache@ == seq![46u8, 99u8, 97u8, 99u8, 104u8, 101u8]);
    assert(git@ == seq![46u8, 103u8, 105u8, 116u8]);
    assert(node_modules@ == seq![110u8, 111u8, 100u8, 101u8, 95u8, 109u8, 111u8, 100u8, 117u8, 108u8, 101u8, 115u8]);
    assert(target@ == seq![116u8, 97u8, 114u8, 103u8, 101u8, 116u8]);
    eq_bytes(name.as_slice(), &cache) || eq_bytes(name.as_slice(), &git) || eq_bytes(name.as_slice(), &node_modules)
        || eq_bytes(name.as_slice(), &target)
}


/// What a `git` run gives the collector: its output trimmed, when it exited with 0.
pub fn git_output(status: Option<i32>, stdout: &str) -> (r: Option<String>)
    ensures
        status == Some(0i32) ==> (r matches Some(s) && s@ == trim_chars(stdout@)),
        status != Some(0i32) ==> r is None,
{
    match status {
        Some(code) => if code == 0 {
            Some(trim_str(stdout).to_owned())
        } else {
            None
        },
        None => None,
    }
}

/// The branch-line marker `##`.
pub open spec fn hashes() -> Seq<u8> {
    seq![35u8, 35u8]
}

/// Some line of `git status --porcelain --branch` other than the branch line: the
/// working tree has changes.
pub open spec fn dirty_spec(status: Seq<u8>) -> bool {
    exists|i: int| 0 <= i < text_lines(status).len() && !has_prefix(#[trigger] text_lines(status)[i], hashes())
}

/// Whether the status output lists any change.
pub fn status_is_dirty(status: &str) -> (r: bool)
    ensures
        r == dirty_spec(status.spec_bytes()),
{
    let lines = lines_of(status.as_bytes());
    let ghost ls = views(lines@);
    let marker: [u8; 2] = [35u8, 35u8];
    assert(marker@ == hashes());
    let mut k: usize = 0;
    while k < lines.len()
        invariant
            ls == views(lines@),
            ls == text_lines(status.spec_bytes()),
            k <= lines.len(),
            marker@ == hashes(),
            forall|j: int| 0 <= j < k ==> has_prefix(#[trigger] ls[j], hashes()),
        decreases lines.len() - k,
    {
        assert(ls[k as int] == lines@[k as int]@);
        if !starts_with(lines[k].as_slice(), &marker) {
            return true;
        }
        k += 1;
    }
    false
}

/// The `worktree ` label of `git worktree list --porcelain`.
pub open spec fn worktree_label() -> Seq<u8> {
    seq![119u8, 111u8, 114u8, 107u8, 116u8, 114u8, 101u8, 101u8, 32u8]
}

/// The text after `worktree ` of each line that starts with it.
pub open spec fn worktree_entries(lines: Seq<Seq<u8>>) -> Seq<Seq<u8>>
    decreases lines.len(),
{
    if lines.len() == 0 {
        Seq::empty()
    } else {
        let prev = worktree_entries(lines.drop_last());
        if has_prefix(lines.last(), worktree_label()) {
            prev.push(lines.last().skip(9))
        } else {
            prev
        }
    }
}

/// A line of valid text, after a leading ASCII label, is valid text.
proof fn lemma_line_tail_valid(b: Seq<u8>, i: int, label_len: int)
    requires
        valid_utf8(b),
        0 <= i < text_lines(b).len(),
        1 <= label_len <= text_lines(b)[i].len(),
        text_lines(b)[i][label_len - 1] < 128,
    ensures
        valid_utf8(text_lines(b)[i].skip(label_len)),
{
    crate::bytes::lemma_split_bytes_nonempty(b, 10u8);
    let ps = split_bytes(b, 10u8);
    let (lo, hi) = lemma_split_piece(b, 10u8, i);
    let line = text_lines(b)[i];
    let end = if i < ps.len() - 1 { strip_cr(ps[i]).len() as int } else { ps[i].len() as int };
    assert(line == ps[i].take(end)) by {
        if i < ps.len() - 1 {
            assert(line == strip_cr(ps[i]));
        } else {
            assert(line == ps.last());
        }
        assert(line =~= ps[i].take(end));
    }
    assert(b[lo + label_len - 1] == line[label_len - 1]);
    if lo + end < b.len() {
        if end < ps[i].len() {
            assert(b[lo + end] == ps[i][end]);
        }
    }
    lemma_ascii_slice_valid(b, lo + label_len, lo + end);
    assert(line.skip(label_len) =~= b.subrange(lo + label_len, lo + end));
}

/// The paths `git worktree list --porcelain` lists, in order.
pub fn worktree_paths(body: &str) -> (r: Vec<String>)
    ensures
        r@.len() == worktree_entries(text_lines(body.spec_bytes())).len(),
        forall|i: int| 0 <= i < r@.len() ==> #[trigger] r@[i]@ == decode_utf8(worktree_entries(text_lines(body.spec_bytes()))[i]),
{
    broadcast use vstd::utf8::encode_utf8_valid_utf8;
    let b = body.as_bytes();
    assert(valid_utf8(b@));
    let lines = lines_of(b);
    let ghost ls = views(lines@);
    let label: [u8; 9] = [119u8, 111u8, 114u8, 107u8, 116u8, 114u8, 101u8, 101u8, 32u8];
    assert(label@ == worktree_label());
    let mut out: Vec<String> = Vec::new();
    let mut k: usize = 0;
    assert(ls.take(0) =~= Seq::<Seq<u8>>::empty());
    while k < lines.len()
        invariant
            ls == views(lines@),
            ls == text_lines(b@),
            valid_utf8(b@),
            k <= lines.len(),
            label@ == worktree_label(),
            out@.len() == worktree_entries(ls.take(k as int)).len(),
            forall|i: int| 0 <= i < out@.len() ==> #[trigger] out@[i]@ == decode_utf8(worktree_entries(ls.take(k as int))[i]),
        decreases lines.len() - k,
    {
        assert(ls.take(k + 1).drop_last() =~= ls.take(k as int));
        assert(ls.take(k + 1).last() == lines@[k as int]@);
        let line = lines[k].as_slice();
        if starts_with(line, &label) {
            proof {
                assert(line@[8] == label@[8]);
                lemma_line_tail_valid(b@, k as int, 9);
            }
            let tail = copy_range(line, 9, line.len());
            assert(tail@ =~= line@.skip(9));
            match string_from_utf8(tail) {
                Some(path) => {
                    out.push(path);
                },
                None => {
                    assert(false);
                },
            }
        }
        k += 1;
    }
    assert(ls.take(k as int) =~= ls);
    out
}

/// What the collector reports of one repository.
#[derive(Debug, Clone, PartialEq, Eq)]
pub struct RepoSummary {
    pub path: String,
    pub branch: Option<String>,
    pub head: Option<String>,
    pub dirty: bool,
    pub ahead: Option<u32>,
    pub behind: Option<u32>,
    pub worktrees: Vec<String>,
}

/// The summary of the repository at `path` from the outputs of `git branch
/// --show-current`, `git rev-parse --short HEAD`, `git status --porcelain=v1 --branch`
/// and `git worktree list --porcelain` (each absent when the run failed): none without
/// a status; an empty branch name is absent; no worktree list means none.
pub fn repo_summary(
    path: &str,
    branch: Option<String>,
    head: Option<String>,
    status: Option<String>,
    worktrees: Option<String>,
) -> (r: Option<RepoSummary>)
    ensures
        status is None ==> r is None,
        status matches Some(st) ==> (r matches Some(summary) && {
            &&& summary.path@ == path@
            &&& summary.branch == (match branch { Some(name) => if name@.len() > 0 { Some(name) } else { None }, None => None })
            &&& summary.head == head
            &&& summary.dirty == dirty_spec(encode_utf8(st@))
            &&& (summary.ahead, summary.behind) == ahead_behind_spec(encode_utf8(st@))
            &&& match worktrees {
                Some(body) => summary.worktrees@.len() == worktree_entries(text_lines(encode_utf8(body@))).len()
                    && forall|i: int| 0 <= i < summary.worktrees@.len() ==> #[trigger] summary.worktrees@[i]@
                        == decode_utf8(worktree_entries(text_lines(encode_utf8(body@)))[i]),
                None => summary.worktrees@.len() == 0,
            }
        }),
{
    let status = match status {
        Some(s) => s,
        None => {
            return None;
        },
    };
    let dirty = status_is_dirty(status.as_str());
    let (ahead, behind) = parse_ahead_behind(status.as_str());
    let worktree_list = match &worktrees {
        Some(body) => worktree_paths(body.as_str()),
        None => Vec::new(),
    };
    let branch = match branch {
        Some(name) => if name.as_str().is_empty() {
            None
        } else {
            Some(name)
        },
        None => None,
    };
    Some(RepoSummary { path: path.to_owned(), branch, head, dirty, ahead, behind, worktrees: worktree_list })
}


/// Most repositories the project collector inspects.
pub const MAX_REPOS: usize = 120;

/// Deepest directory level, below a root, that the search reads.
pub const MAX_DEPTH: usize = 3;

/// The search goes on at `depth` while fewer than [`MAX_REPOS`] repositories were found
/// and the depth is at most [`MAX_DEPTH`].
pub fn search_continues(found: usize, depth: usize) -> (r: bool)
    ensures
        r == (found < MAX_REPOS && depth <= MAX_DEPTH),
{
    found < MAX_REPOS && depth <= MAX_DEPTH
}

/// The search descends into an entry only when it is a real directory (not a symlink)
/// whose name is not ignored.
pub fn descends_into(path: &[u8], real_directory: bool) -> (r: bool)
    ensures
        r == (real_directory && !(segments(path@).len() > 0 && ignored_dir_names(segments(path@).last()))),
{
    real_directory && !is_ignored_dir(path)
}

} // verus!

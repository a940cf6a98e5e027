//! The `git show` invocation for exact commit metadata and numstat summaries.

use vstd::prelude::*;
use vstd::string::{StringExecFns, StringSliceAdditionalSpecFns};
use vstd::utf8::encode_utf8;

use crate::bytes::{is_object_id, object_id};
use crate::strings::string_views;

verus! {

/// Why commit metadata could not be requested or parsed.
#[derive(Debug, Clone, Copy, PartialEq, Eq)]
pub enum CommitParseErrorKind {
    /// An option is out of range; names the option or the problem.
    InvalidOptions(&'static str),
    /// More commits than allowed.
    TooManyCommits { max: usize },
    /// A requested commit is not a 40- or 64-digit hexadecimal object ID.
    InvalidRequestedObjectId,
}

/// A commit parse error, with the commit and token it was found at.
#[derive(Debug, Clone, Copy, PartialEq, Eq)]
pub struct CommitParseError {
    pub commit_index: usize,
    pub token_index: usize,
    pub kind: CommitParseErrorKind,
}

/// The options every commit request passes to `git show`, before `--format=`.
pub open spec fn show_options() -> Seq<Seq<char>> {
    seq![
        "show"@,
        "--no-walk=unsorted"@,
        "--no-color"@,
        "--no-ext-diff"@,
        "--no-textconv"@,
        "--diff-merges=first-parent"@,
        "--find-renames"@,
        "--numstat"@,
        "-z"@,
    ]
}

/// Every requested commit is an object ID.
pub open spec fn all_object_ids(shas: Seq<String>) -> bool {
    forall|i: int| 0 <= i < shas.len() ==> is_object_id(encode_utf8(#[trigger] shas[i]@))
}

/// The arguments for one `git show` of `shas`, in this order of checks: a zero
/// limit, too many commits, none at all, then a malformed object ID; otherwise the
/// fixed options, `--format=<show_format>`, and the commits in request order.
pub open spec fn commit_show_spec(shas: Seq<String>, max_commits: usize, show_format: Seq<char>) -> Result<Seq<Seq<char>>, CommitParseErrorKind> {
    if max_commits == 0 {
        Err(CommitParseErrorKind::InvalidOptions("max_commits"))
    } else if shas.len() > max_commits {
        Err(CommitParseErrorKind::TooManyCommits { max: max_commits })
    } else if shas.len() == 0 {
        Err(CommitParseErrorKind::InvalidOptions("commit list is empty"))
    } else if !all_object_ids(shas) {
        Err(CommitParseErrorKind::InvalidRequestedObjectId)
    } else {
        Ok(show_options().push("--format="@ + show_format) + string_views(shas))
    }
}

fn option_error(kind: CommitParseErrorKind) -> (r: CommitParseError)
    ensures
        r == (CommitParseError { commit_index: 0, token_index: 0, kind }),
{
    CommitParseError { commit_index: 0, token_index: 0, kind }
}

/// The `git show` arguments that print `shas` with the metadata format
/// `show_format` and NUL-separated numstat lines (`commit_show_spec`); errors are
/// reported at commit 0, token 0.
pub fn commit_show_arguments(shas: &[String], max_commits: usize, show_format: &str) -> (r: Result<Vec<String>, CommitParseError>)
    ensures
        match commit_show_spec(shas@, max_commits, show_format@) {
            Ok(args) => r matches Ok(v) && string_views(v@) == args,
            Err(kind) => r == Err::<Vec<String>, CommitParseError>(CommitParseError { commit_index: 0, token_index: 0, kind }),
        },
{
    if max_commits == 0 {
        return Err(option_error(CommitParseErrorKind::InvalidOptions("max_commits")));
    }
    if shas.len() > max_commits {
        return Err(option_error(CommitParseErrorKind::TooManyCommits { max: max_commits }));
    }
    if shas.len() == 0 {
        return Err(option_error(CommitParseErrorKind::InvalidOptions("commit list is empty")));
    }
    let mut i: usize = 0;
    while i < shas.len()
        invariant
            i <= shas.len(),
            0 < max_commits,
            0 < shas.len() <= max_commits,
            forall|j: int| 0 <= j < i ==> is_object_id(encode_utf8(#[trigger] shas@[j]@)),
        decreases shas.len() - i,
    {
        let text = shas[i].as_str();
        assert(text@ == shas@[i as int]@);
        let bytes = text.as_bytes();
        assert(bytes@ == text.spec_bytes());
        let ok = object_id(bytes);
        if !ok {
            assert(!is_object_id(encode_utf8(shas@[i as int]@)));
            assert(!all_object_ids(shas@));
            return Err(option_error(CommitParseErrorKind::InvalidRequestedObjectId));
        }
        i += 1;
    }
    let mut format = "--format=".to_owned();
    format.append(show_format);
    let mut arguments: Vec<String> = vec![
        "show".to_owned(),
        "--no-walk=unsorted".to_owned(),
        "--no-color".to_owned(),
        "--no-ext-diff".to_owned(),
        "--no-textconv".to_owned(),
        "--diff-merges=first-parent".to_owned(),
        "--find-renames".to_owned(),
        "--numstat".to_owned(),
        "-z".to_owned(),
        format,
    ];
    let ghost prefix = show_options().push("--format="@ + show_format@);
    assert(string_views(arguments@) =~= prefix);
    let mut k: usize = 0;
    while k < shas.len()
        invariant
            k <= shas.len(),
            string_views(arguments@) == prefix + string_views(shas@).take(k as int),
        decreases shas.len() - k,
    {
        let c = shas[k].clone();
        assert(c@ == shas@[k as int]@);
        let ghost before = arguments@;
        arguments.push(c);
        assert(string_views(arguments@) =~= string_views(before).push(c@));
        assert(string_views(shas@).take(k + 1) =~= string_views(shas@).take(k as int).push(shas@[k as int]@));
        assert(string_views(arguments@) =~= prefix + string_views(shas@).take(k + 1));
        k += 1;
    }
    assert(string_views(shas@).take(k as int) =~= string_views(shas@));
    Ok(arguments)
}

} // verus!

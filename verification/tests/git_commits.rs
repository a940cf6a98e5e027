use observatory::git_observer::commits::{commit_show_arguments, CommitParseError, CommitParseErrorKind};

const SHA_A: &str = "0123456789abcdef0123456789abcdef01234567";
const SHA_B: &str = "89abcdef0123456789abcdef0123456789abcdef";

fn error(kind: CommitParseErrorKind) -> CommitParseError {
    CommitParseError { commit_index: 0, token_index: 0, kind }
}

#[test]
fn commit_show_arguments_fix_options_then_format_then_commits() {
    let shas = vec![SHA_B.to_string(), SHA_A.to_string()];
    let arguments = commit_show_arguments(&shas, 2, "%H").unwrap();
    assert_eq!(
        arguments,
        vec![
            "show",
            "--no-walk=unsorted",
            "--no-color",
            "--no-ext-diff",
            "--no-textconv",
            "--diff-merges=first-parent",
            "--find-renames",
            "--numstat",
            "-z",
            "--format=%H",
            SHA_B,
            SHA_A,
        ]
    );
}

#[test]
fn commit_show_arguments_report_errors_in_order() {
    let shas = vec![SHA_A.to_string(), "not-a-sha".to_string()];
    assert_eq!(commit_show_arguments(&shas, 0, "%H"), Err(error(CommitParseErrorKind::InvalidOptions("max_commits"))));
    assert_eq!(commit_show_arguments(&shas, 1, "%H"), Err(error(CommitParseErrorKind::TooManyCommits { max: 1 })));
    assert_eq!(
        commit_show_arguments(&[], 4, "%H"),
        Err(error(CommitParseErrorKind::InvalidOptions("commit list is empty")))
    );
    assert_eq!(commit_show_arguments(&shas, 4, "%H"), Err(error(CommitParseErrorKind::InvalidRequestedObjectId)));
    let long = "0123456789abcdef".repeat(4);
    assert!(commit_show_arguments(&[long], 1, "%H").is_ok());
}

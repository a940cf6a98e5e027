use observatory::git_observer::discovery::{
    DirectoryEntry, DirectoryListing, DiscoveryOptions, DiscoveryState, DiscoveryWarningKind, EntryKind, RootStep,
};
use std::io::ErrorKind;

fn entry(name: &str, kind: EntryKind) -> DirectoryEntry {
    DirectoryEntry { name: name.as_bytes().to_vec(), kind }
}

fn p(s: &str) -> Vec<u8> {
    s.as_bytes().to_vec()
}

#[test]
fn discovery_defaults() {
    let options = DiscoveryOptions::default();
    assert_eq!(options.max_depth, 3);
    assert_eq!(options.max_repositories, 120);
}

#[test]
fn walk_finds_repositories_skips_ignored_and_symlinks_and_sorts() {
    let mut state = DiscoveryState::new(DiscoveryOptions { max_depth: 3, max_repositories: 10 });
    let mut walk = match state.begin_root(b"/w", Ok(p("/w"))) {
        RootStep::Walk(walk) => walk,
        other => panic!("unexpected step {other:?}"),
    };
    let mut visited = Vec::new();
    while let Some((dir, depth)) = state.next_directory(&mut walk) {
        visited.push((String::from_utf8(dir.clone()).unwrap(), depth));
        let listing = match dir.as_slice() {
            b"/w" => DirectoryListing::Entries(vec![
                entry("b", EntryKind::Directory),
                entry("link", EntryKind::Symlink),
                entry("node_modules", EntryKind::Directory),
                entry("z", EntryKind::Directory),
            ]),
            b"/w/b" => DirectoryListing::Entries(vec![entry(".git", EntryKind::Directory), entry("src", EntryKind::Directory)]),
            b"/w/z" => DirectoryListing::Entries(vec![entry("a", EntryKind::Directory)]),
            b"/w/z/a" => DirectoryListing::Entries(vec![entry(".git", EntryKind::File)]),
            _ => DirectoryListing::Failed(ErrorKind::PermissionDenied),
        };
        state.visit(&mut walk, dir, depth, listing);
    }
    assert_eq!(
        visited,
        vec![("/w".to_string(), 0), ("/w/b".to_string(), 1), ("/w/z".to_string(), 1), ("/w/z/a".to_string(), 2)]
    );
    let result = state.finish();
    assert_eq!(result.repositories, vec![p("/w/b"), p("/w/z/a")]);
    assert_eq!(result.warnings.len(), 1);
    assert_eq!(result.warnings[0].kind, DiscoveryWarningKind::SymlinkSkipped);
    assert_eq!(result.warnings[0].path, p("/w/link"));
}

#[test]
fn depth_limit_and_read_failures_are_warned() {
    let mut state = DiscoveryState::new(DiscoveryOptions { max_depth: 0, max_repositories: 10 });
    let mut walk = match state.begin_root(b"/w", Ok(p("/w"))) {
        RootStep::Walk(walk) => walk,
        other => panic!("unexpected step {other:?}"),
    };
    let (dir, depth) = state.next_directory(&mut walk).unwrap();
    state.visit(&mut walk, dir, depth, DirectoryListing::Entries(vec![entry("child", EntryKind::Directory)]));
    assert!(state.next_directory(&mut walk).is_none());
    let unavailable = state.begin_root(b"/missing", Err(ErrorKind::NotFound));
    assert!(matches!(unavailable, RootStep::Skip));
    let repeat = state.begin_root(b"/w/.", Ok(p("/w/")));
    assert!(matches!(repeat, RootStep::Skip));
    let result = state.finish();
    assert!(result.repositories.is_empty());
    assert_eq!(result.warnings[0].kind, DiscoveryWarningKind::DepthLimitReached { max_depth: 0 });
    assert_eq!(result.warnings[0].path, p("/w"));
    assert_eq!(result.warnings[1].kind, DiscoveryWarningKind::RootUnavailable { error_kind: ErrorKind::NotFound });
    assert_eq!(result.warnings[1].path, p("/missing"));
}

#[test]
fn repository_limit_is_reported_once_and_stops_discovery() {
    let mut state = DiscoveryState::new(DiscoveryOptions { max_depth: 3, max_repositories: 1 });
    let mut walk = match state.begin_root(b"/w", Ok(p("/w"))) {
        RootStep::Walk(walk) => walk,
        other => panic!("unexpected step {other:?}"),
    };
    let (dir, depth) = state.next_directory(&mut walk).unwrap();
    state.visit(
        &mut walk,
        dir,
        depth,
        DirectoryListing::Entries(vec![entry("a", EntryKind::Directory), entry("b", EntryKind::Directory)]),
    );
    let (dir, depth) = state.next_directory(&mut walk).unwrap();
    assert_eq!(dir, p("/w/a"));
    state.visit(&mut walk, dir, depth, DirectoryListing::Entries(vec![entry(".git", EntryKind::Directory)]));
    assert!(state.next_directory(&mut walk).is_none());
    assert!(state.limit_reached());
    assert!(matches!(state.begin_root(b"/v", Ok(p("/v"))), RootStep::Stop));
    let result = state.finish();
    assert_eq!(result.repositories, vec![p("/w/a")]);
    assert_eq!(result.warnings.len(), 1);
    assert_eq!(result.warnings[0].kind, DiscoveryWarningKind::RepositoryLimitReached { limit: 1 });
}

#[test]
fn marker_symlink_and_unreadable_marker_are_not_repositories() {
    let mut state = DiscoveryState::new(DiscoveryOptions::default());
    let mut walk = match state.begin_root(b"/w", Ok(p("/w"))) {
        RootStep::Walk(walk) => walk,
        other => panic!("unexpected step {other:?}"),
    };
    let (dir, depth) = state.next_directory(&mut walk).unwrap();
    state.visit(&mut walk, dir, depth, DirectoryListing::Entries(vec![entry(".git", EntryKind::Symlink)]));
    let result = state.finish();
    assert!(result.repositories.is_empty());
    assert_eq!(result.warnings[0].kind, DiscoveryWarningKind::SymlinkSkipped);
    assert_eq!(result.warnings[0].path, p("/w/.git"));
}

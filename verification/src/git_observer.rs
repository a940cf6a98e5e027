//! Git repository and worktree observation primitives.

pub mod commits;
pub mod porcelain;
pub mod porcelain_status;
pub mod reconcile_commits;
pub mod reconcile_support;
pub mod discovery;
pub mod overflow_flag;
pub mod watcher;
pub mod watcher_queue;
pub mod watcher_supervisor;

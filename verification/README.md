# observatory

Verified core of a host observatory: it watches Git repositories, reconciles
their worktrees and commits, collects configuration inventory from hosts, and
ingests OpenTelemetry (OTLP) logs, traces and metrics.

The library under `src/` is written in Verus and verified. Its contracts state
what each function returns or changes, except where the answer is decided by
other threads: the shared overflow flag and the watch channel. The calls into
`std`, `tokio`, `sha2`, `serde_json` and `chrono` stand behind small trusted
wrappers whose contracts say what those crates document.

- `git_observer`: worktree and status porcelain parsers, repository discovery,
  the watch planner, the debouncing watch queue and its supervisor, the
  `git show` request, and the per-worktree reconcile decisions.
- `filetail`: the checkpoint state machine of a tailed log file.
- `inventory`: the framed remote-configuration protocol, nginx variable
  substitution, the services and networks recorded from a Docker container
  listing, AdGuard, UniFi and project helpers, artifact paths.
- `otlp`: error codes, admission accounting, metric budgets, identifiers,
  privacy classification, bounded JSON payloads, and the rows stored for metric
  points and spans.
- `runtime`: the projector and Git reconcile worker cycles.

`app/` holds the I/O around the library: directory walks, file system checks,
the clock, the environment, and the decoding of JSON bodies into the library's
types. `tests/` exercises the library through its public interface.

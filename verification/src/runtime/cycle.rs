//! The decisions of one projector cycle and one Git reconcile cycle: page byte
//! budgets, cycle health, retry backoff, the health detail text, what the worker
//! waits for next, and cumulative progress.

use vstd::prelude::*;
use vstd::string::StringExecFns;

use crate::message::{decimal_chars, push_decimal, push_decimal_u64};
use crate::otlp::metric_http::sat_add;
use crate::runtime::{projector_retry_delay_ms, spec_projector_retry_delay_ms};

verus! {

/// `a + b` on `u64`, saturating.
pub open spec fn sat_add_u64(a: int, b: int) -> int {
    if a + b > u64::MAX { u64::MAX as int } else { a + b }
}

/// `"true"` or `"false"`.
pub open spec fn bool_text(b: bool) -> Seq<char> {
    if b { "true"@ } else { "false"@ }
}

/// The health status a worker records: `"ok"` or `"error"`.
pub open spec fn status_text(healthy: bool) -> Seq<char> {
    if healthy { "ok"@ } else { "error"@ }
}

/// The health status a worker records for a cycle.
pub fn health_status(healthy: bool) -> (r: &'static str)
    ensures
        r@ == status_text(healthy),
{
    if healthy { "ok" } else { "error" }
}

fn push_bool(out: &mut String, b: bool)
    ensures
        final(out)@ == old(out)@ + bool_text(b),
{
    if b {
        out.append("true");
    } else {
        out.append("false");
    }
}

/// The byte budget of one projection page.
#[derive(Clone, Copy, Debug, PartialEq, Eq, Structural)]
pub struct PageBudget {
    /// Configured page byte limit.
    pub limit: usize,
    /// Bytes of the rows looked at so far (saturating).
    pub page_bytes: usize,
    /// Rows let through so far.
    pub processed: usize,
}

impl PageBudget {
    /// A page with nothing looked at yet.
    pub fn new(limit: usize) -> (r: Self)
        ensures
            r == (PageBudget { limit, page_bytes: 0, processed: 0 }),
    {
        PageBudget { limit, page_bytes: 0, processed: 0 }
    }

    /// Looks at the next row of `row_bytes`: `None` when the page stops before it
    /// (the budget is exceeded and some row was already let through), otherwise
    /// whether it is an oversized first row, which is still projected.
    pub fn admit_row(&mut self, row_bytes: usize) -> (r: Option<bool>)
        requires
            old(self).processed < usize::MAX,
        ensures
            final(self).limit == old(self).limit,
            final(self).page_bytes == sat_add(old(self).page_bytes as int, row_bytes as int),
            r == (if final(self).page_bytes > old(self).limit && old(self).processed > 0 {
                None
            } else {
                Some(final(self).page_bytes > old(self).limit)
            }),
            final(self).processed == (if r is Some { old(self).processed + 1 } else { old(self).processed as int }),
            r == Some(true) ==> old(self).processed == 0,
    {
        self.page_bytes = self.page_bytes.saturating_add(row_bytes);
        let over = self.page_bytes > self.limit;
        if over && self.processed > 0 {
            return None;
        }
        self.processed += 1;
        Some(over)
    }
}

/// What a worker waits for before its next cycle.
#[derive(Clone, Copy, Debug, PartialEq, Eq, Structural)]
pub enum CycleWait {
    /// Cancellation, a wake-up from new data, or the fallback poll of this many
    /// milliseconds.
    WakeOrPoll(u64),
    /// Cancellation, or this many milliseconds.
    Sleep(u64),
}

/// The outcome of one projector cycle.
#[derive(Clone, Debug)]
pub struct CycleOutcome {
    /// Consecutive cycles that failed only with retry-safe errors, this one included.
    pub consecutive_retry_safe_failures: usize,
    /// The backoff after a retry-safe failure.
    pub retry_delay_ms: Option<u64>,
    /// `"ok"` or `"error"`.
    pub status: &'static str,
    /// The health detail text.
    pub detail: String,
    /// What to wait for next.
    pub wait: CycleWait,
}

/// The running tally of one projector cycle.
#[derive(Clone, Copy, Debug, PartialEq, Eq, Structural)]
pub struct ProjectorCycle {
    /// Rows and records projected.
    pub projected: usize,
    /// No step failed.
    pub healthy: bool,
    /// Some step failed.
    pub had_error: bool,
    /// Every failure was a transient SQLite lock.
    pub retry_safe_errors_only: bool,
    /// Pages whose first row alone exceeded the page byte limit.
    pub oversized_first_rows: usize,
}

/// The health detail text of a projector cycle.
pub open spec fn projector_detail(projected: nat, oversized: nat, retry_safe: bool, delay: nat) -> Seq<char> {
    "projected="@ + decimal_chars(projected) + ",oversized_first_rows="@ + decimal_chars(oversized)
        + ",retry_safe="@ + bool_text(retry_safe) + ",retry_delay_ms="@ + decimal_chars(delay)
}

impl ProjectorCycle {
    /// A cycle is healthy exactly when nothing failed.
    pub open spec fn wf(self) -> bool {
        self.healthy == !self.had_error
    }

    /// A cycle before any step.
    pub fn new() -> (r: Self)
        ensures
            r.wf(),
            r == (ProjectorCycle {
                projected: 0,
                healthy: true,
                had_error: false,
                retry_safe_errors_only: true,
                oversized_first_rows: 0,
            }),
    {
        ProjectorCycle { projected: 0, healthy: true, had_error: false, retry_safe_errors_only: true, oversized_first_rows: 0 }
    }

    /// One row or record was projected.
    pub fn record_projected(&mut self)
        requires
            old(self).wf(),
            old(self).projected < usize::MAX,
        ensures
            final(self).wf(),
            *final(self) == (ProjectorCycle { projected: (old(self).projected + 1) as usize, ..*old(self) }),
    {
        self.projected += 1;
    }

    /// A page's first row was oversized when `oversized` holds.
    pub fn record_oversized(&mut self, oversized: bool)
        requires
            old(self).wf(),
            oversized ==> old(self).oversized_first_rows < usize::MAX,
        ensures
            final(self).wf(),
            *final(self) == (ProjectorCycle {
                oversized_first_rows: (old(self).oversized_first_rows + if oversized { 1int } else { 0int }) as usize,
                ..*old(self)
            }),
    {
        if oversized {
            self.oversized_first_rows += 1;
        }
    }

    /// A step failed; `transient` tells whether it was a transient SQLite lock.
    pub fn record_error(&mut self, transient: bool)
        requires
            old(self).wf(),
        ensures
            final(self).wf(),
            *final(self) == (ProjectorCycle {
                healthy: false,
                had_error: true,
                retry_safe_errors_only: old(self).retry_safe_errors_only && transient,
                ..*old(self)
            }),
    {
        self.healthy = false;
        self.had_error = true;
        self.retry_safe_errors_only = self.retry_safe_errors_only && transient;
    }

    /// The cycle failed, and only with retry-safe errors.
    pub open spec fn retry_safe_failure(self) -> bool {
        self.had_error && self.retry_safe_errors_only
    }

    /// Ends the cycle after `consecutive` earlier retry-safe failures in a row:
    /// the new streak, the backoff after a retry-safe failure, the health row, and
    /// what to wait for (wake-ups and the `poll_ms` fallback when healthy, else the
    /// backoff or `poll_ms`).
    pub fn finish(&self, consecutive: usize, poll_ms: u64) -> (r: CycleOutcome)
        requires
            self.wf(),
        ensures
            r.consecutive_retry_safe_failures == (if self.retry_safe_failure() {
                sat_add(consecutive as int, 1) as usize
            } else {
                0
            }),
            r.retry_delay_ms == (if self.retry_safe_failure() {
                Some(spec_projector_retry_delay_ms(r.consecutive_retry_safe_failures as int))
            } else {
                None::<u64>
            }),
            r.status@ == status_text(self.healthy),
            r.detail@ == projector_detail(
                self.projected as nat,
                self.oversized_first_rows as nat,
                self.retry_safe_failure(),
                match r.retry_delay_ms { Some(d) => d as nat, None => 0 },
            ),
            r.wait == (if self.healthy {
                CycleWait::WakeOrPoll(poll_ms)
            } else {
                CycleWait::Sleep(match r.retry_delay_ms { Some(d) => d, None => poll_ms })
            }),
    {
        let retry_safe = self.had_error && self.retry_safe_errors_only;
        let (streak, delay) = if retry_safe {
            let streak = consecutive.saturating_add(1);
            (streak, Some(projector_retry_delay_ms(streak)))
        } else {
            (0, None)
        };
        let shown: u64 = match delay {
            Some(d) => d,
            None => 0,
        };
        let mut detail = String::new();
        detail.append("projected=");
        push_decimal(&mut detail, self.projected);
        detail.append(",oversized_first_rows=");
        push_decimal(&mut detail, self.oversized_first_rows);
        detail.append(",retry_safe=");
        push_bool(&mut detail, retry_safe);
        detail.append(",retry_delay_ms=");
        push_decimal_u64(&mut detail, shown);
        let wait = if self.healthy {
            CycleWait::WakeOrPoll(poll_ms)
        } else {
            CycleWait::Sleep(
                match delay {
                    Some(d) => d,
                    None => poll_ms,
                },
            )
        };
        CycleOutcome {
            consecutive_retry_safe_failures: streak,
            retry_delay_ms: delay,
            status: health_status(self.healthy),
            detail,
            wait,
        }
    }
}

/// Cumulative progress of one projector instance.
#[derive(Clone, Copy, Debug, PartialEq, Eq, Structural)]
pub struct ProjectorProgress {
    /// Completed cycles.
    pub cycles: u64,
    /// Health rows written.
    pub health_records: u64,
    /// Rows and records projected.
    pub projected: u64,
    /// Oversized first rows met.
    pub oversized_first_rows: u64,
}

/// Every counter of `b` is at least that of `a`.
pub open spec fn progress_le(a: ProjectorProgress, b: ProjectorProgress) -> bool {
    &&& a.cycles <= b.cycles
    &&& a.health_records <= b.health_records
    &&& a.projected <= b.projected
    &&& a.oversized_first_rows <= b.oversized_first_rows
}

impl ProjectorProgress {
    /// No progress yet.
    pub fn new() -> (r: Self)
        ensures
            r == (ProjectorProgress { cycles: 0, health_records: 0, projected: 0, oversized_first_rows: 0 }),
    {
        ProjectorProgress { cycles: 0, health_records: 0, projected: 0, oversized_first_rows: 0 }
    }

    /// A health row was written.
    pub fn record_health(&mut self)
        ensures
            *final(self) == (ProjectorProgress {
                health_records: sat_add_u64(old(self).health_records as int, 1) as u64,
                ..*old(self)
            }),
            progress_le(*old(self), *final(self)),
    {
        self.health_records = self.health_records.saturating_add(1);
    }

    /// A cycle completed after projecting `projected` and meeting `oversized`
    /// oversized first rows.
    pub fn record_cycle(&mut self, projected: usize, oversized: usize)
        ensures
            *final(self) == (ProjectorProgress {
                cycles: sat_add_u64(old(self).cycles as int, 1) as u64,
                projected: sat_add_u64(old(self).projected as int, projected as int) as u64,
                oversized_first_rows: sat_add_u64(old(self).oversized_first_rows as int, oversized as int) as u64,
                ..*old(self)
            }),
            progress_le(*old(self), *final(self)),
    {
        self.cycles = self.cycles.saturating_add(1);
        self.projected = self.projected.saturating_add(projected as u64);
        self.oversized_first_rows = self.oversized_first_rows.saturating_add(oversized as u64);
    }
}

/// The running tally of one Git reconcile cycle.
#[derive(Clone, Copy, Debug, PartialEq, Eq, Structural)]
pub struct GitCycle {
    /// Discovery and every repository reconciled without a warning or failure.
    pub healthy: bool,
    /// Repositories whose topology was reconciled.
    pub reconciled: usize,
}

impl GitCycle {
    /// A cycle after discovery reported `discovery_warnings` warnings.
    pub fn new(discovery_warnings: usize) -> (r: Self)
        ensures
            r == (GitCycle { healthy: discovery_warnings == 0, reconciled: 0 }),
    {
        GitCycle { healthy: discovery_warnings == 0, reconciled: 0 }
    }

    /// A repository reconciled, with a topology when `has_topology`, and with
    /// `warnings` warnings.
    pub fn record_report(&mut self, has_topology: bool, warnings: usize)
        requires
            has_topology ==> old(self).reconciled < usize::MAX,
        ensures
            *final(self) == (GitCycle {
                healthy: old(self).healthy && warnings == 0,
                reconciled: (old(self).reconciled + if has_topology { 1int } else { 0int }) as usize,
            }),
    {
        if has_topology {
            self.reconciled += 1;
        }
        self.healthy = self.healthy && warnings == 0;
    }

    /// A repository failed to reconcile.
    pub fn record_failure(&mut self)
        ensures
            *final(self) == (GitCycle { healthy: false, ..*old(self) }),
    {
        self.healthy = false;
    }

    /// The health detail text: `reconciled=` and the count.
    pub fn detail(&self) -> (r: String)
        ensures
            r@ == "reconciled="@ + decimal_chars(self.reconciled as nat),
    {
        let mut out = String::new();
        out.append("reconciled=");
        push_decimal(&mut out, self.reconciled);
        out
    }
}

} // verus!

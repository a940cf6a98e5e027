//! Overflow and periodic Git reconciliation supervisor.
//!
//! Instants are nanosecond readings of one monotonic clock and intervals are
//! nanosecond counts, both as `u64`; an instant past `u64::MAX` is not
//! representable, as `Instant::checked_add` can fail.

use vstd::prelude::*;
use vstd::string::StringExecFns;

use crate::git_observer::overflow_flag::OverflowFlag;
use crate::git_observer::watcher_queue::{action_views, ActionView, GitWatchAction};

verus! {

/// Sixty seconds, in nanoseconds.
pub const DEFAULT_SUPERVISOR_INTERVAL: u64 = 60_000_000_000;

#[derive(Debug, Clone, Copy, PartialEq, Eq)]
pub struct GitWatchSupervisorOptions {
    /// Least time, in nanoseconds, between two overflow-driven full reconciles.
    pub overflow_min_interval: u64,
    /// Time, in nanoseconds, between periodic full reconciles.
    pub periodic_interval: u64,
}

impl Default for GitWatchSupervisorOptions {
    fn default() -> (o: Self)
        ensures
            o.overflow_min_interval == DEFAULT_SUPERVISOR_INTERVAL,
            o.periodic_interval == DEFAULT_SUPERVISOR_INTERVAL,
    {
        Self { overflow_min_interval: DEFAULT_SUPERVISOR_INTERVAL, periodic_interval: DEFAULT_SUPERVISOR_INTERVAL }
    }
}

#[derive(Debug, Clone, Copy, PartialEq, Eq, Structural)]
pub enum GitFullReconcileReason {
    Overflow,
    Periodic,
    OverflowAndPeriodic,
}

#[derive(Debug, Clone, PartialEq, Eq)]
pub enum GitWatchScheduledAction {
    ReconcileRepository { repository_key: String },
    DiscoverRepositories { project_root: Vec<u8> },
    FullReconcile { reason: GitFullReconcileReason },
}

#[derive(Debug, Clone, Copy, PartialEq, Eq, Structural)]
pub enum GitWatchSupervisorErrorKind {
    InvalidOverflowMinInterval,
    InvalidPeriodicInterval,
    IntervalOverflow,
    NoReconcileInFlight,
}

#[derive(Debug, Clone, Copy, PartialEq, Eq, Structural)]
pub struct GitWatchSupervisorError {
    pub kind: GitWatchSupervisorErrorKind,
}

/// Mathematical view of a scheduled action.
pub enum ScheduledView {
    ReconcileRepository(Seq<char>),
    DiscoverRepositories(Seq<u8>),
    FullReconcile(GitFullReconcileReason),
}

impl View for GitWatchScheduledAction {
    type V = ScheduledView;

    open spec fn view(&self) -> ScheduledView {
        match self {
            GitWatchScheduledAction::ReconcileRepository { repository_key } => ScheduledView::ReconcileRepository(repository_key@),
            GitWatchScheduledAction::DiscoverRepositories { project_root } => ScheduledView::DiscoverRepositories(project_root@),
            GitWatchScheduledAction::FullReconcile { reason } => ScheduledView::FullReconcile(*reason),
        }
    }
}

pub open spec fn scheduled_views(v: Seq<GitWatchScheduledAction>) -> Seq<ScheduledView> {
    Seq::new(v.len(), |i: int| v[i]@)
}

pub open spec fn supervisor_kind_message(kind: GitWatchSupervisorErrorKind) -> Seq<char> {
    match kind {
        GitWatchSupervisorErrorKind::InvalidOverflowMinInterval => "overflow_min_interval must be positive"@,
        GitWatchSupervisorErrorKind::InvalidPeriodicInterval => "periodic_interval must be positive"@,
        GitWatchSupervisorErrorKind::IntervalOverflow => "scheduler interval overflowed Instant"@,
        GitWatchSupervisorErrorKind::NoReconcileInFlight => "no full reconcile is in flight"@,
    }
}

pub open spec fn supervisor_error_message(e: GitWatchSupervisorError) -> Seq<char> {
    "Git watch supervisor: "@ + supervisor_kind_message(e.kind)
}

fn push_supervisor_kind_message(out: &mut String, kind: GitWatchSupervisorErrorKind)
    ensures
        final(out)@ == old(out)@ + supervisor_kind_message(kind),
{
    match kind {
        GitWatchSupervisorErrorKind::InvalidOverflowMinInterval => out.append("overflow_min_interval must be positive"),
        GitWatchSupervisorErrorKind::InvalidPeriodicInterval => out.append("periodic_interval must be positive"),
        GitWatchSupervisorErrorKind::IntervalOverflow => out.append("scheduler interval overflowed Instant"),
        GitWatchSupervisorErrorKind::NoReconcileInFlight => out.append("no full reconcile is in flight"),
    }
}

impl GitWatchSupervisorErrorKind {
    /// The kind's message.
    pub fn to_string(&self) -> (s: String)
        ensures
            s@ == supervisor_kind_message(*self),
    {
        let mut out = String::new();
        push_supervisor_kind_message(&mut out, *self);
        assert(out@ =~= supervisor_kind_message(*self));
        out
    }
}

impl GitWatchSupervisorError {
    /// The error's message: `Git watch supervisor: <kind>`.
    pub fn to_string(&self) -> (s: String)
        ensures
            s@ == supervisor_error_message(*self),
    {
        let mut out = String::new();
        out.append("Git watch supervisor: ");
        push_supervisor_kind_message(&mut out, self.kind);
        out
    }
}

/// `now + interval`, when representable.
pub open spec fn after_spec(now: u64, interval: u64) -> Option<u64> {
    if now + interval <= u64::MAX {
        Some((now + interval) as u64)
    } else {
        None
    }
}

fn schedule_after(now: u64, interval: u64) -> (r: Result<u64, GitWatchSupervisorError>)
    ensures
        match r {
            Ok(t) => after_spec(now, interval) == Some(t),
            Err(e) => after_spec(now, interval) is None && e.kind == GitWatchSupervisorErrorKind::IntervalOverflow,
        },
{
    match now.checked_add(interval) {
        Some(t) => Ok(t),
        None => Err(GitWatchSupervisorError { kind: GitWatchSupervisorErrorKind::IntervalOverflow }),
    }
}

/// The producer-side handle: it can only raise the overflow flag or read it.
#[derive(Debug)]
pub struct GitWatchSupervisorHandle {
    overflow_pending: OverflowFlag,
}

impl GitWatchSupervisorHandle {
    /// The overflow flag this handle raises and reads.
    pub closed spec fn shared_flag(self) -> OverflowFlag {
        self.overflow_pending
    }

    /// Ask for an overflow-driven full reconcile.
    pub fn signal_overflow(&self) {
        self.overflow_pending.raise();
    }

    /// Whether an overflow reconcile is still pending.
    pub fn overflow_pending(&self) -> bool {
        self.overflow_pending.is_raised()
    }

    /// Another handle to the same supervisor.
    pub fn clone(&self) -> (r: Self)
        ensures
            r == *self,
    {
        GitWatchSupervisorHandle { overflow_pending: self.overflow_pending.share() }
    }
}

/// The supervisor's schedule, without the shared flag.
pub struct SupervisorView {
    pub options: GitWatchSupervisorOptions,
    pub next_overflow_at: u64,
    pub next_periodic_at: u64,
    pub in_flight: bool,
}

#[derive(Debug)]
pub struct GitWatchSupervisor {
    overflow_pending: OverflowFlag,
    options: GitWatchSupervisorOptions,
    next_overflow_at: u64,
    next_periodic_at: u64,
    full_reconcile_in_flight: bool,
}

impl View for GitWatchSupervisor {
    type V = SupervisorView;

    closed spec fn view(&self) -> SupervisorView {
        SupervisorView {
            options: self.options,
            next_overflow_at: self.next_overflow_at,
            next_periodic_at: self.next_periodic_at,
            in_flight: self.full_reconcile_in_flight,
        }
    }
}

/// Both intervals are positive.
pub open spec fn supervisor_wf(s: SupervisorView) -> bool {
    s.options.overflow_min_interval > 0 && s.options.periodic_interval > 0
}

/// The reason for a full reconcile, given which of the two causes hold.
pub open spec fn reason_spec(overflow: bool, periodic: bool) -> GitFullReconcileReason {
    if overflow && periodic {
        GitFullReconcileReason::OverflowAndPeriodic
    } else if overflow {
        GitFullReconcileReason::Overflow
    } else {
        GitFullReconcileReason::Periodic
    }
}

/// The periodic deadline has passed.
pub open spec fn periodic_due(s: SupervisorView, now: u64) -> bool {
    now >= s.next_periodic_at
}

/// A full reconcile is due at `now`, with the overflow flag reading `pending`.
pub open spec fn full_reconcile_due(s: SupervisorView, now: u64, pending: bool) -> bool {
    !s.in_flight && (periodic_due(s, now) || (pending && now >= s.next_overflow_at))
}

/// The reconcile that a poll at `now` schedules, with the overflow flag reading `pending`.
pub open spec fn decision_spec(s: SupervisorView, now: u64, pending: bool) -> Option<GitFullReconcileReason> {
    if full_reconcile_due(s, now, pending) {
        Some(reason_spec(pending, periodic_due(s, now)))
    } else {
        None
    }
}

/// The schedule after a poll at `now`, with the overflow flag reading `pending`.
pub open spec fn after_decision(s: SupervisorView, now: u64, pending: bool) -> SupervisorView {
    if full_reconcile_due(s, now, pending) {
        SupervisorView {
            options: s.options,
            next_overflow_at: (now + s.options.overflow_min_interval) as u64,
            next_periodic_at: (now + s.options.periodic_interval) as u64,
            in_flight: true,
        }
    } else {
        s
    }
}

/// Scheduling at `now` cannot overflow the clock, whichever way the flag reads.
pub open spec fn schedule_fits(s: SupervisorView, now: u64) -> bool {
    now + s.options.overflow_min_interval <= u64::MAX && now + s.options.periodic_interval <= u64::MAX
}

/// The actions that pass straight through the supervisor.
pub open spec fn direct_spec(a: ActionView) -> Option<ScheduledView> {
    match a {
        ActionView::ReconcileRepository(k) => Some(ScheduledView::ReconcileRepository(k)),
        ActionView::DiscoverRepositories(p) => Some(ScheduledView::DiscoverRepositories(p)),
        ActionView::FullReconcile => None,
    }
}

/// The direct actions of `actions`, in order.
pub open spec fn directs_spec(actions: Seq<ActionView>) -> Seq<ScheduledView>
    decreases actions.len(),
{
    if actions.len() == 0 {
        Seq::empty()
    } else {
        let prev = directs_spec(actions.drop_last());
        match direct_spec(actions.last()) {
            Some(d) => prev.push(d),
            None => prev,
        }
    }
}

/// The actions of one poll: the direct ones, then the scheduled full reconcile, if any.
pub open spec fn poll_actions(s: SupervisorView, now: u64, pending: bool, actions: Seq<ActionView>) -> Seq<ScheduledView> {
    match decision_spec(s, now, pending) {
        Some(reason) => directs_spec(actions).push(ScheduledView::FullReconcile(reason)),
        None => directs_spec(actions),
    }
}

/// While a full reconcile is in flight, a poll schedules no other and leaves the
/// schedule as it was.
pub proof fn lemma_in_flight_blocks_full_reconcile(s: SupervisorView, now: u64, pending: bool)
    requires
        s.in_flight,
    ensures
        decision_spec(s, now, pending) is None,
        after_decision(s, now, pending) == s,
{
}

/// Once the periodic deadline has passed and nothing is in flight, a poll schedules
/// a full reconcile whose reason includes the periodic cause.
pub proof fn lemma_periodic_deadline_forces_reconcile(s: SupervisorView, now: u64, pending: bool)
    requires
        !s.in_flight,
        now >= s.next_periodic_at,
    ensures
        decision_spec(s, now, pending) == Some(reason_spec(pending, true)),
        reason_spec(pending, true) != GitFullReconcileReason::Overflow,
{
}

/// The reason names overflow exactly when the overflow flag was read raised, and
/// names the periodic cause exactly when the periodic deadline had passed.
pub proof fn lemma_reason_matches_causes(s: SupervisorView, now: u64, pending: bool)
    ensures
        decision_spec(s, now, pending) matches Some(r) ==> (
            (r != GitFullReconcileReason::Periodic <==> pending)
            && (r != GitFullReconcileReason::Overflow <==> periodic_due(s, now))
        ),
{
}

/// An overflow-only reconcile is never scheduled before the overflow deadline.
pub proof fn lemma_overflow_waits_for_min_interval(s: SupervisorView, now: u64, pending: bool)
    ensures
        decision_spec(s, now, pending) == Some(GitFullReconcileReason::Overflow) ==> now >= s.next_overflow_at,
{
}

/// Scheduling a full reconcile marks it in flight and moves both deadlines strictly
/// past `now`; a poll that schedules nothing changes nothing.
pub proof fn lemma_schedule_moves_deadlines_forward(s: SupervisorView, now: u64, pending: bool)
    requires
        supervisor_wf(s),
        schedule_fits(s, now),
    ensures
        full_reconcile_due(s, now, pending) ==> {
            let t = after_decision(s, now, pending);
            &&& t.in_flight
            &&& t.next_overflow_at > now
            &&& t.next_periodic_at > now
            &&& t.options == s.options
        },
        !full_reconcile_due(s, now, pending) ==> after_decision(s, now, pending) == s
            && decision_spec(s, now, pending) is None,
{
}

/// Create the supervisor and its handle; the first periodic reconcile is due one
/// `periodic_interval` after `start`, and an overflow may be served at once.
pub fn git_watch_supervisor(start: u64, options: GitWatchSupervisorOptions) -> (r: Result<(GitWatchSupervisorHandle, GitWatchSupervisor), GitWatchSupervisorError>)
    ensures
        options.overflow_min_interval == 0 ==> r == Err::<(GitWatchSupervisorHandle, GitWatchSupervisor), GitWatchSupervisorError>(
            GitWatchSupervisorError { kind: GitWatchSupervisorErrorKind::InvalidOverflowMinInterval }),
        options.overflow_min_interval > 0 && options.periodic_interval == 0 ==> r == Err::<(GitWatchSupervisorHandle, GitWatchSupervisor), GitWatchSupervisorError>(
            GitWatchSupervisorError { kind: GitWatchSupervisorErrorKind::InvalidPeriodicInterval }),
        options.overflow_min_interval > 0 && options.periodic_interval > 0
            && (after_spec(start, options.periodic_interval) is None || after_spec(start, options.overflow_min_interval) is None)
            ==> r == Err::<(GitWatchSupervisorHandle, GitWatchSupervisor), GitWatchSupervisorError>(
            GitWatchSupervisorError { kind: GitWatchSupervisorErrorKind::IntervalOverflow }),
        r is Ok <==> (options.overflow_min_interval > 0 && options.periodic_interval > 0
            && after_spec(start, options.periodic_interval) is Some && after_spec(start, options.overflow_min_interval) is Some),
        r matches Ok((h, s)) ==> s@ == (SupervisorView {
            options,
            next_overflow_at: start,
            next_periodic_at: (start + options.periodic_interval) as u64,
            in_flight: false,
        }),
        r matches Ok((h, s)) ==> supervisor_wf(s@),
        r matches Ok((h, s)) ==> h.shared_flag() == s.shared_flag(),
{
    if options.overflow_min_interval == 0 {
        return Err(GitWatchSupervisorError { kind: GitWatchSupervisorErrorKind::InvalidOverflowMinInterval });
    }
    if options.periodic_interval == 0 {
        return Err(GitWatchSupervisorError { kind: GitWatchSupervisorErrorKind::InvalidPeriodicInterval });
    }
    let next_periodic_at = schedule_after(start, options.periodic_interval)?;
    schedule_after(start, options.overflow_min_interval)?;
    let overflow_pending = OverflowFlag::new();
    let handle = GitWatchSupervisorHandle { overflow_pending: overflow_pending.share() };
    let supervisor = GitWatchSupervisor {
        overflow_pending,
        options,
        next_overflow_at: start,
        next_periodic_at,
        full_reconcile_in_flight: false,
    };
    Ok((handle, supervisor))
}

impl GitWatchSupervisor {
    /// The overflow flag this supervisor shares with its handles.
    pub closed spec fn shared_flag(self) -> OverflowFlag {
        self.overflow_pending
    }

    fn direct_action(action: &GitWatchAction) -> (r: Option<GitWatchScheduledAction>)
        ensures
            match r {
                Some(s) => direct_spec(action@) == Some(s@),
                None => direct_spec(action@) is None,
            },
    {
        match action {
            GitWatchAction::ReconcileRepository { repository_key } => Some(GitWatchScheduledAction::ReconcileRepository { repository_key: repository_key.clone() }),
            GitWatchAction::DiscoverRepositories { project_root } => Some(GitWatchScheduledAction::DiscoverRepositories { project_root: project_root.clone() }),
            GitWatchAction::FullReconcile => None,
        }
    }

    fn schedule_full_reconcile(&mut self, now: u64, overflow_pending: bool, periodic_due: bool) -> (r: Result<GitFullReconcileReason, GitWatchSupervisorError>)
        requires
            overflow_pending || periodic_due,
        ensures
            final(self)@.options == old(self)@.options,
            final(self).shared_flag() == old(self).shared_flag(),
            match r {
                Ok(reason) => {
                    &&& reason == reason_spec(overflow_pending, periodic_due)
                    &&& after_spec(now, old(self)@.options.overflow_min_interval) == Some(final(self)@.next_overflow_at)
                    &&& after_spec(now, old(self)@.options.periodic_interval) == Some(final(self)@.next_periodic_at)
                    &&& final(self)@.in_flight
                },
                Err(e) => e.kind == GitWatchSupervisorErrorKind::IntervalOverflow
                    && !schedule_fits(old(self)@, now),
            },
    {
        let reason = if overflow_pending && periodic_due {
            GitFullReconcileReason::OverflowAndPeriodic
        } else if overflow_pending {
            GitFullReconcileReason::Overflow
        } else {
            GitFullReconcileReason::Periodic
        };
        self.overflow_pending.lower();
        self.next_overflow_at = schedule_after(now, self.options.overflow_min_interval)?;
        self.next_periodic_at = schedule_after(now, self.options.periodic_interval)?;
        self.full_reconcile_in_flight = true;
        Ok(reason)
    }

    /// Decide, with the overflow flag reading `overflow_pending`, whether a full
    /// reconcile is due at `now`; when it is, lower the flag, move both deadlines to
    /// one interval after `now`, mark the reconcile in flight and return its reason.
    pub fn decide_full_reconcile(&mut self, now: u64, overflow_pending: bool) -> (r: Option<GitFullReconcileReason>)
        requires
            full_reconcile_due(old(self)@, now, overflow_pending) ==> schedule_fits(old(self)@, now),
        ensures
            r == decision_spec(old(self)@, now, overflow_pending),
            final(self)@ == after_decision(old(self)@, now, overflow_pending),
            final(self).shared_flag() == old(self).shared_flag(),
    {
        if self.full_reconcile_in_flight {
            return None;
        }
        let overflow_due = overflow_pending && now >= self.next_overflow_at;
        let periodic_due = now >= self.next_periodic_at;
        if !periodic_due && !overflow_due {
            return None;
        }
        let overflow_satisfied = overflow_pending && (overflow_due || periodic_due);
        match self.schedule_full_reconcile(now, overflow_satisfied, periodic_due) {
            Ok(reason) => Some(reason),
            Err(_) => None,
        }
    }

    /// Pass through the queue's repository and discovery actions, note a queued full
    /// reconcile on the overflow flag, and add a full reconcile when one is due.
    ///
    /// The clock must fit one interval past `now` whenever a reconcile could be
    /// due; since the flag may read raised, a passed overflow deadline counts.
    /// A full reconcile queued in this call counts as pending. Otherwise the flag,
    /// which other threads may raise, decides: the contract holds for the value it
    /// read, whichever that was.
    pub fn poll(&mut self, now: u64, queue_actions: Vec<GitWatchAction>) -> (r: Vec<GitWatchScheduledAction>)
        requires
            full_reconcile_due(old(self)@, now, true) ==> schedule_fits(old(self)@, now),
        ensures
            exists|pending: bool| #![trigger decision_spec(old(self)@, now, pending)]
                (action_views(queue_actions@).contains(ActionView::FullReconcile) ==> pending)
                && scheduled_views(r@) == poll_actions(old(self)@, now, pending, action_views(queue_actions@))
                && final(self)@ == after_decision(old(self)@, now, pending),
            final(self).shared_flag() == old(self).shared_flag(),
    {
        let ghost all = action_views(queue_actions@);
        let mut actions: Vec<GitWatchScheduledAction> = Vec::new();
        let mut queue_actions = queue_actions;
        let mut taken: Vec<GitWatchAction> = Vec::new();
        let ghost total = queue_actions@;
        let mut queued_full = false;
        while queue_actions.len() > 0
            invariant
                total == taken@ + queue_actions@,
                all == action_views(total),
                scheduled_views(actions@) == directs_spec(action_views(taken@)),
                self@ == old(self)@,
                self.shared_flag() == old(self).shared_flag(),
                queued_full == action_views(taken@).contains(ActionView::FullReconcile),
            decreases queue_actions.len(),
        {
            let ghost before = taken@;
            let action = queue_actions.remove(0);
            proof {
                assert(action_views(before.push(action)).drop_last() =~= action_views(before));
            }
            let full = matches!(action, GitWatchAction::FullReconcile);
            proof {
                let vs = action_views(before.push(action));
                assert(vs =~= action_views(before).push(action@));
                if full {
                    assert(vs[vs.len() - 1] == ActionView::FullReconcile);
                } else {
                    assert(action@ != ActionView::FullReconcile);
                    if vs.contains(ActionView::FullReconcile) {
                        let i = choose|i: int| 0 <= i < vs.len() && vs[i] == ActionView::FullReconcile;
                        assert(action_views(before)[i] == ActionView::FullReconcile);
                    }
                }
                if action_views(before).contains(ActionView::FullReconcile) {
                    let i = choose|i: int| 0 <= i < action_views(before).len() && action_views(before)[i] == ActionView::FullReconcile;
                    assert(vs[i] == ActionView::FullReconcile);
                }
            }
            queued_full = queued_full || full;
            if full {
                self.overflow_pending.raise();
            } else {
                match Self::direct_action(&action) {
                    Some(d) => {
                        actions.push(d);
                    },
                    None => {},
                }
            }
            taken.push(action);
            assert(scheduled_views(actions@) =~= directs_spec(action_views(taken@)));
            assert(total =~= taken@ + queue_actions@);
        }
        assert(taken@ =~= total);
        if self.full_reconcile_in_flight {
            assert(scheduled_views(actions@) == poll_actions(old(self)@, now, queued_full, all));
            return actions;
        }
        let pending = queued_full || self.overflow_pending.is_raised();
        let decision = self.decide_full_reconcile(now, pending);
        match decision {
            Some(reason) => {
                actions.push(GitWatchScheduledAction::FullReconcile { reason });
            },
            None => {},
        }
        assert(scheduled_views(actions@) =~= poll_actions(old(self)@, now, pending, all));
        actions
    }

    /// Finish the in-flight full reconcile; after a failure the overflow flag is
    /// raised again and the next overflow reconcile waits one `overflow_min_interval`
    /// after `completed_at`.
    pub fn complete_full_reconcile(&mut self, succeeded: bool, completed_at: u64) -> (r: Result<(), GitWatchSupervisorError>)
        ensures
            !old(self)@.in_flight ==> r == Err::<(), GitWatchSupervisorError>(GitWatchSupervisorError { kind: GitWatchSupervisorErrorKind::NoReconcileInFlight })
                && final(self)@ == old(self)@,
            old(self)@.in_flight ==> {
                &&& !final(self)@.in_flight
                &&& final(self)@.options == old(self)@.options
                &&& final(self)@.next_periodic_at == old(self)@.next_periodic_at
                &&& succeeded ==> r is Ok && final(self)@.next_overflow_at == old(self)@.next_overflow_at
                &&& !succeeded ==> match after_spec(completed_at, old(self)@.options.overflow_min_interval) {
                    Some(t) => r is Ok && final(self)@.next_overflow_at == t,
                    None => r == Err::<(), GitWatchSupervisorError>(GitWatchSupervisorError { kind: GitWatchSupervisorErrorKind::IntervalOverflow })
                        && final(self)@.next_overflow_at == old(self)@.next_overflow_at,
                }
            },
    {
        if !self.full_reconcile_in_flight {
            return Err(GitWatchSupervisorError { kind: GitWatchSupervisorErrorKind::NoReconcileInFlight });
        }
        self.full_reconcile_in_flight = false;
        if !succeeded {
            self.overflow_pending.raise();
            self.next_overflow_at = schedule_after(completed_at, self.options.overflow_min_interval)?;
        }
        Ok(())
    }

    /// Whether a full reconcile has been scheduled and not completed.
    pub fn full_reconcile_in_flight(&self) -> (r: bool)
        ensures
            r == self@.in_flight,
    {
        self.full_reconcile_in_flight
    }
}

} // verus!

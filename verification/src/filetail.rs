//! The checkpoint state machine of one tailed file: how far the file has been
//! read, how far its lines have been durably handed to ingest, and when that
//! durable position is checkpointed. The read position also counts the bytes of
//! an unterminated line that is still buffered, so only the durable position is
//! safe to checkpoint and resume from.

use vstd::prelude::*;

verus! {

/// Least time between two checkpoint writes while lines keep arriving.
pub const CHECKPOINT_FLUSH_INTERVAL_MS: u64 = 250;

/// How long the path may name another file before the tailer reopens it.
pub const FILE_TAIL_ROTATION_GRACE_MS: u64 = 1000;

/// Pause before looking again while a rotation is within its grace period.
pub const ROTATION_RECHECK_MS: u64 = 200;

/// Pause at the end of the file, or inside an unterminated line.
pub const IDLE_WAIT_MS: u64 = 500;

/// What the tailer knows of its file between two steps.
#[derive(Clone, Copy, Debug, PartialEq, Eq, Structural)]
pub struct TailState {
    /// Bytes read from the file, including a buffered unterminated line.
    pub position: u64,
    /// Bytes whose lines were all handed to ingest: the resume point.
    pub durable: u64,
    /// The durable position moved since the last checkpoint write.
    pub dirty: bool,
    /// Clock reading, in milliseconds, of the last checkpoint write.
    pub last_flush_ms: u64,
    /// Since when the path has named another file, while within the grace period.
    pub rotation_since_ms: Option<u64>,
    /// Bytes of a line that was not yet handed to ingest are buffered.
    pub line_buffered: bool,
}

/// What the outside world reported since the last step.
#[derive(Clone, Copy, Debug, PartialEq, Eq, Structural)]
pub enum TailEvent {
    /// The tailer is asked to stop.
    Cancelled,
    /// A read found no more bytes at `now_ms`; `identity_changed` when the path now
    /// names another file.
    EndOfFile { now_ms: u64, identity_changed: bool },
    /// The rotation/truncation check: `Some(position)` when the file was reopened,
    /// to be read from `position`; `partial_blank` when the buffered line holds
    /// only line-end characters.
    ReopenChecked { reopened_at: Option<u64>, partial_blank: bool },
    /// A read of `bytes` bytes; `complete` when it ended a line, `blank` when that
    /// line holds only line-end characters.
    LineRead { bytes: u64, complete: bool, blank: bool },
    /// The entry of the line just read was durably handed to ingest at `now_ms`.
    LineIngested { now_ms: u64 },
}

/// What the tailer does next. Every `checkpoint` is written before the rest.
#[derive(Clone, Copy, Debug, PartialEq, Eq, Structural)]
pub enum TailAction {
    /// Write the checkpoint, if any, and stop.
    Stop { checkpoint: Option<u64> },
    /// Write the checkpoint, if any, wait `ms` milliseconds, then read again.
    Wait { checkpoint: Option<u64>, ms: u64 },
    /// Write the checkpoint, if any, then check whether the file was rotated or
    /// truncated.
    CheckReopen { checkpoint: Option<u64> },
    /// Ingest the buffered line, if `partial_checkpoint` is set, and checkpoint that
    /// position of the old file; then read the reopened file.
    Reopen { partial_checkpoint: Option<u64> },
    /// Hand the line just read to ingest.
    Ingest,
    /// Write the checkpoint, if any, then read the next line.
    ReadNext { checkpoint: Option<u64> },
}

/// The resume point never runs ahead of what was read.
pub open spec fn tail_wf(s: TailState) -> bool {
    s.durable <= s.position
}

/// The state of a file just opened at `position` at `now_ms`.
pub open spec fn opened_spec(position: u64, now_ms: u64) -> TailState {
    TailState {
        position,
        durable: position,
        dirty: false,
        last_flush_ms: now_ms,
        rotation_since_ms: None,
        line_buffered: false,
    }
}

/// A write of the durable position is due at `now_ms`.
pub open spec fn flush_due(s: TailState, now_ms: u64) -> bool {
    s.dirty && now_ms >= s.last_flush_ms && now_ms - s.last_flush_ms >= CHECKPOINT_FLUSH_INTERVAL_MS
}

/// `s` after the checkpoint write decided at `now_ms`, and the position written.
pub open spec fn flush_spec(s: TailState, now_ms: u64) -> (TailState, Option<u64>) {
    if flush_due(s, now_ms) {
        (TailState { dirty: false, last_flush_ms: now_ms, ..s }, Some(s.durable))
    } else {
        (s, None)
    }
}

/// One step of the tailer.
pub open spec fn tail_step_spec(s: TailState, e: TailEvent) -> (TailState, TailAction) {
    match e {
        TailEvent::Cancelled => (s, TailAction::Stop { checkpoint: if s.dirty { Some(s.durable) } else { None } }),
        TailEvent::EndOfFile { now_ms, identity_changed } => {
            let (f, checkpoint) = flush_spec(s, now_ms);
            if identity_changed {
                let since = match f.rotation_since_ms { Some(t) => t, None => now_ms };
                let g = TailState { rotation_since_ms: Some(since), ..f };
                if now_ms < since || now_ms - since < FILE_TAIL_ROTATION_GRACE_MS {
                    (g, TailAction::Wait { checkpoint, ms: ROTATION_RECHECK_MS })
                } else {
                    (g, TailAction::CheckReopen { checkpoint })
                }
            } else {
                (TailState { rotation_since_ms: None, ..f }, TailAction::CheckReopen { checkpoint })
            }
        },
        TailEvent::ReopenChecked { reopened_at, partial_blank } => match reopened_at {
            Some(p) => (
                TailState { position: p, durable: p, rotation_since_ms: None, line_buffered: false, ..s },
                TailAction::Reopen {
                    partial_checkpoint: if s.line_buffered && !partial_blank { Some(s.position) } else { None },
                },
            ),
            None => (s, TailAction::Wait { checkpoint: None, ms: IDLE_WAIT_MS }),
        },
        TailEvent::LineRead { bytes, complete, blank } => {
            let position = if s.position + bytes > u64::MAX { u64::MAX } else { (s.position + bytes) as u64 };
            let t = TailState { position, rotation_since_ms: None, ..s };
            if !complete {
                (TailState { line_buffered: true, ..t }, TailAction::Wait { checkpoint: None, ms: IDLE_WAIT_MS })
            } else if blank {
                (TailState { durable: position, dirty: true, line_buffered: false, ..t }, TailAction::ReadNext { checkpoint: None })
            } else {
                (TailState { line_buffered: true, ..t }, TailAction::Ingest)
            }
        },
        TailEvent::LineIngested { now_ms } => {
            let t = TailState { durable: s.position, dirty: true, line_buffered: false, ..s };
            let (f, checkpoint) = flush_spec(t, now_ms);
            (f, TailAction::ReadNext { checkpoint })
        },
    }
}

/// The checkpoint an action writes of the current file.
pub open spec fn written_checkpoint(a: TailAction) -> Option<u64> {
    match a {
        TailAction::Stop { checkpoint } => checkpoint,
        TailAction::Wait { checkpoint, .. } => checkpoint,
        TailAction::CheckReopen { checkpoint } => checkpoint,
        TailAction::ReadNext { checkpoint } => checkpoint,
        TailAction::Reopen { .. } => None,
        TailAction::Ingest => None,
    }
}

/// The state of a file just opened at `position`, at `now_ms`.
pub fn tail_opened(position: u64, now_ms: u64) -> (r: TailState)
    ensures
        r == opened_spec(position, now_ms),
        tail_wf(r),
{
    TailState { position, durable: position, dirty: false, last_flush_ms: now_ms, rotation_since_ms: None, line_buffered: false }
}

fn flush(s: TailState, now_ms: u64) -> (r: (TailState, Option<u64>))
    ensures
        r == flush_spec(s, now_ms),
{
    if s.dirty && now_ms >= s.last_flush_ms && now_ms - s.last_flush_ms >= CHECKPOINT_FLUSH_INTERVAL_MS {
        (TailState { dirty: false, last_flush_ms: now_ms, ..s }, Some(s.durable))
    } else {
        (s, None)
    }
}

/// One step of the tailer (`tail_step_spec`). The resume point stays within what
/// was read, and a checkpoint of the current file only ever names the durable
/// position; the buffered line of a rotated file is checkpointed only once it is
/// ingested, at the position it ends.
pub fn tail_step(s: TailState, e: TailEvent) -> (r: (TailState, TailAction))
    requires
        tail_wf(s),
    ensures
        r == tail_step_spec(s, e),
        tail_wf(r.0),
        written_checkpoint(r.1) matches Some(c) ==> c == s.durable || c == r.0.durable,
        written_checkpoint(r.1) matches Some(c) ==> c <= s.position,
        r.1 matches TailAction::Reopen { partial_checkpoint: Some(c) } ==> c == s.position && s.line_buffered,
{
    match e {
        TailEvent::Cancelled => {
            let checkpoint = if s.dirty { Some(s.durable) } else { None };
            (s, TailAction::Stop { checkpoint })
        },
        TailEvent::EndOfFile { now_ms, identity_changed } => {
            let (f, checkpoint) = flush(s, now_ms);
            if identity_changed {
                let since = match f.rotation_since_ms {
                    Some(t) => t,
                    None => now_ms,
                };
                let g = TailState { rotation_since_ms: Some(since), ..f };
                if now_ms < since || now_ms - since < FILE_TAIL_ROTATION_GRACE_MS {
                    (g, TailAction::Wait { checkpoint, ms: ROTATION_RECHECK_MS })
                } else {
                    (g, TailAction::CheckReopen { checkpoint })
                }
            } else {
                (TailState { rotation_since_ms: None, ..f }, TailAction::CheckReopen { checkpoint })
            }
        },
        TailEvent::ReopenChecked { reopened_at, partial_blank } => match reopened_at {
            Some(p) => {
                let partial_checkpoint = if s.line_buffered && !partial_blank { Some(s.position) } else { None };
                (
                    TailState { position: p, durable: p, rotation_since_ms: None, line_buffered: false, ..s },
                    TailAction::Reopen { partial_checkpoint },
                )
            },
            None => (s, TailAction::Wait { checkpoint: None, ms: IDLE_WAIT_MS }),
        },
        TailEvent::LineRead { bytes, complete, blank } => {
            let position = s.position.saturating_add(bytes);
            let t = TailState { position, rotation_since_ms: None, ..s };
            if !complete {
                (TailState { line_buffered: true, ..t }, TailAction::Wait { checkpoint: None, ms: IDLE_WAIT_MS })
            } else if blank {
                (TailState { durable: position, dirty: true, line_buffered: false, ..t }, TailAction::ReadNext { checkpoint: None })
            } else {
                (TailState { line_buffered: true, ..t }, TailAction::Ingest)
            }
        },
        TailEvent::LineIngested { now_ms } => {
            let t = TailState { durable: s.position, dirty: true, line_buffered: false, ..s };
            let (f, checkpoint) = flush(t, now_ms);
            (f, TailAction::ReadNext { checkpoint })
        },
    }
}

/// Over any run of steps, the resume point never runs ahead of what was read.
pub proof fn lemma_checkpoints_within_read(s: TailState, es: Seq<TailEvent>)
    requires
        tail_wf(s),
    ensures
        tail_wf(run_spec(s, es)),
    decreases es.len(),
{
    if es.len() > 0 {
        lemma_step_wf(s, es[0]);
        lemma_checkpoints_within_read(tail_step_spec(s, es[0]).0, es.drop_first());
    }
}

proof fn lemma_step_wf(s: TailState, e: TailEvent)
    requires
        tail_wf(s),
    ensures
        tail_wf(tail_step_spec(s, e).0),
{
}

/// The state after the events `es`, in order.
pub open spec fn run_spec(s: TailState, es: Seq<TailEvent>) -> TailState
    decreases es.len(),
{
    if es.len() == 0 {
        s
    } else {
        run_spec(tail_step_spec(s, es[0]).0, es.drop_first())
    }
}

/// At the end of the file the durable position is checkpointed exactly when it moved
/// since the last write and at least 250 ms have passed since that write, whether
/// or not the path now names another file; the write restarts the interval. While
/// the path has named another file for less than a second the tailer waits 200 ms;
/// otherwise it checks for a rotation or truncation.
pub proof fn lemma_end_of_file_checkpoints_due_position(s: TailState, now_ms: u64, identity_changed: bool)
    ensures
        ({
            let (t, a) = tail_step_spec(s, TailEvent::EndOfFile { now_ms, identity_changed });
            let due = s.dirty && now_ms >= s.last_flush_ms && now_ms - s.last_flush_ms >= 250;
            let since: u64 = match s.rotation_since_ms { Some(x) => x, None => now_ms };
            &&& due ==> written_checkpoint(a) == Some(s.durable) && !t.dirty && t.last_flush_ms == now_ms
            &&& !due ==> written_checkpoint(a) is None && t.dirty == s.dirty && t.last_flush_ms == s.last_flush_ms
            &&& t.position == s.position && t.durable == s.durable && t.line_buffered == s.line_buffered
            &&& identity_changed && (now_ms < since || now_ms - since < 1000) ==>
                    (a matches TailAction::Wait { ms, .. } && ms == 200) && t.rotation_since_ms == Some(since)
            &&& identity_changed && !(now_ms < since || now_ms - since < 1000) ==>
                    a is CheckReopen && t.rotation_since_ms == Some(since)
            &&& !identity_changed ==> a is CheckReopen && t.rotation_since_ms is None
        }),
{
}

/// Cancelling writes the durable position exactly when it moved since the last
/// checkpoint, and stops.
pub proof fn lemma_cancel_checkpoints_dirty_position(s: TailState)
    ensures
        tail_step_spec(s, TailEvent::Cancelled).1 == (TailAction::Stop { checkpoint: if s.dirty { Some(s.durable) } else { None } }),
        tail_step_spec(s, TailEvent::Cancelled).0 == s,
{
}

/// Once a line is ingested everything read is durable; it is checkpointed when at
/// least 250 ms have passed since the last write, and the next line is read.
pub proof fn lemma_ingested_line_becomes_durable(s: TailState, now_ms: u64)
    ensures
        ({
            let (t, a) = tail_step_spec(s, TailEvent::LineIngested { now_ms });
            let due = now_ms >= s.last_flush_ms && now_ms - s.last_flush_ms >= 250;
            &&& t.durable == s.position && t.position == s.position && !t.line_buffered
            &&& a is ReadNext
            &&& due ==> written_checkpoint(a) == Some(s.position) && !t.dirty && t.last_flush_ms == now_ms
            &&& !due ==> written_checkpoint(a) is None && t.dirty && t.last_flush_ms == s.last_flush_ms
        }),
{
}

/// A read moves the read position by the bytes read (capped at the largest
/// position). An incomplete line is buffered and the tailer waits 500 ms; a
/// complete blank line becomes durable at once, with no checkpoint written yet; any
/// other complete line goes to ingest, still buffered.
pub proof fn lemma_read_advances_position(s: TailState, bytes: u64, complete: bool, blank: bool)
    ensures
        ({
            let (t, a) = tail_step_spec(s, TailEvent::LineRead { bytes, complete, blank });
            &&& t.position as int == if s.position + bytes > 0xffff_ffff_ffff_ffff { 0xffff_ffff_ffff_ffff } else { s.position + bytes }
            &&& t.last_flush_ms == s.last_flush_ms && t.rotation_since_ms is None
            &&& !complete ==> a == TailAction::Wait { checkpoint: None, ms: 500 } && t.line_buffered && t.durable == s.durable && t.dirty == s.dirty
            &&& complete && blank ==> a == TailAction::ReadNext { checkpoint: None } && !t.line_buffered && t.durable == t.position && t.dirty
            &&& complete && !blank ==> a == TailAction::Ingest && t.line_buffered && t.durable == s.durable && t.dirty == s.dirty
        }),
{
}

/// After the reopen check, a reopened file is read from the position it was opened
/// at, and the buffered line of the old file, unless it holds only line ends, is
/// ingested and checkpointed at the old read position; when nothing was reopened the
/// tailer waits 500 ms.
pub proof fn lemma_reopen_restarts_at_new_position(s: TailState, reopened_at: Option<u64>, partial_blank: bool)
    ensures
        ({
            let (t, a) = tail_step_spec(s, TailEvent::ReopenChecked { reopened_at, partial_blank });
            &&& reopened_at matches Some(p) ==> t.position == p && t.durable == p && !t.line_buffered
                && t.rotation_since_ms is None
                && a == TailAction::Reopen { partial_checkpoint: if s.line_buffered && !partial_blank { Some(s.position) } else { None } }
            &&& reopened_at is None ==> t == s && a == TailAction::Wait { checkpoint: None, ms: 500 }
        }),
{
}

} // verus!

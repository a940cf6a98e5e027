use observatory::filetail::{tail_opened, tail_step, TailAction, TailEvent, IDLE_WAIT_MS, ROTATION_RECHECK_MS};

#[test]
fn an_unterminated_line_is_not_durable_until_ingested() {
    let s = tail_opened(100, 0);
    let (s, a) = tail_step(s, TailEvent::LineRead { bytes: 7, complete: false, blank: false });
    assert_eq!(a, TailAction::Wait { checkpoint: None, ms: IDLE_WAIT_MS });
    assert_eq!((s.position, s.durable), (107, 100));
    let (s, a) = tail_step(s, TailEvent::LineRead { bytes: 3, complete: true, blank: false });
    assert_eq!(a, TailAction::Ingest);
    assert_eq!(s.durable, 100);
    let (s, a) = tail_step(s, TailEvent::LineIngested { now_ms: 100 });
    assert_eq!(a, TailAction::ReadNext { checkpoint: None });
    assert_eq!(s.durable, 110);
    assert!(s.dirty);
    let (s, a) = tail_step(s, TailEvent::Cancelled);
    assert_eq!(a, TailAction::Stop { checkpoint: Some(110) });
    assert_eq!(s.durable, 110);
}

#[test]
fn checkpoints_are_written_at_most_every_flush_interval() {
    let s = tail_opened(0, 1_000);
    let (s, _) = tail_step(s, TailEvent::LineRead { bytes: 5, complete: true, blank: false });
    let (s, a) = tail_step(s, TailEvent::LineIngested { now_ms: 1_250 });
    assert_eq!(a, TailAction::ReadNext { checkpoint: Some(5) });
    assert!(!s.dirty);
    let (s, _) = tail_step(s, TailEvent::LineRead { bytes: 1, complete: true, blank: true });
    assert_eq!(s.durable, 6);
    let (s, a) = tail_step(s, TailEvent::EndOfFile { now_ms: 1_400, identity_changed: false });
    assert_eq!(a, TailAction::CheckReopen { checkpoint: None });
    let (_, a) = tail_step(s, TailEvent::EndOfFile { now_ms: 1_500, identity_changed: false });
    assert_eq!(a, TailAction::CheckReopen { checkpoint: Some(6) });
}

#[test]
fn a_rotation_waits_for_its_grace_period_then_reopens() {
    let s = tail_opened(50, 0);
    let (s, _) = tail_step(s, TailEvent::LineRead { bytes: 4, complete: false, blank: false });
    let (s, a) = tail_step(s, TailEvent::EndOfFile { now_ms: 10_000, identity_changed: true });
    assert_eq!(a, TailAction::Wait { checkpoint: None, ms: ROTATION_RECHECK_MS });
    let (s, a) = tail_step(s, TailEvent::EndOfFile { now_ms: 10_999, identity_changed: true });
    assert_eq!(a, TailAction::Wait { checkpoint: None, ms: ROTATION_RECHECK_MS });
    let (s, a) = tail_step(s, TailEvent::EndOfFile { now_ms: 11_000, identity_changed: true });
    assert_eq!(a, TailAction::CheckReopen { checkpoint: None });
    let (s, a) = tail_step(s, TailEvent::ReopenChecked { reopened_at: Some(0), partial_blank: false });
    assert_eq!(a, TailAction::Reopen { partial_checkpoint: Some(54) });
    assert_eq!((s.position, s.durable, s.line_buffered), (0, 0, false));
    let (_, a) = tail_step(s, TailEvent::ReopenChecked { reopened_at: None, partial_blank: false });
    assert_eq!(a, TailAction::Wait { checkpoint: None, ms: IDLE_WAIT_MS });
}

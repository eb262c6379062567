use serde_json::Value;

use warp_ssh::journal::EventJournal;
use warp_ssh::managed::{ManagedSession, SessionError, SessionLifecycle};

fn payload(label: &str) -> Value {
    let mut object = serde_json::Map::new();
    object.insert("type".to_string(), Value::String("test".to_string()));
    object.insert("label".to_string(), Value::String(label.to_string()));
    Value::Object(object)
}

// ── lifecycle defaults ──────────────────────────────────────────────

#[test]
fn new_session_starts_active() {
    let s = ManagedSession::<Value>::new("sess-1");
    assert_eq!(s.session_id(), "sess-1");
    assert_eq!(s.lifecycle(), &SessionLifecycle::Active);
    assert!(!s.is_dead());
}

#[test]
fn lifecycle_predicate_helpers() {
    assert!(SessionLifecycle::Active.is_appendable());
    assert!(SessionLifecycle::Reattached.is_appendable());
    assert!(!SessionLifecycle::Disconnected { since_ms: 0 }.is_appendable());
    assert!(!SessionLifecycle::Dead { reason: "x".into() }.is_appendable());

    assert!(!SessionLifecycle::Active.is_dead());
    assert!(!SessionLifecycle::Disconnected { since_ms: 0 }.is_dead());
    assert!(SessionLifecycle::Dead { reason: "x".into() }.is_dead());
}

// ── append gating ───────────────────────────────────────────────────

#[test]
fn append_works_in_active_state() {
    let mut s = ManagedSession::new("sess");
    let seq = s.append(payload("a")).expect("append");
    assert_eq!(seq, 1);
    assert_eq!(s.head_seq(), 1);
}

#[test]
fn append_rejected_when_disconnected() {
    let mut s = ManagedSession::new("sess");
    s.append(payload("a")).unwrap();
    s.mark_disconnected(1_000);

    let err = s.append(payload("b")).expect_err("append should fail");
    assert!(matches!(err, SessionError::NotAppendable { .. }));
    // head_seq unchanged
    assert_eq!(s.head_seq(), 1);
}

#[test]
fn append_rejected_when_dead() {
    let mut s = ManagedSession::<Value>::new("sess").with_reattach_window_ms(100);
    s.mark_disconnected(0);
    s.tick(200); // beyond window

    let err = s.append(payload("a")).expect_err("append should fail");
    assert!(matches!(err, SessionError::Dead { .. }));
}

#[test]
fn append_resumes_after_reattach() {
    let mut s = ManagedSession::new("sess");
    s.append(payload("a")).unwrap();
    s.mark_disconnected(1_000);
    let _snapshot = s.handle_attach(Some(0)).expect("attach succeeds");
    assert_eq!(s.lifecycle(), &SessionLifecycle::Reattached);

    let seq = s.append(payload("b")).expect("append after reattach");
    assert_eq!(seq, 2);
}

// ── mark_disconnected ───────────────────────────────────────────────

#[test]
fn mark_disconnected_transitions_from_active() {
    let mut s = ManagedSession::<Value>::new("sess");
    s.mark_disconnected(1_000);
    assert_eq!(
        s.lifecycle(),
        &SessionLifecycle::Disconnected { since_ms: 1_000 }
    );
}

#[test]
fn mark_disconnected_idempotent_does_not_reset_timestamp() {
    let mut s = ManagedSession::<Value>::new("sess");
    s.mark_disconnected(1_000);
    s.mark_disconnected(5_000);
    // The original timestamp survives — a second disconnect signal
    // must not extend the reattach window.
    assert_eq!(
        s.lifecycle(),
        &SessionLifecycle::Disconnected { since_ms: 1_000 }
    );
}

#[test]
fn mark_disconnected_transitions_from_reattached() {
    let mut s = ManagedSession::<Value>::new("sess");
    s.mark_disconnected(1_000);
    s.handle_attach(None).unwrap();
    assert_eq!(s.lifecycle(), &SessionLifecycle::Reattached);

    s.mark_disconnected(2_000);
    assert_eq!(
        s.lifecycle(),
        &SessionLifecycle::Disconnected { since_ms: 2_000 }
    );
}

#[test]
fn mark_disconnected_noop_on_dead_session() {
    let mut s = ManagedSession::<Value>::new("sess").with_reattach_window_ms(100);
    s.mark_disconnected(0);
    s.tick(200);
    assert!(s.is_dead());

    s.mark_disconnected(500);
    // Still Dead — the dead reason isn't overwritten.
    assert!(s.is_dead());
}

// ── tick / reattach window ─────────────────────────────────────────

#[test]
fn tick_within_window_keeps_session_disconnected() {
    let mut s = ManagedSession::<Value>::new("sess").with_reattach_window_ms(1_000);
    s.mark_disconnected(0);
    s.tick(500);
    assert!(matches!(
        s.lifecycle(),
        SessionLifecycle::Disconnected { .. }
    ));
}

#[test]
fn tick_at_or_past_window_transitions_to_dead() {
    let mut s = ManagedSession::<Value>::new("sess").with_reattach_window_ms(1_000);
    s.mark_disconnected(0);
    s.tick(1_000);
    assert!(s.is_dead());
}

#[test]
fn tick_well_past_window_still_transitions_to_dead_with_correct_reason() {
    let mut s = ManagedSession::<Value>::new("sess").with_reattach_window_ms(100);
    s.mark_disconnected(0);
    s.tick(10_000);
    match s.lifecycle() {
        SessionLifecycle::Dead { reason } => assert!(reason.contains("100ms")),
        other => panic!("expected Dead, got {other:?}"),
    }
}

#[test]
fn tick_on_active_session_is_noop() {
    let mut s = ManagedSession::<Value>::new("sess");
    s.tick(1_000_000);
    assert_eq!(s.lifecycle(), &SessionLifecycle::Active);
}

#[test]
fn tick_on_reattached_session_is_noop() {
    let mut s = ManagedSession::<Value>::new("sess");
    s.mark_disconnected(0);
    s.handle_attach(None).unwrap();
    s.tick(1_000_000);
    assert_eq!(s.lifecycle(), &SessionLifecycle::Reattached);
}

// ── handle_attach ───────────────────────────────────────────────────

#[test]
fn handle_attach_from_disconnected_transitions_to_reattached() {
    let mut s = ManagedSession::new("sess");
    s.append(payload("a")).unwrap();
    s.append(payload("b")).unwrap();
    s.mark_disconnected(1_000);

    let snapshot = s.handle_attach(Some(1)).expect("attach");
    assert_eq!(snapshot.entries.len(), 1);
    assert_eq!(snapshot.entries[0].seq, 2);
    assert_eq!(snapshot.head_seq, 2);
    assert_eq!(s.lifecycle(), &SessionLifecycle::Reattached);
}

#[test]
fn handle_attach_on_active_session_returns_snapshot_without_state_change() {
    let mut s = ManagedSession::new("sess");
    s.append(payload("a")).unwrap();
    let snapshot = s.handle_attach(None).expect("attach");
    assert_eq!(snapshot.entries.len(), 1);
    assert_eq!(s.lifecycle(), &SessionLifecycle::Active);
}

#[test]
fn handle_attach_on_dead_session_errors() {
    let mut s = ManagedSession::<Value>::new("sess").with_reattach_window_ms(100);
    s.mark_disconnected(0);
    s.tick(200);

    let err = s.handle_attach(Some(0)).expect_err("dead session attach");
    assert!(matches!(err, SessionError::Dead { .. }));
}

#[test]
fn handle_attach_reports_replay_gap_when_cursor_below_evicted_floor() {
    let mut s = ManagedSession::<Value>::with_capacity("sess", 2);
    s.append(payload("a")).unwrap(); // seq 1, evicted
    s.append(payload("b")).unwrap(); // seq 2
    s.append(payload("c")).unwrap(); // seq 3 — evicts seq 1
    s.mark_disconnected(1_000);

    let snapshot = s.handle_attach(Some(0)).expect("attach");
    assert_eq!(snapshot.replay_gap, Some(2));
}

// ── further cases ──────────────────────────────────────────────────

#[test]
fn expiry_names_the_window() {
    let mut s = ManagedSession::<Value>::new("sess").with_reattach_window_ms(-7);
    s.mark_disconnected(0);
    s.tick(0);
    assert_eq!(
        s.lifecycle(),
        &SessionLifecycle::Dead {
            reason: "reattach window of -7ms elapsed".to_string()
        }
    );
}

#[test]
fn errors_carry_the_state_and_the_reason() {
    let mut s = ManagedSession::<Value>::new("sess").with_reattach_window_ms(100);
    s.mark_disconnected(3);
    let refused = s.append(payload("a")).expect_err("disconnected");
    assert_eq!(
        refused,
        SessionError::NotAppendable {
            state: SessionLifecycle::Disconnected { since_ms: 3 }
        }
    );
    assert_eq!(refused.clone(), refused);
    s.tick(103);
    let dead = SessionError::Dead {
        reason: "reattach window of 100ms elapsed".to_string(),
    };
    assert_eq!(s.append(payload("b")), Err(dead.clone()));
    assert_eq!(s.handle_attach(None), Err(dead));
    assert_eq!(s.head_seq(), 0);
}

#[test]
fn replay_gives_back_what_was_appended() {
    let mut s = ManagedSession::<Value>::with_capacity("sess", 3);
    for label in ["a", "b", "c", "d", "e"] {
        s.append(payload(label)).unwrap();
    }
    let all = s.handle_attach(None).unwrap();
    assert_eq!(all.replay_gap, None);
    let seen: Vec<(u64, Value)> = all
        .entries
        .into_iter()
        .map(|e| (e.seq, e.payload))
        .collect();
    assert_eq!(
        seen,
        vec![(3, payload("c")), (4, payload("d")), (5, payload("e"))]
    );
    let tail = s.handle_attach(Some(4)).unwrap();
    assert_eq!(tail.entries.len(), 1);
    assert_eq!(tail.entries[0].payload, payload("e"));
    assert_eq!(tail.replay_gap, None);
    let none = s.handle_attach(Some(5)).unwrap();
    assert!(none.entries.is_empty());
    let ahead = s.handle_attach(Some(99)).unwrap();
    assert!(ahead.entries.is_empty());
    assert_eq!(ahead.head_seq, 5);
}

#[test]
fn gap_begins_where_an_unseen_event_is_lost() {
    let mut j: EventJournal<u8> = EventJournal::with_capacity(2);
    for b in 0..5u8 {
        j.append(b);
    }
    assert_eq!(j.replay_since(Some(2)).replay_gap, Some(4));
    assert_eq!(j.replay_since(Some(3)).replay_gap, None);
    assert_eq!(j.replay_since(Some(3)).entries.len(), 2);
    assert_eq!(j.replay_since(None).replay_gap, None);
}

#[test]
fn journal_holds_one_event_at_least() {
    let mut j: EventJournal<u8> = EventJournal::with_capacity(0);
    assert_eq!(j.append(7), 1);
    assert_eq!(j.append(8), 2);
    let r = j.replay_since(None);
    assert_eq!(r.entries.len(), 1);
    assert_eq!(r.entries[0].seq, 2);
    assert_eq!(r.entries[0].payload, 8);
}

#[test]
fn reattach_in_time_revives_with_all_events() {
    let mut s = ManagedSession::new("sess").with_reattach_window_ms(1_000);
    s.append(payload("a")).unwrap();
    s.mark_disconnected(0);
    s.tick(999);
    let r = s.handle_attach(Some(0)).unwrap();
    assert_eq!(r.entries[0].payload, payload("a"));
    s.tick(10_000);
    assert_eq!(s.append(payload("b")), Ok(2));
}

#[test]
fn time_stamps_far_apart_do_not_overflow() {
    let mut s = ManagedSession::<Value>::new("sess");
    s.mark_disconnected(i64::MIN);
    s.tick(i64::MAX);
    assert!(s.is_dead());
    let mut s = ManagedSession::<Value>::new("sess");
    s.mark_disconnected(i64::MAX);
    s.tick(i64::MIN);
    assert!(!s.is_dead());
}

#[test]
fn events_of_a_dead_session_can_be_read() {
    let mut s = ManagedSession::new("sess").with_reattach_window_ms(100);
    s.append(payload("a")).unwrap();
    s.append(payload("b")).unwrap();
    s.mark_disconnected(0);
    s.tick(100);
    assert!(s.is_dead());
    let r = s.replay_since(None);
    assert_eq!(r.head_seq, 2);
    assert_eq!(r.entries.len(), 2);
    assert_eq!(r.entries[1].payload, payload("b"));
    assert_eq!(s.replay_since(Some(1)).entries.len(), 1);
}

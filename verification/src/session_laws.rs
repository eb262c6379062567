//! What a client gets back, and how a session lives and ends.

use vstd::prelude::*;

use crate::journal::{
    appended, appended_all, empty_journal, gap, law_journal_holds_the_last_events, oldest, replays,
    room, seen, Journal, ReplaySnapshot,
};
use crate::managed::{
    appendable, attached, disconnected, expired, new_session, offered, session_after, ticked,
    Lifecycle, Session, SessionEvent, SessionLifecycle,
};
use crate::numbers::signed_decimal;

verus! {

/// A replay gives back exactly the events after the cursor that the journal still holds, which
/// are the last ones, as many as its capacity: each with its number, the first event having
/// number 1, and with what was appended, in order. The number of the last event is their
/// count. A gap is reported exactly where an event after the cursor is held no more, and
/// names the oldest that is.
pub proof fn law_replay_gives_back_what_was_appended<P: Clone>(
    capacity: nat,
    payloads: Seq<P>,
    cursor: Option<u64>,
    r: ReplaySnapshot<P>,
)
    requires
        capacity > 0,
        replays(appended_all(empty_journal(capacity), payloads), cursor, r),
    ensures
        ({
            let lost = if payloads.len() > capacity {
                payloads.len() - capacity
            } else {
                0
            };
            let known = match cursor {
                None => 0,
                Some(c) => if c > payloads.len() {
                    payloads.len() as int
                } else {
                    c as int
                },
            };
            let skipped = if known > lost {
                known
            } else {
                lost
            };
            &&& r.head_seq == payloads.len()
            &&& r.entries@.len() == payloads.len() - skipped
            &&& forall|i: int|
                0 <= i < r.entries@.len() ==> (#[trigger] r.entries@[i]).seq == skipped + i + 1
                    && cloned(payloads[skipped + i], r.entries@[i].payload)
            &&& r.replay_gap is Some <==> cursor is Some && cursor->0 < lost
            &&& r.replay_gap is Some ==> r.replay_gap->0 == lost + 1
        }),
{
    let j = appended_all(empty_journal(capacity), payloads);
    law_journal_holds_the_last_events(capacity, payloads);
    let skipped = seen(j, cursor);
    let gone = payloads.len() - j.held.len();
    assert forall|i: int| 0 <= i < r.entries@.len() implies (#[trigger] r.entries@[i]).seq == gone
        + skipped + i + 1 && cloned(payloads[gone + skipped + i], r.entries@[i].payload) by {
        assert(j.held[skipped + i] == payloads[gone + (skipped + i)]);
    }
}

/// One more event is the next in number, comes last, and pushes out the oldest one exactly
/// where the journal is full; the others keep their places.
pub proof fn law_event_comes_last<P>(j: Journal<P>, payload: P)
    requires
        j.capacity > 0,
        j.held.len() <= j.capacity,
    ensures
        appended(j, payload).head == j.head + 1,
        appended(j, payload).capacity == j.capacity,
        j.held.len() < j.capacity ==> appended(j, payload).held == j.held + seq![payload],
        j.held.len() == j.capacity ==> seq![j.held[0]] + appended(j, payload).held == j.held + seq![
            payload,
        ],
{
    if j.held.len() == j.capacity {
        assert(seq![j.held[0]] + appended(j, payload).held =~= j.held + seq![payload]);
    }
}

/// A journal has the room that is asked for, and room for one event where none is asked for.
/// It starts without events.
pub proof fn law_journals_start_empty<P>(capacity: usize)
    ensures
        capacity > 0 ==> room(capacity) == capacity,
        room(0) == 1,
        empty_journal::<P>(room(capacity)).head == 0,
        empty_journal::<P>(room(capacity)).held.len() == 0,
        empty_journal::<P>(room(capacity)).capacity == room(capacity),
{
}

/// The oldest event that is held, those a client has seen, and the gap, in numbers of events.
pub proof fn law_cursors_divide_the_journal<P>(j: Journal<P>, cursor: u64, n: int)
    requires
        j.held.len() <= j.head,
        j.head - j.held.len() < n <= j.head,
    ensures
        oldest(j) <= n,
        oldest(j) + j.held.len() == j.head + 1,
        n <= cursor <==> n - oldest(j) < seen(j, Some(cursor)),
        0 <= seen(j, Some(cursor)) <= j.held.len(),
        seen(j, None) == 0,
        gap(j, None) is None,
        gap(j, Some(cursor)) is Some <==> cursor + j.held.len() < j.head,
        gap(j, Some(cursor)) is Some ==> gap(j, Some(cursor))->0 == oldest(j),
{
}

/// A session begins live, without events, and waits five minutes for a reattach.
pub proof fn law_sessions_begin_live<P>(session_id: Seq<char>, capacity: nat)
    ensures
        ({
            let s = new_session::<P>(session_id, capacity);
            &&& s.session_id == session_id
            &&& s.lifecycle is Active
            &&& s.reattach_window_ms == 300_000
            &&& s.journal.head == 0
            &&& s.journal.held.len() == 0
            &&& s.journal.capacity == capacity
        }),
{
}

/// Events are accepted while a session is live, whether for the first time or again.
pub proof fn law_live_sessions_accept(since_ms: i64, reason: Seq<char>)
    ensures
        appendable(Lifecycle::Active),
        appendable(Lifecycle::Reattached),
        !appendable(Lifecycle::Disconnected { since_ms }),
        !appendable(Lifecycle::Dead { reason }),
{
}

/// A lost connection is dated where the session was live, and changes nothing else.
pub proof fn law_loss_is_dated<P>(s: Session<P>, now_ms: i64)
    ensures
        s.lifecycle is Active || s.lifecycle is Reattached ==> disconnected(s, now_ms).lifecycle == (
        Lifecycle::Disconnected { since_ms: now_ms }),
        s.lifecycle is Disconnected || s.lifecycle is Dead ==> disconnected(s, now_ms).lifecycle
            == s.lifecycle,
        disconnected(s, now_ms).journal == s.journal,
        disconnected(s, now_ms).session_id == s.session_id,
        disconnected(s, now_ms).reattach_window_ms == s.reattach_window_ms,
{
}

/// A disconnected session dies at the first look at the clock once its whole window has
/// passed, and not before; the reason names the window. Nothing else is lost.
pub proof fn law_sessions_die_when_the_window_is_over<P>(s: Session<P>, since_ms: i64, now_ms: i64)
    requires
        s.lifecycle == (Lifecycle::Disconnected { since_ms }),
    ensures
        ({
            let after = ticked(s, now_ms);
            let waited = if now_ms - since_ms > i64::MAX {
                i64::MAX as int
            } else if now_ms - since_ms < i64::MIN {
                i64::MIN as int
            } else {
                now_ms - since_ms
            };
            &&& after.lifecycle is Dead <==> waited >= s.reattach_window_ms
            &&& expired(s, now_ms) <==> waited >= s.reattach_window_ms
            &&& !(after.lifecycle is Dead) ==> after == s
            &&& after.lifecycle is Dead ==> after.lifecycle == (Lifecycle::Dead {
                reason: "reattach window of "@ + signed_decimal(s.reattach_window_ms as int)
                    + "ms elapsed"@,
            })
            &&& after.journal == s.journal
            &&& after.session_id == s.session_id
            &&& after.reattach_window_ms == s.reattach_window_ms
        }),
{
}

/// The clock does nothing to a session that is not waiting for a reattach.
pub proof fn law_clock_only_ends_waiting<P>(s: Session<P>, now_ms: i64)
    requires
        !(s.lifecycle is Disconnected),
    ensures
        ticked(s, now_ms) == s,
        !expired(s, now_ms),
{
}

/// A client that attaches makes a waiting session live again, leaves every other as it is,
/// and never touches the events.
pub proof fn law_attaching_ends_waiting<P>(s: Session<P>)
    ensures
        s.lifecycle is Disconnected ==> attached(s).lifecycle is Reattached,
        !(s.lifecycle is Disconnected) ==> attached(s).lifecycle == s.lifecycle,
        attached(s).journal == s.journal,
        attached(s).session_id == s.session_id,
        attached(s).reattach_window_ms == s.reattach_window_ms,
{
}

/// A live session takes an event into its journal; any other leaves it. The state of the
/// session stays.
pub proof fn law_events_go_to_the_journal<P>(s: Session<P>, payload: P)
    ensures
        s.lifecycle is Active || s.lifecycle is Reattached ==> offered(s, payload).journal
            == appended(s.journal, payload),
        s.lifecycle is Disconnected || s.lifecycle is Dead ==> offered(s, payload).journal
            == s.journal,
        offered(s, payload).lifecycle == s.lifecycle,
        offered(s, payload).session_id == s.session_id,
        offered(s, payload).reattach_window_ms == s.reattach_window_ms,
{
}

/// What happens to a session is one of these four.
pub proof fn law_session_events<P>(s: Session<P>, now_ms: i64, payload: P)
    ensures
        session_after(s, SessionEvent::Lost(now_ms)) == disconnected(s, now_ms),
        session_after(s, SessionEvent::Tick(now_ms)) == ticked(s, now_ms),
        session_after(s, SessionEvent::Offer(payload)) == offered(s, payload),
        session_after(s, SessionEvent::Attach) == attached(s),
{
}

/// Where a session stands is viewed as it is.
pub proof fn law_states_are_viewed_as_they_are(state: SessionLifecycle)
    ensures
        match state {
            SessionLifecycle::Active => state@ is Active,
            SessionLifecycle::Reattached => state@ is Reattached,
            SessionLifecycle::Disconnected { since_ms } => state@ == (Lifecycle::Disconnected {
                since_ms,
            }),
            SessionLifecycle::Dead { reason } => state@ == (Lifecycle::Dead { reason: reason@ }),
        },
{
}

} // verus!

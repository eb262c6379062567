//! The life of a session: active, disconnected but not given up, reattached, dead.
//!
//! The journal records what happened; the session says when it may. Everything is
//! decided from the time stamps that are handed in.

use vstd::prelude::*;

use crate::journal::{
    appended, empty_journal, replays, room, sound, EventJournal, Journal, ReplaySnapshot,
    DEFAULT_JOURNAL_CAPACITY,
};
use crate::numbers::{clamp_i64, difference, push_signed, signed_decimal};
use crate::text::push_text;

verus! {

/// How long a session waits for a reattach, unless told otherwise: five minutes.
pub const DEFAULT_REATTACH_WINDOW_MS: i64 = 300_000;

/// Where a session stands.
#[derive(Debug, PartialEq, Eq)]
pub enum SessionLifecycle {
    /// Live: events are accepted.
    Active,
    /// The connection was lost at `since_ms`. The journal waits for a reattach, and
    /// no events are accepted.
    Disconnected { since_ms: i64 },
    /// Live again after a reattach: events are accepted.
    Reattached,
    /// No reattach came in time. The journal can still be read, with
    /// [`ManagedSession::replay_since`].
    Dead { reason: String },
}

/// A [`SessionLifecycle`] as a mathematical value.
#[verifier::ext_equal]
pub enum Lifecycle {
    Active,
    Disconnected { since_ms: i64 },
    Reattached,
    Dead { reason: Seq<char> },
}

impl View for SessionLifecycle {
    type V = Lifecycle;

    open spec fn view(&self) -> Lifecycle {
        match self {
            SessionLifecycle::Active => Lifecycle::Active,
            SessionLifecycle::Disconnected { since_ms } => Lifecycle::Disconnected {
                since_ms: *since_ms,
            },
            SessionLifecycle::Reattached => Lifecycle::Reattached,
            SessionLifecycle::Dead { reason } => Lifecycle::Dead { reason: reason@ },
        }
    }
}

/// Whether events are accepted.
pub open spec fn appendable(l: Lifecycle) -> bool {
    l is Active || l is Reattached
}

impl Clone for SessionLifecycle {
    fn clone(&self) -> (r: Self)
        ensures
            r@ == self@,
    {
        match self {
            SessionLifecycle::Active => SessionLifecycle::Active,
            SessionLifecycle::Disconnected { since_ms } => SessionLifecycle::Disconnected {
                since_ms: *since_ms,
            },
            SessionLifecycle::Reattached => SessionLifecycle::Reattached,
            SessionLifecycle::Dead { reason } => SessionLifecycle::Dead { reason: reason.clone() },
        }
    }
}

impl SessionLifecycle {
    /// Whether the session has come to its end.
    pub fn is_dead(&self) -> (r: bool)
        ensures
            r == (self@ is Dead),
    {
        match self {
            SessionLifecycle::Dead { .. } => true,
            _ => false,
        }
    }

    /// Whether events are accepted.
    pub fn is_appendable(&self) -> (r: bool)
        ensures
            r == appendable(self@),
    {
        match self {
            SessionLifecycle::Active => true,
            SessionLifecycle::Reattached => true,
            _ => false,
        }
    }
}

/// Why a session refuses.
#[derive(Debug, PartialEq, Eq)]
pub enum SessionError {
    /// Events are not accepted in this state.
    NotAppendable { state: SessionLifecycle },
    /// The session is dead.
    Dead { reason: String },
}

impl Clone for SessionError {
    fn clone(&self) -> (r: Self)
        ensures
            match (*self, r) {
                (
                    SessionError::NotAppendable { state: a },
                    SessionError::NotAppendable { state: b },
                ) => a@ == b@,
                (SessionError::Dead { reason: a }, SessionError::Dead { reason: b }) => a@ == b@,
                _ => false,
            },
    {
        match self {
            SessionError::NotAppendable { state } => SessionError::NotAppendable {
                state: state.clone(),
            },
            SessionError::Dead { reason } => SessionError::Dead { reason: reason.clone() },
        }
    }
}

/// A journal and where its session stands.
#[derive(Debug)]
#[verifier::reject_recursive_types(P)]
pub struct ManagedSession<P> {
    session_id: String,
    journal: EventJournal<P>,
    lifecycle: SessionLifecycle,
    reattach_window_ms: i64,
}

/// A [`ManagedSession`] as a mathematical value.
#[verifier::ext_equal]
#[verifier::reject_recursive_types(P)]
pub struct Session<P> {
    pub session_id: Seq<char>,
    pub journal: Journal<P>,
    pub lifecycle: Lifecycle,
    pub reattach_window_ms: i64,
}

impl<P> View for ManagedSession<P> {
    type V = Session<P>;

    closed spec fn view(&self) -> Session<P> {
        Session {
            session_id: self.session_id@,
            journal: self.journal@,
            lifecycle: self.lifecycle@,
            reattach_window_ms: self.reattach_window_ms,
        }
    }
}

/// A session that has just begun.
pub open spec fn new_session<P>(session_id: Seq<char>, capacity: nat) -> Session<P> {
    Session {
        session_id,
        journal: empty_journal(capacity),
        lifecycle: Lifecycle::Active,
        reattach_window_ms: DEFAULT_REATTACH_WINDOW_MS,
    }
}

/// A session after its connection was lost. A session that was not live stays as
/// it was; in particular, a second loss does not move the time of the first.
pub open spec fn disconnected<P>(s: Session<P>, now_ms: i64) -> Session<P> {
    if appendable(s.lifecycle) {
        Session { lifecycle: Lifecycle::Disconnected { since_ms: now_ms }, ..s }
    } else {
        s
    }
}

/// Whether the time for a reattach is over.
pub open spec fn expired<P>(s: Session<P>, now_ms: i64) -> bool {
    match s.lifecycle {
        Lifecycle::Disconnected { since_ms } => clamp_i64(now_ms - since_ms)
            >= s.reattach_window_ms,
        _ => false,
    }
}

/// Why a session is dead whose time for a reattach is over.
pub open spec fn expiry_reason(window_ms: i64) -> Seq<char> {
    "reattach window of "@ + signed_decimal(window_ms as int) + "ms elapsed"@
}

/// A session after a look at the clock.
pub open spec fn ticked<P>(s: Session<P>, now_ms: i64) -> Session<P> {
    if expired(s, now_ms) {
        Session { lifecycle: Lifecycle::Dead { reason: expiry_reason(s.reattach_window_ms) }, ..s }
    } else {
        s
    }
}

/// A session after an event was offered.
pub open spec fn offered<P>(s: Session<P>, payload: P) -> Session<P> {
    if appendable(s.lifecycle) {
        Session { journal: appended(s.journal, payload), ..s }
    } else {
        s
    }
}

/// A session after a client attached.
pub open spec fn attached<P>(s: Session<P>) -> Session<P> {
    if s.lifecycle is Disconnected {
        Session { lifecycle: Lifecycle::Reattached, ..s }
    } else {
        s
    }
}

impl<P> ManagedSession<P> {
    /// A live session with the default capacity and window.
    pub fn new(session_id: &str) -> (r: Self)
        ensures
            r@ == new_session::<P>(session_id@, DEFAULT_JOURNAL_CAPACITY as nat),
    {
        ManagedSession::with_capacity(session_id, DEFAULT_JOURNAL_CAPACITY)
    }

    /// A live session whose journal holds up to `capacity` events.
    pub fn with_capacity(session_id: &str, capacity: usize) -> (r: Self)
        ensures
            r@ == new_session::<P>(session_id@, room(capacity)),
    {
        let r = ManagedSession {
            session_id: session_id.to_owned(),
            journal: EventJournal::with_capacity(capacity),
            lifecycle: SessionLifecycle::Active,
            reattach_window_ms: DEFAULT_REATTACH_WINDOW_MS,
        };
        assert(r@ =~= new_session::<P>(session_id@, room(capacity)));
        r
    }

    /// The session with another window for a reattach.
    pub fn with_reattach_window_ms(self, window_ms: i64) -> (r: Self)
        ensures
            r@ == (Session { reattach_window_ms: window_ms, ..self@ }),
    {
        let mut r = self;
        r.reattach_window_ms = window_ms;
        r
    }

    /// The name of the session.
    pub fn session_id(&self) -> (r: &str)
        ensures
            r@ == self@.session_id,
    {
        self.session_id.as_str()
    }

    /// Where the session stands.
    pub fn lifecycle(&self) -> (r: &SessionLifecycle)
        ensures
            r@ == self@.lifecycle,
    {
        &self.lifecycle
    }

    /// The number of the last event.
    pub fn head_seq(&self) -> (r: u64)
        ensures
            r == self@.journal.head,
    {
        self.journal.head_seq()
    }

    /// Whether the session has come to its end.
    pub fn is_dead(&self) -> (r: bool)
        ensures
            r == (self@.lifecycle is Dead),
    {
        self.lifecycle.is_dead()
    }

    /// Records that the connection was lost.
    pub fn mark_disconnected(&mut self, now_ms: i64)
        ensures
            final(self)@ == disconnected(old(self)@, now_ms),
    {
        if self.lifecycle.is_appendable() {
            self.lifecycle = SessionLifecycle::Disconnected { since_ms: now_ms };
        }
    }

    /// Looks at the clock: a session that has been disconnected for the whole window
    /// is dead.
    pub fn tick(&mut self, now_ms: i64)
        ensures
            final(self)@ == ticked(old(self)@, now_ms),
    {
        if let SessionLifecycle::Disconnected { since_ms } = self.lifecycle {
            if difference(now_ms, since_ms) >= self.reattach_window_ms {
                let mut reason = String::new();
                push_text(&mut reason, "reattach window of ");
                push_signed(&mut reason, self.reattach_window_ms);
                push_text(&mut reason, "ms elapsed");
                assert(reason@ =~= expiry_reason(self.reattach_window_ms));
                self.lifecycle = SessionLifecycle::Dead { reason };
            }
        }
    }

    /// Appends an event and returns its number. Only a live session accepts events.
    pub fn append(&mut self, payload: P) -> (r: Result<u64, SessionError>)
        requires
            appendable(old(self)@.lifecycle) ==> old(self)@.journal.head < u64::MAX,
        ensures
            final(self)@ == offered(old(self)@, payload),
            match r {
                Ok(seq) => appendable(old(self)@.lifecycle) && seq == old(self)@.journal.head + 1,
                Err(SessionError::NotAppendable { state }) => old(self)@.lifecycle is Disconnected
                    && state@ == old(self)@.lifecycle,
                Err(SessionError::Dead { reason }) => old(self)@.lifecycle == (Lifecycle::Dead {
                    reason: reason@,
                }),
            },
    {
        match &self.lifecycle {
            SessionLifecycle::Disconnected { .. } => Err(
                SessionError::NotAppendable { state: self.lifecycle.clone() },
            ),
            SessionLifecycle::Dead { reason } => Err(SessionError::Dead { reason: reason.clone() }),
            _ => Ok(self.journal.append(payload)),
        }
    }
}

impl<P: Clone> ManagedSession<P> {
    /// The events after `since_seq` that the journal still holds, whatever the state of
    /// the session; those of a dead session can be kept elsewhere this way.
    pub fn replay_since(&self, since_seq: Option<u64>) -> (r: ReplaySnapshot<P>)
        ensures
            replays(self@.journal, since_seq, r),
            sound(self@.journal),
    {
        self.journal.replay_since(since_seq)
    }

    /// Attaches a client that has seen the events up to `since_seq`, and returns what
    /// it needs to catch up. Only a dead session refuses.
    pub fn handle_attach(&mut self, since_seq: Option<u64>) -> (r: Result<
        ReplaySnapshot<P>,
        SessionError,
    >)
        ensures
            final(self)@ == attached(old(self)@),
            match r {
                Ok(snapshot) => !(old(self)@.lifecycle is Dead) && replays(
                    old(self)@.journal,
                    since_seq,
                    snapshot,
                ) && sound(old(self)@.journal),
                Err(SessionError::Dead { reason }) => old(self)@.lifecycle == (Lifecycle::Dead {
                    reason: reason@,
                }),
                Err(SessionError::NotAppendable { .. }) => false,
            },
    {
        if let SessionLifecycle::Dead { reason } = &self.lifecycle {
            return Err(SessionError::Dead { reason: reason.clone() });
        }
        let snapshot = self.journal.replay_since(since_seq);
        if let SessionLifecycle::Disconnected { .. } = self.lifecycle {
            self.lifecycle = SessionLifecycle::Reattached;
        }
        Ok(snapshot)
    }
}

/// Something that happens to a session.
#[verifier::reject_recursive_types(P)]
pub enum SessionEvent<P> {
    Lost(i64),
    Tick(i64),
    Offer(P),
    Attach,
}

/// A session after something happened to it.
pub open spec fn session_after<P>(s: Session<P>, event: SessionEvent<P>) -> Session<P> {
    match event {
        SessionEvent::Lost(now_ms) => disconnected(s, now_ms),
        SessionEvent::Tick(now_ms) => ticked(s, now_ms),
        SessionEvent::Offer(payload) => offered(s, payload),
        SessionEvent::Attach => attached(s),
    }
}

/// A dead session stays as it is, whatever happens.
pub proof fn law_dead_is_the_end<P>(s: Session<P>, event: SessionEvent<P>)
    requires
        s.lifecycle is Dead,
    ensures
        session_after(s, event) == s,
{
}

/// A second loss of the connection changes nothing: it does not extend the time for a
/// reattach.
pub proof fn law_second_loss_changes_nothing<P>(s: Session<P>, first_ms: i64, second_ms: i64)
    ensures
        disconnected(disconnected(s, first_ms), second_ms) == disconnected(s, first_ms),
{
}

/// Only a tick kills a session, and only one that is disconnected.
pub proof fn law_death_comes_by_expiry<P>(s: Session<P>, event: SessionEvent<P>)
    requires
        !(s.lifecycle is Dead),
        session_after(s, event).lifecycle is Dead,
    ensures
        s.lifecycle is Disconnected,
        event is Tick,
{
}

/// The clock does not touch a live session.
pub proof fn law_clock_spares_live_sessions<P>(s: Session<P>, now_ms: i64)
    requires
        appendable(s.lifecycle),
    ensures
        ticked(s, now_ms) == s,
{
}

/// A session that lost its connection and got it back in time is live again, with
/// all its events.
pub proof fn law_reattach_in_time_revives<P>(s: Session<P>, lost_ms: i64, now_ms: i64)
    requires
        appendable(s.lifecycle),
        clamp_i64(now_ms - lost_ms) < s.reattach_window_ms,
    ensures
        ({
            let back = attached(ticked(disconnected(s, lost_ms), now_ms));
            &&& back.lifecycle is Reattached
            &&& appendable(back.lifecycle)
            &&& back.journal == s.journal
        }),
{
}

/// Nothing but an event that is accepted changes the journal, and nothing changes the
/// session's name and window.
pub proof fn law_only_events_change_the_journal<P>(s: Session<P>, event: SessionEvent<P>)
    ensures
        session_after(s, event).journal != s.journal ==> event is Offer && appendable(
            s.lifecycle,
        ),
        session_after(s, event).session_id == s.session_id,
        session_after(s, event).reattach_window_ms == s.reattach_window_ms,
{
}

} // verus!

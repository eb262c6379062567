//! A bounded journal of numbered events that can be replayed from a cursor.

use vstd::prelude::*;

use std::collections::VecDeque;

verus! {

/// How many events a journal holds, unless told otherwise.
pub const DEFAULT_JOURNAL_CAPACITY: usize = 1024;

/// An event of a journal.
#[derive(Debug, PartialEq, Eq)]
pub struct JournalEntry<P> {
    /// The number of the event; the first of a journal is 1.
    pub seq: u64,
    /// What happened.
    pub payload: P,
}

/// What a client needs to catch up.
#[derive(Debug, PartialEq, Eq)]
pub struct ReplaySnapshot<P> {
    /// The events after the client's cursor that the journal still holds, in order.
    pub entries: Vec<JournalEntry<P>>,
    /// The number of the last event.
    pub head_seq: u64,
    /// Where events after the cursor are lost: the number of the oldest event that
    /// can still be had.
    pub replay_gap: Option<u64>,
}

/// The last events of a session, up to a capacity. Events are numbered from 1 in
/// the order in which they are appended.
#[derive(Debug)]
#[verifier::reject_recursive_types(P)]
pub struct EventJournal<P> {
    capacity: usize,
    head: u64,
    held: VecDeque<P>,
}

/// An [`EventJournal`] as a mathematical value.
#[verifier::ext_equal]
#[verifier::reject_recursive_types(P)]
pub struct Journal<P> {
    pub capacity: nat,
    /// The number of the last event.
    pub head: nat,
    /// The payloads of the events that are held; the last is that of event `head`.
    pub held: Seq<P>,
}

impl<P> View for EventJournal<P> {
    type V = Journal<P>;

    closed spec fn view(&self) -> Journal<P> {
        Journal { capacity: self.capacity as nat, head: self.head as nat, held: self.held@ }
    }
}

/// How many events a journal that was made with `capacity` holds: one at least.
pub open spec fn room(capacity: usize) -> nat {
    if capacity == 0 {
        1
    } else {
        capacity as nat
    }
}

/// Whether a journal holds the last events: all, or as many as it has room for.
pub open spec fn sound<P>(j: Journal<P>) -> bool {
    &&& j.capacity > 0
    &&& j.held.len() == if j.head < j.capacity {
        j.head
    } else {
        j.capacity
    }
}

/// A journal without events.
pub open spec fn empty_journal<P>(capacity: nat) -> Journal<P> {
    Journal { capacity, head: 0, held: Seq::empty() }
}

/// The number of the oldest event that is held; where none is, that of the next
/// event.
pub open spec fn oldest<P>(j: Journal<P>) -> int {
    j.head - j.held.len() + 1
}

/// The journal after one more event. The oldest event makes room where the
/// journal is full.
pub open spec fn appended<P>(j: Journal<P>, payload: P) -> Journal<P> {
    Journal {
        head: j.head + 1,
        held: if j.held.len() >= j.capacity {
            j.held.drop_first().push(payload)
        } else {
            j.held.push(payload)
        },
        ..j
    }
}

/// How many of the held events a client with this cursor has seen. Without a
/// cursor it has seen none.
pub open spec fn seen<P>(j: Journal<P>, since_seq: Option<u64>) -> int {
    match since_seq {
        None => 0,
        Some(c) => if c < oldest(j) {
            0
        } else if c >= j.head {
            j.held.len() as int
        } else {
            c - oldest(j) + 1
        },
    }
}

/// Where events after the cursor are lost, the number of the oldest that is held.
pub open spec fn gap<P>(j: Journal<P>, since_seq: Option<u64>) -> Option<int> {
    match since_seq {
        Some(c) => if c + 1 < oldest(j) {
            Some(oldest(j))
        } else {
            None
        },
        None => None,
    }
}

/// Whether `r` is the replay of `j` from a cursor: copies of the held events that
/// the client has not seen, each with its number, in order.
pub open spec fn replays<P: Clone>(
    j: Journal<P>,
    since_seq: Option<u64>,
    r: ReplaySnapshot<P>,
) -> bool {
    let skipped = seen(j, since_seq);
    &&& r.head_seq == j.head
    &&& match (r.replay_gap, gap(j, since_seq)) {
        (Some(a), Some(b)) => a == b,
        (None, None) => true,
        _ => false,
    }
    &&& r.entries@.len() == j.held.len() - skipped
    &&& forall|i: int|
        0 <= i < r.entries@.len() ==> {
            &&& (#[trigger] r.entries@[i]).seq == oldest(j) + skipped + i
            &&& cloned(j.held[skipped + i], r.entries@[i].payload)
        }
}

impl<P> EventJournal<P> {
    #[verifier::type_invariant]
    closed spec fn consistent(&self) -> bool {
        sound(self@)
    }

    /// A journal without events that holds up to `capacity` of them, and the last one
    /// in any case.
    pub fn with_capacity(capacity: usize) -> (r: Self)
        ensures
            r@ == empty_journal::<P>(room(capacity)),
            sound(r@),
    {
        EventJournal {
            capacity: if capacity == 0 {
                1
            } else {
                capacity
            },
            head: 0,
            held: VecDeque::new(),
        }
    }

    /// The number of the last event; 0 where there is none.
    pub fn head_seq(&self) -> (r: u64)
        ensures
            r == self@.head,
    {
        self.head
    }

    /// Appends an event and returns its number.
    pub fn append(&mut self, payload: P) -> (r: u64)
        requires
            old(self)@.head < u64::MAX,
        ensures
            r == old(self)@.head + 1,
            final(self)@ == appended(old(self)@, payload),
            sound(old(self)@),
            sound(final(self)@),
    {
        proof {
            use_type_invariant(&*self);
        }
        let ghost before = self@;
        let mut whole: EventJournal<P> = EventJournal::with_capacity(1);
        std::mem::swap(&mut whole, self);
        let EventJournal { capacity, head, held } = whole;
        let mut held = held;
        if held.len() >= capacity {
            let _ = held.pop_front();
            assert(held@ =~= before.held.drop_first());
        }
        held.push_back(payload);
        *self = EventJournal { capacity, head: head + 1, held };
        assert(self@ =~= appended(before, payload));
        self.head
    }
}

impl<P> Default for EventJournal<P> {
    fn default() -> (r: Self)
        ensures
            r@ == empty_journal::<P>(DEFAULT_JOURNAL_CAPACITY as nat),
    {
        EventJournal::with_capacity(DEFAULT_JOURNAL_CAPACITY)
    }
}

impl<P: Clone> EventJournal<P> {
    /// The events after `since_seq` that are still held; all that are held where no
    /// cursor is given.
    pub fn replay_since(&self, since_seq: Option<u64>) -> (r: ReplaySnapshot<P>)
        ensures
            replays(self@, since_seq, r),
            sound(self@),
    {
        proof {
            use_type_invariant(self);
        }
        let n: usize = self.held.len();
        let first: u128 = self.head as u128 - n as u128 + 1;
        let skipped: usize = match since_seq {
            None => 0,
            Some(c) => if (c as u128) < first {
                0
            } else if c >= self.head {
                n
            } else {
                (c as u128 - first + 1) as usize
            },
        };
        let replay_gap: Option<u64> = match since_seq {
            Some(c) => if (c as u128) + 1 < first {
                Some(first as u64)
            } else {
                None
            },
            None => None,
        };
        let mut entries: Vec<JournalEntry<P>> = Vec::new();
        let mut i: usize = skipped;
        while i < n
            invariant
                skipped <= i <= n,
                n == self.held@.len(),
                n <= self.head,
                first == self.head - n + 1,
                entries@.len() == i - skipped,
                forall|k: int|
                    0 <= k < entries@.len() ==> {
                        &&& (#[trigger] entries@[k]).seq == first + skipped + k
                        &&& cloned(self.held@[skipped + k], entries@[k].payload)
                    },
            decreases n - i,
        {
            let seq: u64 = (first + i as u128) as u64;
            entries.push(JournalEntry { seq, payload: self.held[i].clone() });
            i += 1;
        }
        ReplaySnapshot { entries, head_seq: self.head, replay_gap }
    }
}

/// The journal after several events.
pub open spec fn appended_all<P>(j: Journal<P>, payloads: Seq<P>) -> Journal<P>
    decreases payloads.len(),
{
    if payloads.len() == 0 {
        j
    } else {
        appended(appended_all(j, payloads.drop_last()), payloads.last())
    }
}

/// Events are numbered one after the other, and what a journal holds are the last
/// events, as many as it has room for.
pub proof fn law_journal_holds_the_last_events<P>(capacity: nat, payloads: Seq<P>)
    requires
        capacity > 0,
    ensures
        ({
            let j = appended_all(empty_journal(capacity), payloads);
            let kept = if payloads.len() < capacity {
                payloads.len()
            } else {
                capacity
            };
            &&& sound(j)
            &&& j.capacity == capacity
            &&& j.head == payloads.len()
            &&& j.held == payloads.skip(payloads.len() - kept)
        }),
    decreases payloads.len(),
{
    let j = appended_all(empty_journal(capacity), payloads);
    if payloads.len() == 0 {
        assert(j.held =~= payloads.skip(0));
    } else {
        let front = payloads.drop_last();
        let before = appended_all(empty_journal(capacity), front);
        law_journal_holds_the_last_events(capacity, front);
        let kept = if payloads.len() < capacity {
            payloads.len()
        } else {
            capacity
        };
        assert(j.held =~= payloads.skip(payloads.len() - kept));
    }
}

/// A client that attaches with the number of the last event it saw gets exactly the
/// events since, and learns where some of them are lost: it misses none where no
/// gap is reported.
pub proof fn law_replay_catches_up<P: Clone>(
    j: Journal<P>,
    cursor: u64,
    r: ReplaySnapshot<P>,
)
    requires
        sound(j),
        cursor <= j.head,
        replays(j, Some(cursor), r),
    ensures
        r.replay_gap is None <==> r.entries@.len() == j.head - cursor,
        r.replay_gap is None ==> forall|i: int|
            0 <= i < r.entries@.len() ==> (#[trigger] r.entries@[i]).seq == cursor + 1 + i,
        r.replay_gap is Some ==> r.entries@.len() == j.held.len() && r.replay_gap->0 == j.head
            - j.held.len() + 1,
{
}

/// Replaying from just before an event gives that event back.
pub proof fn law_append_then_replay<P: Clone>(
    j: Journal<P>,
    payload: P,
    cursor: u64,
    r: ReplaySnapshot<P>,
)
    requires
        sound(j),
        cursor == j.head,
        replays(appended(j, payload), Some(cursor), r),
    ensures
        r.replay_gap is None,
        r.entries@.len() == 1,
        r.entries@[0].seq == cursor + 1,
        cloned(payload, r.entries@[0].payload),
{
    let after = appended(j, payload);
    let skipped = seen(after, Some(cursor));
    assert(after.held[skipped + 0] == payload);
    assert(r.entries@[0].seq == oldest(after) + skipped);
}

} // verus!

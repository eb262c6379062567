//! When to try to reconnect, and when to stop trying.
//!
//! Everything here is a function of the time stamps it is given. A
//! [`ReconnectPolicy`] spaces the attempts of a session out, with windows that grow
//! by a factor up to a bound. A [`CrashLoopDetector`] counts the failures of late
//! and tells a transient blip from a crash loop.

use vstd::arithmetic::power::{lemma_pow0, lemma_pow_positive, pow};
use vstd::prelude::*;

use std::collections::VecDeque;

use crate::numbers::{clamp_i64, difference, later};

verus! {

/// The first window, unless told otherwise: five seconds.
pub const DEFAULT_INITIAL_BACKOFF_MS: u64 = 5_000;

/// The greatest window, unless told otherwise: five minutes.
pub const DEFAULT_MAX_BACKOFF_MS: u64 = 300_000;

/// The factor between two windows, unless told otherwise.
pub const DEFAULT_BACKOFF_MULTIPLIER: u32 = 2;

/// How far attempts are spaced out.
#[derive(Debug, PartialEq, Eq, Structural)]
pub struct ReconnectConfig {
    /// The window (ms) between the disconnect and the first attempt.
    pub initial_backoff_ms: u64,
    /// The greatest window (ms).
    pub max_backoff_ms: u64,
    /// What the window is multiplied with after each failure.
    pub backoff_multiplier: u32,
}

impl Default for ReconnectConfig {
    fn default() -> (r: Self)
        ensures
            r.initial_backoff_ms == 5_000,
            r.max_backoff_ms == 300_000,
            r.backoff_multiplier == 2,
    {
        ReconnectConfig {
            initial_backoff_ms: DEFAULT_INITIAL_BACKOFF_MS,
            max_backoff_ms: DEFAULT_MAX_BACKOFF_MS,
            backoff_multiplier: DEFAULT_BACKOFF_MULTIPLIER,
        }
    }
}

impl Clone for ReconnectConfig {
    fn clone(&self) -> (r: Self)
        ensures
            r == *self,
    {
        ReconnectConfig {
            initial_backoff_ms: self.initial_backoff_ms,
            max_backoff_ms: self.max_backoff_ms,
            backoff_multiplier: self.backoff_multiplier,
        }
    }
}

impl ReconnectConfig {
    /// A configuration that attempts at once and never waits longer than a second.
    pub fn instant_test() -> (r: Self)
        ensures
            r.initial_backoff_ms == 0,
            r.max_backoff_ms == 1_000,
            r.backoff_multiplier == 2,
    {
        ReconnectConfig { initial_backoff_ms: 0, max_backoff_ms: 1_000, backoff_multiplier: 2 }
    }
}

/// The reconnect bookkeeping of one session.
#[derive(Debug, PartialEq, Eq, Structural)]
pub struct BackoffState {
    next_attempt_at_ms: i64,
    current_backoff_ms: u64,
    attempts: u32,
}

/// A [`BackoffState`] as a mathematical value.
pub struct Backoff {
    /// When the next attempt is due.
    pub next_attempt_at_ms: i64,
    /// The window in force.
    pub current_backoff_ms: u64,
    /// How many attempts have failed.
    pub attempts: u32,
}

impl View for BackoffState {
    type V = Backoff;

    closed spec fn view(&self) -> Backoff {
        Backoff {
            next_attempt_at_ms: self.next_attempt_at_ms,
            current_backoff_ms: self.current_backoff_ms,
            attempts: self.attempts,
        }
    }
}

impl Clone for BackoffState {
    fn clone(&self) -> (r: Self)
        ensures
            r@ == self@,
    {
        BackoffState {
            next_attempt_at_ms: self.next_attempt_at_ms,
            current_backoff_ms: self.current_backoff_ms,
            attempts: self.attempts,
        }
    }
}

impl BackoffState {
    /// When the next attempt is due.
    pub fn next_attempt_at_ms(&self) -> (r: i64)
        ensures
            r == self@.next_attempt_at_ms,
    {
        self.next_attempt_at_ms
    }

    /// The window in force.
    pub fn current_backoff_ms(&self) -> (r: u64)
        ensures
            r == self@.current_backoff_ms,
    {
        self.current_backoff_ms
    }

    /// How many attempts have failed.
    pub fn attempts(&self) -> (r: u32)
        ensures
            r == self@.attempts,
    {
        self.attempts
    }
}

/// What to do about a session that is disconnected.
#[derive(Debug, PartialEq, Eq)]
pub enum ReconnectDecision {
    /// Attempt now.
    Attempt,
    /// Wait; the next attempt is due in `ms_remaining`.
    Wait { ms_remaining: i64 },
    /// Stop trying and tell the user why.
    GiveUp { reason: String },
}

impl Clone for ReconnectDecision {
    fn clone(&self) -> (r: Self)
        ensures
            match (*self, r) {
                (ReconnectDecision::Attempt, ReconnectDecision::Attempt) => true,
                (
                    ReconnectDecision::Wait { ms_remaining: a },
                    ReconnectDecision::Wait { ms_remaining: b },
                ) => a == b,
                (
                    ReconnectDecision::GiveUp { reason: a },
                    ReconnectDecision::GiveUp { reason: b },
                ) => a@ == b@,
                _ => false,
            },
    {
        match self {
            ReconnectDecision::Attempt => ReconnectDecision::Attempt,
            ReconnectDecision::Wait { ms_remaining } => ReconnectDecision::Wait {
                ms_remaining: *ms_remaining,
            },
            ReconnectDecision::GiveUp { reason } => ReconnectDecision::GiveUp {
                reason: reason.clone(),
            },
        }
    }
}

/// Decides on attempts. It holds the configuration only; each session has a
/// [`BackoffState`] of its own.
#[derive(Debug)]
pub struct ReconnectPolicy {
    config: ReconnectConfig,
}

impl View for ReconnectPolicy {
    type V = ReconnectConfig;

    closed spec fn view(&self) -> ReconnectConfig {
        self.config
    }
}

/// The state of a session that has just been disconnected: the first attempt is
/// due one initial window later.
pub open spec fn fresh(config: ReconnectConfig, now_ms: i64) -> Backoff {
    Backoff {
        next_attempt_at_ms: clamp_i64(now_ms + config.initial_backoff_ms),
        current_backoff_ms: config.initial_backoff_ms,
        attempts: 0,
    }
}

/// The window that follows a window: a multiple of it, within the bound. A window
/// of nothing is followed by one of a millisecond, so that retries do not spin, where
/// the bound leaves room for it.
pub open spec fn next_window(config: ReconnectConfig, window: u64) -> u64 {
    if window == 0 {
        if config.max_backoff_ms >= 1 {
            1
        } else {
            0
        }
    } else if window * config.backoff_multiplier < config.max_backoff_ms {
        (window * config.backoff_multiplier) as u64
    } else {
        config.max_backoff_ms
    }
}

/// The state of a session after a failed attempt.
pub open spec fn failed(config: ReconnectConfig, state: Backoff, now_ms: i64) -> Backoff {
    let window = next_window(config, state.current_backoff_ms);
    Backoff {
        next_attempt_at_ms: clamp_i64(now_ms + window),
        current_backoff_ms: window,
        attempts: if state.attempts < u32::MAX {
            (state.attempts + 1) as u32
        } else {
            u32::MAX
        },
    }
}

/// Whether the next attempt is due.
pub open spec fn due(state: Backoff, now_ms: i64) -> bool {
    state.next_attempt_at_ms <= now_ms
}

/// What the schedule says: attempt once the attempt is due, wait until then.
pub open spec fn scheduled(state: Backoff, now_ms: i64, decision: ReconnectDecision) -> bool {
    match decision {
        ReconnectDecision::Attempt => due(state, now_ms),
        ReconnectDecision::Wait { ms_remaining } => !due(state, now_ms) && ms_remaining == clamp_i64(
            state.next_attempt_at_ms - now_ms,
        ),
        ReconnectDecision::GiveUp { .. } => false,
    }
}

impl Clone for ReconnectPolicy {
    fn clone(&self) -> (r: Self)
        ensures
            r@ == self@,
    {
        ReconnectPolicy { config: self.config.clone() }
    }
}

impl ReconnectPolicy {
    /// A policy with this configuration.
    pub fn new(config: ReconnectConfig) -> (r: Self)
        ensures
            r@ == config,
    {
        ReconnectPolicy { config }
    }

    /// The configuration.
    pub fn config(&self) -> (r: &ReconnectConfig)
        ensures
            *r == self@,
    {
        &self.config
    }

    /// The state of a session that has just been disconnected.
    pub fn initial_state(&self, now_ms: i64) -> (r: BackoffState)
        ensures
            r@ == fresh(self@, now_ms),
    {
        BackoffState {
            next_attempt_at_ms: later(now_ms, self.config.initial_backoff_ms),
            current_backoff_ms: self.config.initial_backoff_ms,
            attempts: 0,
        }
    }

    /// Whether to attempt now, and otherwise how long to wait.
    pub fn decide(&self, state: &BackoffState, now_ms: i64) -> (r: ReconnectDecision)
        ensures
            scheduled(state@, now_ms, r),
    {
        let ms_remaining: i64 = difference(state.next_attempt_at_ms, now_ms);
        if ms_remaining <= 0 {
            ReconnectDecision::Attempt
        } else {
            ReconnectDecision::Wait { ms_remaining }
        }
    }

    /// Whether to give up because of a crash loop, to attempt now, or to wait. The
    /// crash loop is looked at first: while it lasts, nothing is attempted.
    pub fn decide_unless_crash_loop(
        &self,
        state: &BackoffState,
        detector: &mut CrashLoopDetector,
        now_ms: i64,
    ) -> (r: ReconnectDecision)
        ensures
            final(detector)@ == swept(old(detector)@, now_ms),
            match r {
                ReconnectDecision::GiveUp { reason } => looping(old(detector)@, now_ms) && reason@
                    == "crash loop detected"@,
                _ => !looping(old(detector)@, now_ms) && scheduled(state@, now_ms, r),
            },
    {
        if detector.is_in_crash_loop(now_ms) {
            ReconnectDecision::GiveUp { reason: "crash loop detected".to_owned() }
        } else {
            self.decide(state, now_ms)
        }
    }

    /// Records a failed attempt: one more attempt, a longer window, and the next
    /// attempt once that window is over.
    pub fn after_failure(&self, state: &mut BackoffState, now_ms: i64)
        ensures
            final(state)@ == failed(self@, old(state)@, now_ms),
    {
        let multiplier: u64 = self.config.backoff_multiplier as u64;
        let window: u64 = if state.current_backoff_ms == 0 {
            if self.config.max_backoff_ms >= 1 {
                1
            } else {
                0
            }
        } else {
            match state.current_backoff_ms.checked_mul(multiplier) {
                Some(product) => if product < self.config.max_backoff_ms {
                    product
                } else {
                    self.config.max_backoff_ms
                },
                None => self.config.max_backoff_ms,
            }
        };
        if state.attempts < u32::MAX {
            state.attempts = state.attempts + 1;
        }
        state.current_backoff_ms = window;
        state.next_attempt_at_ms = later(now_ms, window);
    }

    /// Records a successful attempt: the state is as after a new disconnect.
    pub fn after_success(&self, state: &mut BackoffState, now_ms: i64)
        ensures
            final(state)@ == fresh(self@, now_ms),
    {
        *state = self.initial_state(now_ms);
    }
}

/// The state of a session after failed attempts at these times.
pub open spec fn failed_at(config: ReconnectConfig, state: Backoff, times: Seq<i64>) -> Backoff
    decreases times.len(),
{
    if times.len() == 0 {
        state
    } else {
        failed(config, failed_at(config, state, times.drop_last()), times.last())
    }
}

/// Windows grow exponentially up to the bound: after `n` failures the window is
/// the initial one times the `n`-th power of the multiplier, or the bound where that
/// is less. Every failure counts as an attempt.
pub proof fn law_windows_grow_exponentially(config: ReconnectConfig, now_ms: i64, times: Seq<i64>)
    requires
        config.initial_backoff_ms > 0,
        config.backoff_multiplier > 0,
        times.len() > 0,
    ensures
        ({
            let state = failed_at(config, fresh(config, now_ms), times);
            let grown = config.initial_backoff_ms * pow(
                config.backoff_multiplier as int,
                times.len(),
            );
            &&& state.current_backoff_ms == if grown < config.max_backoff_ms {
                grown
            } else {
                config.max_backoff_ms as int
            }
            &&& state.attempts == if times.len() <= u32::MAX {
                times.len() as int
            } else {
                u32::MAX as int
            }
        }),
    decreases times.len(),
{
    let n = times.len();
    let m = config.backoff_multiplier as int;
    let i = config.initial_backoff_ms as int;
    let bound = config.max_backoff_ms as int;
    let before = failed_at(config, fresh(config, now_ms), times.drop_last());
    let power = pow(m, (n - 1) as nat);
    reveal(pow);
    assert(pow(m, n) == m * power);
    lemma_pow_positive(m, (n - 1) as nat);
    assert((i * power) * m == i * (m * power)) by (nonlinear_arith);
    if n == 1 {
        lemma_pow0(m);
        assert(times.drop_last().len() == 0);
        assert(i * power == i);
    } else {
        law_windows_grow_exponentially(config, now_ms, times.drop_last());
        if i * power < bound {
            assert(i * power > 0) by (nonlinear_arith)
                requires
                    i > 0,
                    power > 0,
            ;
        } else {
            assert((i * power) * m >= bound) by (nonlinear_arith)
                requires
                    i * power >= bound,
                    m >= 1,
                    bound >= 0,
            ;
            assert(bound * m >= bound) by (nonlinear_arith)
                requires
                    m >= 1,
                    bound >= 0,
            ;
        }
    }
}

/// No failure leads to a window beyond the bound.
pub proof fn law_window_is_bounded(config: ReconnectConfig, state: Backoff, now_ms: i64)
    ensures
        failed(config, state, now_ms).current_backoff_ms <= config.max_backoff_ms,
{
}

/// A failure never shortens a window that is within the bound.
pub proof fn law_windows_never_shrink(config: ReconnectConfig, state: Backoff, now_ms: i64)
    requires
        config.backoff_multiplier > 0,
        state.current_backoff_ms <= config.max_backoff_ms,
    ensures
        failed(config, state, now_ms).current_backoff_ms >= state.current_backoff_ms,
{
    let w = state.current_backoff_ms as int;
    let m = config.backoff_multiplier as int;
    assert(w * m >= w) by (nonlinear_arith)
        requires
            w >= 0,
            m >= 1,
    ;
}

/// Whoever waits for the time that is left may attempt then. (The time that is left
/// is cut off at the largest `i64`.)
pub proof fn law_waiting_is_enough(state: Backoff, now_ms: i64, ms_remaining: i64)
    requires
        scheduled(state, now_ms, (ReconnectDecision::Wait { ms_remaining })),
        state.next_attempt_at_ms - now_ms <= i64::MAX,
    ensures
        ms_remaining > 0,
        due(state, clamp_i64(now_ms + ms_remaining)),
{
}

/// How many failures make a crash loop, unless told otherwise.
pub const DEFAULT_CRASH_LOOP_THRESHOLD: u32 = 3;

/// How long a failure counts, unless told otherwise: five minutes.
pub const DEFAULT_CRASH_LOOP_WINDOW_MS: i64 = 300_000;

/// When failures are a crash loop.
#[derive(Debug, PartialEq, Eq, Structural)]
pub struct CrashLoopConfig {
    /// How many failures within the window make a crash loop.
    pub threshold: u32,
    /// How long (ms) a failure counts.
    pub window_ms: i64,
}

impl Default for CrashLoopConfig {
    fn default() -> (r: Self)
        ensures
            r.threshold == 3,
            r.window_ms == 300_000,
    {
        CrashLoopConfig {
            threshold: DEFAULT_CRASH_LOOP_THRESHOLD,
            window_ms: DEFAULT_CRASH_LOOP_WINDOW_MS,
        }
    }
}

impl Clone for CrashLoopConfig {
    fn clone(&self) -> (r: Self)
        ensures
            r == *self,
    {
        CrashLoopConfig { threshold: self.threshold, window_ms: self.window_ms }
    }
}

/// Remembers the failures of late, tells when they are a crash loop, and alerts at
/// most once for each.
#[derive(Debug)]
pub struct CrashLoopDetector {
    config: CrashLoopConfig,
    recent_failures: VecDeque<i64>,
    alerted: bool,
}

/// A [`CrashLoopDetector`] as a mathematical value.
#[verifier::ext_equal]
pub struct Detector {
    pub config: CrashLoopConfig,
    /// The times of the failures that count, in the order they were recorded.
    pub failures: Seq<i64>,
    /// Whether the present crash loop has been alerted to.
    pub alerted: bool,
}

impl View for CrashLoopDetector {
    type V = Detector;

    closed spec fn view(&self) -> Detector {
        Detector {
            config: self.config,
            failures: self.recent_failures@,
            alerted: self.alerted,
        }
    }
}

/// The failures that did not come before `cutoff`, in the order they were recorded.
pub open spec fn since(failures: Seq<i64>, cutoff: i64) -> Seq<i64>
    decreases failures.len(),
{
    if failures.len() == 0 {
        Seq::empty()
    } else {
        let before = since(failures.drop_last(), cutoff);
        if failures.last() >= cutoff {
            before.push(failures.last())
        } else {
            before
        }
    }
}

/// From when on failures count.
pub open spec fn cutoff(config: CrashLoopConfig, now_ms: i64) -> i64 {
    clamp_i64(now_ms - config.window_ms)
}

/// The detector once it has forgotten the failures that do not count any more.
pub open spec fn swept(d: Detector, now_ms: i64) -> Detector {
    Detector { failures: since(d.failures, cutoff(d.config, now_ms)), ..d }
}

/// Whether the failures that count are a crash loop.
pub open spec fn looping(d: Detector, now_ms: i64) -> bool {
    swept(d, now_ms).failures.len() >= d.config.threshold
}

/// The detector after one more failure.
pub open spec fn with_failure(d: Detector, now_ms: i64) -> Detector {
    Detector { failures: swept(d, now_ms).failures.push(now_ms), ..d }
}

/// The detector after a recovery: the next crash loop may be alerted to, unless the
/// present one lasts.
pub open spec fn recovered(d: Detector, now_ms: i64) -> Detector {
    Detector { alerted: d.alerted && looping(d, now_ms), ..swept(d, now_ms) }
}

/// The detector after the question whether to alert.
pub open spec fn asked(d: Detector, now_ms: i64) -> Detector {
    Detector { alerted: d.alerted || looping(d, now_ms), ..swept(d, now_ms) }
}

impl Clone for CrashLoopDetector {
    fn clone(&self) -> (r: Self)
        ensures
            r@ == self@,
    {
        let mut recent_failures: VecDeque<i64> = VecDeque::new();
        let mut i: usize = 0;
        while i < self.recent_failures.len()
            invariant
                i <= self.recent_failures@.len(),
                recent_failures@ == self.recent_failures@.take(i as int),
            decreases self.recent_failures.len() - i,
        {
            recent_failures.push_back(self.recent_failures[i]);
            assert(recent_failures@ =~= self.recent_failures@.take(i + 1));
            i += 1;
        }
        let r = CrashLoopDetector {
            config: self.config.clone(),
            recent_failures,
            alerted: self.alerted,
        };
        assert(r@ =~= self@);
        r
    }
}

impl CrashLoopDetector {
    /// A detector that has seen no failure.
    pub fn new(config: CrashLoopConfig) -> (r: Self)
        ensures
            r@ == (Detector { config, failures: Seq::empty(), alerted: false }),
    {
        CrashLoopDetector { config, recent_failures: VecDeque::new(), alerted: false }
    }

    /// The configuration.
    pub fn config(&self) -> (r: &CrashLoopConfig)
        ensures
            *r == self@.config,
    {
        &self.config
    }

    /// How many failures are remembered.
    pub fn failures_in_window(&self) -> (r: usize)
        ensures
            r == self@.failures.len(),
    {
        self.recent_failures.len()
    }

    /// Records a failure, and forgets those that do not count any more.
    pub fn record_failure(&mut self, now_ms: i64)
        ensures
            final(self)@ == with_failure(old(self)@, now_ms),
    {
        self.evict_old(now_ms);
        self.recent_failures.push_back(now_ms);
        assert(self@ =~= with_failure(old(self)@, now_ms));
    }

    /// Records a recovery. The failures stay: they count if another one comes soon.
    pub fn record_recovery(&mut self, now_ms: i64)
        ensures
            final(self)@ == recovered(old(self)@, now_ms),
    {
        self.evict_old(now_ms);
        if !self.meets_threshold() {
            self.alerted = false;
        }
    }

    /// Whether the failures that count are a crash loop.
    pub fn is_in_crash_loop(&mut self, now_ms: i64) -> (r: bool)
        ensures
            r == looping(old(self)@, now_ms),
            final(self)@ == swept(old(self)@, now_ms),
    {
        self.evict_old(now_ms);
        self.meets_threshold()
    }

    /// Whether to alert to a crash loop: once for each.
    pub fn should_emit_alert(&mut self, now_ms: i64) -> (r: bool)
        ensures
            r == (looping(old(self)@, now_ms) && !old(self)@.alerted),
            final(self)@ == asked(old(self)@, now_ms),
    {
        if self.is_in_crash_loop(now_ms) && !self.alerted {
            self.alerted = true;
            true
        } else {
            false
        }
    }

    /// Whether as many failures are remembered as make a crash loop.
    fn meets_threshold(&self) -> (r: bool)
        ensures
            r == (self@.failures.len() >= self@.config.threshold),
    {
        self.recent_failures.len() as u128 >= self.config.threshold as u128
    }

    /// Forgets the failures that do not count any more.
    fn evict_old(&mut self, now_ms: i64)
        ensures
            final(self)@ == swept(old(self)@, now_ms),
    {
        let from: i64 = difference(now_ms, self.config.window_ms);
        let ghost all = self.recent_failures@;
        let mut kept: VecDeque<i64> = VecDeque::new();
        let mut i: usize = 0;
        assert(all.take(0) =~= Seq::<i64>::empty());
        while i < self.recent_failures.len()
            invariant
                i <= all.len(),
                all == self.recent_failures@,
                kept@ == since(all.take(i as int), from),
            decreases all.len() - i,
        {
            let failure: i64 = self.recent_failures[i];
            assert(all.take(i + 1).drop_last() =~= all.take(i as int));
            assert(all.take(i + 1).last() == failure);
            if failure >= from {
                kept.push_back(failure);
            }
            i += 1;
        }
        assert(all.take(all.len() as int) =~= all);
        self.recent_failures = kept;
        assert(self@ =~= swept(old(self)@, now_ms));
    }
}

/// Exactly the failures within the window count, each as often as it was recorded,
/// whatever the order in which they were.
pub proof fn law_exactly_the_window_counts(failures: Seq<i64>, from: i64, t: i64)
    ensures
        since(failures, from).contains(t) <==> failures.contains(t) && t >= from,
        since(failures, from).to_multiset().count(t) == if t >= from {
            failures.to_multiset().count(t)
        } else {
            0
        },
    decreases failures.len(),
{
    let kept = since(failures, from);
    kept.to_multiset_ensures();
    failures.to_multiset_ensures();
    if failures.len() > 0 {
        let front = failures.drop_last();
        let last = failures.last();
        let before = since(front, from);
        law_exactly_the_window_counts(front, from, t);
        front.to_multiset_ensures();
        before.to_multiset_ensures();
        assert(failures =~= front.push(last));
        lemma_pushed_is_held(front, last, t);
        if last >= from {
            lemma_pushed_is_held(before, last, t);
        }
    }
}

proof fn lemma_pushed_is_held(list: Seq<i64>, last: i64, t: i64)
    ensures
        list.push(last).contains(t) <==> list.contains(t) || t == last,
{
    let longer = list.push(last);
    assert(longer[list.len() as int] == last);
    if list.contains(t) {
        let i = choose|i: int| 0 <= i < list.len() && list[i] == t;
        assert(longer[i] == t);
    }
    if longer.contains(t) && t != last {
        let i = choose|i: int| 0 <= i < longer.len() && longer[i] == t;
        assert(list[i] == t);
    }
}

/// Whether failures were recorded in the order of time.
pub open spec fn chronological(failures: Seq<i64>) -> bool {
    forall|i: int, j: int| 0 <= i < j < failures.len() ==> failures[i] <= failures[j]
}

/// Of failures recorded in the order of time the oldest are forgotten: what is kept is
/// the end of the list.
pub proof fn law_the_oldest_are_forgotten(failures: Seq<i64>, from: i64)
    requires
        chronological(failures),
    ensures
        ({
            let kept = since(failures, from);
            let gone = failures.len() - kept.len();
            &&& 0 <= gone
            &&& kept == failures.skip(gone)
            &&& forall|i: int| 0 <= i < gone ==> #[trigger] failures[i] < from
            &&& chronological(kept)
        }),
    decreases failures.len(),
{
    let kept = since(failures, from);
    if failures.len() == 0 {
        assert(kept =~= failures.skip(0));
    } else {
        let front = failures.drop_last();
        let last = failures.last();
        let before = since(front, from);
        assert(chronological(front));
        law_the_oldest_are_forgotten(front, from);
        let gone = front.len() - before.len();
        if last >= from {
            assert(kept =~= failures.skip(gone));
            assert forall|i: int| 0 <= i < gone implies #[trigger] failures[i] < from by {
                assert(front[i] < from);
            }
        } else {
            if before.len() > 0 {
                law_exactly_the_window_counts(front, from, before[0]);
                assert(before.contains(before[0]));
                assert(before[0] == front[gone]);
                assert(failures[gone] <= failures[failures.len() - 1]);
            }
            assert(kept =~= failures.skip(failures.len() as int));
            assert forall|i: int| 0 <= i < failures.len() implies #[trigger] failures[i]
                < from by {
                if i < front.len() {
                    assert(front[i] < from);
                }
            }
        }
    }
}

/// Recording failures as they happen keeps them in the order of time.
pub proof fn law_recording_keeps_order(d: Detector, now_ms: i64)
    requires
        chronological(d.failures),
        forall|i: int| 0 <= i < d.failures.len() ==> #[trigger] d.failures[i] <= now_ms,
    ensures
        chronological(with_failure(d, now_ms).failures),
        forall|i: int|
            0 <= i < with_failure(d, now_ms).failures.len() ==> #[trigger] with_failure(
                d,
                now_ms,
            ).failures[i] <= now_ms,
{
    let kept = since(d.failures, cutoff(d.config, now_ms));
    law_the_oldest_are_forgotten(d.failures, cutoff(d.config, now_ms));
    let gone = d.failures.len() - kept.len();
    assert forall|i: int| 0 <= i < kept.len() implies #[trigger] kept[i] <= now_ms by {
        assert(kept[i] == d.failures[gone + i]);
    }
}

/// Something that happens to a detector.
pub enum LoopEvent {
    Failure(i64),
    Query(i64),
    AlertQuery(i64),
    Recovery(i64),
}

/// The detector after an event.
pub open spec fn after_event(d: Detector, event: LoopEvent) -> Detector {
    match event {
        LoopEvent::Failure(now_ms) => with_failure(d, now_ms),
        LoopEvent::Query(now_ms) => swept(d, now_ms),
        LoopEvent::AlertQuery(now_ms) => asked(d, now_ms),
        LoopEvent::Recovery(now_ms) => recovered(d, now_ms),
    }
}

/// Whether an event makes the detector alert.
pub open spec fn alerts(d: Detector, event: LoopEvent) -> bool {
    match event {
        LoopEvent::AlertQuery(now_ms) => looping(d, now_ms) && !d.alerted,
        _ => false,
    }
}

/// The detector after events.
pub open spec fn after_events(d: Detector, events: Seq<LoopEvent>) -> Detector
    decreases events.len(),
{
    if events.len() == 0 {
        d
    } else {
        after_event(after_events(d, events.drop_last()), events.last())
    }
}

/// Whether an event is a recovery at which the failures that count are no crash
/// loop, which is what ends an episode.
pub open spec fn ends_episode(d: Detector, event: LoopEvent) -> bool {
    match event {
        LoopEvent::Recovery(now_ms) => !looping(d, now_ms),
        _ => false,
    }
}

/// Whether none of the events ends the episode.
pub open spec fn episode_lasts(d: Detector, events: Seq<LoopEvent>) -> bool
    decreases events.len(),
{
    events.len() > 0 ==> episode_lasts(d, events.drop_last()) && !ends_episode(
        after_events(d, events.drop_last()),
        events.last(),
    )
}

proof fn lemma_alerted_lasts(d: Detector, events: Seq<LoopEvent>)
    requires
        d.alerted,
        episode_lasts(d, events),
    ensures
        after_events(d, events).alerted,
    decreases events.len(),
{
    if events.len() > 0 {
        lemma_alerted_lasts(d, events.drop_last());
    }
}

/// After an alert there is no second one until a recovery ends the episode, whatever
/// happens in between.
pub proof fn law_one_alert_per_episode(
    d: Detector,
    alert: LoopEvent,
    between: Seq<LoopEvent>,
    event: LoopEvent,
)
    requires
        alerts(d, alert),
        episode_lasts(after_event(d, alert), between),
    ensures
        !alerts(after_events(after_event(d, alert), between), event),
{
    lemma_alerted_lasts(after_event(d, alert), between);
}

/// After the recovery that ends an episode, the next crash loop is alerted to.
pub proof fn law_next_episode_alerts(d: Detector, end: LoopEvent, now_ms: i64)
    requires
        ends_episode(d, end),
        looping(after_event(d, end), now_ms),
    ensures
        alerts(after_event(d, end), LoopEvent::AlertQuery(now_ms)),
{
}

} // verus!

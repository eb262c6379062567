//! When attempts come, and what makes a crash loop, over whole runs of events.

use vstd::arithmetic::power::{lemma_pow0, lemma_pow_positive, pow};
use vstd::prelude::*;

use crate::numbers::clamp_i64;
use crate::reconnect::{
    after_event, after_events, alerts, asked, cutoff, failed, failed_at, fresh,
    law_windows_grow_exponentially, looping, recovered, scheduled, since, swept, with_failure,
    Backoff, CrashLoopConfig, Detector, LoopEvent, ReconnectConfig, ReconnectDecision,
};

verus! {

/// The time `t` plus a window, or the last time there is where that would be later.
pub open spec fn later_by(t: i64, window: int) -> int {
    if t + window > i64::MAX {
        i64::MAX as int
    } else {
        t + window
    }
}

/// What is decided about an attempt that is due at a time: to wait before it, for the time
/// that is left, and to attempt from then on.
pub open spec fn keeps_to(due_ms: int, now_ms: i64, decision: ReconnectDecision) -> bool {
    &&& now_ms >= due_ms ==> decision is Attempt
    &&& now_ms < due_ms ==> decision is Wait && decision->ms_remaining == (if due_ms - now_ms
        > i64::MAX {
        i64::MAX as int
    } else {
        due_ms - now_ms
    })
}

/// After a lost connection the first attempt is due one initial window later, and none has
/// failed yet.
pub proof fn law_first_attempt_comes_after_the_initial_window(
    config: ReconnectConfig,
    t: i64,
    now_ms: i64,
    decision: ReconnectDecision,
)
    requires
        scheduled(fresh(config, t), now_ms, decision),
    ensures
        fresh(config, t).attempts == 0,
        fresh(config, t).current_backoff_ms == config.initial_backoff_ms,
        fresh(config, t).next_attempt_at_ms == later_by(t, config.initial_backoff_ms as int),
        keeps_to(later_by(t, config.initial_backoff_ms as int), now_ms, decision),
{
}

/// After a failed attempt, whatever came before it, the next one is due exactly when the
/// window then in force has passed: until then the decision is to wait, from then on to
/// attempt. That window is the one before times the multiplier, within the bound; a window of
/// nothing is followed by one of a millisecond, within the bound.
pub proof fn law_next_attempt_comes_after_the_window(
    config: ReconnectConfig,
    state: Backoff,
    t: i64,
    now_ms: i64,
    decision: ReconnectDecision,
)
    requires
        scheduled(failed(config, state, t), now_ms, decision),
    ensures
        ({
            let after = failed(config, state, t);
            let grown = if state.current_backoff_ms == 0 {
                1
            } else {
                state.current_backoff_ms * config.backoff_multiplier
            };
            &&& after.current_backoff_ms <= grown
            &&& after.current_backoff_ms <= config.max_backoff_ms
            &&& after.current_backoff_ms == grown || after.current_backoff_ms
                == config.max_backoff_ms
            &&& after.next_attempt_at_ms == later_by(t, after.current_backoff_ms as int)
            &&& keeps_to(later_by(t, after.current_backoff_ms as int), now_ms, decision)
            &&& state.attempts < u32::MAX ==> after.attempts == state.attempts + 1
            &&& state.attempts == u32::MAX ==> after.attempts == u32::MAX
        }),
{
    let w = state.current_backoff_ms as int;
    let m = config.backoff_multiplier as int;
    assert(w * m >= 0) by (nonlinear_arith)
        requires
            w >= 0,
            m >= 0,
    ;
}

/// After the `n`-th failed attempt, at time `t`, the next one is due exactly at `t` plus the
/// initial window times the `n`-th power of the multiplier, or plus the bound where that is
/// less, however the attempts before were spread over time.
pub proof fn law_attempts_spread_exponentially(
    config: ReconnectConfig,
    lost_ms: i64,
    times: Seq<i64>,
    now_ms: i64,
    decision: ReconnectDecision,
)
    requires
        config.initial_backoff_ms > 0,
        config.backoff_multiplier > 0,
        times.len() > 0,
        scheduled(failed_at(config, fresh(config, lost_ms), times), now_ms, decision),
    ensures
        ({
            let grown = config.initial_backoff_ms * pow(
                config.backoff_multiplier as int,
                times.len(),
            );
            let window = if grown < config.max_backoff_ms {
                grown
            } else {
                config.max_backoff_ms as int
            };
            let due_ms = later_by(times[times.len() - 1], window);
            &&& failed_at(config, fresh(config, lost_ms), times).next_attempt_at_ms == due_ms
            &&& keeps_to(due_ms, now_ms, decision)
        }),
{
    law_windows_grow_exponentially(config, lost_ms, times);
    let before = failed_at(config, fresh(config, lost_ms), times.drop_last());
    law_next_attempt_comes_after_the_window(config, before, times.last(), now_ms, decision);
}

proof fn lemma_windows_from_nothing(config: ReconnectConfig, lost_ms: i64, times: Seq<i64>)
    requires
        config.initial_backoff_ms == 0,
        config.max_backoff_ms > 0,
        config.backoff_multiplier > 0,
        times.len() > 0,
    ensures
        ({
            let grown = pow(config.backoff_multiplier as int, (times.len() - 1) as nat);
            failed_at(config, fresh(config, lost_ms), times).current_backoff_ms == if grown
                < config.max_backoff_ms {
                grown
            } else {
                config.max_backoff_ms as int
            }
        }),
    decreases times.len(),
{
    let m = config.backoff_multiplier as int;
    let bound = config.max_backoff_ms as int;
    let n = times.len();
    let before = failed_at(config, fresh(config, lost_ms), times.drop_last());
    if n == 1 {
        lemma_pow0(m);
        assert(times.drop_last().len() == 0);
        assert(before == fresh(config, lost_ms));
    } else {
        lemma_windows_from_nothing(config, lost_ms, times.drop_last());
        let power = pow(m, (n - 2) as nat);
        reveal(pow);
        assert(pow(m, (n - 1) as nat) == m * power);
        lemma_pow_positive(m, (n - 2) as nat);
        assert(power * m == m * power) by (nonlinear_arith);
        if power >= bound {
            assert(m * power >= bound) by (nonlinear_arith)
                requires
                    power >= bound,
                    bound > 0,
                    m >= 1,
            ;
            assert(bound * m >= bound) by (nonlinear_arith)
                requires
                    bound > 0,
                    m >= 1,
            ;
        }
    }
}

/// Where the first attempt is made at once, the one after the `n`-th failure is due as many
/// milliseconds later as the power of the multiplier before the `n`-th says, or after the
/// bound where that is less.
pub proof fn law_attempts_spread_from_nothing(
    config: ReconnectConfig,
    lost_ms: i64,
    times: Seq<i64>,
    now_ms: i64,
    decision: ReconnectDecision,
)
    requires
        config.initial_backoff_ms == 0,
        config.max_backoff_ms > 0,
        config.backoff_multiplier > 0,
        times.len() > 0,
        scheduled(failed_at(config, fresh(config, lost_ms), times), now_ms, decision),
    ensures
        ({
            let grown = pow(config.backoff_multiplier as int, (times.len() - 1) as nat);
            let window = if grown < config.max_backoff_ms {
                grown
            } else {
                config.max_backoff_ms as int
            };
            keeps_to(later_by(times[times.len() - 1], window), now_ms, decision)
        }),
{
    lemma_windows_from_nothing(config, lost_ms, times);
    let before = failed_at(config, fresh(config, lost_ms), times.drop_last());
    law_next_attempt_comes_after_the_window(config, before, times.last(), now_ms, decision);
}

/// When an event happens.
pub open spec fn time_of(event: LoopEvent) -> i64 {
    match event {
        LoopEvent::Failure(t) => t,
        LoopEvent::Query(t) => t,
        LoopEvent::AlertQuery(t) => t,
        LoopEvent::Recovery(t) => t,
    }
}

/// Whether events come in the order of time, and none after `now_ms`.
pub open spec fn in_order(events: Seq<LoopEvent>, now_ms: i64) -> bool
    decreases events.len(),
{
    events.len() > 0 ==> time_of(events.last()) <= now_ms && in_order(
        events.drop_last(),
        time_of(events.last()),
    )
}

/// How many of the events are failures at `from` or later.
pub open spec fn failures_from(events: Seq<LoopEvent>, from: int) -> nat
    decreases events.len(),
{
    if events.len() == 0 {
        0
    } else {
        failures_from(events.drop_last(), from) + match events.last() {
            LoopEvent::Failure(t) => if t >= from {
                1nat
            } else {
                0
            },
            _ => 0,
        }
    }
}

/// The time one window before `now_ms`, within what a time can be.
pub open spec fn window_start(config: CrashLoopConfig, now_ms: i64) -> int {
    if now_ms - config.window_ms < i64::MIN {
        i64::MIN as int
    } else if now_ms - config.window_ms > i64::MAX {
        i64::MAX as int
    } else {
        now_ms - config.window_ms
    }
}

/// A detector that has seen nothing.
pub open spec fn unused(config: CrashLoopConfig) -> Detector {
    Detector { config, failures: Seq::empty(), alerted: false }
}

proof fn lemma_since_twice(failures: Seq<i64>, a: i64, b: i64)
    requires
        a <= b,
    ensures
        since(since(failures, a), b) == since(failures, b),
    decreases failures.len(),
{
    if failures.len() > 0 {
        let front = failures.drop_last();
        lemma_since_twice(front, a, b);
        if failures.last() >= a {
            assert(since(failures, a).drop_last() =~= since(front, a));
        }
    }
}

proof fn lemma_config_stays(d: Detector, events: Seq<LoopEvent>)
    ensures
        after_events(d, events).config == d.config,
    decreases events.len(),
{
    if events.len() > 0 {
        lemma_config_stays(d, events.drop_last());
    }
}

proof fn lemma_counted(config: CrashLoopConfig, events: Seq<LoopEvent>, now_ms: i64, from: i64)
    requires
        in_order(events, now_ms),
        from >= cutoff(config, now_ms),
    ensures
        since(after_events(unused(config), events).failures, from).len() == failures_from(
            events,
            from as int,
        ),
    decreases events.len(),
{
    if events.len() > 0 {
        let front = events.drop_last();
        let t = time_of(events.last());
        let before = after_events(unused(config), front);
        lemma_config_stays(unused(config), front);
        lemma_counted(config, front, t, from);
        let cut = cutoff(config, t);
        lemma_since_twice(before.failures, cut, from);
        if let LoopEvent::Failure(now) = events.last() {
            let kept = since(before.failures, cut);
            assert(kept.push(now).drop_last() =~= kept);
        }
    }
}

/// Only the failures of late decide: after failures, questions and recoveries in the order of
/// time, a detector is in a crash loop at a time if and only if the failures that were
/// recorded no longer than the window before it are at least as many as the threshold,
/// whatever recoveries and questions came in between.
pub proof fn law_only_failures_of_late_decide(
    config: CrashLoopConfig,
    events: Seq<LoopEvent>,
    now_ms: i64,
)
    requires
        in_order(events, now_ms),
    ensures
        ({
            let d = after_events(unused(config), events);
            let recent = failures_from(events, window_start(config, now_ms));
            &&& looping(d, now_ms) <==> recent >= config.threshold
            &&& swept(d, now_ms).failures.len() == recent
            &&& recovered(d, now_ms).failures.len() == recent
            &&& asked(d, now_ms).failures.len() == recent
            &&& with_failure(d, now_ms).failures.len() == recent + 1
        }),
{
    lemma_config_stays(unused(config), events);
    lemma_counted(config, events, now_ms, cutoff(config, now_ms));
}

/// Recoveries and questions leave no trace in what counts: at any later time the detector is
/// in a crash loop if and only if it would be had they not come.
pub proof fn law_recoveries_and_questions_forget_nothing(
    d: Detector,
    event: LoopEvent,
    now_ms: i64,
)
    requires
        !(event is Failure),
        time_of(event) <= now_ms,
    ensures
        looping(after_event(d, event), now_ms) == looping(d, now_ms),
        swept(after_event(d, event), now_ms).failures == swept(d, now_ms).failures,
        after_event(d, event).config == d.config,
{
    lemma_since_twice(d.failures, cutoff(d.config, time_of(event)), cutoff(d.config, now_ms));
}

/// A failure counts once, for as long as the window, and takes no other failure away.
pub proof fn law_failure_counts_for_the_window(d: Detector, t: i64, now_ms: i64)
    requires
        t <= now_ms,
    ensures
        swept(with_failure(d, t), now_ms).failures.len() == swept(d, now_ms).failures.len() + (if t
            >= window_start(d.config, now_ms) {
            1int
        } else {
            0
        }),
        with_failure(d, t).config == d.config,
        with_failure(d, t).alerted == d.alerted,
{
    let cut = cutoff(d.config, t);
    let from = cutoff(d.config, now_ms);
    lemma_since_twice(d.failures, cut, from);
    let kept = since(d.failures, cut);
    assert(kept.push(t).drop_last() =~= kept);
}

/// What was kept is what lies within the window, in the order in which it was recorded.
pub proof fn law_sweeping_keeps_the_window(failures: Seq<i64>, t: i64, from: i64)
    ensures
        since(Seq::empty(), from) == Seq::<i64>::empty(),
        t >= from ==> since(failures.push(t), from) == since(failures, from).push(t),
        t < from ==> since(failures.push(t), from) == since(failures, from),
{
    assert(failures.push(t).drop_last() =~= failures);
}

/// A detector alerts exactly where it is asked about a crash loop that it has not alerted to.
/// Being asked about one is what it remembers, and only a recovery outside a crash loop makes
/// it forget.
pub proof fn law_alerts_are_remembered_until_recovery(d: Detector, t: i64)
    ensures
        alerts(d, LoopEvent::AlertQuery(t)) <==> looping(d, t) && !d.alerted,
        !alerts(d, LoopEvent::Failure(t)),
        !alerts(d, LoopEvent::Query(t)),
        !alerts(d, LoopEvent::Recovery(t)),
        looping(d, t) ==> asked(d, t).alerted,
        !looping(d, t) ==> asked(d, t).alerted == d.alerted,
        looping(d, t) ==> recovered(d, t).alerted == d.alerted,
        !looping(d, t) ==> !recovered(d, t).alerted,
        with_failure(d, t).alerted == d.alerted,
        swept(d, t).alerted == d.alerted,
        after_event(d, LoopEvent::Failure(t)) == with_failure(d, t),
        after_event(d, LoopEvent::Query(t)) == swept(d, t),
        after_event(d, LoopEvent::AlertQuery(t)) == asked(d, t),
        after_event(d, LoopEvent::Recovery(t)) == recovered(d, t),
{
}

/// Failures count from one window before the present on.
pub proof fn law_window_starts_before_now(config: CrashLoopConfig, now_ms: i64)
    ensures
        cutoff(config, now_ms) == window_start(config, now_ms),
        clamp_i64(now_ms - config.window_ms) == window_start(config, now_ms),
{
}

} // verus!

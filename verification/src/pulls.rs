//! What comes out of a delay sequence over several calls.

use vstd::prelude::*;
use vstd::arithmetic::power::{lemma_pow_increases, lemma0_pow, pow};
use crate::delay::{
    fib, saturate, Bounded, DelaySequence, Deterministic, Exponential, Fibonacci, Range,
};
use crate::duration::Duration;

verus! {

/// `states` and `delays` record calls of `next` made one after another on one sequence:
/// the call on `states[i]` returned `delays[i]` and left `states[i + 1]`.
pub open spec fn is_run<S: DelaySequence>(states: Seq<S>, delays: Seq<Option<Duration>>) -> bool {
    &&& states.len() == delays.len() + 1
    &&& forall|i: int|
        0 <= i < delays.len() ==> states[i].yields(#[trigger] delays[i], &states[i + 1])
}

/// What is left of a sequence once `taken` delays have been asked of it.
pub open spec fn fewer(remaining: Option<nat>, taken: nat) -> Option<nat> {
    match remaining {
        None => None,
        Some(n) => if n >= taken {
            Some((n - taken) as nat)
        } else {
            Some(0nat)
        },
    }
}

/// Each call of a run uses up one of the delays that the sequence had at the start.
pub proof fn lemma_run_counts_down<S: DelaySequence>(
    states: Seq<S>,
    delays: Seq<Option<Duration>>,
    calls: int,
)
    requires
        is_run(states, delays),
        0 <= calls <= delays.len(),
    ensures
        states[calls].remaining() == fewer(states[0].remaining(), calls as nat),
    decreases calls,
{
    if calls > 0 {
        lemma_run_counts_down(states, delays, calls - 1);
        states[calls - 1].lemma_remaining(delays[calls - 1], &states[calls]);
    }
}

/// A sequence with `n` delays left hands out a delay at each of the next `n` calls and
/// `None` at every call after them; a sequence that never ends hands out a delay at every
/// call.
pub proof fn lemma_run_until_dry<S: DelaySequence>(states: Seq<S>, delays: Seq<Option<Duration>>)
    requires
        is_run(states, delays),
    ensures
        forall|i: int|
            0 <= i < delays.len() ==> (#[trigger] delays[i] is Some
                <==> match states[0].remaining() {
                None => true,
                Some(n) => i < n,
            }),
{
    assert forall|i: int| 0 <= i < delays.len() implies (#[trigger] delays[i] is Some
        <==> match states[0].remaining() {
        None => true,
        Some(n) => i < n,
    }) by {
        lemma_run_counts_down(states, delays, i);
        states[i].lemma_remaining(delays[i], &states[i + 1]);
    }
}

/// Cut off after `limit` delays, a sequence that never ends hands out a delay at each of
/// the first `limit` calls and `None` at every call after them. Where the sequence inside
/// has fewer than `limit` delays left, it is those that come out.
pub proof fn lemma_bounded_run<S: DelaySequence>(
    inner: S,
    limit: usize,
    states: Seq<Bounded<S>>,
    delays: Seq<Option<Duration>>,
)
    requires
        is_run(states, delays),
        states[0] == Bounded::spec_new(inner, limit),
    ensures
        inner.remaining() is None ==> forall|i: int|
            0 <= i < delays.len() ==> (#[trigger] delays[i] is Some <==> i < limit),
        forall|i: int|
            0 <= i < delays.len() ==> (#[trigger] delays[i] is Some <==> i < limit
                && match inner.remaining() {
                None => true,
                Some(n) => i < n,
            }),
{
    Bounded::lemma_spec_new(inner, limit);
    lemma_run_until_dry(states, delays);
}

/// Two runs of the same length from the same state of a deterministic sequence hand out the
/// same delays in the same order, and pass through the same states.
pub proof fn lemma_runs_agree<S: Deterministic>(
    states: Seq<S>,
    delays: Seq<Option<Duration>>,
    other_states: Seq<S>,
    other_delays: Seq<Option<Duration>>,
)
    requires
        is_run(states, delays),
        is_run(other_states, other_delays),
        states[0] == other_states[0],
        delays.len() == other_delays.len(),
    ensures
        delays == other_delays,
        states == other_states,
{
    assert forall|i: int| 0 <= i < delays.len() implies delays[i] == other_delays[i] by {
        lemma_runs_agree_at(states, delays, other_states, other_delays, i + 1);
    }
    assert forall|i: int| 0 <= i < states.len() implies states[i] == other_states[i] by {
        lemma_runs_agree_at(states, delays, other_states, other_delays, i);
    }
    assert(delays =~= other_delays);
    assert(states =~= other_states);
}

/// The two runs agree on their states up to the one after `calls` calls, and on the last
/// delay before it.
proof fn lemma_runs_agree_at<S: Deterministic>(
    states: Seq<S>,
    delays: Seq<Option<Duration>>,
    other_states: Seq<S>,
    other_delays: Seq<Option<Duration>>,
    calls: int,
)
    requires
        is_run(states, delays),
        is_run(other_states, other_delays),
        states[0] == other_states[0],
        delays.len() == other_delays.len(),
        0 <= calls <= delays.len(),
    ensures
        states[calls] == other_states[calls],
        calls > 0 ==> delays[calls - 1] == other_delays[calls - 1],
    decreases calls,
{
    if calls > 0 {
        let before = calls - 1;
        lemma_runs_agree_at(states, delays, other_states, other_delays, before);
        states[before].lemma_deterministic(
            delays[before],
            &states[before + 1],
            other_delays[before],
            &other_states[before + 1],
        );
    }
}

/// After `calls` calls of a run, an exponential sequence has as its front what was `calls`
/// places behind the front at the start.
proof fn lemma_exponential_shifts(
    states: Seq<Exponential>,
    delays: Seq<Option<Duration>>,
    calls: int,
)
    requires
        is_run(states, delays),
        0 <= calls <= delays.len(),
    ensures
        forall|n: nat| #[trigger] states[calls].nth(n) == states[0].nth(n + calls as nat),
    decreases calls,
{
    if calls > 0 {
        let before = calls - 1;
        lemma_exponential_shifts(states, delays, before);
        states[before].lemma_yields(delays[before], &states[before + 1]);
        assert forall|n: nat| #[trigger]
            states[calls].nth(n) == states[0].nth(n + calls as nat) by {
            assert(states[calls].nth(n) == states[before].nth(n + 1));
        }
    }
}

/// The delays of a new exponential sequence are the powers of its base, in milliseconds:
/// the base itself at the first call, its square at the second, and so on, with
/// `u64::MAX` in place of every power that is larger.
pub proof fn lemma_exponential_run(
    base: u64,
    states: Seq<Exponential>,
    delays: Seq<Option<Duration>>,
)
    requires
        is_run(states, delays),
        states[0] == Exponential::spec_from_millis(base),
    ensures
        forall|i: int|
            0 <= i < delays.len() ==> #[trigger] delays[i] == Some(
                Duration::spec_from_millis(saturate(pow(base as int, (i + 1) as nat))),
            ),
{
    assert forall|i: int| 0 <= i < delays.len() implies #[trigger] delays[i] == Some(
        Duration::spec_from_millis(saturate(pow(base as int, (i + 1) as nat))),
    ) by {
        lemma_exponential_shifts(states, delays, i);
        states[i].lemma_yields(delays[i], &states[i + 1]);
        assert(states[i].nth(0) == states[0].nth(i as nat));
        Exponential::lemma_powers(base, i as nat);
    }
}

/// Once a power of the base no longer fits, no later one does: a new exponential sequence
/// that has handed out `u64::MAX` milliseconds goes on doing so.
pub proof fn lemma_exponential_stays_saturated(base: u64, n: nat, later: nat)
    requires
        n <= later,
        saturate(pow(base as int, n + 1)) == u64::MAX,
    ensures
        saturate(pow(base as int, later + 1)) == u64::MAX,
{
    if base == 0 {
        lemma0_pow(n + 1);
    } else {
        lemma_pow_increases(base as nat, n + 1, later + 1);
    }
}

/// After `calls` calls of a run, a Fibonacci sequence has as its front what was `calls`
/// places behind the front at the start.
proof fn lemma_fibonacci_shifts(
    states: Seq<Fibonacci>,
    delays: Seq<Option<Duration>>,
    calls: int,
)
    requires
        is_run(states, delays),
        0 <= calls <= delays.len(),
    ensures
        forall|n: nat| #[trigger] states[calls].nth(n) == states[0].nth(n + calls as nat),
    decreases calls,
{
    if calls > 0 {
        let before = calls - 1;
        lemma_fibonacci_shifts(states, delays, before);
        states[before].lemma_yields(delays[before], &states[before + 1]);
        assert forall|n: nat| #[trigger]
            states[calls].nth(n) == states[0].nth(n + calls as nat) by {
            assert(states[calls].nth(n) == states[before].nth(n + 1));
        }
    }
}

/// The delays of a new Fibonacci sequence are its seed times the Fibonacci numbers from the
/// first on, in milliseconds: the seed, the seed, twice the seed, three times, five times,
/// and so on, with `u64::MAX` in place of every product that is larger.
pub proof fn lemma_fibonacci_run(
    millis: u64,
    states: Seq<Fibonacci>,
    delays: Seq<Option<Duration>>,
)
    requires
        is_run(states, delays),
        states[0] == Fibonacci::spec_from_millis(millis),
    ensures
        forall|i: int|
            0 <= i < delays.len() ==> #[trigger] delays[i] == Some(
                Duration::spec_from_millis(saturate(millis * fib((i + 1) as nat))),
            ),
{
    assert forall|i: int| 0 <= i < delays.len() implies #[trigger] delays[i] == Some(
        Duration::spec_from_millis(saturate(millis * fib((i + 1) as nat))),
    ) by {
        lemma_fibonacci_shifts(states, delays, i);
        states[i].lemma_yields(delays[i], &states[i + 1]);
        assert(states[i].nth(0) == states[0].nth(i as nat));
        Fibonacci::lemma_multiples(millis, i as nat);
    }
}

/// The Fibonacci numbers never fall.
pub proof fn lemma_fib_increases(n: nat, later: nat)
    requires
        n <= later,
    ensures
        fib(n) <= fib(later),
    decreases later,
{
    if n < later {
        lemma_fib_increases(n, (later - 1) as nat);
        if later >= 2 {
            assert(fib(later) == fib((later - 1) as nat) + fib((later - 2) as nat));
        }
    }
}

/// Once a multiple of the seed no longer fits, no later one does: a new Fibonacci sequence
/// that has handed out `u64::MAX` milliseconds goes on doing so.
pub proof fn lemma_fibonacci_stays_saturated(millis: u64, n: nat, later: nat)
    requires
        n <= later,
        saturate(millis * fib(n + 1)) == u64::MAX,
    ensures
        saturate(millis * fib(later + 1)) == u64::MAX,
{
    lemma_fib_increases(n + 1, later + 1);
    assert(millis * fib(n + 1) <= millis * fib(later + 1)) by (nonlinear_arith)
        requires
            fib(n + 1) <= fib(later + 1),
            millis >= 0,
    ;
}

/// `delay` is a whole number of milliseconds, at least `low` and at most `high`.
pub open spec fn is_between(delay: Option<Duration>, low: u64, high: u64) -> bool {
    exists|millis: u64|
        low <= millis <= high && delay == Some(#[trigger] Duration::spec_from_millis(millis))
}

/// A range keeps its bounds over a run.
proof fn lemma_range_stays(states: Seq<Range>, delays: Seq<Option<Duration>>, calls: int)
    requires
        is_run(states, delays),
        0 <= calls <= delays.len(),
    ensures
        states[calls] == states[0],
    decreases calls,
{
    if calls > 0 {
        lemma_range_stays(states, delays, calls - 1);
        assert(states[calls - 1].yields(delays[calls - 1], &states[calls]));
    }
}

/// Every delay of a range that excludes its maximum is at least the minimum and less than
/// the maximum; every delay of a range that includes its maximum is at least the minimum
/// and at most the maximum.
pub proof fn lemma_range_run(
    minimum: u64,
    maximum: u64,
    states: Seq<Range>,
    delays: Seq<Option<Duration>>,
)
    requires
        is_run(states, delays),
        minimum < maximum,
    ensures
        states[0] == Range::spec_exclusive(minimum, maximum) ==> forall|i: int|
            0 <= i < delays.len() ==> is_between(
                #[trigger] delays[i],
                minimum,
                (maximum - 1) as u64,
            ),
        states[0] == Range::spec_inclusive(minimum, maximum) ==> forall|i: int|
            0 <= i < delays.len() ==> is_between(#[trigger] delays[i], minimum, maximum),
{
    assert forall|i: int| 0 <= i < delays.len() implies (states[0] == Range::spec_exclusive(
        minimum,
        maximum,
    ) ==> is_between(#[trigger] delays[i], minimum, (maximum - 1) as u64)) && (states[0]
        == Range::spec_inclusive(minimum, maximum) ==> is_between(
        delays[i],
        minimum,
        maximum,
    )) by {
        lemma_range_stays(states, delays, i);
        assert(states[i].yields(delays[i], &states[i + 1]));
        let millis = choose|millis: u64| #[trigger]
            states[i].covers(millis) && delays[i] == Some(Duration::spec_from_millis(millis));
        Range::lemma_covers(minimum, maximum, millis);
    }
}

} // verus!

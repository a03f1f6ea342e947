//! Delay sequences: how long to wait before each further attempt.

use vstd::prelude::*;
use vstd::arithmetic::power::{lemma_pow_positive, pow};
use crate::duration::Duration;
use crate::random;

verus! {

/// What is left of a sequence once one more delay has been asked of it.
///
/// `None` stands for a sequence that never ends, `Some(n)` for one that has `n` delays left.
pub open spec fn one_fewer(remaining: Option<nat>) -> Option<nat> {
    match remaining {
        None => None,
        Some(n) => if n == 0 {
            Some(0nat)
        } else {
            Some((n - 1) as nat)
        },
    }
}

/// A lazy sequence of delays, handed out one at a time.
///
/// A sequence cannot be rewound: to start over, make a new one.
pub trait DelaySequence: Sized {
    /// Asking `self` for its next delay may return `delay` and leave the sequence as `rest`.
    spec fn yields(&self, delay: Option<Duration>, rest: &Self) -> bool;

    /// The number of delays that the sequence still has, `None` if it never ends.
    spec fn remaining(&self) -> Option<nat>;

    /// A sequence runs dry exactly when nothing remains, and each call uses up one delay.
    proof fn lemma_remaining(&self, delay: Option<Duration>, rest: &Self)
        requires
            self.yields(delay, rest),
        ensures
            delay is None <==> self.remaining() == Some(0nat),
            rest.remaining() == one_fewer(self.remaining()),
    ;

    /// Hands out the next delay, or `None` once the sequence has run dry.
    fn next(&mut self) -> (delay: Option<Duration>)
        ensures
            old(self).yields(delay, final(self)),
    ;

    /// Cuts the sequence off after `limit` delays.
    fn take(self, limit: usize) -> (bounded: Bounded<Self>)
        ensures
            bounded == Bounded::spec_new(self, limit),
            bounded.inner() == self,
            bounded.left() == limit,
    {
        Bounded::new(self, limit)
    }

    /// Passes each delay of the sequence through `transform`, which must accept any delay.
    fn map<F: Fn(Duration) -> Duration>(self, transform: F) -> (mapped: Mapped<Self, F>)
        requires
            forall|delay: Duration| call_requires(transform, (delay,)),
        ensures
            mapped == Mapped::spec_new(self, transform),
            mapped.inner() == self,
            mapped.transform() == transform,
    {
        Mapped::new(self, transform)
    }
}

/// A delay sequence whose state alone decides what comes out of it: made twice in the same
/// way, it hands out the same delays twice.
pub trait Deterministic: DelaySequence {
    /// There is one possible next delay and one possible rest.
    proof fn lemma_deterministic(
        &self,
        delay: Option<Duration>,
        rest: &Self,
        other_delay: Option<Duration>,
        other_rest: &Self,
    )
        requires
            self.yields(delay, rest),
            self.yields(other_delay, other_rest),
        ensures
            delay == other_delay,
            rest == other_rest,
    ;
}

/// `value` as a count of milliseconds that fits 64 bits: `u64::MAX` stands for all that is
/// larger.
pub open spec fn saturate(value: int) -> u64 {
    if value >= u64::MAX {
        u64::MAX
    } else if value <= 0 {
        0
    } else {
        value as u64
    }
}

/// The whole milliseconds in `duration` as a 64-bit count, which keeps the low 64 bits of
/// a larger one.
pub open spec fn spec_millis_of(duration: Duration) -> u64 {
    (Duration::whole_millis(duration@) % 0x1_0000_0000_0000_0000) as u64
}

/// The whole milliseconds in `duration` as a 64-bit count, which keeps the low 64 bits of
/// a larger one.
pub fn millis_of(duration: Duration) -> (millis: u64)
    ensures
        millis == spec_millis_of(duration),
{
    let whole: u128 = duration.as_millis();
    assert(whole as u64 == whole % 0x1_0000_0000_0000_0000) by (bit_vector);
    #[verifier::truncate]
    (whole as u64)
}

/// Each retry increases the delay since the last exponentially.
#[derive(Debug)]
pub struct Exponential {
    base: u64,
    current: u64,
}

impl Exponential {
    /// The sequence that [`Exponential::from_millis`] makes of `base`.
    pub closed spec fn spec_from_millis(base: u64) -> Exponential {
        Exponential { base, current: base }
    }

    /// The delay in milliseconds that comes out after `n` others have.
    pub closed spec fn nth(&self, n: nat) -> u64 {
        saturate(self.current * pow(self.base as int, n))
    }

    /// A new sequence starts with `base` and multiplies by `base` from one delay to the
    /// next, until the product no longer fits and `u64::MAX` takes its place.
    pub proof fn lemma_powers(base: u64, n: nat)
        ensures
            Exponential::spec_from_millis(base).nth(n) == saturate(pow(base as int, n + 1)),
    {
        reveal(pow);
    }

    /// What [`DelaySequence::yields`] means for this type: the delay at the front comes
    /// out, and the rest is the same sequence without it.
    pub proof fn lemma_yields(&self, delay: Option<Duration>, rest: &Self)
        requires
            self.yields(delay, rest),
        ensures
            delay == Some(Duration::spec_from_millis(self.nth(0))),
            forall|n: nat| #[trigger] rest.nth(n) == self.nth(n + 1),
    {
        reveal(pow);
        assert forall|n: nat| #[trigger] rest.nth(n) == self.nth(n + 1) by {
            let base = self.base as int;
            let current = self.current as int;
            let tail = pow(base, n);
            assert(pow(base, n + 1) == base * tail);
            assert(current * (base * tail) == (current * base) * tail) by (nonlinear_arith);
            if current * base > u64::MAX {
                assert(base > 0 && current > 0) by (nonlinear_arith)
                    requires
                        current * base > u64::MAX,
                        base >= 0,
                        current >= 0,
                ;
                lemma_pow_positive(base, n);
                assert((current * base) * tail > u64::MAX && u64::MAX * tail >= u64::MAX)
                    by (nonlinear_arith)
                    requires
                        current * base > u64::MAX,
                        tail >= 1,
                ;
            }
        }
    }

    /// Create a new `Exponential` using the given millisecond duration as the initial delay.
    pub fn from_millis(base: u64) -> (r: Exponential)
        ensures
            r == Exponential::spec_from_millis(base),
            forall|n: nat| #[trigger] r.nth(n) == saturate(pow(base as int, n + 1)),
    {
        proof {
            assert forall|n: nat| #[trigger]
                Exponential::spec_from_millis(base).nth(n) == saturate(
                    pow(base as int, n + 1),
                ) by {
                Exponential::lemma_powers(base, n);
            }
        }
        Exponential { base, current: base }
    }
}

impl From<Duration> for Exponential {
    /// A new sequence with the whole milliseconds of `duration` as its base.
    fn from(duration: Duration) -> (r: Exponential) {
        Exponential::from_millis(millis_of(duration))
    }
}

impl vstd::std_specs::convert::FromSpecImpl<Duration> for Exponential {
    open spec fn obeys_from_spec() -> bool {
        true
    }

    open spec fn from_spec(duration: Duration) -> Exponential {
        Exponential::spec_from_millis(spec_millis_of(duration))
    }
}

impl DelaySequence for Exponential {
    closed spec fn yields(&self, delay: Option<Duration>, rest: &Self) -> bool {
        &&& delay == Some(Duration::spec_from_millis(self.current))
        &&& rest.base == self.base
        &&& rest.current == saturate(self.current * self.base)
    }

    open spec fn remaining(&self) -> Option<nat> {
        None
    }

    proof fn lemma_remaining(&self, delay: Option<Duration>, rest: &Self) {
    }

    fn next(&mut self) -> (delay: Option<Duration>)
        ensures
            delay == Some(Duration::spec_from_millis(old(self).nth(0))),
            forall|n: nat| #[trigger] final(self).nth(n) == old(self).nth(n + 1),
    {
        let ghost before = *self;
        let duration = Duration::from_millis(self.current);
        if let Some(next) = self.current.checked_mul(self.base) {
            self.current = next;
        } else {
            self.current = u64::MAX;
        }
        proof {
            before.lemma_yields(Some(duration), &*self);
        }
        Some(duration)
    }
}

impl Deterministic for Exponential {
    proof fn lemma_deterministic(
        &self,
        delay: Option<Duration>,
        rest: &Self,
        other_delay: Option<Duration>,
        other_rest: &Self,
    ) {
    }
}

/// The Fibonacci numbers: 0, 1, 1, 2, 3, 5, 8, and so on.
pub open spec fn fib(n: nat) -> nat
    decreases n,
{
    if n < 2 {
        n
    } else {
        fib((n - 1) as nat) + fib((n - 2) as nat)
    }
}

/// The sequence in which each number is the sum of the two before it, begun with `first`
/// and `second`: its number at place `n`, counted from zero.
pub open spec fn sums(first: int, second: int, n: nat) -> int
    decreases n,
{
    if n == 0 {
        first
    } else {
        sums(second, first + second, (n - 1) as nat)
    }
}

/// Begun with two neighbours of the Fibonacci numbers, each `seed` times over, `sums` goes
/// on through the Fibonacci numbers, each `seed` times over.
proof fn lemma_sums_of_fib(seed: int, k: nat, n: nat)
    ensures
        sums(seed * fib(k), seed * fib(k + 1), n) == seed * fib(n + k),
    decreases n,
{
    if n > 0 {
        assert(seed * fib(k) + seed * fib(k + 1) == seed * fib(k + 2)) by (nonlinear_arith)
            requires
                fib(k + 2) == fib(k) + fib(k + 1),
        ;
        lemma_sums_of_fib(seed, k + 1, (n - 1) as nat);
    }
}

/// Cutting the two first numbers down to 64 bits changes nothing in what `sums` gives once
/// that is cut down too.
proof fn lemma_sums_saturate(first: int, second: int, n: nat)
    requires
        0 <= first,
        0 <= second,
    ensures
        saturate(sums(first, second, n)) == saturate(
            sums(saturate(first) as int, saturate(second) as int, n),
        ),
    decreases n,
{
    if n > 0 {
        let m = (n - 1) as nat;
        lemma_sums_saturate(second, first + second, m);
        lemma_sums_saturate(saturate(second) as int, saturate(first) + saturate(second), m);
    }
}

/// Each retry uses a delay which is the sum of the two previous delays.
///
/// Depending on the problem at hand, a fibonacci delay strategy might perform better and
/// lead to better throughput than the `Exponential` strategy.
#[derive(Debug)]
pub struct Fibonacci {
    curr: u64,
    next: u64,
}

impl Fibonacci {
    /// The sequence that [`Fibonacci::from_millis`] makes of `millis`.
    pub closed spec fn spec_from_millis(millis: u64) -> Fibonacci {
        Fibonacci { curr: millis, next: millis }
    }

    /// The delay in milliseconds that comes out after `n` others have.
    pub closed spec fn nth(&self, n: nat) -> u64 {
        saturate(sums(self.curr as int, self.next as int, n))
    }

    /// A new sequence hands out `millis` times the Fibonacci numbers from the first on:
    /// once, once, twice, three times, five times, and so on, until the product no longer
    /// fits and `u64::MAX` takes its place.
    pub proof fn lemma_multiples(millis: u64, n: nat)
        ensures
            Fibonacci::spec_from_millis(millis).nth(n) == saturate(millis * fib(n + 1)),
    {
        assert(fib(1) == 1 && fib(2) == 1) by {
            reveal_with_fuel(fib, 3);
        }
        assert(millis * fib(1) == millis && millis * fib(2) == millis) by (nonlinear_arith)
            requires
                fib(1) == 1,
                fib(2) == 1,
        ;
        lemma_sums_of_fib(millis as int, 1, n);
    }

    /// What [`DelaySequence::yields`] means for this type: the delay at the front comes
    /// out, and the rest is the same sequence without it.
    pub proof fn lemma_yields(&self, delay: Option<Duration>, rest: &Self)
        requires
            self.yields(delay, rest),
        ensures
            delay == Some(Duration::spec_from_millis(self.nth(0))),
            forall|n: nat| #[trigger] rest.nth(n) == self.nth(n + 1),
    {
        assert forall|n: nat| #[trigger] rest.nth(n) == self.nth(n + 1) by {
            lemma_sums_saturate(self.next as int, self.curr + self.next, n);
        }
    }

    /// Create a new `Fibonacci` using the given duration in milliseconds.
    pub fn from_millis(millis: u64) -> (r: Fibonacci)
        ensures
            r == Fibonacci::spec_from_millis(millis),
            forall|n: nat| #[trigger] r.nth(n) == saturate(millis * fib(n + 1)),
    {
        proof {
            assert forall|n: nat| #[trigger]
                Fibonacci::spec_from_millis(millis).nth(n) == saturate(millis * fib(n + 1)) by {
                Fibonacci::lemma_multiples(millis, n);
            }
        }
        Fibonacci { curr: millis, next: millis }
    }
}

impl From<Duration> for Fibonacci {
    /// A new sequence with the whole milliseconds of `duration` as its seed.
    fn from(duration: Duration) -> (r: Fibonacci) {
        Fibonacci::from_millis(millis_of(duration))
    }
}

impl vstd::std_specs::convert::FromSpecImpl<Duration> for Fibonacci {
    open spec fn obeys_from_spec() -> bool {
        true
    }

    open spec fn from_spec(duration: Duration) -> Fibonacci {
        Fibonacci::spec_from_millis(spec_millis_of(duration))
    }
}

impl DelaySequence for Fibonacci {
    closed spec fn yields(&self, delay: Option<Duration>, rest: &Self) -> bool {
        &&& delay == Some(Duration::spec_from_millis(self.curr))
        &&& rest.curr == self.next
        &&& rest.next == saturate(self.curr + self.next)
    }

    open spec fn remaining(&self) -> Option<nat> {
        None
    }

    proof fn lemma_remaining(&self, delay: Option<Duration>, rest: &Self) {
    }

    fn next(&mut self) -> (delay: Option<Duration>)
        ensures
            delay == Some(Duration::spec_from_millis(old(self).nth(0))),
            forall|n: nat| #[trigger] final(self).nth(n) == old(self).nth(n + 1),
    {
        let ghost before = *self;
        let duration = Duration::from_millis(self.curr);
        if let Some(next_next) = self.curr.checked_add(self.next) {
            self.curr = self.next;
            self.next = next_next;
        } else {
            self.curr = self.next;
            self.next = u64::MAX;
        }
        proof {
            before.lemma_yields(Some(duration), &*self);
        }
        Some(duration)
    }
}

impl Deterministic for Fibonacci {
    proof fn lemma_deterministic(
        &self,
        delay: Option<Duration>,
        rest: &Self,
        other_delay: Option<Duration>,
        other_rest: &Self,
    ) {
    }
}

/// Each retry uses a fixed delay.
#[derive(Debug)]
pub struct Fixed {
    duration: Duration,
}

impl Fixed {
    /// The sequence that hands out `duration` every time.
    pub closed spec fn spec_from(duration: Duration) -> Fixed {
        Fixed { duration }
    }

    /// The delay that the sequence hands out every time.
    pub closed spec fn delay(&self) -> Duration {
        self.duration
    }

    /// Create a new `Fixed` using the given duration in milliseconds.
    pub fn from_millis(millis: u64) -> (r: Fixed)
        ensures
            r == Fixed::spec_from(Duration::spec_from_millis(millis)),
            r.delay() == Duration::spec_from_millis(millis),
    {
        Fixed { duration: Duration::from_millis(millis) }
    }
}

impl From<Duration> for Fixed {
    /// The sequence that hands out `delay` every time.
    fn from(delay: Duration) -> (r: Fixed) {
        Fixed { duration: delay }
    }
}

impl vstd::std_specs::convert::FromSpecImpl<Duration> for Fixed {
    open spec fn obeys_from_spec() -> bool {
        true
    }

    open spec fn from_spec(delay: Duration) -> Fixed {
        Fixed::spec_from(delay)
    }
}

impl DelaySequence for Fixed {
    open spec fn yields(&self, delay: Option<Duration>, rest: &Self) -> bool {
        &&& delay == Some(self.delay())
        &&& *rest == *self
    }

    open spec fn remaining(&self) -> Option<nat> {
        None
    }

    proof fn lemma_remaining(&self, delay: Option<Duration>, rest: &Self) {
    }

    fn next(&mut self) -> (delay: Option<Duration>) {
        Some(self.duration)
    }
}

impl Deterministic for Fixed {
    proof fn lemma_deterministic(
        &self,
        delay: Option<Duration>,
        rest: &Self,
        other_delay: Option<Duration>,
        other_rest: &Self,
    ) {
    }
}

/// Each retry happens immediately without any delay.
#[derive(Clone, Copy, Debug, PartialEq, Eq)]
pub struct NoDelay;

impl DelaySequence for NoDelay {
    open spec fn yields(&self, delay: Option<Duration>, rest: &Self) -> bool {
        delay == Some(Duration::spec_from_millis(0))
    }

    open spec fn remaining(&self) -> Option<nat> {
        None
    }

    proof fn lemma_remaining(&self, delay: Option<Duration>, rest: &Self) {
    }

    fn next(&mut self) -> (delay: Option<Duration>) {
        Some(Duration::default())
    }
}

impl Deterministic for NoDelay {
    proof fn lemma_deterministic(
        &self,
        delay: Option<Duration>,
        rest: &Self,
        other_delay: Option<Duration>,
        other_rest: &Self,
    ) {
    }
}

/// Each retry uses a duration randomly chosen from a range.
#[derive(Debug)]
pub struct Range {
    minimum: u64,
    maximum: u64,
    inclusive: bool,
}

impl Range {
    #[verifier::type_invariant]
    spec fn not_empty(self) -> bool {
        self.minimum < self.maximum
    }

    /// The sequence that [`Range::from_millis_exclusive`] makes of these bounds.
    pub closed spec fn spec_exclusive(minimum: u64, maximum: u64) -> Range {
        Range { minimum, maximum, inclusive: false }
    }

    /// The sequence that [`Range::from_millis_inclusive`] makes of these bounds.
    pub closed spec fn spec_inclusive(minimum: u64, maximum: u64) -> Range {
        Range { minimum, maximum, inclusive: true }
    }

    /// Whether a delay of `millis` milliseconds lies in the range.
    pub closed spec fn covers(&self, millis: u64) -> bool {
        &&& self.minimum <= millis
        &&& millis < self.maximum || (self.inclusive && millis == self.maximum)
    }

    /// Create a new `Range` between the given millisecond durations, excluding the maximum
    /// value.
    pub fn from_millis_exclusive(minimum: u64, maximum: u64) -> (r: Range)
        requires
            minimum < maximum,
        ensures
            r == Range::spec_exclusive(minimum, maximum),
            forall|millis: u64| #[trigger] r.covers(millis) <==> minimum <= millis < maximum,
    {
        Range { minimum, maximum, inclusive: false }
    }

    /// Create a new `Range` between the given millisecond durations, including the maximum
    /// value.
    pub fn from_millis_inclusive(minimum: u64, maximum: u64) -> (r: Range)
        requires
            minimum < maximum,
        ensures
            r == Range::spec_inclusive(minimum, maximum),
            forall|millis: u64| #[trigger] r.covers(millis) <==> minimum <= millis <= maximum,
    {
        Range { minimum, maximum, inclusive: true }
    }

    /// [`Range::from_millis_exclusive`] for bounds of which nothing is known: `None` if
    /// the minimum is greater than or equal to the maximum.
    pub fn try_from_millis_exclusive(minimum: u64, maximum: u64) -> (r: Option<Range>)
        ensures
            minimum < maximum ==> r == Some(Range::spec_exclusive(minimum, maximum)),
            minimum >= maximum ==> r is None,
    {
        if minimum < maximum {
            Some(Range::from_millis_exclusive(minimum, maximum))
        } else {
            None
        }
    }

    /// [`Range::from_millis_inclusive`] for bounds of which nothing is known: `None` if
    /// the minimum is greater than or equal to the maximum.
    pub fn try_from_millis_inclusive(minimum: u64, maximum: u64) -> (r: Option<Range>)
        ensures
            minimum < maximum ==> r == Some(Range::spec_inclusive(minimum, maximum)),
            minimum >= maximum ==> r is None,
    {
        if minimum < maximum {
            Some(Range::from_millis_inclusive(minimum, maximum))
        } else {
            None
        }
    }

    /// The delays that lie in a range made of these bounds, either way.
    pub proof fn lemma_covers(minimum: u64, maximum: u64, millis: u64)
        ensures
            Range::spec_exclusive(minimum, maximum).covers(millis) <==> minimum <= millis
                < maximum,
            Range::spec_inclusive(minimum, maximum).covers(millis) <==> minimum <= millis
                <= maximum,
    {
    }
}

/// `RangeInclusive::start` returns the lower bound of the range, as long as nothing has
/// iterated the range to its end.
pub assume_specification<Idx>[ std::ops::RangeInclusive::<Idx>::start ](
    range: &std::ops::RangeInclusive<Idx>,
) -> (bound: &Idx)
    ensures
        !range@.exhausted ==> *bound == range@.start,
;

/// `RangeInclusive::end` returns the upper bound of the range, as long as nothing has
/// iterated the range to its end.
pub assume_specification<Idx>[ std::ops::RangeInclusive::<Idx>::end ](
    range: &std::ops::RangeInclusive<Idx>,
) -> (bound: &Idx)
    ensures
        !range@.exhausted ==> *bound == range@.end,
;

impl Range {
    /// Create a new `Range` between the whole milliseconds of two durations, excluding the
    /// maximum value.
    pub fn from_range(range: std::ops::Range<Duration>) -> (r: Range)
        requires
            spec_millis_of(range.start) < spec_millis_of(range.end),
        ensures
            r == Range::spec_exclusive(spec_millis_of(range.start), spec_millis_of(range.end)),
    {
        Range::from_millis_exclusive(millis_of(range.start), millis_of(range.end))
    }

    /// Create a new `Range` between the whole milliseconds of two durations, including the
    /// maximum value.
    pub fn from_range_inclusive(range: std::ops::RangeInclusive<Duration>) -> (r: Range)
        requires
            !range@.exhausted,
            spec_millis_of(range@.start) < spec_millis_of(range@.end),
        ensures
            r == Range::spec_inclusive(
                spec_millis_of(range@.start),
                spec_millis_of(range@.end),
            ),
    {
        Range::from_millis_inclusive(millis_of(*range.start()), millis_of(*range.end()))
    }
}

impl DelaySequence for Range {
    open spec fn yields(&self, delay: Option<Duration>, rest: &Self) -> bool {
        &&& exists|millis: u64| #[trigger]
            self.covers(millis) && delay == Some(Duration::spec_from_millis(millis))
        &&& *rest == *self
    }

    open spec fn remaining(&self) -> Option<nat> {
        None
    }

    proof fn lemma_remaining(&self, delay: Option<Duration>, rest: &Self) {
    }

    fn next(&mut self) -> (delay: Option<Duration>) {
        proof {
            use_type_invariant(&*self);
        }
        let millis = if self.inclusive {
            random::up_to(self.minimum, self.maximum)
        } else {
            random::below(self.minimum, self.maximum)
        };
        assert(self.covers(millis));
        Some(Duration::from_millis(millis))
    }
}

/// A sequence cut short: it hands out what another sequence does, but a limited number of
/// delays at most.
#[derive(Debug)]
pub struct Bounded<S> {
    inner: S,
    left: usize,
}

/// The number of delays left in a sequence that is cut off after `limit` of them.
pub open spec fn capped(remaining: Option<nat>, limit: nat) -> Option<nat> {
    match remaining {
        None => Some(limit),
        Some(n) => if n < limit {
            Some(n)
        } else {
            Some(limit)
        },
    }
}

impl<S> Bounded<S> {
    /// The sequence that [`Bounded::new`] makes of `inner` and `limit`.
    pub closed spec fn spec_new(inner: S, limit: usize) -> Bounded<S> {
        Bounded { inner, left: limit }
    }

    /// The sequence that the delays come from.
    pub closed spec fn inner(&self) -> S {
        self.inner
    }

    /// The number of delays that may still be taken from the inner sequence.
    pub closed spec fn left(&self) -> nat {
        self.left as nat
    }

    /// What [`Bounded::spec_new`] keeps of its arguments.
    pub proof fn lemma_spec_new(inner: S, limit: usize)
        ensures
            Bounded::spec_new(inner, limit).inner() == inner,
            Bounded::spec_new(inner, limit).left() == limit,
    {
    }

    /// Cuts `inner` off after `limit` delays.
    pub fn new(inner: S, limit: usize) -> (r: Bounded<S>)
        ensures
            r == Bounded::spec_new(inner, limit),
            r.inner() == inner,
            r.left() == limit,
    {
        Bounded { inner, left: limit }
    }
}

impl<S: DelaySequence> DelaySequence for Bounded<S> {
    open spec fn yields(&self, delay: Option<Duration>, rest: &Self) -> bool {
        if self.left() == 0 {
            delay is None && *rest == *self
        } else {
            self.inner().yields(delay, &rest.inner()) && rest.left() == self.left() - 1
        }
    }

    open spec fn remaining(&self) -> Option<nat> {
        capped(self.inner().remaining(), self.left())
    }

    proof fn lemma_remaining(&self, delay: Option<Duration>, rest: &Self) {
        if self.left() > 0 {
            self.inner().lemma_remaining(delay, &rest.inner());
        }
    }

    fn next(&mut self) -> (delay: Option<Duration>) {
        if self.left != 0 {
            self.left = self.left - 1;
            self.inner.next()
        } else {
            None
        }
    }
}

impl<S: Deterministic> Deterministic for Bounded<S> {
    proof fn lemma_deterministic(
        &self,
        delay: Option<Duration>,
        rest: &Self,
        other_delay: Option<Duration>,
        other_rest: &Self,
    ) {
        if self.left() > 0 {
            self.inner().lemma_deterministic(
                delay,
                &rest.inner(),
                other_delay,
                &other_rest.inner(),
            );
        }
    }
}

/// A function from delays to delays that accepts any delay.
struct Transform<F: Fn(Duration) -> Duration> {
    function: F,
}

impl<F: Fn(Duration) -> Duration> Transform<F> {
    #[verifier::type_invariant]
    spec fn accepts_any_delay(self) -> bool {
        forall|delay: Duration| call_requires(self.function, (delay,))
    }

    fn apply(&self, delay: Duration) -> (after: Duration)
        ensures
            call_ensures(self.function, (delay,), after),
    {
        proof {
            use_type_invariant(self);
        }
        (self.function)(delay)
    }
}

/// A sequence whose delays are those of another sequence, each passed through a function:
/// a jitter, for one.
pub struct Mapped<S, F: Fn(Duration) -> Duration> {
    inner: S,
    transform: Transform<F>,
}

impl<S, F: Fn(Duration) -> Duration> Mapped<S, F> {
    /// The sequence that [`Mapped::new`] makes of `inner` and `transform`.
    pub closed spec fn spec_new(inner: S, transform: F) -> Mapped<S, F> {
        Mapped { inner, transform: Transform { function: transform } }
    }

    /// The sequence that the delays come from.
    pub closed spec fn inner(&self) -> S {
        self.inner
    }

    /// The function that each delay is passed through.
    pub closed spec fn transform(&self) -> F {
        self.transform.function
    }

    /// What [`Mapped::spec_new`] keeps of its arguments.
    pub proof fn lemma_spec_new(inner: S, transform: F)
        ensures
            Mapped::spec_new(inner, transform).inner() == inner,
            Mapped::spec_new(inner, transform).transform() == transform,
    {
    }

    /// Passes each delay of `inner` through `transform`, which must accept any delay.
    pub fn new(inner: S, transform: F) -> (r: Mapped<S, F>)
        requires
            forall|delay: Duration| call_requires(transform, (delay,)),
        ensures
            r == Mapped::spec_new(inner, transform),
            r.inner() == inner,
            r.transform() == transform,
    {
        Mapped { inner, transform: Transform { function: transform } }
    }
}

impl<S: DelaySequence, F: Fn(Duration) -> Duration> DelaySequence for Mapped<S, F> {
    open spec fn yields(&self, delay: Option<Duration>, rest: &Self) -> bool {
        &&& rest.transform() == self.transform()
        &&& exists|plain: Option<Duration>| #[trigger]
            self.inner().yields(plain, &rest.inner()) && match plain {
                None => delay is None,
                Some(before) => delay matches Some(after) && call_ensures(
                    self.transform(),
                    (before,),
                    after,
                ),
            }
    }

    open spec fn remaining(&self) -> Option<nat> {
        self.inner().remaining()
    }

    proof fn lemma_remaining(&self, delay: Option<Duration>, rest: &Self) {
        let plain = choose|plain: Option<Duration>| #[trigger]
            self.inner().yields(plain, &rest.inner()) && match plain {
                None => delay is None,
                Some(before) => delay matches Some(after) && call_ensures(
                    self.transform(),
                    (before,),
                    after,
                ),
            };
        self.inner().lemma_remaining(plain, &rest.inner());
    }

    fn next(&mut self) -> (delay: Option<Duration>) {
        let ghost start = *self;
        let plain = self.inner.next();
        let delay = match plain {
            Some(before) => Some(self.transform.apply(before)),
            None => None,
        };
        assert(start.inner().yields(plain, &self.inner()));
        delay
    }
}

} // verus!

//! A span of time with nanosecond resolution.

use vstd::prelude::*;

verus! {

/// Nanoseconds in one second.
pub const NANOS_PER_SEC: u32 = 1_000_000_000;

/// Nanoseconds in one millisecond.
pub const NANOS_PER_MILLI: u32 = 1_000_000;

/// The longest span a [`Duration`] can hold, in nanoseconds: `u64::MAX` whole seconds and
/// one nanosecond short of another.
pub const MAX_NANOS: u128 = 18_446_744_073_709_551_615_999_999_999;

/// A span of time, counted in nanoseconds and never longer than [`MAX_NANOS`].
///
/// It covers the same range as the standard library's duration, so the two convert into each
/// other through [`Duration::new`], [`Duration::as_secs`] and [`Duration::subsec_nanos`]
/// without loss. Its view is the number of nanoseconds.
#[derive(Clone, Copy, Debug, PartialEq, Eq, Structural, Hash)]
pub struct Duration {
    nanos: u128,
}

impl View for Duration {
    type V = nat;

    closed spec fn view(&self) -> nat {
        self.nanos as nat
    }
}

impl Duration {
    #[verifier::type_invariant]
    spec fn in_range(self) -> bool {
        self.nanos <= MAX_NANOS
    }

    /// The span of `millis` milliseconds, for use in contracts.
    pub closed spec fn spec_from_millis(millis: u64) -> Duration {
        Duration { nanos: (millis * 1_000_000) as u128 }
    }

    /// The number of whole milliseconds in a span of `nanos` nanoseconds.
    pub open spec fn whole_millis(nanos: nat) -> nat {
        nanos / (NANOS_PER_MILLI as nat)
    }

    /// Two spans of the same length are the same value.
    pub proof fn lemma_view_injective(a: Duration, b: Duration)
        requires
            a@ == b@,
        ensures
            a == b,
    {
    }

    /// `spec_from_millis` is a span of exactly that many milliseconds.
    pub proof fn lemma_spec_from_millis(millis: u64)
        ensures
            Duration::spec_from_millis(millis)@ == millis as nat * NANOS_PER_MILLI as nat,
            Duration::whole_millis(Duration::spec_from_millis(millis)@) == millis as nat,
    {
        let nanos = millis * 1_000_000;
        assert(nanos / 1_000_000 == millis);
    }

    /// A span of `secs` seconds and `nanos` nanoseconds; `nanos` may exceed one second.
    pub fn new(secs: u64, nanos: u32) -> (r: Duration)
        requires
            secs as nat * NANOS_PER_SEC as nat + nanos as nat <= MAX_NANOS,
        ensures
            r@ == secs as nat * NANOS_PER_SEC as nat + nanos as nat,
    {
        let whole: u128 = secs as u128 * NANOS_PER_SEC as u128;
        Duration { nanos: whole + nanos as u128 }
    }

    /// A span of `millis` milliseconds.
    pub fn from_millis(millis: u64) -> (r: Duration)
        ensures
            r == Duration::spec_from_millis(millis),
            r@ == millis as nat * NANOS_PER_MILLI as nat,
    {
        proof {
            Duration::lemma_spec_from_millis(millis);
        }
        Duration { nanos: millis as u128 * NANOS_PER_MILLI as u128 }
    }

    /// The whole seconds in this span.
    pub fn as_secs(&self) -> (r: u64)
        ensures
            r as nat == self@ / (NANOS_PER_SEC as nat),
    {
        proof {
            use_type_invariant(self);
        }
        (self.nanos / NANOS_PER_SEC as u128) as u64
    }

    /// What is left of this span beyond its whole seconds, in nanoseconds.
    pub fn subsec_nanos(&self) -> (r: u32)
        ensures
            r as nat == self@ % (NANOS_PER_SEC as nat),
            r < NANOS_PER_SEC,
    {
        (self.nanos % NANOS_PER_SEC as u128) as u32
    }

    /// The whole milliseconds in this span.
    pub fn as_millis(&self) -> (r: u128)
        ensures
            r as nat == Duration::whole_millis(self@),
    {
        self.nanos / NANOS_PER_MILLI as u128
    }

    /// The sum of two spans, or `None` where it would be longer than [`MAX_NANOS`].
    pub fn checked_add(self, rhs: Duration) -> (r: Option<Duration>)
        ensures
            match r {
                Some(sum) => sum@ == self@ + rhs@ && self@ + rhs@ <= MAX_NANOS,
                None => self@ + rhs@ > MAX_NANOS,
            },
    {
        proof {
            use_type_invariant(self);
            use_type_invariant(rhs);
        }
        let total: u128 = self.nanos + rhs.nanos;
        if total <= MAX_NANOS {
            Some(Duration { nanos: total })
        } else {
            None
        }
    }
}

impl Default for Duration {
    /// The empty span.
    fn default() -> (r: Duration)
        ensures
            r@ == 0,
            r == Duration::spec_from_millis(0),
    {
        proof {
            Duration::lemma_spec_from_millis(0);
        }
        Duration { nanos: 0 }
    }
}

} // verus!

//! The rules of a retry run, one decision at a time.
//!
//! A run alternates between attempts of an operation and waits. Both are the caller's to
//! perform; what happens in between is decided here. The caller starts with
//! [`Progress::new`], makes an attempt with the number [`Progress::current_try`], and hands
//! the outcome to [`Progress::settle`]. The answer is either the result of the whole run or
//! a delay; after waiting that long the caller calls [`Progress::resume`] and attempts again.

use vstd::prelude::*;
use crate::delay::DelaySequence;
use crate::duration::{Duration, MAX_NANOS};
use crate::error::Error;
use crate::opresult::OperationResult;

verus! {

/// The length of all the given waits together, in nanoseconds.
pub open spec fn total_nanos(waits: Seq<Duration>) -> nat
    decreases waits.len(),
{
    if waits.len() == 0 {
        0
    } else {
        total_nanos(waits.drop_last()) + waits.last()@
    }
}

/// The number of the attempt that is made once `waits` lie behind: attempts count from one.
pub open spec fn attempt_number(waits: Seq<Duration>) -> nat {
    waits.len() + 1
}

/// Nothing has been waited for before the first attempt, and each further wait adds its
/// length to the time waited.
pub proof fn lemma_one_more_wait(waits: Seq<Duration>, delay: Duration)
    ensures
        total_nanos(Seq::empty()) == 0,
        total_nanos(waits.push(delay)) == total_nanos(waits) + delay@,
{
    assert(waits.push(delay).drop_last() =~= waits);
}

/// The number handed to the operation is one at the first attempt and grows by exactly one
/// with each wait, and a run that gives up reports the number of its last attempt as its
/// tries, with the time waited before that attempt.
pub proof fn lemma_attempts_are_counted<E>(
    progress: Progress,
    delay: Duration,
    failure: Error<E>,
    error: E,
)
    requires
        progress.gives_up_with(failure, error),
    ensures
        attempt_number(Seq::empty()) == 1,
        attempt_number(progress@.push(delay)) == attempt_number(progress@) + 1,
        failure.tries == attempt_number(progress@),
        failure.tries == progress@.len() + 1,
        failure.total_delay@ == total_nanos(progress@),
{
}

/// What the caller of [`Progress::settle`] does next.
#[derive(Debug, PartialEq, Eq)]
pub enum Action<R, E> {
    /// Wait for this long, call [`Progress::resume`], and attempt again.
    Sleep(Duration),
    /// The run is over, with this result.
    Return(Result<R, Error<E>>),
}

/// How far a run has come: the waits that lie behind the attempt now in flight.
///
/// Its view is the sequence of those waits, oldest first. The attempt in flight is the one
/// after the last of them, so attempts count from one.
pub struct Progress {
    tries: u64,
    total_delay: Duration,
    waits: Ghost<Seq<Duration>>,
}

impl View for Progress {
    type V = Seq<Duration>;

    closed spec fn view(&self) -> Seq<Duration> {
        self.waits@
    }
}

impl Progress {
    #[verifier::type_invariant]
    spec fn counted(self) -> bool {
        &&& self.tries == self.waits@.len() + 1
        &&& self.total_delay@ == total_nanos(self.waits@)
    }

    /// `failure` is what a run at this point reports when it gives up over `error`.
    pub open spec fn gives_up_with<E>(self, failure: Error<E>, error: E) -> bool {
        &&& failure.error == error
        &&& failure.tries == attempt_number(self@)
        &&& failure.total_delay@ == total_nanos(self@)
    }

    /// The start of a run: the first attempt is in flight and nothing has been waited for.
    pub fn new() -> (progress: Progress)
        ensures
            progress@ == Seq::<Duration>::empty(),
    {
        Progress { tries: 1, total_delay: Duration::default(), waits: Ghost(Seq::empty()) }
    }

    /// The number of the attempt in flight, counted from one.
    pub fn current_try(&self) -> (number: u64)
        ensures
            number == attempt_number(self@),
    {
        proof {
            use_type_invariant(self);
        }
        self.tries
    }

    /// The time spent waiting so far.
    pub fn total_delay(&self) -> (total: Duration)
        ensures
            total@ == total_nanos(self@),
    {
        proof {
            use_type_invariant(self);
        }
        self.total_delay
    }

    /// The failure of the run, with `error` as the error of the attempt in flight.
    pub fn give_up<E>(&self, error: E) -> (failure: Error<E>)
        ensures
            self.gives_up_with(failure, error),
    {
        proof {
            use_type_invariant(self);
        }
        Error { error, total_delay: self.total_delay, tries: self.tries }
    }

    /// Decides what follows an attempt that failed with `error` and may be retried, given
    /// what the delay sequence handed out: a wait of that length, or the end of the run
    /// where the sequence had nothing left.
    pub fn after_failure<R, E>(&self, error: E, pulled: Option<Duration>) -> (action: Action<R, E>)
        ensures
            match pulled {
                Some(delay) => action == Action::<R, E>::Sleep(delay),
                None => action matches Action::Return(Err(failure)) && self.gives_up_with(
                    failure,
                    error,
                ),
            },
    {
        match pulled {
            Some(delay) => Action::Sleep(delay),
            None => Action::Return(Err(self.give_up(error))),
        }
    }

    /// Decides what follows the attempt in flight, given its outcome.
    ///
    /// A success ends the run with its value and a fatal failure ends it with that error;
    /// neither touches `delays`. A failure that may be retried takes one delay from `delays`:
    /// the answer is to wait that long, or the end of the run if `delays` has run dry.
    pub fn settle<S: DelaySequence, R, E>(
        &self,
        delays: &mut S,
        outcome: OperationResult<R, E>,
    ) -> (action: Action<R, E>)
        ensures
            match outcome {
                OperationResult::Success(value) => {
                    &&& action == Action::<R, E>::Return(Ok(value))
                    &&& *final(delays) == *old(delays)
                },
                OperationResult::Fatal(error) => {
                    &&& action matches Action::Return(Err(failure))
                    &&& self.gives_up_with(failure, error)
                    &&& *final(delays) == *old(delays)
                },
                OperationResult::Retry(error) => match action {
                    Action::Sleep(delay) => old(delays).yields(Some(delay), final(delays)),
                    Action::Return(Err(failure)) => {
                        &&& old(delays).yields(None, final(delays))
                        &&& self.gives_up_with(failure, error)
                    },
                    Action::Return(Ok(_)) => false,
                },
            },
    {
        match outcome {
            OperationResult::Success(value) => Action::Return(Ok(value)),
            OperationResult::Fatal(error) => Action::Return(Err(self.give_up(error))),
            OperationResult::Retry(error) => {
                let pulled = delays.next();
                self.after_failure(error, pulled)
            },
        }
    }

    /// Records that `delay` has been waited for and that the next attempt is in flight.
    pub fn resume(&mut self, delay: Duration)
        requires
            attempt_number(old(self)@) < u64::MAX,
            total_nanos(old(self)@) + delay@ <= MAX_NANOS,
        ensures
            final(self)@ == old(self)@.push(delay),
    {
        proof {
            use_type_invariant(&*self);
        }
        let ghost waits = self.waits@.push(delay);
        proof {
            lemma_one_more_wait(self.waits@, delay);
        }
        if let Some(total_delay) = self.total_delay.checked_add(delay) {
            *self = Progress { tries: self.tries + 1, total_delay, waits: Ghost(waits) };
        }
    }
}

} // verus!

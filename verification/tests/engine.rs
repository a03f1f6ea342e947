use retry::delay::{DelaySequence, Exponential, Fibonacci, Fixed, NoDelay, Range};
use retry::engine::{Action, Progress};
use retry::{Duration, Error, OperationResult};

/// Runs `operation` until the rules say stop, without sleeping.
fn run<S, O, R, E, OR>(mut delays: S, mut operation: O) -> Result<R, Error<E>>
where
    S: DelaySequence,
    O: FnMut(u64) -> OR,
    OR: Into<OperationResult<R, E>>,
{
    let mut progress = Progress::new();
    loop {
        let outcome = operation(progress.current_try()).into();
        match progress.settle(&mut delays, outcome) {
            Action::Return(result) => return result,
            Action::Sleep(delay) => progress.resume(delay),
        }
    }
}

#[test]
fn succeeds_with_infinite_retries() {
    let mut collection = vec![1, 2, 3, 4, 5].into_iter();

    let value = run(NoDelay, |_| match collection.next() {
        Some(n) if n == 5 => Ok(n),
        Some(_) => Err("not 5"),
        None => Err("not 5"),
    })
    .unwrap();

    assert_eq!(value, 5);
}

#[test]
fn succeeds_with_maximum_retries() {
    let mut collection = vec![1, 2].into_iter();

    let value = run(NoDelay.take(1), |_| match collection.next() {
        Some(n) if n == 2 => Ok(n),
        Some(_) => Err("not 2"),
        None => Err("not 2"),
    })
    .unwrap();

    assert_eq!(value, 2);
}

#[test]
fn fails_after_last_try() {
    let mut collection = vec![1].into_iter();

    let res = run(NoDelay.take(1), |_| match collection.next() {
        Some(n) if n == 2 => Ok(n),
        Some(_) => Err("not 2"),
        None => Err("not 2"),
    });

    assert_eq!(
        res,
        Err(Error {
            error: "not 2",
            tries: 2,
            total_delay: Duration::from_millis(0)
        })
    );
}

#[test]
fn fatal_errors() {
    let mut collection = vec![1].into_iter();

    let res = run(NoDelay.take(2), |_| match collection.next() {
        Some(n) if n == 2 => OperationResult::Success(n),
        Some(_) => OperationResult::Fatal("no retry"),
        None => OperationResult::Fatal("not 2"),
    });

    assert_eq!(
        res,
        Err(Error {
            error: "no retry",
            tries: 1,
            total_delay: Duration::from_millis(0)
        })
    );
}

#[test]
fn succeeds_with_fixed_delay() {
    let mut collection = vec![1, 2].into_iter();

    let value = run(Fixed::from_millis(1), |_| match collection.next() {
        Some(n) if n == 2 => Ok(n),
        Some(_) => Err("not 2"),
        None => Err("not 2"),
    })
    .unwrap();

    assert_eq!(value, 2);
}

#[test]
fn succeeds_with_exponential_delay() {
    let mut collection = vec![1, 2].into_iter();

    let value = run(Exponential::from_millis(1), |_| match collection.next() {
        Some(n) if n == 2 => Ok(n),
        Some(_) => Err("not 2"),
        None => Err("not 2"),
    })
    .unwrap();

    assert_eq!(value, 2);
}

#[test]
fn succeeds_with_ranged_delay() {
    let mut collection = vec![1, 2].into_iter();

    let value = run(Range::from_millis_exclusive(1, 10), |_| match collection.next() {
        Some(n) if n == 2 => Ok(n),
        Some(_) => Err("not 2"),
        None => Err("not 2"),
    })
    .unwrap();

    assert_eq!(value, 2);
}

#[test]
fn succeeds_with_index() {
    let mut collection = vec![1, 2, 3].into_iter();

    let value = run(NoDelay, |current_try| match collection.next() {
        Some(n) if n == current_try => Ok(n),
        Some(_) => Err("not current_try"),
        None => Err("not current_try"),
    })
    .unwrap();

    assert_eq!(value, 1);
}

#[test]
fn succeeds_on_the_first_attempt_without_a_pull() {
    let mut delays = Fixed::from_millis(10).take(3);
    let mut calls = 0;
    let progress = Progress::new();
    assert_eq!(progress.current_try(), 1);
    calls += 1;
    let action: Action<&str, &str> = progress.settle(&mut delays, OperationResult::Success("done"));
    assert_eq!(action, Action::Return(Ok("done")));
    assert_eq!(calls, 1);
    assert_eq!(progress.total_delay(), Duration::default());
    // All three delays are still there.
    assert_eq!(delays.next(), Some(Duration::from_millis(10)));
    assert_eq!(delays.next(), Some(Duration::from_millis(10)));
    assert_eq!(delays.next(), Some(Duration::from_millis(10)));
    assert_eq!(delays.next(), None);
}

#[test]
fn gives_up_after_the_only_delay() {
    let mut attempts = 0;
    let res: Result<(), Error<u64>> = run(Fixed::from_millis(30).take(1), |current_try| {
        attempts += 1;
        Err::<(), u64>(current_try)
    });
    assert_eq!(attempts, 2);
    assert_eq!(
        res,
        Err(Error {
            error: 2,
            tries: 2,
            total_delay: Duration::from_millis(30)
        })
    );
}

#[test]
fn fatal_failure_leaves_the_delays_alone() {
    let mut delays = Fixed::from_millis(10).take(2);
    let progress = Progress::new();
    let action: Action<(), &str> = progress.settle(&mut delays, OperationResult::Fatal("no"));
    assert_eq!(
        action,
        Action::Return(Err(Error {
            error: "no",
            tries: 1,
            total_delay: Duration::default()
        }))
    );
    assert_eq!(delays.next(), Some(Duration::from_millis(10)));
    assert_eq!(delays.next(), Some(Duration::from_millis(10)));
    assert_eq!(delays.next(), None);
}

#[test]
fn empty_sequence_allows_one_attempt() {
    let mut attempts = 0;
    let res: Result<(), Error<&str>> = run(NoDelay.take(0), |_| {
        attempts += 1;
        Err::<(), &str>("failed")
    });
    assert_eq!(attempts, 1);
    assert_eq!(
        res,
        Err(Error {
            error: "failed",
            tries: 1,
            total_delay: Duration::default()
        })
    );
}

#[test]
fn attempts_are_numbered_from_one() {
    let mut numbers = Vec::new();
    let res: Result<(), Error<&str>> = run(NoDelay.take(4), |current_try| {
        numbers.push(current_try);
        Err::<(), &str>("again")
    });
    assert_eq!(numbers, vec![1, 2, 3, 4, 5]);
    assert_eq!(res.unwrap_err().tries, 5);
}

#[test]
fn total_delay_adds_up_the_waits() {
    let res: Result<(), Error<&str>> =
        run(Fibonacci::from_millis(10).take(5), |_| Err::<(), &str>("again"));
    assert_eq!(
        res,
        Err(Error {
            error: "again",
            tries: 6,
            total_delay: Duration::from_millis(10 + 10 + 20 + 30 + 50)
        })
    );
}

#[test]
fn last_error_is_the_one_reported() {
    let res: Result<(), Error<u64>> = run(NoDelay.take(3), |current_try| {
        if current_try == 3 {
            OperationResult::Fatal(300)
        } else {
            OperationResult::Retry(current_try)
        }
    });
    assert_eq!(
        res,
        Err(Error {
            error: 300,
            tries: 3,
            total_delay: Duration::default()
        })
    );
}

#[test]
fn settle_and_resume_step_by_step() {
    let mut delays = Exponential::from_millis(10).take(2);
    let mut progress = Progress::new();

    let first: Action<(), &str> = progress.settle(&mut delays, OperationResult::Retry("a"));
    assert_eq!(first, Action::Sleep(Duration::from_millis(10)));
    // The wait is counted only once it is over.
    assert_eq!(progress.current_try(), 1);
    assert_eq!(progress.total_delay(), Duration::default());
    progress.resume(Duration::from_millis(10));
    assert_eq!(progress.current_try(), 2);
    assert_eq!(progress.total_delay(), Duration::from_millis(10));

    let second: Action<(), &str> = progress.settle(&mut delays, OperationResult::Retry("b"));
    assert_eq!(second, Action::Sleep(Duration::from_millis(100)));
    progress.resume(Duration::from_millis(100));
    assert_eq!(progress.current_try(), 3);
    assert_eq!(progress.total_delay(), Duration::from_millis(110));

    let third: Action<(), &str> = progress.settle(&mut delays, OperationResult::Retry("c"));
    assert_eq!(
        third,
        Action::Return(Err(Error {
            error: "c",
            tries: 3,
            total_delay: Duration::from_millis(110)
        }))
    );
}

#[test]
fn after_failure_decides_by_what_was_pulled() {
    let progress = Progress::new();
    let wait: Action<(), &str> = progress.after_failure("e", Some(Duration::from_millis(3)));
    assert_eq!(wait, Action::Sleep(Duration::from_millis(3)));
    let stop: Action<(), &str> = progress.after_failure("e", None);
    assert_eq!(
        stop,
        Action::Return(Err(Error {
            error: "e",
            tries: 1,
            total_delay: Duration::default()
        }))
    );
    assert_eq!(
        progress.give_up(9),
        Error {
            error: 9,
            tries: 1,
            total_delay: Duration::default()
        }
    );
}

#[test]
fn result_converts_to_success_or_retry() {
    let ok: OperationResult<u8, &str> = Ok(1).into();
    let err: OperationResult<u8, &str> = Err("e").into();
    assert_eq!(ok, OperationResult::Success(1));
    assert_eq!(err, OperationResult::Retry("e"));
    assert_eq!(OperationResult::<u8, &str>::from(Ok(2)), OperationResult::Success(2));
}

#[test]
fn succeeds_when_the_list_matches_the_attempt() {
    let collection = vec![0, 2, 3];
    let mut i = 0;
    let value = run(NoDelay, |current_try| {
        let outcome = match collection.get(i).copied() {
            Some(n) if n == current_try => Ok(n),
            Some(_) => Err("not current_try"),
            None => Err("not current_try"),
        };
        i += 1;
        outcome
    })
    .unwrap();

    assert_eq!(value, 2);
}

#[test]
fn succeeds_on_the_second_attempt() {
    fn op(current_try: u64) -> Result<(), &'static str> {
        if current_try == 2 {
            Ok(())
        } else {
            Err("not 2")
        }
    }
    let value = run(NoDelay, op);

    assert!(value.is_ok());
}

#[test]
fn mapped_delays_are_the_ones_counted() {
    let halve = |delay: Duration| Duration::from_millis((delay.as_millis() / 2) as u64);
    let res: Result<(), Error<&str>> =
        run(Fixed::from_millis(10).map(halve).take(3), |_| Err::<(), &str>("again"));
    assert_eq!(
        res,
        Err(Error {
            error: "again",
            tries: 4,
            total_delay: Duration::from_millis(15)
        })
    );
}

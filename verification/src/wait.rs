//! Waiting for a process, but not forever.

use vstd::prelude::*;

verus! {

/// How long to sleep between two looks at the process, in nanoseconds.
pub const SLEEP_NANOS: u128 = 10_000_000;

/// What the one who waits has seen.
#[derive(Debug)]
pub enum WaitEvent<T, E> {
    /// The process has ended.
    Exited(T),
    /// The process still runs.
    Running,
    /// The process cannot be looked at.
    Refused(E),
    /// The sleep is over.
    Slept,
}

/// What the one who waits is to do.
#[derive(Debug)]
pub enum WaitAction<T, E> {
    /// Look whether the process has ended.
    Poll,
    /// Sleep for [`SLEEP_NANOS`].
    Sleep,
    /// Stop waiting: the process has ended.
    Exit(T),
    /// Stop waiting: the process cannot be looked at.
    Fail(E),
    /// Stop waiting: the time is over.
    TimedOut,
}

/// A wait for a process.
#[derive(Debug, Clone, Copy)]
pub struct ProcessWait {
    /// The time that is left, in nanoseconds.
    remaining: u128,
}

/// What is left of `remaining` after a sleep, if it was enough for one.
pub open spec fn after_sleep(remaining: u128) -> Option<u128> {
    if remaining >= SLEEP_NANOS {
        Some((remaining - SLEEP_NANOS) as u128)
    } else {
        None
    }
}

/// What follows an event: the time that is left then, and what is to be done. A process that still
/// runs is looked at again after a sleep, as long as the time that was left covered that sleep.
pub open spec fn wait_step<T, E>(remaining: u128, event: WaitEvent<T, E>) -> (
    u128,
    WaitAction<T, E>,
) {
    match event {
        WaitEvent::Exited(status) => (remaining, WaitAction::Exit(status)),
        WaitEvent::Running => (remaining, WaitAction::Sleep),
        WaitEvent::Refused(error) => (remaining, WaitAction::Fail(error)),
        WaitEvent::Slept => match after_sleep(remaining) {
            Some(rest) => (rest, WaitAction::Poll),
            None => (remaining, WaitAction::TimedOut),
        },
    }
}

/// Starts a wait of `timeout` nanoseconds: the process is looked at first, however short the wait.
pub fn wait_for_process_timeout<T, E>(timeout: u128) -> (started: (ProcessWait, WaitAction<T, E>))
    ensures
        started.0@ == timeout,
        started.1 == WaitAction::<T, E>::Poll,
{
    (ProcessWait { remaining: timeout }, WaitAction::Poll)
}

impl View for ProcessWait {
    type V = u128;

    closed spec fn view(&self) -> u128 {
        self.remaining
    }
}

impl ProcessWait {
    /// What to do about `event`.
    pub fn step<T, E>(&mut self, event: WaitEvent<T, E>) -> (action: WaitAction<T, E>)
        ensures
            (final(self)@, action) == wait_step(old(self)@, event),
    {
        match event {
            WaitEvent::Exited(status) => WaitAction::Exit(status),
            WaitEvent::Running => WaitAction::Sleep,
            WaitEvent::Refused(error) => WaitAction::Fail(error),
            WaitEvent::Slept => match self.remaining.checked_sub(SLEEP_NANOS) {
                Some(rest) => {
                    self.remaining = rest;
                    WaitAction::Poll
                },
                None => WaitAction::TimedOut,
            },
        }
    }
}

// ---------------------------------------------------------------------------------------------
// What holds of a whole wait
// ---------------------------------------------------------------------------------------------

/// What a look at a process shows: that it ended, that it still runs, or that it cannot be looked
/// at.
pub open spec fn seen<T, E>(reply: Result<Option<T>, E>) -> WaitEvent<T, E> {
    match reply {
        Ok(Some(status)) => WaitEvent::Exited(status),
        Ok(None) => WaitEvent::Running,
        Err(error) => WaitEvent::Refused(error),
    }
}

/// How a wait goes that is asked for `action` with `remaining` left, where the looks at the process
/// show `replies` in turn: how many looks and sleeps it takes, and what it is asked for in the end.
/// That is a look only where the replies are used up.
pub open spec fn waited<T, E>(
    remaining: u128,
    action: WaitAction<T, E>,
    replies: Seq<Result<Option<T>, E>>,
) -> (nat, nat, WaitAction<T, E>)
    decreases replies.len(),
{
    if action is Poll && replies.len() > 0 {
        let (left, next) = wait_step(remaining, seen(replies[0]));
        if next is Sleep {
            let (rest, again) = wait_step(left, WaitEvent::<T, E>::Slept);
            let (looks, sleeps, end) = waited(rest, again, replies.skip(1));
            (looks + 1, sleeps + 1, end)
        } else {
            (1, 0, next)
        }
    } else {
        (0, 0, action)
    }
}

/// Whether a look shows that the process still runs.
pub open spec fn still_runs<T, E>(reply: Result<Option<T>, E>) -> bool {
    reply matches Ok(None)
}

/// A wait of `timeout` takes at most one look for each whole sleep that the timeout holds, and one
/// more. The first look among these that shows anything but a process that still runs ends the wait
/// with what it shows; so a process that has ended is seen even where there is no time at all.
pub proof fn lemma_first_reply_ends<T, E>(
    timeout: u128,
    replies: Seq<Result<Option<T>, E>>,
    first: int,
)
    requires
        0 <= first < replies.len(),
        first <= timeout / SLEEP_NANOS,
        forall|i: int| 0 <= i < first ==> still_runs(#[trigger] replies[i]),
        !still_runs(replies[first]),
    ensures
        waited(timeout, WaitAction::Poll, replies) == (
            (first + 1) as nat,
            first as nat,
            wait_step(timeout, seen(replies[first])).1,
        ),
        match replies[first] {
            Ok(Some(status)) => waited(timeout, WaitAction::Poll, replies).2
                == WaitAction::<T, E>::Exit(status),
            Ok(None) => false,
            Err(error) => waited(timeout, WaitAction::Poll, replies).2 == WaitAction::<T, E>::Fail(
                error,
            ),
        },
    decreases first,
{
    if first > 0 {
        assert(still_runs(replies[0]));
        let rest = (timeout - SLEEP_NANOS) as u128;
        assert(first - 1 <= rest / SLEEP_NANOS && timeout >= SLEEP_NANOS);
        let later = replies.skip(1);
        assert forall|i: int| 0 <= i < first - 1 implies still_runs(#[trigger] later[i]) by {
            assert(still_runs(replies[i + 1]));
        }
        lemma_first_reply_ends(rest, later, first - 1);
    }
}

/// A process that never ends is looked at, and slept on, once for each whole sleep that the timeout
/// holds and once more, and then the time is over; so the wait takes longer than the timeout by at
/// most one sleep.
pub proof fn lemma_wait_is_bounded<T, E>(timeout: u128, replies: Seq<Result<Option<T>, E>>)
    requires
        replies.len() > timeout / SLEEP_NANOS,
        forall|i: int|
            0 <= i <= timeout / SLEEP_NANOS ==> still_runs(#[trigger] replies[i]),
    ensures
        waited(timeout, WaitAction::Poll, replies) == (
            (timeout / SLEEP_NANOS + 1) as nat,
            (timeout / SLEEP_NANOS + 1) as nat,
            WaitAction::<T, E>::TimedOut,
        ),
        timeout < waited(timeout, WaitAction::Poll, replies).1 * SLEEP_NANOS <= timeout
            + SLEEP_NANOS,
        waited(timeout, WaitAction::Poll, replies).1 == timeout / 10_000_000 + 1,
    decreases timeout,
{
    assert(still_runs(replies[0]));
    if timeout >= SLEEP_NANOS {
        let rest = (timeout - SLEEP_NANOS) as u128;
        assert(rest / SLEEP_NANOS == timeout / SLEEP_NANOS - 1);
        let later = replies.skip(1);
        assert forall|i: int| 0 <= i <= rest / SLEEP_NANOS implies still_runs(
            #[trigger] later[i],
        ) by {
            assert(still_runs(replies[i + 1]));
        }
        lemma_wait_is_bounded(rest, later);
    } else {
        assert(waited(timeout, WaitAction::<T, E>::TimedOut, replies.skip(1)).0 == 0);
    }
}

} // verus!

//! The decisions of one request: what to do after each attempt to acquire a
//! pool and after each wake-up.
//!
//! A session takes no lock, reads no clock and does not wait. Its caller
//! does all three, in this order:
//!
//! 1. read the clock and [`RequestSession::begin`];
//! 2. take a notification handle from the wait coordinator, and only then
//!    attempt [`crate::inventory::InnerInventory::try_acquire`] under the
//!    inventory's lock, so that a release between the attempt and the wait
//!    is not missed;
//! 3. hand the outcome to [`RequestSession::after_attempt`] and do what the
//!    returned [`Step`] says;
//! 4. after a wait, hand what ended it to [`RequestSession::after_wake`].
//!
//! Times are readings of one monotonic clock, in nanoseconds.

use vstd::prelude::*;
use crate::inventory::{
    acquired,
    outcome_view,
    PoolLease,
    PoolView,
    RequestView,
    ResourceRequest,
    ResourceRequestError,
};

verus! {

/// What ended a wait.
#[derive(Debug, Clone, Copy, PartialEq, Eq, Structural)]
pub enum Wake {
    /// The wait coordinator broadcast a release.
    Notified,
    /// The time that was left to wait ran out.
    TimerFired,
}

/// What the caller does next.
#[derive(Debug)]
pub enum Step {
    /// The request is over, with this result.
    Finished(Result<PoolLease, ResourceRequestError>),
    /// Wait for a notification, for at most `remaining` nanoseconds.
    Wait { remaining: u128 },
    /// Take a fresh notification handle and attempt to acquire again.
    Retry,
}

/// One request in progress: when it began and how long it may wait.
#[derive(Debug, Clone, Copy, PartialEq, Eq, Structural)]
pub struct RequestSession {
    pub started: u128,
    pub timeout: Option<u128>,
}

impl RequestSession {
    /// The time that has passed at `now` since the session began; zero for
    /// a reading that lies before the beginning.
    pub open spec fn elapsed_at(self, now: u128) -> u128 {
        if now >= self.started {
            (now - self.started) as u128
        } else {
            0
        }
    }

    /// The session's timeout has run out at `now`.
    pub open spec fn expired_at(self, now: u128) -> bool {
        self.timeout matches Some(timeout) && self.elapsed_at(now) >= timeout
    }

    /// What is left of the timeout at `now`; zero without a timeout.
    pub open spec fn remaining_at(self, now: u128) -> u128 {
        match self.timeout {
            Some(timeout) => if self.elapsed_at(now) >= timeout {
                0
            } else {
                (timeout - self.elapsed_at(now)) as u128
            },
            None => 0,
        }
    }

    /// What follows an attempt that ended with `outcome`, at time `now`.
    pub open spec fn step_after_attempt(
        self,
        outcome: Result<PoolLease, ResourceRequestError>,
        now: u128,
    ) -> Step {
        match outcome {
            Err(ResourceRequestError::InUse) => if self.timeout is Some {
                Step::Wait { remaining: self.remaining_at(now) }
            } else {
                Step::Finished(outcome)
            },
            _ => Step::Finished(outcome),
        }
    }

    /// What follows a wait that `wake` ended, at time `now`.
    pub open spec fn step_after_wake(self, wake: Wake, now: u128) -> Step {
        match wake {
            Wake::Notified => Step::Retry,
            Wake::TimerFired => if self.timeout is None {
                Step::Retry
            } else if self.expired_at(now) {
                Step::Finished(Err(ResourceRequestError::TimeOut))
            } else {
                Step::Wait { remaining: self.remaining_at(now) }
            },
        }
    }

    /// Begins a session for `request` at time `now`.
    pub fn begin(request: &ResourceRequest, now: u128) -> (session: RequestSession)
        ensures
            session.started == now,
            session.timeout == request@.timeout,
    {
        RequestSession { started: now, timeout: request.timeout }
    }

    /// The time that has passed at `now` since the session began.
    pub fn elapsed(&self, now: u128) -> (elapsed: u128)
        ensures
            elapsed == self.elapsed_at(now),
    {
        if now >= self.started {
            now - self.started
        } else {
            0
        }
    }

    /// What is left of the timeout at `now`.
    pub fn remaining(&self, now: u128) -> (remaining: u128)
        ensures
            remaining == self.remaining_at(now),
    {
        match self.timeout {
            Some(timeout) => {
                let elapsed = self.elapsed(now);
                if elapsed >= timeout {
                    0
                } else {
                    timeout - elapsed
                }
            },
            None => 0,
        }
    }

    /// Decides what follows an attempt to acquire.
    ///
    /// A lease ends the request, and so does every error but `InUse`,
    /// handed on unchanged. `InUse` ends the request at once where the
    /// request has no timeout; with a timeout the caller waits for what is
    /// left of it.
    pub fn after_attempt(
        &self,
        outcome: Result<PoolLease, ResourceRequestError>,
        now: u128,
    ) -> (step: Step)
        ensures
            step == self.step_after_attempt(outcome, now),
            // the outcome is handed on unchanged, or the caller waits
            step matches Step::Finished(result) ==> result == outcome,
            step is Wait <==> outcome == Err::<PoolLease, ResourceRequestError>(
                ResourceRequestError::InUse,
            ) && self.timeout is Some,
            !(step is Retry),
    {
        match outcome {
            Err(ResourceRequestError::InUse) => {
                if self.timeout.is_some() {
                    Step::Wait { remaining: self.remaining(now) }
                } else {
                    Step::Finished(Err(ResourceRequestError::InUse))
                }
            },
            other => Step::Finished(other),
        }
    }

    /// Decides what follows a wait.
    ///
    /// A notification always leads to another attempt. When the timer
    /// fired, the request times out if the timeout has run out at `now`;
    /// if it has not, the caller waits for what is left of it.
    pub fn after_wake(&self, wake: Wake, now: u128) -> (step: Step)
        ensures
            step == self.step_after_wake(wake, now),
            // a notified waiter tries again
            wake == Wake::Notified ==> step is Retry,
            // no time-out before the timeout has passed
            step matches Step::Finished(result) ==> self.timeout matches Some(timeout)
                && self.elapsed_at(now) >= timeout && wake == Wake::TimerFired && result == Err::<
                PoolLease,
                ResourceRequestError,
            >(ResourceRequestError::TimeOut),
            // once the timeout has passed, a fired timer ends the request
            wake == Wake::TimerFired && self.expired_at(now) ==> step is Finished,
    {
        match wake {
            Wake::Notified => Step::Retry,
            Wake::TimerFired => {
                match self.timeout {
                    None => Step::Retry,
                    Some(timeout) => {
                        if self.elapsed(now) >= timeout {
                            Step::Finished(Err(ResourceRequestError::TimeOut))
                        } else {
                            Step::Wait { remaining: self.remaining(now) }
                        }
                    },
                }
            },
        }
    }
}

/// A wait ends in `TimeOut` no earlier than the timeout after the session
/// began: only a timer that fires when at least the timeout has passed on
/// the caller's clock ends the request, and it ends it with `TimeOut`.
pub proof fn lemma_no_early_timeout(session: RequestSession, wake: Wake, now: u128)
    requires
        session.step_after_wake(wake, now) is Finished,
    ensures
        wake == Wake::TimerFired,
        session.timeout is Some,
        session.elapsed_at(now) >= session.timeout->0,
        now >= session.started ==> now - session.started >= session.timeout->0,
        session.step_after_wake(wake, now) == Step::Finished(Err(ResourceRequestError::TimeOut)),
{
}

/// No attempt ends a request with `TimeOut`: what a scan of the inventory
/// hands in is a lease, `InUse` or `Impossible`, so that a request times
/// out only through a timer, as [`lemma_no_early_timeout`] says.
pub proof fn lemma_attempt_never_times_out(
    session: RequestSession,
    pre: Seq<PoolView>,
    request: RequestView,
    client: Seq<char>,
    post: Seq<PoolView>,
    outcome: Result<PoolLease, ResourceRequestError>,
    now: u128,
)
    requires
        acquired(pre, request, client, post, outcome_view(outcome)),
    ensures
        session.step_after_attempt(outcome, now) != Step::Finished(
            Err(ResourceRequestError::TimeOut),
        ),
{
}

/// Without a timeout a request never waits: every attempt ends it.
pub proof fn lemma_no_timeout_no_wait(
    session: RequestSession,
    outcome: Result<PoolLease, ResourceRequestError>,
    now: u128,
)
    requires
        session.timeout is None,
    ensures
        session.step_after_attempt(outcome, now) == Step::Finished(outcome),
{
}

} // verus!

//! What to do when the child exits while a session still needs it.

use vstd::prelude::*;

verus! {

/// How a child process ended.
#[derive(Clone, Copy, Debug, PartialEq, Eq, Structural)]
pub struct ExitStatus {
    /// The exit code that the process reported.
    pub code: i32,
    /// Whether a signal, or another abnormal termination, ended it.
    pub abnormal: bool,
}

/// The verdict of the supervisor on a child that exited.
#[derive(Clone, Copy, Debug, PartialEq, Eq, Structural)]
pub enum Decision {
    /// Start the child again, after waiting this many milliseconds.
    Restart { backoff_ms: u64 },
    /// Give the session up.
    Fail,
}

/// The limits within which a crashed child is started again.
#[derive(Clone, Copy, Debug, PartialEq, Eq, Structural)]
pub struct SupervisorPolicy {
    /// How many restarts one session may see.
    pub max_restarts: u32,
    /// The wait before the first restart, in milliseconds.
    pub base_backoff_ms: u64,
    /// The longest wait before any restart, in milliseconds.
    pub max_backoff_ms: u64,
}

/// `base` doubled `times` times.
pub open spec fn doubled(base: nat, times: nat) -> nat
    decreases times,
{
    if times == 0 {
        base
    } else {
        2 * doubled(base, (times - 1) as nat)
    }
}

/// The wait before the restart that follows `prior` earlier ones: the base
/// wait doubled once for each earlier restart, and never more than `cap`.
pub open spec fn backoff_delay(base: u64, cap: u64, prior: u32) -> nat {
    if doubled(base as nat, prior as nat) < cap {
        doubled(base as nat, prior as nat)
    } else {
        cap as nat
    }
}

/// Doubling more often never gives less.
pub proof fn lemma_doubled_monotone(base: nat, fewer: nat, more: nat)
    requires
        fewer <= more,
    ensures
        doubled(base, fewer) <= doubled(base, more),
    decreases more,
{
    if fewer < more {
        lemma_doubled_monotone(base, fewer, (more - 1) as nat);
    }
}

/// Nothing doubled is nothing.
pub proof fn lemma_doubled_zero(times: nat)
    ensures
        doubled(0, times) == 0,
    decreases times,
{
    if times > 0 {
        lemma_doubled_zero((times - 1) as nat);
    }
}

impl SupervisorPolicy {
    /// The verdict on a child that exited after `prior_restarts` restarts.
    /// Every exit that reaches the supervisor is unexpected, whatever its
    /// status: only the number of earlier restarts decides.
    pub open spec fn verdict(self, prior_restarts: u32) -> Decision {
        if prior_restarts < self.max_restarts {
            Decision::Restart {
                backoff_ms: backoff_delay(
                    self.base_backoff_ms,
                    self.max_backoff_ms,
                    prior_restarts,
                ) as u64,
            }
        } else {
            Decision::Fail
        }
    }

    /// A policy with these limits.
    pub fn new(max_restarts: u32, base_backoff_ms: u64, max_backoff_ms: u64) -> (res:
        SupervisorPolicy)
        ensures
            res.max_restarts == max_restarts,
            res.base_backoff_ms == base_backoff_ms,
            res.max_backoff_ms == max_backoff_ms,
    {
        SupervisorPolicy { max_restarts, base_backoff_ms, max_backoff_ms }
    }

    /// The wait before the restart that follows `prior_restarts` earlier ones.
    pub fn backoff(&self, prior_restarts: u32) -> (res: u64)
        ensures
            res == backoff_delay(self.base_backoff_ms, self.max_backoff_ms, prior_restarts),
            res <= self.max_backoff_ms,
    {
        let cap: u64 = self.max_backoff_ms;
        if self.base_backoff_ms == 0 {
            proof {
                lemma_doubled_zero(prior_restarts as nat);
            }
            return 0;
        }
        if self.base_backoff_ms >= cap {
            proof {
                lemma_doubled_monotone(self.base_backoff_ms as nat, 0, prior_restarts as nat);
            }
            return cap;
        }
        let mut wait: u64 = self.base_backoff_ms;
        let mut round: u32 = 0;
        while round < prior_restarts && wait < cap
            invariant
                round <= prior_restarts,
                0 < wait <= cap,
                wait < cap ==> wait == doubled(self.base_backoff_ms as nat, round as nat),
                wait == cap ==> doubled(self.base_backoff_ms as nat, round as nat) >= cap,
            decreases prior_restarts - round,
        {
            if wait >= cap - wait {
                wait = cap;
            } else {
                wait = wait + wait;
            }
            round += 1;
        }
        proof {
            lemma_doubled_monotone(
                self.base_backoff_ms as nat,
                round as nat,
                prior_restarts as nat,
            );
        }
        wait
    }

    /// Decides what follows the exit of a child that had been restarted
    /// `prior_restarts` times before.
    pub fn decide(&self, status: ExitStatus, prior_restarts: u32) -> (res: Decision)
        ensures
            res == self.verdict(prior_restarts),
            (res == Decision::Fail) <==> prior_restarts >= self.max_restarts,
    {
        if prior_restarts < self.max_restarts {
            Decision::Restart { backoff_ms: self.backoff(prior_restarts) }
        } else {
            Decision::Fail
        }
    }
}

} // verus!

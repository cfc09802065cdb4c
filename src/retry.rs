//! Classification of service failures and the capped exponential backoff
//! shared by every outside call.

use vstd::prelude::*;

verus! {

/// Number of attempts made of a call that keeps failing transiently.
pub const MAX_ATTEMPTS: u32 = 5;

/// Milliseconds in one backoff time unit (a second).
pub const DELAY_UNIT_MS: u64 = 1000;

/// A status is transient when the service was rate limited (429) or failed on
/// its own side (the 5xx class); every other failure is terminal.
pub open spec fn transient_status(status: u16) -> bool {
    status == 429 || (500 <= status && status <= 599)
}

/// Whether a failed call with this status is worth retrying.
pub fn is_transient_status(status: u16) -> (r: bool)
    ensures
        r == transient_status(status),
{
    status == 429 || (500 <= status && status <= 599)
}

/// What to do after a failed attempt.
#[derive(Debug, Clone, Copy, PartialEq, Eq, Structural)]
pub enum RetryDecision {
    /// Wait this many milliseconds, then call again.
    Retry { delay_ms: u64 },
    /// Hand the last error to the caller.
    GiveUp,
}

/// Backoff state of one call site: how many transient failures were seen.
#[derive(Debug, Clone, Copy, PartialEq, Eq, Structural)]
pub struct Backoff {
    failures: u32,
}

/// `2^n`.
pub open spec fn two_to(n: nat) -> nat
    decreases n,
{
    if n == 0 {
        1
    } else {
        2 * two_to((n - 1) as nat)
    }
}

/// Delay before the attempt that follows the `n`-th transient failure: `2^n` units.
pub open spec fn delay_after(n: nat) -> int {
    two_to(n) * DELAY_UNIT_MS
}

impl Backoff {
    pub closed spec fn failures_spec(self) -> nat {
        self.failures as nat
    }

    /// Invariant: a backoff that has given up is never asked again.
    pub closed spec fn wf(self) -> bool {
        self.failures < MAX_ATTEMPTS
    }

    pub fn new() -> (b: Backoff)
        ensures
            b.wf(),
            b.failures_spec() == 0,
    {
        Backoff { failures: 0 }
    }

    /// Transient failures seen so far.
    pub fn failures(&self) -> (n: u32)
        ensures
            n == self.failures_spec(),
    {
        self.failures
    }

    /// Decides, after a failed attempt, whether to try again.  A terminal
    /// failure gives up at once.  The `n`-th transient failure waits `2^n`
    /// seconds, unless it is the `MAX_ATTEMPTS`-th, which gives up.
    pub fn on_failure(&mut self, transient: bool) -> (d: RetryDecision)
        requires
            old(self).wf(),
        ensures
            !transient ==> d == RetryDecision::GiveUp && *final(self) == *old(self),
            transient ==> final(self).failures_spec() == old(self).failures_spec() + 1,
            transient && final(self).failures_spec() >= MAX_ATTEMPTS ==> d == RetryDecision::GiveUp,
            transient && final(self).failures_spec() < MAX_ATTEMPTS ==> d == (RetryDecision::Retry {
                delay_ms: delay_after(final(self).failures_spec()) as u64,
            }),
            d is Retry ==> final(self).wf(),
    {
        if !transient {
            return RetryDecision::GiveUp;
        }
        self.failures = self.failures + 1;
        if self.failures >= MAX_ATTEMPTS {
            RetryDecision::GiveUp
        } else {
            let delay_ms = pow2_u64(self.failures) * DELAY_UNIT_MS;
            RetryDecision::Retry { delay_ms }
        }
    }
}

proof fn lemma_two_to_small(n: nat)
    requires
        n < MAX_ATTEMPTS,
    ensures
        two_to(n) <= 16,
{
    reveal_with_fuel(two_to, 5);
}

/// `2^n` for a small exponent.
fn pow2_u64(n: u32) -> (r: u64)
    requires
        n < MAX_ATTEMPTS,
    ensures
        r == two_to(n as nat),
        r <= 16,
{
    let mut r: u64 = 1;
    let mut i: u32 = 0;
    while i < n
        invariant
            i <= n < MAX_ATTEMPTS,
            r == two_to(i as nat),
        decreases n - i,
    {
        proof {
            lemma_two_to_small(i as nat);
        }
        r = r * 2;
        i = i + 1;
    }
    proof {
        lemma_two_to_small(n as nat);
    }
    r
}

} // verus!

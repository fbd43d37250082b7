//! How long to wait before the next attempt: a delay that doubles with each
//! attempt up to a cap, stretched or shrunk by a random factor, and never
//! past the call's deadline.

use crate::error::Error;
use vstd::prelude::*;

verus! {

/// Two to the power `n`.
pub open spec fn pow2(n: nat) -> nat
    decreases n,
{
    if n == 0 {
        1
    } else {
        2 * pow2((n - 1) as nat)
    }
}

/// The delay before jitter for attempt `attempt`, counted from one: the base
/// doubled once per earlier attempt, but no more than the cap.
pub open spec fn ceiling(base_ms: nat, cap_ms: nat, attempt: nat) -> nat {
    if base_ms * pow2((attempt - 1) as nat) < cap_ms {
        base_ms * pow2((attempt - 1) as nat)
    } else {
        cap_ms
    }
}

/// The factor that jitter applies, in thousandths: what was drawn, kept
/// within a half and one and a half.
pub open spec fn jitter_of(drawn_permille: u32) -> nat {
    if drawn_permille < 500 {
        500
    } else if drawn_permille > 1500 {
        1500
    } else {
        drawn_permille as nat
    }
}

/// The delay for attempt `attempt`, in milliseconds.
pub open spec fn delay_ms(base_ms: nat, cap_ms: nat, attempt: nat, drawn_permille: u32) -> nat {
    ceiling(base_ms, cap_ms, attempt) * jitter_of(drawn_permille) / 1000
}

/// The state of a backoff: its base and cap in milliseconds, and how many
/// attempts have been delayed since the last success.
#[derive(Clone, Copy, Debug, PartialEq, Eq)]
pub struct Backoff {
    base_ms: u32,
    cap_ms: u32,
    attempts: u32,
}

/// Doubling grows.
proof fn lemma_pow2_grows(a: nat, b: nat)
    requires
        a <= b,
    ensures
        pow2(a) <= pow2(b),
        pow2(a) >= 1,
    decreases b,
{
    if a < b {
        lemma_pow2_grows(a, (b - 1) as nat);
    } else if a > 0 {
        lemma_pow2_grows((a - 1) as nat, (b - 1) as nat);
    }
}

impl Backoff {
    /// The base delay in milliseconds.
    pub closed spec fn base(&self) -> nat {
        self.base_ms as nat
    }

    /// The greatest delay before jitter, in milliseconds.
    pub closed spec fn cap(&self) -> nat {
        self.cap_ms as nat
    }

    /// The number of attempts delayed since the last success.
    pub closed spec fn attempts(&self) -> nat {
        self.attempts as nat
    }

    /// A backoff with the given base and cap, before any attempt.
    pub fn new(base_ms: u32, cap_ms: u32) -> (backoff: Backoff)
        ensures
            backoff.base() == base_ms,
            backoff.cap() == cap_ms,
            backoff.attempts() == 0,
    {
        Backoff { base_ms, cap_ms, attempts: 0 }
    }

    /// Forgets the attempts so far: the next delay starts from the base
    /// again.
    pub fn reset(&mut self)
        ensures
            final(self).base() == old(self).base(),
            final(self).cap() == old(self).cap(),
            final(self).attempts() == 0,
    {
        self.attempts = 0;
    }

    /// The delay before jitter for attempt `attempt`, counted from one.
    fn ceiling_for(&self, attempt: u32) -> (ms: u32)
        requires
            attempt >= 1,
        ensures
            ms == ceiling(self.base(), self.cap(), attempt as nat),
    {
        let mut ms: u64 = self.base_ms as u64;
        let mut n: u32 = 1;
        proof {
            assert(pow2(0) == 1);
            assert(self.base_ms * pow2(0) == self.base_ms) by (nonlinear_arith)
                requires
                    pow2(0) == 1,
            ;
        }
        while n < attempt && ms < self.cap_ms as u64
            invariant
                1 <= n <= attempt,
                ms == self.base_ms * pow2((n - 1) as nat),
                ms < 2 * 0x1_0000_0000,
            decreases attempt - n,
        {
            proof {
                assert(pow2(n as nat) == 2 * pow2((n - 1) as nat));
                assert(self.base_ms * (2 * pow2((n - 1) as nat)) == 2 * (self.base_ms * pow2(
                    (n - 1) as nat,
                ))) by (nonlinear_arith);
            }
            ms = ms * 2;
            n = n + 1;
        }
        if ms < self.cap_ms as u64 {
            ms as u32
        } else {
            proof {
                lemma_pow2_grows((n - 1) as nat, (attempt - 1) as nat);
                let a = pow2((n - 1) as nat);
                let b = pow2((attempt - 1) as nat);
                assert(self.base_ms * a <= self.base_ms * b) by (nonlinear_arith)
                    requires
                        a <= b,
                ;
            }
            self.cap_ms
        }
    }

    /// Counts one more attempt and gives the delay before it, in
    /// milliseconds: the base doubled once per earlier attempt, but no more
    /// than the cap, times the jitter drawn, which is kept within a half and
    /// one and a half.
    pub fn next_delay(&mut self, drawn_permille: u32) -> (ms: u64)
        ensures
            final(self).base() == old(self).base(),
            final(self).cap() == old(self).cap(),
            final(self).attempts() == if old(self).attempts() < u32::MAX {
                old(self).attempts() + 1
            } else {
                old(self).attempts()
            },
            ms == delay_ms(
                old(self).base(),
                old(self).cap(),
                final(self).attempts(),
                drawn_permille,
            ),
    {
        if self.attempts < u32::MAX {
            self.attempts = self.attempts + 1;
        }
        let jitter: u64 = if drawn_permille < 500 {
            500
        } else if drawn_permille > 1500 {
            1500
        } else {
            drawn_permille as u64
        };
        let ceiling = self.ceiling_for(self.attempts) as u64;
        assert(ceiling * jitter <= 0xffff_ffff * 1500) by (nonlinear_arith)
            requires
                ceiling <= 0xffff_ffff,
                jitter <= 1500,
        ;
        ceiling * jitter / 1000
    }
}

impl Default for Backoff {
    /// A base of ten milliseconds and a cap of five seconds.
    fn default() -> (backoff: Backoff)
        ensures
            backoff.base() == 10,
            backoff.cap() == 5000,
            backoff.attempts() == 0,
    {
        Backoff::new(10, 5000)
    }
}

/// The time to wake at after a delay, where that is not past the deadline;
/// else the call has timed out. Times are in milliseconds on one clock.
pub fn wake_time(now_ms: u64, delay_ms: u64, deadline_ms: u64) -> (wake: Result<u64, Error>)
    ensures
        now_ms + delay_ms <= deadline_ms <==> wake is Ok,
        wake matches Ok(at) ==> at == now_ms + delay_ms,
        wake matches Err(error) ==> error is TimedOut,
{
    match now_ms.checked_add(delay_ms) {
        Some(at) => {
            if at <= deadline_ms {
                Ok(at)
            } else {
                Err(Error::TimedOut)
            }
        },
        None => Err(Error::TimedOut),
    }
}

/// A delay is at most one and a half times the cap, and at least half the
/// smaller of base and cap.
pub proof fn lemma_delay_bounds(base_ms: nat, cap_ms: nat, attempt: nat, drawn_permille: u32)
    requires
        attempt >= 1,
    ensures
        delay_ms(base_ms, cap_ms, attempt, drawn_permille) <= cap_ms * 1500 / 1000,
        ceiling(base_ms, cap_ms, attempt) <= cap_ms,
        base_ms <= cap_ms ==> base_ms <= ceiling(base_ms, cap_ms, attempt),
{
    let c = ceiling(base_ms, cap_ms, attempt);
    let j = jitter_of(drawn_permille);
    let p = pow2((attempt - 1) as nat);
    lemma_pow2_grows(0, (attempt - 1) as nat);
    assert(c * j <= cap_ms * 1500) by (nonlinear_arith)
        requires
            c <= cap_ms,
            j <= 1500,
    ;
    assert(base_ms * 1 <= base_ms * p) by (nonlinear_arith)
        requires
            1 <= p,
    ;
}

} // verus!

//! How long to wait before reconnecting: twice as long each time, up to a cap,
//! and from the start again after a connection that held.

use vstd::prelude::*;

verus! {

/// The longest wait before reconnecting to the upstream, in seconds.
pub const UPSTREAM_CAP_SECS: u64 = 60;

/// The longest wait before resubscribing over draft-07, in seconds.
pub const DRAFT07_CAP_SECS: u64 = 30;

/// A connection that lasted longer than this held: one minute, in nanoseconds.
pub const HELD_NANOS: u128 = 60_000_000_000;

/// The wait before the next attempt.
#[derive(Debug, Clone, Copy, PartialEq, Eq, Structural)]
pub struct Backoff {
    /// How long to wait, in seconds.
    pub secs: u64,
    /// The longest wait, in seconds.
    pub cap: u64,
}

/// The wait after a connection that lasted this long.
pub open spec fn wait_after(b: Backoff, elapsed_nanos: u128) -> u64 {
    if elapsed_nanos > HELD_NANOS {
        1
    } else {
        b.secs
    }
}

/// The backoff after waiting `waited` seconds.
pub open spec fn doubled(b: Backoff, waited: u64) -> Backoff {
    Backoff {
        secs: if 2 * waited < b.cap {
            (2 * waited) as u64
        } else {
            b.cap
        },
        ..b
    }
}

impl Backoff {
    /// The wait is within its bounds.
    pub open spec fn wf(self) -> bool {
        1 <= self.secs <= self.cap <= u64::MAX / 2
    }

    /// The first wait is a second.
    pub fn new(cap: u64) -> (r: Backoff)
        requires
            1 <= cap <= u64::MAX / 2,
        ensures
            r.wf(),
            r == (Backoff { secs: 1, cap }),
    {
        Backoff { secs: 1, cap }
    }

    /// The connection ended after it had lasted `elapsed_nanos`: says how many
    /// seconds to wait before the next attempt.
    pub fn ended(&mut self, elapsed_nanos: u128) -> (wait: u64)
        requires
            old(self).wf(),
        ensures
            final(self).wf(),
            wait == wait_after(*old(self), elapsed_nanos),
            *final(self) == doubled(*old(self), wait),
    {
        if elapsed_nanos > HELD_NANOS {
            self.secs = 1;
        }
        let wait = self.secs;
        self.secs = if 2 * wait < self.cap {
            2 * wait
        } else {
            self.cap
        };
        wait
    }
}

/// The wait never exceeds the cap, never falls below a second, and never gets
/// shorter while connections keep failing.
pub proof fn law_waits_grow_to_the_cap(b: Backoff, elapsed_nanos: u128)
    requires
        b.wf(),
    ensures
        1 <= wait_after(b, elapsed_nanos) <= b.cap,
        ({
            let next = doubled(b, wait_after(b, elapsed_nanos));
            &&& next.wf()
            &&& wait_after(next, 0) >= wait_after(b, elapsed_nanos)
            &&& wait_after(b, elapsed_nanos) < b.cap ==> wait_after(next, 0) > wait_after(
                b,
                elapsed_nanos,
            )
        }),
{
}

/// After a connection that held, the wait is a second again.
pub proof fn law_held_connection_resets(b: Backoff, elapsed_nanos: u128)
    requires
        elapsed_nanos > HELD_NANOS,
    ensures
        wait_after(b, elapsed_nanos) == 1,
{
}

/// The wait after `n` failures in a row, none of which held.
pub open spec fn after_failures(b: Backoff, n: nat) -> Backoff
    decreases n,
{
    if n == 0 {
        b
    } else {
        let before = after_failures(b, (n - 1) as nat);
        doubled(before, wait_after(before, 0))
    }
}

/// Two to the power of `n`, but no more than `cap`.
pub open spec fn capped_power(n: nat, cap: nat) -> nat
    decreases n,
{
    if n == 0 {
        1
    } else if 2 * capped_power((n - 1) as nat, cap) < cap {
        2 * capped_power((n - 1) as nat, cap)
    } else {
        cap
    }
}

/// While connections keep failing, the waits are one second, then two, four and
/// so on up to the cap; and the cap itself never changes.
pub proof fn law_waits_double(cap: u64, n: nat, elapsed_nanos: u128)
    requires
        1 <= cap <= u64::MAX / 2,
        elapsed_nanos <= 60_000_000_000,
    ensures
        ({
            let b = after_failures(Backoff { secs: 1, cap }, n);
            &&& b.cap == cap
            &&& b.wf()
            &&& wait_after(b, elapsed_nanos) == capped_power(n, cap as nat)
        }),
    decreases n,
{
    if n > 0 {
        law_waits_double(cap, (n - 1) as nat, 0);
    }
}

/// A connection that lasted longer than a minute held, and no other did.
pub proof fn law_a_minute_is_held(b: Backoff, elapsed_nanos: u128)
    ensures
        elapsed_nanos > 60_000_000_000 ==> wait_after(b, elapsed_nanos) == 1,
        elapsed_nanos <= 60_000_000_000 ==> wait_after(b, elapsed_nanos) == b.secs,
        UPSTREAM_CAP_SECS == 60,
        DRAFT07_CAP_SECS == 30,
{
}

} // verus!

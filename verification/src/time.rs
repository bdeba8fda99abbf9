//! Lengths of time, as whole nanoseconds, and the clock.

use std::time::Instant;

use vstd::prelude::*;

verus! {

/// `std::time::Instant`: a point on the monotonic clock, carried through unread.
#[verifier::external_type_specification]
#[verifier::external_body]
pub struct ExInstant(Instant);

/// `Instant::now` reads the monotonic clock. Nothing is claimed of the reading.
pub assume_specification[ Instant::now ]() -> Instant;

/// `Instant::elapsed`, in nanoseconds. Nothing is claimed of the reading: it depends on the
/// clock.
#[verifier::external_body]
pub(crate) fn elapsed_nanos(start: &Instant) -> (nanos: u128) {
    start.elapsed().as_nanos()
}

/// A length of time.
#[derive(Debug, Clone, Copy, PartialEq, Eq, Structural)]
pub struct Duration {
    nanos: u128,
}

/// Nanoseconds in a second.
pub const NANOS_PER_SEC: u128 = 1_000_000_000;

impl View for Duration {
    type V = nat;

    closed spec fn view(&self) -> nat {
        self.nanos as nat
    }
}

/// The longest length of time, in nanoseconds.
pub const MAX_NANOS: u128 = 18_446_744_073_709_551_615_999_999_999;

impl Duration {
    #[verifier::type_invariant]
    spec fn in_range(self) -> bool {
        self.nanos <= MAX_NANOS
    }

    /// `nanos` nanoseconds.
    pub fn from_nanos(nanos: u64) -> (d: Self)
        ensures
            d@ == nanos,
    {
        Duration { nanos: nanos as u128 }
    }

    /// `millis` milliseconds.
    pub fn from_millis(millis: u64) -> (d: Self)
        ensures
            d@ == millis * 1_000_000,
    {
        Duration { nanos: millis as u128 * 1_000_000 }
    }

    /// The length in nanoseconds.
    pub fn as_nanos(&self) -> (nanos: u128)
        ensures
            nanos == self@,
            nanos <= MAX_NANOS,
    {
        proof {
            use_type_invariant(self);
        }
        self.nanos
    }
}

/// The time that `frames` frames take at `hz` frames per second, rounded down to a nanosecond
/// and cut off at the largest 64-bit count of nanoseconds.
pub open spec fn frames_nanos(frames: nat, hz: nat) -> nat
    recommends
        hz > 0,
{
    let ns = frames * 1_000_000_000 / hz;
    if ns <= u64::MAX {
        ns
    } else {
        u64::MAX as nat
    }
}

/// See [`frames_nanos`].
pub fn nanos_of_frames(frames: u64, hz: u32) -> (ns: u64)
    requires
        hz > 0,
    ensures
        ns == frames_nanos(frames as nat, hz as nat),
{
    let total: u128 = frames as u128 * NANOS_PER_SEC;
    let ns: u128 = total / hz as u128;
    if ns <= u64::MAX as u128 {
        ns as u64
    } else {
        u64::MAX
    }
}

/// A sequence of frames never takes less time when frames are added to it.
pub proof fn frames_nanos_grows(a: nat, b: nat, hz: nat)
    requires
        a <= b,
        hz > 0,
    ensures
        frames_nanos(a, hz) <= frames_nanos(b, hz),
{
    assert(a * 1_000_000_000 / hz <= b * 1_000_000_000 / hz) by (nonlinear_arith)
        requires
            a <= b,
            hz > 0,
    ;
}

/// As many frames as the rate has are one second, and the time of some frames is never more, and
/// by less than a nanosecond less, than theirs, as long as it can be represented.
pub proof fn a_rate_of_frames_is_a_second(seconds: nat, frames: nat, hz: nat)
    requires
        hz > 0,
    ensures
        seconds * 1_000_000_000 <= u64::MAX ==> frames_nanos(seconds * hz, hz) == seconds
            * 1_000_000_000,
        frames_nanos(frames, hz) * hz <= frames * 1_000_000_000,
        frames_nanos(frames, hz) < u64::MAX ==> frames * 1_000_000_000 < (frames_nanos(frames, hz)
            + 1) * hz,
{
    assert(seconds * hz * 1_000_000_000 / hz == seconds * 1_000_000_000) by (nonlinear_arith)
        requires
            hz > 0,
    ;
    let total = frames * 1_000_000_000;
    let ns = total / hz;
    assert(ns * hz <= total && total < (ns + 1) * hz) by (nonlinear_arith)
        requires
            hz > 0,
            ns == total / hz,
    ;
    if ns > u64::MAX {
        assert(u64::MAX * hz <= ns * hz) by (nonlinear_arith)
            requires
                u64::MAX < ns,
        ;
    }
}

} // verus!

//! Profiles: their bounds, and the format in which they are exchanged.
use vstd::prelude::*;

pub mod pprof;

verus! {

/// The longest time that a profile may take. It is a cap and no default: a profiler
/// that suspends threads is a cost that its target pays.
pub const MAX_DURATION_MS: u64 = 60_000;

/// How often threads are sampled unless asked otherwise. It is not a round number,
/// so that it does not keep step with other timers.
pub const DEFAULT_HZ: u32 = 99;

/// The lowest frequency that is accepted.
pub const MIN_HZ: u32 = 1;

/// The highest frequency that is accepted.
pub const MAX_HZ: u32 = 1000;

/// How many samples a profile can hold. It ends when it is full.
pub const RING_CAPACITY: usize = 65_536;

/// How many samples a profile takes: one for every thread at every tick.
pub open spec fn samples_taken(hz: nat, milliseconds: nat, threads: nat) -> nat {
    hz * milliseconds * threads / 1000
}

/// At the default frequency there is room for the longest profile of up to eleven
/// threads, and for ten seconds of up to sixty-six, but of no more.
pub proof fn room_for_default_profiles(threads: nat)
    ensures
        samples_taken(DEFAULT_HZ as nat, MAX_DURATION_MS as nat, threads) <= RING_CAPACITY
            <==> threads <= 11,
        samples_taken(DEFAULT_HZ as nat, 10_000, threads) <= RING_CAPACITY <==> threads <= 66,
{
    assert(99 * 60_000 * threads / 1000 == 5940 * threads) by (nonlinear_arith);
    assert(99 * 10_000 * threads / 1000 == 990 * threads) by (nonlinear_arith);
}

} // verus!

//! Points in time as numbers: nanoseconds from the Unix epoch, negative before
//! it.

use vstd::prelude::*;

use crate::primitives::system_clock;

verus! {

pub const NANOS_PER_SECOND: i128 = 1_000_000_000;

/// A reading of the system clock as a number: a span from the epoch, or, as an
/// error, to it.
pub open spec fn moment(reading: Result<(u64, u32), (u64, u32)>) -> int {
    match reading {
        Ok((seconds, nanos)) => seconds * NANOS_PER_SECOND + nanos,
        Err((seconds, nanos)) => -(seconds * NANOS_PER_SECOND + nanos),
    }
}

/// A reading of the system clock as a number.
pub fn moment_of(reading: Result<(u64, u32), (u64, u32)>) -> (r: i128)
    ensures
        r == moment(reading),
{
    match reading {
        Ok((seconds, nanos)) => seconds as i128 * NANOS_PER_SECOND + nanos as i128,
        Err((seconds, nanos)) => -(seconds as i128 * NANOS_PER_SECOND + nanos as i128),
    }
}

/// What the clock can show: whole seconds, and a fraction of one.
pub open spec fn is_reading(reading: Result<(u64, u32), (u64, u32)>) -> bool {
    match reading {
        Ok((_, nanos)) => nanos < NANOS_PER_SECOND,
        Err((_, nanos)) => nanos < NANOS_PER_SECOND,
    }
}

/// The present moment: what `moment` makes of a reading of the system clock.
/// Which reading it is, is the clock's, and left open.
pub fn clock_now() -> (r: i128)
    ensures
        exists|reading: Result<(u64, u32), (u64, u32)>|
            is_reading(reading) && r == #[trigger] moment(reading),
{
    moment_of(system_clock())
}

/// The whole seconds in a span of nanoseconds; zero for a negative span, and
/// for one whose seconds do not fit.
pub open spec fn whole_seconds(nanos: int) -> u64 {
    if 0 <= nanos && nanos / (NANOS_PER_SECOND as int) <= u64::MAX {
        (nanos / (NANOS_PER_SECOND as int)) as u64
    } else {
        0
    }
}

/// The whole seconds from one moment to another.
pub fn seconds_between(from: i128, to: i128) -> (r: u64)
    ensures
        r == whole_seconds(to - from),
{
    match to.checked_sub(from) {
        Some(nanos) => {
            if nanos < 0 {
                return 0;
            }
            let seconds: i128 = nanos / NANOS_PER_SECOND;
            if seconds <= u64::MAX as i128 {
                seconds as u64
            } else {
                0
            }
        },
        None => 0,
    }
}

// ---------------------------------------------------------------------------
// Laws
// ---------------------------------------------------------------------------

/// A second is a thousand million nanoseconds, the nanoseconds of a reading
/// count on top, and a reading from before the epoch is the same with a minus.
pub proof fn law_moment_counts_nanoseconds(seconds: u64, nanos: u32)
    ensures
        moment(Ok((0, nanos))) == nanos,
        seconds < u64::MAX ==> moment(Ok(((seconds + 1) as u64, nanos))) == moment(
            Ok((seconds, nanos)),
        ) + 1_000_000_000,
        moment(Ok((seconds, nanos))) == 1_000_000_000 * seconds + nanos,
        moment(Err((seconds, nanos))) + moment(Ok((seconds, nanos))) == 0,
{
}

/// The whole seconds of a span are as many as fit in it and no more; a
/// negative span has none.
pub proof fn law_whole_seconds_fit(nanos: int)
    ensures
        nanos < 0 ==> whole_seconds(nanos) == 0,
        0 <= nanos < 0x1_0000_0000_0000_0000 * 1_000_000_000 ==> 1_000_000_000 * whole_seconds(
            nanos,
        ) <= nanos < 1_000_000_000 * whole_seconds(nanos) + 1_000_000_000,
{
}

} // verus!

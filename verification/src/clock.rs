//! A minimal clock abstraction, so that the sticky-events
//! [`EphemeralMap`](crate::map::EphemeralMap) can be driven deterministically.

use vstd::prelude::*;

verus! {

/// Source of "now" used to compute sticky-event expiry.
pub trait Clock: std::fmt::Debug + Send + Sync {
    /// The current time, in milliseconds since the Unix epoch.
    fn now_ms(&self) -> u64;
}

/// `now` is a time that `clock` may tell when it is read.
pub open spec fn tells<C: Clock + ?Sized>(clock: &C, now: u64) -> bool {
    call_ensures(C::now_ms, (clock,), now)
}

/// Each of `times` is one that `clock` may tell when it is read.
pub open spec fn tells_all<C: Clock + ?Sized>(clock: &C, times: Seq<u64>) -> bool {
    forall|i: int| 0 <= i < times.len() ==> tells(clock, #[trigger] times[i])
}

/// The real system clock, used in production.
#[derive(Debug, Clone)]
pub struct SystemClock;

impl Default for SystemClock {
    fn default() -> (clock: Self)
        ensures
            clock == SystemClock,
    {
        SystemClock
    }
}

/// The system time, by `ruma::MilliSecondsSinceUnixEpoch::now`.
///
/// The value rests on the machine, so all that is claimed of it is the range of
/// the `js_int::UInt` that carries it: at most two to the power of 53, minus
/// one. The outside function panics where the system time lies before the Unix
/// epoch or beyond that range.
#[verifier::external_body]
fn system_now_ms() -> (now: u64)
    ensures
        now <= 0x1F_FFFF_FFFF_FFFF,
{
    ruma::MilliSecondsSinceUnixEpoch::now().get().into()
}

impl Clock for SystemClock {
    fn now_ms(&self) -> (now: u64)
        ensures
            now <= 0x1F_FFFF_FFFF_FFFF,
    {
        system_now_ms()
    }
}

/// A time that a clock tells is one that a reading of that very clock may give.
pub proof fn law_told_times_come_from_the_clock<C: Clock + ?Sized>(
    clock: &C,
    now: u64,
    times: Seq<u64>,
    i: int,
)
    ensures
        tells(clock, now) ==> call_ensures(C::now_ms, (clock,), now),
        tells_all(clock, times) && 0 <= i < times.len() ==> call_ensures(
            C::now_ms,
            (clock,),
            times[i],
        ),
{
}

} // verus!

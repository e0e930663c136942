//! The monotonic clock that latencies are measured against.

use vstd::prelude::*;
use std::time::Instant;
use crate::stats::MAX_LATENCY_NANOS;

verus! {

/// `std::time::Instant`, a reading of the monotonic clock, carried through
/// unopened.
#[verifier::external_type_specification]
#[verifier::external_body]
pub struct ExInstant(Instant);

/// The time from `start` to `end` in nanoseconds, zero when `end` is not
/// later: what `Instant::saturating_duration_since` gives, taken by
/// `Duration::as_nanos`. It depends on the two instants alone.
pub uninterp spec fn instant_gap(start: Instant, end: Instant) -> u128;

/// `a` is no earlier than `b`: no time passes from `a` to `b`.
pub open spec fn not_before(a: Instant, b: Instant) -> bool {
    instant_gap(a, b) == 0
}

/// The readings a clock has taken, oldest first. Its field is private, so
/// what it holds is only ever the results of `now`, in the order they were
/// taken.
pub struct Clock {
    readings: Ghost<Seq<Instant>>,
}

impl Clock {
    /// The readings taken so far, oldest first.
    pub closed spec fn readings(&self) -> Seq<Instant> {
        self.readings@
    }

    /// A clock that has taken no reading.
    pub fn new() -> (c: Clock)
        ensures
            c.readings() == Seq::<Instant>::empty(),
    {
        Clock { readings: Ghost(Seq::empty()) }
    }

    /// Takes a reading of the monotonic clock: it is no earlier than any
    /// reading taken before, and it is added to the readings.
    pub fn read(&mut self) -> (t: Instant)
        ensures
            final(self).readings() == old(self).readings().push(t),
            forall|i: int|
                0 <= i < old(self).readings().len() ==> not_before(
                    t,
                    #[trigger] old(self).readings()[i],
                ),
    {
        let t = now(self);
        self.readings = Ghost(self.readings@.push(t));
        t
    }
}

/// Calls `Instant::now`. Claimed: the reading is no earlier than any
/// reading `clock` holds. Those are all earlier results of this call (the
/// clock's field is private and only `Clock::read` adds to it), and the
/// documentation of `Instant` guarantees that an instant is never less
/// than any previously measured instant. How much later it is depends on
/// the time of the call, so nothing more is claimed.
#[verifier::external_body]
pub(crate) fn now(clock: &Clock) -> (t: Instant)
    ensures
        forall|i: int|
            0 <= i < clock.readings().len() ==> not_before(t, #[trigger] clock.readings()[i]),
{
    Instant::now()
}

/// Calls `end.saturating_duration_since(start)` and takes the `Duration` in
/// nanoseconds with `Duration::as_nanos`. Claimed: the result is the gap
/// between the two instants it was handed, at most what a `Duration` can
/// hold; the gap from `start` to any instant no later than `end` is no
/// larger; and for an instant `b` between `start` and `end` the gaps from
/// `start` to `b` and from `b` to `end` add up to it, since a `Duration`
/// counts whole seconds and nanoseconds alike.
#[verifier::external_body]
pub(crate) fn gap_nanos(start: &Instant, end: &Instant) -> (r: u128)
    ensures
        r == instant_gap(*start, *end),
        r <= MAX_LATENCY_NANOS,
        forall|c: Instant| not_before(*end, c) ==> #[trigger] instant_gap(*start, c) <= r,
        forall|b: Instant|
            not_before(b, *start) && not_before(*end, b) ==> #[trigger] instant_gap(*start, b)
                + instant_gap(b, *end) == r,
{
    end.saturating_duration_since(*start).as_nanos()
}

} // verus!

//! Frame clock: the time between two updates and the total time since start.
use std::time::Instant;
use vstd::prelude::*;

verus! {

/// The largest number of nanoseconds a `std::time::Duration` can hold
/// (`u64::MAX` seconds plus 999_999_999 nanoseconds).
pub const DURATION_MAX_NANOS: u128 = 18_446_744_073_709_551_615_999_999_999u128;

#[verifier::external_type_specification]
#[verifier::external_body]
pub struct ExInstant(std::time::Instant);

/// Reads the monotonic clock (`std::time::Instant::now`).
/// Nothing is claimed about the value read: it depends on the machine clock.
#[verifier::external_body]
fn instant_now() -> Instant {
    Instant::now()
}

/// The nanoseconds from the reading `earlier` to the reading `later`, zero
/// where `later` comes first: what `Instant::saturating_duration_since`
/// followed by `Duration::as_nanos` gives for these two readings.
pub uninterp spec fn clock_nanos_between(later: Instant, earlier: Instant) -> nat;

/// `later - earlier` as a number of nanoseconds, through
/// `std::time::Instant::saturating_duration_since` and `Duration::as_nanos`.
/// The documentation of `Instant` guarantees saturation at zero (no panic).
/// The contract claims the named difference of the two readings, which
/// depends on them alone, and the bound that every `Duration` obeys.
#[verifier::external_body]
fn nanos_between(later: &Instant, earlier: &Instant) -> (r: u128)
    ensures
        r == clock_nanos_between(*later, *earlier),
        r <= DURATION_MAX_NANOS,
{
    later.saturating_duration_since(*earlier).as_nanos()
}

/// The frame clock resource.
pub struct Time {
    delta_nanos: u128,
    last_update: Instant,
    elapsed_nanos: u128,
}

impl Time {
    /// Nanoseconds between the last two updates.
    pub closed spec fn spec_delta(&self) -> nat {
        self.delta_nanos as nat
    }

    /// Nanoseconds accumulated over all updates.
    pub closed spec fn spec_elapsed(&self) -> nat {
        self.elapsed_nanos as nat
    }

    /// The clock reading of the last update (or of creation).
    pub closed spec fn spec_last_update(&self) -> Instant {
        self.last_update
    }

    /// Well-formedness: both counters stay within what a `Duration` holds.
    pub closed spec fn wf(&self) -> bool {
        &&& self.delta_nanos <= DURATION_MAX_NANOS
        &&& self.elapsed_nanos <= DURATION_MAX_NANOS
    }

    /// A clock that starts now, with nothing elapsed yet.
    pub fn new() -> (t: Time)
        ensures
            t.wf(),
            t.spec_delta() == 0,
            t.spec_elapsed() == 0,
    {
        Time { delta_nanos: 0, last_update: instant_now(), elapsed_nanos: 0 }
    }

    /// Reads the clock and advances by the time since the previous update:
    /// the clock advances, as `advance` does, to the reading it took, by the
    /// time from the previous reading to that one.
    pub fn update(&mut self)
        requires
            old(self).wf(),
        ensures
            final(self).wf(),
            final(self).spec_delta() == clock_nanos_between(final(self).spec_last_update(), old(self).spec_last_update()),
            advanced_by(*old(self), *final(self), final(self).spec_last_update(), final(self).spec_delta()),
            final(self).spec_elapsed() == if old(self).spec_elapsed() + final(self).spec_delta()
                <= DURATION_MAX_NANOS {
                old(self).spec_elapsed() + final(self).spec_delta()
            } else {
                DURATION_MAX_NANOS as nat
            },
    {
        let now = instant_now();
        let delta = nanos_between(&now, &self.last_update);
        self.advance(now, delta);
    }

    /// Advances the clock to `now`, `delta_nanos` after the previous update:
    /// the delta becomes `delta_nanos` and is added to the elapsed total,
    /// which saturates at the largest `Duration` instead of overflowing.
    pub fn advance(&mut self, now: Instant, delta_nanos: u128)
        requires
            old(self).wf(),
            delta_nanos <= DURATION_MAX_NANOS,
        ensures
            final(self).wf(),
            final(self).spec_last_update() == now,
            final(self).spec_delta() == delta_nanos,
            final(self).spec_elapsed() == if old(self).spec_elapsed() + delta_nanos <= DURATION_MAX_NANOS {
                old(self).spec_elapsed() + delta_nanos
            } else {
                DURATION_MAX_NANOS as int
            },
    {
        self.delta_nanos = delta_nanos;
        self.last_update = now;
        if self.elapsed_nanos <= DURATION_MAX_NANOS - delta_nanos {
            self.elapsed_nanos = self.elapsed_nanos + delta_nanos;
        } else {
            self.elapsed_nanos = DURATION_MAX_NANOS;
        }
    }

    /// Nanoseconds between the last two updates.
    pub fn delta_nanos(&self) -> (r: u128)
        ensures
            r == self.spec_delta(),
    {
        self.delta_nanos
    }

    /// Nanoseconds accumulated since the clock was created.
    pub fn elapsed_nanos(&self) -> (r: u128)
        ensures
            r == self.spec_elapsed(),
    {
        self.elapsed_nanos
    }
}

impl Default for Time {
    fn default() -> (t: Time)
        ensures
            t.wf(),
            t.spec_delta() == 0,
            t.spec_elapsed() == 0,
    {
        Time::new()
    }
}

/// What one call of `advance(now, delta)` makes of the clock `before`.
pub open spec fn advanced_by(before: Time, after: Time, now: Instant, delta: nat) -> bool {
    &&& after.wf()
    &&& after.spec_last_update() == now
    &&& after.spec_delta() == delta
    &&& after.spec_elapsed() == if before.spec_elapsed() + delta <= DURATION_MAX_NANOS {
        before.spec_elapsed() + delta
    } else {
        DURATION_MAX_NANOS as nat
    }
}

/// Sum of a sequence of deltas.
pub open spec fn sum_deltas(deltas: Seq<nat>) -> nat
    decreases deltas.len(),
{
    if deltas.len() == 0 {
        0
    } else {
        sum_deltas(deltas.drop_last()) + deltas.last()
    }
}

/// Over successive advances of one clock, whose deltas sum to no more than a
/// `Duration` holds, the elapsed total grows by exactly the sum of the
/// deltas, and the clock ends holding the last delta and the last reading.
pub proof fn lemma_successive_advances(clocks: Seq<Time>, readings: Seq<Instant>, deltas: Seq<nat>)
    requires
        clocks.len() == deltas.len() + 1,
        readings.len() == deltas.len(),
        forall|i: int| 0 <= i < deltas.len() ==> #[trigger] advanced_by(clocks[i], clocks[i + 1], readings[i], deltas[i]),
        clocks[0].spec_elapsed() + sum_deltas(deltas) <= DURATION_MAX_NANOS,
    ensures
        clocks.last().spec_elapsed() == clocks[0].spec_elapsed() + sum_deltas(deltas),
        deltas.len() > 0 ==> clocks.last().spec_delta() == deltas.last(),
        deltas.len() > 0 ==> clocks.last().spec_last_update() == readings.last(),
    decreases deltas.len(),
{
    if deltas.len() > 0 {
        let n = deltas.len() - 1;
        let cs = clocks.drop_last();
        let rs = readings.drop_last();
        let ds = deltas.drop_last();
        assert forall|i: int| 0 <= i < ds.len() implies #[trigger] advanced_by(cs[i], cs[i + 1], rs[i], ds[i]) by {
            assert(advanced_by(clocks[i], clocks[i + 1], readings[i], deltas[i]));
        }
        lemma_successive_advances(cs, rs, ds);
        assert(advanced_by(clocks[n], clocks[n + 1], readings[n], deltas[n]));
    }
}

/// What one call of `update` makes of the clock `before`: it advances to its
/// new reading by the time from the previous reading to that one.
pub open spec fn updated(before: Time, after: Time) -> bool {
    &&& after.spec_delta() == clock_nanos_between(after.spec_last_update(), before.spec_last_update())
    &&& advanced_by(before, after, after.spec_last_update(), after.spec_delta())
}

/// The time between successive readings of a clock over a run of updates,
/// summed: from the reading of `clocks[0]` to that of the last clock.
pub open spec fn reading_gaps(clocks: Seq<Time>) -> nat
    decreases clocks.len(),
{
    if clocks.len() <= 1 {
        0
    } else {
        reading_gaps(clocks.drop_last()) + clock_nanos_between(
            clocks.last().spec_last_update(),
            clocks[clocks.len() - 2].spec_last_update(),
        )
    }
}

/// Over successive updates of one clock, whose measured times sum to no more
/// than a `Duration` holds, the elapsed total grows by exactly the time
/// between successive readings, summed from the first reading to the last,
/// and the last delta is the time between the last two readings.
pub proof fn lemma_successive_updates(clocks: Seq<Time>)
    requires
        clocks.len() >= 1,
        forall|i: int| 0 <= i < clocks.len() - 1 ==> #[trigger] updated(clocks[i], clocks[i + 1]),
        clocks[0].spec_elapsed() + reading_gaps(clocks) <= DURATION_MAX_NANOS,
    ensures
        clocks.last().spec_elapsed() == clocks[0].spec_elapsed() + reading_gaps(clocks),
        clocks.len() >= 2 ==> clocks.last().spec_delta() == clock_nanos_between(
            clocks.last().spec_last_update(),
            clocks[clocks.len() - 2].spec_last_update(),
        ),
    decreases clocks.len(),
{
    if clocks.len() >= 2 {
        let n = clocks.len() - 2;
        let cs = clocks.drop_last();
        assert forall|i: int| 0 <= i < cs.len() - 1 implies #[trigger] updated(cs[i], cs[i + 1]) by {
            assert(updated(clocks[i], clocks[i + 1]));
        }
        lemma_successive_updates(cs);
        assert(updated(clocks[n], clocks[n + 1]));
        assert(cs.last() == clocks[n]);
    }
}

} // verus!

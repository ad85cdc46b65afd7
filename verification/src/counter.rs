//! A frame counter resource.
use vstd::prelude::*;

verus! {

/// Counts the frames the counter system has run on.
#[derive(Clone, Copy, Debug, PartialEq, Eq)]
pub struct Counter(pub u32);

impl Default for Counter {
    /// A counter at zero.
    fn default() -> (r: Counter)
        ensures
            r.0 == 0,
    {
        Counter(0)
    }
}

/// Counts one more frame.  The counter does not wrap: a counter at
/// `u32::MAX` cannot be incremented.
pub fn increment_counter(counter: &mut Counter)
    requires
        old(counter).0 < u32::MAX,
    ensures
        final(counter).0 == old(counter).0 + 1,
{
    counter.0 = counter.0 + 1;
}

} // verus!

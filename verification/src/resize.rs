//! Which window resizes rebuild the render targets: the resize events of a
//! frame are applied in order until the first one with a zero side, which
//! ends the frame's handling (a minimised window has nothing to render into).
use vstd::prelude::*;

verus! {

/// The sizes that are applied, in order: those before the first size with a
/// zero width or height.
pub open spec fn applied_sizes(events: Seq<(u32, u32)>) -> Seq<(u32, u32)>
    decreases events.len(),
{
    if events.len() == 0 || events[0].0 == 0 || events[0].1 == 0 {
        Seq::empty()
    } else {
        seq![events[0]] + applied_sizes(events.skip(1))
    }
}

/// The render-target sizes to rebuild for this frame's resize events.
pub fn resize_targets(events: &Vec<(u32, u32)>) -> (r: Vec<(u32, u32)>)
    ensures
        r@ == applied_sizes(events@),
        forall|i: int| 0 <= i < r@.len() ==> #[trigger] r@[i].0 > 0 && r@[i].1 > 0,
{
    let mut applied: Vec<(u32, u32)> = Vec::new();
    let mut k: usize = 0;
    assert(events@.skip(0) =~= events@);
    assert(applied@ + applied_sizes(events@) =~= applied_sizes(events@));
    while k < events.len()
        invariant
            k <= events@.len(),
            applied@ + applied_sizes(events@.skip(k as int)) == applied_sizes(events@),
            forall|i: int| 0 <= i < applied@.len() ==> #[trigger] applied@[i].0 > 0 && applied@[i].1 > 0,
        decreases events@.len() - k,
    {
        let (w, h) = events[k];
        if w == 0 || h == 0 {
            assert(applied_sizes(events@.skip(k as int)) =~= Seq::<(u32, u32)>::empty());
            assert(applied@ + Seq::<(u32, u32)>::empty() =~= applied@);
            return applied;
        }
        proof {
            let rest = events@.skip(k as int);
            assert(rest[0] == (w, h));
            assert(rest.skip(1) =~= events@.skip(k as int + 1));
            assert(applied@.push((w, h)) + applied_sizes(events@.skip(k as int + 1)) =~= applied@ + (seq![(w, h)]
                + applied_sizes(events@.skip(k as int + 1))));
        }
        applied.push((w, h));
        k = k + 1;
    }
    assert(events@.skip(k as int) =~= Seq::<(u32, u32)>::empty());
    assert(applied@ + Seq::<(u32, u32)>::empty() =~= applied@);
    applied
}

} // verus!

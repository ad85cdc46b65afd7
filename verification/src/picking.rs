//! Bookkeeping of GPU picking: a pick is dispatched over a square selection
//! box around the cursor, its results are read back asynchronously, and at
//! most one pick is in flight at a time.
use vstd::prelude::*;

verus! {

/// Side of the compute workgroup that scans the selection box.
pub const WORKGROUP_SIZE: u32 = 8;

/// Most entity ids the result buffer holds (after its count word).
pub const MAX_PICK_RESULTS: u32 = 256;

/// What to dispatch for one pick: the selection box `[x, y, width, height]`
/// and the number of workgroups along each axis.
pub struct PickDispatch {
    pub selection_box: [u32; 4],
    pub dispatch_x: u32,
    pub dispatch_y: u32,
}

/// Outcome of polling the asynchronous readback.
pub enum ReadbackStatus {
    /// The mapping has not completed yet.
    NotReady,
    /// The buffer could not be mapped.
    MapFailed,
    /// The buffer was mapped; these are its words.
    Mapped(Vec<u32>),
    /// The completion channel closed without a result.
    ChannelClosed,
}

/// Picking state: whether a pick is in flight and the last ids found.
pub struct GPUPicking {
    pending: bool,
    last_result: Option<Vec<u32>>,
}

/// Ids the result words hold: word 0 counts the hits, at most 256 of which
/// follow; no hit means no result.
pub open spec fn decoded(words: Seq<u32>) -> Option<Seq<u32>> {
    if words[0] == 0 {
        None
    } else {
        let n = if words[0] < MAX_PICK_RESULTS {
            words[0] as int
        } else {
            MAX_PICK_RESULTS as int
        };
        Some(words.subrange(1, 1 + n))
    }
}

/// The result words are long enough for the count they start with.
pub open spec fn readable(words: Seq<u32>) -> bool {
    &&& words.len() >= 1
    &&& words.len() > (if words[0] < MAX_PICK_RESULTS {
        words[0] as int
    } else {
        MAX_PICK_RESULTS as int
    })
}

pub open spec fn opt_view(r: Option<Vec<u32>>) -> Option<Seq<u32>> {
    match r {
        Some(v) => Some(v@),
        None => None,
    }
}

/// A readback whose count word is zero reports no hit; one whose count is
/// `n >= 1` reports exactly `min(n, 256)` ids, the words right after the
/// count, in order.
pub proof fn lemma_decoded_hits(words: Seq<u32>)
    requires
        readable(words),
    ensures
        decoded(words) is None <==> words[0] == 0,
        words[0] >= 1 ==> {
            &&& decoded(words) is Some
            &&& decoded(words).unwrap().len() == (if words[0] < MAX_PICK_RESULTS {
                words[0] as int
            } else {
                MAX_PICK_RESULTS as int
            })
            &&& forall|i: int| 0 <= i < decoded(words).unwrap().len() ==> #[trigger] decoded(words).unwrap()[i] == words[i + 1]
        },
{
}

/// Reads the ids out of the mapped result buffer.
pub fn decode_pick_results(words: &[u32]) -> (r: Option<Vec<u32>>)
    requires
        readable(words@),
    ensures
        opt_view(r) == decoded(words@),
{
    let count = words[0];
    if count == 0 {
        return None;
    }
    let n: usize = if count < MAX_PICK_RESULTS {
        count as usize
    } else {
        MAX_PICK_RESULTS as usize
    };
    let mut ids: Vec<u32> = Vec::new();
    let mut k: usize = 1;
    while k <= n
        invariant
            1 <= k <= n + 1,
            n < words@.len(),
            ids@ == words@.subrange(1, k as int),
        decreases n + 1 - k,
    {
        ids.push(words[k]);
        assert(ids@ =~= words@.subrange(1, k as int + 1));
        k = k + 1;
    }
    Some(ids)
}

/// The selection box centred on `position`, clamped at the screen's top-left.
pub open spec fn selection_box_of(position: (u32, u32), size: u32) -> Seq<u32> {
    let half = size / 2;
    seq![
        if position.0 >= half { (position.0 - half) as u32 } else { 0u32 },
        if position.1 >= half { (position.1 - half) as u32 } else { 0u32 },
        size,
        size,
    ]
}

/// Workgroups needed to cover `size` pixels.
pub open spec fn workgroups(size: u32) -> u32 {
    ((size + WORKGROUP_SIZE - 1) / WORKGROUP_SIZE as int) as u32
}

impl GPUPicking {
    /// Whether a pick is in flight.
    pub closed spec fn spec_pending(&self) -> bool {
        self.pending
    }

    /// The ids of the last completed pick, if any.
    pub closed spec fn spec_result(&self) -> Option<Seq<u32>> {
        opt_view(self.last_result)
    }

    /// Idle, with no result.
    pub fn new() -> (r: GPUPicking)
        ensures
            !r.spec_pending(),
            r.spec_result() is None,
    {
        GPUPicking { pending: false, last_result: None }
    }

    /// Starts a pick at `position` with a square box of `pick_box_size`
    /// pixels, unless one is already in flight (then nothing happens).
    pub fn pick(&mut self, position: (u32, u32), pick_box_size: u32) -> (r: Option<PickDispatch>)
        requires
            !old(self).spec_pending() ==> pick_box_size + WORKGROUP_SIZE <= u32::MAX,
        ensures
            old(self).spec_pending() ==> r is None && *final(self) == *old(self),
            !old(self).spec_pending() ==> {
                &&& r matches Some(d)
                &&& d.selection_box@ == selection_box_of(position, pick_box_size)
                &&& d.dispatch_x == workgroups(pick_box_size)
                &&& d.dispatch_y == workgroups(pick_box_size)
                &&& final(self).spec_pending()
                &&& final(self).spec_result() == old(self).spec_result()
            },
    {
        if self.is_picking_in_progress() {
            return None;
        }
        let half = pick_box_size / 2;
        let pick_x = position.0.saturating_sub(half);
        let pick_y = position.1.saturating_sub(half);
        let selection_box = [pick_x, pick_y, pick_box_size, pick_box_size];
        assert(selection_box[2] == pick_box_size && selection_box[3] == pick_box_size);
        let dispatch_x = (selection_box[2] + WORKGROUP_SIZE - 1) / WORKGROUP_SIZE;
        let dispatch_y = (selection_box[3] + WORKGROUP_SIZE - 1) / WORKGROUP_SIZE;
        self.pending = true;
        assert(selection_box@ =~= selection_box_of(position, pick_box_size));
        Some(PickDispatch { selection_box, dispatch_x, dispatch_y })
    }

    /// Takes in the readback status of the pick in flight.  Returns `true`
    /// when the pick ended this call (with ids, without, or by failure);
    /// returns `false`, changing nothing, when none is in flight or its
    /// result is not ready.
    pub fn check_and_update_result(&mut self, status: ReadbackStatus) -> (r: bool)
        requires
            status matches ReadbackStatus::Mapped(words) ==> readable(words@),
        ensures
            !old(self).spec_pending() ==> !r && *final(self) == *old(self),
            old(self).spec_pending() ==> match status {
                ReadbackStatus::NotReady => !r && *final(self) == *old(self),
                ReadbackStatus::MapFailed => r && !final(self).spec_pending() && final(self).spec_result() is None,
                ReadbackStatus::ChannelClosed => r && !final(self).spec_pending() && final(self).spec_result() is None,
                ReadbackStatus::Mapped(words) => r && !final(self).spec_pending() && final(self).spec_result() == decoded(words@),
            },
    {
        if !self.pending {
            return false;
        }
        match status {
            ReadbackStatus::NotReady => false,
            ReadbackStatus::MapFailed => {
                self.last_result = None;
                self.pending = false;
                true
            },
            ReadbackStatus::Mapped(words) => {
                self.last_result = decode_pick_results(words.as_slice());
                self.pending = false;
                true
            },
            ReadbackStatus::ChannelClosed => {
                self.last_result = None;
                self.pending = false;
                true
            },
        }
    }

    /// The ids found by the last completed pick, if any.
    pub fn get_last_result(&self) -> (r: Option<&Vec<u32>>)
        ensures
            match r {
                Some(v) => self.spec_result() == Some(v@),
                None => self.spec_result() is None,
            },
    {
        self.last_result.as_ref()
    }

    /// Forgets the last result.
    pub fn clear_result(&mut self)
        ensures
            final(self).spec_result() is None,
            final(self).spec_pending() == old(self).spec_pending(),
    {
        self.last_result = None;
    }

    /// Whether a pick is in flight.
    pub fn is_picking_in_progress(&self) -> (r: bool)
        ensures
            r == self.spec_pending(),
    {
        self.pending
    }
}

} // verus!

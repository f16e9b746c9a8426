//! The transmit and receive interface of a CAN controller, and what it owes
//! its callers about the order in which frames leave.

use crate::bank::law_cleared_bank_admits_nothing;
use crate::bank::FilterBank;
use crate::filter::Filter;
use crate::filter::FilterGroup;
use crate::frame::Frame;
use crate::frame::FrameView;
use crate::id::Id;
use vstd::prelude::*;

verus! {

/// The error of a non-blocking operation, `nb::Error`: either the operation
/// would have to block (`WouldBlock`), or it failed with an error of the
/// driver's own (`Other`).
///
/// Nothing is assumed of the type: its two variants are taken from the `nb`
/// crate as they stand.
#[verifier::external_type_specification]
#[verifier::reject_recursive_types(E)]
pub struct ExError<E>(nb::Error<E>);

/// Whether a frame sent under `a` wins arbitration against one sent under
/// `b`: the lower number wins.
pub open spec fn outranks(a: Id, b: Id) -> bool {
    a.raw() < b.raw()
}

/// The frames of `pending` that were sent under `id`, in their order.
pub open spec fn of_id(pending: Seq<FrameView>, id: Id) -> Seq<FrameView>
    decreases pending.len(),
{
    if pending.len() == 0 {
        Seq::empty()
    } else if pending.last().id == id {
        of_id(pending.drop_last(), id).push(pending.last())
    } else {
        of_id(pending.drop_last(), id)
    }
}

/// Whether the frame at index `k` is the one that leaves `pending` next: no
/// pending frame outranks it, and it outranks every frame queued before it.
pub open spec fn departs_next(pending: Seq<FrameView>, k: int) -> bool {
    &&& 0 <= k < pending.len()
    &&& forall|i: int| #![trigger pending[i]] 0 <= i < pending.len() ==> !outranks(pending[i].id, pending[k].id)
    &&& forall|i: int| #![trigger pending[i]] 0 <= i < k ==> outranks(pending[k].id, pending[i].id)
}

/// The index of the frame that leaves `pending` next.
pub open spec fn next_departure(pending: Seq<FrameView>) -> int {
    choose|k: int| departs_next(pending, k)
}

/// Whether `after` is what is left of `before` once some of its frames, maybe
/// none, have left for the bus, one after another.
pub open spec fn drained(before: Seq<FrameView>, after: Seq<FrameView>) -> bool
    decreases before.len(),
{
    let k = next_departure(before);
    before == after || (0 <= k < before.len() && drained(before.remove(k), after))
}

/// How a call of `transmit` ended.
pub enum Outcome {
    /// The frame was queued and there was room for it.
    Queued,
    /// The frame was queued in place of the given frame, which was handed
    /// back.
    Replaced(FrameView),
    /// Nothing was queued: the call would have had to block.
    WouldBlock,
    /// Nothing was queued: the driver failed.
    Failed,
}

/// How the result of `transmit` reads as an outcome.
pub open spec fn outcome_of<F: Frame, E>(sent: Result<Option<F>, nb::Error<E>>) -> Outcome {
    match sent {
        Ok(None) => Outcome::Queued,
        Ok(Some(evicted)) => Outcome::Replaced(evicted@),
        Err(nb::Error::WouldBlock) => Outcome::WouldBlock,
        Err(nb::Error::Other(_)) => Outcome::Failed,
    }
}

/// What `transmit` does to a transmit buffer of `capacity` frames that holds
/// `before`, oldest first, when it is handed `frame`.
///
/// A frame is queued behind all others. It is queued without more ado only
/// where there is room; in a full buffer it takes the place of one frame that
/// it outranks, and the other frames keep their order.
pub open spec fn transmitted(
    before: Seq<FrameView>,
    capacity: nat,
    frame: FrameView,
    outcome: Outcome,
    after: Seq<FrameView>,
) -> bool {
    match outcome {
        Outcome::Queued => before.len() < capacity && after == before.push(frame),
        Outcome::Replaced(evicted) => {
            &&& before.len() == capacity
            &&& exists|k: int|
                #![trigger before[k]]
                {
                    &&& 0 <= k < before.len()
                    &&& before[k] == evicted
                    &&& outranks(frame.id, evicted.id)
                    &&& after == before.remove(k).push(frame)
                }
        },
        Outcome::WouldBlock => after == before,
        Outcome::Failed => after == before,
    }
}

/// A controller as a mathematical value.
pub struct CanView {
    /// The frames in the transmit buffer, oldest first.
    pub pending: Seq<FrameView>,
    /// The number of frames that the transmit buffer holds at most.
    pub capacity: nat,
    /// The frames that the receive path lets through.
    pub gate: Set<FrameView>,
}

impl CanView {
    /// Whether `after` may follow on `self` while the caller does not touch
    /// the transmit buffer: pending frames may leave for the bus, and the
    /// buffer keeps its capacity.
    pub open spec fn idles_to(self, after: CanView) -> bool {
        &&& after.capacity == self.capacity
        &&& drained(self.pending, after.pending)
    }

    /// Whether a call of `transmit` with `frame` that ends in `outcome` may
    /// lead from `self` to `after`: pending frames may leave for the bus,
    /// then the frame is dealt with as `transmitted` says. The receive path
    /// is as it was.
    pub open spec fn transmits_to(self, frame: FrameView, outcome: Outcome, after: CanView) -> bool {
        &&& after.capacity == self.capacity
        &&& after.gate == self.gate
        &&& exists|ready: Seq<FrameView>|
            {
                &&& #[trigger] drained(self.pending, ready)
                &&& transmitted(ready, self.capacity, frame, outcome, after.pending)
            }
    }

    /// Whether a call of `receive` that yields `got` may lead from `self` to
    /// `after`: a frame that is yielded is one that the receive path lets
    /// through, and the receive path is as it was.
    pub open spec fn receives_to(self, got: Option<FrameView>, after: CanView) -> bool {
        &&& self.idles_to(after)
        &&& after.gate == self.gate
        &&& got matches Some(frame) ==> self.gate.contains(frame)
    }
}

/// What `receive` yielded, if anything.
pub open spec fn yield_of<F: Frame, E>(got: Result<F, nb::Error<E>>) -> Option<FrameView> {
    match got {
        Ok(frame) => Some(frame@),
        Err(_) => None,
    }
}

/// A CAN interface that is able to transmit and receive frames.
pub trait Can {
    /// Associated frame type.
    type Frame: Frame;

    /// Associated error type.
    type Error;

    /// The controller as a mathematical value.
    spec fn view(&self) -> CanView;

    /// Puts a frame in the transmit buffer.
    ///
    /// If the buffer is full, this function will try to replace a lower
    /// priority frame and return it. This is to avoid the priority inversion
    /// problem. Transmits frames of equal identifier in FIFO fashion.
    ///
    /// `Ok(None)` says that the frame was queued where there was room,
    /// `Ok(Some(evicted))` that it was queued in a full buffer in place of
    /// `evicted`, which it outranks. On `Err` nothing was queued. Whether a
    /// full buffer gives up a frame is the driver's choice. Frames that were
    /// pending may have left for the bus by the time the call returns.
    fn transmit(&mut self, frame: &Self::Frame) -> (sent: nb::Result<Option<Self::Frame>, Self::Error>)
        ensures
            old(self)@.transmits_to(frame@, outcome_of(sent), final(self)@),
    ;

    /// Returns a received frame if available.
    ///
    /// A frame that is returned is one that the receive path lets through
    /// at the time of the call. The call changes neither the receive path
    /// nor the capacity of the transmit buffer.
    fn receive(&mut self) -> (got: nb::Result<Self::Frame, Self::Error>)
        ensures
            old(self)@.receives_to(yield_of(got), final(self)@),
    ;
}

/// A CAN interface that is able to specify receive filters.
pub trait FilteredReceiver: Can {
    /// Associated filter type.
    type Filter: Filter;

    /// Associated filter group type.
    type FilterGroup: FilterGroup;

    /// The filter bank: the groups of slots and the filters installed.
    spec fn bank(&self) -> FilterBank;

    /// The receive path lets through what the filter bank lets through.
    proof fn lemma_gate_is_bank(&self)
        ensures
            self@.gate == self.bank().gate(),
    ;

    /// Returns the filter groups, in the order of the hardware.
    fn filter_groups(&self) -> (groups: Vec<Self::FilterGroup>)
        ensures
            groups@.len() == self.bank().groups.len(),
            forall|g: int| 0 <= g < groups@.len() ==> (#[trigger] groups@[g])@ == self.bank().groups[g],
    ;

    /// Adds and enables a filter.
    ///
    /// On success the filter went into a free slot of a group that can hold
    /// it. On failure the bank is as it was.
    fn add_filter(&mut self, filter: &Self::Filter) -> (added: Result<(), Self::Error>)
        ensures
            old(self)@.idles_to(final(self)@),
            match added {
                Ok(_) => exists|g: usize|
                    {
                        &&& #[trigger] old(self).bank().takes(filter@, g as int)
                        &&& final(self).bank() == old(self).bank().with_slot(g, filter@)
                    },
                Err(_) => final(self).bank() == old(self).bank(),
            },
    ;

    /// Clears all filters. No messages can be received anymore.
    fn clear_filters(&mut self)
        ensures
            old(self)@.idles_to(final(self)@),
            final(self).bank() == old(self).bank().cleared(),
    ;
}

/// Concatenating two runs of frames concatenates what was sent under `id`.
proof fn lemma_of_id_concat(a: Seq<FrameView>, b: Seq<FrameView>, id: Id)
    ensures
        of_id(a + b, id) == of_id(a, id) + of_id(b, id),
    decreases b.len(),
{
    if b.len() == 0 {
        assert(a + b =~= a);
        assert(of_id(a, id) + of_id(b, id) =~= of_id(a, id));
    } else {
        assert((a + b).drop_last() =~= a + b.drop_last());
        assert((a + b).last() == b.last());
        lemma_of_id_concat(a, b.drop_last(), id);
        if b.last().id == id {
            assert(of_id(a + b, id) =~= of_id(a, id) + of_id(b, id));
        }
    }
}

/// Frames none of which was sent under `id` hold nothing sent under `id`.
proof fn lemma_of_id_absent(a: Seq<FrameView>, id: Id)
    requires
        forall|i: int| 0 <= i < a.len() ==> (#[trigger] a[i]).id != id,
    ensures
        of_id(a, id) == Seq::<FrameView>::empty(),
    decreases a.len(),
{
    if a.len() > 0 {
        assert(a.last() == a[a.len() - 1]);
        assert forall|i: int| 0 <= i < a.drop_last().len() implies (#[trigger] a.drop_last()[i]).id
            != id by {
            assert(a.drop_last()[i] == a[i]);
        }
        lemma_of_id_absent(a.drop_last(), id);
    }
}

/// What is left of the frames sent under `id` when the frame at index `k`
/// is taken out.
proof fn lemma_of_id_remove(pending: Seq<FrameView>, k: int, id: Id)
    requires
        0 <= k < pending.len(),
    ensures
        of_id(pending, id) == of_id(pending.subrange(0, k), id) + of_id(seq![pending[k]], id) + of_id(
            pending.subrange(k + 1, pending.len() as int),
            id,
        ),
        of_id(pending.remove(k), id) == of_id(pending.subrange(0, k), id) + of_id(
            pending.subrange(k + 1, pending.len() as int),
            id,
        ),
{
    let head = pending.subrange(0, k);
    let tail = pending.subrange(k + 1, pending.len() as int);
    assert(pending =~= head + seq![pending[k]] + tail);
    lemma_of_id_concat(head + seq![pending[k]], tail, id);
    lemma_of_id_concat(head, seq![pending[k]], id);
    lemma_of_id_concat(head, tail, id);
}

/// What was sent under `id` in a single frame.
proof fn lemma_of_id_single(frame: FrameView, id: Id)
    ensures
        of_id(seq![frame], id) == if frame.id == id {
            seq![frame]
        } else {
            Seq::<FrameView>::empty()
        },
{
    let one = seq![frame];
    assert(one.drop_last() =~= Seq::<FrameView>::empty());
    assert(one.last() == frame);
    assert(of_id(one.drop_last(), id) =~= Seq::<FrameView>::empty());
    if frame.id == id {
        assert(of_id(one, id) =~= seq![frame]);
    }
}

/// From a buffer that holds a frame, some frame leaves next.
pub proof fn lemma_some_frame_departs(pending: Seq<FrameView>) -> (k: int)
    requires
        pending.len() > 0,
    ensures
        departs_next(pending, k),
        k == next_departure(pending),
    decreases pending.len(),
{
    let k = if pending.len() == 1 {
        0
    } else {
        let earlier = pending.drop_last();
        let j = lemma_some_frame_departs(earlier);
        assert(forall|i: int| 0 <= i < earlier.len() ==> earlier[i] == pending[i]);
        if outranks(pending.last().id, earlier[j].id) {
            pending.len() - 1
        } else {
            j
        }
    };
    assert(departs_next(pending, k));
    law_one_frame_departs(pending, k, next_departure(pending));
    k
}

/// Only one frame can be the one that leaves next.
pub proof fn law_one_frame_departs(pending: Seq<FrameView>, j: int, k: int)
    requires
        departs_next(pending, j),
        departs_next(pending, k),
    ensures
        j == k,
{
    if j < k {
        assert(outranks(pending[k].id, pending[j].id));
    } else if k < j {
        assert(outranks(pending[j].id, pending[k].id));
    }
}

/// Frames of equal identifier leave in the order in which they were queued:
/// the frame that leaves next is the oldest of its identifier, and a
/// departure leaves the frames of every other identifier as they were.
pub proof fn law_departure_takes_oldest(pending: Seq<FrameView>, k: int, id: Id)
    requires
        departs_next(pending, k),
    ensures
        pending[k].id == id ==> of_id(pending, id).len() > 0 && of_id(pending, id).first() == pending[k]
            && of_id(pending.remove(k), id) == of_id(pending, id).skip(1),
        pending[k].id != id ==> of_id(pending.remove(k), id) == of_id(pending, id),
{
    let head = pending.subrange(0, k);
    let tail = pending.subrange(k + 1, pending.len() as int);
    lemma_of_id_remove(pending, k, id);
    lemma_of_id_single(pending[k], id);
    if pending[k].id == id {
        assert forall|i: int| 0 <= i < head.len() implies (#[trigger] head[i]).id != id by {
            assert(head[i] == pending[i]);
            assert(outranks(pending[k].id, pending[i].id));
        }
        lemma_of_id_absent(head, id);
        assert(of_id(pending, id) =~= seq![pending[k]] + of_id(tail, id));
        assert(of_id(pending.remove(k), id) =~= of_id(pending, id).skip(1));
    } else {
        assert(of_id(pending.remove(k), id) =~= of_id(pending, id));
    }
}

/// Frames of equal identifier are never seen leaving out of order: however
/// many frames have left, those that are left of an identifier are the
/// youngest of that identifier, in the order in which they were queued.
pub proof fn law_departures_are_fifo(before: Seq<FrameView>, after: Seq<FrameView>, id: Id) -> (left: int)
    requires
        drained(before, after),
    ensures
        0 <= left <= of_id(before, id).len(),
        of_id(after, id) == of_id(before, id).skip(left),
    decreases before.len(),
{
    if before == after {
        assert(of_id(before, id).skip(0) =~= of_id(before, id));
        0
    } else {
        let k = next_departure(before);
        let rest = before.remove(k);
        let found = lemma_some_frame_departs(before);
        law_departure_takes_oldest(before, k, id);
        let left = law_departures_are_fifo(rest, after, id);
        if before[k].id == id {
            assert(of_id(before, id).skip(1).skip(left) =~= of_id(before, id).skip(left + 1));
            left + 1
        } else {
            left
        }
    }
}

/// A frame that was queued stands behind every pending frame of its
/// identifier, whether or not it took the place of another frame.
pub proof fn law_transmit_queues_behind(
    before: Seq<FrameView>,
    capacity: nat,
    frame: FrameView,
    outcome: Outcome,
    after: Seq<FrameView>,
)
    requires
        transmitted(before, capacity, frame, outcome, after),
        outcome is Queued || outcome is Replaced,
    ensures
        of_id(after, frame.id) == of_id(before, frame.id).push(frame),
{
    match outcome {
        Outcome::Replaced(evicted) => {
            let k = choose|k: int|
                #![trigger before[k]]
                {
                    &&& 0 <= k < before.len()
                    &&& before[k] == evicted
                    &&& outranks(frame.id, evicted.id)
                    &&& after == before.remove(k).push(frame)
                };
            lemma_of_id_remove(before, k, frame.id);
            lemma_of_id_single(before[k], frame.id);
            assert(of_id(before.remove(k), frame.id) =~= of_id(before, frame.id));
            assert(after.drop_last() =~= before.remove(k));
        },
        _ => {
            assert(after.drop_last() =~= before);
        },
    }
}

/// Into a full buffer a frame gets only in place of exactly one pending
/// frame, which it outranks and which is handed back; afterwards the buffer
/// is full again and the frame is its youngest.
pub proof fn law_full_buffer_replaces_one(
    before: Seq<FrameView>,
    capacity: nat,
    frame: FrameView,
    outcome: Outcome,
    after: Seq<FrameView>,
)
    requires
        transmitted(before, capacity, frame, outcome, after),
        before.len() == capacity,
        outcome is Queued || outcome is Replaced,
    ensures
        outcome is Replaced,
        before.contains(outcome->Replaced_0),
        outranks(frame.id, outcome->Replaced_0.id),
        after.len() == capacity,
        after.last() == frame,
        exists|k: int|
            0 <= k < before.len() && #[trigger] before[k] == outcome->Replaced_0 && after.drop_last()
                == before.remove(k),
{
    let evicted = outcome->Replaced_0;
    let k = choose|k: int|
        #![trigger before[k]]
        {
            &&& 0 <= k < before.len()
            &&& before[k] == evicted
            &&& outranks(frame.id, evicted.id)
            &&& after == before.remove(k).push(frame)
        };
    assert(after.drop_last() =~= before.remove(k));
    assert(before[k] == evicted);
}

/// While the receive path lets no frame through, `receive` yields nothing
/// and leaves the receive path closed.
pub proof fn law_closed_gate_yields_nothing(before: CanView, got: Option<FrameView>, after: CanView)
    requires
        before.gate == Set::<FrameView>::empty(),
        before.receives_to(got, after),
    ensures
        got is None,
        after.gate == Set::<FrameView>::empty(),
{
}

/// `transmit` leaves the receive path as it was, however the call ends.
pub proof fn law_transmit_keeps_gate(before: CanView, frame: FrameView, outcome: Outcome, after: CanView)
    requires
        before.transmits_to(frame, outcome, after),
    ensures
        after.gate == before.gate,
{
}

/// Once the filters of a controller are cleared, its receive path lets no
/// frame through; it stays so until a filter is added, since neither
/// `receive` nor `transmit` changes it.
pub proof fn law_cleared_receiver_is_closed<R: FilteredReceiver>(before: R, after: R)
    requires
        after.bank() == before.bank().cleared(),
    ensures
        after@.gate == Set::<FrameView>::empty(),
        forall|frame: FrameView| !after.bank().admits(frame),
{
    after.lemma_gate_is_bank();
    law_cleared_bank_admits_nothing(before.bank(), arbitrary());
    assert forall|frame: FrameView| !after.bank().admits(frame) by {
        law_cleared_bank_admits_nothing(before.bank(), frame);
    }
}

} // verus!

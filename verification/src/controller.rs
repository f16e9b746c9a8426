//! A controller kept in memory: a bounded transmit buffer, a filter bank and
//! a queue of frames that came in from the bus.
//!
//! It does what the contracts of [`Can`] and [`FilteredReceiver`] ask for and
//! nothing behind the caller's back: frames leave the transmit buffer only
//! through [`Controller::depart`], and come in only through
//! [`Controller::deliver`].

use crate::bank::law_cleared_bank_admits_nothing;
use crate::bank::law_install_uses_one_slot;
use crate::bank::occupancy;
use crate::bank::shared_mask;
use crate::bank::FilterBank;
use crate::bank::Slot;
use crate::can::departs_next;
use crate::can::drained;
use crate::can::law_one_frame_departs;
use crate::can::lemma_some_frame_departs;
use crate::can::next_departure;
use crate::can::outranks;
use crate::can::Can;
use crate::can::CanView;
use crate::can::FilteredReceiver;
use crate::filter::Filter;
use crate::filter::FilterSettings;
use crate::filter::GroupCapabilities;
use crate::filter::MaskType;
use crate::frame::CanFrame;
use crate::frame::Frame;
use crate::frame::FrameView;
use vstd::prelude::*;

verus! {

/// Why a filter could not be installed.
#[derive(Debug, Copy, Clone, PartialEq, Eq, Structural)]
pub enum FilterError {
    /// No group can hold such a filter.
    Unsupported,
    /// Every group that can hold such a filter is full.
    Exhausted,
}

/// The frames of `frames` as mathematical values.
pub open spec fn views(frames: Seq<CanFrame>) -> Seq<FrameView> {
    Seq::new(frames.len(), |i: int| frames[i]@)
}

/// A controller kept in memory.
pub struct Controller {
    groups: Vec<GroupCapabilities>,
    slots: Vec<Slot>,
    pending: Vec<CanFrame>,
    capacity: usize,
    arrived: Vec<CanFrame>,
}

impl Controller {
    /// The frames that came in from the bus and were not yet handed out,
    /// oldest first.
    pub closed spec fn arrived(&self) -> Seq<FrameView> {
        views(self.arrived@)
    }

    #[verifier::type_invariant]
    spec fn sound(&self) -> bool {
        &&& self.bank().well_formed()
        &&& self.pending@.len() <= self.capacity
    }

    /// Creates a controller with the given filter groups and a transmit
    /// buffer of `capacity` frames. It holds no frame and no filter.
    pub fn new(groups: Vec<GroupCapabilities>, capacity: usize) -> (made: Controller)
        ensures
            made.bank() == (FilterBank { groups: groups@, slots: Seq::empty() }),
            made@.pending == Seq::<FrameView>::empty(),
            made@.capacity == capacity,
            made.arrived() == Seq::<FrameView>::empty(),
    {
        let made = Controller {
            groups,
            slots: Vec::new(),
            pending: Vec::new(),
            capacity,
            arrived: Vec::new(),
        };
        proof {
            law_cleared_bank_admits_nothing(made.bank(), arbitrary());
            assert(made.bank().cleared() == made.bank());
            assert(made@.pending =~= Seq::<FrameView>::empty());
            assert(made.arrived() =~= Seq::<FrameView>::empty());
        }
        made
    }

    /// Counts the filters installed in group `group`.
    fn occupancy_of(&self, group: usize) -> (count: usize)
        ensures
            count == occupancy(self.bank().slots, group as int),
    {
        let mut count: usize = 0;
        let mut i: usize = 0;
        while i < self.slots.len()
            invariant
                i <= self.slots@.len(),
                count <= i,
                count == occupancy(self.slots@.take(i as int), group as int),
            decreases self.slots@.len() - i,
        {
            proof {
                assert(self.slots@.take(i + 1).drop_last() =~= self.slots@.take(i as int));
                assert(self.slots@.take(i + 1).last() == self.slots@[i as int]);
            }
            if self.slots[i].group == group {
                count += 1;
            }
            i += 1;
        }
        proof {
            assert(self.slots@.take(i as int) =~= self.slots@);
        }
        count
    }

    /// Reads the mask register of group `group`: the mask of the filter that
    /// was installed into it last.
    fn shared_mask_of(&self, group: usize) -> (mask: Option<u32>)
        ensures
            mask == shared_mask(self.bank().slots, group as int),
    {
        let mut mask: Option<u32> = None;
        let mut i: usize = 0;
        while i < self.slots.len()
            invariant
                i <= self.slots@.len(),
                mask == shared_mask(self.slots@.take(i as int), group as int),
            decreases self.slots@.len() - i,
        {
            proof {
                assert(self.slots@.take(i + 1).drop_last() =~= self.slots@.take(i as int));
                assert(self.slots@.take(i + 1).last() == self.slots@[i as int]);
            }
            if self.slots[i].group == group {
                mask = self.slots[i].settings.mask;
            }
            i += 1;
        }
        proof {
            assert(self.slots@.take(i as int) =~= self.slots@);
        }
        mask
    }

    /// Returns whether the installed filters let `frame` through.
    pub fn admits(&self, frame: &CanFrame) -> (yes: bool)
        ensures
            yes == self.bank().admits(frame@),
    {
        proof {
            use_type_invariant(self);
        }
        let id = frame.id();
        let remote = frame.is_remote_frame();
        let mut k: usize = 0;
        while k < self.slots.len()
            invariant
                k <= self.slots@.len(),
                self.bank().well_formed(),
                id == frame@.id,
                remote == frame@.remote,
                forall|j: int| 0 <= j < k ==> !self.bank().slot_admits(j, frame@),
            decreases self.slots@.len() - k,
        {
            let slot = self.slots[k];
            assert(self.bank().slots[k as int] == slot);
            let group = self.groups[slot.group];
            let settings = match group.mask {
                Some(MaskType::Shared) => FilterSettings {
                    id: slot.settings.id,
                    mask: self.shared_mask_of(slot.group),
                    remote: slot.settings.remote,
                    any_width: slot.settings.any_width,
                },
                _ => slot.settings,
            };
            assert(settings == self.bank().in_force(k as int));
            if settings.accepts(&group, id, remote) {
                assert(self.bank().slot_admits(k as int, frame@));
                return true;
            }
            k += 1;
        }
        false
    }
}

/// Whether the frame at index `k` is the one that gives way in a full
/// buffer: it outranks no pending frame, and every frame queued after it
/// outranks it. It is the youngest frame of the lowest priority.
pub open spec fn gives_way(pending: Seq<FrameView>, k: int) -> bool {
    &&& 0 <= k < pending.len()
    &&& forall|i: int| #![trigger pending[i]] 0 <= i < pending.len() ==> !outranks(pending[k].id, pending[i].id)
    &&& forall|i: int| #![trigger pending[i]] k < i < pending.len() ==> outranks(pending[i].id, pending[k].id)
}

impl Controller {
    /// Finds the frame that gives way in a full buffer.
    fn weakest(&self) -> (k: usize)
        requires
            self.pending@.len() > 0,
        ensures
            gives_way(self@.pending, k as int),
    {
        let mut k: usize = 0;
        let mut i: usize = 1;
        while i < self.pending.len()
            invariant
                0 <= k < i <= self.pending@.len(),
                gives_way(self@.pending.take(i as int), k as int),
            decreases self.pending@.len() - i,
        {
            let ghost seen = self@.pending.take(i as int);
            let ghost more = self@.pending.take(i + 1);
            assert(forall|j: int| 0 <= j < i ==> seen[j] == #[trigger] more[j]);
            if self.pending[i].id().as_raw() >= self.pending[k].id().as_raw() {
                k = i;
            }
            i += 1;
        }
        proof {
            assert(self@.pending.take(i as int) =~= self@.pending);
        }
        k
    }

    /// Finds the frame that leaves next.
    fn strongest(&self) -> (k: usize)
        requires
            self.pending@.len() > 0,
        ensures
            departs_next(self@.pending, k as int),
    {
        let mut k: usize = 0;
        let mut i: usize = 1;
        while i < self.pending.len()
            invariant
                0 <= k < i <= self.pending@.len(),
                departs_next(self@.pending.take(i as int), k as int),
            decreases self.pending@.len() - i,
        {
            let ghost seen = self@.pending.take(i as int);
            let ghost more = self@.pending.take(i + 1);
            assert(forall|j: int| 0 <= j < i ==> seen[j] == #[trigger] more[j]);
            if self.pending[i].id().as_raw() < self.pending[k].id().as_raw() {
                k = i;
            }
            i += 1;
        }
        proof {
            assert(self@.pending.take(i as int) =~= self@.pending);
        }
        k
    }

    /// Takes the frame that leaves next out of the transmit buffer, as the
    /// bus does: the pending frame of the highest priority, and of several
    /// such frames the oldest. Returns `None` if no frame is pending.
    pub fn depart(&mut self) -> (left: Option<CanFrame>)
        ensures
            final(self).bank() == old(self).bank(),
            final(self).arrived() == old(self).arrived(),
            final(self)@.capacity == old(self)@.capacity,
            drained(old(self)@.pending, final(self)@.pending),
            match left {
                Some(frame) => {
                    &&& old(self)@.pending.len() > 0
                    &&& frame@ == old(self)@.pending[next_departure(old(self)@.pending)]
                    &&& final(self)@.pending == old(self)@.pending.remove(
                        next_departure(old(self)@.pending),
                    )
                },
                None => old(self)@.pending.len() == 0 && final(self)@.pending == old(self)@.pending,
            },
    {
        proof {
            use_type_invariant(&*self);
        }
        if self.pending.len() == 0 {
            assert(drained(self@.pending, self@.pending));
            return None;
        }
        let k = self.strongest();
        proof {
            let found = lemma_some_frame_departs(self@.pending);
            law_one_frame_departs(self@.pending, k as int, found);
        }
        let ghost before = self@.pending;
        let mut pending: Vec<CanFrame> = Vec::new();
        core::mem::swap(&mut self.pending, &mut pending);
        let frame = pending.remove(k);
        core::mem::swap(&mut self.pending, &mut pending);
        proof {
            assert(self@.pending =~= before.remove(k as int));
            assert(drained(self@.pending, self@.pending));
        }
        Some(frame)
    }

    /// Takes a frame in from the bus. The frame is kept for `receive` if the
    /// installed filters let it through, and dropped if not; the result says
    /// whether it was kept.
    pub fn deliver(&mut self, frame: &CanFrame) -> (kept: bool)
        ensures
            final(self).bank() == old(self).bank(),
            final(self)@ == old(self)@,
            kept == old(self).bank().admits(frame@),
            final(self).arrived() == if kept {
                old(self).arrived().push(frame@)
            } else {
                old(self).arrived()
            },
    {
        proof {
            use_type_invariant(&*self);
        }
        if !self.admits(frame) {
            return false;
        }
        let ghost before = self.arrived();
        let mut arrived: Vec<CanFrame> = Vec::new();
        core::mem::swap(&mut self.arrived, &mut arrived);
        arrived.push(*frame);
        core::mem::swap(&mut self.arrived, &mut arrived);
        proof {
            assert(self.arrived() =~= before.push(frame@));
        }
        true
    }
}

impl Can for Controller {
    type Frame = CanFrame;

    type Error = FilterError;

    closed spec fn view(&self) -> CanView {
        CanView {
            pending: views(self.pending@),
            capacity: self.capacity as nat,
            gate: (FilterBank { groups: self.groups@, slots: self.slots@ }).gate(),
        }
    }

    /// Puts a frame in the transmit buffer.
    ///
    /// Where the buffer has room the frame is queued. In a full buffer the
    /// frame takes the place of the frame that gives way, if it outranks
    /// that frame, which is handed back; if it does not, the call would
    /// block. Nothing else ever happens.
    fn transmit(&mut self, frame: &CanFrame) -> (sent: nb::Result<Option<CanFrame>, FilterError>)
        ensures
            final(self).bank() == old(self).bank(),
            final(self).arrived() == old(self).arrived(),
            old(self)@.pending.len() < old(self)@.capacity ==> sent matches Ok(None),
            old(self)@.pending.len() == old(self)@.capacity && (exists|i: int|
                0 <= i < old(self)@.pending.len() && outranks(
                    frame@.id,
                    (#[trigger] old(self)@.pending[i]).id,
                )) ==> sent matches Ok(Some(_)),
            match sent {
                Ok(None) => {
                    &&& old(self)@.pending.len() < old(self)@.capacity
                    &&& final(self)@.pending == old(self)@.pending.push(frame@)
                },
                Ok(Some(evicted)) => {
                    &&& old(self)@.pending.len() == old(self)@.capacity
                    &&& outranks(frame@.id, evicted@.id)
                    &&& exists|k: int|
                        {
                            &&& #[trigger] gives_way(old(self)@.pending, k)
                            &&& evicted@ == old(self)@.pending[k]
                            &&& final(self)@.pending == old(self)@.pending.remove(k).push(frame@)
                        }
                },
                Err(error) => {
                    &&& error is WouldBlock
                    &&& old(self)@.pending.len() == old(self)@.capacity
                    &&& forall|i: int|
                        0 <= i < old(self)@.pending.len() ==> !outranks(
                            frame@.id,
                            (#[trigger] old(self)@.pending[i]).id,
                        )
                    &&& final(self)@.pending == old(self)@.pending
                },
            },
    {
        proof {
            use_type_invariant(&*self);
        }
        let ghost before = self@.pending;
        assert(drained(before, before));
        if self.pending.len() < self.capacity {
            let mut pending: Vec<CanFrame> = Vec::new();
            core::mem::swap(&mut self.pending, &mut pending);
            pending.push(*frame);
            core::mem::swap(&mut self.pending, &mut pending);
            proof {
                assert(self@.pending =~= before.push(frame@));
            }
            return Ok(None);
        }
        if self.pending.len() > 0 {
            let k = self.weakest();
            if frame.id().as_raw() < self.pending[k].id().as_raw() {
                let mut pending: Vec<CanFrame> = Vec::new();
                core::mem::swap(&mut self.pending, &mut pending);
                let evicted = pending.remove(k);
                pending.push(*frame);
                core::mem::swap(&mut self.pending, &mut pending);
                proof {
                    assert(self@.pending =~= before.remove(k as int).push(frame@));
                    assert(before[k as int] == evicted@);
                }
                return Ok(Some(evicted));
            }
        }
        Err(nb::Error::WouldBlock)
    }

    /// Returns the oldest frame that came in from the bus and that the
    /// installed filters let through now. Frames that came in before it are
    /// dropped. If there is no such frame the call would block; it never
    /// fails otherwise.
    fn receive(&mut self) -> (got: nb::Result<CanFrame, FilterError>)
        ensures
            final(self).bank() == old(self).bank(),
            final(self)@ == old(self)@,
            got is Ok <==> exists|j: int|
                0 <= j < old(self).arrived().len() && old(self).bank().admits(
                    #[trigger] old(self).arrived()[j],
                ),
            match got {
                Ok(frame) => exists|k: int|
                    {
                        &&& 0 <= k < old(self).arrived().len()
                        &&& frame@ == #[trigger] old(self).arrived()[k]
                        &&& old(self).bank().admits(frame@)
                        &&& forall|j: int| 0 <= j < k ==> !old(self).bank().admits(#[trigger] old(self).arrived()[j])
                        &&& final(self).arrived() == old(self).arrived().skip(k + 1)
                    },
                Err(error) => {
                    &&& error is WouldBlock
                    &&& forall|j: int|
                        0 <= j < old(self).arrived().len() ==> !old(self).bank().admits(
                            #[trigger] old(self).arrived()[j],
                        )
                    &&& final(self).arrived().len() == 0
                },
            },
    {
        proof {
            use_type_invariant(&*self);
        }
        let ghost before = self.arrived();
        let ghost bank = self.bank();
        let ghost queue = self@;
        let ghost mut dropped: int = 0;
        assert(drained(queue.pending, queue.pending));
        assert(before.skip(0) =~= before);
        let mut arrived: Vec<CanFrame> = Vec::new();
        core::mem::swap(&mut self.arrived, &mut arrived);
        while arrived.len() > 0
            invariant
                bank == old(self).bank(),
                queue == old(self)@,
                before == old(self).arrived(),
                self.bank() == bank,
                self@ == queue,
                self.arrived@.len() == 0,
                0 <= dropped <= before.len(),
                arrived@.len() == before.len() - dropped,
                views(arrived@) == before.skip(dropped),
                forall|j: int| 0 <= j < dropped ==> !bank.admits(#[trigger] before[j]),
            decreases arrived@.len(),
        {
            let ghost queued = arrived@;
            let frame = arrived.remove(0);
            proof {
                use_type_invariant(&*self);
                assert(views(queued)[0] == queued[0]@);
                assert(before.skip(dropped)[0] == before[dropped]);
                assert forall|i: int| 0 <= i < arrived@.len() implies views(arrived@)[i] == before.skip(
                    dropped + 1,
                )[i] by {
                    assert(arrived@[i] == queued[i + 1]);
                    assert(views(queued)[i + 1] == queued[i + 1]@);
                    assert(before.skip(dropped)[i + 1] == before[dropped + i + 1]);
                }
                assert(views(arrived@) =~= before.skip(dropped + 1));
            }
            if self.admits(&frame) {
                assert(frame@ == before[dropped]);
                core::mem::swap(&mut self.arrived, &mut arrived);
                return Ok(frame);
            }
            proof {
                dropped = dropped + 1;
            }
        }
        Err(nb::Error::WouldBlock)
    }
}

impl FilteredReceiver for Controller {
    type Filter = FilterSettings;

    type FilterGroup = GroupCapabilities;

    closed spec fn bank(&self) -> FilterBank {
        FilterBank { groups: self.groups@, slots: self.slots@ }
    }

    proof fn lemma_gate_is_bank(&self) {
    }

    fn filter_groups(&self) -> (groups: Vec<GroupCapabilities>) {
        let mut groups: Vec<GroupCapabilities> = Vec::new();
        let mut g: usize = 0;
        while g < self.groups.len()
            invariant
                g <= self.groups@.len(),
                groups@ == self.groups@.take(g as int),
            decreases self.groups@.len() - g,
        {
            groups.push(self.groups[g]);
            proof {
                assert(groups@ =~= self.groups@.take(g + 1));
            }
            g += 1;
        }
        proof {
            assert(self.groups@.take(g as int) =~= self.groups@);
        }
        groups
    }

    /// Installs the filter into a free slot of the first group that can hold
    /// it and has one.
    ///
    /// Fails with `Unsupported` where no group can hold such a filter, and
    /// with `Exhausted` where every group that can is full.
    fn add_filter(&mut self, filter: &FilterSettings) -> (added: Result<(), FilterError>)
        ensures
            final(self)@.pending == old(self)@.pending,
            final(self).arrived() == old(self).arrived(),
            added is Ok <==> exists|g: int| old(self).bank().takes(*filter, g),
            match added {
                Ok(_) => exists|g: usize|
                    {
                        &&& #[trigger] old(self).bank().takes_first(*filter, g as int)
                        &&& final(self).bank() == old(self).bank().with_slot(g, *filter)
                    },
                Err(FilterError::Unsupported) => forall|g: int|
                    0 <= g < old(self).bank().groups.len() ==> !filter.fits(
                        &#[trigger] old(self).bank().groups[g],
                    ),
                Err(FilterError::Exhausted) => {
                    &&& exists|g: int|
                        0 <= g < old(self).bank().groups.len() && filter.fits(
                            &#[trigger] old(self).bank().groups[g],
                        )
                    &&& forall|g: int| !old(self).bank().takes(*filter, g)
                },
            },
    {
        proof {
            use_type_invariant(&*self);
        }
        let ghost bank = self.bank();
        let ghost queue = self@;
        let ghost before = self.arrived();
        assert(drained(queue.pending, queue.pending));
        let mut fitting: bool = false;
        let ghost mut witness: int = 0;
        let mut g: usize = 0;
        while g < self.groups.len()
            invariant
                g <= self.groups@.len(),
                bank == old(self).bank(),
                queue == old(self)@,
                before == old(self).arrived(),
                self.bank() == bank,
                self@ == queue,
                self.arrived() == before,
                drained(queue.pending, queue.pending),
                bank.well_formed(),
                forall|h: int| 0 <= h < g ==> !bank.takes(*filter, h),
                fitting ==> 0 <= witness < g && filter.fits(&bank.groups[witness]),
                !fitting ==> forall|h: int| 0 <= h < g ==> !filter.fits(&#[trigger] bank.groups[h]),
            decreases self.groups@.len() - g,
        {
            let group = self.groups[g];
            if filter.fits(&group) {
                fitting = true;
                proof {
                    witness = g as int;
                }
                if self.occupancy_of(g) < group.slots {
                    proof {
                        use_type_invariant(&*self);
                        law_install_uses_one_slot(bank, *filter, g);
                    }
                    let mut slots: Vec<Slot> = Vec::new();
                    proof {
                        law_cleared_bank_admits_nothing(bank, arbitrary());
                    }
                    core::mem::swap(&mut self.slots, &mut slots);
                    slots.push(Slot { group: g, settings: *filter });
                    core::mem::swap(&mut self.slots, &mut slots);
                    assert(bank.takes_first(*filter, g as int));
                    assert(bank.takes(filter@, g as int));
                    assert(self.bank().slots =~= bank.with_slot(g, filter@).slots);
                    return Ok(());
                }
            }
            g += 1;
        }
        if fitting {
            Err(FilterError::Exhausted)
        } else {
            Err(FilterError::Unsupported)
        }
    }

    /// Clears all filters. No frame is let through any more, and the frames
    /// that came in stay until `receive` drops them.
    fn clear_filters(&mut self)
        ensures
            final(self)@.pending == old(self)@.pending,
            final(self).arrived() == old(self).arrived(),
    {
        proof {
            use_type_invariant(&*self);
        }
        let ghost bank = self.bank();
        let ghost queue = self@.pending;
        assert(drained(queue, queue));
        proof {
            law_cleared_bank_admits_nothing(bank, arbitrary());
        }
        self.slots = Vec::new();
        assert(self.bank().slots =~= bank.cleared().slots);
    }
}

} // verus!

//! The filter bank of a controller: groups of slots, the filters installed in
//! them, and the frames that the installed filters let through.

use crate::filter::FilterSettings;
use crate::filter::GroupCapabilities;
use crate::filter::MaskType;
use crate::frame::FrameView;
use vstd::prelude::*;

verus! {

/// An occupied filter slot: the group it belongs to and what it holds.
#[derive(Debug, Copy, Clone, PartialEq, Eq, Structural)]
pub struct Slot {
    /// Index of the group among the controller's groups.
    pub group: usize,
    /// The filter as it was installed.
    pub settings: FilterSettings,
}

/// Number of slots among `slots` that belong to group `group`.
pub open spec fn occupancy(slots: Seq<Slot>, group: int) -> nat
    decreases slots.len(),
{
    if slots.len() == 0 {
        0
    } else {
        occupancy(slots.drop_last(), group) + if slots.last().group == group {
            1nat
        } else {
            0nat
        }
    }
}

/// The mask of the filter that was installed last into group `group`: the
/// content of the mask register of a group whose slots share one mask.
pub open spec fn shared_mask(slots: Seq<Slot>, group: int) -> Option<u32>
    decreases slots.len(),
{
    if slots.len() == 0 {
        None
    } else if slots.last().group == group {
        slots.last().settings.mask
    } else {
        shared_mask(slots.drop_last(), group)
    }
}

/// The filter bank of a controller.
pub struct FilterBank {
    /// The groups of slots, as the hardware reports them.
    pub groups: Seq<GroupCapabilities>,
    /// The occupied slots, in the order in which the filters were installed.
    pub slots: Seq<Slot>,
}

impl FilterBank {
    /// Every occupied slot lies in a group that exists and that can hold its
    /// filter, and no group holds more filters than it has slots.
    pub open spec fn well_formed(self) -> bool {
        &&& forall|k: int|
            0 <= k < self.slots.len() ==> {
                &&& (#[trigger] self.slots[k]).group < self.groups.len()
                &&& self.slots[k].settings.fits(&self.groups[self.slots[k].group as int])
            }
        &&& forall|g: int|
            0 <= g < self.groups.len() ==> occupancy(self.slots, g) <= (#[trigger] self.groups[g]).slots
    }

    /// Whether group `g` can take the filter `settings`: the group exists, can
    /// hold such a filter and has a free slot.
    pub open spec fn takes(self, settings: FilterSettings, g: int) -> bool {
        &&& 0 <= g < self.groups.len()
        &&& settings.fits(&self.groups[g])
        &&& occupancy(self.slots, g) < self.groups[g].slots
    }

    /// Whether `g` is the first group that can take the filter `settings`.
    pub open spec fn takes_first(self, settings: FilterSettings, g: int) -> bool {
        &&& self.takes(settings, g)
        &&& forall|h: int| 0 <= h < g ==> !self.takes(settings, h)
    }

    /// The bank after `settings` went into a slot of group `g`.
    pub open spec fn with_slot(self, g: usize, settings: FilterSettings) -> FilterBank {
        FilterBank { slots: self.slots.push(Slot { group: g, settings }), ..self }
    }

    /// The bank with every slot free.
    pub open spec fn cleared(self) -> FilterBank {
        FilterBank { slots: Seq::empty(), ..self }
    }

    /// The filter that slot `k` applies: its own settings, under the mask of
    /// the group's register where the group shares one mask.
    pub open spec fn in_force(self, k: int) -> FilterSettings {
        let slot = self.slots[k];
        if self.groups[slot.group as int].mask == Some(MaskType::Shared) {
            FilterSettings { mask: shared_mask(self.slots, slot.group as int), ..slot.settings }
        } else {
            slot.settings
        }
    }

    /// Whether slot `k` lets `frame` through.
    pub open spec fn slot_admits(self, k: int, frame: FrameView) -> bool {
        &&& 0 <= k < self.slots.len()
        &&& self.slots[k].group < self.groups.len()
        &&& self.in_force(k).accepts(&self.groups[self.slots[k].group as int], frame.id, frame.remote)
    }

    /// Whether some occupied slot lets `frame` through.
    pub open spec fn admits(self, frame: FrameView) -> bool {
        exists|k: int| self.slot_admits(k, frame)
    }

    /// The frames that the bank lets through.
    pub open spec fn gate(self) -> Set<FrameView> {
        Set::new(|frame: FrameView| self.admits(frame))
    }
}

/// A bank without an occupied slot lets no frame through, whatever its groups.
pub proof fn law_cleared_bank_admits_nothing(bank: FilterBank, frame: FrameView)
    ensures
        !bank.cleared().admits(frame),
        bank.cleared().gate() == Set::<FrameView>::empty(),
        bank.cleared().well_formed(),
{
    let cleared = bank.cleared();
    assert forall|f: FrameView| !cleared.gate().contains(f) by {
        assert(forall|k: int| !cleared.slot_admits(k, f));
    }
    assert(cleared.gate() =~= Set::<FrameView>::empty());
    assert forall|g: int| 0 <= g < cleared.groups.len() implies occupancy(cleared.slots, g) == 0 by {}
}

/// Installing a filter into a group that takes it keeps the bank well formed
/// and uses one more slot of that group and of no other.
pub proof fn law_install_uses_one_slot(bank: FilterBank, settings: FilterSettings, g: usize)
    requires
        bank.well_formed(),
        bank.takes(settings, g as int),
    ensures
        bank.with_slot(g, settings).well_formed(),
        occupancy(bank.with_slot(g, settings).slots, g as int) == occupancy(bank.slots, g as int) + 1,
        forall|h: int| h != g ==> occupancy(bank.with_slot(g, settings).slots, h) == occupancy(bank.slots, h),
{
    let after = bank.with_slot(g, settings);
    assert(after.slots.drop_last() =~= bank.slots);
    assert(after.slots.last().group == g);
    assert forall|k: int| 0 <= k < after.slots.len() implies {
        &&& (#[trigger] after.slots[k]).group < after.groups.len()
        &&& after.slots[k].settings.fits(&after.groups[after.slots[k].group as int])
    } by {
        if k < bank.slots.len() {
            assert(after.slots[k] == bank.slots[k]);
        }
    }
}

/// In a group whose slots share one mask, the mask of the filter installed
/// last is in force in every slot of the group; the slots of the other groups
/// keep the filter they had.
pub proof fn law_shared_mask_follows_last_filter(bank: FilterBank, settings: FilterSettings, g: usize, k: int)
    requires
        bank.well_formed(),
        bank.takes(settings, g as int),
        0 <= k < bank.slots.len(),
    ensures
        bank.groups[g as int].mask == Some(MaskType::Shared) && bank.slots[k].group == g
            ==> bank.with_slot(g, settings).in_force(k).mask == settings.mask,
        bank.slots[k].group != g ==> bank.with_slot(g, settings).in_force(k) == bank.in_force(k),
        bank.with_slot(g, settings).in_force(bank.slots.len() as int) == settings,
{
    let after = bank.with_slot(g, settings);
    assert(after.slots.drop_last() =~= bank.slots);
    assert(after.slots.last().group == g);
    assert(after.slots[k] == bank.slots[k]);
}

} // verus!

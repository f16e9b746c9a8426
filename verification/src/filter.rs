//! Acceptance filters: what a filter holds, which frames it lets through, and
//! what a group of hardware filter slots can do.

use crate::id::Id;
use crate::id::EXTENDED_MAX;
use crate::id::STANDARD_MAX;
use vstd::prelude::*;

verus! {

/// Filter mask type.
#[derive(Debug, Copy, Clone, PartialEq, Eq, Structural)]
pub enum MaskType {
    /// Each filter of the group has an individual mask.
    Individual,
    /// All filters of a group share a common filter mask.
    Shared,
}

/// Remote frame filter behaviour description.
#[derive(Debug, Copy, Clone, PartialEq, Eq, Structural)]
pub enum RtrFilterBehavior {
    /// The RTR bit is part of the filter and the mask.
    ///
    /// Both `Filter::allow_remote()` and `Filter::remote_only()` take effect.
    Configurable,
    /// The RTR bit is part of the filter.
    ///
    /// `Filter::remote_only()` takes effect. `Filter::allow_remote()` has no
    /// effect.
    ConfigurableEitherDataOrRemote,
    /// Both data and remote frames with a matching identifier are accepted.
    ///
    /// Neither `Filter::allow_remote()` nor `Filter::remote_only()` has an
    /// effect.
    RemoteAlwaysAllowed,
    /// Only data frames with a matching identifier are accepted.
    ///
    /// Neither `Filter::allow_remote()` nor `Filter::remote_only()` has an
    /// effect.
    OnlyData,
    /// Only remote frames with a matching identifier are accepted.
    ///
    /// Neither `Filter::allow_remote()` nor `Filter::remote_only()` has an
    /// effect.
    OnlyRemote,
}

/// What a filter was told about remote frames.
#[derive(Debug, Copy, Clone, PartialEq, Eq, Structural)]
pub enum RemoteDisposition {
    /// Nothing was asked for.
    Unspecified,
    /// Remote frames are wanted beside data frames.
    AllowRemote,
    /// Only remote frames are wanted.
    RemoteOnly,
}

/// Whether bit `i` of `word` is set.
pub open spec fn bit(word: u32, i: u32) -> bool {
    (word >> i) & 1 == 1
}

/// Mask matching, bit by bit: in every position the mask marks the bit as
/// don't-care, or the filter's bit equals the incoming bit.
pub open spec fn masked_match(filter: u32, mask: u32, incoming: u32) -> bool {
    forall|i: u32| i < 32 ==> !bit(mask, i) || bit(filter, i) == bit(incoming, i)
}

/// A word none of whose bits from position `from` upwards is set has nothing
/// left when shifted right by `from`.
proof fn lemma_no_bits_above(word: u32, from: u32)
    requires
        from < 32,
        forall|i: u32| from <= i < 32 ==> !bit(word, i),
    ensures
        word >> from == 0,
    decreases 32 - from,
{
    assert(!bit(word, from));
    if from == 31 {
        assert((word >> 31u32) & 1 != 1 ==> word >> 31u32 == 0) by (bit_vector);
    } else {
        let next = (from + 1) as u32;
        lemma_no_bits_above(word, next);
        assert(from < 31 && next == from + 1 && word >> next == 0 && (word >> from) & 1 != 1
            ==> word >> from == 0) by (bit_vector);
    }
}

/// Mask matching on whole words: the bits in which filter and incoming
/// identifier differ all lie outside the mask.
pub proof fn lemma_masked_match_words(filter: u32, mask: u32, incoming: u32)
    ensures
        masked_match(filter, mask, incoming) <==> (filter ^ incoming) & mask == 0,
{
    let differing = (filter ^ incoming) & mask;
    assert forall|i: u32| i < 32 implies (bit(differing, i) <==> bit(mask, i) && bit(filter, i)
        != bit(incoming, i)) by {
        assert(i < 32 ==> ((((filter ^ incoming) & mask) >> i) & 1 == 1 <==> (mask >> i) & 1 == 1
            && ((filter >> i) & 1 == 1) != ((incoming >> i) & 1 == 1))) by (bit_vector);
    }
    if masked_match(filter, mask, incoming) {
        lemma_no_bits_above(differing, 0);
        assert(differing >> 0u32 == differing) by (bit_vector);
    }
    if differing == 0 {
        assert forall|i: u32| i < 32 implies !bit(differing, i) by {
            assert(i < 32 ==> (0u32 >> i) & 1 != 1) by (bit_vector);
        }
    }
}

/// Whether a slot with remote frame behaviour `behavior`, holding a filter
/// with disposition `asked`, lets a frame of the given kind through.
pub open spec fn admits_kind(behavior: RtrFilterBehavior, asked: RemoteDisposition, remote: bool) -> bool {
    match behavior {
        RtrFilterBehavior::Configurable => match asked {
            RemoteDisposition::Unspecified => !remote,
            RemoteDisposition::AllowRemote => true,
            RemoteDisposition::RemoteOnly => remote,
        },
        RtrFilterBehavior::ConfigurableEitherDataOrRemote => match asked {
            RemoteDisposition::RemoteOnly => remote,
            _ => !remote,
        },
        RtrFilterBehavior::RemoteAlwaysAllowed => true,
        RtrFilterBehavior::OnlyData => !remote,
        RtrFilterBehavior::OnlyRemote => remote,
    }
}

/// A mask without a significant bit lets every identifier number through.
pub proof fn lemma_zero_mask_matches_all(filter: u32, incoming: u32)
    ensures
        masked_match(filter, 0, incoming),
{
    assert forall|i: u32| i < 32 implies !bit(0, i) by {
        assert(i < 32 ==> (0u32 >> i) & 1 != 1) by (bit_vector);
    }
}

/// What a group of consecutive filter slots can do.
#[derive(Debug, Copy, Clone, PartialEq, Eq, Structural)]
pub struct GroupCapabilities {
    /// Number of consecutive filter slots with these capabilities.
    pub slots: usize,
    /// Whether extended identifiers are supported beside standard ones.
    pub extended: bool,
    /// How the slots are masked; `None` if the group has no masks.
    pub mask: Option<MaskType>,
    /// What the slots do with remote frames.
    pub rtr: RtrFilterBehavior,
}

/// A filter group with its capabilities.
pub trait FilterGroup {
    /// The capabilities as a plain record.
    spec fn view(&self) -> GroupCapabilities;

    /// Returns the number of consecutive filters with the same capability.
    fn num_filters(&self) -> (count: usize)
        ensures
            count == self@.slots,
    ;

    /// Returns `true` when extended 29 bit identifiers are supported (in
    /// addition to the standard 11 bit identifiers).
    fn extended(&self) -> (yes: bool)
        ensures
            yes == self@.extended,
    ;

    /// Returns the filter mask type. `None` if no masks are supported.
    fn mask(&self) -> (kind: Option<MaskType>)
        ensures
            kind == self@.mask,
    ;

    /// Returns the filter behaviour in regard to remote frames.
    fn rtr(&self) -> (behavior: RtrFilterBehavior)
        ensures
            behavior == self@.rtr,
    ;
}

impl FilterGroup for GroupCapabilities {
    open spec fn view(&self) -> GroupCapabilities {
        *self
    }

    fn num_filters(&self) -> (count: usize) {
        self.slots
    }

    fn extended(&self) -> (yes: bool) {
        self.extended
    }

    fn mask(&self) -> (kind: Option<MaskType>) {
        self.mask
    }

    fn rtr(&self) -> (behavior: RtrFilterBehavior) {
        self.rtr
    }
}

/// What an acceptance filter holds.
///
/// Each configuration call overwrites one field; the last write wins.
#[derive(Debug, Copy, Clone, PartialEq, Eq, Structural)]
pub struct FilterSettings {
    /// The identifier that incoming identifiers are compared with.
    pub id: Id,
    /// The significant bits; without a mask every bit of the identifier's
    /// width is significant.
    pub mask: Option<u32>,
    /// What was asked for about remote frames.
    pub remote: RemoteDisposition,
    /// Whether identifiers of either width are compared; otherwise only
    /// identifiers of the width of `id` can match.
    pub any_width: bool,
}

impl FilterSettings {
    /// The settings that accept all frames: the largest extended identifier,
    /// under a mask without a significant bit, for either width and for remote
    /// frames too.
    pub open spec fn accepting_all() -> FilterSettings {
        FilterSettings {
            id: Id::Extended(EXTENDED_MAX),
            mask: Some(0),
            remote: RemoteDisposition::AllowRemote,
            any_width: true,
        }
    }

    /// The settings that accept exactly `id`.
    pub open spec fn exactly(id: Id) -> FilterSettings {
        FilterSettings { id, mask: None, remote: RemoteDisposition::Unspecified, any_width: false }
    }

    /// These settings with the mask replaced by `mask`.
    pub open spec fn masked(self, mask: u32) -> FilterSettings {
        FilterSettings { mask: Some(mask), ..self }
    }

    /// These settings with remote frames asked for beside data frames.
    pub open spec fn allowing_remote(self) -> FilterSettings {
        FilterSettings { remote: RemoteDisposition::AllowRemote, ..self }
    }

    /// These settings with only remote frames asked for.
    pub open spec fn only_remote(self) -> FilterSettings {
        FilterSettings { remote: RemoteDisposition::RemoteOnly, ..self }
    }

    /// The mask that matching uses: the one that was set, or else all bits of
    /// the width of `id`.
    pub open spec fn mask_in_force(self) -> u32 {
        match self.mask {
            Some(mask) => mask,
            None => self.id.limit(),
        }
    }

    /// Whether the settings let the identifier `incoming` through.
    pub open spec fn spec_accepts_id(&self, incoming: Id) -> bool {
        &&& self.any_width || self.id.same_width(incoming)
        &&& masked_match(self.id.raw(), self.mask_in_force(), incoming.raw())
    }

    /// Whether a slot of `group` can hold these settings: a mask needs a
    /// group with masks, and an extended identifier a group that supports
    /// them.
    pub open spec fn spec_fits(&self, group: &GroupCapabilities) -> bool {
        &&& self.mask is Some ==> group.mask is Some
        &&& self.id is Extended && !self.any_width ==> group.extended
    }

    /// Whether these settings, in a slot of `group`, let a frame with the
    /// identifier `id` through, `remote` saying whether it is a remote frame.
    pub open spec fn spec_accepts(&self, group: &GroupCapabilities, id: Id, remote: bool) -> bool {
        &&& id is Extended ==> group.extended
        &&& self.spec_accepts_id(id)
        &&& admits_kind(group.rtr, self.remote, remote)
    }

    /// Returns whether the settings let the identifier `incoming` through.
    #[verifier::when_used_as_spec(spec_accepts_id)]
    pub fn accepts_id(&self, incoming: Id) -> (yes: bool)
        ensures
            yes == self.spec_accepts_id(incoming),
    {
        let (wide, mask): (bool, u32) = match self.id {
            Id::Standard(_) => (false, STANDARD_MAX),
            Id::Extended(_) => (true, EXTENDED_MAX),
        };
        let mask: u32 = match self.mask {
            Some(set) => set,
            None => mask,
        };
        let incoming_wide: bool = match incoming {
            Id::Standard(_) => false,
            Id::Extended(_) => true,
        };
        let filter: u32 = self.id.as_raw();
        let number: u32 = incoming.as_raw();
        proof {
            lemma_masked_match_words(filter, mask, number);
        }
        (self.any_width || wide == incoming_wide) && (filter ^ number) & mask == 0
    }

    /// Returns whether a slot of `group` can hold these settings.
    #[verifier::when_used_as_spec(spec_fits)]
    pub fn fits(&self, group: &GroupCapabilities) -> (yes: bool)
        ensures
            yes == self.spec_fits(group),
    {
        let masks_ok: bool = self.mask.is_none() || group.mask.is_some();
        let width_ok: bool = match self.id {
            Id::Standard(_) => true,
            Id::Extended(_) => self.any_width || group.extended,
        };
        masks_ok && width_ok
    }

    /// Returns whether these settings, in a slot of `group`, let a frame with
    /// the identifier `id` through.
    #[verifier::when_used_as_spec(spec_accepts)]
    pub fn accepts(&self, group: &GroupCapabilities, id: Id, remote: bool) -> (yes: bool)
        ensures
            yes == self.spec_accepts(group, id, remote),
    {
        let width_ok: bool = match id {
            Id::Standard(_) => true,
            Id::Extended(_) => group.extended,
        };
        let kind_ok: bool = match group.rtr {
            RtrFilterBehavior::Configurable => match self.remote {
                RemoteDisposition::Unspecified => !remote,
                RemoteDisposition::AllowRemote => true,
                RemoteDisposition::RemoteOnly => remote,
            },
            RtrFilterBehavior::ConfigurableEitherDataOrRemote => match self.remote {
                RemoteDisposition::RemoteOnly => remote,
                _ => !remote,
            },
            RtrFilterBehavior::RemoteAlwaysAllowed => true,
            RtrFilterBehavior::OnlyData => !remote,
            RtrFilterBehavior::OnlyRemote => remote,
        };
        width_ok && kind_ok && self.accepts_id(id)
    }
}

/// CAN filter interface.
pub trait Filter: Sized {
    /// What the filter holds.
    spec fn view(&self) -> FilterSettings;

    /// Creates a filter that accepts all frames.
    fn accept_all() -> (filter: Self)
        ensures
            filter@ == FilterSettings::accepting_all(),
            forall|id: Id| filter@.accepts_id(id),
    ;

    /// Creates a filter that accepts frames with the specified identifier.
    fn new(id: Id) -> (filter: Self)
        ensures
            filter@ == FilterSettings::exactly(id),
    ;

    /// Applies a mask to the filter; a mask set before is replaced.
    ///
    /// # Example
    ///
    /// ```text
    /// Filter ID:  0b100110111
    /// Mask:       0b000001111
    ///
    /// Receive ID: 0b100110011
    ///                     \----> Not accepted (bit 3 did not match)
    ///
    /// Receive ID: 0b000000111 -> accepted
    /// ```
    fn with_mask(&mut self, mask: u32) -> (same: &mut Self)
        ensures
            same@ == old(self)@.masked(mask),
            *final(self) == *final(same),
    ;

    /// Makes the filter accept both data and remote frames.
    ///
    /// Takes effect in a group whose remote frame behaviour is
    /// `RtrFilterBehavior::Configurable`.
    fn allow_remote(&mut self) -> (same: &mut Self)
        ensures
            same@ == old(self)@.allowing_remote(),
            *final(self) == *final(same),
    ;

    /// Makes the filter accept remote frames only.
    ///
    /// Takes effect in a group whose remote frame behaviour is
    /// `RtrFilterBehavior::Configurable` or
    /// `RtrFilterBehavior::ConfigurableEitherDataOrRemote`.
    fn remote_only(&mut self) -> (same: &mut Self)
        ensures
            same@ == old(self)@.only_remote(),
            *final(self) == *final(same),
    ;
}

impl Filter for FilterSettings {
    open spec fn view(&self) -> FilterSettings {
        *self
    }

    fn accept_all() -> (filter: Self) {
        let filter = FilterSettings {
            id: Id::Extended(EXTENDED_MAX),
            mask: Some(0),
            remote: RemoteDisposition::AllowRemote,
            any_width: true,
        };
        proof {
            assert forall|id: Id| filter@.accepts_id(id) by {
                lemma_zero_mask_matches_all(filter.id.raw(), id.raw());
            }
        }
        filter
    }

    fn new(id: Id) -> (filter: Self) {
        FilterSettings { id, mask: None, remote: RemoteDisposition::Unspecified, any_width: false }
    }

    fn with_mask(&mut self, mask: u32) -> (same: &mut Self) {
        self.mask = Some(mask);
        self
    }

    fn allow_remote(&mut self) -> (same: &mut Self) {
        self.remote = RemoteDisposition::AllowRemote;
        self
    }

    fn remote_only(&mut self) -> (same: &mut Self) {
        self.remote = RemoteDisposition::RemoteOnly;
        self
    }
}

/// A filter that accepts all frames lets every identifier through, of either
/// width. In a slot of a group it lets through the identifiers of every
/// width that the group supports, for each kind of frame that the group can
/// take from a filter that allows remote frames.
pub proof fn law_accept_all_accepts_every_identifier(group: GroupCapabilities, id: Id, remote: bool)
    ensures
        FilterSettings::accepting_all().accepts_id(id),
        FilterSettings::accepting_all().fits(&group) <==> group.mask is Some,
        FilterSettings::accepting_all().accepts(&group, id, remote) <==> (id is Extended
            ==> group.extended) && admits_kind(group.rtr, RemoteDisposition::AllowRemote, remote),
        (id is Standard || group.extended) && group.rtr == RtrFilterBehavior::Configurable
            ==> FilterSettings::accepting_all().accepts(&group, id, remote),
{
    lemma_zero_mask_matches_all(FilterSettings::accepting_all().id.raw(), id.raw());
}

/// A mask with every bit significant asks for the very number of the
/// filter's identifier.
pub proof fn law_full_mask_matches_exactly(filter: u32, incoming: u32)
    ensures
        masked_match(filter, 0xFFFF_FFFF, incoming) <==> filter == incoming,
{
    lemma_masked_match_words(filter, 0xFFFF_FFFF, incoming);
    assert((filter ^ incoming) & 0xFFFF_FFFFu32 == 0 <==> filter == incoming) by (bit_vector);
}

/// A filter without a mask accepts, among the valid identifiers, exactly its
/// own identifier, if that is valid.
pub proof fn law_unmasked_filter_is_exact(id: Id, incoming: Id)
    requires
        id.is_valid(),
        incoming.is_valid(),
    ensures
        FilterSettings::exactly(id).accepts_id(incoming) <==> incoming == id,
{
    let filter = id.raw();
    let number = incoming.raw();
    let limit = id.limit();
    lemma_masked_match_words(filter, limit, number);
    assert(filter <= limit && number <= limit && (limit == 0x7FFu32 || limit == 0x1FFF_FFFFu32) ==> ((
    filter ^ number) & limit == 0 <==> filter == number)) by (bit_vector);
}

/// Setting a mask twice is setting the second mask: the last write wins, and
/// nothing else of the filter changes.
pub proof fn law_last_mask_wins(settings: FilterSettings, first: u32, second: u32)
    ensures
        settings.masked(first).masked(second) == settings.masked(second),
        settings.masked(second).id == settings.id,
        settings.masked(second).remote == settings.remote,
        settings.masked(second).any_width == settings.any_width,
{
}

/// In a group whose remote frame behaviour is fixed, what a filter was told
/// about remote frames changes nothing: only data frames pass a group of
/// `OnlyData`, only remote frames one of `OnlyRemote`, and both pass one of
/// `RemoteAlwaysAllowed`.
pub proof fn law_fixed_behavior_ignores_remote_settings(
    settings: FilterSettings,
    group: GroupCapabilities,
    id: Id,
    remote: bool,
)
    requires
        group.rtr == RtrFilterBehavior::OnlyData || group.rtr == RtrFilterBehavior::OnlyRemote
            || group.rtr == RtrFilterBehavior::RemoteAlwaysAllowed,
    ensures
        settings.allowing_remote().accepts(&group, id, remote) == settings.accepts(&group, id, remote),
        settings.only_remote().accepts(&group, id, remote) == settings.accepts(&group, id, remote),
        group.rtr == RtrFilterBehavior::OnlyData && remote ==> !settings.accepts(&group, id, remote),
        group.rtr == RtrFilterBehavior::OnlyRemote && !remote ==> !settings.accepts(&group, id, remote),
{
}

/// In a group whose remote frame behaviour can be configured, a filter lets
/// data frames through unless it was told otherwise, both kinds once remote
/// frames were allowed, and remote frames alone once only they were asked
/// for. Where the RTR bit cannot be masked, allowing remote frames is as
/// good as asking for nothing.
pub proof fn law_configurable_behavior(settings: FilterSettings, group: GroupCapabilities, id: Id, remote: bool)
    requires
        group.rtr == RtrFilterBehavior::Configurable || group.rtr
            == RtrFilterBehavior::ConfigurableEitherDataOrRemote,
        settings.accepts(&group, id, false) || settings.accepts(&group, id, true),
    ensures
        settings.only_remote().accepts(&group, id, remote) == remote,
        group.rtr == RtrFilterBehavior::Configurable ==> settings.allowing_remote().accepts(
            &group,
            id,
            remote,
        ),
        group.rtr == RtrFilterBehavior::ConfigurableEitherDataOrRemote
            ==> settings.allowing_remote().accepts(&group, id, remote) == !remote,
        settings.remote == RemoteDisposition::Unspecified ==> settings.accepts(&group, id, remote)
            == !remote,
{
}

} // verus!

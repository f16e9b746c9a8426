use can_hal::filter::Filter;
use can_hal::filter::FilterGroup;
use can_hal::filter::FilterSettings;
use can_hal::filter::GroupCapabilities;
use can_hal::filter::MaskType;
use can_hal::filter::RemoteDisposition;
use can_hal::filter::RtrFilterBehavior;
use can_hal::id::Id;

fn group(extended: bool, mask: Option<MaskType>, rtr: RtrFilterBehavior) -> GroupCapabilities {
    GroupCapabilities { slots: 4, extended, mask, rtr }
}

const BEHAVIORS: [RtrFilterBehavior; 5] = [
    RtrFilterBehavior::Configurable,
    RtrFilterBehavior::ConfigurableEitherDataOrRemote,
    RtrFilterBehavior::RemoteAlwaysAllowed,
    RtrFilterBehavior::OnlyData,
    RtrFilterBehavior::OnlyRemote,
];

#[test]
fn mask_marks_the_significant_bits() {
    let mut filter = FilterSettings::new(Id::Standard(0b100110111));
    filter.with_mask(0b000001111);
    assert!(!filter.accepts_id(Id::Standard(0b100110011)));
    assert!(filter.accepts_id(Id::Standard(0b000000111)));
    assert!(filter.accepts_id(Id::Standard(0b100110111)));
    assert!(!filter.accepts_id(Id::Standard(0b100110110)));
}

#[test]
fn filter_without_mask_is_exact() {
    let filter = FilterSettings::new(Id::Standard(0x123));
    assert_eq!(filter.mask, None);
    assert!(filter.accepts_id(Id::Standard(0x123)));
    assert!(!filter.accepts_id(Id::Standard(0x122)));
    assert!(!filter.accepts_id(Id::Standard(0x523)));
    assert!(!filter.accepts_id(Id::Extended(0x123)));
    let wide = FilterSettings::new(Id::Extended(0x1ABC_DEF0));
    assert!(wide.accepts_id(Id::Extended(0x1ABC_DEF0)));
    assert!(!wide.accepts_id(Id::Extended(0x0ABC_DEF0)));
}

#[test]
fn mask_of_ones_is_exact_and_mask_of_zeros_takes_the_width() {
    let mut filter = FilterSettings::new(Id::Standard(0x555));
    filter.with_mask(u32::MAX);
    assert!(filter.accepts_id(Id::Standard(0x555)));
    assert!(!filter.accepts_id(Id::Standard(0x554)));
    filter.with_mask(0);
    assert!(filter.accepts_id(Id::Standard(0)));
    assert!(filter.accepts_id(Id::Standard(0x7FF)));
    assert!(!filter.accepts_id(Id::Extended(0x555)));
}

#[test]
fn last_mask_wins() {
    let mut twice = FilterSettings::new(Id::Standard(0x0F0));
    twice.with_mask(0x00F).with_mask(0x0F0);
    let mut once = FilterSettings::new(Id::Standard(0x0F0));
    once.with_mask(0x0F0);
    assert_eq!(twice, once);
    assert_eq!(twice.mask, Some(0x0F0));
    assert!(twice.accepts_id(Id::Standard(0x0FF)));
    assert!(!twice.accepts_id(Id::Standard(0x00F)));
}

#[test]
fn accept_all_holds_the_widest_identifier_under_an_empty_mask() {
    let all = FilterSettings::accept_all();
    assert_eq!(all.id, Id::Extended(0x1FFF_FFFF));
    assert_eq!(all.mask, Some(0));
    assert_eq!(all.remote, RemoteDisposition::AllowRemote);
    assert!(all.any_width);
}

#[test]
fn accept_all_accepts_every_identifier() {
    let all = FilterSettings::accept_all();
    for id in [
        Id::Standard(0),
        Id::Standard(0x2AA),
        Id::Standard(0x7FF),
        Id::Extended(0),
        Id::Extended(0x0123_4567),
        Id::Extended(0x1FFF_FFFF),
    ] {
        assert!(all.accepts_id(id));
    }
}

#[test]
fn accept_all_keeps_to_the_widths_of_the_group() {
    let all = FilterSettings::accept_all();
    let narrow = group(false, Some(MaskType::Individual), RtrFilterBehavior::Configurable);
    let wide = group(true, Some(MaskType::Individual), RtrFilterBehavior::Configurable);
    assert!(all.fits(&narrow));
    assert!(all.fits(&wide));
    for remote in [false, true] {
        assert!(all.accepts(&narrow, Id::Standard(0x7FF), remote));
        assert!(!all.accepts(&narrow, Id::Extended(0x7FF), remote));
        assert!(all.accepts(&wide, Id::Standard(0x7FF), remote));
        assert!(all.accepts(&wide, Id::Extended(0x1FFF_FFFF), remote));
    }
}

#[test]
fn new_filter_asks_for_nothing_about_remote_frames() {
    let filter = FilterSettings::new(Id::Extended(42));
    assert_eq!(filter.id, Id::Extended(42));
    assert_eq!(filter.remote, RemoteDisposition::Unspecified);
    assert!(!filter.any_width);
}

#[test]
fn remote_calls_overwrite_each_other() {
    let mut filter = FilterSettings::new(Id::Standard(1));
    filter.allow_remote();
    assert_eq!(filter.remote, RemoteDisposition::AllowRemote);
    filter.remote_only();
    assert_eq!(filter.remote, RemoteDisposition::RemoteOnly);
    filter.allow_remote().with_mask(3);
    assert_eq!(filter.remote, RemoteDisposition::AllowRemote);
    assert_eq!(filter.mask, Some(3));
    assert_eq!(filter.id, Id::Standard(1));
}

#[test]
fn only_data_group_ignores_remote_settings() {
    let caps = group(true, Some(MaskType::Individual), RtrFilterBehavior::OnlyData);
    let plain = FilterSettings::new(Id::Standard(0x10));
    let mut allowing = plain;
    allowing.allow_remote();
    let mut only = plain;
    only.remote_only();
    for filter in [plain, allowing, only] {
        assert!(filter.accepts(&caps, Id::Standard(0x10), false));
        assert!(!filter.accepts(&caps, Id::Standard(0x10), true));
        assert!(!filter.accepts(&caps, Id::Standard(0x11), false));
    }
}

#[test]
fn fixed_groups_ignore_remote_settings() {
    let plain = FilterSettings::new(Id::Standard(0x10));
    let mut allowing = plain;
    allowing.allow_remote();
    let mut only = plain;
    only.remote_only();
    let always = group(false, None, RtrFilterBehavior::RemoteAlwaysAllowed);
    let remote_group = group(false, None, RtrFilterBehavior::OnlyRemote);
    for filter in [plain, allowing, only] {
        assert!(filter.accepts(&always, Id::Standard(0x10), false));
        assert!(filter.accepts(&always, Id::Standard(0x10), true));
        assert!(!filter.accepts(&remote_group, Id::Standard(0x10), false));
        assert!(filter.accepts(&remote_group, Id::Standard(0x10), true));
    }
}

#[test]
fn configurable_group_obeys_remote_settings() {
    let caps = group(false, None, RtrFilterBehavior::Configurable);
    let id = Id::Standard(0x10);
    let plain = FilterSettings::new(id);
    assert!(plain.accepts(&caps, id, false));
    assert!(!plain.accepts(&caps, id, true));
    let mut allowing = plain;
    allowing.allow_remote();
    assert!(allowing.accepts(&caps, id, false));
    assert!(allowing.accepts(&caps, id, true));
    let mut only = plain;
    only.remote_only();
    assert!(!only.accepts(&caps, id, false));
    assert!(only.accepts(&caps, id, true));
}

#[test]
fn either_data_or_remote_group_obeys_remote_only_alone() {
    let caps = group(false, None, RtrFilterBehavior::ConfigurableEitherDataOrRemote);
    let id = Id::Standard(0x10);
    let plain = FilterSettings::new(id);
    assert!(plain.accepts(&caps, id, false));
    assert!(!plain.accepts(&caps, id, true));
    let mut allowing = plain;
    allowing.allow_remote();
    assert!(allowing.accepts(&caps, id, false));
    assert!(!allowing.accepts(&caps, id, true));
    let mut only = plain;
    only.remote_only();
    assert!(!only.accepts(&caps, id, false));
    assert!(only.accepts(&caps, id, true));
}

#[test]
fn extended_frames_need_a_group_that_supports_them() {
    let id = Id::Extended(0x1_0000);
    let filter = FilterSettings::new(id);
    for rtr in BEHAVIORS {
        let narrow = group(false, None, rtr);
        assert!(!filter.fits(&narrow));
        assert!(!filter.accepts(&narrow, id, false));
        assert!(!filter.accepts(&narrow, id, true));
        assert!(filter.fits(&group(true, None, rtr)));
    }
    assert!(filter.accepts(&group(true, None, RtrFilterBehavior::OnlyData), id, false));
}

#[test]
fn masks_need_a_group_with_masks() {
    let mut masked = FilterSettings::new(Id::Standard(1));
    masked.with_mask(1);
    let bare = group(true, None, RtrFilterBehavior::Configurable);
    assert!(!masked.fits(&bare));
    assert!(!FilterSettings::accept_all().fits(&bare));
    assert!(FilterSettings::new(Id::Standard(1)).fits(&bare));
    assert!(masked.fits(&group(false, Some(MaskType::Shared), RtrFilterBehavior::Configurable)));
    assert!(masked.fits(&group(false, Some(MaskType::Individual), RtrFilterBehavior::Configurable)));
}

#[test]
fn group_reports_its_capabilities() {
    let caps = GroupCapabilities {
        slots: 14,
        extended: true,
        mask: Some(MaskType::Shared),
        rtr: RtrFilterBehavior::ConfigurableEitherDataOrRemote,
    };
    assert_eq!(caps.num_filters(), 14);
    assert!(caps.extended());
    assert_eq!(caps.mask(), Some(MaskType::Shared));
    assert_eq!(caps.rtr(), RtrFilterBehavior::ConfigurableEitherDataOrRemote);
    let bare = group(false, None, RtrFilterBehavior::OnlyRemote);
    assert_eq!(bare.num_filters(), 4);
    assert!(!bare.extended());
    assert_eq!(bare.mask(), None);
    assert_eq!(bare.rtr(), RtrFilterBehavior::OnlyRemote);
}

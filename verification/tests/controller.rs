use can_hal::bank::Slot;
use can_hal::can::Can;
use can_hal::can::FilteredReceiver;
use can_hal::controller::Controller;
use can_hal::controller::FilterError;
use can_hal::filter::Filter;
use can_hal::filter::FilterGroup;
use can_hal::filter::FilterSettings;
use can_hal::filter::GroupCapabilities;
use can_hal::filter::MaskType;
use can_hal::filter::RtrFilterBehavior;
use can_hal::frame::CanFrame;
use can_hal::frame::Frame;
use can_hal::id::Id;

fn group(slots: usize, extended: bool, mask: Option<MaskType>, rtr: RtrFilterBehavior) -> GroupCapabilities {
    GroupCapabilities { slots, extended, mask, rtr }
}

fn open_controller(capacity: usize) -> Controller {
    let mut can = Controller::new(
        vec![group(2, true, Some(MaskType::Individual), RtrFilterBehavior::Configurable)],
        capacity,
    );
    assert_eq!(can.add_filter(&FilterSettings::accept_all()), Ok(()));
    can
}

fn data(id: u32, byte: u8) -> CanFrame {
    CanFrame::new(Id::Standard(id), &[byte]).unwrap()
}

#[test]
fn frames_are_queued_while_there_is_room() {
    let mut can = open_controller(3);
    assert_eq!(can.transmit(&data(5, 1)), Ok(None));
    assert_eq!(can.transmit(&data(9, 2)), Ok(None));
    assert_eq!(can.transmit(&data(1, 3)), Ok(None));
    assert_eq!(can.depart(), Some(data(1, 3)));
    assert_eq!(can.depart(), Some(data(5, 1)));
    assert_eq!(can.depart(), Some(data(9, 2)));
    assert_eq!(can.depart(), None);
}

#[test]
fn full_buffer_gives_up_one_lower_priority_frame() {
    let mut can = open_controller(2);
    assert_eq!(can.transmit(&data(0x300, 1)), Ok(None));
    assert_eq!(can.transmit(&data(0x200, 2)), Ok(None));
    assert_eq!(can.transmit(&data(0x100, 3)), Ok(Some(data(0x300, 1))));
    assert_eq!(can.depart(), Some(data(0x100, 3)));
    assert_eq!(can.depart(), Some(data(0x200, 2)));
    assert_eq!(can.depart(), None);
}

#[test]
fn full_buffer_evicts_the_youngest_of_the_lowest_priority() {
    let mut can = open_controller(3);
    assert_eq!(can.transmit(&data(0x300, 1)), Ok(None));
    assert_eq!(can.transmit(&data(0x200, 2)), Ok(None));
    assert_eq!(can.transmit(&data(0x300, 3)), Ok(None));
    assert_eq!(can.transmit(&data(0x100, 4)), Ok(Some(data(0x300, 3))));
    assert_eq!(can.depart(), Some(data(0x100, 4)));
    assert_eq!(can.depart(), Some(data(0x200, 2)));
    assert_eq!(can.depart(), Some(data(0x300, 1)));
}

#[test]
fn full_buffer_blocks_a_frame_that_outranks_nothing() {
    let mut can = open_controller(2);
    assert_eq!(can.transmit(&data(0x100, 1)), Ok(None));
    assert_eq!(can.transmit(&data(0x200, 2)), Ok(None));
    assert_eq!(can.transmit(&data(0x200, 3)), Err(nb::Error::WouldBlock));
    assert_eq!(can.transmit(&data(0x7FF, 4)), Err(nb::Error::WouldBlock));
    assert_eq!(can.depart(), Some(data(0x100, 1)));
    assert_eq!(can.transmit(&data(0x200, 3)), Ok(None));
    assert_eq!(can.depart(), Some(data(0x200, 2)));
    assert_eq!(can.depart(), Some(data(0x200, 3)));
}

#[test]
fn buffer_without_room_for_any_frame_blocks() {
    let mut can = open_controller(0);
    assert_eq!(can.transmit(&data(0, 1)), Err(nb::Error::WouldBlock));
    assert_eq!(can.depart(), None);
}

#[test]
fn equal_identifiers_leave_in_the_order_they_came() {
    let mut can = open_controller(4);
    let a = data(0x123, 0xA);
    let b = data(0x123, 0xB);
    assert_eq!(can.transmit(&a), Ok(None));
    assert_eq!(can.transmit(&data(0x400, 0)), Ok(None));
    assert_eq!(can.transmit(&b), Ok(None));
    assert_eq!(can.transmit(&data(0x050, 0)), Ok(None));
    assert_eq!(can.depart(), Some(data(0x050, 0)));
    assert_eq!(can.depart(), Some(a));
    assert_eq!(can.depart(), Some(b));
    assert_eq!(can.depart(), Some(data(0x400, 0)));
}

#[test]
fn equal_numbers_of_different_width_leave_in_the_order_they_came() {
    let mut can = open_controller(2);
    let wide = CanFrame::new(Id::Extended(0x10), &[1]).unwrap();
    let narrow = CanFrame::new(Id::Standard(0x10), &[2]).unwrap();
    assert_eq!(can.transmit(&wide), Ok(None));
    assert_eq!(can.transmit(&narrow), Ok(None));
    assert_eq!(can.depart(), Some(wide));
    assert_eq!(can.depart(), Some(narrow));
}

#[test]
fn receive_hands_out_frames_in_the_order_they_came() {
    let mut can = open_controller(1);
    assert!(can.deliver(&data(7, 1)));
    assert!(can.deliver(&CanFrame::new_remote(Id::Extended(9), 3).unwrap()));
    assert_eq!(can.receive(), Ok(data(7, 1)));
    assert_eq!(can.receive(), Ok(CanFrame::new_remote(Id::Extended(9), 3).unwrap()));
    assert_eq!(can.receive(), Err(nb::Error::WouldBlock));
}

#[test]
fn controller_without_filters_receives_nothing() {
    let mut can = Controller::new(vec![group(1, true, None, RtrFilterBehavior::Configurable)], 1);
    assert!(!can.deliver(&data(7, 1)));
    assert_eq!(can.receive(), Err(nb::Error::WouldBlock));
}

#[test]
fn cleared_filters_yield_nothing_until_a_filter_is_added() {
    let mut can = open_controller(1);
    assert!(can.deliver(&data(7, 1)));
    assert!(can.deliver(&data(8, 2)));
    can.clear_filters();
    assert_eq!(can.receive(), Err(nb::Error::WouldBlock));
    assert!(!can.deliver(&data(7, 3)));
    assert_eq!(can.receive(), Err(nb::Error::WouldBlock));
    assert_eq!(can.transmit(&data(1, 1)), Ok(None));
    assert_eq!(can.receive(), Err(nb::Error::WouldBlock));
    assert_eq!(can.add_filter(&FilterSettings::new(Id::Standard(7))), Ok(()));
    assert!(can.deliver(&data(7, 4)));
    assert!(!can.deliver(&data(8, 5)));
    assert_eq!(can.receive(), Ok(data(7, 4)));
    assert_eq!(can.receive(), Err(nb::Error::WouldBlock));
}

#[test]
fn receive_drops_what_the_filters_no_longer_let_through() {
    let mut can = open_controller(1);
    assert!(can.deliver(&data(8, 1)));
    assert!(can.deliver(&data(7, 2)));
    assert!(can.deliver(&data(8, 3)));
    can.clear_filters();
    assert_eq!(can.add_filter(&FilterSettings::new(Id::Standard(7))), Ok(()));
    assert_eq!(can.receive(), Ok(data(7, 2)));
    assert_eq!(can.receive(), Err(nb::Error::WouldBlock));
}

#[test]
fn remote_frames_pass_only_where_the_filter_lets_them() {
    let mut can = Controller::new(vec![group(2, false, None, RtrFilterBehavior::Configurable)], 1);
    let request = CanFrame::new_remote(Id::Standard(0x42), 8).unwrap();
    assert_eq!(can.add_filter(&FilterSettings::new(Id::Standard(0x42))), Ok(()));
    assert!(!can.deliver(&request));
    assert!(can.deliver(&data(0x42, 0)));
    let mut remote = FilterSettings::new(Id::Standard(0x42));
    remote.remote_only();
    assert_eq!(can.add_filter(&remote), Ok(()));
    assert!(can.deliver(&request));
    assert_eq!(can.receive(), Ok(data(0x42, 0)));
    assert_eq!(can.receive(), Ok(request));
}

#[test]
fn only_data_group_never_lets_remote_frames_through() {
    let mut can = Controller::new(vec![group(3, false, None, RtrFilterBehavior::OnlyData)], 1);
    let mut allowing = FilterSettings::new(Id::Standard(0x42));
    allowing.allow_remote();
    let mut only = FilterSettings::new(Id::Standard(0x42));
    only.remote_only();
    assert_eq!(can.add_filter(&allowing), Ok(()));
    assert_eq!(can.add_filter(&only), Ok(()));
    assert!(!can.admits(&CanFrame::new_remote(Id::Standard(0x42), 0).unwrap()));
    assert!(can.admits(&data(0x42, 0)));
}

#[test]
fn filter_goes_into_the_first_group_that_takes_it() {
    let mut can = Controller::new(
        vec![
            group(1, false, None, RtrFilterBehavior::OnlyData),
            group(1, true, Some(MaskType::Individual), RtrFilterBehavior::Configurable),
            group(1, false, Some(MaskType::Individual), RtrFilterBehavior::Configurable),
        ],
        1,
    );
    let mut masked = FilterSettings::new(Id::Standard(0x100));
    masked.with_mask(0x700);
    assert_eq!(can.add_filter(&masked), Ok(()));
    assert!(can.admits(&CanFrame::new_remote(Id::Standard(0x1FF), 0).unwrap()) == false);
    assert!(can.admits(&data(0x1FF, 0)));
    assert_eq!(can.add_filter(&masked), Ok(()));
    assert_eq!(can.add_filter(&masked), Err(FilterError::Exhausted));
    assert_eq!(can.add_filter(&FilterSettings::new(Id::Standard(3))), Ok(()));
    assert_eq!(can.add_filter(&FilterSettings::new(Id::Standard(3))), Err(FilterError::Exhausted));
}

#[test]
fn filter_that_no_group_can_hold_is_unsupported() {
    let mut can = Controller::new(
        vec![group(4, false, None, RtrFilterBehavior::OnlyData)],
        1,
    );
    assert_eq!(can.add_filter(&FilterSettings::new(Id::Extended(1))), Err(FilterError::Unsupported));
    assert_eq!(can.add_filter(&FilterSettings::accept_all()), Err(FilterError::Unsupported));
    assert_eq!(Controller::new(vec![], 1).add_filter(&FilterSettings::new(Id::Standard(1))), Err(FilterError::Unsupported));
    assert_eq!(can.add_filter(&FilterSettings::new(Id::Standard(1))), Ok(()));
}

#[test]
fn group_without_slots_is_exhausted() {
    let mut can = Controller::new(vec![group(0, true, None, RtrFilterBehavior::OnlyData)], 1);
    assert_eq!(can.add_filter(&FilterSettings::new(Id::Standard(1))), Err(FilterError::Exhausted));
}

#[test]
fn clearing_frees_the_slots() {
    let mut can = Controller::new(vec![group(1, false, None, RtrFilterBehavior::OnlyData)], 1);
    assert_eq!(can.add_filter(&FilterSettings::new(Id::Standard(1))), Ok(()));
    assert_eq!(can.add_filter(&FilterSettings::new(Id::Standard(2))), Err(FilterError::Exhausted));
    can.clear_filters();
    assert_eq!(can.add_filter(&FilterSettings::new(Id::Standard(2))), Ok(()));
    assert!(!can.admits(&data(1, 0)));
    assert!(can.admits(&data(2, 0)));
}

#[test]
fn shared_mask_is_that_of_the_last_filter() {
    let mut can = Controller::new(
        vec![
            group(2, false, Some(MaskType::Shared), RtrFilterBehavior::Configurable),
            group(1, false, Some(MaskType::Individual), RtrFilterBehavior::Configurable),
        ],
        1,
    );
    let mut first = FilterSettings::new(Id::Standard(0x100));
    first.with_mask(0x7FF);
    assert_eq!(can.add_filter(&first), Ok(()));
    assert!(can.admits(&data(0x100, 0)));
    assert!(!can.admits(&data(0x101, 0)));
    let mut second = FilterSettings::new(Id::Standard(0x200));
    second.with_mask(0x700);
    assert_eq!(can.add_filter(&second), Ok(()));
    assert!(can.admits(&data(0x101, 0)));
    assert!(can.admits(&data(0x2FF, 0)));
    assert!(!can.admits(&data(0x300, 0)));
    let mut third = FilterSettings::new(Id::Standard(0x400));
    third.with_mask(0x7FF);
    assert_eq!(can.add_filter(&third), Ok(()));
    assert!(can.admits(&data(0x400, 0)));
    assert!(!can.admits(&data(0x401, 0)));
    assert!(can.admits(&data(0x101, 0)));
}

#[test]
fn filter_groups_are_reported_as_given() {
    let groups = vec![
        group(14, true, Some(MaskType::Shared), RtrFilterBehavior::Configurable),
        group(2, false, None, RtrFilterBehavior::OnlyRemote),
    ];
    let can = Controller::new(groups.clone(), 3);
    assert_eq!(can.filter_groups(), groups);
    let listed = can.filter_groups();
    assert_eq!(listed.len(), 2);
    assert_eq!(listed[0].num_filters(), 14);
    assert_eq!(listed[1].rtr(), RtrFilterBehavior::OnlyRemote);
    assert_eq!(can.filter_groups(), listed);
}

#[test]
fn slots_are_plain_values() {
    let slot = Slot { group: 1, settings: FilterSettings::new(Id::Standard(3)) };
    assert_eq!(slot, Slot { group: 1, settings: FilterSettings::new(Id::Standard(3)) });
    assert_ne!(slot, Slot { group: 0, settings: FilterSettings::new(Id::Standard(3)) });
}

fn send_all<C: Can<Frame = CanFrame>>(can: &mut C, frames: &[CanFrame]) -> usize {
    let mut queued = 0;
    for frame in frames {
        if let Ok(_) = can.transmit(frame) {
            queued += 1;
        }
    }
    queued
}

#[test]
fn controller_serves_code_written_against_the_interface() {
    let mut can = open_controller(2);
    let frames = [data(3, 0), data(2, 0), data(1, 0), data(9, 0)];
    assert_eq!(send_all(&mut can, &frames), 3);
    assert_eq!(can.depart().map(|frame| frame.id()), Some(Id::Standard(1)));
    assert_eq!(can.depart().map(|frame| frame.id()), Some(Id::Standard(2)));
    assert_eq!(can.depart(), None);
}

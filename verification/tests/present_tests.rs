use skwd_paper::present::{
    consume_output_releases, control_enabled_for_overlay, require_presentation_confirmation,
    should_park_still, should_release_source_frame, vaapi_slot_choice, DescriptorKey, PlaneKey,
    PresentationReadiness, SlotChoice, SlotError, SlotRecord, VAAPI_SURFACE_SLOTS,
};
use std::cell::RefCell;

#[test]
fn still_pending_swap() {
    assert!(!should_park_still(true, false, true, 1));
}

#[test]
fn still_parks_when_idle() {
    assert!(should_park_still(true, false, false, 1));
    assert!(!should_park_still(true, true, false, 1));
    assert!(!should_park_still(true, false, false, 0));
    assert!(!should_park_still(false, false, false, 1));
}

#[test]
fn transition_pacer_retains_outgoing_video_frame() {
    assert!(!should_release_source_frame(false, true));
    assert!(!should_release_source_frame(true, true));
    assert!(!should_release_source_frame(true, false));
    assert!(should_release_source_frame(false, false));
}

#[test]
fn held_overlay_keeps_control_reader() {
    assert!(control_enabled_for_overlay(true, true));
    assert!(!control_enabled_for_overlay(true, false));
    assert!(control_enabled_for_overlay(false, false));
}

#[test]
fn available_presentation_feedback_is_fail_closed() {
    assert!(require_presentation_confirmation(Some(true), "frame").is_ok());
    assert!(require_presentation_confirmation(Some(false), "frame").is_err());
    assert!(require_presentation_confirmation(None, "frame").is_ok());
}

#[test]
fn refused_presentation_names_the_frame() {
    let error = require_presentation_confirmation(Some(false), "first frame").unwrap_err();
    assert_eq!(
        error.message(),
        "compositor did not confirm presentation of first frame within 2 seconds"
    );
}

#[test]
fn closed_output_no_release() {
    let mut pending = [true, true];
    assert!(!consume_output_releases(&mut pending, |si| si == 1));
    assert_eq!(pending, [true, false]);
}

#[test]
fn release_after_all_outputs() {
    let mut pending = [true, false, true];
    assert!(!consume_output_releases(&mut pending, |si| si == 0));
    assert!(consume_output_releases(&mut pending, |si| si == 2));
    assert_eq!(pending, [false, false, false]);
}

#[test]
fn startup_and_swap_acks() {
    let mut readiness = PresentationReadiness::startup();

    assert!(readiness.take_if_committed(true));
    assert!(!readiness.take_if_committed(true));

    readiness.arm_swap();
    assert!(readiness.take_if_committed(true));
    assert!(!readiness.take_if_committed(true));

    readiness.arm_swap();
    assert!(readiness.take_if_committed(true));
    assert!(!readiness.take_if_committed(true));
}

#[test]
fn repeat_arm_coalesces() {
    let mut readiness = PresentationReadiness::startup();
    readiness.arm_swap();
    readiness.arm_swap();

    assert!(readiness.take_if_committed(true));
    assert!(!readiness.take_if_committed(true));
}

#[test]
fn cadence_skip_keeps_armed() {
    let mut readiness = PresentationReadiness::startup();

    assert!(!readiness.take_if_committed(false));
    assert!(!readiness.take_if_committed(false));
    assert!(readiness.take_if_committed(true));
    assert!(!readiness.take_if_committed(true));
}

#[test]
fn presentation_precedes_notification() {
    let mut readiness = PresentationReadiness::startup();
    let events = RefCell::new(Vec::new());

    let completed = readiness
        .complete_after_presentation(
            true,
            || {
                events.borrow_mut().push("presented");
                Ok::<(), ()>(())
            },
            || events.borrow_mut().push("ready"),
        )
        .unwrap();

    assert!(completed);
    assert_eq!(*events.borrow(), ["presented", "ready"]);
}

#[test]
fn failed_presentation_does_not_notify() {
    let mut readiness = PresentationReadiness::startup();
    let notified = RefCell::new(false);

    let completed = readiness.complete_after_presentation(
        true,
        || Err::<(), _>("discarded"),
        || *notified.borrow_mut() = true,
    );

    assert_eq!(completed, Err("discarded"));
    assert!(!*notified.borrow());
}

#[test]
fn nothing_owed_means_no_wait_and_no_notification() {
    let mut readiness = PresentationReadiness::startup();
    assert!(readiness.take_if_committed(true));
    let waited = RefCell::new(false);
    let completed = readiness.complete_after_presentation(
        true,
        || {
            *waited.borrow_mut() = true;
            Ok::<(), ()>(())
        },
        || panic!("nothing was owed"),
    );
    assert_eq!(completed, Ok(false));
    assert!(!*waited.borrow());
}

fn plane(inode: u64, offset: usize) -> PlaneKey {
    PlaneKey { device: 7, inode, object_size: 4096, offset, pitch: 64, modifier: 0 }
}

fn descriptor(inode: u64) -> DescriptorKey {
    DescriptorKey { width: 64, height: 32, luma: plane(inode, 0), chroma: plane(inode, 2048) }
}

fn slot(key: usize, inode: u64, pending: &[bool]) -> SlotRecord {
    SlotRecord { key, descriptor: descriptor(inode), pending_outputs: pending.to_vec() }
}

#[test]
fn known_vaapi_surfaces_reuse_their_slot() {
    let slots = [slot(10, 1, &[false, false]), slot(11, 2, &[false])];
    assert_eq!(vaapi_slot_choice(&slots, 11, descriptor(2), (64, 32)), Ok(SlotChoice::Reuse(1)));
    assert_eq!(vaapi_slot_choice(&slots, 12, descriptor(3), (64, 32)), Ok(SlotChoice::Create));
}

#[test]
fn vaapi_surface_refusals_name_their_cause() {
    let slots = [slot(10, 1, &[false, true])];
    assert_eq!(
        vaapi_slot_choice(&slots, 10, descriptor(9), (64, 32)),
        Err(SlotError::BackingChanged)
    );
    assert_eq!(
        vaapi_slot_choice(&slots, 10, descriptor(1), (64, 32)),
        Err(SlotError::ReusedBeforeRelease)
    );
    assert_eq!(
        vaapi_slot_choice(&slots, 11, descriptor(1), (128, 32)),
        Err(SlotError::DimensionsChanged)
    );
    let full: Vec<SlotRecord> = (0..VAAPI_SURFACE_SLOTS).map(|key| slot(key, 1, &[])).collect();
    assert_eq!(
        vaapi_slot_choice(&full, 99, descriptor(1), (64, 32)),
        Err(SlotError::TooManySurfaces)
    );
}

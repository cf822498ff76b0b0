use skwd_paper::decode::{
    container_wrap_is_fatal, decoder_requires_software, packet_error_is_fatal,
    queue_sync_from_status, resolved_thread_count, sw_thread_count, vaapi_dimensions_supported,
    CONSECUTIVE_PACKET_ERROR_LIMIT,
};

#[test]
fn cpu_floor_one_thread() {
    assert_eq!(resolved_thread_count(-1, 1366, 768, None), 1);
    assert_eq!(resolved_thread_count(-1, 1280, 720, None), 1);
    assert_eq!(resolved_thread_count(-1, 1920, 1080, None), 2);
    assert_eq!(resolved_thread_count(3, 1366, 768, None), 3);
}

#[test]
fn automatic_threads_follow_the_machine_within_caps() {
    assert_eq!(sw_thread_count(1920, 1080, None), 2);
    assert_eq!(sw_thread_count(1920, 1080, Some(1)), 2);
    assert_eq!(sw_thread_count(1920, 1080, Some(16)), 4);
    assert_eq!(sw_thread_count(3840, 2160, Some(16)), 8);
    assert_eq!(sw_thread_count(3840, 2160, Some(6)), 6);
    assert_eq!(resolved_thread_count(0, 3840, 2160, Some(16)), 8);
}

#[test]
fn packet_error_budget() {
    let mut errors = 0;
    for _ in 1..CONSECUTIVE_PACKET_ERROR_LIMIT {
        assert!(!packet_error_is_fatal(&mut errors));
    }
    assert!(packet_error_is_fatal(&mut errors));

    errors = 0;
    assert_eq!(errors, 0);
    assert!(!packet_error_is_fatal(&mut errors));
}

#[test]
fn software_device_no_vulkan() {
    // "wall.mp4", "wall.mkv" and "wall.webm" are all video paths.
    for video_path in [true, true, true] {
        assert!(decoder_requires_software(true, None, video_path));
    }
}

#[test]
fn software_decoding_follows_override_and_source_kind() {
    assert!(!decoder_requires_software(false, None, true));
    assert!(decoder_requires_software(false, Some("sw"), true));
    assert!(!decoder_requires_software(false, Some("vaapi"), true));
    assert!(decoder_requires_software(false, None, false));
}

#[test]
fn container_wrap_fatal() {
    let mut wraps = 0;
    assert!(!container_wrap_is_fatal(&mut wraps));
    assert!(container_wrap_is_fatal(&mut wraps));
}

#[test]
fn vaapi_odd_dimensions() {
    assert!(vaapi_dimensions_supported(1920, 1080));
    assert!(vaapi_dimensions_supported(456, 320));
    assert!(!vaapi_dimensions_supported(455, 320));
    assert!(!vaapi_dimensions_supported(1920, 1081));
}

#[test]
fn status_queue_sync() {
    assert_eq!(queue_sync_from_status(1), Some(false));
    assert_eq!(queue_sync_from_status(2), Some(true));
}

#[test]
fn status_unknown_values() {
    assert_eq!(queue_sync_from_status(0), None);
    assert_eq!(queue_sync_from_status(-1), None);
    assert_eq!(queue_sync_from_status(3), None);
}

use skwd_paper::args::{
    control_stdin_enabled, parse_audio_opts, parse_flag, parse_idle_secs, renderer_path,
    transition_hold_enabled,
};
use skwd_paper::extent::{
    aspect_ratio_matches, dedup_dims, largest_extent, matching_aspect_ratios, shared_render_dims,
    xr_render_dims,
};

const OUTPUTS: [(u32, u32); 3] = [(1920, 1080), (2560, 1440), (3840, 2160)];

fn strs(items: &[&str]) -> Vec<String> {
    items.iter().map(ToString::to_string).collect()
}

#[test]
fn standalone_mode_is_opt_in_and_disables_only_control_stdin() {
    assert!(control_stdin_enabled(&["skwd-wall-vk".into(), "DP-3".into(), "loop.mp4".into()]));
    assert!(!control_stdin_enabled(&[
        "skwd-wall-vk".into(),
        "DP-3".into(),
        "loop.mp4".into(),
        "--standalone".into(),
    ]));
}

#[test]
fn staged_transition_keeps_control_stdin() {
    let args: [String; 4] =
        ["skwd-wall-vk".into(), "DP-3".into(), "next.png".into(), "--transition-hold".into()];
    assert!(transition_hold_enabled(&args));
    assert!(control_stdin_enabled(&args));
}

#[test]
fn idle_seconds_are_shared_by_single_and_multi_paths() {
    assert_eq!(parse_idle_secs(Some("45")), 45);
    assert_eq!(parse_idle_secs(Some("0")), 0);
    assert_eq!(parse_idle_secs(Some("-1")), 0);
    assert_eq!(parse_idle_secs(Some("not-a-number")), 0);
    assert_eq!(parse_idle_secs(None), 0);
}

#[test]
fn kwin_defaults_to_shared_vulkan_presentation() {
    assert_eq!(renderer_path(None, true, false), "shared");
    assert_eq!(renderer_path(None, false, false), "dmabuf-present");
}

#[test]
fn explicit_renderer_path_overrides_kwin_default() {
    assert_eq!(renderer_path(Some("dmabuf-present"), true, false), "dmabuf-present");
    assert_eq!(renderer_path(Some("shared"), false, false), "shared");
}

#[test]
fn transitions_always_use_the_transition_capable_path() {
    assert_eq!(renderer_path(None, true, true), "dmabuf-present");
    assert_eq!(renderer_path(Some("shared"), true, true), "dmabuf-present");
    assert_eq!(renderer_path(Some("nv12"), false, true), "dmabuf-present");
}

#[test]
fn retired_cpu_path_uses_the_vulkan_default() {
    assert_eq!(renderer_path(Some("cpu"), true, false), "shared");
    assert_eq!(renderer_path(Some("cpu"), false, false), "dmabuf-present");
}

#[test]
fn flag_values_follow_their_flag() {
    let args = strs(&["skwd-wall-vk", "--idle", "30", "--renderer", "shared"]);
    assert_eq!(parse_flag(&args, "--idle"), Some("30"));
    assert_eq!(parse_flag(&args, "--renderer"), Some("shared"));
    assert_eq!(parse_flag(&args, "--missing"), None);
    assert_eq!(parse_flag(&strs(&["--idle"]), "--idle"), None);
}

#[test]
fn audio_opts_parse() {
    assert_eq!(parse_audio_opts(&strs(&[])), (true, 80));
    assert_eq!(parse_audio_opts(&strs(&["-o", "mute=no;volume=55"])), (false, 55));
    assert_eq!(parse_audio_opts(&strs(&["-o", "mute=yes;volume=250"])), (true, 100));
    assert_eq!(parse_audio_opts(&strs(&["-o", "volume=banana"])), (true, 80));
    assert_eq!(parse_audio_opts(&strs(&["--fill-mode", "fill"])), (true, 80));
}

#[test]
fn audio_opts_take_the_last_setting() {
    assert_eq!(parse_audio_opts(&strs(&["-o", "mute=1", "-o", "volume=5;mute=false"])), (false, 5));
    assert_eq!(parse_audio_opts(&strs(&["-o"])), (true, 80));
}

#[test]
fn shared_source_extent_replaces_every_render_extent() {
    assert_eq!(
        shared_render_dims(&OUTPUTS, Some((2560, 1440)), Some("source"), true, false),
        vec![(2560, 1440); 3]
    );
}

#[test]
fn shared_max_extent_uses_the_largest_output() {
    assert_eq!(
        shared_render_dims(&OUTPUTS, Some((2560, 1440)), Some("max"), true, false),
        vec![(3840, 2160); 3]
    );
}

#[test]
fn shared_extent_requires_viewporter_and_dmabuf() {
    assert_eq!(
        shared_render_dims(&OUTPUTS, Some((2560, 1440)), Some("source"), false, true),
        OUTPUTS
    );
    assert_eq!(shared_render_dims(&OUTPUTS, None, Some("source"), true, true), OUTPUTS);
}

#[test]
fn automatic_reuse_chooses_the_smaller_compatible_extent() {
    assert_eq!(
        shared_render_dims(&OUTPUTS, Some((2560, 1440)), None, true, true),
        vec![(2560, 1440); 3]
    );
    assert_eq!(
        shared_render_dims(&OUTPUTS, Some((7680, 4320)), None, true, true),
        vec![(3840, 2160); 3]
    );
}

#[test]
fn automatic_reuse_preserves_incompatible_output_groups() {
    let mixed = [(1920, 1080), (1080, 1920)];
    assert_eq!(shared_render_dims(&mixed, Some((1920, 1080)), None, true, true), mixed);
    assert_eq!(shared_render_dims(&OUTPUTS, Some((2560, 1080)), None, true, true), OUTPUTS);
    assert_eq!(shared_render_dims(&OUTPUTS, Some((2560, 1440)), None, true, false), OUTPUTS);
}

#[test]
fn native_override_disables_automatic_reuse() {
    assert_eq!(
        shared_render_dims(&OUTPUTS, Some((2560, 1440)), Some("native"), true, true),
        OUTPUTS
    );
}

#[test]
fn xr_transitions_keep_native_extents_for_mixed_output_sizes() {
    assert_eq!(xr_render_dims(&OUTPUTS, Some((2560, 1440)), None, true), OUTPUTS);
    assert_eq!(
        xr_render_dims(&[(2560, 1440); 3], Some((1920, 1080)), None, true),
        vec![(1920, 1080); 3]
    );
}

#[test]
fn xr_transition_override_can_force_a_shared_extent() {
    assert_eq!(
        xr_render_dims(&OUTPUTS, Some((2560, 1440)), Some("max"), true),
        vec![(3840, 2160); 3]
    );
}

#[test]
fn aspect_ratios_compare_exactly() {
    assert!(aspect_ratio_matches((1920, 1080), (3840, 2160)));
    assert!(!aspect_ratio_matches((2560, 1080), (1920, 1080)));
    assert!(matching_aspect_ratios(&OUTPUTS, Some((1280, 720))));
    assert!(!matching_aspect_ratios(&OUTPUTS, Some((1080, 1920))));
    assert!(!matching_aspect_ratios(&OUTPUTS, None));
}

#[test]
fn largest_extent_has_the_most_pixels() {
    assert_eq!(largest_extent(&OUTPUTS), (3840, 2160));
    assert_eq!(largest_extent(&[(100, 10), (10, 100)]), (10, 100));
}

#[test]
fn dedup_keeps_first_seen_order() {
    let (distinct, index) = dedup_dims(&[(1920, 1080), (2560, 1440), (1920, 1080)]);
    assert_eq!(distinct, [(1920, 1080), (2560, 1440)]);
    assert_eq!(index, [0, 1, 0]);
}

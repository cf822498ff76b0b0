use skwd_paper::multi::{group_entries, routed_to, text_less, VideoEntry};

fn entry(output: &str, video: &str, mute: bool, transition_from: Option<&str>) -> VideoEntry {
    VideoEntry {
        output: output.to_string(),
        video: video.to_string(),
        mute,
        volume: 42,
        transition_from: transition_from.map(String::from),
    }
}

#[test]
fn same_source_decodes_once_unless_transition_sources_differ() {
    let entries = vec![
        entry("DP-2", "/v/new.mp4", true, Some("/v/old-b.mp4")),
        entry("DP-1", "/v/new.mp4", false, Some("/v/old-a.mp4")),
        entry("DP-3", "/v/other.mp4", true, None),
    ];
    let groups = group_entries(&entries);
    assert_eq!(groups.len(), 3);
    assert!(groups[0].with_audio);
    assert!(!groups[1].with_audio);
    assert_eq!((groups[0].mute, groups[0].volume), (false, 42));
}

#[test]
fn targeted_commands_only_reach_matching_outputs() {
    let outputs = vec!["DP-1".to_string(), "DP-2".to_string()];
    assert!(routed_to(&outputs, None));
    assert!(routed_to(&outputs, Some(&["DP-2".to_string()][..])));
    assert!(!routed_to(&outputs, Some(&["DP-3".to_string()][..])));
}

#[test]
fn outputs_of_one_source_share_a_group_in_output_order() {
    let entries = vec![
        entry("HDMI-A-1", "/v/a.mp4", true, None),
        entry("DP-1", "/v/a.mp4", true, Some("/v/a.mp4")),
        entry("DP-2", "/v/b.mp4", false, None),
    ];
    let groups = group_entries(&entries);
    assert_eq!(groups.len(), 2);
    assert_eq!(groups[0].video, "/v/a.mp4");
    assert_eq!(groups[0].outputs, ["DP-1", "HDMI-A-1"]);
    assert_eq!(groups[0].transition_from, None);
    assert!(groups[0].mute);
    assert!(groups[0].with_audio);
    assert_eq!(groups[1].outputs, ["DP-2"]);
    assert!(!groups[1].mute);
    assert!(groups[1].with_audio);
}

#[test]
fn names_sort_by_code_point() {
    assert!(text_less("DP-1", "DP-2"));
    assert!(text_less("DP", "DP-1"));
    assert!(!text_less("DP-1", "DP-1"));
    assert!(text_less("HDMI", "eDP"));
}

use skwd_paper::control::{
    scene_voices_change, swap_audio_change, AudioAction, CaptureRequest, ControlCommand, Ctl,
    SinkChange, SinkKind, SwapCommand,
};

fn audio(mute: Option<bool>, volume: Option<u32>) -> ControlCommand<()> {
    ControlCommand::Audio { mute, volume }
}

fn swap_video(to: &str, mute: bool, volume: u32) -> ControlCommand<()> {
    ControlCommand::Swap(SwapCommand {
        to: to.to_string(),
        duration_ms: None,
        shader: None,
        mute: Some(mute),
        volume: Some(volume),
        properties: (),
    })
}

fn swap_paper(to: &str, shader: &str, duration_ms: u64, mute: bool, volume: u32) -> ControlCommand<()> {
    ControlCommand::Swap(SwapCommand {
        to: to.to_string(),
        duration_ms: Some(duration_ms),
        shader: Some(shader.to_string()),
        mute: Some(mute),
        volume: Some(volume),
        properties: (),
    })
}

#[test]
fn ctl_reduce() {
    let mut ctl = Ctl::start(true, 80);

    let (swap, _) = ctl.poll(vec![audio(Some(false), Some(40))]);
    assert!(swap.is_none());
    assert!(!ctl.mute);
    assert_eq!(ctl.volume, 40);

    let (swap, _) = ctl.poll(vec![ControlCommand::<()>::Pause(true)]);
    assert!(swap.is_none());
    assert!(ctl.paused);

    let (swap, _) = ctl.poll(vec![ControlCommand::<()>::Freeze("/cache/frame.ppm".to_string())]);
    assert!(swap.is_none());
    assert!(ctl.freeze_pending());
    assert_eq!(ctl.take_freeze().as_deref(), Some("/cache/frame.ppm"));

    let (swap, _) = ctl.poll(vec![swap_video("/v/next.mp4", true, 70)]);
    let req = swap.expect("swap command yields a swap");
    assert_eq!(req.to, "/v/next.mp4");
    assert_eq!(req.duration_ms, 0);
    assert!(ctl.mute);
    assert_eq!(ctl.volume, 70);

    let (swap, _) = ctl.poll(vec![swap_paper("/v/fade.mp4", "fade", 600, false, 90)]);
    let req = swap.expect("swap_paper yields a swap");
    assert_eq!(req.duration_ms, 600);
    assert_eq!(req.shader.as_deref(), Some("fade"));
    assert!(!ctl.mute);

    let (swap, _) = ctl.poll(vec![swap_video("/v/a.mp4", true, 10), swap_video("/v/b.mp4", true, 10)]);
    let req = swap.expect("swap");
    assert_eq!(req.to, "/v/b.mp4");
}

#[test]
fn direct_pause_state_updates() {
    let mut ctl = Ctl::start(true, 80);
    assert_eq!(ctl.set_paused(true), AudioAction::Pause(true));
    assert!(ctl.paused);
    assert_eq!(ctl.set_paused(false), AudioAction::Pause(false));
    assert!(!ctl.paused);
}

#[test]
fn scene_capture_preserves_playback_and_pause_state() {
    for paused in [false, true] {
        let mut ctl = Ctl::start(true, 80);
        ctl.set_paused(paused);
        let capture = CaptureRequest {
            source: "/scene/a".to_string(),
            path: "/cache/frame.png".to_string(),
        };
        let (swap, actions) = ctl.poll(vec![ControlCommand::<()>::Capture(capture)]);
        assert!(swap.is_none());
        assert!(actions.is_empty());
        assert_eq!(ctl.paused, paused);
        assert!(!ctl.freeze_pending());
        let capture = ctl.take_capture().unwrap();
        assert_eq!(capture.source, "/scene/a");
        assert_eq!(capture.path, "/cache/frame.png");
        assert!(ctl.take_capture().is_none());
    }
}

#[test]
fn audio_actions_follow_the_commands() {
    let mut ctl = Ctl::start(true, 80);
    let (_, actions) = ctl.poll(vec![
        audio(Some(false), Some(250)),
        ControlCommand::<()>::Freeze("/f.ppm".to_string()),
        ControlCommand::<()>::RetainOutputs,
        audio(None, None),
    ]);
    assert_eq!(
        actions,
        [AudioAction::Mute(false), AudioAction::Volume(100), AudioAction::Pause(true)]
    );
    assert_eq!(ctl.volume, 100);
    assert!(ctl.paused);
    assert_eq!(ctl.cancel_freeze(), AudioAction::Pause(false));
    assert!(!ctl.paused);
    assert!(!ctl.freeze_pending());
}

#[test]
fn swaps_fall_back_to_muted_default_volume() {
    let mut ctl = Ctl::start(false, 30);
    let (swap, actions) = ctl.reduce(ControlCommand::Swap(SwapCommand {
        to: "/v/x.mp4".to_string(),
        duration_ms: None,
        shader: None,
        mute: None,
        volume: None,
        properties: 5u8,
    }));
    assert!(actions.is_empty());
    let req = swap.unwrap();
    assert_eq!(req.properties, 5);
    assert!(ctl.mute);
    assert_eq!(ctl.volume, 80);
}

#[test]
fn shared_channel_caps_the_starting_volume() {
    assert_eq!(Ctl::from_channel(true, 250).volume, 100);
    assert_eq!(Ctl::start(true, 250).volume, 250);
}

#[test]
fn stdin_switch_reads_back_the_last_setting() {
    let mut switch = skwd_paper::control::StdinSwitch::new();
    assert!(switch.stdin_enabled());
    switch.set_stdin_enabled(false);
    assert!(!switch.stdin_enabled());
    switch.set_stdin_enabled(true);
    assert!(switch.stdin_enabled());
}

#[test]
fn video_swaps_reuse_only_a_media_sink() {
    assert_eq!(swap_audio_change(SinkKind::Media, true), SinkChange::Reuse);
    assert_eq!(swap_audio_change(SinkKind::Scene, true), SinkChange::Open);
    assert_eq!(swap_audio_change(SinkKind::Silent, true), SinkChange::Open);
    assert_eq!(swap_audio_change(SinkKind::Media, false), SinkChange::Drop);
}

#[test]
fn scene_voices_reuse_only_a_scene_sink() {
    assert_eq!(scene_voices_change(SinkKind::Scene, 2), SinkChange::Reuse);
    assert_eq!(scene_voices_change(SinkKind::Media, 2), SinkChange::Open);
    assert_eq!(scene_voices_change(SinkKind::Scene, 0), SinkChange::Drop);
}

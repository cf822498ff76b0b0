use skwd_paper::session::all_live_seen;
use skwd_paper::session::{
    nv12_present_init, nv12_present_step, scene_present_init, scene_present_step,
    scene_stream_init, scene_stream_step, shared_present_init, shared_present_step, ImportPhase,
    Nv12Action, Nv12Event, PresentAction, PresentEvent, SceneAction, SceneEvent, SharedSetup,
    StreamAction, StreamEvent,
};

fn setup() -> SharedSetup {
    SharedSetup {
        shm_requested: false,
        xr24_usable: true,
        software: false,
        foreign_queue: true,
        reuse_export: true,
        force_linear: false,
        linear_available: true,
        still: false,
        overlay: false,
        start_fade: false,
        transition_held: false,
    }
}

#[test]
fn shared_import_falls_back_native_then_linear_then_shm() {
    let (state, action) = shared_present_init(setup());
    assert_eq!(action, PresentAction::Probe);
    assert_eq!(state.phase, ImportPhase::Probing);
    let (state, action) = shared_present_step(state, PresentEvent::ImportAccepted(false));
    assert_eq!(
        action,
        PresentAction::RebuildOutputs { reuse_export: false, force_linear: false, shm: false, probe: true }
    );
    let (state, action) = shared_present_step(state, PresentEvent::ImportAccepted(false));
    assert_eq!(
        action,
        PresentAction::RebuildOutputs { reuse_export: false, force_linear: true, shm: false, probe: true }
    );
    let (state, action) = shared_present_step(state, PresentEvent::ImportAccepted(false));
    assert_eq!(
        action,
        PresentAction::RebuildOutputs { reuse_export: false, force_linear: true, shm: true, probe: false }
    );
    assert!(state.shm_present);
    assert_eq!(state.phase, ImportPhase::Settled);
    let (after, action) = shared_present_step(state, PresentEvent::ImportAccepted(true));
    assert_eq!(action, PresentAction::Ignore);
    assert_eq!(after, state);
}

#[test]
fn shared_import_accepted_settles_without_fallback() {
    let (state, _) = shared_present_init(setup());
    let (state, action) = shared_present_step(state, PresentEvent::ImportAccepted(true));
    assert_eq!(action, PresentAction::ImportSettled);
    assert!(!state.shm_present);
    assert!(state.reuse_export);
}

#[test]
fn shared_import_skips_linear_when_unavailable() {
    let mut s = setup();
    s.reuse_export = false;
    s.linear_available = false;
    let (state, _) = shared_present_init(s);
    let (state, action) = shared_present_step(state, PresentEvent::ImportAccepted(false));
    assert_eq!(
        action,
        PresentAction::RebuildOutputs { reuse_export: false, force_linear: false, shm: true, probe: false }
    );
    assert!(state.shm_present);
}

#[test]
fn shared_starts_on_shm_without_foreign_queue() {
    let mut s = setup();
    s.foreign_queue = false;
    let (state, action) = shared_present_init(s);
    assert_eq!(action, PresentAction::ImportSettled);
    assert!(state.shm_present);
    assert!(state.readiness_pending);
}

#[test]
fn shared_swap_cancels_fade_and_rearms_readiness() {
    let mut s = setup();
    s.start_fade = true;
    let (state, _) = shared_present_init(s);
    let (state, _) = shared_present_step(state, PresentEvent::ImportAccepted(true));
    let (state, action) = shared_present_step(
        state,
        PresentEvent::FramePresented { committed: true, via_nv12: false, fade_finished: false, target_still: false },
    );
    assert_eq!(
        action,
        PresentAction::AfterPresent { notify_ready: true, hold_paused: false, finish_swap: false, release_xr: false }
    );
    assert!(!state.readiness_pending);
    let (state, action) = shared_present_step(state, PresentEvent::SwapRequested);
    assert_eq!(action, PresentAction::BeginSwap { cancel_fade: true, cancel_staged: false });
    let (state, action) = shared_present_step(state, PresentEvent::SwapRequested);
    assert_eq!(action, PresentAction::BeginSwap { cancel_fade: false, cancel_staged: true });
    let (state, action) = shared_present_step(state, PresentEvent::SwapReady);
    assert_eq!(action, PresentAction::StartFade { restore_xr: false });
    assert!(state.fading && state.readiness_pending && !state.swap_pending);
    let (state, action) = shared_present_step(
        state,
        PresentEvent::FramePresented { committed: true, via_nv12: false, fade_finished: true, target_still: true },
    );
    assert_eq!(
        action,
        PresentAction::AfterPresent { notify_ready: true, hold_paused: false, finish_swap: true, release_xr: false }
    );
    assert!(!state.fading);
    assert!(state.still);
}

#[test]
fn shared_idle_parks_only_after_a_frame() {
    let (state, _) = shared_present_init(setup());
    let tick = PresentEvent::Tick { idle: true, paused: false, freeze_pending: false };
    let (state, action) = shared_present_step(state, tick);
    assert_eq!(action, PresentAction::Present { reset_pacing: false, restore_audio: false });
    let (state, _) = shared_present_step(
        state,
        PresentEvent::FramePresented { committed: true, via_nv12: false, fade_finished: false, target_still: false },
    );
    let (state, action) = shared_present_step(state, tick);
    assert_eq!(action, PresentAction::Park { pause_audio: true, restore_audio: false });
    assert!(state.idle_paused);
    let (state, action) = shared_present_step(
        state,
        PresentEvent::Tick { idle: false, paused: false, freeze_pending: false },
    );
    assert_eq!(action, PresentAction::Present { reset_pacing: true, restore_audio: true });
    assert!(!state.idle_paused);
}

#[test]
fn shared_pause_parks_unless_a_freeze_is_pending() {
    let (state, _) = shared_present_init(setup());
    let (state, action) = shared_present_step(
        state,
        PresentEvent::Tick { idle: false, paused: true, freeze_pending: false },
    );
    assert_eq!(action, PresentAction::Park { pause_audio: false, restore_audio: false });
    let (_, action) = shared_present_step(
        state,
        PresentEvent::Tick { idle: false, paused: true, freeze_pending: true },
    );
    assert_eq!(action, PresentAction::Present { reset_pacing: true, restore_audio: false });
}

#[test]
fn shared_still_parks_and_overlay_exits() {
    let mut s = setup();
    s.still = true;
    let (state, _) = shared_present_init(s);
    let (state, _) = shared_present_step(
        state,
        PresentEvent::FramePresented { committed: true, via_nv12: false, fade_finished: false, target_still: false },
    );
    let tick = PresentEvent::Tick { idle: false, paused: false, freeze_pending: false };
    let (_, action) = shared_present_step(state, tick);
    assert_eq!(action, PresentAction::Park { pause_audio: false, restore_audio: false });
    let mut overlay = state;
    overlay.overlay = true;
    let (_, action) = shared_present_step(overlay, tick);
    assert_eq!(action, PresentAction::Exit);
}

#[test]
fn shared_decode_end_promotes_only_during_a_transition() {
    let (state, _) = shared_present_init(setup());
    assert_eq!(shared_present_step(state, PresentEvent::DecodeEnded).1, PresentAction::Fail);
    let mut fading = state;
    fading.fading = true;
    assert_eq!(shared_present_step(fading, PresentEvent::DecodeEnded).1, PresentAction::PromoteTarget);
}

#[test]
fn shared_held_transition_pauses_once_ready() {
    let mut s = setup();
    s.transition_held = true;
    let (state, _) = shared_present_init(s);
    let (state, action) = shared_present_step(
        state,
        PresentEvent::FramePresented { committed: true, via_nv12: false, fade_finished: false, target_still: false },
    );
    assert_eq!(
        action,
        PresentAction::AfterPresent { notify_ready: true, hold_paused: true, finish_swap: false, release_xr: false }
    );
    assert!(!state.transition_held);
    assert_eq!(state.frames, 1);
}

#[test]
fn nv12_idle_waits_for_the_first_frame_and_readiness_is_once() {
    let state = nv12_present_init();
    let tick = Nv12Event::Tick { idle: true, paused: false, freeze_pending: false };
    let (state, action) = nv12_present_step(state, tick);
    assert_eq!(action, Nv12Action::Present { reset_pacing: false, restore_audio: false });
    let (state, action) = nv12_present_step(state, Nv12Event::FramePresented { committed: true });
    assert_eq!(action, Nv12Action::AfterPresent { notify_ready: true });
    let (state, action) = nv12_present_step(state, Nv12Event::FramePresented { committed: true });
    assert_eq!(action, Nv12Action::AfterPresent { notify_ready: false });
    let (state, action) = nv12_present_step(state, tick);
    assert_eq!(action, Nv12Action::Park { pause_audio: true, restore_audio: false });
    let (_, action) = nv12_present_step(
        state,
        Nv12Event::Tick { idle: false, paused: false, freeze_pending: false },
    );
    assert_eq!(action, Nv12Action::Present { reset_pacing: true, restore_audio: true });
}

#[test]
fn nv12_decode_end_before_a_frame_fails_only_for_the_startup_source() {
    let state = nv12_present_init();
    assert_eq!(nv12_present_step(state, Nv12Event::DecodeEnded).1, Nv12Action::Fail);
    let (swapped, action) = nv12_present_step(state, Nv12Event::SwapRequested { to_startup: false });
    assert_eq!(action, Nv12Action::CutSwap);
    assert_eq!(nv12_present_step(swapped, Nv12Event::DecodeEnded).1, Nv12Action::Exit);
    let (presented, _) = nv12_present_step(state, Nv12Event::FramePresented { committed: true });
    assert_eq!(nv12_present_step(presented, Nv12Event::DecodeEnded).1, Nv12Action::Exit);
    assert_eq!(nv12_present_step(state, Nv12Event::AcquireFailed).1, Nv12Action::FallBack);
    assert_eq!(nv12_present_step(state, Nv12Event::OutputsClosed).1, Nv12Action::Exit);
}

#[test]
fn scene_commits_before_idle_parks_and_notifies_once() {
    let state = scene_present_init(false, false);
    let (state, action) = scene_present_step(state, SceneEvent::Tick { idle: true, paused: false });
    assert_eq!(action, SceneAction::Render { compose: false, restore_audio: false, resume_clock: false });
    let presented = SceneEvent::FramePresented {
        committed: true,
        first_seen: false,
        finish_after_commit: false,
        final_seen: false,
        all_seen: true,
    };
    let (state, action) = scene_present_step(state, presented);
    assert_eq!(
        action,
        SceneAction::AfterPresent { restart_fade_clock: false, finish_fade: false, notify_ready: true }
    );
    let (state, action) = scene_present_step(state, presented);
    assert_eq!(
        action,
        SceneAction::AfterPresent { restart_fade_clock: false, finish_fade: false, notify_ready: false }
    );
    let (state, action) = scene_present_step(state, SceneEvent::Tick { idle: true, paused: false });
    assert_eq!(action, SceneAction::Park { pause_audio: true, restore_audio: false, resume_clock: false });
    let (_, action) = scene_present_step(state, SceneEvent::Tick { idle: false, paused: false });
    assert_eq!(action, SceneAction::Park { pause_audio: false, restore_audio: true, resume_clock: true });
}

#[test]
fn scene_transition_restarts_clock_then_finishes() {
    let state = scene_present_init(true, false);
    let (state, action) = scene_present_step(
        state,
        SceneEvent::FramePresented {
            committed: true,
            first_seen: true,
            finish_after_commit: false,
            final_seen: false,
            all_seen: true,
        },
    );
    assert_eq!(
        action,
        SceneAction::AfterPresent { restart_fade_clock: true, finish_fade: false, notify_ready: true }
    );
    assert!(state.fading && !state.fade_first_frame);
    let (state, action) = scene_present_step(
        state,
        SceneEvent::FramePresented {
            committed: true,
            first_seen: true,
            finish_after_commit: true,
            final_seen: true,
            all_seen: true,
        },
    );
    assert_eq!(
        action,
        SceneAction::AfterPresent { restart_fade_clock: false, finish_fade: true, notify_ready: false }
    );
    assert!(!state.fading);
}

#[test]
fn scene_swap_keeps_scene_when_loading_failed() {
    let state = scene_present_init(false, true);
    let (after, action) =
        scene_present_step(state, SceneEvent::SwapRequested { loaded: false, fade: true, animated: false });
    assert_eq!(action, SceneAction::KeepScene);
    assert_eq!(after, state);
    let (after, action) =
        scene_present_step(state, SceneEvent::SwapRequested { loaded: true, fade: true, animated: false });
    assert_eq!(action, SceneAction::SwapScene { fade: true });
    assert!(after.fading && after.fade_first_frame && !after.presented && !after.animated);
}

#[test]
fn stream_renders_into_free_slots_and_waits_for_acks() {
    let state = scene_stream_init(true);
    let tick = StreamEvent::Tick { paused: false };
    let (state, action) = scene_stream_step(state, tick);
    assert_eq!(action, StreamAction::Render { slot: 0, compose: true, resume_clock: false });
    let (state, action) = scene_stream_step(state, tick);
    assert_eq!(action, StreamAction::Render { slot: 1, compose: true, resume_clock: false });
    let (state, action) = scene_stream_step(state, tick);
    assert_eq!(action, StreamAction::Render { slot: 2, compose: true, resume_clock: false });
    assert_eq!(state.free, (false, false, false));
    let (state, action) = scene_stream_step(state, tick);
    assert_eq!(action, StreamAction::AwaitAck);
    let (same, _) = scene_stream_step(state, StreamEvent::Ack(7));
    assert_eq!(same, state);
    let (state, action) = scene_stream_step(state, StreamEvent::Ack(1));
    assert_eq!(action, StreamAction::Continue);
    assert_eq!(state.free, (false, true, false));
    let (_, action) = scene_stream_step(state, tick);
    assert_eq!(action, StreamAction::Render { slot: 1, compose: true, resume_clock: false });
}

#[test]
fn stream_pause_suspends_and_static_scene_waits() {
    let state = scene_stream_init(false);
    let (state, action) = scene_stream_step(state, StreamEvent::Tick { paused: true });
    assert_eq!(action, StreamAction::Wait);
    assert!(state.suspended);
    let (state, action) = scene_stream_step(state, StreamEvent::Tick { paused: false });
    assert_eq!(action, StreamAction::Render { slot: 0, compose: false, resume_clock: true });
    let (state, action) = scene_stream_step(state, StreamEvent::Tick { paused: false });
    assert_eq!(action, StreamAction::Wait);
    let (state, action) =
        scene_stream_step(state, StreamEvent::SwapRequested { loaded: true, fade: true, animated: false });
    assert_eq!(action, StreamAction::SwapScene { fade: true });
    let (state, action) = scene_stream_step(state, StreamEvent::Tick { paused: false });
    assert_eq!(action, StreamAction::Render { slot: 1, compose: false, resume_clock: false });
    let (state, _) = scene_stream_step(state, StreamEvent::FadeDone);
    assert!(!state.fading);
    assert_eq!(scene_stream_step(state, StreamEvent::ParentExited).1, StreamAction::Exit);
}

#[test]
fn shared_repeated_content_is_skipped_and_resuming_repaces() {
    let (state, _) = shared_present_init(setup());
    let (state, _) = shared_present_step(state, PresentEvent::ImportAccepted(true));
    let ready = |repeated| PresentEvent::FrameReady {
        content_known: true,
        content_repeated: repeated,
        terminal: false,
        nv12_capable: true,
    };
    // The first frame is never skipped.
    let (state, action) = shared_present_step(state, ready(true));
    assert_eq!(action, PresentAction::Render { reset_pacing: false, can_use_nv12: true });
    let (state, _) = shared_present_step(
        state,
        PresentEvent::FramePresented { committed: true, via_nv12: false, fade_finished: false, target_still: false },
    );
    let (state, action) = shared_present_step(state, ready(true));
    assert_eq!(action, PresentAction::SkipFrame);
    assert!(state.skipping);
    let (state, action) = shared_present_step(state, ready(false));
    assert_eq!(action, PresentAction::Render { reset_pacing: true, can_use_nv12: true });
    assert!(!state.skipping);
}

#[test]
fn shared_nv12_path_releases_and_restores_xr24() {
    let (state, _) = shared_present_init(setup());
    let (state, _) = shared_present_step(state, PresentEvent::ImportAccepted(true));
    let ready = PresentEvent::FrameReady {
        content_known: false,
        content_repeated: false,
        terminal: false,
        nv12_capable: true,
    };
    let (state, _) = shared_present_step(state, ready);
    let (state, action) = shared_present_step(state, PresentEvent::PathChosen { hybrid_ready: true });
    assert_eq!(
        action,
        PresentAction::UsePath { nv12: true, restore_xr: false, nv12_viewports: true, export_viewports: false }
    );
    let (state, action) = shared_present_step(
        state,
        PresentEvent::FramePresented { committed: true, via_nv12: true, fade_finished: false, target_still: false },
    );
    assert_eq!(
        action,
        PresentAction::AfterPresent { notify_ready: true, hold_paused: false, finish_swap: false, release_xr: true }
    );
    let (state, _) = shared_present_step(state, PresentEvent::XrReleased);
    assert!(!state.xr_ready && state.presenting_nv12);
    // No ring of the next frame's size: back to XR24, rebuilt first.
    let (state, _) = shared_present_step(state, ready);
    let (state, action) = shared_present_step(state, PresentEvent::PathChosen { hybrid_ready: false });
    assert_eq!(
        action,
        PresentAction::UsePath { nv12: false, restore_xr: true, nv12_viewports: false, export_viewports: true }
    );
    assert!(state.xr_ready);
    // A failed copy rules NV12 out from then on.
    let (state, action) = shared_present_step(state, PresentEvent::Nv12CopyFailed);
    assert_eq!(action, PresentAction::FallBackToXr { restore_xr: false });
    let (_, action) = shared_present_step(state, ready);
    assert_eq!(action, PresentAction::Render { reset_pacing: false, can_use_nv12: false });
}

#[test]
fn shared_transition_uses_nv12_only_for_its_terminal_frame() {
    let mut s = setup();
    s.start_fade = true;
    let (state, _) = shared_present_init(s);
    let frame = |terminal| PresentEvent::FrameReady {
        content_known: true,
        content_repeated: false,
        terminal,
        nv12_capable: true,
    };
    assert_eq!(
        shared_present_step(state, frame(false)).1,
        PresentAction::Render { reset_pacing: false, can_use_nv12: false }
    );
    assert_eq!(
        shared_present_step(state, frame(true)).1,
        PresentAction::Render { reset_pacing: false, can_use_nv12: true }
    );
    let mut released = state;
    released.xr_ready = false;
    let (after, _) = shared_present_step(released, PresentEvent::SwapRequested);
    let (after, action) = shared_present_step(after, PresentEvent::SwapReady);
    assert_eq!(action, PresentAction::StartFade { restore_xr: true });
    assert!(after.xr_ready);
}

#[test]
fn closed_outputs_count_as_seen() {
    assert!(all_live_seen(&[false, true], &[true, false]));
    assert!(!all_live_seen(&[false, false], &[true, false]));
    assert!(all_live_seen(&[], &[]));
}

use vstd::prelude::*;

verus! {

// The decisions of the presentation loops, as functions from the loop's
// state and the event the caller observed to the next state and the action
// the caller performs. The caller owns the devices, the decoder, the clock
// and the compositor connection; it runs the loop and hands back events.
/// Whether the shared path is still negotiating how its buffers are imported.
#[derive(Clone, Copy, Debug, PartialEq, Eq, Structural)]
pub enum ImportPhase {
    Probing,
    Settled,
}

/// What the shared presentation path starts from.
#[derive(Clone, Copy, Debug, PartialEq, Eq, Structural)]
pub struct SharedSetup {
    /// Presenting through shared memory was asked for explicitly.
    pub shm_requested: bool,
    /// The compositor advertises an importable XR24 format.
    pub xr24_usable: bool,
    /// The device renders in software.
    pub software: bool,
    /// Queue ownership can be handed to the decoder.
    pub foreign_queue: bool,
    /// The export extents differ from the outputs' own (one export reused).
    pub reuse_export: bool,
    /// Linear XR24 exports were asked for from the start.
    pub force_linear: bool,
    /// The compositor advertises linear XR24.
    pub linear_available: bool,
    /// The source is a still image.
    pub still: bool,
    /// The process only shows a transition and exits.
    pub overlay: bool,
    /// A startup transition begins at once.
    pub start_fade: bool,
    /// The transition holds the target paused once it is ready.
    pub transition_held: bool,
}

/// The decision state of the shared presentation path.
#[derive(Clone, Copy, Debug, PartialEq, Eq, Structural)]
pub struct SharedPresentState {
    pub phase: ImportPhase,
    pub shm_present: bool,
    pub force_linear: bool,
    pub reuse_export: bool,
    pub linear_available: bool,
    pub still: bool,
    pub overlay: bool,
    pub fading: bool,
    pub swap_pending: bool,
    pub idle_paused: bool,
    /// Whether playback was paused when the previous tick was observed.
    pub paused: bool,
    pub readiness_pending: bool,
    pub transition_held: bool,
    pub frames: u64,
    /// Static content is being skipped.
    pub skipping: bool,
    /// The frame at hand may go out through the NV12 ring.
    pub nv12_candidate: bool,
    /// The last frame went out through the NV12 ring.
    pub presenting_nv12: bool,
    /// The XR24 exports and render targets exist.
    pub xr_ready: bool,
    /// Copying into the NV12 ring failed once; XR24 is used from then on.
    pub hybrid_copy_failed: bool,
}

/// What the shared presentation path observes.
#[derive(Clone, Copy, Debug, PartialEq, Eq, Structural)]
pub enum PresentEvent {
    /// The compositor's answer to the last import probe.
    ImportAccepted(bool),
    Closed,
    Resized,
    /// The control channel asked for another source.
    SwapRequested,
    /// The staged source finished opening.
    SwapReady,
    /// One pass of the loop begins.
    Tick { idle: bool, paused: bool, freeze_pending: bool },
    /// The decoder ended.
    DecodeEnded,
    /// The next frame is at hand. `content_known`: its content hash could be
    /// taken; `content_repeated`: it equals the previous content; `terminal`:
    /// it is the exact last frame of a video transition; `nv12_capable`: it is
    /// a GPU frame of even dimensions.
    FrameReady { content_known: bool, content_repeated: bool, terminal: bool, nv12_capable: bool },
    /// Whether an NV12 ring of the frame's dimensions is ready.
    PathChosen { hybrid_ready: bool },
    /// Copying the frame into the NV12 ring failed.
    Nv12CopyFailed,
    /// The XR24 resources were released.
    XrReleased,
    /// A frame went out; `via_nv12` when through the NV12 ring,
    /// `fade_finished` when the transition reached its end, `target_still`
    /// whether the transition's target is a still image.
    FramePresented { committed: bool, via_nv12: bool, fade_finished: bool, target_still: bool },
}

/// What the shared presentation path does next.
#[derive(Clone, Copy, Debug, PartialEq, Eq, Structural)]
pub enum PresentAction {
    /// Ask the compositor whether it imports the current buffers.
    Probe,
    /// Build the output buffers again with this configuration.
    RebuildOutputs { reuse_export: bool, force_linear: bool, shm: bool, probe: bool },
    /// The import is settled; set up the buffers.
    ImportSettled,
    Exit,
    Reexec,
    BeginSwap { cancel_fade: bool, cancel_staged: bool },
    /// Start the staged transition, first rebuilding XR24 if it was released.
    StartFade { restore_xr: bool },
    Park { pause_audio: bool, restore_audio: bool },
    Present { reset_pacing: bool, restore_audio: bool },
    /// The transition's target takes over the ended source.
    PromoteTarget,
    Fail,
    /// Drop the frame: its content repeats the previous one.
    SkipFrame,
    /// Render the frame; `can_use_nv12` when the NV12 ring may carry it.
    Render { reset_pacing: bool, can_use_nv12: bool },
    /// Send the frame through NV12 or XR24, rebuilding XR24 first if needed and
    /// switching the viewports when the path changes.
    UsePath { nv12: bool, restore_xr: bool, nv12_viewports: bool, export_viewports: bool },
    /// Send the frame through XR24 after all, rebuilding it first if needed.
    FallBackToXr { restore_xr: bool },
    AfterPresent {
        notify_ready: bool,
        hold_paused: bool,
        finish_swap: bool,
        release_xr: bool,
    },
    Ignore,
}

/// Shared memory is used when asked for, when XR24 cannot be imported, when
/// the device renders in software or when queue ownership cannot be shared.
pub open spec fn shared_shm_spec(setup: SharedSetup) -> bool {
    setup.shm_requested || !setup.xr24_usable || setup.software || !setup.foreign_queue
}

pub open spec fn shared_present_init_spec(setup: SharedSetup) -> (SharedPresentState, PresentAction) {
    let shm = shared_shm_spec(setup);
    let state = SharedPresentState {
        phase: if shm {
            ImportPhase::Settled
        } else {
            ImportPhase::Probing
        },
        shm_present: shm,
        force_linear: setup.force_linear,
        reuse_export: setup.reuse_export,
        linear_available: setup.linear_available,
        still: setup.still,
        overlay: setup.overlay,
        fading: setup.start_fade,
        swap_pending: false,
        idle_paused: false,
        paused: false,
        readiness_pending: true,
        transition_held: setup.transition_held,
        frames: 0,
        skipping: false,
        nv12_candidate: false,
        presenting_nv12: false,
        xr_ready: true,
        hybrid_copy_failed: false,
    };
    (state, if shm {
        PresentAction::ImportSettled
    } else {
        PresentAction::Probe
    })
}

/// A rejected import falls back, in this order: native extents in place of a
/// reused export, then linear buffers, then shared memory.
pub open spec fn import_rejected_spec(s: SharedPresentState) -> (SharedPresentState, PresentAction) {
    if s.reuse_export {
        (
            SharedPresentState { reuse_export: false, ..s },
            PresentAction::RebuildOutputs {
                reuse_export: false,
                force_linear: s.force_linear,
                shm: false,
                probe: true,
            },
        )
    } else if !s.force_linear && s.linear_available {
        (
            SharedPresentState { force_linear: true, ..s },
            PresentAction::RebuildOutputs {
                reuse_export: false,
                force_linear: true,
                shm: false,
                probe: true,
            },
        )
    } else {
        (
            SharedPresentState { shm_present: true, phase: ImportPhase::Settled, ..s },
            PresentAction::RebuildOutputs {
                reuse_export: false,
                force_linear: s.force_linear,
                shm: true,
                probe: false,
            },
        )
    }
}

pub open spec fn shared_tick_spec(
    s: SharedPresentState,
    idle: bool,
    paused: bool,
    freeze_pending: bool,
) -> (SharedPresentState, PresentAction) {
    if idle && !s.fading && !s.swap_pending && s.frames > 0 {
        (
            SharedPresentState { idle_paused: true, paused, ..s },
            PresentAction::Park { pause_audio: true, restore_audio: false },
        )
    } else {
        let resumed = s.idle_paused;
        let next = SharedPresentState { idle_paused: false, paused, ..s };
        if paused && !freeze_pending {
            (next, PresentAction::Park { pause_audio: false, restore_audio: resumed })
        } else if s.still && !s.fading && !s.swap_pending && s.frames > 0 {
            if s.overlay {
                (next, PresentAction::Exit)
            } else {
                (next, PresentAction::Park { pause_audio: false, restore_audio: resumed })
            }
        } else {
            (
                next,
                PresentAction::Present { reset_pacing: resumed || s.paused, restore_audio: resumed },
            )
        }
    }
}

pub open spec fn shared_presented_spec(
    s: SharedPresentState,
    committed: bool,
    via_nv12: bool,
    fade_finished: bool,
    target_still: bool,
) -> (SharedPresentState, PresentAction) {
    let notify = committed && s.readiness_pending;
    let finish = committed && s.fading && fade_finished;
    (
        SharedPresentState {
            readiness_pending: s.readiness_pending && !committed,
            transition_held: s.transition_held && !notify,
            fading: s.fading && !finish,
            still: if finish {
                target_still
            } else {
                s.still
            },
            frames: if s.frames < u64::MAX {
                (s.frames + 1) as u64
            } else {
                s.frames
            },
            presenting_nv12: via_nv12,
            nv12_candidate: false,
            ..s
        },
        PresentAction::AfterPresent {
            notify_ready: notify,
            hold_paused: notify && s.transition_held,
            finish_swap: finish,
            release_xr: via_nv12 && s.xr_ready,
        },
    )
}

/// A frame whose content repeats the previous one is skipped while a video
/// plays on its own; the first new content after a skip re-anchors pacing.
/// The NV12 ring may carry a frame outside transitions and stills, or the
/// exact last frame of a video transition, unless copying into it failed.
pub open spec fn shared_frame_ready_spec(
    s: SharedPresentState,
    content_known: bool,
    content_repeated: bool,
    terminal: bool,
    nv12_capable: bool,
) -> (SharedPresentState, PresentAction) {
    let steady = !s.fading && !s.still && s.frames > 0;
    if steady && content_known && content_repeated {
        (SharedPresentState { skipping: true, ..s }, PresentAction::SkipFrame)
    } else {
        let can = ((!s.fading && !s.still) || terminal) && !s.hybrid_copy_failed && nv12_capable;
        (
            SharedPresentState {
                skipping: if steady && content_known {
                    false
                } else {
                    s.skipping
                },
                nv12_candidate: can,
                ..s
            },
            PresentAction::Render {
                reset_pacing: steady && content_known && s.skipping,
                can_use_nv12: can,
            },
        )
    }
}

/// The frame goes through NV12 when it may and a ring of its size is ready;
/// otherwise through XR24, which is rebuilt first if it was released.
pub open spec fn shared_path_spec(s: SharedPresentState, hybrid_ready: bool) -> (
    SharedPresentState,
    PresentAction,
) {
    let using = s.nv12_candidate && hybrid_ready;
    let restore = !using && !s.xr_ready;
    (
        SharedPresentState { xr_ready: s.xr_ready || restore, ..s },
        PresentAction::UsePath {
            nv12: using,
            restore_xr: restore,
            nv12_viewports: using && !s.presenting_nv12,
            export_viewports: !using && s.presenting_nv12,
        },
    )
}

/// One decision of the shared presentation loop.
pub open spec fn shared_present_spec(s: SharedPresentState, e: PresentEvent) -> (
    SharedPresentState,
    PresentAction,
) {
    match e {
        PresentEvent::ImportAccepted(accepted) => {
            if s.phase != ImportPhase::Probing {
                (s, PresentAction::Ignore)
            } else if accepted {
                (SharedPresentState { phase: ImportPhase::Settled, ..s }, PresentAction::ImportSettled)
            } else {
                import_rejected_spec(s)
            }
        },
        PresentEvent::Closed => (s, PresentAction::Exit),
        PresentEvent::Resized => (s, PresentAction::Reexec),
        PresentEvent::SwapRequested => (
            SharedPresentState { fading: false, swap_pending: true, ..s },
            PresentAction::BeginSwap { cancel_fade: s.fading, cancel_staged: s.swap_pending },
        ),
        PresentEvent::SwapReady => {
            if s.swap_pending {
                (
                    SharedPresentState {
                        fading: true,
                        swap_pending: false,
                        readiness_pending: true,
                        xr_ready: true,
                        ..s
                    },
                    PresentAction::StartFade { restore_xr: !s.xr_ready },
                )
            } else {
                (s, PresentAction::Ignore)
            }
        },
        PresentEvent::Tick { idle, paused, freeze_pending } => shared_tick_spec(
            s,
            idle,
            paused,
            freeze_pending,
        ),
        PresentEvent::DecodeEnded => {
            if s.fading {
                (s, PresentAction::PromoteTarget)
            } else {
                (s, PresentAction::Fail)
            }
        },
        PresentEvent::FrameReady { content_known, content_repeated, terminal, nv12_capable } =>
            shared_frame_ready_spec(s, content_known, content_repeated, terminal, nv12_capable),
        PresentEvent::PathChosen { hybrid_ready } => shared_path_spec(s, hybrid_ready),
        PresentEvent::Nv12CopyFailed => (
            SharedPresentState {
                hybrid_copy_failed: true,
                xr_ready: true,
                nv12_candidate: false,
                ..s
            },
            PresentAction::FallBackToXr { restore_xr: !s.xr_ready },
        ),
        PresentEvent::XrReleased => (SharedPresentState { xr_ready: false, ..s }, PresentAction::Ignore),
        PresentEvent::FramePresented { committed, via_nv12, fade_finished, target_still } =>
            shared_presented_spec(s, committed, via_nv12, fade_finished, target_still),
    }
}

/// The state the shared path starts in, and whether it first probes the import.
pub fn shared_present_init(setup: SharedSetup) -> (out: (SharedPresentState, PresentAction))
    ensures
        out == shared_present_init_spec(setup),
{
    let shm = setup.shm_requested || !setup.xr24_usable || setup.software || !setup.foreign_queue;
    let state = SharedPresentState {
        phase: if shm {
            ImportPhase::Settled
        } else {
            ImportPhase::Probing
        },
        shm_present: shm,
        force_linear: setup.force_linear,
        reuse_export: setup.reuse_export,
        linear_available: setup.linear_available,
        still: setup.still,
        overlay: setup.overlay,
        fading: setup.start_fade,
        swap_pending: false,
        idle_paused: false,
        paused: false,
        readiness_pending: true,
        transition_held: setup.transition_held,
        frames: 0,
        skipping: false,
        nv12_candidate: false,
        presenting_nv12: false,
        xr_ready: true,
        hybrid_copy_failed: false,
    };
    (state, if shm {
        PresentAction::ImportSettled
    } else {
        PresentAction::Probe
    })
}

fn shared_tick(s: SharedPresentState, idle: bool, paused: bool, freeze_pending: bool) -> (out: (
    SharedPresentState,
    PresentAction,
))
    ensures
        out == shared_tick_spec(s, idle, paused, freeze_pending),
{
    if idle && !s.fading && !s.swap_pending && s.frames > 0 {
        return (
            SharedPresentState { idle_paused: true, paused, ..s },
            PresentAction::Park { pause_audio: true, restore_audio: false },
        );
    }
    let resumed = s.idle_paused;
    let next = SharedPresentState { idle_paused: false, paused, ..s };
    if paused && !freeze_pending {
        (next, PresentAction::Park { pause_audio: false, restore_audio: resumed })
    } else if s.still && !s.fading && !s.swap_pending && s.frames > 0 {
        if s.overlay {
            (next, PresentAction::Exit)
        } else {
            (next, PresentAction::Park { pause_audio: false, restore_audio: resumed })
        }
    } else {
        (next, PresentAction::Present { reset_pacing: resumed || s.paused, restore_audio: resumed })
    }
}

#[verifier::rlimit(40)]
fn shared_presented(
    s: SharedPresentState,
    committed: bool,
    via_nv12: bool,
    fade_finished: bool,
    target_still: bool,
) -> (out: (SharedPresentState, PresentAction))
    ensures
        out == shared_presented_spec(s, committed, via_nv12, fade_finished, target_still),
{
    let notify = committed && s.readiness_pending;
    let finish = committed && s.fading && fade_finished;
    let frames = if s.frames < u64::MAX {
        s.frames + 1
    } else {
        s.frames
    };
    (
        SharedPresentState {
            readiness_pending: s.readiness_pending && !committed,
            transition_held: s.transition_held && !notify,
            fading: s.fading && !finish,
            still: if finish {
                target_still
            } else {
                s.still
            },
            frames,
            presenting_nv12: via_nv12,
            nv12_candidate: false,
            ..s
        },
        PresentAction::AfterPresent {
            notify_ready: notify,
            hold_paused: notify && s.transition_held,
            finish_swap: finish,
            release_xr: via_nv12 && s.xr_ready,
        },
    )
}

fn shared_frame_ready(
    s: SharedPresentState,
    content_known: bool,
    content_repeated: bool,
    terminal: bool,
    nv12_capable: bool,
) -> (out: (SharedPresentState, PresentAction))
    ensures
        out == shared_frame_ready_spec(s, content_known, content_repeated, terminal, nv12_capable),
{
    let steady = !s.fading && !s.still && s.frames > 0;
    if steady && content_known && content_repeated {
        return (SharedPresentState { skipping: true, ..s }, PresentAction::SkipFrame);
    }
    let can = ((!s.fading && !s.still) || terminal) && !s.hybrid_copy_failed && nv12_capable;
    let skipping = if steady && content_known {
        false
    } else {
        s.skipping
    };
    (
        SharedPresentState { skipping, nv12_candidate: can, ..s },
        PresentAction::Render { reset_pacing: steady && content_known && s.skipping, can_use_nv12: can },
    )
}

fn shared_path(s: SharedPresentState, hybrid_ready: bool) -> (out: (
    SharedPresentState,
    PresentAction,
))
    ensures
        out == shared_path_spec(s, hybrid_ready),
{
    let using = s.nv12_candidate && hybrid_ready;
    let restore = !using && !s.xr_ready;
    (
        SharedPresentState { xr_ready: s.xr_ready || restore, ..s },
        PresentAction::UsePath {
            nv12: using,
            restore_xr: restore,
            nv12_viewports: using && !s.presenting_nv12,
            export_viewports: !using && s.presenting_nv12,
        },
    )
}

/// One decision of the shared presentation loop: import fallback, swaps,
/// idle and pause parking, still parking, and what a presented frame owes.
pub fn shared_present_step(state: SharedPresentState, event: PresentEvent) -> (out: (
    SharedPresentState,
    PresentAction,
))
    ensures
        out == shared_present_spec(state, event),
{
    let s = state;
    match event {
        PresentEvent::ImportAccepted(accepted) => {
            if s.phase != ImportPhase::Probing {
                (s, PresentAction::Ignore)
            } else if accepted {
                (SharedPresentState { phase: ImportPhase::Settled, ..s }, PresentAction::ImportSettled)
            } else if s.reuse_export {
                (
                    SharedPresentState { reuse_export: false, ..s },
                    PresentAction::RebuildOutputs {
                        reuse_export: false,
                        force_linear: s.force_linear,
                        shm: false,
                        probe: true,
                    },
                )
            } else if !s.force_linear && s.linear_available {
                (
                    SharedPresentState { force_linear: true, ..s },
                    PresentAction::RebuildOutputs {
                        reuse_export: false,
                        force_linear: true,
                        shm: false,
                        probe: true,
                    },
                )
            } else {
                (
                    SharedPresentState { shm_present: true, phase: ImportPhase::Settled, ..s },
                    PresentAction::RebuildOutputs {
                        reuse_export: false,
                        force_linear: s.force_linear,
                        shm: true,
                        probe: false,
                    },
                )
            }
        },
        PresentEvent::Closed => (s, PresentAction::Exit),
        PresentEvent::Resized => (s, PresentAction::Reexec),
        PresentEvent::SwapRequested => (
            SharedPresentState { fading: false, swap_pending: true, ..s },
            PresentAction::BeginSwap { cancel_fade: s.fading, cancel_staged: s.swap_pending },
        ),
        PresentEvent::SwapReady => {
            if s.swap_pending {
                (
                    SharedPresentState {
                        fading: true,
                        swap_pending: false,
                        readiness_pending: true,
                        xr_ready: true,
                        ..s
                    },
                    PresentAction::StartFade { restore_xr: !s.xr_ready },
                )
            } else {
                (s, PresentAction::Ignore)
            }
        },
        PresentEvent::Tick { idle, paused, freeze_pending } => shared_tick(
            s,
            idle,
            paused,
            freeze_pending,
        ),
        PresentEvent::DecodeEnded => {
            if s.fading {
                (s, PresentAction::PromoteTarget)
            } else {
                (s, PresentAction::Fail)
            }
        },
        PresentEvent::FrameReady { content_known, content_repeated, terminal, nv12_capable } =>
            shared_frame_ready(s, content_known, content_repeated, terminal, nv12_capable),
        PresentEvent::PathChosen { hybrid_ready } => shared_path(s, hybrid_ready),
        PresentEvent::Nv12CopyFailed => (
            SharedPresentState {
                hybrid_copy_failed: true,
                xr_ready: true,
                nv12_candidate: false,
                ..s
            },
            PresentAction::FallBackToXr { restore_xr: !s.xr_ready },
        ),
        PresentEvent::XrReleased => (SharedPresentState { xr_ready: false, ..s }, PresentAction::Ignore),
        PresentEvent::FramePresented { committed, via_nv12, fade_finished, target_still } =>
            shared_presented(s, committed, via_nv12, fade_finished, target_still),
    }
}

/// The decision state of direct NV12 presentation.
#[derive(Clone, Copy, Debug, PartialEq, Eq, Structural)]
pub struct Nv12PresentState {
    /// The source playing is the one the process was started with.
    pub startup_source: bool,
    /// A frame of the current source reached an output.
    pub source_presented: bool,
    pub idle_paused: bool,
    /// Whether playback was paused when the previous tick was observed.
    pub paused: bool,
    pub readiness_pending: bool,
}

/// What direct NV12 presentation observes.
#[derive(Clone, Copy, Debug, PartialEq, Eq, Structural)]
pub enum Nv12Event {
    Closed,
    Resized,
    /// The control channel cut to another source; `to_startup` when it is the
    /// source the process was started with.
    SwapRequested { to_startup: bool },
    Tick { idle: bool, paused: bool, freeze_pending: bool },
    DecodeEnded,
    /// Every output of the group has closed.
    OutputsClosed,
    /// Copying or importing the frame failed.
    AcquireFailed,
    FramePresented { committed: bool },
}

/// What direct NV12 presentation does next.
#[derive(Clone, Copy, Debug, PartialEq, Eq, Structural)]
pub enum Nv12Action {
    Exit,
    Reexec,
    /// Retire the current ring and open the requested source.
    CutSwap,
    Park { pause_audio: bool, restore_audio: bool },
    Present { reset_pacing: bool, restore_audio: bool },
    Fail,
    /// Hand the source over to shared presentation.
    FallBack,
    AfterPresent { notify_ready: bool },
}

pub open spec fn nv12_tick_spec(s: Nv12PresentState, idle: bool, paused: bool, freeze_pending: bool) -> (
    Nv12PresentState,
    Nv12Action,
) {
    let idle_should_pause = idle && s.source_presented;
    if idle_should_pause {
        (
            Nv12PresentState { idle_paused: true, paused, ..s },
            Nv12Action::Park { pause_audio: true, restore_audio: false },
        )
    } else {
        let resumed = s.idle_paused;
        let next = Nv12PresentState { idle_paused: false, paused, ..s };
        if paused && !freeze_pending {
            (next, Nv12Action::Park { pause_audio: false, restore_audio: resumed })
        } else {
            (next, Nv12Action::Present { reset_pacing: resumed || s.paused, restore_audio: resumed })
        }
    }
}

/// One decision of direct NV12 presentation.
pub open spec fn nv12_present_spec(s: Nv12PresentState, e: Nv12Event) -> (Nv12PresentState, Nv12Action) {
    match e {
        Nv12Event::Closed => (s, Nv12Action::Exit),
        Nv12Event::Resized => (s, Nv12Action::Reexec),
        Nv12Event::SwapRequested { to_startup } => (
            Nv12PresentState {
                startup_source: to_startup,
                source_presented: false,
                readiness_pending: true,
                ..s
            },
            Nv12Action::CutSwap,
        ),
        Nv12Event::Tick { idle, paused, freeze_pending } => nv12_tick_spec(
            s,
            idle,
            paused,
            freeze_pending,
        ),
        Nv12Event::DecodeEnded => {
            if s.source_presented || !s.startup_source {
                (s, Nv12Action::Exit)
            } else {
                (s, Nv12Action::Fail)
            }
        },
        Nv12Event::OutputsClosed => (s, Nv12Action::Exit),
        Nv12Event::AcquireFailed => (s, Nv12Action::FallBack),
        Nv12Event::FramePresented { committed } => (
            Nv12PresentState {
                source_presented: s.source_presented || committed,
                readiness_pending: s.readiness_pending && !committed,
                ..s
            },
            Nv12Action::AfterPresent { notify_ready: committed && s.readiness_pending },
        ),
    }
}

/// The state direct NV12 presentation starts in: the startup source, owing
/// readiness, nothing presented.
pub fn nv12_present_init() -> (state: Nv12PresentState)
    ensures
        state == (Nv12PresentState {
            startup_source: true,
            source_presented: false,
            idle_paused: false,
            paused: false,
            readiness_pending: true,
        }),
{
    Nv12PresentState {
        startup_source: true,
        source_presented: false,
        idle_paused: false,
        paused: false,
        readiness_pending: true,
    }
}

/// One decision of direct NV12 presentation: cut swaps, idle and pause
/// parking, how an ended decoder ends the process, and readiness.
pub fn nv12_present_step(state: Nv12PresentState, event: Nv12Event) -> (out: (
    Nv12PresentState,
    Nv12Action,
))
    ensures
        out == nv12_present_spec(state, event),
{
    let s = state;
    match event {
        Nv12Event::Closed => (s, Nv12Action::Exit),
        Nv12Event::Resized => (s, Nv12Action::Reexec),
        Nv12Event::SwapRequested { to_startup } => (
            Nv12PresentState {
                startup_source: to_startup,
                source_presented: false,
                readiness_pending: true,
                ..s
            },
            Nv12Action::CutSwap,
        ),
        Nv12Event::Tick { idle, paused, freeze_pending } => {
            if idle && s.source_presented {
                (
                    Nv12PresentState { idle_paused: true, paused, ..s },
                    Nv12Action::Park { pause_audio: true, restore_audio: false },
                )
            } else {
                let resumed = s.idle_paused;
                let next = Nv12PresentState { idle_paused: false, paused, ..s };
                if paused && !freeze_pending {
                    (next, Nv12Action::Park { pause_audio: false, restore_audio: resumed })
                } else {
                    (
                        next,
                        Nv12Action::Present {
                            reset_pacing: resumed || s.paused,
                            restore_audio: resumed,
                        },
                    )
                }
            }
        },
        Nv12Event::DecodeEnded => {
            if s.source_presented || !s.startup_source {
                (s, Nv12Action::Exit)
            } else {
                (s, Nv12Action::Fail)
            }
        },
        Nv12Event::OutputsClosed => (s, Nv12Action::Exit),
        Nv12Event::AcquireFailed => (s, Nv12Action::FallBack),
        Nv12Event::FramePresented { committed } => (
            Nv12PresentState {
                source_presented: s.source_presented || committed,
                readiness_pending: s.readiness_pending && !committed,
                ..s
            },
            Nv12Action::AfterPresent { notify_ready: committed && s.readiness_pending },
        ),
    }
}

/// The decision state of scene presentation to outputs.
#[derive(Clone, Copy, Debug, PartialEq, Eq, Structural)]
pub struct ScenePresentState {
    /// Every live output has shown a frame of the current scene.
    pub presented: bool,
    pub idle_paused: bool,
    /// Time stopped while paused or idle; the scene clock resumes from it.
    pub suspended: bool,
    pub fading: bool,
    pub fade_first_frame: bool,
    pub animated: bool,
}

/// What scene presentation observes.
#[derive(Clone, Copy, Debug, PartialEq, Eq, Structural)]
pub enum SceneEvent {
    Closed,
    Resized,
    /// A swap was requested; `loaded` when the new scene loaded and built,
    /// `fade` when it transitions in, `animated` when it moves on its own.
    SwapRequested { loaded: bool, fade: bool, animated: bool },
    Tick { idle: bool, paused: bool },
    /// A pass of commits ended. `first_seen`: every live output showed the
    /// transition's first frame; `finish_after_commit`: the transition reached
    /// its end with this frame; `final_seen`: every live output showed that
    /// end; `all_seen`: every live output has shown a frame of this scene.
    FramePresented {
        committed: bool,
        first_seen: bool,
        finish_after_commit: bool,
        final_seen: bool,
        all_seen: bool,
    },
}

/// What scene presentation does next.
#[derive(Clone, Copy, Debug, PartialEq, Eq, Structural)]
pub enum SceneAction {
    Exit,
    Reexec,
    /// The requested scene could not be used; keep the current one.
    KeepScene,
    SwapScene { fade: bool },
    Park { pause_audio: bool, restore_audio: bool, resume_clock: bool },
    Render { compose: bool, restore_audio: bool, resume_clock: bool },
    AfterPresent { restart_fade_clock: bool, finish_fade: bool, notify_ready: bool },
}

pub open spec fn scene_tick_spec(s: ScenePresentState, idle: bool, paused: bool) -> (
    ScenePresentState,
    SceneAction,
) {
    let idle_should_pause = idle && s.presented;
    let restore = !idle_should_pause && s.idle_paused;
    if paused || idle_should_pause {
        (
            ScenePresentState { idle_paused: idle_should_pause, suspended: true, ..s },
            SceneAction::Park {
                pause_audio: idle_should_pause,
                restore_audio: restore,
                resume_clock: false,
            },
        )
    } else {
        let next = ScenePresentState { idle_paused: false, suspended: false, ..s };
        if s.presented && !s.fading && !s.animated {
            (
                next,
                SceneAction::Park {
                    pause_audio: false,
                    restore_audio: restore,
                    resume_clock: s.suspended,
                },
            )
        } else {
            (
                next,
                SceneAction::Render {
                    compose: s.animated,
                    restore_audio: restore,
                    resume_clock: s.suspended,
                },
            )
        }
    }
}

pub open spec fn scene_presented_spec(
    s: ScenePresentState,
    committed: bool,
    first_seen: bool,
    finish_after_commit: bool,
    final_seen: bool,
    all_seen: bool,
) -> (ScenePresentState, SceneAction) {
    let restart = committed && s.fading && s.fade_first_frame && first_seen;
    let finish = committed && s.fading && finish_after_commit && final_seen;
    let notify = !s.presented && all_seen;
    (
        ScenePresentState {
            fade_first_frame: s.fade_first_frame && !restart,
            fading: s.fading && !finish,
            presented: s.presented || all_seen,
            ..s
        },
        SceneAction::AfterPresent {
            restart_fade_clock: restart,
            finish_fade: finish,
            notify_ready: notify,
        },
    )
}

/// One decision of scene presentation.
pub open spec fn scene_present_spec(s: ScenePresentState, e: SceneEvent) -> (
    ScenePresentState,
    SceneAction,
) {
    match e {
        SceneEvent::Closed => (s, SceneAction::Exit),
        SceneEvent::Resized => (s, SceneAction::Reexec),
        SceneEvent::SwapRequested { loaded, fade, animated } => {
            if !loaded {
                (s, SceneAction::KeepScene)
            } else {
                (
                    ScenePresentState {
                        presented: false,
                        fading: fade,
                        fade_first_frame: fade,
                        animated,
                        ..s
                    },
                    SceneAction::SwapScene { fade },
                )
            }
        },
        SceneEvent::Tick { idle, paused } => scene_tick_spec(s, idle, paused),
        SceneEvent::FramePresented {
            committed,
            first_seen,
            finish_after_commit,
            final_seen,
            all_seen,
        } => scene_presented_spec(s, committed, first_seen, finish_after_commit, final_seen, all_seen),
    }
}

/// The state scene presentation starts in.
pub fn scene_present_init(fading: bool, animated: bool) -> (state: ScenePresentState)
    ensures
        state == (ScenePresentState {
            presented: false,
            idle_paused: false,
            suspended: false,
            fading,
            fade_first_frame: fading,
            animated,
        }),
{
    ScenePresentState {
        presented: false,
        idle_paused: false,
        suspended: false,
        fading,
        fade_first_frame: fading,
        animated,
    }
}

fn scene_tick(s: ScenePresentState, idle: bool, paused: bool) -> (out: (
    ScenePresentState,
    SceneAction,
))
    ensures
        out == scene_tick_spec(s, idle, paused),
{
    let idle_should_pause = idle && s.presented;
    let restore = !idle_should_pause && s.idle_paused;
    if paused || idle_should_pause {
        (
            ScenePresentState { idle_paused: idle_should_pause, suspended: true, ..s },
            SceneAction::Park {
                pause_audio: idle_should_pause,
                restore_audio: restore,
                resume_clock: false,
            },
        )
    } else {
        let next = ScenePresentState { idle_paused: false, suspended: false, ..s };
        if s.presented && !s.fading && !s.animated {
            (
                next,
                SceneAction::Park {
                    pause_audio: false,
                    restore_audio: restore,
                    resume_clock: s.suspended,
                },
            )
        } else {
            (
                next,
                SceneAction::Render {
                    compose: s.animated,
                    restore_audio: restore,
                    resume_clock: s.suspended,
                },
            )
        }
    }
}

/// One decision of scene presentation: swaps, idle and pause suspension,
/// parking a static scene, transition bookkeeping and readiness.
pub fn scene_present_step(state: ScenePresentState, event: SceneEvent) -> (out: (
    ScenePresentState,
    SceneAction,
))
    ensures
        out == scene_present_spec(state, event),
{
    let s = state;
    match event {
        SceneEvent::Closed => (s, SceneAction::Exit),
        SceneEvent::Resized => (s, SceneAction::Reexec),
        SceneEvent::SwapRequested { loaded, fade, animated } => {
            if !loaded {
                (s, SceneAction::KeepScene)
            } else {
                (
                    ScenePresentState {
                        presented: false,
                        fading: fade,
                        fade_first_frame: fade,
                        animated,
                        ..s
                    },
                    SceneAction::SwapScene { fade },
                )
            }
        },
        SceneEvent::Tick { idle, paused } => scene_tick(s, idle, paused),
        SceneEvent::FramePresented {
            committed,
            first_seen,
            finish_after_commit,
            final_seen,
            all_seen,
        } => {
            let restart = committed && s.fading && s.fade_first_frame && first_seen;
            let finish = committed && s.fading && finish_after_commit && final_seen;
            let notify = !s.presented && all_seen;
            (
                ScenePresentState {
                    fade_first_frame: s.fade_first_frame && !restart,
                    fading: s.fading && !finish,
                    presented: s.presented || all_seen,
                    ..s
                },
                SceneAction::AfterPresent {
                    restart_fade_clock: restart,
                    finish_fade: finish,
                    notify_ready: notify,
                },
            )
        },
    }
}

/// Whether every output still open has been seen: each is closed or marked.
pub fn all_live_seen(closed: &[bool], seen: &[bool]) -> (all: bool)
    requires
        closed.len() == seen.len(),
    ensures
        all == forall|i: int| 0 <= i < closed.len() ==> closed@[i] || seen@[i],
{
    let mut i: usize = 0;
    while i < closed.len()
        invariant
            closed.len() == seen.len(),
            i <= closed.len(),
            forall|j: int| 0 <= j < i ==> closed@[j] || seen@[j],
        decreases closed.len() - i,
    {
        if !closed[i] && !seen[i] {
            return false;
        }
        i = i + 1;
    }
    true
}

/// The decision state of streaming a scene to a viewer through three shared
/// slots that the viewer acknowledges.
#[derive(Clone, Copy, Debug, PartialEq, Eq)]
pub struct SceneStreamState {
    pub presented: bool,
    pub suspended: bool,
    pub fading: bool,
    pub fade_first_frame: bool,
    pub animated: bool,
    /// Which of the three slots the viewer has handed back.
    pub free: (bool, bool, bool),
}

/// What the scene stream observes.
#[derive(Clone, Copy, Debug, PartialEq, Eq, Structural)]
pub enum StreamEvent {
    /// The viewer acknowledged a slot.
    Ack(usize),
    SwapRequested { loaded: bool, fade: bool, animated: bool },
    Tick { paused: bool },
    /// The parent process is gone.
    ParentExited,
    /// The transition reached its end with the frame just sent.
    FadeDone,
}

/// What the scene stream does next.
#[derive(Clone, Copy, Debug, PartialEq, Eq, Structural)]
pub enum StreamAction {
    Continue,
    KeepScene,
    SwapScene { fade: bool },
    /// Wait for control input.
    Wait,
    /// Wait until the viewer hands a slot back.
    AwaitAck,
    /// Render into the slot and send it.
    Render { slot: usize, compose: bool, resume_clock: bool },
    Exit,
}

/// Whether slot `i` is free.
pub open spec fn slot_free(free: (bool, bool, bool), i: int) -> bool {
    if i == 0 {
        free.0
    } else if i == 1 {
        free.1
    } else if i == 2 {
        free.2
    } else {
        false
    }
}

/// The slots with slot `i` set to `value`; other indices change nothing.
pub open spec fn with_slot(free: (bool, bool, bool), i: int, value: bool) -> (bool, bool, bool) {
    if i == 0 {
        (value, free.1, free.2)
    } else if i == 1 {
        (free.0, value, free.2)
    } else if i == 2 {
        (free.0, free.1, value)
    } else {
        free
    }
}

/// The first free slot, or 3 when none is.
pub open spec fn first_free(free: (bool, bool, bool)) -> int {
    if free.0 {
        0
    } else if free.1 {
        1
    } else if free.2 {
        2
    } else {
        3
    }
}

/// One decision of the scene stream.
pub open spec fn scene_stream_spec(s: SceneStreamState, e: StreamEvent) -> (
    SceneStreamState,
    StreamAction,
) {
    match e {
        StreamEvent::Ack(slot) => (
            SceneStreamState { free: with_slot(s.free, slot as int, true), ..s },
            StreamAction::Continue,
        ),
        StreamEvent::SwapRequested { loaded, fade, animated } => {
            if !loaded {
                (s, StreamAction::KeepScene)
            } else {
                (
                    SceneStreamState {
                        presented: false,
                        fading: fade,
                        fade_first_frame: fade,
                        animated,
                        ..s
                    },
                    StreamAction::SwapScene { fade },
                )
            }
        },
        StreamEvent::Tick { paused } => {
            if paused {
                (SceneStreamState { suspended: true, ..s }, StreamAction::Wait)
            } else {
                let next = SceneStreamState { suspended: false, ..s };
                if s.presented && !s.animated && !s.fading {
                    (next, StreamAction::Wait)
                } else if first_free(s.free) == 3 {
                    (next, StreamAction::AwaitAck)
                } else {
                    let slot = first_free(s.free);
                    (
                        SceneStreamState {
                            free: with_slot(s.free, slot, false),
                            presented: true,
                            fade_first_frame: false,
                            ..next
                        },
                        StreamAction::Render {
                            slot: slot as usize,
                            compose: s.animated,
                            resume_clock: s.suspended,
                        },
                    )
                }
            }
        },
        StreamEvent::ParentExited => (s, StreamAction::Exit),
        StreamEvent::FadeDone => (SceneStreamState { fading: false, ..s }, StreamAction::Continue),
    }
}

/// The state a scene stream starts in: every slot free, nothing sent.
pub fn scene_stream_init(animated: bool) -> (state: SceneStreamState)
    ensures
        state == (SceneStreamState {
            presented: false,
            suspended: false,
            fading: false,
            fade_first_frame: false,
            animated,
            free: (true, true, true),
        }),
{
    SceneStreamState {
        presented: false,
        suspended: false,
        fading: false,
        fade_first_frame: false,
        animated,
        free: (true, true, true),
    }
}

fn free_slot_set(free: (bool, bool, bool), i: usize, value: bool) -> (out: (bool, bool, bool))
    ensures
        out == with_slot(free, i as int, value),
{
    if i == 0 {
        (value, free.1, free.2)
    } else if i == 1 {
        (free.0, value, free.2)
    } else if i == 2 {
        (free.0, free.1, value)
    } else {
        free
    }
}

/// One decision of the scene stream: slot acknowledgements, swaps, pausing,
/// parking a static scene, and which free slot the next frame goes to.
pub fn scene_stream_step(state: SceneStreamState, event: StreamEvent) -> (out: (
    SceneStreamState,
    StreamAction,
))
    ensures
        out == scene_stream_spec(state, event),
{
    let s = state;
    match event {
        StreamEvent::Ack(slot) => (
            SceneStreamState { free: free_slot_set(s.free, slot, true), ..s },
            StreamAction::Continue,
        ),
        StreamEvent::SwapRequested { loaded, fade, animated } => {
            if !loaded {
                (s, StreamAction::KeepScene)
            } else {
                (
                    SceneStreamState {
                        presented: false,
                        fading: fade,
                        fade_first_frame: fade,
                        animated,
                        ..s
                    },
                    StreamAction::SwapScene { fade },
                )
            }
        },
        StreamEvent::Tick { paused } => {
            if paused {
                (SceneStreamState { suspended: true, ..s }, StreamAction::Wait)
            } else {
                let next = SceneStreamState { suspended: false, ..s };
                if s.presented && !s.animated && !s.fading {
                    (next, StreamAction::Wait)
                } else {
                    let slot: usize = if s.free.0 {
                        0
                    } else if s.free.1 {
                        1
                    } else if s.free.2 {
                        2
                    } else {
                        3
                    };
                    if slot == 3 {
                        (next, StreamAction::AwaitAck)
                    } else {
                        (
                            SceneStreamState {
                                free: free_slot_set(s.free, slot, false),
                                presented: true,
                                fade_first_frame: false,
                                ..next
                            },
                            StreamAction::Render {
                                slot,
                                compose: s.animated,
                                resume_clock: s.suspended,
                            },
                        )
                    }
                }
            }
        },
        StreamEvent::ParentExited => (s, StreamAction::Exit),
        StreamEvent::FadeDone => (SceneStreamState { fading: false, ..s }, StreamAction::Continue),
    }
}

/// How many fallbacks a rejected import still has before shared memory:
/// native extents while an export is reused, and linear buffers while they
/// are available and not yet forced.
pub open spec fn import_budget(s: SharedPresentState) -> nat {
    (if s.reuse_export {
        1nat
    } else {
        0nat
    }) + (if !s.force_linear && s.linear_available {
        1nat
    } else {
        0nat
    })
}

/// The state after `k` rejected import probes.
pub open spec fn after_rejections(s: SharedPresentState, k: nat) -> SharedPresentState
    decreases k,
{
    if k == 0 {
        s
    } else {
        after_rejections(shared_present_spec(s, PresentEvent::ImportAccepted(false)).0, (k - 1) as nat)
    }
}

/// A rejected import probe always moves the fallback on: either another probe
/// follows with fewer fallbacks left, or presentation settles on shared memory
/// without probing again.
pub proof fn lemma_import_fallback_progresses(s: SharedPresentState)
    requires
        s.phase == ImportPhase::Probing,
    ensures
        ({
            let (n, a) = shared_present_spec(s, PresentEvent::ImportAccepted(false));
            ||| n.phase == ImportPhase::Probing && import_budget(n) < import_budget(s) && n.shm_present
                == s.shm_present && a == (PresentAction::RebuildOutputs {
                reuse_export: false,
                force_linear: n.force_linear,
                shm: false,
                probe: true,
            })
            ||| n.phase == ImportPhase::Settled && n.shm_present && a == (PresentAction::RebuildOutputs {
                reuse_export: false,
                force_linear: n.force_linear,
                shm: true,
                probe: false,
            })
        }),
        s.shm_present ==> shared_present_spec(s, PresentEvent::ImportAccepted(false)).0.shm_present,
{
}

/// When the compositor rejects every probe, import negotiation ends on shared
/// memory after at most three rejections (one more than the fallbacks left).
pub proof fn lemma_import_rejections_end_in_shm(s: SharedPresentState)
    requires
        s.phase == ImportPhase::Probing,
    ensures
        after_rejections(s, import_budget(s) + 1).phase == ImportPhase::Settled,
        after_rejections(s, import_budget(s) + 1).shm_present,
        import_budget(s) + 1 <= 3,
    decreases import_budget(s),
{
    let n = shared_present_spec(s, PresentEvent::ImportAccepted(false)).0;
    lemma_import_fallback_progresses(s);
    if n.phase == ImportPhase::Probing {
        lemma_import_rejections_end_in_shm(n);
        assert(import_budget(n) + 1 == import_budget(s));
        assert(after_rejections(s, import_budget(s) + 1) == after_rejections(
            n,
            import_budget(n) + 1,
        ));
    } else {
        assert(import_budget(s) == 0) by {
            if s.reuse_export || (!s.force_linear && s.linear_available) {
                assert(n.phase == ImportPhase::Probing);
            }
        }
        assert(after_rejections(s, 1) == after_rejections(n, 0));
    }
}

/// No event undoes a fallback: a dropped reused export is not taken up again,
/// forced linear buffers stay forced, and shared memory stays in use.
#[verifier::rlimit(100)]
pub proof fn lemma_import_fallback_never_reverts(s: SharedPresentState, e: PresentEvent)
    ensures
        ({
            let n = shared_present_spec(s, e).0;
            &&& n.reuse_export ==> s.reuse_export
            &&& s.force_linear ==> n.force_linear
            &&& s.shm_present ==> n.shm_present
            &&& s.phase == ImportPhase::Settled ==> n.phase == ImportPhase::Settled
        }),
{
    match e {
        PresentEvent::ImportAccepted(accepted) => {},
        PresentEvent::Closed => {},
        PresentEvent::Resized => {},
        PresentEvent::SwapRequested => {},
        PresentEvent::SwapReady => {},
        PresentEvent::Tick { idle, paused, freeze_pending } => {},
        PresentEvent::DecodeEnded => {},
        PresentEvent::FrameReady { content_known, content_repeated, terminal, nv12_capable } => {},
        PresentEvent::PathChosen { hybrid_ready } => {},
        PresentEvent::Nv12CopyFailed => {},
        PresentEvent::XrReleased => {},
        PresentEvent::FramePresented { committed, via_nv12, fade_finished, target_still } => {},
    }
}

/// A swap request cancels the transition and the staged swap in flight and
/// leaves exactly the new one staged; once it is ready its transition starts
/// and readiness is owed again.
pub proof fn lemma_swap_replaces_and_rearms(s: SharedPresentState)
    ensures
        ({
            let (n, a) = shared_present_spec(s, PresentEvent::SwapRequested);
            let (m, b) = shared_present_spec(n, PresentEvent::SwapReady);
            &&& a == (PresentAction::BeginSwap { cancel_fade: s.fading, cancel_staged: s.swap_pending })
            &&& n.swap_pending && !n.fading
            &&& b == (PresentAction::StartFade { restore_xr: !s.xr_ready })
            &&& m.fading && !m.swap_pending && m.readiness_pending && m.xr_ready
        }),
{
}

/// Readiness is signalled once: the first committed frame notifies exactly
/// when readiness was owed, and no later frame notifies until it is re-armed.
pub proof fn lemma_shared_readiness_once(
    s: SharedPresentState,
    via_nv12: bool,
    fade_finished: bool,
    target_still: bool,
    committed2: bool,
    via_nv12_2: bool,
    fade_finished2: bool,
    target_still2: bool,
)
    ensures
        ({
            let (n, a) = shared_present_spec(
                s,
                PresentEvent::FramePresented { committed: true, via_nv12, fade_finished, target_still },
            );
            let (m, b) = shared_present_spec(
                n,
                PresentEvent::FramePresented {
                    committed: committed2,
                    via_nv12: via_nv12_2,
                    fade_finished: fade_finished2,
                    target_still: target_still2,
                },
            );
            &&& a matches PresentAction::AfterPresent { notify_ready, .. } && notify_ready
                == s.readiness_pending
            &&& !n.readiness_pending
            &&& b matches PresentAction::AfterPresent { notify_ready, .. } && !notify_ready
        }),
{
}

/// Idle never parks the shared path before its first frame, nor while a
/// transition runs or a swap is staged.
pub proof fn lemma_shared_idle_needs_a_frame(
    s: SharedPresentState,
    paused: bool,
    freeze_pending: bool,
)
    requires
        s.frames == 0 || s.fading || s.swap_pending,
    ensures
        !(shared_present_spec(
            s,
            PresentEvent::Tick { idle: true, paused, freeze_pending },
        ).1 matches PresentAction::Park { pause_audio: true, .. }),
{
}

/// Idle never parks NV12 presentation before a frame of the current source
/// reached an output, so readiness after startup or a swap cannot stall.
pub proof fn lemma_nv12_idle_needs_a_frame(s: Nv12PresentState, paused: bool, freeze_pending: bool)
    requires
        !s.source_presented,
    ensures
        !(nv12_present_spec(
            s,
            Nv12Event::Tick { idle: true, paused, freeze_pending },
        ).1 matches Nv12Action::Park { pause_audio: true, .. }),
        !paused ==> nv12_present_spec(
            s,
            Nv12Event::Tick { idle: true, paused, freeze_pending },
        ).1 is Present,
{
}

/// NV12 readiness is signalled once per source: after a cut swap the first
/// committed frame notifies, and the next does not.
pub proof fn lemma_nv12_readiness_once_per_source(s: Nv12PresentState, to_startup: bool, committed2: bool)
    ensures
        ({
            let (n, _) = nv12_present_spec(s, Nv12Event::SwapRequested { to_startup });
            let (m, a) = nv12_present_spec(n, Nv12Event::FramePresented { committed: true });
            let (_, b) = nv12_present_spec(m, Nv12Event::FramePresented { committed: committed2 });
            &&& a == Nv12Action::AfterPresent { notify_ready: true }
            &&& b == Nv12Action::AfterPresent { notify_ready: false }
            &&& m.source_presented
        }),
{
}

/// A scene commits a frame to every output before idle may park it, so
/// readiness after startup or a swap cannot stall while idle.
pub proof fn lemma_scene_idle_needs_a_frame(s: ScenePresentState)
    requires
        !s.presented,
    ensures
        scene_present_spec(s, SceneEvent::Tick { idle: true, paused: false }).1 is Render,
{
}

/// Readiness of a scene is signalled once, when every live output has shown
/// it; after a swap it is owed again.
pub proof fn lemma_scene_readiness_once(
    s: ScenePresentState,
    c1: bool,
    f1: bool,
    e1: bool,
    g1: bool,
    c2: bool,
    f2: bool,
    e2: bool,
    g2: bool,
    a2: bool,
)
    requires
        !s.presented,
    ensures
        ({
            let (n, a) = scene_present_spec(
                s,
                SceneEvent::FramePresented {
                    committed: c1,
                    first_seen: f1,
                    finish_after_commit: e1,
                    final_seen: g1,
                    all_seen: true,
                },
            );
            let (_, b) = scene_present_spec(
                n,
                SceneEvent::FramePresented {
                    committed: c2,
                    first_seen: f2,
                    finish_after_commit: e2,
                    final_seen: g2,
                    all_seen: a2,
                },
            );
            &&& a matches SceneAction::AfterPresent { notify_ready, .. } && notify_ready
            &&& b matches SceneAction::AfterPresent { notify_ready, .. } && !notify_ready
        }),
{
}

/// A frame is rendered only into a slot the viewer has handed back, and that
/// slot is busy until the viewer acknowledges it again; the other slots are
/// untouched.
pub proof fn lemma_stream_renders_into_free_slot(s: SceneStreamState, paused: bool)
    ensures
        ({
            let (n, a) = scene_stream_spec(s, StreamEvent::Tick { paused });
            a matches StreamAction::Render { slot, .. } ==> {
                &&& slot < 3
                &&& slot_free(s.free, slot as int)
                &&& !slot_free(n.free, slot as int)
                &&& forall|j: int|
                    0 <= j < 3 && j != slot ==> slot_free(n.free, j) == slot_free(s.free, j)
            }
        }),
        (scene_stream_spec(s, StreamEvent::Tick { paused }).1 is AwaitAck) <==> (!paused && !(
        s.presented && !s.animated && !s.fading) && !s.free.0 && !s.free.1 && !s.free.2),
{
}

/// Acknowledging a slot frees it and no other; an index past the three
/// slots changes nothing.
pub proof fn lemma_stream_ack_frees_slot(s: SceneStreamState, slot: usize)
    ensures
        ({
            let n = scene_stream_spec(s, StreamEvent::Ack(slot)).0;
            &&& slot < 3 ==> slot_free(n.free, slot as int)
            &&& forall|j: int| 0 <= j < 3 && j != slot ==> slot_free(n.free, j) == slot_free(s.free, j)
            &&& slot >= 3 ==> n == s
        }),
{
}

/// A frame that does not go through NV12 always finds XR24 ready: choosing
/// XR24, or falling back to it after a failed copy, rebuilds it first when
/// it was released. A transition's frames use NV12 only for the exact last
/// frame of a video transition.
pub proof fn lemma_xr24_ready_when_used(
    s: SharedPresentState,
    hybrid_ready: bool,
    content_known: bool,
    content_repeated: bool,
    terminal: bool,
    nv12_capable: bool,
)
    ensures
        ({
            let (n, a) = shared_present_spec(s, PresentEvent::PathChosen { hybrid_ready });
            a matches PresentAction::UsePath { nv12, .. } && (!nv12 ==> n.xr_ready)
        }),
        shared_present_spec(s, PresentEvent::Nv12CopyFailed).0.xr_ready,
        ({
            let (n, a) = shared_present_spec(
                s,
                PresentEvent::FrameReady { content_known, content_repeated, terminal, nv12_capable },
            );
            a matches PresentAction::Render { can_use_nv12, .. } && can_use_nv12 ==> (!s.fading
                && !s.still) || terminal
        }),
        shared_present_spec(
            shared_present_spec(s, PresentEvent::Nv12CopyFailed).0,
            PresentEvent::FrameReady { content_known, content_repeated, terminal, nv12_capable },
        ).0.nv12_candidate == false,
{
}

/// The shared loop re-executes on a resize and exits when closed, keeping its
/// state; nothing else re-executes, and it exits otherwise only when an
/// overlay has shown its still frame.
pub proof fn lemma_shared_resize_and_close(s: SharedPresentState, e: PresentEvent)
    ensures
        shared_present_spec(s, PresentEvent::Resized) == (s, PresentAction::Reexec),
        shared_present_spec(s, PresentEvent::Closed) == (s, PresentAction::Exit),
        shared_present_spec(s, e).1 == PresentAction::Reexec ==> e == PresentEvent::Resized,
        shared_present_spec(s, e).1 == PresentAction::Exit ==> e == PresentEvent::Closed || (
        e is Tick && s.overlay && s.still),
{
    match e {
        PresentEvent::ImportAccepted(accepted) => {},
        PresentEvent::Tick { idle, paused, freeze_pending } => {},
        PresentEvent::FramePresented { committed, via_nv12, fade_finished, target_still } => {},
        _ => {},
    }
}

/// A shared-loop tick: idle parks once a frame was shown and nothing is in
/// flight; otherwise a pause parks unless a freeze frame is owed; otherwise a
/// still parks once shown (an overlay exits); otherwise a frame is presented.
/// The pause flag observed is kept.
#[verifier::rlimit(40)]
pub proof fn lemma_shared_tick_pauses(
    s: SharedPresentState,
    idle: bool,
    paused: bool,
    freeze_pending: bool,
)
    ensures
        ({
            let (n, a) = shared_present_spec(s, PresentEvent::Tick { idle, paused, freeze_pending });
            let idle_park = idle && !s.fading && !s.swap_pending && s.frames > 0;
            let still_park = s.still && !s.fading && !s.swap_pending && s.frames > 0;
            &&& n.paused == paused
            &&& n.idle_paused == idle_park
            &&& idle_park ==> a == (PresentAction::Park { pause_audio: true, restore_audio: false })
            &&& (!idle_park && paused && !freeze_pending) ==> a == (PresentAction::Park {
                pause_audio: false,
                restore_audio: s.idle_paused,
            })
            &&& (!idle_park && !(paused && !freeze_pending) && still_park) ==> a == (if s.overlay {
                PresentAction::Exit
            } else {
                PresentAction::Park { pause_audio: false, restore_audio: s.idle_paused }
            })
            &&& (!idle_park && !(paused && !freeze_pending) && !still_park) ==> a == (
            PresentAction::Present {
                reset_pacing: s.idle_paused || s.paused,
                restore_audio: s.idle_paused,
            })
        }),
{
}

/// The NV12 loop re-executes on a resize and exits when closed, keeping its
/// state; nothing else re-executes.
pub proof fn lemma_nv12_resize_and_close(s: Nv12PresentState, e: Nv12Event)
    ensures
        nv12_present_spec(s, Nv12Event::Resized) == (s, Nv12Action::Reexec),
        nv12_present_spec(s, Nv12Event::Closed) == (s, Nv12Action::Exit),
        nv12_present_spec(s, Nv12Event::OutputsClosed) == (s, Nv12Action::Exit),
        nv12_present_spec(s, e).1 == Nv12Action::Reexec ==> e == Nv12Event::Resized,
{
}

/// An NV12 tick: idle parks once the source has shown a frame; otherwise a
/// pause parks unless a freeze frame is owed, which needs a frame presented;
/// otherwise a frame is presented. The pause flag observed is kept.
pub proof fn lemma_nv12_tick_pauses(s: Nv12PresentState, idle: bool, paused: bool, freeze_pending: bool)
    ensures
        ({
            let (n, a) = nv12_present_spec(s, Nv12Event::Tick { idle, paused, freeze_pending });
            let idle_park = idle && s.source_presented;
            &&& n.paused == paused
            &&& n.idle_paused == idle_park
            &&& n.source_presented == s.source_presented
            &&& n.readiness_pending == s.readiness_pending
            &&& idle_park ==> a == (Nv12Action::Park { pause_audio: true, restore_audio: false })
            &&& (!idle_park && paused && !freeze_pending) ==> a == (Nv12Action::Park {
                pause_audio: false,
                restore_audio: s.idle_paused,
            })
            &&& (!idle_park && (!paused || freeze_pending)) ==> a == (Nv12Action::Present {
                reset_pacing: s.idle_paused || s.paused,
                restore_audio: s.idle_paused,
            })
        }),
{
}

/// A cut swap starts the new source with nothing shown and readiness owed;
/// an ended decoder fails only before the startup source showed a frame.
pub proof fn lemma_nv12_swap_and_decoder_end(s: Nv12PresentState, to_startup: bool)
    ensures
        ({
            let (n, a) = nv12_present_spec(s, Nv12Event::SwapRequested { to_startup });
            &&& a == Nv12Action::CutSwap
            &&& !n.source_presented && n.readiness_pending && n.startup_source == to_startup
            &&& n.idle_paused == s.idle_paused && n.paused == s.paused
        }),
        nv12_present_spec(s, Nv12Event::DecodeEnded) == (s, if s.startup_source
            && !s.source_presented {
            Nv12Action::Fail
        } else {
            Nv12Action::Exit
        }),
        nv12_present_spec(s, Nv12Event::AcquireFailed) == (s, Nv12Action::FallBack),
{
}

/// The scene loop re-executes on a resize and exits when closed, keeping its
/// state; nothing else does either.
pub proof fn lemma_scene_resize_and_close(s: ScenePresentState, e: SceneEvent)
    ensures
        scene_present_spec(s, SceneEvent::Resized) == (s, SceneAction::Reexec),
        scene_present_spec(s, SceneEvent::Closed) == (s, SceneAction::Exit),
        scene_present_spec(s, e).1 == SceneAction::Reexec ==> e == SceneEvent::Resized,
        scene_present_spec(s, e).1 == SceneAction::Exit ==> e == SceneEvent::Closed,
{
}

/// A paused scene (or an idle one that has been shown) stops: the tick
/// parks and suspends the scene clock, whatever else holds. An unpaused tick
/// that is not idle-parked resumes the clock, and renders unless the scene
/// is shown, static and not in a transition.
pub proof fn lemma_scene_tick_pauses(s: ScenePresentState, idle: bool, paused: bool)
    ensures
        ({
            let (n, a) = scene_present_spec(s, SceneEvent::Tick { idle, paused });
            let idle_park = idle && s.presented;
            &&& (paused || idle_park) ==> n.suspended && a is Park && n.idle_paused == idle_park
            &&& (paused || idle_park) ==> a == (SceneAction::Park {
                pause_audio: idle_park,
                restore_audio: !idle_park && s.idle_paused,
                resume_clock: false,
            })
            &&& !(paused || idle_park) ==> !n.suspended && !n.idle_paused
            &&& !(paused || idle_park) && !(s.presented && !s.fading && !s.animated) ==> a == (
            SceneAction::Render {
                compose: s.animated,
                restore_audio: s.idle_paused,
                resume_clock: s.suspended,
            })
            &&& !(paused || idle_park) && s.presented && !s.fading && !s.animated ==> a == (
            SceneAction::Park {
                pause_audio: false,
                restore_audio: s.idle_paused,
                resume_clock: s.suspended,
            })
            &&& n.presented == s.presented && n.fading == s.fading && n.animated == s.animated
        }),
{
}

/// A scene that failed to load leaves everything as it was; a loaded one
/// starts unshown, in a transition exactly when it fades in.
pub proof fn lemma_scene_swap(s: ScenePresentState, fade: bool, animated: bool)
    ensures
        scene_present_spec(s, SceneEvent::SwapRequested { loaded: false, fade, animated }) == (
            s,
            SceneAction::KeepScene,
        ),
        ({
            let (n, a) = scene_present_spec(s, SceneEvent::SwapRequested { loaded: true, fade, animated });
            &&& a == SceneAction::SwapScene { fade }
            &&& !n.presented && n.fading == fade && n.fade_first_frame == fade
            &&& n.animated == animated
            &&& n.suspended == s.suspended && n.idle_paused == s.idle_paused
        }),
{
}

/// The stream handles swaps as scenes do, keeps its slots across them, and
/// exits only when its parent is gone.
pub proof fn lemma_stream_swap_and_exit(
    s: SceneStreamState,
    e: StreamEvent,
    fade: bool,
    animated: bool,
)
    ensures
        scene_stream_spec(s, StreamEvent::SwapRequested { loaded: false, fade, animated }) == (
            s,
            StreamAction::KeepScene,
        ),
        ({
            let (n, a) = scene_stream_spec(
                s,
                StreamEvent::SwapRequested { loaded: true, fade, animated },
            );
            &&& a == StreamAction::SwapScene { fade }
            &&& !n.presented && n.fading == fade && n.fade_first_frame == fade
            &&& n.animated == animated && n.free == s.free && n.suspended == s.suspended
        }),
        scene_stream_spec(s, StreamEvent::ParentExited) == (s, StreamAction::Exit),
        scene_stream_spec(s, e).1 == StreamAction::Exit ==> e == StreamEvent::ParentExited,
{
}

/// A scene stream stays parked while paused, with its clock suspended, and
/// never renders then.
pub proof fn lemma_stream_pause_waits(s: SceneStreamState)
    ensures
        scene_stream_spec(s, StreamEvent::Tick { paused: true }) == (
            SceneStreamState { suspended: true, ..s },
            StreamAction::Wait,
        ),
        !(scene_stream_spec(s, StreamEvent::Tick { paused: false }).1 is Wait) || (s.presented
            && !s.animated && !s.fading),
{
}

/// After a frame of the shared loop: readiness is signalled when owed and the
/// frame was committed, a held transition then pauses; a committed frame that
/// reaches the transition's end finishes the swap and takes on the target's
/// stillness; the frame count grows by one; the NV12 path is remembered and
/// XR24 is released once a frame went out through NV12.
#[verifier::rlimit(40)]
pub proof fn lemma_shared_after_present(
    s: SharedPresentState,
    committed: bool,
    via_nv12: bool,
    fade_finished: bool,
    target_still: bool,
)
    requires
        s.frames < u64::MAX,
    ensures
        ({
            let (n, a) = shared_present_spec(
                s,
                PresentEvent::FramePresented { committed, via_nv12, fade_finished, target_still },
            );
            let finish = committed && s.fading && fade_finished;
            &&& a == (PresentAction::AfterPresent {
                notify_ready: committed && s.readiness_pending,
                hold_paused: committed && s.readiness_pending && s.transition_held,
                finish_swap: finish,
                release_xr: via_nv12 && s.xr_ready,
            })
            &&& n.frames == s.frames + 1
            &&& n.fading == (s.fading && !finish)
            &&& n.still == (if finish {
                target_still
            } else {
                s.still
            })
            &&& n.presenting_nv12 == via_nv12
            &&& n.readiness_pending == (s.readiness_pending && !committed)
            &&& n.swap_pending == s.swap_pending && n.shm_present == s.shm_present
            &&& n.xr_ready == s.xr_ready && n.paused == s.paused && n.idle_paused == s.idle_paused
        }),
{
}

/// After a pass of scene commits: the transition clock restarts once every
/// output showed its first frame, the transition finishes once every output
/// showed its last, and readiness is signalled once every output showed the
/// scene; an uncommitted pass touches no transition.
pub proof fn lemma_scene_after_present(
    s: ScenePresentState,
    committed: bool,
    first_seen: bool,
    finish_after_commit: bool,
    final_seen: bool,
    all_seen: bool,
)
    ensures
        ({
            let (n, a) = scene_present_spec(
                s,
                SceneEvent::FramePresented {
                    committed,
                    first_seen,
                    finish_after_commit,
                    final_seen,
                    all_seen,
                },
            );
            let restart = committed && s.fading && s.fade_first_frame && first_seen;
            let finish = committed && s.fading && finish_after_commit && final_seen;
            &&& a == (SceneAction::AfterPresent {
                restart_fade_clock: restart,
                finish_fade: finish,
                notify_ready: !s.presented && all_seen,
            })
            &&& n.fading == (s.fading && !finish)
            &&& n.fade_first_frame == (s.fade_first_frame && !restart)
            &&& n.presented == (s.presented || all_seen)
            &&& !committed ==> n.fading == s.fading && n.fade_first_frame == s.fade_first_frame
            &&& n.suspended == s.suspended && n.idle_paused == s.idle_paused && n.animated
                == s.animated
        }),
{
}

/// The end of a streamed transition only ends the transition; the render
/// step marks the scene shown and its first transition frame sent.
pub proof fn lemma_stream_fade_and_render(s: SceneStreamState)
    ensures
        scene_stream_spec(s, StreamEvent::FadeDone) == (
            SceneStreamState { fading: false, ..s },
            StreamAction::Continue,
        ),
        ({
            let (n, a) = scene_stream_spec(s, StreamEvent::Tick { paused: false });
            a is Render ==> n.presented && !n.fade_first_frame && !n.suspended && n.fading
                == s.fading && n.animated == s.animated
        }),
{
}

} // verus!

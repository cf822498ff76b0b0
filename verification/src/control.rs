use vstd::prelude::*;

verus! {

/// A request to render a scene into an image file.
#[derive(Debug)]
pub struct CaptureRequest {
    pub source: String,
    pub path: String,
}

/// A request to swap to another wallpaper, as it arrived on the control
/// channel; `properties` is carried through untouched.
#[derive(Debug)]
pub struct SwapCommand<P> {
    pub to: String,
    pub duration_ms: Option<u64>,
    pub shader: Option<String>,
    pub mute: Option<bool>,
    pub volume: Option<u32>,
    pub properties: P,
}

/// A control command after classification.
#[derive(Debug)]
pub enum ControlCommand<P> {
    Capture(CaptureRequest),
    Freeze(String),
    Pause(bool),
    RetainOutputs,
    Audio { mute: Option<bool>, volume: Option<u32> },
    Swap(SwapCommand<P>),
}

/// A swap that the player has to carry out.
#[derive(Debug)]
pub struct SwapReq<P> {
    pub to: String,
    pub duration_ms: u64,
    pub shader: Option<String>,
    pub properties: P,
}

/// What the audio sink, where there is one, has to apply.
#[derive(Clone, Copy, Debug, PartialEq, Eq, Structural)]
pub enum AudioAction {
    Pause(bool),
    Mute(bool),
    Volume(u32),
}

/// The playback state that control commands drive.
#[derive(Debug)]
pub struct Ctl {
    pub mute: bool,
    pub volume: u32,
    pub paused: bool,
    pub freeze: Option<String>,
    pub capture: Option<CaptureRequest>,
}

/// `volume`, capped at 100.
pub open spec fn capped_volume(volume: u32) -> u32 {
    if volume > 100 {
        100
    } else {
        volume
    }
}

/// The state, the swap and the audio actions after one command.
pub open spec fn reduced<P>(ctl: Ctl, cmd: ControlCommand<P>) -> (Ctl, Option<SwapReq<P>>, Seq<
    AudioAction,
>) {
    match cmd {
        ControlCommand::Capture(capture) => (
            Ctl {
                mute: ctl.mute,
                volume: ctl.volume,
                paused: ctl.paused,
                freeze: ctl.freeze,
                capture: Some(capture),
            },
            None,
            Seq::empty(),
        ),
        ControlCommand::Freeze(path) => (
            Ctl {
                mute: ctl.mute,
                volume: ctl.volume,
                paused: true,
                freeze: Some(path),
                capture: ctl.capture,
            },
            None,
            seq![AudioAction::Pause(true)],
        ),
        ControlCommand::Pause(paused) => (
            Ctl {
                mute: ctl.mute,
                volume: ctl.volume,
                paused: paused,
                freeze: ctl.freeze,
                capture: ctl.capture,
            },
            None,
            seq![AudioAction::Pause(paused)],
        ),
        ControlCommand::RetainOutputs => (ctl, None, Seq::empty()),
        ControlCommand::Audio { mute, volume } => {
            let new_mute = match mute {
                Some(m) => m,
                None => ctl.mute,
            };
            let new_volume = match volume {
                Some(v) => capped_volume(v),
                None => ctl.volume,
            };
            let mute_actions = match mute {
                Some(m) => seq![AudioAction::Mute(m)],
                None => Seq::empty(),
            };
            let volume_actions = match volume {
                Some(v) => seq![AudioAction::Volume(capped_volume(v))],
                None => Seq::empty(),
            };
            (
                Ctl {
                    mute: new_mute,
                    volume: new_volume,
                    paused: ctl.paused,
                    freeze: ctl.freeze,
                    capture: ctl.capture,
                },
                None,
                mute_actions + volume_actions,
            )
        },
        ControlCommand::Swap(swap) => (
            Ctl {
                mute: match swap.mute {
                    Some(m) => m,
                    None => true,
                },
                volume: match swap.volume {
                    Some(v) => capped_volume(v),
                    None => 80,
                },
                paused: ctl.paused,
                freeze: ctl.freeze,
                capture: ctl.capture,
            },
            Some(
                SwapReq {
                    to: swap.to,
                    duration_ms: match swap.duration_ms {
                        Some(d) => d,
                        None => 0,
                    },
                    shader: swap.shader,
                    properties: swap.properties,
                },
            ),
            Seq::empty(),
        ),
    }
}

/// The state, the last swap and all audio actions after the commands, in order.
pub open spec fn polled<P>(ctl: Ctl, cmds: Seq<ControlCommand<P>>) -> (Ctl, Option<SwapReq<P>>, Seq<
    AudioAction,
>)
    decreases cmds.len(),
{
    if cmds.len() == 0 {
        (ctl, None, Seq::empty())
    } else {
        let (before, earlier, actions) = polled(ctl, cmds.drop_last());
        let (after, swap, more) = reduced(before, cmds.last());
        (
            after,
            match swap {
                Some(s) => Some(s),
                None => earlier,
            },
            actions + more,
        )
    }
}

fn min_volume(volume: u32) -> (v: u32)
    ensures
        v == capped_volume(volume),
{
    if volume > 100 {
        100
    } else {
        volume
    }
}

impl Ctl {
    /// The state of a player started with the given audio settings.
    pub fn start(mute: bool, volume: u32) -> (ctl: Ctl)
        ensures
            ctl == (Ctl { mute, volume, paused: false, freeze: None, capture: None }),
    {
        Ctl { mute, volume, paused: false, freeze: None, capture: None }
    }

    /// The state of a player fed by a shared channel; the volume is capped at 100.
    pub fn from_channel(mute: bool, volume: u32) -> (ctl: Ctl)
        ensures
            ctl == (Ctl {
                mute,
                volume: capped_volume(volume),
                paused: false,
                freeze: None,
                capture: None,
            }),
    {
        Ctl { mute, volume: min_volume(volume), paused: false, freeze: None, capture: None }
    }

    /// Applies one command: returns the swap it asks for and what the audio
    /// sink has to do.
    pub fn reduce<P>(&mut self, cmd: ControlCommand<P>) -> (outcome: (Option<SwapReq<P>>, Vec<
        AudioAction,
    >))
        ensures
            ({
                let (state, swap, actions) = reduced(*old(self), cmd);
                &&& *final(self) == state
                &&& outcome.0 == swap
                &&& outcome.1@ == actions
            }),
    {
        let mut actions: Vec<AudioAction> = Vec::new();
        match cmd {
            ControlCommand::Capture(capture) => {
                self.capture = Some(capture);
                (None, actions)
            },
            ControlCommand::Freeze(path) => {
                self.paused = true;
                self.freeze = Some(path);
                actions.push(AudioAction::Pause(true));
                (None, actions)
            },
            ControlCommand::Pause(paused) => {
                self.paused = paused;
                actions.push(AudioAction::Pause(paused));
                (None, actions)
            },
            ControlCommand::RetainOutputs => (None, actions),
            ControlCommand::Audio { mute, volume } => {
                if let Some(m) = mute {
                    self.mute = m;
                    actions.push(AudioAction::Mute(m));
                }
                if let Some(v) = volume {
                    self.volume = min_volume(v);
                    actions.push(AudioAction::Volume(self.volume));
                }
                proof {
                    let (_, _, expected) = reduced(*old(self), ControlCommand::<P>::Audio { mute, volume });
                    assert(actions@ =~= expected);
                }
                (None, actions)
            },
            ControlCommand::Swap(swap) => {
                self.mute = match swap.mute {
                    Some(m) => m,
                    None => true,
                };
                self.volume = match swap.volume {
                    Some(v) => min_volume(v),
                    None => 80,
                };
                let duration_ms = match swap.duration_ms {
                    Some(d) => d,
                    None => 0,
                };
                (
                    Some(
                        SwapReq {
                            to: swap.to,
                            duration_ms,
                            shader: swap.shader,
                            properties: swap.properties,
                        },
                    ),
                    actions,
                )
            },
        }
    }

    /// Applies the commands in order: returns the last swap among them and
    /// every audio action.
    pub fn poll<P>(&mut self, commands: Vec<ControlCommand<P>>) -> (outcome: (
        Option<SwapReq<P>>,
        Vec<AudioAction>,
    ))
        ensures
            ({
                let (state, swap, actions) = polled(*old(self), commands@);
                &&& *final(self) == state
                &&& outcome.0 == swap
                &&& outcome.1@ == actions
            }),
    {
        let ghost all = commands@;
        let mut rest = commands;
        let mut swap: Option<SwapReq<P>> = None;
        let mut actions: Vec<AudioAction> = Vec::new();
        let ghost start = *self;
        let ghost mut done: int = 0;
        while rest.len() > 0
            invariant
                0 <= done <= all.len(),
                rest@ == all.subrange(done, all.len() as int),
                ({
                    let (state, last, acts) = polled(start, all.subrange(0, done));
                    &&& *self == state
                    &&& swap == last
                    &&& actions@ == acts
                }),
            decreases rest.len(),
        {
            let cmd = rest.remove(0);
            proof {
                assert(all.subrange(0, done + 1).drop_last() =~= all.subrange(0, done));
                assert(all.subrange(0, done + 1).last() == cmd);
            }
            let (next, more) = self.reduce(cmd);
            if next.is_some() {
                swap = next;
            }
            let ghost before = actions@;
            let mut k: usize = 0;
            while k < more.len()
                invariant
                    k <= more.len(),
                    actions@ == before + more@.subrange(0, k as int),
                decreases more.len() - k,
            {
                actions.push(more[k]);
                proof {
                    assert(more@.subrange(0, k + 1) =~= more@.subrange(0, k as int).push(more@[k as int]));
                }
                k = k + 1;
            }
            proof {
                assert(more@.subrange(0, more@.len() as int) =~= more@);
                done = done + 1;
                assert(rest@ =~= all.subrange(done, all.len() as int));
            }
        }
        proof {
            assert(all.subrange(0, done) =~= all);
        }
        (swap, actions)
    }

    /// Pauses or resumes playback directly.
    pub fn set_paused(&mut self, paused: bool) -> (action: AudioAction)
        ensures
            *final(self) == (Ctl { paused, ..*old(self) }),
            action == AudioAction::Pause(paused),
    {
        self.paused = paused;
        AudioAction::Pause(paused)
    }

    /// Whether a freeze frame has been asked for and not yet taken.
    pub fn freeze_pending(&self) -> (pending: bool)
        ensures
            pending == self.freeze is Some,
    {
        self.freeze.is_some()
    }

    /// Takes the path of the requested freeze frame.
    pub fn take_freeze(&mut self) -> (path: Option<String>)
        ensures
            path == old(self).freeze,
            *final(self) == (Ctl { freeze: None, ..*old(self) }),
    {
        self.freeze.take()
    }

    /// Drops a freeze request and resumes playback.
    pub fn cancel_freeze(&mut self) -> (action: AudioAction)
        ensures
            *final(self) == (Ctl { freeze: None, paused: false, ..*old(self) }),
            action == AudioAction::Pause(false),
    {
        self.freeze = None;
        self.paused = false;
        AudioAction::Pause(false)
    }

    /// Takes the requested scene capture.
    pub fn take_capture(&mut self) -> (capture: Option<CaptureRequest>)
        ensures
            capture == old(self).capture,
            *final(self) == (Ctl { capture: None, ..*old(self) }),
    {
        self.capture.take()
    }
}

/// Whether control commands are read from standard input; on until switched
/// off, and shared by every player of the process.
#[derive(Clone, Copy, Debug)]
pub struct StdinSwitch {
    enabled: bool,
}

impl StdinSwitch {
    /// The switch as the process starts: on.
    pub fn new() -> (switch: StdinSwitch)
        ensures
            switch.is_enabled(),
    {
        StdinSwitch { enabled: true }
    }

    /// The switch's state.
    pub closed spec fn is_enabled(&self) -> bool {
        self.enabled
    }

    /// Turns reading standard input on or off.
    pub fn set_stdin_enabled(&mut self, enabled: bool)
        ensures
            final(self).is_enabled() == enabled,
    {
        self.enabled = enabled;
    }

    /// Whether standard input is read: the last setting, on by default.
    pub fn stdin_enabled(&self) -> (enabled: bool)
        ensures
            enabled == self.is_enabled(),
    {
        self.enabled
    }
}

/// Which audio sink a player holds.
#[derive(Clone, Copy, Debug, PartialEq, Eq, Structural)]
pub enum SinkKind {
    Silent,
    Media,
    Scene,
}

/// What happens to the audio sink.
#[derive(Clone, Copy, Debug, PartialEq, Eq, Structural)]
pub enum SinkChange {
    /// Drop the sink.
    Drop,
    /// Keep the sink and hand it the new source.
    Reuse,
    /// Open a new sink of the wanted kind.
    Open,
}

/// The sink change when a video swaps: a media sink is reused, any other is
/// replaced by a new media sink, and a video without audio drops the sink.
pub fn swap_audio_change(current: SinkKind, with_audio: bool) -> (change: SinkChange)
    ensures
        change == if !with_audio {
            SinkChange::Drop
        } else if current == SinkKind::Media {
            SinkChange::Reuse
        } else {
            SinkChange::Open
        },
{
    if !with_audio {
        SinkChange::Drop
    } else {
        match current {
            SinkKind::Media => SinkChange::Reuse,
            _ => SinkChange::Open,
        }
    }
}

/// The sink change when a scene brings its voices: no voices drop the sink, a
/// scene sink is reused, any other is replaced by a new scene sink.
pub fn scene_voices_change(current: SinkKind, voice_count: usize) -> (change: SinkChange)
    ensures
        change == if voice_count == 0 {
            SinkChange::Drop
        } else if current == SinkKind::Scene {
            SinkChange::Reuse
        } else {
            SinkChange::Open
        },
{
    if voice_count == 0 {
        SinkChange::Drop
    } else {
        match current {
            SinkKind::Scene => SinkChange::Reuse,
            _ => SinkChange::Open,
        }
    }
}

/// Of the swaps in one poll, the last one is carried out: a poll that ends
/// with a swap command returns exactly that swap.
pub proof fn lemma_last_swap_wins<P>(ctl: Ctl, cmds: Seq<ControlCommand<P>>, swap: SwapCommand<P>)
    requires
        cmds.len() > 0,
        cmds.last() == ControlCommand::Swap(swap),
    ensures
        polled(ctl, cmds).1 == Some(
            SwapReq {
                to: swap.to,
                duration_ms: match swap.duration_ms {
                    Some(d) => d,
                    None => 0,
                },
                shader: swap.shader,
                properties: swap.properties,
            },
        ),
{
}

/// A capture request leaves the playback state alone: mute, volume, pause and
/// a pending freeze stay as they were, and no audio action follows.
pub proof fn lemma_capture_keeps_playback<P>(ctl: Ctl, capture: CaptureRequest)
    ensures
        ({
            let (state, swap, actions) = reduced(ctl, ControlCommand::<P>::Capture(capture));
            &&& state.mute == ctl.mute
            &&& state.volume == ctl.volume
            &&& state.paused == ctl.paused
            &&& state.freeze == ctl.freeze
            &&& swap is None
            &&& actions.len() == 0
        }),
{
}

/// After any command the volume is at most 100 when it was before.
pub proof fn lemma_volume_stays_capped<P>(ctl: Ctl, cmd: ControlCommand<P>)
    requires
        ctl.volume <= 100,
    ensures
        reduced(ctl, cmd).0.volume <= 100,
{
}

/// Pausing or resuming sets the pause flag to exactly what was asked, in both
/// directions, touches nothing else, and tells the audio sink the same.
pub proof fn lemma_pause_command_sets_pause<P>(ctl: Ctl, p: bool)
    ensures
        ({
            let (state, swap, actions) = reduced(ctl, ControlCommand::<P>::Pause(p));
            &&& state.paused == p
            &&& state.mute == ctl.mute
            &&& state.volume == ctl.volume
            &&& state.freeze == ctl.freeze
            &&& state.capture == ctl.capture
            &&& swap is None
            &&& actions == seq![AudioAction::Pause(p)]
        }),
        ({
            let (paused, _, _) = reduced(ctl, ControlCommand::<P>::Pause(true));
            reduced(paused, ControlCommand::<P>::Pause(false)).0.paused == false
        }),
{
}

/// A freeze request pauses playback, remembers where the frame goes, and
/// pauses the audio; mute, volume and a pending capture stay.
pub proof fn lemma_freeze_pauses_and_records<P>(ctl: Ctl, path: String)
    ensures
        ({
            let (state, swap, actions) = reduced(ctl, ControlCommand::<P>::Freeze(path));
            &&& state.paused
            &&& state.freeze == Some(path)
            &&& state.mute == ctl.mute
            &&& state.volume == ctl.volume
            &&& state.capture == ctl.capture
            &&& swap is None
            &&& actions == seq![AudioAction::Pause(true)]
        }),
{
}

/// Keeping the outputs changes nothing and asks nothing of the audio sink.
pub proof fn lemma_retain_outputs_changes_nothing<P>(ctl: Ctl)
    ensures
        reduced(ctl, ControlCommand::<P>::RetainOutputs).0 == ctl,
        reduced(ctl, ControlCommand::<P>::RetainOutputs).1 is None,
        reduced(ctl, ControlCommand::<P>::RetainOutputs).2.len() == 0,
{
}

/// An audio command sets what it names (the volume capped at 100), keeps
/// the rest, and emits a mute action before a volume action, one for each
/// setting given.
pub proof fn lemma_audio_command_sets_what_it_names<P>(
    ctl: Ctl,
    mute: Option<bool>,
    volume: Option<u32>,
)
    ensures
        ({
            let (state, swap, actions) = reduced(ctl, ControlCommand::<P>::Audio { mute, volume });
            &&& state.mute == (if mute is Some {
                mute->0
            } else {
                ctl.mute
            })
            &&& state.volume == (if volume is Some {
                if volume->0 > 100 {
                    100
                } else {
                    volume->0
                }
            } else {
                ctl.volume
            })
            &&& state.volume <= 100 || (volume is None && state.volume == ctl.volume)
            &&& state.paused == ctl.paused
            &&& state.freeze == ctl.freeze
            &&& state.capture == ctl.capture
            &&& swap is None
            &&& actions.len() == (if mute is Some {
                1int
            } else {
                0
            }) + (if volume is Some {
                1int
            } else {
                0
            })
            &&& mute is Some ==> actions[0] == AudioAction::Mute(mute->0)
            &&& volume is Some ==> actions.last() == AudioAction::Volume(state.volume)
        }),
{
}

/// A swap keeps the pause state and pending requests, resets the audio to
/// what the swap names (muted and volume 80 when it names nothing), and is
/// handed on with its target, shader and properties, its duration 0 when
/// none is given.
pub proof fn lemma_swap_command_is_handed_on<P>(ctl: Ctl, swap: SwapCommand<P>)
    ensures
        ({
            let (state, req, actions) = reduced(ctl, ControlCommand::<P>::Swap(swap));
            &&& state.paused == ctl.paused
            &&& state.freeze == ctl.freeze
            &&& state.capture == ctl.capture
            &&& state.mute == (swap.mute is None || swap.mute == Some(true))
            &&& state.volume == (if swap.volume is None {
                80
            } else if swap.volume->0 > 100 {
                100
            } else {
                swap.volume->0
            })
            &&& req is Some
            &&& req->0.to == swap.to
            &&& req->0.shader == swap.shader
            &&& req->0.properties == swap.properties
            &&& req->0.duration_ms == (if swap.duration_ms is Some {
                swap.duration_ms->0
            } else {
                0
            })
            &&& actions.len() == 0
        }),
{
}

} // verus!

//! Session state machine of the daemon's event loop.
//!
//! The loop outside the library multiplexes four stimulus sources —
//! hotkey events, a periodic timeout tick while recording, completion of
//! the in-flight transcription, and a shutdown signal. Every decision it
//! takes goes through [`Daemon::step`]: the loop hands in the current
//! state and one event, performs the returned action, and feeds the
//! action's outcome back in as the next event. The state itself is owned
//! by the loop and never shared. The transition table is the spec
//! function [`spec_step`], stated over the mathematical views of the
//! state, event and action types.

use vstd::prelude::*;
use vstd::string::*;

verus! {

/// Fewest samples worth transcribing: 0.3 s at 16 kHz. A shorter buffer
/// is discarded as an accidental press.
pub const MIN_SAMPLES: u32 = 4800;

/// Session state of the event loop. Exactly one is active at a time.
pub enum SessionState {
    /// Waiting for the hotkey.
    Idle,
    /// Audio capture is running; `started_at_ms` is the clock reading at start.
    Recording { started_at_ms: u64 },
    /// The captured buffer has been handed to a transcriber.
    Transcribing { audio: Vec<u32> },
    /// Momentary bookkeeping state while the text goes out.
    Outputting { text: String },
}

/// Mathematical view of [`SessionState`].
pub enum StateView {
    Idle,
    Recording { started_at_ms: u64 },
    Transcribing { audio: Seq<u32> },
    Outputting { text: Seq<char> },
}

impl View for SessionState {
    type V = StateView;

    open spec fn view(&self) -> StateView {
        match self {
            SessionState::Idle => StateView::Idle,
            SessionState::Recording { started_at_ms } => StateView::Recording {
                started_at_ms: *started_at_ms,
            },
            SessionState::Transcribing { audio } => StateView::Transcribing { audio: audio@ },
            SessionState::Outputting { text } => StateView::Outputting { text: text@ },
        }
    }
}

impl StateView {
    pub open spec fn is_idle(self) -> bool {
        matches!(self, StateView::Idle)
    }

    pub open spec fn is_recording(self) -> bool {
        matches!(self, StateView::Recording { .. })
    }

    pub open spec fn is_transcribing(self) -> bool {
        matches!(self, StateView::Transcribing { .. })
    }
}

/// One stimulus, or the outcome of one earlier action, as the loop saw it.
pub enum DaemonEvent {
    /// The hotkey went down.
    KeyPressed,
    /// The hotkey went up.
    KeyReleased,
    /// An attempted capture start succeeded at clock reading `now_ms`.
    CaptureStarted { now_ms: u64 },
    /// An attempted capture start failed.
    CaptureStartFailed,
    /// A capture stop handed back the recorded buffer.
    CaptureStopped { samples: Vec<u32> },
    /// A capture stop failed; the buffer is lost.
    CaptureStopFailed,
    /// The periodic timeout check fired at clock reading `now_ms`.
    TimeoutTick { now_ms: u64 },
    /// The dispatched transcription finished: the text, or an error message
    /// for the log.
    TranscriptionDone { result: Result<String, String> },
    /// The output chain finished delivering; `ok` says whether any backend
    /// accepted the text.
    OutputDone { ok: bool },
    /// The interrupt signal arrived.
    Shutdown,
}

/// Mathematical view of [`DaemonEvent`].
pub enum EventView {
    KeyPressed,
    KeyReleased,
    CaptureStarted { now_ms: u64 },
    CaptureStartFailed,
    CaptureStopped { samples: Seq<u32> },
    CaptureStopFailed,
    TimeoutTick { now_ms: u64 },
    TranscriptionDone { result: Result<Seq<char>, Seq<char>> },
    OutputDone { ok: bool },
    Shutdown,
}

impl View for DaemonEvent {
    type V = EventView;

    open spec fn view(&self) -> EventView {
        match self {
            DaemonEvent::KeyPressed => EventView::KeyPressed,
            DaemonEvent::KeyReleased => EventView::KeyReleased,
            DaemonEvent::CaptureStarted { now_ms } => EventView::CaptureStarted {
                now_ms: *now_ms,
            },
            DaemonEvent::CaptureStartFailed => EventView::CaptureStartFailed,
            DaemonEvent::CaptureStopped { samples } => EventView::CaptureStopped {
                samples: samples@,
            },
            DaemonEvent::CaptureStopFailed => EventView::CaptureStopFailed,
            DaemonEvent::TimeoutTick { now_ms } => EventView::TimeoutTick { now_ms: *now_ms },
            DaemonEvent::TranscriptionDone { result } => EventView::TranscriptionDone {
                result: match result {
                    Ok(text) => Ok(text@),
                    Err(msg) => Err(msg@),
                },
            },
            DaemonEvent::OutputDone { ok } => EventView::OutputDone { ok: *ok },
            DaemonEvent::Shutdown => EventView::Shutdown,
        }
    }
}

/// What the loop must do next. Every action other than `Nothing` and
/// `Exit` reports its outcome back as a [`DaemonEvent`].
pub enum DaemonAction {
    /// Keep multiplexing.
    Nothing,
    /// Acquire and start audio capture; `notify` asks for the
    /// recording-start notification first.
    StartCapture { notify: bool },
    /// Stop capture and hand the buffer back; `notify` asks for the
    /// recording-stop notification first.
    StopCaptureForResult { notify: bool },
    /// Force-stop capture and discard whatever it recorded (timeout path).
    StopCaptureDiscard,
    /// Dispatch the buffer to the transcriber off the multiplexer.
    Transcribe { samples: Vec<u32> },
    /// Deliver the text through the output chain, with fallback.
    DeliverOutput { text: String },
    /// Leave the loop, release the listener, clear the state sink.
    Exit,
}

/// Mathematical view of [`DaemonAction`].
pub enum ActionView {
    Nothing,
    StartCapture { notify: bool },
    StopCaptureForResult { notify: bool },
    StopCaptureDiscard,
    Transcribe { samples: Seq<u32> },
    DeliverOutput { text: Seq<char> },
    Exit,
}

impl View for DaemonAction {
    type V = ActionView;

    open spec fn view(&self) -> ActionView {
        match self {
            DaemonAction::Nothing => ActionView::Nothing,
            DaemonAction::StartCapture { notify } => ActionView::StartCapture { notify: *notify },
            DaemonAction::StopCaptureForResult { notify } => ActionView::StopCaptureForResult {
                notify: *notify,
            },
            DaemonAction::StopCaptureDiscard => ActionView::StopCaptureDiscard,
            DaemonAction::Transcribe { samples } => ActionView::Transcribe { samples: samples@ },
            DaemonAction::DeliverOutput { text } => ActionView::DeliverOutput { text: text@ },
            DaemonAction::Exit => ActionView::Exit,
        }
    }
}

/// Configuration the state machine reads. All other configuration stays
/// with the adapters outside the library.
pub struct DaemonConfig {
    /// Recording ceiling, in whole seconds.
    pub max_duration_secs: u32,
    /// Emit a desktop notification when recording starts.
    pub notify_on_start: bool,
    /// Emit a desktop notification when recording stops.
    pub notify_on_stop: bool,
    /// Where the external state sink lives; `None` disables the sink.
    pub state_file: Option<String>,
}

/// The daemon's loop-independent half: configuration and the resolved
/// state-sink path.
pub struct Daemon {
    pub config: DaemonConfig,
    pub state_file_path: Option<String>,
}

/// The transition table of the session state machine: next state and
/// action for one event. Every pairing not singled out below leaves the
/// state alone and does nothing; in particular a key press outside
/// `Idle` is ignored, so no two utterances are ever mid-flight at once.
pub open spec fn spec_step(config: DaemonConfig, state: StateView, event: EventView) -> (
    StateView,
    ActionView,
) {
    match event {
        EventView::KeyPressed => {
            if state.is_idle() {
                (state, ActionView::StartCapture { notify: config.notify_on_start })
            } else {
                (state, ActionView::Nothing)
            }
        },
        EventView::CaptureStarted { now_ms } => {
            if state.is_idle() {
                (StateView::Recording { started_at_ms: now_ms }, ActionView::Nothing)
            } else {
                (state, ActionView::Nothing)
            }
        },
        EventView::CaptureStartFailed => (state, ActionView::Nothing),
        EventView::KeyReleased => {
            if state.is_recording() {
                (state, ActionView::StopCaptureForResult { notify: config.notify_on_stop })
            } else {
                (state, ActionView::Nothing)
            }
        },
        EventView::CaptureStopped { samples } => {
            if state.is_recording() {
                if samples.len() < MIN_SAMPLES {
                    (StateView::Idle, ActionView::Nothing)
                } else {
                    (
                        StateView::Transcribing { audio: samples },
                        ActionView::Transcribe { samples },
                    )
                }
            } else {
                (state, ActionView::Nothing)
            }
        },
        EventView::CaptureStopFailed => {
            if state.is_recording() {
                (StateView::Idle, ActionView::Nothing)
            } else {
                (state, ActionView::Nothing)
            }
        },
        EventView::TimeoutTick { now_ms } => {
            match state {
                StateView::Recording { started_at_ms } => {
                    if now_ms >= started_at_ms && now_ms - started_at_ms > (
                    config.max_duration_secs as u64) * 1000 {
                        (StateView::Idle, ActionView::StopCaptureDiscard)
                    } else {
                        (state, ActionView::Nothing)
                    }
                },
                _ => (state, ActionView::Nothing),
            }
        },
        EventView::TranscriptionDone { result } => {
            if state.is_transcribing() {
                match result {
                    Ok(text) => {
                        if text.len() == 0 {
                            (StateView::Idle, ActionView::Nothing)
                        } else {
                            (
                                StateView::Outputting { text },
                                ActionView::DeliverOutput { text },
                            )
                        }
                    },
                    Err(_) => (StateView::Idle, ActionView::Nothing),
                }
            } else {
                (state, ActionView::Nothing)
            }
        },
        EventView::OutputDone { .. } => {
            match state {
                StateView::Outputting { .. } => (StateView::Idle, ActionView::Nothing),
                _ => (state, ActionView::Nothing),
            }
        },
        EventView::Shutdown => (state, ActionView::Exit),
    }
}

/// The name the external state sink shows for a state. `Outputting` is
/// momentary and keeps showing the name written when transcription began.
pub open spec fn spec_state_name(state: StateView) -> Seq<char> {
    match state {
        StateView::Idle => "idle"@,
        StateView::Recording { .. } => "recording"@,
        StateView::Transcribing { .. } => "transcribing"@,
        StateView::Outputting { .. } => "transcribing"@,
    }
}

fn copy_samples(samples: &Vec<u32>) -> (out: Vec<u32>)
    ensures
        out@ == samples@,
{
    let mut out: Vec<u32> = Vec::new();
    let mut i: usize = 0;
    while i < samples.len()
        invariant
            i <= samples@.len(),
            out@ == samples@.take(i as int),
        decreases samples@.len() - i,
    {
        out.push(samples[i]);
        proof {
            assert(samples@.take(i as int).push(samples@[i as int]) =~= samples@.take(i + 1));
        }
        i += 1;
    }
    proof {
        assert(samples@.take(samples@.len() as int) =~= samples@);
    }
    out
}

impl Daemon {
    /// Build a daemon around its configuration; the state-sink path is
    /// resolved once, here.
    pub fn new(config: DaemonConfig) -> (d: Daemon)
        ensures
            d.config == config,
            d.state_file_path == config.state_file,
    {
        let state_file_path = match &config.state_file {
            Some(p) => Some(p.clone()),
            None => None,
        };
        Daemon { config, state_file_path }
    }

    /// The name of the given state for the external state sink, and the
    /// path to mirror it to — `None` when the sink is disabled.
    pub fn update_state(&self, state: &SessionState) -> (r: (String, Option<String>))
        ensures
            r.0@ == spec_state_name(state@),
            r.1 == self.state_file_path,
    {
        let name = match state {
            SessionState::Idle => String::from_str("idle"),
            SessionState::Recording { .. } => String::from_str("recording"),
            SessionState::Transcribing { .. } => String::from_str("transcribing"),
            SessionState::Outputting { .. } => String::from_str("transcribing"),
        };
        let path = match &self.state_file_path {
            Some(p) => Some(p.clone()),
            None => None,
        };
        (name, path)
    }

    /// Service one event: the transition table [`spec_step`], executably.
    ///
    /// Recording is entered only from `Idle`, a key press outside `Idle`
    /// is ignored, a buffer under [`MIN_SAMPLES`] is discarded without a
    /// transcription, and a tick past the configured ceiling leaves
    /// `Recording` at once.
    pub fn step(&self, state: SessionState, event: DaemonEvent) -> (r: (
        SessionState,
        DaemonAction,
    ))
        ensures
            (r.0@, r.1@) == spec_step(self.config, state@, event@),
            r.0@.is_recording() && !state@.is_recording() ==> state@.is_idle(),
    {
        match event {
            DaemonEvent::KeyPressed => {
                match state {
                    SessionState::Idle => (
                        state,
                        DaemonAction::StartCapture { notify: self.config.notify_on_start },
                    ),
                    _ => (state, DaemonAction::Nothing),
                }
            },
            DaemonEvent::CaptureStarted { now_ms } => {
                match state {
                    SessionState::Idle => (
                        SessionState::Recording { started_at_ms: now_ms },
                        DaemonAction::Nothing,
                    ),
                    _ => (state, DaemonAction::Nothing),
                }
            },
            DaemonEvent::CaptureStartFailed => (state, DaemonAction::Nothing),
            DaemonEvent::KeyReleased => {
                match state {
                    SessionState::Recording { .. } => (
                        state,
                        DaemonAction::StopCaptureForResult { notify: self.config.notify_on_stop },
                    ),
                    _ => (state, DaemonAction::Nothing),
                }
            },
            DaemonEvent::CaptureStopped { samples } => {
                match state {
                    SessionState::Recording { .. } => {
                        if samples.len() < MIN_SAMPLES as usize {
                            (SessionState::Idle, DaemonAction::Nothing)
                        } else {
                            let audio = copy_samples(&samples);
                            (
                                SessionState::Transcribing { audio },
                                DaemonAction::Transcribe { samples },
                            )
                        }
                    },
                    _ => (state, DaemonAction::Nothing),
                }
            },
            DaemonEvent::CaptureStopFailed => {
                match state {
                    SessionState::Recording { .. } => (SessionState::Idle, DaemonAction::Nothing),
                    _ => (state, DaemonAction::Nothing),
                }
            },
            DaemonEvent::TimeoutTick { now_ms } => {
                match state {
                    SessionState::Recording { started_at_ms } => {
                        if now_ms >= started_at_ms && now_ms - started_at_ms > (
                        self.config.max_duration_secs as u64) * 1000 {
                            (SessionState::Idle, DaemonAction::StopCaptureDiscard)
                        } else {
                            (SessionState::Recording { started_at_ms }, DaemonAction::Nothing)
                        }
                    },
                    _ => (state, DaemonAction::Nothing),
                }
            },
            DaemonEvent::TranscriptionDone { result } => {
                match state {
                    SessionState::Transcribing { audio } => {
                        match result {
                            Ok(text) => {
                                if text.as_str().is_empty() {
                                    (SessionState::Idle, DaemonAction::Nothing)
                                } else {
                                    let out = text.clone();
                                    (
                                        SessionState::Outputting { text },
                                        DaemonAction::DeliverOutput { text: out },
                                    )
                                }
                            },
                            Err(_) => (SessionState::Idle, DaemonAction::Nothing),
                        }
                    },
                    _ => (state, DaemonAction::Nothing),
                }
            },
            DaemonEvent::OutputDone { .. } => {
                match state {
                    SessionState::Outputting { .. } => (SessionState::Idle, DaemonAction::Nothing),
                    _ => (state, DaemonAction::Nothing),
                }
            },
            DaemonEvent::Shutdown => (state, DaemonAction::Exit),
        }
    }
}

/// `Recording` is entered only out of `Idle`: whenever one step ends in
/// `Recording`, the step either began in `Recording` or began in `Idle`.
pub proof fn lemma_recording_only_from_idle(
    config: DaemonConfig,
    state: StateView,
    event: EventView,
)
    ensures
        spec_step(config, state, event).0.is_recording() ==> state.is_recording()
            || state.is_idle(),
{
}

/// Once the timeout check observes more than the configured ceiling of
/// elapsed time, the machine does not remain in `Recording`: the step
/// leaves for `Idle` and force-stops the capture.
pub proof fn lemma_recording_never_outlives_timeout(
    config: DaemonConfig,
    started_at_ms: u64,
    now_ms: u64,
)
    requires
        now_ms >= started_at_ms,
        now_ms - started_at_ms > (config.max_duration_secs as u64) * 1000,
    ensures
        spec_step(
            config,
            StateView::Recording { started_at_ms },
            EventView::TimeoutTick { now_ms },
        ) == (StateView::Idle, ActionView::StopCaptureDiscard),
{
}

/// A recorded buffer shorter than 0.3 s yields a discarded utterance:
/// the step goes straight from `Recording` to `Idle` and dispatches no
/// transcription.
pub proof fn lemma_short_buffer_discarded(
    config: DaemonConfig,
    started_at_ms: u64,
    samples: Seq<u32>,
)
    requires
        samples.len() < MIN_SAMPLES,
    ensures
        spec_step(
            config,
            StateView::Recording { started_at_ms },
            EventView::CaptureStopped { samples },
        ) == (StateView::Idle, ActionView::Nothing),
{
}

} // verus!

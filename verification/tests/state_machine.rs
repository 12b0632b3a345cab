//! End-to-end walks of the session state machine.

use voxtype::daemon::{Daemon, DaemonAction, DaemonConfig, DaemonEvent, SessionState};

fn quiet_daemon(max_duration_secs: u32) -> Daemon {
    Daemon::new(DaemonConfig {
        max_duration_secs,
        notify_on_start: false,
        notify_on_stop: false,
        state_file: None,
    })
}

#[test]
fn scenario_full_utterance() {
    // key pressed -> capture starts -> 2.0 s of audio -> key released ->
    // "hello world" -> output chain invoked -> back to idle
    let d = quiet_daemon(30);
    let (s, a) = d.step(SessionState::Idle, DaemonEvent::KeyPressed);
    assert!(matches!(a, DaemonAction::StartCapture { .. }));
    let (s, a) = d.step(s, DaemonEvent::CaptureStarted { now_ms: 1_000 });
    assert!(matches!(s, SessionState::Recording { started_at_ms: 1_000 }));
    assert!(matches!(a, DaemonAction::Nothing));
    let (s, a) = d.step(s, DaemonEvent::KeyReleased);
    assert!(matches!(a, DaemonAction::StopCaptureForResult { .. }));
    let samples = vec![0u32; 32_000];  // 2.0 s at 16 kHz
    let (s, a) = d.step(s, DaemonEvent::CaptureStopped { samples });
    match &s {
        SessionState::Transcribing { audio } => assert_eq!(audio.len(), 32_000),
        _ => panic!("expected Transcribing"),
    }
    match &a {
        DaemonAction::Transcribe { samples } => assert_eq!(samples.len(), 32_000),
        _ => panic!("expected a Transcribe action"),
    }
    let (s, a) = d.step(
        s,
        DaemonEvent::TranscriptionDone { result: Ok("hello world".to_string()) },
    );
    match &s {
        SessionState::Outputting { text } => assert_eq!(text, "hello world"),
        _ => panic!("expected Outputting"),
    }
    match &a {
        DaemonAction::DeliverOutput { text } => assert_eq!(text, "hello world"),
        _ => panic!("expected a DeliverOutput action"),
    }
    let (s, a) = d.step(s, DaemonEvent::OutputDone { ok: true });
    assert!(matches!(s, SessionState::Idle));
    assert!(matches!(a, DaemonAction::Nothing));
}

#[test]
fn scenario_short_press_discards() {
    // key released after 0.1 s: no transcription, straight back to idle
    let d = quiet_daemon(30);
    let (s, _) = d.step(SessionState::Idle, DaemonEvent::KeyPressed);
    let (s, _) = d.step(s, DaemonEvent::CaptureStarted { now_ms: 0 });
    let (s, _) = d.step(s, DaemonEvent::KeyReleased);
    let samples = vec![0u32; 1_600];  // 0.1 s at 16 kHz
    let (s, a) = d.step(s, DaemonEvent::CaptureStopped { samples });
    assert!(matches!(s, SessionState::Idle));
    assert!(matches!(a, DaemonAction::Nothing));
}

#[test]
fn scenario_worker_error_resolves_to_idle() {
    // the worker's carried error message surfaces, the state returns to idle
    let d = quiet_daemon(30);
    let (s, _) = d.step(SessionState::Idle, DaemonEvent::KeyPressed);
    let (s, _) = d.step(s, DaemonEvent::CaptureStarted { now_ms: 0 });
    let (s, _) = d.step(s, DaemonEvent::KeyReleased);
    let (s, _) = d.step(s, DaemonEvent::CaptureStopped { samples: vec![0u32; 16_000] });
    let outcome = voxtype::subprocess::interpret_worker_output(
        "{\"ok\":false,\"error\":\"model not found\"}",
    );
    let message = match outcome {
        Err(voxtype::subprocess::TranscribeError::InferenceFailed(m)) => m,
        _ => panic!("expected an inference error"),
    };
    assert_eq!(message, "model not found");
    let (s, a) = d.step(s, DaemonEvent::TranscriptionDone { result: Err(message) });
    assert!(matches!(s, SessionState::Idle));
    assert!(matches!(a, DaemonAction::Nothing));
}

#[test]
fn scenario_timeout_force_stops() {
    // recording exceeds the configured maximum: capture is force-stopped,
    // the state returns to idle, no transcription is attempted
    let d = quiet_daemon(30);
    let (s, _) = d.step(SessionState::Idle, DaemonEvent::KeyPressed);
    let (s, _) = d.step(s, DaemonEvent::CaptureStarted { now_ms: 0 });
    // a tick within the ceiling changes nothing
    let (s, a) = d.step(s, DaemonEvent::TimeoutTick { now_ms: 30_000 });
    assert!(matches!(s, SessionState::Recording { .. }));
    assert!(matches!(a, DaemonAction::Nothing));
    // the first tick past it leaves at once
    let (s, a) = d.step(s, DaemonEvent::TimeoutTick { now_ms: 30_001 });
    assert!(matches!(s, SessionState::Idle));
    assert!(matches!(a, DaemonAction::StopCaptureDiscard));
}

#[test]
fn key_press_outside_idle_is_ignored() {
    let d = quiet_daemon(30);
    let (s, a) = d.step(
        SessionState::Recording { started_at_ms: 5 },
        DaemonEvent::KeyPressed,
    );
    assert!(matches!(s, SessionState::Recording { started_at_ms: 5 }));
    assert!(matches!(a, DaemonAction::Nothing));
    let (s, a) = d.step(
        SessionState::Transcribing { audio: vec![1, 2, 3] },
        DaemonEvent::KeyPressed,
    );
    assert!(matches!(s, SessionState::Transcribing { .. }));
    assert!(matches!(a, DaemonAction::Nothing));
}

#[test]
fn empty_transcription_goes_straight_to_idle() {
    let d = quiet_daemon(30);
    let s = SessionState::Transcribing { audio: vec![0u32; 16_000] };
    let (s, a) = d.step(s, DaemonEvent::TranscriptionDone { result: Ok(String::new()) });
    assert!(matches!(s, SessionState::Idle));
    assert!(matches!(a, DaemonAction::Nothing));
}

#[test]
fn boundary_buffer_is_kept() {
    // exactly 0.3 s (4800 samples) is not "shorter than 0.3 s"
    let d = quiet_daemon(30);
    let s = SessionState::Recording { started_at_ms: 0 };
    let (s, a) = d.step(s, DaemonEvent::CaptureStopped { samples: vec![0u32; 4_800] });
    assert!(matches!(s, SessionState::Transcribing { .. }));
    assert!(matches!(a, DaemonAction::Transcribe { .. }));
    // one sample fewer is discarded
    let d = quiet_daemon(30);
    let s = SessionState::Recording { started_at_ms: 0 };
    let (s, a) = d.step(s, DaemonEvent::CaptureStopped { samples: vec![0u32; 4_799] });
    assert!(matches!(s, SessionState::Idle));
    assert!(matches!(a, DaemonAction::Nothing));
}

#[test]
fn notifications_follow_configuration() {
    let d = Daemon::new(DaemonConfig {
        max_duration_secs: 30,
        notify_on_start: true,
        notify_on_stop: false,
        state_file: None,
    });
    let (s, a) = d.step(SessionState::Idle, DaemonEvent::KeyPressed);
    assert!(matches!(a, DaemonAction::StartCapture { notify: true }));
    let (s, _) = d.step(s, DaemonEvent::CaptureStarted { now_ms: 0 });
    let (_, a) = d.step(s, DaemonEvent::KeyReleased);
    assert!(matches!(a, DaemonAction::StopCaptureForResult { notify: false }));
}

#[test]
fn state_names_mirror_the_session() {
    let d = Daemon::new(DaemonConfig {
        max_duration_secs: 30,
        notify_on_start: false,
        notify_on_stop: false,
        state_file: Some("/tmp/voxtype-state".to_string()),
    });
    let (name, path) = d.update_state(&SessionState::Idle);
    assert_eq!(name, "idle");
    assert_eq!(path, Some("/tmp/voxtype-state".to_string()));
    let (name, _) = d.update_state(&SessionState::Recording { started_at_ms: 0 });
    assert_eq!(name, "recording");
    let (name, _) = d.update_state(&SessionState::Transcribing { audio: vec![] });
    assert_eq!(name, "transcribing");
    let (name, _) = d.update_state(&SessionState::Outputting { text: String::new() });
    assert_eq!(name, "transcribing");

    let quiet = quiet_daemon(30);
    let (_, path) = quiet.update_state(&SessionState::Idle);
    assert_eq!(path, None);
}

#[test]
fn shutdown_is_serviced_in_any_state() {
    let d = quiet_daemon(30);
    let (_, a) = d.step(SessionState::Idle, DaemonEvent::Shutdown);
    assert!(matches!(a, DaemonAction::Exit));
    let (_, a) = d.step(SessionState::Recording { started_at_ms: 0 }, DaemonEvent::Shutdown);
    assert!(matches!(a, DaemonAction::Exit));
    let (_, a) = d.step(
        SessionState::Outputting { text: "x".to_string() },
        DaemonEvent::Shutdown,
    );
    assert!(matches!(a, DaemonAction::Exit));
}

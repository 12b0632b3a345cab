//! Tests of the subprocess transcriber's per-call bookkeeping.

use voxtype::subprocess::{
    interpret_worker_output, last_line, prepare_request, SubprocessTranscriber, TranscribeError,
    WhisperConfig,
};
use voxtype::text::u32_to_decimal;

fn config() -> WhisperConfig {
    WhisperConfig {
        model: "base.en".to_string(),
        language: "en".to_string(),
        translate: false,
        threads: None,
    }
}

#[test]
fn worker_args_carry_the_configuration() {
    let t = SubprocessTranscriber::new(&config(), None).unwrap();
    assert_eq!(
        t.worker_args(),
        vec!["transcribe-worker", "--model", "base.en", "--language", "en"]
    );

    let full = WhisperConfig {
        model: "large-v3".to_string(),
        language: "de".to_string(),
        translate: true,
        threads: Some(8),
    };
    let t = SubprocessTranscriber::new(&full, Some("/etc/voxtype.toml".to_string())).unwrap();
    assert_eq!(
        t.worker_args(),
        vec![
            "transcribe-worker",
            "--config",
            "/etc/voxtype.toml",
            "--model",
            "large-v3",
            "--language",
            "de",
            "--translate",
            "--threads",
            "8",
        ]
    );
}

#[test]
fn decimal_rendering_is_exact() {
    assert_eq!(u32_to_decimal(0), "0");
    assert_eq!(u32_to_decimal(7), "7");
    assert_eq!(u32_to_decimal(9_600_000), "9600000");
    assert_eq!(u32_to_decimal(u32::MAX), "4294967295");
}

#[test]
fn prepare_request_rejects_an_empty_buffer() {
    match prepare_request(&vec![]) {
        Err(TranscribeError::AudioFormat(m)) => assert_eq!(m, "Empty audio buffer"),
        _ => panic!("an empty buffer must fail fast"),
    }
}

#[test]
fn prepare_request_frames_the_buffer() {
    let bytes = prepare_request(&vec![1u32, 2, 3]).unwrap();
    assert_eq!(bytes, vec![3, 0, 0, 0, 1, 0, 0, 0, 2, 0, 0, 0, 3, 0, 0, 0]);
}

#[test]
fn interpretation_takes_the_last_line() {
    let out = "loading model\nalmost there\n{\"ok\":true,\"text\":\"hi there\"}\n";
    assert_eq!(interpret_worker_output(out).unwrap(), "hi there");
}

#[test]
fn interpretation_surfaces_the_carried_error() {
    let out = "{\"ok\":false,\"error\":\"model not found\"}";
    match interpret_worker_output(out) {
        Err(TranscribeError::InferenceFailed(m)) => assert_eq!(m, "model not found"),
        _ => panic!("expected the worker's own message"),
    }
}

#[test]
fn interpretation_rejects_ok_without_text() {
    match interpret_worker_output("{\"ok\":true}") {
        Err(TranscribeError::InferenceFailed(m)) => {
            assert_eq!(m, "Worker returned ok but no text")
        },
        _ => panic!("ok without text is a protocol violation"),
    }
}

#[test]
fn interpretation_rejects_garbage() {
    match interpret_worker_output("panic: something exploded") {
        Err(TranscribeError::InferenceFailed(m)) => {
            assert_eq!(m, "Failed to parse worker response; output: panic: something exploded")
        },
        _ => panic!("garbage output must not resolve to text"),
    }
}

#[test]
fn error_without_message_gets_the_fallback() {
    match interpret_worker_output("{\"ok\":false}") {
        Err(TranscribeError::InferenceFailed(m)) => assert_eq!(m, "Unknown worker error"),
        _ => panic!("expected the fallback message"),
    }
}

#[test]
fn last_line_follows_line_iteration() {
    assert_eq!(last_line(""), "");
    assert_eq!(last_line("one line"), "one line");
    assert_eq!(last_line("a\nb"), "b");
    assert_eq!(last_line("a\nb\n"), "b");
    assert_eq!(last_line("a\r\nb\r\n"), "b");
    assert_eq!(last_line("a\n\n"), "");
    assert_eq!(last_line("a\rb"), "a\rb");
}

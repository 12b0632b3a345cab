//! Orchestration core of a push-to-talk dictation daemon.
//!
//! The crate holds the verified logic of the daemon: the binary request
//! codec spoken on a transcription worker's input stream, the one-line
//! response protocol spoken on its output stream, the session state
//! machine that the event loop drives, and the per-call bookkeeping of
//! the subprocess transcriber. All I/O around these pieces lives outside
//! the library and hands it plain values.

use vstd::prelude::*;

pub mod codec;
pub mod daemon;
pub mod response;
pub mod subprocess;
pub mod text;
pub mod worker;

verus! {

/// Fixed sample rate of the audio pipeline, in samples per second.
pub const SAMPLE_RATE: u32 = 16000;

} // verus!

//! Per-call bookkeeping of the subprocess transcriber.
//!
//! One utterance is one worker process: the caller encodes the request
//! with [`prepare_request`], hands the bytes to the freshly spawned
//! worker's input stream, reads the worker's whole output stream, and
//! resolves it with [`interpret_worker_output`]. The spawn, the stream
//! traffic and the reaping live with the adapter outside the library;
//! everything the adapter decides with is computed here.

use crate::codec::{encode_request, spec_encode_request, MAX_SAMPLES};
use crate::response::{parse_response_line, spec_parse_response};
use crate::text::{push_char, spec_decimal, str_chars, u32_to_decimal};
use vstd::prelude::*;
use vstd::string::*;

verus! {

/// Why a transcription call failed.
#[derive(Debug)]
pub enum TranscribeError {
    /// The worker could not be set up (spawn failure, missing stream).
    InitFailed(String),
    /// The request buffer itself is unusable (empty, oversized).
    AudioFormat(String),
    /// The worker ran and failed, or its answer was unusable.
    InferenceFailed(String),
}

/// Mathematical view of [`TranscribeError`].
pub enum TranscribeErrorView {
    InitFailed(Seq<char>),
    AudioFormat(Seq<char>),
    InferenceFailed(Seq<char>),
}

impl View for TranscribeError {
    type V = TranscribeErrorView;

    open spec fn view(&self) -> TranscribeErrorView {
        match self {
            TranscribeError::InitFailed(m) => TranscribeErrorView::InitFailed(m@),
            TranscribeError::AudioFormat(m) => TranscribeErrorView::AudioFormat(m@),
            TranscribeError::InferenceFailed(m) => TranscribeErrorView::InferenceFailed(m@),
        }
    }
}

/// Transcription-engine configuration handed on to each worker.
pub struct WhisperConfig {
    /// Model name.
    pub model: String,
    /// Language code.
    pub language: String,
    /// Translate to English instead of transcribing.
    pub translate: bool,
    /// Worker thread count, where configured.
    pub threads: Option<u32>,
}

/// Mathematical view of [`WhisperConfig`].
pub struct WhisperConfigView {
    pub model: Seq<char>,
    pub language: Seq<char>,
    pub translate: bool,
    pub threads: Option<u32>,
}

impl View for WhisperConfig {
    type V = WhisperConfigView;

    open spec fn view(&self) -> WhisperConfigView {
        WhisperConfigView {
            model: self.model@,
            language: self.language@,
            translate: self.translate,
            threads: self.threads,
        }
    }
}

impl WhisperConfig {
    /// A field-for-field copy.
    pub fn duplicate(&self) -> (r: WhisperConfig)
        ensures
            r@ == self@,
    {
        WhisperConfig {
            model: self.model.clone(),
            language: self.language.clone(),
            translate: self.translate,
            threads: self.threads,
        }
    }
}

/// Subprocess-isolated transcriber: spawns one fresh worker per
/// utterance so that accelerator memory is reclaimed by process exit.
pub struct SubprocessTranscriber {
    /// Configuration to pass to each worker.
    pub config: WhisperConfig,
    /// Path of the configuration file to hand on, if any.
    pub config_path: Option<String>,
}

/// The view of an optional string.
pub open spec fn opt_str_view(o: Option<String>) -> Option<Seq<char>> {
    match o {
        Some(s) => Some(s@),
        None => None,
    }
}

/// The command-line arguments one worker is spawned with.
pub open spec fn spec_worker_args(c: WhisperConfigView, path: Option<Seq<char>>) -> Seq<
    Seq<char>,
> {
    seq!["transcribe-worker"@] + (match path {
        Some(p) => seq!["--config"@, p],
        None => Seq::<Seq<char>>::empty(),
    }) + seq!["--model"@, c.model, "--language"@, c.language] + (if c.translate {
        seq!["--translate"@]
    } else {
        Seq::<Seq<char>>::empty()
    }) + (match c.threads {
        Some(t) => seq!["--threads"@, spec_decimal(t as int)],
        None => Seq::<Seq<char>>::empty(),
    })
}

impl SubprocessTranscriber {
    /// Remember the configuration for the workers to come. Construction
    /// itself cannot fail: no engine is loaded in this process.
    pub fn new(config: &WhisperConfig, config_path: Option<String>) -> (r: Result<
        SubprocessTranscriber,
        TranscribeError,
    >)
        ensures
            r matches Ok(t) && t.config@ == config@ && t.config_path == config_path,
    {
        Ok(SubprocessTranscriber { config: config.duplicate(), config_path })
    }

    /// The argument list for one worker invocation, in order: the worker
    /// subcommand, the optional configuration file, the model and
    /// language, the translate flag where set, the thread count where
    /// configured.
    pub fn worker_args(&self) -> (args: Vec<String>)
        ensures
            args.deep_view() == spec_worker_args(self.config@, opt_str_view(self.config_path)),
    {
        let mut args: Vec<String> = Vec::new();
        args.push(String::from_str("transcribe-worker"));
        match &self.config_path {
            Some(p) => {
                args.push(String::from_str("--config"));
                args.push(p.clone());
            },
            None => {},
        }
        args.push(String::from_str("--model"));
        args.push(self.config.model.clone());
        args.push(String::from_str("--language"));
        args.push(self.config.language.clone());
        if self.config.translate {
            args.push(String::from_str("--translate"));
        }
        match self.config.threads {
            Some(t) => {
                args.push(String::from_str("--threads"));
                args.push(u32_to_decimal(t));
            },
            None => {},
        }
        proof {
            assert(args.deep_view() =~= spec_worker_args(
                self.config@,
                opt_str_view(self.config_path),
            ));
        }
        args
    }
}

/// What [`prepare_request`] returns, as a function of the buffer alone.
pub open spec fn spec_prepare_request(samples: Seq<u32>) -> Result<Seq<u8>, TranscribeErrorView> {
    if samples.len() == 0 {
        Err(TranscribeErrorView::AudioFormat("Empty audio buffer"@))
    } else if samples.len() > MAX_SAMPLES {
        Err(TranscribeErrorView::AudioFormat("Audio buffer too large"@))
    } else {
        Ok(spec_encode_request(samples))
    }
}

/// Encode one request for the worker's input stream. An empty buffer is
/// rejected before any process is spawned, and so is one over the
/// ten-minute ceiling the wire format enforces.
pub fn prepare_request(samples: &Vec<u32>) -> (r: Result<Vec<u8>, TranscribeError>)
    ensures
        (match r {
            Ok(b) => Ok::<Seq<u8>, TranscribeErrorView>(b@),
            Err(e) => Err(e@),
        }) == spec_prepare_request(samples@),
        samples@.len() == 0 || samples@.len() > MAX_SAMPLES <==> r is Err,
{
    if samples.len() == 0 {
        Err(TranscribeError::AudioFormat(String::from_str("Empty audio buffer")))
    } else if samples.len() > MAX_SAMPLES as usize {
        Err(TranscribeError::AudioFormat(String::from_str("Audio buffer too large")))
    } else {
        Ok(encode_request(samples))
    }
}

/// What [`interpret_worker_output`] returns, as a function of the
/// worker's whole output stream: the last line is parsed as the
/// response; `ok` with text present resolves to the text, `ok` without
/// text is a protocol violation, not-`ok` surfaces the carried message.
/// A line that does not parse names the failure and quotes the whole
/// raw output — the diagnostic a maintainer needs when a worker
/// misbehaves.
pub open spec fn spec_interpret_worker_output(out: Seq<char>) -> Result<
    Seq<char>,
    TranscribeErrorView,
> {
    match spec_parse_response(spec_last_line(out)) {
        None => Err(
            TranscribeErrorView::InferenceFailed("Failed to parse worker response; output: "@ + out),
        ),
        Some(p) => {
            if p.ok {
                match p.text {
                    Some(t) => Ok(t),
                    None => Err(
                        TranscribeErrorView::InferenceFailed("Worker returned ok but no text"@),
                    ),
                }
            } else {
                match p.error {
                    Some(e) => Err(TranscribeErrorView::InferenceFailed(e)),
                    None => Err(TranscribeErrorView::InferenceFailed("Unknown worker error"@)),
                }
            }
        },
    }
}

/// Resolve a worker's whole output stream to the transcribed text or
/// the error to log, per [`spec_interpret_worker_output`].
pub fn interpret_worker_output(output: &str) -> (r: Result<String, TranscribeError>)
    ensures
        (match r {
            Ok(t) => Ok::<Seq<char>, TranscribeErrorView>(t@),
            Err(e) => Err(e@),
        }) == spec_interpret_worker_output(output@),
{
    let line = last_line(output);
    match parse_response_line(line.as_str()) {
        None => {
            let mut msg = String::from_str("Failed to parse worker response; output: ");
            msg.append(output);
            Err(TranscribeError::InferenceFailed(msg))
        },
        Some(p) => {
            if p.ok {
                match p.text {
                    Some(t) => Ok(t),
                    None => Err(
                        TranscribeError::InferenceFailed(
                            String::from_str("Worker returned ok but no text"),
                        ),
                    ),
                }
            } else {
                match p.error {
                    Some(e) => Err(TranscribeError::InferenceFailed(e)),
                    None => Err(
                        TranscribeError::InferenceFailed(String::from_str("Unknown worker error")),
                    ),
                }
            }
        },
    }
}

// ---------------------------------------------------------------------
// Last line of the output stream
// ---------------------------------------------------------------------

/// The suffix after the last line feed.
pub open spec fn spec_after_last_newline(s: Seq<char>) -> Seq<char>
    decreases s.len(),
{
    if s.len() == 0 {
        Seq::<char>::empty()
    } else if s[s.len() - 1] == '\n' {
        Seq::<char>::empty()
    } else {
        spec_after_last_newline(s.take(s.len() - 1)).push(s[s.len() - 1])
    }
}

/// One trailing carriage return removed, if present.
pub open spec fn spec_strip_cr(s: Seq<char>) -> Seq<char> {
    if s.len() >= 1 && s[s.len() - 1] == '\r' {
        s.take(s.len() - 1)
    } else {
        s
    }
}

/// The last line of a stream of text, the way line iteration sees it: a
/// line ends at a line feed, an optional carriage return directly
/// before a line feed belongs to the ending, and a final line ending
/// closes the last line rather than opening an empty one.
pub open spec fn spec_last_line(s: Seq<char>) -> Seq<char> {
    if s.len() == 0 {
        s
    } else if s[s.len() - 1] == '\n' {
        spec_strip_cr(spec_after_last_newline(s.take(s.len() - 1)))
    } else {
        spec_after_last_newline(s)
    }
}

fn last_line_start(v: &Vec<char>, m: usize) -> (j: usize)
    requires
        m <= v@.len(),
    ensures
        j <= m,
        spec_after_last_newline(v@.take(m as int)) == v@.subrange(j as int, m as int),
{
    let mut j = m;
    proof {
        assert(spec_after_last_newline(v@.take(m as int)) + v@.subrange(m as int, m as int)
            =~= spec_after_last_newline(v@.take(m as int)));
    }
    while j > 0 && v[j - 1] != '\n'
        invariant
            j <= m <= v@.len(),
            spec_after_last_newline(v@.take(m as int)) == spec_after_last_newline(
                v@.take(j as int),
            ) + v@.subrange(j as int, m as int),
        decreases j,
    {
        proof {
            let pre = v@.take(j as int);
            assert(pre.len() == j && pre[j - 1] == v@[j - 1]);
            assert(pre.take(j - 1) =~= v@.take(j - 1));
            assert(spec_after_last_newline(pre) == spec_after_last_newline(
                v@.take(j - 1),
            ).push(v@[j - 1]));
            assert(spec_after_last_newline(v@.take(j - 1)) + v@.subrange(j - 1, m as int)
                =~= spec_after_last_newline(v@.take(j - 1)).push(v@[j - 1]) + v@.subrange(
                j as int,
                m as int,
            ));
        }
        j -= 1;
    }
    proof {
        if j == 0 {
            assert(v@.take(0) =~= Seq::<char>::empty());
            assert(spec_after_last_newline(v@.take(0)) =~= Seq::<char>::empty());
            assert(Seq::<char>::empty() + v@.subrange(0, m as int) =~= v@.subrange(0, m as int));
        } else {
            let pre = v@.take(j as int);
            assert(pre.len() == j && pre[j - 1] == '\n');
            assert(spec_after_last_newline(pre) =~= Seq::<char>::empty());
            assert(Seq::<char>::empty() + v@.subrange(j as int, m as int) =~= v@.subrange(
                j as int,
                m as int,
            ));
        }
    }
    j
}

fn chars_range_to_string(v: &Vec<char>, a: usize, b: usize) -> (r: String)
    requires
        a <= b <= v@.len(),
    ensures
        r@ == v@.subrange(a as int, b as int),
{
    let mut r = String::new();
    let mut i = a;
    while i < b
        invariant
            a <= i <= b <= v@.len(),
            r@ == v@.subrange(a as int, i as int),
        decreases b - i,
    {
        push_char(&mut r, v[i]);
        proof {
            assert(v@.subrange(a as int, i as int).push(v@[i as int]) =~= v@.subrange(
                a as int,
                i + 1,
            ));
        }
        i += 1;
    }
    r
}

/// The last line of the worker's output stream; the answer the parent
/// parses, diagnostic lines before it notwithstanding.
pub fn last_line(output: &str) -> (r: String)
    ensures
        r@ == spec_last_line(output@),
{
    let v = str_chars(output);
    let n = v.len();
    if n == 0 {
        return String::new();
    }
    if v[n - 1] == '\n' {
        let m = n - 1;
        let j = last_line_start(&v, m);
        let end = if m > j && v[m - 1] == '\r' {
            m - 1
        } else {
            m
        };
        proof {
            let seg = v@.subrange(j as int, m as int);
            if m > j && v@[m - 1] == '\r' {
                assert(seg.len() >= 1 && seg[seg.len() - 1] == '\r');
                assert(spec_strip_cr(seg) =~= v@.subrange(j as int, m - 1));
            } else {
                if seg.len() >= 1 {
                    assert(seg[seg.len() - 1] == v@[m - 1]);
                }
                assert(spec_strip_cr(seg) =~= seg);
            }
            assert(v@.take(m as int) =~= v@.subrange(0, m as int));
        }
        chars_range_to_string(&v, j, end)
    } else {
        let j = last_line_start(&v, n);
        proof {
            assert(v@.take(n as int) =~= v@);
        }
        chars_range_to_string(&v, j, n)
    }
}

// ---------------------------------------------------------------------
// The whole protocol round-trips
// ---------------------------------------------------------------------

/// No line feed anywhere in a piece of text.
pub open spec fn no_newline(s: Seq<char>) -> bool {
    forall|k: int| 0 <= k < s.len() ==> s[k] != '\n'
}

proof fn lemma_escape_no_newline(m: Seq<char>)
    ensures
        no_newline(crate::response::escape_string(m)),
    decreases m.len(),
{
    if m.len() > 0 {
        lemma_escape_no_newline(m.drop_first());
        let ec = crate::response::escape_char(m[0]);
        let rest = crate::response::escape_string(m.drop_first());
        assert(forall|k: int| 0 <= k < ec.len() ==> ec[k] != '\n');
        assert forall|k: int| 0 <= k < (ec + rest).len() implies (ec + rest)[k] != '\n' by {
            if k >= ec.len() {
                assert((ec + rest)[k] == rest[k - ec.len()]);
            }
        }
    }
}

proof fn lemma_after_last_newline_absent(s: Seq<char>)
    requires
        no_newline(s),
    ensures
        spec_after_last_newline(s) == s,
    decreases s.len(),
{
    if s.len() > 0 {
        assert(s[s.len() - 1] != '\n');
        assert(no_newline(s.take(s.len() - 1)));
        lemma_after_last_newline_absent(s.take(s.len() - 1));
        assert(s.take(s.len() - 1).push(s[s.len() - 1]) =~= s);
    }
}

/// The protocol as a whole round-trips: the one line a worker
/// serializes, with or without its trailing line feed, resolves in the
/// parent to exactly the text the worker transcribed, or to exactly the
/// error message the worker carried.
pub proof fn lemma_transcriber_round_trip(r: crate::response::ResponseView)
    ensures
        spec_interpret_worker_output(crate::response::spec_response_line(r)) == (match r {
            crate::response::ResponseView::Success { text } => Ok::<
                Seq<char>,
                TranscribeErrorView,
            >(text),
            crate::response::ResponseView::Error { message } => Err(
                TranscribeErrorView::InferenceFailed(message),
            ),
        }),
        spec_interpret_worker_output(crate::response::spec_response_line(r).push('\n')) == (
        match r {
            crate::response::ResponseView::Success { text } => Ok::<
                Seq<char>,
                TranscribeErrorView,
            >(text),
            crate::response::ResponseView::Error { message } => Err(
                TranscribeErrorView::InferenceFailed(message),
            ),
        }),
{
    reveal_strlit("{\"ok\":true,\"text\":\"");
    reveal_strlit("{\"ok\":false,\"error\":\"");
    reveal_strlit("\"}");
    let line = crate::response::spec_response_line(r);
    let payload = match r {
        crate::response::ResponseView::Success { text } => text,
        crate::response::ResponseView::Error { message } => message,
    };
    let p = match r {
        crate::response::ResponseView::Success { .. } => "{\"ok\":true,\"text\":\""@,
        crate::response::ResponseView::Error { .. } => "{\"ok\":false,\"error\":\""@,
    };
    let q = "\"}"@;
    let e = crate::response::escape_string(payload);
    assert(line == p + e + q);
    lemma_escape_no_newline(payload);
    assert forall|k: int| 0 <= k < line.len() implies line[k] != '\n' by {
        if k < p.len() {
            assert(line[k] == p[k]);
        } else if k < p.len() + e.len() {
            assert(line[k] == e[k - p.len()]);
        } else {
            assert(line[k] == q[k - p.len() - e.len()]);
        }
    }
    lemma_after_last_newline_absent(line);
    assert(line.len() > 0 && line[line.len() - 1] == '}');
    assert(spec_last_line(line) == line);

    let nl = line.push('\n');
    assert(nl[nl.len() - 1] == '\n');
    assert(nl.take(nl.len() - 1) =~= line);
    assert(spec_strip_cr(line) == line);
    assert(spec_last_line(nl) == line);

    crate::response::lemma_response_round_trip(r);
}

} // verus!

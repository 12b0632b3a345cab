//! Worker response protocol: one line of JSON-shaped structured text.
//!
//! A worker answers with exactly one line, `{"ok":true,"text":"..."}` on
//! success or `{"ok":false,"error":"..."}` on failure. The serializer
//! and the parser here define the format precisely: within strings the
//! two-character escapes `\"`, `\\`, `\/`, `\n`, `\r`, `\t`, `\b` and
//! `\f` are understood, and so is `\uXXXX` for any code point of the
//! basic plane outside the surrogate range (surrogate pairs are not
//! understood); the serializer produces the two-character escapes, a
//! `\u00XX` form for the rarer control characters, and every other
//! character as itself. The parser accepts the schema
//! `{ ok: bool, text?: string, error?: string }` with arbitrary
//! whitespace and member order; an unknown member is ignored whatever
//! its value — boolean, string, null or number — and anything else on
//! the line rejects it.

use crate::text::push_char;
use vstd::prelude::*;
use vstd::string::*;

verus! {

/// A worker's answer: the transcribed text, or the error it ran into.
/// An error always carries a non-empty message.
pub enum WorkerResponse {
    Success { text: String },
    Error { message: String },
}

/// Mathematical view of [`WorkerResponse`].
pub enum ResponseView {
    Success { text: Seq<char> },
    Error { message: Seq<char> },
}

impl View for WorkerResponse {
    type V = ResponseView;

    open spec fn view(&self) -> ResponseView {
        match self {
            WorkerResponse::Success { text } => ResponseView::Success { text: text@ },
            WorkerResponse::Error { message } => ResponseView::Error { message: message@ },
        }
    }
}

/// A response is well formed when an error carries a non-empty message;
/// a success carries its text by construction.
pub open spec fn wf_response(r: ResponseView) -> bool {
    match r {
        ResponseView::Success { .. } => true,
        ResponseView::Error { message } => message.len() > 0,
    }
}

impl WorkerResponse {
    /// A success answer carrying the transcribed text.
    pub fn success(text: String) -> (r: WorkerResponse)
        ensures
            r@ == (ResponseView::Success { text: text@ }),
            wf_response(r@),
    {
        WorkerResponse::Success { text }
    }

    /// An error answer. The protocol owes every error a non-empty message.
    pub fn error(msg: String) -> (r: WorkerResponse)
        requires
            msg@.len() > 0,
        ensures
            r@ == (ResponseView::Error { message: msg@ }),
            wf_response(r@),
    {
        WorkerResponse::Error { message: msg }
    }
}

/// How one character travels inside a quoted string: the quote, the
/// backslash and the common control characters as two-character escapes,
/// the rarer control characters as hex escapes, every other character
/// as itself.
pub open spec fn escape_char(c: char) -> Seq<char> {
    if c == '"' { seq!['\\', '"'] }
    else if c == '\\' { seq!['\\', '\\'] }
    else if c == '\n' { seq!['\\', 'n'] }
    else if c == '\r' { seq!['\\', 'r'] }
    else if c == '\t' { seq!['\\', 't'] }
    else if c == '\u{8}' { seq!['\\', 'b'] }
    else if c == '\u{c}' { seq!['\\', 'f'] }
    else if (c as int) < 0x20 {
        seq!['\\', 'u', '0', '0', spec_hex_digit((c as int) / 16), spec_hex_digit((c as int) % 16)]
    }
    else { seq![c] }
}

/// A whole string, escaped character by character.
pub open spec fn escape_string(s: Seq<char>) -> Seq<char>
    decreases s.len(),
{
    if s.len() == 0 {
        Seq::<char>::empty()
    } else {
        escape_char(s[0]) + escape_string(s.drop_first())
    }
}

/// The value a two-character escape `\e` stands for, if `e` is a
/// recognised escape character.
pub open spec fn unescape_char(e: char) -> Option<char> {
    if e == '"' { Some('"') }
    else if e == '\\' { Some('\\') }
    else if e == '/' { Some('/') }
    else if e == 'n' { Some('\n') }
    else if e == 'r' { Some('\r') }
    else if e == 't' { Some('\t') }
    else if e == 'b' { Some('\u{8}') }
    else if e == 'f' { Some('\u{c}') }
    else { None }
}

/// The code point of a character.
pub open spec fn code_of(c: char) -> int {
    c as int
}

/// The character with a given code point. Meaningful only where one
/// exists; every use below is guarded by the scalar-value ranges.
pub open spec fn char_from_code(code: int) -> char {
    choose|c: char| code_of(c) == code
}

/// The lowercase hex digit character for one value below sixteen.
pub open spec fn spec_hex_digit(d: int) -> char {
    if d == 0 { '0' }
    else if d == 1 { '1' }
    else if d == 2 { '2' }
    else if d == 3 { '3' }
    else if d == 4 { '4' }
    else if d == 5 { '5' }
    else if d == 6 { '6' }
    else if d == 7 { '7' }
    else if d == 8 { '8' }
    else if d == 9 { '9' }
    else if d == 10 { 'a' }
    else if d == 11 { 'b' }
    else if d == 12 { 'c' }
    else if d == 13 { 'd' }
    else if d == 14 { 'e' }
    else { 'f' }
}

/// The value of one hex digit character, either case.
pub open spec fn hex_val(c: char) -> Option<int> {
    if '0' <= c && c <= '9' { Some(c as int - 48) }
    else if 'a' <= c && c <= 'f' { Some(c as int - 87) }
    else if 'A' <= c && c <= 'F' { Some(c as int - 55) }
    else { None }
}

/// The one response line a successful worker writes.
pub open spec fn spec_success_line(text: Seq<char>) -> Seq<char> {
    "{\"ok\":true,\"text\":\""@ + escape_string(text) + "\"}"@
}

/// The one response line a failed worker writes.
pub open spec fn spec_error_line(message: Seq<char>) -> Seq<char> {
    "{\"ok\":false,\"error\":\""@ + escape_string(message) + "\"}"@
}

/// The serialized form of a response.
pub open spec fn spec_response_line(r: ResponseView) -> Seq<char> {
    match r {
        ResponseView::Success { text } => spec_success_line(text),
        ResponseView::Error { message } => spec_error_line(message),
    }
}

proof fn lemma_escape_string_push(s: Seq<char>, c: char)
    ensures
        escape_string(s.push(c)) == escape_string(s) + escape_char(c),
    decreases s.len(),
{
    if s.len() == 0 {
        assert(s.push(c).drop_first() =~= Seq::<char>::empty());
        assert(s.push(c)[0] == c);
        assert(escape_string(Seq::<char>::empty()) =~= Seq::<char>::empty());
        assert(escape_string(s.push(c)) =~= escape_char(c) + Seq::<char>::empty());
        assert(escape_string(s) + escape_char(c) =~= escape_char(c) + Seq::<char>::empty());
    } else {
        lemma_escape_string_push(s.drop_first(), c);
        assert(s.push(c).drop_first() =~= s.drop_first().push(c));
        assert(s.push(c)[0] == s[0]);
        assert(escape_string(s.push(c)) =~= escape_string(s) + escape_char(c));
    }
}

fn push_escaped(out: &mut String, s: &str)
    ensures
        final(out)@ == old(out)@ + escape_string(s@),
{
    let ghost orig = out@;
    let n = s.unicode_len();
    proof {
        assert(escape_string(s@.take(0)) =~= Seq::<char>::empty());
        assert(orig + escape_string(s@.take(0)) =~= orig);
    }
    let mut i: usize = 0;
    while i < n
        invariant
            n == s@.len(),
            i <= n,
            out@ == orig + escape_string(s@.take(i as int)),
        decreases n - i,
    {
        let c = s.get_char(i);
        if c == '"' {
            push_char(out, '\\');
            push_char(out, '"');
        } else if c == '\\' {
            push_char(out, '\\');
            push_char(out, '\\');
        } else if c == '\n' {
            push_char(out, '\\');
            push_char(out, 'n');
        } else if c == '\r' {
            push_char(out, '\\');
            push_char(out, 'r');
        } else if c == '\t' {
            push_char(out, '\\');
            push_char(out, 't');
        } else if c == '\u{8}' {
            push_char(out, '\\');
            push_char(out, 'b');
        } else if c == '\u{c}' {
            push_char(out, '\\');
            push_char(out, 'f');
        } else if (c as u32) < 0x20 {
            push_char(out, '\\');
            push_char(out, 'u');
            push_char(out, '0');
            push_char(out, '0');
            push_char(out, hex_digit_char((c as u32) / 16));
            push_char(out, hex_digit_char((c as u32) % 16));
            proof {
                assert((c as u32) / 16 == (c as int) / 16 && (c as u32) % 16 == (c as int) % 16);
            }
        } else {
            push_char(out, c);
        }
        proof {
            lemma_escape_string_push(s@.take(i as int), s@[i as int]);
            assert(s@.take(i as int).push(s@[i as int]) =~= s@.take(i + 1));
            assert(out@ =~= orig + escape_string(s@.take(i + 1)));
        }
        i += 1;
    }
    proof {
        assert(s@.take(s@.len() as int) =~= s@);
    }
}

impl WorkerResponse {
    /// Serialize the response as its one protocol line (without the
    /// trailing newline).
    pub fn to_json_line(&self) -> (r: String)
        ensures
            r@ == spec_response_line(self@),
    {
        match self {
            WorkerResponse::Success { text } => {
                let mut out = String::from_str("{\"ok\":true,\"text\":\"");
                push_escaped(&mut out, text.as_str());
                out.append("\"}");
                out
            },
            WorkerResponse::Error { message } => {
                let mut out = String::from_str("{\"ok\":false,\"error\":\"");
                push_escaped(&mut out, message.as_str());
                out.append("\"}");
                out
            },
        }
    }
}

// ---------------------------------------------------------------------
// Parsing
// ---------------------------------------------------------------------

/// The whitespace the parser steps over between tokens.
pub open spec fn is_json_ws(c: char) -> bool {
    c == ' ' || c == '\t' || c == '\n' || c == '\r'
}

/// First position at or after `i` holding no whitespace.
pub open spec fn skip_ws(s: Seq<char>, i: int) -> int
    decreases s.len() - i,
{
    if 0 <= i && i < s.len() && is_json_ws(s[i]) {
        skip_ws(s, i + 1)
    } else {
        i
    }
}

/// Parse the inside of a quoted string starting at `i` (just past the
/// opening quote): the decoded content and the position just past the
/// closing quote.
pub open spec fn parse_string_body(s: Seq<char>, i: int) -> Option<(Seq<char>, int)>
    decreases s.len() - i,
{
    if i < 0 || i >= s.len() {
        None
    } else if s[i] == '"' {
        Some((Seq::<char>::empty(), i + 1))
    } else if s[i] == '\\' {
        if i + 1 >= s.len() {
            None
        } else if s[i + 1] == 'u' {
            if i + 6 > s.len() {
                None
            } else {
                match (hex_val(s[i + 2]), hex_val(s[i + 3]), hex_val(s[i + 4]), hex_val(s[i + 5])) {
                    (Some(h3), Some(h2), Some(h1), Some(h0)) => {
                        let code = 4096 * h3 + 256 * h2 + 16 * h1 + h0;
                        if 0xD800 <= code && code < 0xE000 {
                            None
                        } else {
                            match parse_string_body(s, i + 6) {
                                Some(p) => Some((seq![char_from_code(code)] + p.0, p.1)),
                                None => None,
                            }
                        }
                    },
                    _ => None,
                }
            }
        } else {
            match unescape_char(s[i + 1]) {
                Some(c) => match parse_string_body(s, i + 2) {
                    Some(p) => Some((seq![c] + p.0, p.1)),
                    None => None,
                },
                None => None,
            }
        }
    } else {
        match parse_string_body(s, i + 1) {
            Some(p) => Some((seq![s[i]] + p.0, p.1)),
            None => None,
        }
    }
}

/// A member value the parser knows: a boolean, a string, or null, as
/// the schema uses them, and a number, accepted only so that an unknown
/// member carrying one does not fail the whole line.
pub enum JsonValue {
    Bool(bool),
    Null,
    Str(Seq<char>),
    Num,
}

/// A decimal digit.
pub open spec fn is_json_digit(c: char) -> bool {
    '0' <= c && c <= '9'
}

/// First position at or after `i` holding no digit.
pub open spec fn skip_digits(s: Seq<char>, i: int) -> int
    decreases s.len() - i,
{
    if 0 <= i && i < s.len() && is_json_digit(s[i]) {
        skip_digits(s, i + 1)
    } else {
        i
    }
}

/// The optional fraction part of a number, starting at `i`: the
/// position after it, or nothing for a bare point without digits.
pub open spec fn parse_number_frac(s: Seq<char>, i: int) -> Option<int> {
    if 0 <= i && i < s.len() && s[i] == '.' {
        if i + 1 < s.len() && is_json_digit(s[i + 1]) {
            Some(skip_digits(s, i + 1))
        } else {
            None
        }
    } else {
        Some(i)
    }
}

/// The optional exponent part of a number, starting at `i`: the
/// position after it, or nothing for an exponent mark without digits.
pub open spec fn parse_number_exp(s: Seq<char>, i: int) -> Option<int> {
    if 0 <= i && i < s.len() && (s[i] == 'e' || s[i] == 'E') {
        let k = if i + 1 < s.len() && (s[i + 1] == '+' || s[i + 1] == '-') {
            i + 2
        } else {
            i + 1
        };
        if k < s.len() && is_json_digit(s[k]) {
            Some(skip_digits(s, k))
        } else {
            None
        }
    } else {
        Some(i)
    }
}

/// One number starting at `i`: an optional minus, an integer part with
/// no leading zero, an optional fraction, an optional exponent.
pub open spec fn parse_number(s: Seq<char>, i: int) -> Option<int> {
    if i < 0 || i >= s.len() {
        None
    } else {
        let j0 = if s[i] == '-' { i + 1 } else { i };
        if j0 >= s.len() || !is_json_digit(s[j0]) {
            None
        } else {
            let j1 = if s[j0] == '0' { j0 + 1 } else { skip_digits(s, j0) };
            match parse_number_frac(s, j1) {
                None => None,
                Some(j2) => parse_number_exp(s, j2),
            }
        }
    }
}

/// Parse one value starting at `i`.
pub open spec fn parse_value(s: Seq<char>, i: int) -> Option<(JsonValue, int)> {
    if i < 0 || i >= s.len() {
        None
    } else if s[i] == '"' {
        match parse_string_body(s, i + 1) {
            Some(p) => Some((JsonValue::Str(p.0), p.1)),
            None => None,
        }
    } else if s[i] == 't' {
        if i + 4 <= s.len() && s[i + 1] == 'r' && s[i + 2] == 'u' && s[i + 3] == 'e' {
            Some((JsonValue::Bool(true), i + 4))
        } else {
            None
        }
    } else if s[i] == 'f' {
        if i + 5 <= s.len() && s[i + 1] == 'a' && s[i + 2] == 'l' && s[i + 3] == 's' && s[i + 4]
            == 'e' {
            Some((JsonValue::Bool(false), i + 5))
        } else {
            None
        }
    } else if s[i] == 'n' {
        if i + 4 <= s.len() && s[i + 1] == 'u' && s[i + 2] == 'l' && s[i + 3] == 'l' {
            Some((JsonValue::Null, i + 4))
        } else {
            None
        }
    } else if s[i] == '-' || is_json_digit(s[i]) {
        match parse_number(s, i) {
            Some(j) => Some((JsonValue::Num, j)),
            None => None,
        }
    } else {
        None
    }
}

/// The fields gathered while walking an object's members.
pub struct FieldsView {
    pub ok: Option<bool>,
    pub text: Option<Seq<char>>,
    pub error: Option<Seq<char>>,
}

pub open spec fn empty_fields() -> FieldsView {
    FieldsView { ok: None, text: None, error: None }
}

/// Fold one member into the gathered fields. A second `ok`, `text` or
/// `error`, or a value of the wrong shape for its key, is a protocol
/// violation; a member under any other key is ignored.
pub open spec fn apply_member(f: FieldsView, key: Seq<char>, val: JsonValue) -> Option<
    FieldsView,
> {
    if key == "ok"@ {
        if f.ok is Some {
            None
        } else {
            match val {
                JsonValue::Bool(b) => Some(FieldsView { ok: Some(b), text: f.text, error: f.error }),
                _ => None,
            }
        }
    } else if key == "text"@ {
        if f.text is Some {
            None
        } else {
            match val {
                JsonValue::Str(t) => Some(FieldsView { ok: f.ok, text: Some(t), error: f.error }),
                JsonValue::Null => Some(f),
                _ => None,
            }
        }
    } else if key == "error"@ {
        if f.error is Some {
            None
        } else {
            match val {
                JsonValue::Str(t) => Some(FieldsView { ok: f.ok, text: f.text, error: Some(t) }),
                JsonValue::Null => Some(f),
                _ => None,
            }
        }
    } else {
        Some(f)
    }
}

/// Parse an object's members starting at the first member's opening
/// quote, through the closing brace; the position returned is just past
/// the brace. The two guards against a non-advancing position can never
/// fire; they keep the recursion visibly well founded.
pub open spec fn parse_members(s: Seq<char>, i: int, f: FieldsView) -> Option<(FieldsView, int)>
    decreases s.len() - i,
{
    if i < 0 || i >= s.len() || s[i] != '"' {
        None
    } else {
        match parse_string_body(s, i + 1) {
            None => None,
            Some(kp) => {
                let i2 = skip_ws(s, kp.1);
                if i2 < 0 || i2 >= s.len() || s[i2] != ':' {
                    None
                } else {
                    let i3 = skip_ws(s, i2 + 1);
                    match parse_value(s, i3) {
                        None => None,
                        Some(vp) => {
                            match apply_member(f, kp.0, vp.0) {
                                None => None,
                                Some(f2) => {
                                    let i4 = skip_ws(s, vp.1);
                                    if i4 < 0 || i4 >= s.len() {
                                        None
                                    } else if s[i4] == '}' {
                                        Some((f2, i4 + 1))
                                    } else if s[i4] == ',' {
                                        let i5 = skip_ws(s, i4 + 1);
                                        if i5 <= i || i5 > s.len() {
                                            None
                                        } else {
                                            parse_members(s, i5, f2)
                                        }
                                    } else {
                                        None
                                    }
                                },
                            }
                        },
                    }
                }
            },
        }
    }
}

/// Parse one whole line as an object of the schema's shape.
pub open spec fn spec_parse_fields(s: Seq<char>) -> Option<FieldsView> {
    let i0 = skip_ws(s, 0);
    if i0 >= s.len() || s[i0] != '{' {
        None
    } else {
        let i1 = skip_ws(s, i0 + 1);
        if i1 < s.len() && s[i1] == '}' {
            if skip_ws(s, i1 + 1) == s.len() {
                Some(empty_fields())
            } else {
                None
            }
        } else {
            match parse_members(s, i1, empty_fields()) {
                None => None,
                Some(p) => {
                    if skip_ws(s, p.1) == s.len() {
                        Some(p.0)
                    } else {
                        None
                    }
                },
            }
        }
    }
}

/// Mathematical view of a parsed response: the discriminating flag and
/// whichever payload members were present.
pub struct ParsedView {
    pub ok: bool,
    pub text: Option<Seq<char>>,
    pub error: Option<Seq<char>>,
}

/// Parse one whole line as a response: the `ok` member is owed; `text`
/// and `error` may be absent.
pub open spec fn spec_parse_response(s: Seq<char>) -> Option<ParsedView> {
    match spec_parse_fields(s) {
        Some(f) => match f.ok {
            Some(b) => Some(ParsedView { ok: b, text: f.text, error: f.error }),
            None => None,
        },
        None => None,
    }
}

/// A response parsed out of a worker's line.
pub struct ParsedResponse {
    pub ok: bool,
    pub text: Option<String>,
    pub error: Option<String>,
}

impl View for ParsedResponse {
    type V = ParsedView;

    open spec fn view(&self) -> ParsedView {
        ParsedView {
            ok: self.ok,
            text: match self.text {
                Some(t) => Some(t@),
                None => None,
            },
            error: match self.error {
                Some(e) => Some(e@),
                None => None,
            },
        }
    }
}

fn is_json_ws_exec(c: char) -> (r: bool)
    ensures
        r == is_json_ws(c),
{
    c == ' ' || c == '\t' || c == '\n' || c == '\r'
}

fn skip_ws_exec(v: &Vec<char>, i: usize) -> (j: usize)
    requires
        i <= v@.len(),
    ensures
        j == skip_ws(v@, i as int),
        i <= j <= v@.len(),
{
    let mut j = i;
    while j < v.len() && is_json_ws_exec(v[j])
        invariant
            i <= j <= v@.len(),
            skip_ws(v@, i as int) == skip_ws(v@, j as int),
        decreases v@.len() - j,
    {
        j += 1;
    }
    j
}

fn unescape_char_exec(e: char) -> (r: Option<char>)
    ensures
        r == unescape_char(e),
{
    if e == '"' { Some('"') }
    else if e == '\\' { Some('\\') }
    else if e == '/' { Some('/') }
    else if e == 'n' { Some('\n') }
    else if e == 'r' { Some('\r') }
    else if e == 't' { Some('\t') }
    else if e == 'b' { Some('\u{8}') }
    else if e == 'f' { Some('\u{c}') }
    else { None }
}

fn hex_digit_char(d: u32) -> (c: char)
    requires
        d < 16,
    ensures
        c == spec_hex_digit(d as int),
{
    if d == 0 { '0' }
    else if d == 1 { '1' }
    else if d == 2 { '2' }
    else if d == 3 { '3' }
    else if d == 4 { '4' }
    else if d == 5 { '5' }
    else if d == 6 { '6' }
    else if d == 7 { '7' }
    else if d == 8 { '8' }
    else if d == 9 { '9' }
    else if d == 10 { 'a' }
    else if d == 11 { 'b' }
    else if d == 12 { 'c' }
    else if d == 13 { 'd' }
    else if d == 14 { 'e' }
    else { 'f' }
}

fn hex_val_exec(c: char) -> (r: Option<u32>)
    ensures
        match r {
            Some(d) => hex_val(c) == Some(d as int) && d < 16,
            None => hex_val(c) is None,
        },
{
    if '0' <= c && c <= '9' {
        Some(c as u32 - 48)
    } else if 'a' <= c && c <= 'f' {
        Some(c as u32 - 87)
    } else if 'A' <= c && c <= 'F' {
        Some(c as u32 - 55)
    } else {
        None
    }
}

/// Relies on std's `char::from_u32`: every code point outside the
/// surrogate range and below 0x110000 names exactly the character with
/// that code point (vstd gives the function no specification).
#[verifier::external_body]
fn char_from_u32_checked(u: u32) -> (c: char)
    requires
        u < 0xD800 || (0xE000 <= u && u < 0x110000),
    ensures
        c as u32 == u,
{
    char::from_u32(u).unwrap()
}

fn parse_string_body_exec(v: &Vec<char>, i: usize) -> (r: Option<(String, usize)>)
    requires
        i <= v@.len(),
    ensures
        match r {
            Some(p) => {
                &&& parse_string_body(v@, i as int) == Some((p.0@, p.1 as int))
                &&& p.1 <= v@.len()
            },
            None => parse_string_body(v@, i as int) is None,
        },
{
    let mut acc = String::new();
    let mut pos = i;
    loop
        invariant
            i <= pos <= v@.len(),
            forall|t: Seq<char>, j: int|
                parse_string_body(v@, pos as int) == Some::<(Seq<char>, int)>((t, j))
                    ==> parse_string_body(v@, i as int) == Some::<(Seq<char>, int)>((acc@ + t, j)),
            (parse_string_body(v@, pos as int) is None) ==> (parse_string_body(v@, i as int)
                is None),
        decreases v@.len() - pos,
    {
        if pos >= v.len() {
            return None;
        }
        let c = v[pos];
        if c == '"' {
            proof {
                assert(parse_string_body(v@, pos as int) == Some::<(Seq<char>, int)>((
                    Seq::<char>::empty(),
                    pos + 1,
                )));
                assert(acc@ + Seq::<char>::empty() =~= acc@);
            }
            return Some((acc, pos + 1));
        } else if c == '\\' {
            if pos + 1 >= v.len() {
                proof {
                    assert(parse_string_body(v@, pos as int) is None);
                }
                return None;
            }
            let e = v[pos + 1];
            if e == 'u' {
                let n = v.len();
                if n - pos < 6 {
                    proof {
                        assert(parse_string_body(v@, pos as int) is None);
                    }
                    return None;
                }
                let (h3, h2, h1, h0) = match (
                    hex_val_exec(v[pos + 2]),
                    hex_val_exec(v[pos + 3]),
                    hex_val_exec(v[pos + 4]),
                    hex_val_exec(v[pos + 5]),
                ) {
                    (Some(h3), Some(h2), Some(h1), Some(h0)) => (h3, h2, h1, h0),
                    _ => {
                        proof {
                            assert(parse_string_body(v@, pos as int) is None);
                        }
                        return None;
                    },
                };
                let code: u32 = 4096 * h3 + 256 * h2 + 16 * h1 + h0;
                if 0xD800 <= code && code < 0xE000 {
                    proof {
                        assert(parse_string_body(v@, pos as int) is None);
                    }
                    return None;
                }
                let d = char_from_u32_checked(code);
                let ghost acc_old = acc@;
                push_char(&mut acc, d);
                proof {
                    assert(code_of(char_from_code(code as int)) == code as int) by {
                        assert(code_of(d) == code as int);
                    }
                    assert(char_from_code(code as int) == d);
                    assert forall|t: Seq<char>, j: int|
                        parse_string_body(v@, pos + 6) == Some::<(Seq<char>, int)>((t, j))
                            implies parse_string_body(v@, i as int) == Some::<(
                        Seq<char>,
                        int,
                    )>((acc@ + t, j)) by {
                        assert(parse_string_body(v@, pos as int) == Some::<(Seq<char>, int)>((
                            seq![d] + t,
                            j,
                        )));
                        assert(acc_old + (seq![d] + t) =~= acc@ + t);
                    }
                    assert((parse_string_body(v@, pos + 6) is None) ==> (parse_string_body(
                        v@,
                        i as int,
                    ) is None));
                }
                pos += 6;
                continue;
            }
            match unescape_char_exec(e) {
                None => {
                    proof {
                        assert(parse_string_body(v@, pos as int) is None);
                    }
                    return None;
                },
                Some(d) => {
                    let ghost acc_old = acc@;
                    push_char(&mut acc, d);
                    proof {
                        assert forall|t: Seq<char>, j: int|
                            parse_string_body(v@, pos + 2) == Some::<(Seq<char>, int)>((t, j))
                                implies parse_string_body(v@, i as int) == Some::<(
                            Seq<char>,
                            int,
                        )>((acc@ + t, j)) by {
                            assert(parse_string_body(v@, pos as int) == Some::<(Seq<char>, int)>((
                                seq![d] + t,
                                j,
                            )));
                            assert(acc_old + (seq![d] + t) =~= acc@ + t);
                        }
                        assert((parse_string_body(v@, pos + 2) is None) ==> (parse_string_body(
                            v@,
                            i as int,
                        ) is None));
                    }
                    pos += 2;
                },
            }
        } else {
            let ghost acc_old = acc@;
            push_char(&mut acc, c);
            proof {
                assert forall|t: Seq<char>, j: int|
                    parse_string_body(v@, pos + 1) == Some::<(Seq<char>, int)>((t, j)) implies
                    parse_string_body(v@, i as int) == Some::<(Seq<char>, int)>((acc@ + t, j)) by {
                    assert(parse_string_body(v@, pos as int) == Some::<(Seq<char>, int)>((
                        seq![c] + t,
                        j,
                    )));
                    assert(acc_old + (seq![c] + t) =~= acc@ + t);
                }
                assert((parse_string_body(v@, pos + 1) is None) ==> (parse_string_body(
                    v@,
                    i as int,
                ) is None));
            }
            pos += 1;
        }
    }
}

/// Executable twin of [`JsonValue`].
enum JsonValueExec {
    Bool(bool),
    Null,
    Str(String),
    Num,
}

impl View for JsonValueExec {
    type V = JsonValue;

    closed spec fn view(&self) -> JsonValue {
        match self {
            JsonValueExec::Bool(b) => JsonValue::Bool(*b),
            JsonValueExec::Null => JsonValue::Null,
            JsonValueExec::Str(t) => JsonValue::Str(t@),
            JsonValueExec::Num => JsonValue::Num,
        }
    }
}

fn is_json_digit_exec(c: char) -> (r: bool)
    ensures
        r == is_json_digit(c),
{
    '0' <= c && c <= '9'
}

fn skip_digits_exec(v: &Vec<char>, i: usize) -> (j: usize)
    requires
        i <= v@.len(),
    ensures
        j == skip_digits(v@, i as int),
        i <= j <= v@.len(),
{
    let mut j = i;
    while j < v.len() && is_json_digit_exec(v[j])
        invariant
            i <= j <= v@.len(),
            skip_digits(v@, i as int) == skip_digits(v@, j as int),
        decreases v@.len() - j,
    {
        j += 1;
    }
    j
}

fn parse_number_exec(v: &Vec<char>, i: usize) -> (r: Option<usize>)
    requires
        i < v@.len(),
    ensures
        match r {
            Some(j) => parse_number(v@, i as int) == Some(j as int) && j <= v@.len(),
            None => parse_number(v@, i as int) is None,
        },
{
    let n = v.len();
    let j0 = if v[i] == '-' { i + 1 } else { i };
    if j0 >= n {
        return None;
    }
    if !is_json_digit_exec(v[j0]) {
        return None;
    }
    let j1 = if v[j0] == '0' { j0 + 1 } else { skip_digits_exec(v, j0) };
    // fraction
    let j2 = if j1 < v.len() && v[j1] == '.' {
        if j1 + 1 < v.len() && is_json_digit_exec(v[j1 + 1]) {
            skip_digits_exec(v, j1 + 1)
        } else {
            return None;
        }
    } else {
        j1
    };
    proof {
        assert(parse_number_frac(v@, j1 as int) == Some(j2 as int));
    }
    // exponent
    let j3 = if j2 < v.len() && (v[j2] == 'e' || v[j2] == 'E') {
        let k = if j2 + 1 < v.len() && (v[j2 + 1] == '+' || v[j2 + 1] == '-') {
            j2 + 2
        } else {
            j2 + 1
        };
        if k < v.len() && is_json_digit_exec(v[k]) {
            skip_digits_exec(v, k)
        } else {
            return None;
        }
    } else {
        j2
    };
    proof {
        assert(parse_number_exp(v@, j2 as int) == Some(j3 as int));
    }
    Some(j3)
}

fn parse_value_exec(v: &Vec<char>, i: usize) -> (r: Option<(JsonValueExec, usize)>)
    requires
        i <= v@.len(),
    ensures
        match r {
            Some(p) => {
                &&& parse_value(v@, i as int) == Some((p.0@, p.1 as int))
                &&& p.1 <= v@.len()
            },
            None => parse_value(v@, i as int) is None,
        },
{
    if i >= v.len() {
        return None;
    }
    let c = v[i];
    if c == '"' {
        match parse_string_body_exec(v, i + 1) {
            Some(p) => Some((JsonValueExec::Str(p.0), p.1)),
            None => None,
        }
    } else if c == 't' {
        if v.len() - i >= 4 && v[i + 1] == 'r' && v[i + 2] == 'u' && v[i + 3] == 'e' {
            Some((JsonValueExec::Bool(true), i + 4))
        } else {
            None
        }
    } else if c == 'f' {
        if v.len() - i >= 5 && v[i + 1] == 'a' && v[i + 2] == 'l' && v[i + 3] == 's' && v[i + 4]
            == 'e' {
            Some((JsonValueExec::Bool(false), i + 5))
        } else {
            None
        }
    } else if c == 'n' {
        if v.len() - i >= 4 && v[i + 1] == 'u' && v[i + 2] == 'l' && v[i + 3] == 'l' {
            Some((JsonValueExec::Null, i + 4))
        } else {
            None
        }
    } else if c == '-' || is_json_digit_exec(c) {
        match parse_number_exec(v, i) {
            Some(j) => Some((JsonValueExec::Num, j)),
            None => None,
        }
    } else {
        None
    }
}

/// Executable twin of [`FieldsView`].
struct FieldsExec {
    ok: Option<bool>,
    text: Option<String>,
    error: Option<String>,
}

impl View for FieldsExec {
    type V = FieldsView;

    closed spec fn view(&self) -> FieldsView {
        FieldsView {
            ok: self.ok,
            text: match self.text {
                Some(t) => Some(t@),
                None => None,
            },
            error: match self.error {
                Some(e) => Some(e@),
                None => None,
            },
        }
    }
}

fn apply_member_exec(f: FieldsExec, key: &String, val: JsonValueExec) -> (r: Option<FieldsExec>)
    ensures
        match r {
            Some(f2) => apply_member(f@, key@, val@) == Some(f2@),
            None => apply_member(f@, key@, val@) is None,
        },
{
    if *key == String::from_str("ok") {
        if f.ok.is_some() {
            None
        } else {
            match val {
                JsonValueExec::Bool(b) => Some(
                    FieldsExec { ok: Some(b), text: f.text, error: f.error },
                ),
                _ => None,
            }
        }
    } else if *key == String::from_str("text") {
        if f.text.is_some() {
            None
        } else {
            match val {
                JsonValueExec::Str(t) => Some(
                    FieldsExec { ok: f.ok, text: Some(t), error: f.error },
                ),
                JsonValueExec::Null => Some(f),
                _ => None,
            }
        }
    } else if *key == String::from_str("error") {
        if f.error.is_some() {
            None
        } else {
            match val {
                JsonValueExec::Str(t) => Some(
                    FieldsExec { ok: f.ok, text: f.text, error: Some(t) },
                ),
                JsonValueExec::Null => Some(f),
                _ => None,
            }
        }
    } else {
        Some(f)
    }
}

fn parse_members_exec(v: &Vec<char>, i: usize, f: FieldsExec) -> (r: Option<(FieldsExec, usize)>)
    requires
        i <= v@.len(),
    ensures
        match r {
            Some(p) => {
                &&& parse_members(v@, i as int, f@) == Some((p.0@, p.1 as int))
                &&& p.1 <= v@.len()
            },
            None => parse_members(v@, i as int, f@) is None,
        },
{
    let mut pos = i;
    let mut cur = f;
    loop
        invariant
            i <= v@.len(),
            pos <= v@.len(),
            parse_members(v@, i as int, f@) == parse_members(v@, pos as int, cur@),
        decreases v@.len() - pos,
    {
        if pos >= v.len() {
            return None;
        }
        if v[pos] != '"' {
            return None;
        }
        let kp = match parse_string_body_exec(v, pos + 1) {
            Some(kp) => kp,
            None => {
                return None;
            },
        };
        let i2 = skip_ws_exec(v, kp.1);
        if i2 >= v.len() {
            return None;
        }
        if v[i2] != ':' {
            return None;
        }
        let i3 = skip_ws_exec(v, i2 + 1);
        let vp = match parse_value_exec(v, i3) {
            Some(vp) => vp,
            None => {
                return None;
            },
        };
        let f2 = match apply_member_exec(cur, &kp.0, vp.0) {
            Some(f2) => f2,
            None => {
                return None;
            },
        };
        let i4 = skip_ws_exec(v, vp.1);
        if i4 >= v.len() {
            return None;
        }
        if v[i4] == '}' {
            return Some((f2, i4 + 1));
        }
        if v[i4] != ',' {
            return None;
        }
        let i5 = skip_ws_exec(v, i4 + 1);
        if i5 <= pos {
            return None;
        }
        pos = i5;
        cur = f2;
    }
}

/// Parse one line of worker output. Returns the parsed response exactly
/// when the line meets the schema, per [`spec_parse_response`].
pub fn parse_response_line(line: &str) -> (r: Option<ParsedResponse>)
    ensures
        match r {
            Some(p) => spec_parse_response(line@) == Some(p@),
            None => spec_parse_response(line@) is None,
        },
{
    let v = crate::text::str_chars(line);
    let i0 = skip_ws_exec(&v, 0);
    if i0 >= v.len() {
        return None;
    }
    if v[i0] != '{' {
        return None;
    }
    let i1 = skip_ws_exec(&v, i0 + 1);
    if i1 < v.len() && v[i1] == '}' {
        // an empty object carries no ok member, well formed or not
        return None;
    }
    let p = match parse_members_exec(&v, i1, FieldsExec { ok: None, text: None, error: None }) {
        Some(p) => p,
        None => {
            return None;
        },
    };
    let j = skip_ws_exec(&v, p.1);
    if j != v.len() {
        return None;
    }
    match p.0.ok {
        Some(b) => Some(ParsedResponse { ok: b, text: p.0.text, error: p.0.error }),
        None => None,
    }
}

// ---------------------------------------------------------------------
// Round trip
// ---------------------------------------------------------------------

/// The characters the serializer does not let stand for themselves:
/// the quote, the backslash, and every control character.
pub open spec fn is_escaped_source(c: char) -> bool {
    c == '"' || c == '\\' || (c as int) < 0x20
}

proof fn lemma_char_code_nonneg(c: char)
    ensures
        0 <= c as int <= 0x10FFFF,
{
}

proof fn lemma_hex_val_of_digit(d: int)
    requires
        0 <= d < 16,
    ensures
        hex_val(spec_hex_digit(d)) == Some(d),
{
}

proof fn lemma_escape_string_plain(t: Seq<char>)
    requires
        forall|k: int| 0 <= k < t.len() ==> !is_escaped_source(t[k]),
    ensures
        escape_string(t) == t,
    decreases t.len(),
{
    if t.len() == 0 {
        assert(escape_string(t) =~= t);
    } else {
        assert(!is_escaped_source(t[0]));
        assert(escape_char(t[0]) == seq![t[0]]);
        lemma_escape_string_plain(t.drop_first());
        assert(seq![t[0]] + t.drop_first() =~= t);
    }
}

/// Parsing a string body undoes escaping: wherever the text holds the
/// escaped form of `t` followed by a closing quote, the parse returns
/// `t` and stops just past that quote.
#[verifier::rlimit(60)]
proof fn lemma_parse_string_of_escaped(s: Seq<char>, i: int, t: Seq<char>)
    requires
        0 <= i,
        i + escape_string(t).len() + 1 <= s.len(),
        s.subrange(i, i + escape_string(t).len() as int) == escape_string(t),
        s[i + escape_string(t).len() as int] == '"',
    ensures
        parse_string_body(s, i) == Some((t, i + escape_string(t).len() + 1)),
    decreases t.len(),
{
    let e = escape_string(t);
    if t.len() == 0 {
        assert(e =~= Seq::<char>::empty());
        assert(s[i] == '"');
        assert(parse_string_body(s, i) == Some((Seq::<char>::empty(), i + 1)));
        assert(Seq::<char>::empty() =~= t);
    } else {
        let c = t[0];
        let t2 = t.drop_first();
        let ec = escape_char(c);
        let e2 = escape_string(t2);
        assert(e == ec + e2);
        assert forall|m: int| 0 <= m < e.len() implies s[i + m] == e[m] by {
            assert(s.subrange(i, i + e.len() as int)[m] == s[i + m]);
        }
        if c == '"' || c == '\\' || c == '\n' || c == '\r' || c == '\t' || c == '\u{8}' || c
            == '\u{c}' {
            assert(ec.len() == 2 && ec[0] == '\\' && ec[1] != 'u' && unescape_char(ec[1]) == Some(
                c,
            ));
            assert(e[0] == ec[0] && e[1] == ec[1]);
            assert(s[i] == '\\');
            assert(s[i + 1] == ec[1]);
            assert(s.subrange(i + 2, i + 2 + e2.len() as int) =~= e2) by {
                assert(forall|m: int| 0 <= m < e2.len() ==> e[2 + m] == e2[m]);
            }
            assert(s[i + 2 + e2.len()] == '"');
            lemma_parse_string_of_escaped(s, i + 2, t2);
            assert(parse_string_body(s, i + 2) == Some((t2, i + 2 + e2.len() + 1)));
            assert(parse_string_body(s, i) == Some((seq![c] + t2, i + 2 + e2.len() + 1)));
            assert(seq![c] + t2 =~= t);
            assert(i + 2 + e2.len() == i + e.len());
        } else if (c as int) < 0x20 {
            let u = c as int;
            let hi = u / 16;
            let lo = u % 16;
            assert(0 <= c as int) by {
                lemma_char_code_nonneg(c);
            }
            assert(0 <= hi < 16 && 0 <= lo < 16);
            assert(ec == seq!['\\', 'u', '0', '0', spec_hex_digit(hi), spec_hex_digit(lo)]);
            assert(ec.len() == 6);
            assert(e[0] == ec[0] && e[1] == ec[1] && e[2] == ec[2] && e[3] == ec[3] && e[4]
                == ec[4] && e[5] == ec[5]);
            assert(s[i] == '\\' && s[i + 1] == 'u' && s[i + 2] == '0' && s[i + 3] == '0');
            assert(s[i + 4] == spec_hex_digit(hi) && s[i + 5] == spec_hex_digit(lo));
            assert(hex_val('0') == Some(0int));
            lemma_hex_val_of_digit(hi);
            lemma_hex_val_of_digit(lo);
            let code = 4096 * 0 + 256 * 0 + 16 * hi + lo;
            assert(code == u);
            assert(!(0xD800 <= code && code < 0xE000));
            assert(code_of(char_from_code(code)) == code) by {
                assert(code_of(c) == code);
            }
            assert(char_from_code(code) == c);
            assert(s.subrange(i + 6, i + 6 + e2.len() as int) =~= e2) by {
                assert(forall|m: int| 0 <= m < e2.len() ==> e[6 + m] == e2[m]);
            }
            assert(s[i + 6 + e2.len()] == '"');
            lemma_parse_string_of_escaped(s, i + 6, t2);
            assert(parse_string_body(s, i + 6) == Some((t2, i + 6 + e2.len() + 1)));
            assert(parse_string_body(s, i) == Some((seq![c] + t2, i + 6 + e2.len() + 1)));
            assert(seq![c] + t2 =~= t);
            assert(i + 6 + e2.len() == i + e.len());
        } else {
            assert(ec == seq![c]);
            assert(c != '"' && c != '\\');
            assert(e[0] == c);
            assert(s[i] == c);
            assert(s.subrange(i + 1, i + 1 + e2.len() as int) =~= e2) by {
                assert(forall|m: int| 0 <= m < e2.len() ==> e[1 + m] == e2[m]);
            }
            assert(s[i + 1 + e2.len()] == '"');
            lemma_parse_string_of_escaped(s, i + 1, t2);
            assert(parse_string_body(s, i + 1) == Some((t2, i + 1 + e2.len() + 1)));
            assert(parse_string_body(s, i) == Some((seq![c] + t2, i + 1 + e2.len() + 1)));
            assert(seq![c] + t2 =~= t);
            assert(i + 1 + e2.len() == i + e.len());
        }
    }
}

/// A serialized success line parses back to exactly its text.
pub proof fn lemma_success_round_trip(text: Seq<char>)
    ensures
        spec_parse_response(spec_success_line(text)) == Some(
            ParsedView { ok: true, text: Some(text), error: None },
        ),
{
    reveal_strlit("{\"ok\":true,\"text\":\"");
    reveal_strlit("\"}");
    reveal_strlit("ok");
    reveal_strlit("text");
    let p = "{\"ok\":true,\"text\":\""@;
    let q = "\"}"@;
    let e = escape_string(text);
    let n = e.len() as int;
    let s = spec_success_line(text);
    assert(p.len() == 19);
    assert(s.len() == 21 + n);
    assert(forall|k: int| 0 <= k < 19 ==> s[k] == p[k]);
    assert(forall|m: int| 0 <= m < n ==> s[19 + m] == e[m]);
    assert(s[19 + n] == q[0]);
    assert(s[20 + n] == q[1]);
    assert(s[0] == '{' && s[1] == '"' && s[2] == 'o' && s[3] == 'k' && s[4] == '"' && s[5] == ':'
        && s[6] == 't' && s[7] == 'r' && s[8] == 'u' && s[9] == 'e' && s[10] == ',' && s[11] == '"'
        && s[12] == 't' && s[13] == 'e' && s[14] == 'x' && s[15] == 't' && s[16] == '"' && s[17]
        == ':' && s[18] == '"');
    assert(s[19 + n] == '"' && s[20 + n] == '}');

    assert(skip_ws(s, 0) == 0);
    assert(skip_ws(s, 1) == 1);
    // first member: "ok": true
    lemma_escape_string_plain("ok"@);
    assert(s.subrange(2, 4) =~= "ok"@);
    lemma_parse_string_of_escaped(s, 2, "ok"@);
    assert(parse_string_body(s, 2) == Some(("ok"@, 5int)));
    assert(skip_ws(s, 5) == 5);
    assert(skip_ws(s, 6) == 6);
    assert(parse_value(s, 6) == Some((JsonValue::Bool(true), 10int)));
    let f1 = FieldsView { ok: Some(true), text: None, error: None };
    assert(apply_member(empty_fields(), "ok"@, JsonValue::Bool(true)) == Some(f1));
    assert(skip_ws(s, 10) == 10);
    assert(skip_ws(s, 11) == 11);
    // second member: "text": the escaped text
    lemma_escape_string_plain("text"@);
    assert(s.subrange(12, 16) =~= "text"@);
    lemma_parse_string_of_escaped(s, 12, "text"@);
    assert(parse_string_body(s, 12) == Some(("text"@, 17int)));
    assert(skip_ws(s, 17) == 17);
    assert(skip_ws(s, 18) == 18);
    assert(s.subrange(19, 19 + n) =~= e);
    lemma_parse_string_of_escaped(s, 19, text);
    assert(parse_string_body(s, 19) == Some((text, 20 + n)));
    assert(parse_value(s, 18) == Some((JsonValue::Str(text), 20 + n)));
    assert("text"@ != "ok"@);
    let f2 = FieldsView { ok: Some(true), text: Some(text), error: None };
    assert(apply_member(f1, "text"@, JsonValue::Str(text)) == Some(f2));
    assert(skip_ws(s, 20 + n) == 20 + n);
    assert(parse_members(s, 11, f1) == Some((f2, 21 + n)));
    assert(parse_members(s, 1, empty_fields()) == Some((f2, 21 + n)));
    assert(skip_ws(s, 21 + n) == 21 + n);
    assert(spec_parse_fields(s) == Some(f2));
}

/// A serialized error line parses back to exactly its message.
pub proof fn lemma_error_round_trip(message: Seq<char>)
    ensures
        spec_parse_response(spec_error_line(message)) == Some(
            ParsedView { ok: false, text: None, error: Some(message) },
        ),
{
    reveal_strlit("{\"ok\":false,\"error\":\"");
    reveal_strlit("\"}");
    reveal_strlit("ok");
    reveal_strlit("text");
    reveal_strlit("error");
    let p = "{\"ok\":false,\"error\":\""@;
    let q = "\"}"@;
    let e = escape_string(message);
    let n = e.len() as int;
    let s = spec_error_line(message);
    assert(p.len() == 21);
    assert(s.len() == 23 + n);
    assert(forall|k: int| 0 <= k < 21 ==> s[k] == p[k]);
    assert(forall|m: int| 0 <= m < n ==> s[21 + m] == e[m]);
    assert(s[21 + n] == q[0]);
    assert(s[22 + n] == q[1]);
    assert(s[0] == '{' && s[1] == '"' && s[2] == 'o' && s[3] == 'k' && s[4] == '"' && s[5] == ':'
        && s[6] == 'f' && s[7] == 'a' && s[8] == 'l' && s[9] == 's' && s[10] == 'e' && s[11] == ','
        && s[12] == '"' && s[13] == 'e' && s[14] == 'r' && s[15] == 'r' && s[16] == 'o' && s[17]
        == 'r' && s[18] == '"' && s[19] == ':' && s[20] == '"');
    assert(s[21 + n] == '"' && s[22 + n] == '}');

    assert(skip_ws(s, 0) == 0);
    assert(skip_ws(s, 1) == 1);
    // first member: "ok": false
    lemma_escape_string_plain("ok"@);
    assert(s.subrange(2, 4) =~= "ok"@);
    lemma_parse_string_of_escaped(s, 2, "ok"@);
    assert(parse_string_body(s, 2) == Some(("ok"@, 5int)));
    assert(skip_ws(s, 5) == 5);
    assert(skip_ws(s, 6) == 6);
    assert(parse_value(s, 6) == Some((JsonValue::Bool(false), 11int)));
    let f1 = FieldsView { ok: Some(false), text: None, error: None };
    assert(apply_member(empty_fields(), "ok"@, JsonValue::Bool(false)) == Some(f1));
    assert(skip_ws(s, 11) == 11);
    assert(skip_ws(s, 12) == 12);
    // second member: "error": the escaped message
    lemma_escape_string_plain("error"@);
    assert(s.subrange(13, 18) =~= "error"@);
    lemma_parse_string_of_escaped(s, 13, "error"@);
    assert(parse_string_body(s, 13) == Some(("error"@, 19int)));
    assert(skip_ws(s, 19) == 19);
    assert(skip_ws(s, 20) == 20);
    assert(s.subrange(21, 21 + n) =~= e);
    lemma_parse_string_of_escaped(s, 21, message);
    assert(parse_string_body(s, 21) == Some((message, 22 + n)));
    assert(parse_value(s, 20) == Some((JsonValue::Str(message), 22 + n)));
    assert("error"@ != "ok"@);
    assert("error"@ != "text"@);
    let f2 = FieldsView { ok: Some(false), text: None, error: Some(message) };
    assert(apply_member(f1, "error"@, JsonValue::Str(message)) == Some(f2));
    assert(skip_ws(s, 22 + n) == 22 + n);
    assert(parse_members(s, 12, f1) == Some((f2, 23 + n)));
    assert(parse_members(s, 1, empty_fields()) == Some((f2, 23 + n)));
    assert(skip_ws(s, 23 + n) == 23 + n);
    assert(spec_parse_fields(s) == Some(f2));
}

/// Serialization and parsing round-trip exactly: a success line comes
/// back as `ok` with its text present, an error line as not-`ok` with
/// its message present.
pub proof fn lemma_response_round_trip(r: ResponseView)
    ensures
        spec_parse_response(spec_response_line(r)) == Some(
            match r {
                ResponseView::Success { text } => ParsedView {
                    ok: true,
                    text: Some(text),
                    error: None,
                },
                ResponseView::Error { message } => ParsedView {
                    ok: false,
                    text: None,
                    error: Some(message),
                },
            },
        ),
{
    match r {
        ResponseView::Success { text } => lemma_success_round_trip(text),
        ResponseView::Error { message } => lemma_error_round_trip(message),
    }
}

} // verus!

//! The decisions of the language server: how client messages are classified and framed, which
//! notifications call for diagnostics, and how bpftrace's error output becomes diagnostics.
use vstd::prelude::*;

use crate::text::{
    append_decimal, chars_eq, lemma_encode_utf8_concat, join_ranges, line_ranges, parse_unsigned, range_pieces, spec_decimal,
    spec_join, spec_lines, spec_parse_unsigned, spec_split, spec_trim, split_ranges, str_chars,
    string_from_chars, trim_range, utf8_to_string,
};
use vstd::string::{StringExecFns, StringSliceAdditionalSpecFns};
use vstd::utf8::{decode_utf8, valid_utf8};

verus! {

broadcast use vstd::string::group_string_axioms;

pub const JSON_RPC_VERSION: &'static str = "2.0";

// ---------------------------------------------------------------------------------------------
// Messages
// ---------------------------------------------------------------------------------------------

/// The kind of a message from the client.
#[derive(Debug, Clone, Copy, PartialEq, Eq, Structural)]
pub enum LspMessageType {
    Request(u64),
    Response,
    Notification,
}

/// The kind of a message from its fields: with a numeric id it is a response when it carries a
/// result or an error, else a request; without one it is a notification.
pub open spec fn spec_classify_message(id: Option<u64>, result_is_null: bool, error_is_null: bool) -> LspMessageType {
    match id {
        Some(i) => if !result_is_null || !error_is_null {
            LspMessageType::Response
        } else {
            LspMessageType::Request(i)
        },
        None => LspMessageType::Notification,
    }
}

/// The kind of a message from its fields.
pub fn classify_message(id: Option<u64>, result_is_null: bool, error_is_null: bool) -> (r: LspMessageType)
    ensures
        r == spec_classify_message(id, result_is_null, error_is_null),
{
    match id {
        Some(i) => if !result_is_null || !error_is_null {
            LspMessageType::Response
        } else {
            LspMessageType::Request(i)
        },
        None => LspMessageType::Notification,
    }
}

/// A message framed for the wire: the `Content-Length` header, a blank line, the body and a
/// final line break, the length counting the body's bytes and that line break.
pub open spec fn spec_frame(body: Seq<char>, body_bytes: nat) -> Seq<char> {
    "Content-Length: "@ + spec_decimal(body_bytes + 2) + "\r\n\r\n"@ + body + "\r\n"@
}

/// Frames `body` for the wire.
pub fn frame_message(body: &str) -> (r: String)
    requires
        body.spec_bytes().len() + 2 <= u64::MAX,
    ensures
        r@ == spec_frame(body@, body.spec_bytes().len()),
{
    let n = body.as_bytes().len();
    let mut s = String::from_str("Content-Length: ");
    append_decimal(&mut s, n as u64 + 2);
    s.append("\r\n\r\n");
    s.append(body);
    s.append("\r\n");
    assert(s@ =~= spec_frame(body@, body.spec_bytes().len()));
    s
}

/// A framed message announces in its header exactly the number of UTF-8 bytes that follow the
/// blank line after it: the body and the final line break.
pub proof fn lemma_frame_announces_rest(body: Seq<char>)
    ensures
        spec_frame(body, vstd::utf8::encode_utf8(body).len()) == "Content-Length: "@ + spec_decimal(
            vstd::utf8::encode_utf8(body + "\r\n"@).len(),
        ) + "\r\n\r\n"@ + (body + "\r\n"@),
{
    reveal_strlit("\r\n");
    lemma_encode_utf8_concat(body, "\r\n"@);
    assert(vstd::utf8::is_ascii_chars("\r\n"@));
    vstd::utf8::is_ascii_chars_encode_utf8("\r\n"@);
    assert(vstd::utf8::encode_utf8(body + "\r\n"@).len() == vstd::utf8::encode_utf8(body).len() + 2);
    assert(spec_frame(body, vstd::utf8::encode_utf8(body).len()) =~= "Content-Length: "@ + spec_decimal(
        vstd::utf8::encode_utf8(body + "\r\n"@).len(),
    ) + "\r\n\r\n"@ + (body + "\r\n"@));
}

/// The length announced by a message header: the header past its first 16 bytes (the length of
/// `Content-Length: `), trimmed and read as a number. `Err(-1)` for a header shorter than that,
/// `Err(-2)` when no number follows.
pub open spec fn spec_content_length(header: Seq<u8>) -> Result<usize, i32> {
    if header.len() < 16 {
        Err(-1i32)
    } else {
        match spec_parse_unsigned(spec_trim(decode_utf8(header.skip(16))), 10, usize::MAX as nat) {
            Some(n) => Ok(n as usize),
            None => Err(-2i32),
        }
    }
}

/// Reads the length that a message header announces.
pub fn parse_content_length(header: &str) -> (r: Result<usize, i32>)
    requires
        header.spec_bytes().len() < 16 || vstd::utf8::is_char_boundary(header.spec_bytes(), 16),
    ensures
        r == spec_content_length(header.spec_bytes()),
{
    if header.as_bytes().len() < 16 {
        return Err(-1);
    }
    let (_, tail) = header.split_at(16);
    proof {
        vstd::utf8::encode_utf8_decode_utf8(tail@);
        assert(header.spec_bytes().skip(16) =~= tail.spec_bytes());
    }
    let chars = str_chars(tail);
    let (a, b) = trim_range(&chars, 0, chars.len());
    assert(chars@.subrange(0, chars@.len() as int) =~= chars@);
    match parse_unsigned(&chars, a, b, 10, usize::MAX as u64) {
        Some(n) => Ok(n as usize),
        None => Err(-2),
    }
}

/// The header line of a message announcing `n` bytes.
pub open spec fn spec_header_line(n: nat) -> Seq<char> {
    "Content-Length: "@ + spec_decimal(n) + "\r\n"@
}

/// The header line that the server writes is read back by its own header reader as the length it
/// announces: a framed message is its header line, a blank line, the body and a line break, and
/// reading that header line gives the number of bytes after the blank line.
pub proof fn lemma_frame_header_read_back(body: Seq<char>)
    requires
        vstd::utf8::encode_utf8(body).len() + 2 <= usize::MAX,
    ensures
        spec_frame(body, vstd::utf8::encode_utf8(body).len()) == spec_header_line(
            vstd::utf8::encode_utf8(body).len() + 2,
        ) + "\r\n"@ + body + "\r\n"@,
        spec_content_length(
            vstd::utf8::encode_utf8(spec_header_line(vstd::utf8::encode_utf8(body).len() + 2)),
        ) == Ok::<usize, i32>((vstd::utf8::encode_utf8(body).len() + 2) as usize),
{
    let n: nat = vstd::utf8::encode_utf8(body).len() + 2;
    let prefix = "Content-Length: "@;
    let crlf = "\r\n"@;
    let dec = spec_decimal(n);
    reveal_strlit("Content-Length: ");
    reveal_strlit("\r\n");
    reveal_strlit("\r\n\r\n");
    assert(spec_frame(body, vstd::utf8::encode_utf8(body).len()) =~= spec_header_line(n) + crlf + body + crlf);
    crate::text::lemma_decimal_digits(n);
    crate::text::lemma_parse_decimal(n, usize::MAX as nat);
    // The header line is ASCII, its bytes are its characters.
    let line = spec_header_line(n);
    assert(line =~= prefix + (dec + crlf));
    assert(vstd::utf8::is_ascii_chars(prefix));
    assert(vstd::utf8::is_ascii_chars(dec + crlf)) by {
        assert forall|i: int| 0 <= i < (dec + crlf).len() implies (#[trigger] (dec + crlf)[i]) as nat
            <= 0x7f by {
            if i < dec.len() {
                assert('0' <= dec[i] <= '9');
            }
        }
    }
    lemma_encode_utf8_concat(prefix, dec + crlf);
    vstd::utf8::is_ascii_chars_encode_utf8(prefix);
    let bytes = vstd::utf8::encode_utf8(line);
    assert(vstd::utf8::encode_utf8(prefix).len() == 16);
    assert(bytes.skip(16) =~= vstd::utf8::encode_utf8(dec + crlf));
    vstd::utf8::encode_utf8_decode_utf8(dec + crlf);
    // Trimming drops the line break and nothing else.
    assert(!crate::text::is_whitespace(dec[0]));
    assert(!crate::text::is_whitespace(dec.last()));
    assert(crate::text::spec_trim_start(dec + crlf) == dec + crlf);
    assert((dec + crlf).drop_last() =~= dec.push('\r'));
    assert(dec.push('\r').drop_last() =~= dec);
    assert(crate::text::spec_trim_end(dec + crlf) == crate::text::spec_trim_end(dec.push('\r')));
    assert(crate::text::spec_trim_end(dec.push('\r')) == crate::text::spec_trim_end(dec));
    assert(crate::text::spec_trim(dec + crlf) == dec);
}

/// What a notification from the client asks for.
#[derive(Debug, Clone, Copy, PartialEq, Eq, Structural)]
pub enum NotificationKind {
    /// A document was opened: store its text, then diagnose it.
    DidOpen,
    /// A document changed: store its new text, then diagnose it.
    DidChange,
    /// A document was saved: diagnose it.
    DidSave,
    /// The client is leaving.
    Exit,
    /// Anything else: nothing to do.
    Other,
}

/// What the notification `method` asks for.
pub open spec fn spec_notification_kind(method: Seq<char>) -> NotificationKind {
    if method == "textDocument/didOpen"@ {
        NotificationKind::DidOpen
    } else if method == "textDocument/didChange"@ {
        NotificationKind::DidChange
    } else if method == "textDocument/didSave"@ {
        NotificationKind::DidSave
    } else if method == "exit"@ {
        NotificationKind::Exit
    } else {
        NotificationKind::Other
    }
}

/// What the notification `method` asks for.
pub fn notification_kind(method: &str) -> (r: NotificationKind)
    ensures
        r == spec_notification_kind(method@),
{
    if crate::text::str_eq(method, "textDocument/didOpen") {
        NotificationKind::DidOpen
    } else if crate::text::str_eq(method, "textDocument/didChange") {
        NotificationKind::DidChange
    } else if crate::text::str_eq(method, "textDocument/didSave") {
        NotificationKind::DidSave
    } else if crate::text::str_eq(method, "exit") {
        NotificationKind::Exit
    } else {
        NotificationKind::Other
    }
}

/// The requests the server answers.
#[derive(Debug, Clone, Copy, PartialEq, Eq, Structural)]
pub enum RequestKind {
    Initialize,
    Shutdown,
    Hover,
    Definition,
    References,
    CodeAction,
    Completion,
    CompletionResolve,
    Unhandled,
}

/// Which request `method` is.
pub open spec fn spec_request_kind(method: Seq<char>) -> RequestKind {
    if method == "initialize"@ {
        RequestKind::Initialize
    } else if method == "shutdown"@ {
        RequestKind::Shutdown
    } else if method == "textDocument/hover"@ {
        RequestKind::Hover
    } else if method == "textDocument/definition"@ {
        RequestKind::Definition
    } else if method == "textDocument/references"@ {
        RequestKind::References
    } else if method == "textDocument/codeAction"@ {
        RequestKind::CodeAction
    } else if method == "textDocument/completion"@ {
        RequestKind::Completion
    } else if method == "completionItem/resolve"@ {
        RequestKind::CompletionResolve
    } else {
        RequestKind::Unhandled
    }
}

/// Which request `method` is.
pub fn request_kind(method: &str) -> (r: RequestKind)
    ensures
        r == spec_request_kind(method@),
{
    if crate::text::str_eq(method, "initialize") {
        RequestKind::Initialize
    } else if crate::text::str_eq(method, "shutdown") {
        RequestKind::Shutdown
    } else if crate::text::str_eq(method, "textDocument/hover") {
        RequestKind::Hover
    } else if crate::text::str_eq(method, "textDocument/definition") {
        RequestKind::Definition
    } else if crate::text::str_eq(method, "textDocument/references") {
        RequestKind::References
    } else if crate::text::str_eq(method, "textDocument/codeAction") {
        RequestKind::CodeAction
    } else if crate::text::str_eq(method, "textDocument/completion") {
        RequestKind::Completion
    } else if crate::text::str_eq(method, "completionItem/resolve") {
        RequestKind::CompletionResolve
    } else {
        RequestKind::Unhandled
    }
}

/// What the server does with a message from the client.
#[derive(Debug, Clone, Copy, PartialEq, Eq, Structural)]
pub enum ClientAction {
    /// Answer request `id`, which is of the given kind.
    Respond(u64, RequestKind),
    /// Act on a notification of the given kind.
    Notify(NotificationKind),
    /// Nothing: a response from the client.
    Ignore,
}

/// What the server does with a message of type `msg_type` and method `method`.
pub fn client_action(msg_type: LspMessageType, method: &str) -> (r: ClientAction)
    ensures
        r == match msg_type {
            LspMessageType::Request(id) => ClientAction::Respond(id, spec_request_kind(method@)),
            LspMessageType::Response => ClientAction::Ignore,
            LspMessageType::Notification => ClientAction::Notify(spec_notification_kind(method@)),
        },
{
    match msg_type {
        LspMessageType::Request(id) => ClientAction::Respond(id, request_kind(method)),
        LspMessageType::Response => ClientAction::Ignore,
        LspMessageType::Notification => ClientAction::Notify(notification_kind(method)),
    }
}

/// The server stops exactly on an `exit` notification: every other message leaves it running.
pub proof fn lemma_only_exit_stops(msg_type: LspMessageType, method: Seq<char>)
    ensures
        (match msg_type {
            LspMessageType::Request(id) => ClientAction::Respond(id, spec_request_kind(method)),
            LspMessageType::Response => ClientAction::Ignore,
            LspMessageType::Notification => ClientAction::Notify(spec_notification_kind(method)),
        } == ClientAction::Notify(NotificationKind::Exit)) <==> (msg_type == LspMessageType::Notification
            && method == "exit"@),
{
    reveal_strlit("exit");
    reveal_strlit("textDocument/didOpen");
    reveal_strlit("textDocument/didChange");
    reveal_strlit("textDocument/didSave");
    assert("exit"@.len() != "textDocument/didOpen"@.len());
    assert("exit"@.len() != "textDocument/didChange"@.len());
    assert("exit"@.len() != "textDocument/didSave"@.len());
}

// ---------------------------------------------------------------------------------------------
// Reading messages
// ---------------------------------------------------------------------------------------------

/// After this many failed reads the server stops reading.
pub const MAX_READ_ERRORS: u32 = 10;

/// The JSON-RPC error code of a message that is not JSON.
pub const PARSE_ERROR_CODE: i32 = -32700;

/// The body of the answer to a message that is not JSON: an error with the parse-error code and
/// no id.
pub open spec fn spec_parse_error_body() -> Seq<char> {
    "{\"jsonrpc\":\"2.0\",\"id\":null,\"error\":{\"code\":-32700,\"message\":\"Parse error\"}}"@
}

/// The framed answer to a message that is not JSON.
pub fn parse_error_message() -> (r: String)
    ensures
        r@ == spec_frame(spec_parse_error_body(), vstd::utf8::encode_utf8(spec_parse_error_body()).len()),
{
    let body = "{\"jsonrpc\":\"2.0\",\"id\":null,\"error\":{\"code\":-32700,\"message\":\"Parse error\"}}";
    proof {
        reveal_strlit("{\"jsonrpc\":\"2.0\",\"id\":null,\"error\":{\"code\":-32700,\"message\":\"Parse error\"}}");
        assert(vstd::utf8::is_ascii_chars(body@));
        vstd::utf8::is_ascii_chars_encode_utf8(body@);
    }
    frame_message(body)
}

/// What happened when the server tried to read one message.
#[derive(Debug, Clone, Copy, PartialEq, Eq, Structural)]
pub enum InputEvent {
    /// A message was read and is JSON: its type, and whether its method is `exit`.
    Parsed(LspMessageType, bool),
    /// A message was read but its body is not JSON.
    Unparsable,
    /// No message could be read.
    ReadFailed,
}

/// What the reading side does next.
#[derive(Debug, Clone, Copy, PartialEq, Eq, Structural)]
pub enum InputAction {
    /// Hand the message on and read the next one.
    Forward,
    /// Hand the message on and stop reading: it is the `exit` notification.
    ForwardAndStop,
    /// Answer with the parse error and read the next message.
    ReplyParseError,
    /// Read the next message.
    Continue,
    /// Stop reading: too many reads failed.
    Stop,
}

/// The reading side's next state, a count of failed reads, and its action.
pub open spec fn spec_input_step(read_errors: u32, event: InputEvent) -> (u32, InputAction) {
    match event {
        InputEvent::Parsed(t, is_exit) => (
            read_errors,
            if t == LspMessageType::Notification && is_exit {
                InputAction::ForwardAndStop
            } else {
                InputAction::Forward
            },
        ),
        InputEvent::Unparsable => (read_errors, InputAction::ReplyParseError),
        InputEvent::ReadFailed => if read_errors + 1 >= MAX_READ_ERRORS {
            (MAX_READ_ERRORS, InputAction::Stop)
        } else {
            ((read_errors + 1) as u32, InputAction::Continue)
        },
    }
}

/// One step of the reading side: from the number of failed reads so far and what the last read
/// gave, the new number and what to do.
pub fn input_step(read_errors: u32, event: InputEvent) -> (r: (u32, InputAction))
    ensures
        r == spec_input_step(read_errors, event),
{
    match event {
        InputEvent::Parsed(t, is_exit) => {
            let stop = match t {
                LspMessageType::Notification => is_exit,
                _ => false,
            };
            if stop {
                (read_errors, InputAction::ForwardAndStop)
            } else {
                (read_errors, InputAction::Forward)
            }
        },
        InputEvent::Unparsable => (read_errors, InputAction::ReplyParseError),
        InputEvent::ReadFailed => if read_errors >= MAX_READ_ERRORS - 1 {
            (MAX_READ_ERRORS, InputAction::Stop)
        } else {
            (read_errors + 1, InputAction::Continue)
        },
    }
}

/// A message that is not JSON is answered with the parse error, leaves the count of failed reads
/// as it was, and the server reads on.
pub proof fn lemma_unparsable_is_answered(read_errors: u32)
    ensures
        spec_input_step(read_errors, InputEvent::Unparsable) == (read_errors, InputAction::ReplyParseError),
{
}

/// The count of failed reads after `n` failures in a row from `read_errors`, or `None` once the
/// reading side has stopped.
pub open spec fn spec_after_failures(read_errors: u32, n: nat) -> Option<u32>
    decreases n,
{
    if n == 0 {
        Some(read_errors)
    } else {
        match spec_after_failures(read_errors, (n - 1) as nat) {
            None => None,
            Some(c) => {
                let (next, action) = spec_input_step(c, InputEvent::ReadFailed);
                if action == InputAction::Stop {
                    None
                } else {
                    Some(next)
                }
            },
        }
    }
}

/// From a fresh start, the reading side survives `n` failed reads in a row exactly when `n` is
/// less than `MAX_READ_ERRORS`, and has then counted `n` of them.
pub proof fn lemma_stops_after_max_failures(n: nat)
    ensures
        spec_after_failures(0, n) == (if n < MAX_READ_ERRORS {
            Some(n as u32)
        } else {
            None::<u32>
        }),
    decreases n,
{
    if n > 0 {
        lemma_stops_after_max_failures((n - 1) as nat);
    }
}

/// The text that the code action puts at the start of line `start_line`: its number and `": "`.
pub fn code_action_text(start_line: u64) -> (r: String)
    ensures
        r@ == spec_decimal(start_line as nat) + ": "@,
{
    let mut s = String::new();
    append_decimal(&mut s, start_line);
    s.append(": ");
    assert(s@ =~= spec_decimal(start_line as nat) + ": "@);
    s
}

// ---------------------------------------------------------------------------------------------
// Diagnostics from bpftrace's error output
// ---------------------------------------------------------------------------------------------

/// A diagnostic: a range of lines and characters (counted from 0), a severity (1 for an error,
/// 2 for a warning) and a message.
#[derive(Debug)]
pub struct Diagnostic {
    pub start_line: usize,
    pub start_character: usize,
    pub end_line: usize,
    pub end_character: usize,
    pub severity: u32,
    pub message: String,
}

/// A diagnostic as plain values.
pub struct DiagnosticView {
    pub start_line: usize,
    pub start_character: usize,
    pub end_line: usize,
    pub end_character: usize,
    pub severity: u32,
    pub message: Seq<char>,
}

impl View for Diagnostic {
    type V = DiagnosticView;

    open spec fn view(&self) -> DiagnosticView {
        DiagnosticView {
            start_line: self.start_line,
            start_character: self.start_character,
            end_line: self.end_line,
            end_character: self.end_character,
            severity: self.severity,
            message: self.message@,
        }
    }
}

/// The views of a sequence of diagnostics.
pub open spec fn diagnostics_view(v: Seq<Diagnostic>) -> Seq<DiagnosticView> {
    v.map_values(|d: Diagnostic| d@)
}

/// What one line of bpftrace's error output gives.
pub enum DiagLine {
    /// Nothing: the line is no diagnostic, or its numbers do not parse.
    Skip,
    /// A diagnostic.
    Diag(DiagnosticView),
    /// The line has a number where a range of numbers is expected, or lacks the message word;
    /// reading it fails.
    Malformed,
}

/// A line number of bpftrace (counted from 1) as a line number of the client (counted from 0).
pub open spec fn zero_based(n: nat) -> nat {
    if n > 1 {
        (n - 1) as nat
    } else {
        n
    }
}

/// The severity of a diagnostic whose level word is `word`.
pub open spec fn severity_of(word: Seq<char>) -> u32 {
    if spec_trim(word) == "ERROR"@ {
        1
    } else {
        2
    }
}

/// `s` read as a `usize`.
pub open spec fn parse_usize(s: Seq<char>) -> Option<nat> {
    spec_parse_unsigned(s, 10, usize::MAX as nat)
}

/// The tokens from `from` on joined with `:`, or nothing when there are no more than `from`.
pub open spec fn tail_from(tokens: Seq<Seq<char>>, from: int) -> Seq<char> {
    if tokens.len() > from {
        spec_join(tokens.skip(from), ":"@)
    } else {
        Seq::<char>::empty()
    }
}

/// A single-line error such as `stdin:6:60-69: ERROR: message`, on line `line_nr`.
pub open spec fn spec_single_line_error(line_nr: nat, tokens: Seq<Seq<char>>) -> DiagLine {
    let chars = spec_split(tokens[2], '-');
    match parse_usize(chars[0]) {
        None => DiagLine::Skip,
        Some(start) => if chars.len() < 2 {
            DiagLine::Malformed
        } else {
            match parse_usize(chars[1]) {
                None => DiagLine::Skip,
                Some(end) => if tokens.len() < 4 {
                    DiagLine::Malformed
                } else {
                    let ln = zero_based(line_nr) as usize;
                    DiagLine::Diag(
                        DiagnosticView {
                            start_line: ln,
                            start_character: start as usize,
                            end_line: ln,
                            end_character: end as usize,
                            severity: severity_of(tokens[3]),
                            message: tokens[3] + ":"@ + tail_from(tokens, 4),
                        },
                    )
                },
            }
        },
    }
}

/// An error over a range of lines such as `stdin:2-4: ERROR: message`: it starts on the first
/// line of the range and ends on the last.
pub open spec fn spec_multi_line_error(tokens: Seq<Seq<char>>) -> DiagLine {
    let start_and_end = spec_split(tokens[1], '-');
    match parse_usize(start_and_end[0]) {
        None => DiagLine::Skip,
        Some(s) => if start_and_end.len() < 2 {
            DiagLine::Malformed
        } else {
            match parse_usize(start_and_end[1]) {
                None => DiagLine::Skip,
                Some(e) => DiagLine::Diag(
                    DiagnosticView {
                        start_line: zero_based(s) as usize,
                        start_character: 0,
                        end_line: zero_based(e) as usize,
                        end_character: 0,
                        severity: severity_of(tokens[2]),
                        message: tokens[2] + ":"@ + tail_from(tokens, 3),
                    },
                ),
            }
        },
    }
}

/// An error in the definitions such as `definitions.h:10:18: error: message`: the character
/// before the given column.
pub open spec fn spec_definitions_error(tokens: Seq<Seq<char>>) -> DiagLine {
    match parse_usize(tokens[1]) {
        None => DiagLine::Skip,
        Some(n) => match parse_usize(tokens[2]) {
            None => DiagLine::Skip,
            Some(e) => {
                let ln = zero_based(n) as usize;
                DiagLine::Diag(
                    DiagnosticView {
                        start_line: ln,
                        start_character: (if e > 0 {
                            e - 1
                        } else {
                            e as int
                        }) as usize,
                        end_line: ln,
                        end_character: e as usize,
                        severity: 1,
                        message: "ERROR:"@ + tail_from(tokens, 4),
                    },
                )
            },
        },
    }
}

/// What one line of bpftrace's error output gives: lines are cut at `:`; those from `stdin` are
/// errors in the program, those from `definitions.h` errors in its definitions.
#[verifier::opaque]
pub open spec fn spec_diag_line(line: Seq<char>) -> DiagLine {
    let tokens = spec_split(line, ':');
    if tokens.len() < 3 {
        DiagLine::Skip
    } else if tokens[0] == "stdin"@ {
        match parse_usize(tokens[1]) {
            Some(n) => spec_single_line_error(n, tokens),
            None => spec_multi_line_error(tokens),
        }
    } else if tokens[0] == "definitions.h"@ {
        spec_definitions_error(tokens)
    } else {
        DiagLine::Skip
    }
}

/// The diagnostics of `lines` from line `i` on, appended to `acc`; `None` when a line is
/// malformed.
pub open spec fn spec_collect_diagnostics(lines: Seq<Seq<char>>, i: int, acc: Seq<DiagnosticView>) -> Option<
    Seq<DiagnosticView>,
>
    decreases lines.len() - i,
{
    if i < 0 || i >= lines.len() {
        Some(acc)
    } else {
        match spec_diag_line(lines[i]) {
            DiagLine::Malformed => None,
            DiagLine::Skip => spec_collect_diagnostics(lines, i + 1, acc),
            DiagLine::Diag(d) => spec_collect_diagnostics(lines, i + 1, acc.push(d)),
        }
    }
}

/// The diagnostics in bpftrace's error output `stderr`: none when it is not UTF-8, else those of
/// its lines; `None` when a line is malformed.
pub open spec fn spec_bpftrace_diagnostics(stderr: Seq<u8>) -> Option<Seq<DiagnosticView>> {
    if !valid_utf8(stderr) {
        Some(Seq::empty())
    } else {
        spec_collect_diagnostics(spec_lines(decode_utf8(stderr)), 0, Seq::empty())
    }
}

/// Diagnostics already collected, and those that follow: `None` when either is `None`.
pub open spec fn join_diagnostics(a: Option<Seq<DiagnosticView>>, b: Option<Seq<DiagnosticView>>) -> Option<
    Seq<DiagnosticView>,
> {
    match (a, b) {
        (Some(x), Some(y)) => Some(x + y),
        _ => None,
    }
}

proof fn lemma_collect_acc(lines: Seq<Seq<char>>, i: int, acc: Seq<DiagnosticView>)
    requires
        0 <= i,
    ensures
        spec_collect_diagnostics(lines, i, acc) == join_diagnostics(
            Some(acc),
            spec_collect_diagnostics(lines, i, Seq::empty()),
        ),
    decreases lines.len() - i,
{
    if i >= lines.len() {
        assert(acc + Seq::<DiagnosticView>::empty() =~= acc);
    } else {
        match spec_diag_line(lines[i]) {
            DiagLine::Malformed => {},
            DiagLine::Skip => {
                lemma_collect_acc(lines, i + 1, acc);
                lemma_collect_acc(lines, i + 1, Seq::empty());
            },
            DiagLine::Diag(d) => {
                lemma_collect_acc(lines, i + 1, acc.push(d));
                lemma_collect_acc(lines, i + 1, Seq::<DiagnosticView>::empty().push(d));
                if let Some(rest) = spec_collect_diagnostics(lines, i + 1, Seq::empty()) {
                    assert(acc.push(d) + rest =~= acc + (Seq::<DiagnosticView>::empty().push(d) + rest));
                }
            },
        }
    }
}

proof fn lemma_collect_shift(a: Seq<Seq<char>>, b: Seq<Seq<char>>, j: int, acc: Seq<DiagnosticView>)
    requires
        0 <= j,
    ensures
        spec_collect_diagnostics(a + b, a.len() + j, acc) == spec_collect_diagnostics(b, j, acc),
    decreases b.len() - j,
{
    if j < b.len() {
        assert((a + b)[a.len() + j] == b[j]);
        match spec_diag_line(b[j]) {
            DiagLine::Malformed => {},
            DiagLine::Skip => lemma_collect_shift(a, b, j + 1, acc),
            DiagLine::Diag(d) => lemma_collect_shift(a, b, j + 1, acc.push(d)),
        }
    }
}

proof fn lemma_collect_prefix(a: Seq<Seq<char>>, b: Seq<Seq<char>>, i: int, acc: Seq<DiagnosticView>)
    requires
        0 <= i <= a.len(),
    ensures
        spec_collect_diagnostics(a + b, i, acc) == match spec_collect_diagnostics(a, i, acc) {
            None => None,
            Some(x) => spec_collect_diagnostics(b, 0, x),
        },
    decreases a.len() - i,
{
    if i == a.len() {
        lemma_collect_shift(a, b, 0, acc);
    } else {
        assert((a + b)[i] == a[i]);
        match spec_diag_line(a[i]) {
            DiagLine::Malformed => {},
            DiagLine::Skip => lemma_collect_prefix(a, b, i + 1, acc),
            DiagLine::Diag(d) => lemma_collect_prefix(a, b, i + 1, acc.push(d)),
        }
    }
}

/// The diagnostics of the lines `a` followed by the lines `b` are those of `a` followed by those
/// of `b`; a malformed line in either makes the whole `None`.
pub proof fn lemma_diagnostics_of_joined_lines(a: Seq<Seq<char>>, b: Seq<Seq<char>>)
    ensures
        spec_collect_diagnostics(a + b, 0, Seq::empty()) == join_diagnostics(
            spec_collect_diagnostics(a, 0, Seq::empty()),
            spec_collect_diagnostics(b, 0, Seq::empty()),
        ),
{
    lemma_collect_prefix(a, b, 0, Seq::empty());
    if let Some(x) = spec_collect_diagnostics(a, 0, Seq::empty()) {
        lemma_collect_acc(b, 0, x);
    }
}

/// The diagnostics of two error outputs joined after a line break are those of the first
/// followed by those of the second: one diagnostic for each diagnostic line, in line order.
pub proof fn lemma_diagnostics_of_joined_outputs(t1: Seq<char>, t2: Seq<char>)
    requires
        t1.len() == 0 || t1.last() == '\n',
    ensures
        spec_bpftrace_diagnostics(vstd::utf8::encode_utf8(t1 + t2)) == join_diagnostics(
            spec_bpftrace_diagnostics(vstd::utf8::encode_utf8(t1)),
            spec_bpftrace_diagnostics(vstd::utf8::encode_utf8(t2)),
        ),
{
    vstd::utf8::encode_utf8_valid_utf8(t1 + t2);
    vstd::utf8::encode_utf8_valid_utf8(t1);
    vstd::utf8::encode_utf8_valid_utf8(t2);
    vstd::utf8::encode_utf8_decode_utf8(t1 + t2);
    vstd::utf8::encode_utf8_decode_utf8(t1);
    vstd::utf8::encode_utf8_decode_utf8(t2);
    crate::text::lemma_lines_concat(t1, t2);
    lemma_diagnostics_of_joined_lines(crate::text::spec_lines(t1), crate::text::spec_lines(t2));
}

/// An error output of one line, ended by a line break, gives that line's diagnostic, nothing
/// for a line that is no diagnostic, and `None` for a malformed line.
pub proof fn lemma_diagnostics_of_one_line(l: Seq<char>)
    requires
        forall|k: int| 0 <= k < l.len() ==> l[k] != '\n',
        l.len() == 0 || l.last() != '\r',
    ensures
        spec_bpftrace_diagnostics(vstd::utf8::encode_utf8(l.push('\n'))) == match spec_diag_line(l) {
            DiagLine::Malformed => None,
            DiagLine::Skip => Some(Seq::<DiagnosticView>::empty()),
            DiagLine::Diag(d) => Some(seq![d]),
        },
{
    let t = l.push('\n');
    vstd::utf8::encode_utf8_valid_utf8(t);
    vstd::utf8::encode_utf8_decode_utf8(t);
    crate::text::lemma_lines_single(l);
    let ls = seq![l];
    assert(ls[0] == l);
    assert(spec_lines(decode_utf8(vstd::utf8::encode_utf8(t))) == ls);
    match spec_diag_line(l) {
        DiagLine::Malformed => {
            assert(spec_collect_diagnostics(ls, 0, Seq::empty()) is None);
        },
        DiagLine::Skip => {
            assert(spec_collect_diagnostics(ls, 1, Seq::empty()) == Some(Seq::<DiagnosticView>::empty()));
            assert(spec_collect_diagnostics(ls, 0, Seq::empty()) == Some(Seq::<DiagnosticView>::empty()));
        },
        DiagLine::Diag(d) => {
            let one = Seq::<DiagnosticView>::empty().push(d);
            assert(one =~= seq![d]);
            assert(spec_collect_diagnostics(ls, 1, one) == Some(one));
            assert(spec_collect_diagnostics(ls, 0, Seq::empty()) == Some(one));
        },
    }
}

/// Whether `v[a..b]` reads `ERROR` once trimmed.
fn is_error_word(v: &Vec<char>, a: usize, b: usize) -> (r: bool)
    requires
        a <= b <= v@.len(),
    ensures
        r == (spec_trim(v@.subrange(a as int, b as int)) == "ERROR"@),
{
    let (ta, tb) = trim_range(v, a, b);
    let word = str_chars("ERROR");
    chars_eq(v, ta, tb, &word)
}

fn parse_usize_range(v: &Vec<char>, a: usize, b: usize) -> (r: Option<usize>)
    requires
        a <= b <= v@.len(),
    ensures
        match r {
            Some(n) => parse_usize(v@.subrange(a as int, b as int)) == Some(n as nat),
            None => parse_usize(v@.subrange(a as int, b as int)) is None,
        },
{
    match parse_unsigned(v, a, b, 10, usize::MAX as u64) {
        Some(n) => Some(n as usize),
        None => None,
    }
}

/// The message of a diagnostic: the level word `tokens[word]`, `:`, and the tokens after the one
/// at `from` joined with `:`.
fn diag_message(v: &Vec<char>, tokens: &Vec<(usize, usize)>, word: usize, from: usize) -> (r: String)
    requires
        word < tokens@.len(),
        forall|k: int| 0 <= k < tokens@.len() ==> (#[trigger] tokens@[k]).0 <= tokens@[k].1 <= v@.len(),
    ensures
        r@ == range_pieces(v@, tokens@)[word as int] + ":"@ + tail_from(range_pieces(v@, tokens@), from as int),
{
    let (a, b) = tokens[word];
    let mut m = string_from_chars(v, a, b);
    m.append(":");
    if tokens.len() > from {
        let t = join_ranges(v, tokens, from, ":");
        m.append(t.as_str());
    }
    assert(m@ =~= range_pieces(v@, tokens@)[word as int] + ":"@ + tail_from(range_pieces(v@, tokens@), from as int));
    m
}

/// The diagnostic of the line `v[a..b]`.
fn diag_line(v: &Vec<char>, a: usize, b: usize) -> (r: Option<Option<Diagnostic>>)
    requires
        a <= b <= v@.len(),
    ensures
        match spec_diag_line(v@.subrange(a as int, b as int)) {
            DiagLine::Malformed => r is None,
            DiagLine::Skip => r == Some(None::<Diagnostic>),
            DiagLine::Diag(d) => r matches Some(Some(x)) && x@ == d,
        },
{
    proof {
        reveal(spec_diag_line);
        reveal_strlit("stdin");
        reveal_strlit("definitions.h");
    }
    let tokens = split_ranges(v, a, b, ':');
    let ghost toks = spec_split(v@.subrange(a as int, b as int), ':');
    assert(range_pieces(v@, tokens@) =~= toks);
    if tokens.len() < 3 {
        return Some(None);
    }
    let (t0a, t0b) = tokens[0];
    let (t1a, t1b) = tokens[1];
    let (t2a, t2b) = tokens[2];
    assert(toks[0] == v@.subrange(t0a as int, t0b as int));
    assert(toks[1] == v@.subrange(t1a as int, t1b as int));
    assert(toks[2] == v@.subrange(t2a as int, t2b as int));
    if chars_eq(v, t0a, t0b, &str_chars("stdin")) {
        match parse_usize_range(v, t1a, t1b) {
            Some(line_nr) => {
                // A single-line error.
                let chars = split_ranges(v, t2a, t2b, '-');
                proof {
                    crate::text::lemma_split_nonempty(v@.subrange(t2a as int, t2b as int), '-');
                }
                let (c0a, c0b) = chars[0];
                let start = match parse_usize_range(v, c0a, c0b) {
                    Some(n) => n,
                    None => {
                        return Some(None);
                    },
                };
                if chars.len() < 2 {
                    return None;
                }
                let (c1a, c1b) = chars[1];
                let end = match parse_usize_range(v, c1a, c1b) {
                    Some(n) => n,
                    None => {
                        return Some(None);
                    },
                };
                if tokens.len() < 4 {
                    return None;
                }
                let ln = if line_nr > 1 {
                    line_nr - 1
                } else {
                    line_nr
                };
                let (t3a, t3b) = tokens[3];
                assert(toks[3] == v@.subrange(t3a as int, t3b as int));
                let severity = if is_error_word(v, t3a, t3b) {
                    1
                } else {
                    2
                };
                let message = diag_message(v, &tokens, 3, 4);
                Some(
                    Some(
                        Diagnostic {
                            start_line: ln,
                            start_character: start,
                            end_line: ln,
                            end_character: end,
                            severity,
                            message,
                        },
                    ),
                )
            },
            None => {
                // An error over a range of lines.
                let start_and_end = split_ranges(v, t1a, t1b, '-');
                proof {
                    crate::text::lemma_split_nonempty(v@.subrange(t1a as int, t1b as int), '-');
                }
                let (s0a, s0b) = start_and_end[0];
                let first = match parse_usize_range(v, s0a, s0b) {
                    Some(n) => n,
                    None => {
                        return Some(None);
                    },
                };
                if start_and_end.len() < 2 {
                    return None;
                }
                let (s1a, s1b) = start_and_end[1];
                let last = match parse_usize_range(v, s1a, s1b) {
                    Some(n) => n,
                    None => {
                        return Some(None);
                    },
                };
                let start_line = if first > 1 {
                    first - 1
                } else {
                    first
                };
                let end_line = if last > 1 {
                    last - 1
                } else {
                    last
                };
                let severity = if is_error_word(v, t2a, t2b) {
                    1
                } else {
                    2
                };
                let message = diag_message(v, &tokens, 2, 3);
                Some(
                    Some(
                        Diagnostic {
                            start_line,
                            start_character: 0,
                            end_line,
                            end_character: 0,
                            severity,
                            message,
                        },
                    ),
                )
            },
        }
    } else if chars_eq(v, t0a, t0b, &str_chars("definitions.h")) {
        let n = match parse_usize_range(v, t1a, t1b) {
            Some(n) => n,
            None => {
                return Some(None);
            },
        };
        let e = match parse_usize_range(v, t2a, t2b) {
            Some(e) => e,
            None => {
                return Some(None);
            },
        };
        let ln = if n > 1 {
            n - 1
        } else {
            n
        };
        let start = if e > 0 {
            e - 1
        } else {
            e
        };
        let mut message = String::from_str("ERROR:");
        if tokens.len() > 4 {
            let t = join_ranges(v, &tokens, 4, ":");
            message.append(t.as_str());
        }
        assert(message@ =~= "ERROR:"@ + tail_from(toks, 4));
        Some(
            Some(
                Diagnostic {
                    start_line: ln,
                    start_character: start,
                    end_line: ln,
                    end_character: e,
                    severity: 1,
                    message,
                },
            ),
        )
    } else {
        Some(None)
    }
}

/// The diagnostics in bpftrace's error output `stderr`. `None` when a line of it is malformed:
/// one that names a range where a number is expected, or lacks its level word.
pub fn do_bpftrace_diagnostics(stderr: &[u8]) -> (r: Option<Vec<Diagnostic>>)
    ensures
        match r {
            Some(v) => spec_bpftrace_diagnostics(stderr@) == Some(diagnostics_view(v@)),
            None => spec_bpftrace_diagnostics(stderr@) is None,
        },
{
    let mut diagnostics: Vec<Diagnostic> = Vec::new();
    let text = match utf8_to_string(stderr) {
        Some(t) => t,
        None => {
            assert(diagnostics_view(diagnostics@) =~= Seq::<DiagnosticView>::empty());
            return Some(diagnostics);
        },
    };
    let chars = str_chars(text.as_str());
    let lines = line_ranges(&chars);
    let ghost ls = spec_lines(chars@);
    let mut i: usize = 0;
    assert(diagnostics_view(diagnostics@) =~= Seq::<DiagnosticView>::empty());
    while i < lines.len()
        invariant
            i <= lines@.len(),
            valid_utf8(stderr@),
            chars@ == decode_utf8(stderr@),
            ls == spec_lines(chars@),
            lines@.len() == ls.len(),
            forall|k: int|
                0 <= k < lines@.len() ==> {
                    &&& (#[trigger] lines@[k]).0 <= lines@[k].1 <= chars@.len()
                    &&& chars@.subrange(lines@[k].0 as int, lines@[k].1 as int) == ls[k]
                },
            spec_collect_diagnostics(ls, 0, Seq::empty()) == spec_collect_diagnostics(
                ls,
                i as int,
                diagnostics_view(diagnostics@),
            ),
        decreases lines.len() - i,
    {
        let (a, b) = lines[i];
        assert(chars@.subrange(a as int, b as int) == ls[i as int]);
        match diag_line(&chars, a, b) {
            None => {
                assert(spec_collect_diagnostics(ls, i as int, diagnostics_view(diagnostics@)) is None);
                return None;
            },
            Some(None) => {},
            Some(Some(d)) => {
                let ghost before = diagnostics_view(diagnostics@);
                diagnostics.push(d);
                assert(diagnostics_view(diagnostics@) =~= before.push(d@));
            },
        }
        i = i + 1;
    }
    Some(diagnostics)
}

} // verus!

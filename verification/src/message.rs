//! What the server reads of each message from the client, and what a notification does to the
//! documents it keeps.
use vstd::prelude::*;

use crate::documents::{spec_set, DocumentsData, TextDocumentView};
use crate::server::{
    classify_message, notification_kind, spec_classify_message, spec_notification_kind, InputEvent,
    NotificationKind,
};
use crate::text::str_eq;
use json::parse;
use vstd::string::StringExecFns;

verus! {

broadcast use vstd::string::group_string_axioms;

/// The fields of a client message that the server reads. A string field holds the field's JSON
/// text when the field is not a string (`null` when it is absent); a number field is `None` when
/// the field is not a number of that type.
#[derive(Debug)]
pub struct MessageHead {
    /// `id`.
    pub id: Option<u64>,
    /// Whether `result` is absent or null.
    pub result_is_null: bool,
    /// Whether `error` is absent or null.
    pub error_is_null: bool,
    /// `method`.
    pub method: String,
    /// `params.textDocument.uri`.
    pub uri: String,
    /// `params.textDocument.text`.
    pub text: String,
    /// `params.textDocument.version`.
    pub version: Option<u64>,
    /// `params.contentChanges[0].text`.
    pub change_text: String,
    /// `params.position.line` and `params.position.character`.
    pub line: Option<usize>,
    pub character: Option<usize>,
    /// `params.range.start` and `params.range.end`, their `line` and `character`.
    pub start_line: Option<u64>,
    pub start_character: Option<u64>,
    pub end_line: Option<u64>,
    pub end_character: Option<u64>,
}

/// The fields of a client message as plain values.
pub struct MessageHeadView {
    pub id: Option<u64>,
    pub result_is_null: bool,
    pub error_is_null: bool,
    pub method: Seq<char>,
    pub uri: Seq<char>,
    pub text: Seq<char>,
    pub version: Option<u64>,
    pub change_text: Seq<char>,
    pub line: Option<usize>,
    pub character: Option<usize>,
    pub start_line: Option<u64>,
    pub start_character: Option<u64>,
    pub end_line: Option<u64>,
    pub end_character: Option<u64>,
}

impl View for MessageHead {
    type V = MessageHeadView;

    open spec fn view(&self) -> MessageHeadView {
        MessageHeadView {
            id: self.id,
            result_is_null: self.result_is_null,
            error_is_null: self.error_is_null,
            method: self.method@,
            uri: self.uri@,
            text: self.text@,
            version: self.version,
            change_text: self.change_text@,
            line: self.line,
            character: self.character,
            start_line: self.start_line,
            start_character: self.start_character,
            end_line: self.end_line,
            end_character: self.end_character,
        }
    }
}

/// The fields read from the message text `body` parsed as JSON by the `json` crate, or `None`
/// when it is not JSON.
pub uninterp spec fn spec_json_message(body: Seq<char>) -> Option<MessageHeadView>;

/// Parses `body` as JSON and reads the fields the server uses.
///
/// Wraps `json::parse`, then the crate's indexing, `as_u64`, `as_usize`, `is_null` and
/// `to_string` on the parsed value. The result is named `spec_json_message`, a function of the
/// text alone; `None` stands for the parser's error. Nothing more is claimed of it.
#[verifier::external_body]
fn json_message(body: &str) -> (r: Option<MessageHead>)
    ensures
        match r {
            Some(h) => spec_json_message(body@) == Some(h@),
            None => spec_json_message(body@) is None,
        },
{
    let v = parse(body).ok()?;
    let p = &v["params"];
    let d = &p["textDocument"];
    let r = &p["range"];
    Some(MessageHead {
        id: v["id"].as_u64(), result_is_null: v["result"].is_null(), error_is_null: v["error"].is_null(),
        method: v["method"].to_string(), uri: d["uri"].to_string(), text: d["text"].to_string(),
        version: d["version"].as_u64(), change_text: p["contentChanges"][0]["text"].to_string(),
        line: p["position"]["line"].as_usize(), character: p["position"]["character"].as_usize(),
        start_line: r["start"]["line"].as_u64(), start_character: r["start"]["character"].as_u64(),
        end_line: r["end"]["line"].as_u64(), end_character: r["end"]["character"].as_u64(),
    })
}

/// What reading a parsed message gives: its type, and whether its method is `exit`.
pub open spec fn spec_message_event(h: MessageHeadView) -> InputEvent {
    InputEvent::Parsed(spec_classify_message(h.id, h.result_is_null, h.error_is_null), h.method == "exit"@)
}

/// What reading the parsed message `head` gives.
pub fn message_event(head: &MessageHead) -> (r: InputEvent)
    ensures
        r == spec_message_event(head@),
{
    let t = classify_message(head.id, head.result_is_null, head.error_is_null);
    InputEvent::Parsed(t, str_eq(head.method.as_str(), "exit"))
}

/// Reads the message text `body`: unparsable when it is not JSON, else the message's type and
/// whether it is `exit`, with the fields the server uses.
pub fn decode_message(body: &str) -> (r: (InputEvent, Option<MessageHead>))
    ensures
        match spec_json_message(body@) {
            None => r.0 == InputEvent::Unparsable && r.1 is None,
            Some(h) => r.0 == spec_message_event(h) && (r.1 matches Some(m) && m@ == h),
        },
{
    match json_message(body) {
        None => (InputEvent::Unparsable, None),
        Some(head) => (message_event(&head), Some(head)),
    }
}

/// What the server does after a notification.
#[derive(Debug, PartialEq, Eq)]
pub enum NotificationAction {
    /// Nothing.
    Nothing,
    /// Stop.
    Exit,
    /// Diagnose the document with this URI.
    SendDiagnostics(String),
}

/// What a notification does to the documents `docs` and what follows: an opened document is
/// stored with its text and version (0 when there is none), a changed one with the text of its
/// first change, and either is then diagnosed, as is a saved one; `exit` stops the server;
/// anything else does nothing.
pub open spec fn spec_notification_effect(docs: Map<Seq<char>, TextDocumentView>, h: MessageHeadView) -> (
    Map<Seq<char>, TextDocumentView>,
    Option<Option<Seq<char>>>,
) {
    let version = match h.version {
        Some(v) => v,
        None => 0u64,
    };
    match spec_notification_kind(h.method) {
        NotificationKind::DidOpen => (spec_set(docs, h.uri, h.text, version), Some(Some(h.uri))),
        NotificationKind::DidChange => (spec_set(docs, h.uri, h.change_text, version), Some(Some(h.uri))),
        NotificationKind::DidSave => (docs, Some(Some(h.uri))),
        NotificationKind::Exit => (docs, Some(None)),
        NotificationKind::Other => (docs, None),
    }
}

/// The action as plain values: `None` for nothing, `Some(None)` to stop, `Some(Some(uri))` to
/// diagnose `uri`.
pub open spec fn action_view(a: NotificationAction) -> Option<Option<Seq<char>>> {
    match a {
        NotificationAction::Nothing => None,
        NotificationAction::Exit => Some(None),
        NotificationAction::SendDiagnostics(u) => Some(Some(u@)),
    }
}

/// Acts on the notification `head`.
pub fn handle_notification(docs: &mut DocumentsData, head: &MessageHead) -> (r: NotificationAction)
    ensures
        (final(docs)@, action_view(r)) == spec_notification_effect(old(docs)@, head@),
{
    let version = match head.version {
        Some(v) => v,
        None => 0,
    };
    match notification_kind(head.method.as_str()) {
        NotificationKind::DidOpen => {
            docs.set(String::from_str(head.uri.as_str()), String::from_str(head.text.as_str()), version);
            NotificationAction::SendDiagnostics(String::from_str(head.uri.as_str()))
        },
        NotificationKind::DidChange => {
            docs.set(
                String::from_str(head.uri.as_str()),
                String::from_str(head.change_text.as_str()),
                version,
            );
            NotificationAction::SendDiagnostics(String::from_str(head.uri.as_str()))
        },
        NotificationKind::DidSave => NotificationAction::SendDiagnostics(String::from_str(head.uri.as_str())),
        NotificationKind::Exit => NotificationAction::Exit,
        NotificationKind::Other => NotificationAction::Nothing,
    }
}

/// The document and the position in it that a request is about; a position that is no number
/// counts as 0.
pub fn unpack_text_document_info(head: &MessageHead) -> (r: (String, usize, usize))
    ensures
        r.0@ == head.uri@,
        r.1 == match head.line {
            Some(l) => l,
            None => 0,
        },
        r.2 == match head.character {
            Some(c) => c,
            None => 0,
        },
{
    let line = match head.line {
        Some(l) => l,
        None => 0,
    };
    let character = match head.character {
        Some(c) => c,
        None => 0,
    };
    (String::from_str(head.uri.as_str()), line, character)
}

/// The first and last line of the range a code action is about, when the range gives the line
/// and character of both its ends as numbers; `None` otherwise.
pub fn code_action_range(head: &MessageHead) -> (r: Option<(u64, u64)>)
    ensures
        r == match (head.start_line, head.start_character, head.end_line, head.end_character) {
            (Some(sl), Some(_), Some(el), Some(_)) => Some((sl, el)),
            _ => None,
        },
{
    match (head.start_line, head.start_character, head.end_line, head.end_character) {
        (Some(sl), Some(_), Some(el), Some(_)) => Some((sl, el)),
        _ => None,
    }
}

} // verus!

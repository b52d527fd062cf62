use bpftrace_ls::documents::DocumentsData;
use bpftrace_ls::message::{
    code_action_range, decode_message, handle_notification, message_event,
    unpack_text_document_info, NotificationAction,
};
use bpftrace_ls::server::{InputEvent, LspMessageType};

#[test]
fn fields_of_a_request() {
    let (event, head) = decode_message(
        r#"{"jsonrpc":"2.0","id":7,"method":"textDocument/hover","params":{"textDocument":{"uri":"file:///a.bt"},"position":{"line":3,"character":12}}}"#,
    );
    let head = head.unwrap();
    assert_eq!(event, InputEvent::Parsed(LspMessageType::Request(7), false));
    assert_eq!(message_event(&head), event);
    assert_eq!(unpack_text_document_info(&head), ("file:///a.bt".to_string(), 3, 12));
    assert_eq!(code_action_range(&head), None);
}

#[test]
fn responses_and_notifications() {
    let (event, _) = decode_message(r#"{"jsonrpc":"2.0","id":4,"result":{"ok":true}}"#);
    assert_eq!(event, InputEvent::Parsed(LspMessageType::Response, false));
    let (event, _) = decode_message(r#"{"jsonrpc":"2.0","id":4,"error":{"code":1}}"#);
    assert_eq!(event, InputEvent::Parsed(LspMessageType::Response, false));
    let (event, head) = decode_message(r#"{"jsonrpc":"2.0","method":"initialized","params":{}}"#);
    assert_eq!(event, InputEvent::Parsed(LspMessageType::Notification, false));
    let head = head.unwrap();
    // Absent fields read as their JSON text, `null`, and positions as 0.
    assert_eq!(unpack_text_document_info(&head), ("null".to_string(), 0, 0));
}

#[test]
fn code_action_range_needs_both_ends() {
    let (_, head) = decode_message(
        r#"{"id":2,"method":"textDocument/codeAction","params":{"textDocument":{"uri":"u"},"range":{"start":{"line":4,"character":0},"end":{"line":6,"character":2}}}}"#,
    );
    assert_eq!(code_action_range(&head.unwrap()), Some((4, 6)));
    let (_, head) = decode_message(
        r#"{"id":2,"method":"textDocument/codeAction","params":{"range":{"start":{"line":4},"end":{"line":6,"character":2}}}}"#,
    );
    assert_eq!(code_action_range(&head.unwrap()), None);
}

#[test]
fn notifications_update_the_documents() {
    let mut docs = DocumentsData::new();
    let (_, open) = decode_message(
        r#"{"method":"textDocument/didOpen","params":{"textDocument":{"uri":"file:///a.bt","text":"BEGIN { }","version":1}}}"#,
    );
    assert_eq!(
        handle_notification(&mut docs, &open.unwrap()),
        NotificationAction::SendDiagnostics("file:///a.bt".to_string())
    );
    let a = docs.get("file:///a.bt").unwrap();
    assert_eq!((a.text.as_str(), a.version), ("BEGIN { }", 1));

    let (_, change) = decode_message(
        r#"{"method":"textDocument/didChange","params":{"textDocument":{"uri":"file:///a.bt","version":2},"contentChanges":[{"text":"END { }"}]}}"#,
    );
    assert_eq!(
        handle_notification(&mut docs, &change.unwrap()),
        NotificationAction::SendDiagnostics("file:///a.bt".to_string())
    );
    let a = docs.get("file:///a.bt").unwrap();
    assert_eq!((a.text.as_str(), a.version), ("END { }", 2));

    let (_, save) = decode_message(
        r#"{"method":"textDocument/didSave","params":{"textDocument":{"uri":"file:///a.bt"}}}"#,
    );
    assert_eq!(
        handle_notification(&mut docs, &save.unwrap()),
        NotificationAction::SendDiagnostics("file:///a.bt".to_string())
    );
    assert_eq!(docs.get("file:///a.bt").unwrap().version, 2);

    let (_, other) = decode_message(r#"{"method":"initialized","params":{}}"#);
    assert_eq!(handle_notification(&mut docs, &other.unwrap()), NotificationAction::Nothing);
    let (_, exit) = decode_message(r#"{"method":"exit"}"#);
    assert_eq!(handle_notification(&mut docs, &exit.unwrap()), NotificationAction::Exit);
}

#[test]
fn opened_document_without_version() {
    let mut docs = DocumentsData::new();
    let (_, open) = decode_message(
        r#"{"method":"textDocument/didOpen","params":{"textDocument":{"uri":"u","text":"x"}}}"#,
    );
    handle_notification(&mut docs, &open.unwrap());
    assert_eq!(docs.get("u").unwrap().version, 0);
}

use bpftrace_ls::message::decode_message;
use bpftrace_ls::server::{
    classify_message, client_action, code_action_text, do_bpftrace_diagnostics, frame_message,
    input_step, notification_kind, parse_content_length, parse_error_message, request_kind,
    ClientAction, Diagnostic, InputAction, InputEvent, LspMessageType, NotificationKind,
    RequestKind, MAX_READ_ERRORS, PARSE_ERROR_CODE,
};

fn diag(d: &Diagnostic) -> (usize, usize, usize, usize, u32, &str) {
    (d.start_line, d.start_character, d.end_line, d.end_character, d.severity, d.message.as_str())
}

#[test]
fn test_decode_message() {
    let msg = r#"{"jsonrpc":"2.0","id":1,"method":"initialize","params":{"capabilities":{"general":{"positionEncodings":["utf-16"]}}}}"#;
    let (event, head) = decode_message(msg);
    let head = head.unwrap();
    assert!(matches!(event, InputEvent::Parsed(LspMessageType::Request(1), false)));
    assert!(head.method == "initialize");
    assert_eq!(request_kind(&head.method), RequestKind::Initialize);
}

#[test]
fn message_types() {
    assert_eq!(classify_message(Some(3), true, true), LspMessageType::Request(3));
    assert_eq!(classify_message(Some(3), false, true), LspMessageType::Response);
    assert_eq!(classify_message(Some(3), true, false), LspMessageType::Response);
    assert_eq!(classify_message(None, false, false), LspMessageType::Notification);
}

#[test]
fn framing_counts_body_and_line_break() {
    assert_eq!(frame_message("{}"), "Content-Length: 4\r\n\r\n{}\r\n");
    assert_eq!(frame_message(""), "Content-Length: 2\r\n\r\n\r\n");
    // Two bytes for 'é'.
    assert_eq!(frame_message("é"), "Content-Length: 4\r\n\r\né\r\n");
}

#[test]
fn content_length_header() {
    assert_eq!(parse_content_length("Content-Length: 52\r\n"), Ok(52));
    assert_eq!(parse_content_length("Content-Length:  7 \n"), Ok(7));
    assert_eq!(parse_content_length("Content-Length"), Err(-1));
    assert_eq!(parse_content_length(""), Err(-1));
    assert_eq!(parse_content_length("Content-Length: x\r\n"), Err(-2));
    assert_eq!(parse_content_length("Content-Length: \r\n"), Err(-2));
}

#[test]
fn methods() {
    assert_eq!(notification_kind("textDocument/didOpen"), NotificationKind::DidOpen);
    assert_eq!(notification_kind("textDocument/didChange"), NotificationKind::DidChange);
    assert_eq!(notification_kind("textDocument/didSave"), NotificationKind::DidSave);
    assert_eq!(notification_kind("exit"), NotificationKind::Exit);
    assert_eq!(notification_kind("initialized"), NotificationKind::Other);
    assert_eq!(request_kind("shutdown"), RequestKind::Shutdown);
    assert_eq!(request_kind("textDocument/hover"), RequestKind::Hover);
    assert_eq!(request_kind("textDocument/definition"), RequestKind::Definition);
    assert_eq!(request_kind("textDocument/references"), RequestKind::References);
    assert_eq!(request_kind("textDocument/codeAction"), RequestKind::CodeAction);
    assert_eq!(request_kind("textDocument/completion"), RequestKind::Completion);
    assert_eq!(request_kind("completionItem/resolve"), RequestKind::CompletionResolve);
    assert_eq!(request_kind("workspace/symbol"), RequestKind::Unhandled);
}

#[test]
fn actions_on_client_messages() {
    assert_eq!(
        client_action(LspMessageType::Request(2), "shutdown"),
        ClientAction::Respond(2, RequestKind::Shutdown)
    );
    assert_eq!(client_action(LspMessageType::Response, "exit"), ClientAction::Ignore);
    assert_eq!(
        client_action(LspMessageType::Notification, "exit"),
        ClientAction::Notify(NotificationKind::Exit)
    );
    assert_eq!(
        client_action(LspMessageType::Request(5), "exit"),
        ClientAction::Respond(5, RequestKind::Unhandled)
    );
}

#[test]
fn code_action_prefix() {
    assert_eq!(code_action_text(0), "0: ");
    assert_eq!(code_action_text(17), "17: ");
}

#[test]
fn server_parse_error_for_invalid_json() {
    // The body is no JSON: the reading side answers with the parse error and reads on.
    let (event, head) = decode_message("{invalid json");
    assert_eq!(event, InputEvent::Unparsable);
    assert!(head.is_none());
    assert_eq!(input_step(0, event), (0, InputAction::ReplyParseError));
    let reply = parse_error_message();
    let body = reply.split("\r\n\r\n").nth(1).unwrap().trim_end_matches("\r\n");
    let header_len: usize = reply["Content-Length: ".len()..reply.find('\r').unwrap()].parse().unwrap();
    assert_eq!(header_len, body.len() + 2);
    let message = json::parse(body).unwrap();
    assert!(message["id"].is_null());
    assert_eq!(message["error"]["code"].as_i32(), Some(-32700));
    assert_eq!(PARSE_ERROR_CODE, -32700);
    // The exit notification that follows stops the reading side.
    let (event, _) = decode_message(r#"{"jsonrpc":"2.0","method":"exit"}"#);
    assert_eq!(event, InputEvent::Parsed(LspMessageType::Notification, true));
    assert_eq!(input_step(0, event), (0, InputAction::ForwardAndStop));
}

#[test]
fn server_parse_error_for_no_body() {
    assert_eq!(parse_content_length("Content-Length: 0\r\n"), Ok(0));
    let (event, head) = decode_message("");
    assert_eq!(event, InputEvent::Unparsable);
    assert!(head.is_none());
    assert_eq!(input_step(3, event), (3, InputAction::ReplyParseError));
    let message = json::parse(
        parse_error_message().split("\r\n\r\n").nth(1).unwrap().trim_end_matches("\r\n"),
    )
    .unwrap();
    assert!(message["id"].is_null());
    assert_eq!(message["error"]["code"].as_i32(), Some(-32700));
}

#[test]
fn reading_stops_after_too_many_failures() {
    let mut errors = 0;
    for _ in 0..MAX_READ_ERRORS - 1 {
        let (next, action) = input_step(errors, InputEvent::ReadFailed);
        assert_eq!(action, InputAction::Continue);
        errors = next;
    }
    assert_eq!(errors, 9);
    assert_eq!(input_step(errors, InputEvent::ReadFailed), (10, InputAction::Stop));
    assert_eq!(
        input_step(4, InputEvent::Parsed(LspMessageType::Request(1), false)),
        (4, InputAction::Forward)
    );
    assert_eq!(
        input_step(4, InputEvent::Parsed(LspMessageType::Request(1), true)),
        (4, InputAction::Forward)
    );
}

#[test]
fn diagnostics_from_single_line_errors() {
    let out = b"stdin:6:60-69: ERROR: str() expects an integer or a pointer type as first argument (struct _tracepoint_syscalls_sys_exit_bpf provided)\n";
    let d = do_bpftrace_diagnostics(out).unwrap();
    assert_eq!(d.len(), 1);
    assert_eq!(
        diag(&d[0]),
        (
            5,
            60,
            5,
            69,
            1,
            " ERROR: str() expects an integer or a pointer type as first argument (struct _tracepoint_syscalls_sys_exit_bpf provided)"
        )
    );

    let d = do_bpftrace_diagnostics(b"stdin:1:0-3: WARNING: unused: map @x\r\n").unwrap();
    assert_eq!(diag(&d[0]), (1, 0, 1, 3, 2, " WARNING: unused: map @x"));
}

#[test]
fn diagnostics_from_line_range_errors() {
    let d = do_bpftrace_diagnostics(b"stdin:2-4: ERROR: Invalid probe type: kkprobe\n").unwrap();
    assert_eq!(diag(&d[0]), (1, 0, 3, 0, 1, " ERROR: Invalid probe type: kkprobe"));
    let d = do_bpftrace_diagnostics(b"stdin:1-1: WARNING: w\n").unwrap();
    assert_eq!(diag(&d[0]), (1, 0, 1, 0, 2, " WARNING: w"));
}

#[test]
fn diagnostics_from_definitions_errors() {
    let d = do_bpftrace_diagnostics(
        b"definitions.h:10:18: error: expected ';' at end of declaration list\n",
    )
    .unwrap();
    assert_eq!(diag(&d[0]), (9, 17, 9, 18, 1, "ERROR: expected ';' at end of declaration list"));

    let d = do_bpftrace_diagnostics(b"definitions.h:1:0: error\n").unwrap();
    assert_eq!(diag(&d[0]), (1, 0, 1, 0, 1, "ERROR:"));
}

#[test]
fn diagnostics_skip_other_lines() {
    let out = b"Attaching 1 probe...\nstdin:x-y: ERROR: bad\nstdin:3:a-5: ERROR: bad\nother:1:2: ERROR\n\nstdin:3:1-5: ERROR: kept\n";
    let d = do_bpftrace_diagnostics(out).unwrap();
    assert_eq!(d.len(), 1);
    assert_eq!(diag(&d[0]), (2, 1, 2, 5, 1, " ERROR: kept"));

    assert!(do_bpftrace_diagnostics(b"").unwrap().is_empty());
    assert!(do_bpftrace_diagnostics(b"stdin:3:1-5: ERROR: \xff\n").unwrap().is_empty());
}

#[test]
fn diagnostics_refuse_malformed_lines() {
    // A single column where a range is expected.
    assert!(do_bpftrace_diagnostics(b"stdin:3:1: ERROR: x\n").is_none());
    // No level word.
    assert!(do_bpftrace_diagnostics(b"stdin:3:1-5\n").is_none());
    // Neither a line nor a range of lines: nothing.
    assert!(do_bpftrace_diagnostics(b"stdin:x: ERROR: x\n").unwrap().is_empty());
    // A range whose first line is no number: nothing.
    assert!(do_bpftrace_diagnostics(b"stdin:x-4: ERROR: x\n").unwrap().is_empty());
}

#[test]
fn framed_header_reads_back_the_length_of_the_rest() {
    for body in ["{}", "", r#"{"id":1,"result":"é"}"#] {
        let framed = frame_message(body);
        let header_end = framed.find('\n').unwrap() + 1;
        let (header, rest) = framed.split_at(header_end);
        let len = parse_content_length(header).unwrap();
        assert!(rest.starts_with("\r\n"));
        assert_eq!(len, rest.len() - 2);
        assert_eq!(&rest[2..], format!("{}\r\n", body));
    }
}

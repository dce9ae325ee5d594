use matrix::common::ToastTone;
use matrix::socket::{frame_response, group_stop_reply, help_reply, parse_request, request_line, socket_path_text, start_reply, stop_reply, SocketRequest};

#[test]
fn requests_are_parsed_by_first_word() {
    assert!(matches!(parse_request("start web"), SocketRequest::Start(ref i) if i == "web"));
    assert!(matches!(parse_request("stop web"), SocketRequest::Stop(ref i) if i == "web"));
    assert!(matches!(parse_request("restart web"), SocketRequest::Restart(ref i) if i == "web"));
    assert!(matches!(parse_request("status"), SocketRequest::Status));
    assert!(matches!(parse_request("groups"), SocketRequest::Groups));
    assert!(matches!(parse_request("projects"), SocketRequest::Projects));
    assert!(matches!(parse_request("help"), SocketRequest::Help));
    assert!(matches!(parse_request("group start g"), SocketRequest::GroupStart(ref g) if g == "g"));
    assert!(matches!(parse_request("group stop g"), SocketRequest::GroupStop(ref g) if g == "g"));
}

#[test]
fn malformed_requests_get_error_replies() {
    assert!(matches!(parse_request(""), SocketRequest::Reply(ref t) if t == "ERROR: empty command"));
    assert!(matches!(parse_request("start"), SocketRequest::Reply(ref t) if t == "ERROR: usage: start <project_id>"));
    assert!(matches!(parse_request("group pause g"), SocketRequest::Reply(ref t) if t == "ERROR: usage: group <start|stop> <group_id>"));
    assert!(matches!(parse_request("jump"), SocketRequest::Reply(ref t) if t == "ERROR: unknown command 'jump'. Type 'help' for usage."));
}

#[test]
fn responses_are_framed_with_end_marker() {
    assert_eq!(frame_response("OK"), "OK\n--END--\n");
    assert_eq!(frame_response(""), "\n--END--\n");
}

#[test]
fn request_lines_are_trimmed() {
    assert_eq!(request_line("  status \n"), Some("status".to_string()));
    assert_eq!(request_line(" \n"), None);
}

#[test]
fn replies_and_toasts() {
    let (text, toast) = start_reply("web", false, &Ok(()));
    assert_eq!(text, "OK: started web");
    assert_eq!(toast.source, "socket");
    assert_eq!(toast.message, "started web");
    assert_eq!(toast.tone, ToastTone::Success);
    let (text, _) = start_reply("web", true, &Ok(()));
    assert_eq!(text, "OK: restarted web");
    let (text, toast) = stop_reply("web");
    assert_eq!(text, "OK: stopped web");
    assert_eq!(toast.message, "stopped web");
    let (text, toast) = group_stop_reply("g");
    assert_eq!(text, "OK: group g stopped");
    assert_eq!(toast.message, "group g stopped");
}

#[test]
fn help_lists_commands_and_socket_path_is_fixed() {
    let h = help_reply();
    assert!(h.contains("start"));
    assert!(h.contains("status"));
    assert_eq!(socket_path_text(), "/tmp/matrix-control.sock");
}

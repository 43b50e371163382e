use manse::protocol::decode_request;
use manse::protocol::decode_response;
use manse::protocol::encode_request;
use manse::protocol::encode_response;
use manse::protocol::socket_startup_action;
use manse::protocol::Request;
use manse::protocol::Response;
use manse::protocol::StartupAction;

#[test]
fn ping_wire_form() {
    assert_eq!(encode_request(&Request::Ping), "{\"cmd\":\"ping\"}");
    assert_eq!(encode_request(&Request::Restart), "{\"cmd\":\"restart\"}");
}

#[test]
fn rename_wire_form() {
    let req = Request::TermRename {
        terminal: "term-AAAAAAAAAAAA".to_string(),
        title: "build".to_string(),
    };
    assert_eq!(
        encode_request(&req),
        "{\"cmd\":\"term_rename\",\"terminal\":\"term-AAAAAAAAAAAA\",\"title\":\"build\"}"
    );
}

#[test]
fn request_round_trips_every_variant() {
    let reqs = vec![
        Request::Ping,
        Request::Restart,
        Request::TermRename {
            terminal: "term-x".to_string(),
            title: "a \"quoted\" title".to_string(),
        },
        Request::TermDesc {
            terminal: "term-y".to_string(),
            description: "line\nbreak and tab\t".to_string(),
        },
        Request::TermIcon {
            terminal: "term-z".to_string(),
            icon: "🔥".to_string(),
        },
        Request::TermToWorkspace {
            terminal: "term-w".to_string(),
            workspace_name: "back\\slash".to_string(),
        },
        Request::TermNotify {
            terminal: "term-n".to_string(),
        },
    ];
    for req in reqs {
        let line = encode_request(&req);
        let back = decode_request(&line).expect("canonical line must decode");
        assert_eq!(encode_request(&back), line);
    }
}

#[test]
fn request_decode_accepts_trailing_newline() {
    let mut line = encode_request(&Request::Ping);
    line.push('\n');
    let back = decode_request(&line).unwrap();
    assert!(matches!(back, Request::Ping));
}

#[test]
fn request_decode_rejects_malformed_lines() {
    assert!(decode_request("").is_none());
    assert!(decode_request("not json").is_none());
    assert!(decode_request("{\"cmd\":\"unknown\"}").is_none());
    assert!(decode_request("{\"cmd\":\"ping\"} trailing").is_none());
    assert!(decode_request("{\"cmd\":\"term_rename\",\"terminal\":\"x\"}").is_none());
}

#[test]
fn response_wire_form() {
    assert_eq!(encode_response(&Response::ok()), "{\"ok\":true}");
    let err = Response::error("Terminal not found: term-x".to_string());
    assert_eq!(
        encode_response(&err),
        "{\"ok\":false,\"error\":\"Terminal not found: term-x\"}"
    );
}

#[test]
fn response_round_trips() {
    for resp in [
        Response::ok(),
        Response::error("boom \"quoted\"".to_string()),
    ] {
        let line = encode_response(&resp);
        let back = decode_response(&line).expect("canonical line must decode");
        assert_eq!(back.ok, resp.ok);
        assert_eq!(back.error, resp.error);
    }
}

#[test]
fn control_escapes_round_trip() {
    let req = Request::TermDesc {
        terminal: "term-e".to_string(),
        description: "bell \u{7} and escape \u{1b} survive".to_string(),
    };
    let line = encode_request(&req);
    let back = decode_request(&line).unwrap();
    match back {
        Request::TermDesc { description, .. } => {
            assert_eq!(description, "bell \u{7} and escape \u{1b} survive");
        }
        _ => panic!("wrong variant"),
    }
}

#[test]
fn startup_refuses_live_socket() {
    assert!(matches!(
        socket_startup_action(true, true),
        StartupAction::RefuseAlreadyRunning
    ));
}

#[test]
fn startup_removes_stale_socket() {
    assert!(matches!(
        socket_startup_action(true, false),
        StartupAction::RemoveStaleAndBind
    ));
}

#[test]
fn startup_binds_fresh_path() {
    assert!(matches!(
        socket_startup_action(false, false),
        StartupAction::Bind
    ));
    assert!(matches!(
        socket_startup_action(false, true),
        StartupAction::Bind
    ));
}

#[test]
fn numbers_too_large_for_their_field_are_rejected() {
    // next_id is a u64; one digit more than its maximum cannot parse.
    let line = "{\"version\":2,\"workspaces\":[],\"active_workspace\":0,\
                \"next_id\":99999999999999999999}";
    assert!(manse::snapshot::parse_state(line).is_none());
}

#[test]
fn unknown_escapes_are_rejected() {
    assert!(decode_request("{\"cmd\":\"term_notify\",\"terminal\":\"a\\qb\"}").is_none());
}

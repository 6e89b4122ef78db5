use xiaozhi_server::frame::{
    read_ws_frame, write_ws_close, write_ws_frame, write_ws_text, FrameStep, WsFrame,
};
use xiaozhi_server::http::{http_response, Headers, HttpRequest};
use xiaozhi_server::messages::{
    answer_frame, handle_ws_text_message, websocket_step, WsAction, WsEvent,
};
use xiaozhi_server::server::handle_request;
use xiaozhi_server::session::AppState;
use xiaozhi_server::upgrade::{
    answer_upgrade, handle_websocket_upgrade, validate_ws_headers, Reply,
};

const DEMANDS: [(&str, &str); 7] = [
    ("connection", "keep-alive, Upgrade"),
    ("upgrade", "WebSocket"),
    ("protocol-version", "1"),
    ("authorization", "Bearer t"),
    ("device-id", "dev"),
    ("client-id", "cli"),
    ("sec-websocket-key", "dGhlIHNhbXBsZSBub25jZQ=="),
];

const HANDSHAKE: &str = "HTTP/1.1 101 Switching Protocols\r\nUpgrade: websocket\r\nConnection: Upgrade\r\nSec-WebSocket-Accept: s3pPLMBiTxaQ9kYGzzhZRbK+xOo=\r\n\r\n";

fn headers_but(changed: &str, value: Option<&str>) -> Headers {
    let mut map = Headers::new();
    for (name, standard) in DEMANDS {
        if name != changed {
            map.insert(name.to_string(), standard.to_string());
        } else if let Some(value) = value {
            map.insert(name.to_string(), value.to_string());
        }
    }
    map
}

fn upgrade_request(path: &str, headers: Headers) -> HttpRequest {
    HttpRequest {
        method: "GET".to_string(),
        path: path.to_string(),
        headers,
        body: Vec::new(),
    }
}

fn connected(reply: Reply) -> (String, String) {
    match reply {
        Reply::Connect(handshake, id) => (handshake, id),
        Reply::Respond(response) => panic!("{response}"),
    }
}

fn responded(reply: Reply) -> String {
    match reply {
        Reply::Respond(response) => response,
        Reply::Connect(_, id) => panic!("connected to {id}"),
    }
}

fn sent(action: WsAction) -> Vec<u8> {
    match action {
        WsAction::Send(bytes) => bytes,
        _ => panic!("nothing to send"),
    }
}

fn frame(opcode: u8, payload: &[u8]) -> WsFrame {
    WsFrame {
        opcode,
        payload: payload.to_vec(),
    }
}

fn one_session(id: &str) -> AppState {
    let mut state = AppState::default();
    state.insert_session(id, "dev".to_string(), "cli".to_string(), 1_234);
    state
}

fn say(state: &mut AppState, id: &str, text: &str) -> String {
    handle_ws_text_message(text, state, id).expect("a reply")
}

#[test]
fn headers_that_meet_the_demands_are_taken_apart() {
    let found = validate_ws_headers(&headers_but("", None));
    assert_eq!(
        found,
        Ok((
            "dev".to_string(),
            "cli".to_string(),
            "dGhlIHNhbXBsZSBub25jZQ==".to_string()
        ))
    );
}

#[test]
fn each_demand_has_its_refusal() {
    let refused = |name: &str, value: Option<&str>, message: &str| {
        assert_eq!(validate_ws_headers(&headers_but(name, value)), Err(message));
        let mut state = AppState::default();
        for path in ["/xiaozhi/v1/", "/ws/x"] {
            let request = upgrade_request(path, headers_but(name, value));
            assert_eq!(
                responded(handle_request(&request, &mut state)),
                http_response(401, &format!("{{\"error\":\"{message}\"}}"))
            );
        }
        assert_eq!(state.session_count(), 0);
    };
    let upgrade = "invalid websocket upgrade headers";
    refused("connection", None, upgrade);
    refused("connection", Some("close"), upgrade);
    refused("upgrade", None, upgrade);
    refused("upgrade", Some("websocket2"), upgrade);
    refused("protocol-version", None, "Protocol-Version must be 1");
    refused("protocol-version", Some("2"), "Protocol-Version must be 1");
    refused("authorization", None, "Authorization header is required");
    refused(
        "authorization",
        Some("Bearer "),
        "Authorization header is required",
    );
    refused(
        "authorization",
        Some("bearer token"),
        "Authorization header is required",
    );
    refused("device-id", None, "Device-Id header is required");
    refused("client-id", Some(""), "Client-Id header is required");
    refused(
        "sec-websocket-key",
        None,
        "Sec-WebSocket-Key header is required",
    );
}

#[test]
fn first_unmet_demand_is_named() {
    assert_eq!(
        validate_ws_headers(&Headers::new()),
        Err("invalid websocket upgrade headers")
    );
}

#[test]
fn named_sessions_are_connected_to() {
    let mut state = one_session("abc");
    for path in ["/ws/abc", "/ws//ws/abc"] {
        let request = upgrade_request(path, headers_but("", None));
        let (handshake, id) = connected(handle_request(&request, &mut state));
        assert_eq!(handshake, HANDSHAKE);
        assert_eq!(id, "abc");
    }
    assert_eq!(state.session_count(), 1);
}

#[test]
fn unknown_sessions_are_not_found() {
    let mut state = one_session("abc");
    for path in ["/ws/", "/ws/other", "/ws/abc/"] {
        let request = upgrade_request(path, headers_but("", None));
        assert_eq!(
            responded(handle_request(&request, &mut state)),
            http_response(404, r#"{"error":"session not found"}"#)
        );
    }
    assert_eq!(state.session_count(), 1);
}

#[test]
fn common_path_takes_the_session_of_the_device() {
    let mut state = one_session("abc");
    let request = upgrade_request("/xiaozhi/v1/", headers_but("", None));
    let (handshake, id) = connected(answer_upgrade(&mut state, &request, "new", 9));
    assert_eq!(handshake, HANDSHAKE);
    assert_eq!(id, "abc");
    assert_eq!(state.session_count(), 1);
}

#[test]
fn common_path_starts_a_session_where_there_is_none() {
    let mut state = one_session("abc");
    let request = upgrade_request("/xiaozhi/v1/", headers_but("client-id", Some("other")));
    let (_, id) = connected(answer_upgrade(&mut state, &request, "new", 9));
    assert_eq!(id, "new");
    assert_eq!(state.session_count(), 2);
    let session = state.get_session("new").expect("a session");
    assert_eq!(session.device_id, "dev");
    assert_eq!(session.client_id, "other");
    assert_eq!(session.created_at_unix, 9);
    assert!(!session.hello_done);
}

#[test]
fn device_that_comes_back_keeps_its_session() {
    let mut state = AppState::default();
    let request = upgrade_request("/xiaozhi/v1/", headers_but("", None));
    let (_, first) = connected(handle_websocket_upgrade(&mut state, &request));
    assert_eq!(first.len(), 32);
    let (_, second) = connected(handle_websocket_upgrade(&mut state, &request));
    assert_eq!(first, second);
    assert_eq!(state.session_count(), 1);
}

#[test]
fn only_get_opens_a_connection() {
    let mut state = one_session("abc");
    let mut request = upgrade_request("/ws/abc", headers_but("", None));
    request.method = "POST".to_string();
    assert_eq!(
        responded(handle_request(&request, &mut state)),
        http_response(404, r#"{"error":"not found"}"#)
    );
}

#[test]
fn registered_device_connects_and_leaves() {
    let mut state = AppState::default();
    let register = HttpRequest {
        method: "POST".to_string(),
        path: "/api/v1/device/register".to_string(),
        headers: Headers::new(),
        body: br#"{"device_id":"dev","client_id":"cli"}"#.to_vec(),
    };
    assert!(responded(handle_request(&register, &mut state)).contains("\"session_id\""));
    let id = state
        .find_by_device_client("dev", "cli")
        .expect("a session");
    let request = upgrade_request(&format!("/ws/{id}"), headers_but("", None));
    assert_eq!(connected(handle_request(&request, &mut state)).1, id);

    assert!(matches!(
        websocket_step(&mut state, &id, WsEvent::Lost),
        WsAction::Stop
    ));
    assert_eq!(
        responded(handle_request(&request, &mut state)),
        http_response(404, r#"{"error":"session not found"}"#)
    );
}

#[test]
fn sessions_are_started_and_ended() {
    let mut state = AppState::default();
    let id = state.create_session("d".to_string(), "c".to_string());
    assert_eq!(id.len(), 32);
    assert_eq!(state.session_count(), 1);
    assert_eq!(state.find_by_device_client("d", "c"), Some(id.clone()));
    assert_eq!(state.find_by_device_client("c", "d"), None);
    state.remove_session("other");
    assert_eq!(state.session_count(), 1);
    state.remove_session(&id);
    assert_eq!(state.session_count(), 0);
    assert!(state.get_session(&id).is_none());
}

#[test]
fn hello_is_noted_for_its_session_alone() {
    let mut state = one_session("a");
    state.insert_session("b", "d".to_string(), "c".to_string(), 1);
    state.mark_hello_done("nobody");
    assert_eq!(state.session_count(), 2);
    state.mark_hello_done("a");
    let marked = state.get_session("a").expect("a session");
    assert!(marked.hello_done);
    assert_eq!(marked.device_id, "dev");
    assert_eq!(marked.created_at_unix, 1_234);
    assert!(!state.get_session("b").expect("a session").hello_done);
}

#[test]
fn messages_are_answered_by_their_kind() {
    let mut state = one_session("a");
    let stop = r#"{"type":"tts","state":"stop"}"#;
    assert_eq!(
        say(&mut state, "a", r#"{"type":"listen","state":"start"}"#),
        r#"{"session_id":"","type":"listen","state":"detect","text":"你好小智"}"#
    );
    assert_eq!(
        say(&mut state, "a", r#"{"type":"listen","state":"stop"}"#),
        stop
    );
    assert_eq!(say(&mut state, "a", r#"{"type":"abort"}"#), stop);
    assert_eq!(
        say(&mut state, "a", r#"{"type":"mcp","payload":{"id":1}}"#),
        r#"{"session_id":"","type":"mcp","payload":{"echo":{"id":1}}}"#
    );
    assert_eq!(
        say(&mut state, "a", r#"{"type":"mcp"}"#),
        r#"{"session_id":"","type":"mcp","payload":{"echo":{}}}"#
    );
    assert_eq!(
        say(&mut state, "a", r#"{"type":"ping"}"#),
        r#"{"type":"pong"}"#
    );
    assert!(!state.get_session("a").expect("a session").hello_done);
}

#[test]
fn other_messages_are_acknowledged() {
    let mut state = AppState::default();
    let ack = r#"{"type":"ack"}"#;
    assert_eq!(say(&mut state, "s", r#"{"type":"text"}"#), ack);
    assert_eq!(state.session_count(), 0);

    let mut state = one_session("a");
    assert_eq!(say(&mut state, "a", "anything"), ack);
    assert_eq!(
        say(&mut state, "a", r#"{"type":"listen","state":"detect"}"#),
        ack
    );
    assert!(!state.get_session("a").expect("a session").hello_done);

    say(&mut state, "a", r#"{"type":"hello"}"#);
    assert_eq!(say(&mut state, "a", "anything"), ack);
    assert_eq!(say(&mut state, "a", ""), ack);
    assert_eq!(say(&mut state, "nobody", "anything"), ack);
}

#[test]
fn hello_is_answered_and_kept() {
    let mut state = one_session("a");
    assert_eq!(
        say(&mut state, "a", r#"{"type":"hello"}"#),
        r#"{"type":"hello","transport":"websocket","audio_params":{"format":"opus","sample_rate":24000,"channels":1,"frame_duration":60}}"#
    );
    for text in [r#"{"type":"abort"}"#, r#"{"type":"ping"}"#, "anything"] {
        say(&mut state, "a", text);
        assert!(state.get_session("a").expect("a session").hello_done);
    }
}

#[test]
fn earlier_kinds_win_over_later_ones() {
    let mut state = one_session("a");
    assert!(say(&mut state, "a", r#""type":"ping","type":"hello""#).contains("opus"));
    assert!(say(&mut state, "a", r#""type":"ping","type":"mcp""#).contains("echo"));
    assert_eq!(
        say(&mut state, "a", r#""type":"listen","type":"ping""#),
        r#"{"type":"pong"}"#
    );
}

#[test]
fn frames_are_answered_by_their_opcode() {
    let mut state = one_session("a");
    let ping = frame(1, br#"{"type":"ping"}"#);
    assert_eq!(
        sent(websocket_step(&mut state, "a", WsEvent::Frame(ping))),
        write_ws_text(r#"{"type":"pong"}"#)
    );
    assert_eq!(
        sent(websocket_step(
            &mut state,
            "a",
            WsEvent::Frame(frame(2, &[1, 2, 255]))
        )),
        write_ws_frame(2, &[1, 2, 255])
    );
    assert_eq!(
        sent(websocket_step(
            &mut state,
            "a",
            WsEvent::Frame(frame(9, b"beat"))
        )),
        write_ws_frame(10, b"beat")
    );
    for opcode in [0u8, 3, 10, 15] {
        let passed = WsEvent::Frame(frame(opcode, br#"{"type":"hello"}"#));
        assert!(matches!(
            websocket_step(&mut state, "a", passed),
            WsAction::Wait
        ));
    }
    assert_eq!(state.session_count(), 1);
    assert!(!state.get_session("a").expect("a session").hello_done);
}

#[test]
fn close_is_answered_and_ends_the_session() {
    let mut state = one_session("a");
    state.insert_session("b", "d".to_string(), "c".to_string(), 1);
    match websocket_step(&mut state, "a", WsEvent::Frame(frame(8, &[3, 232]))) {
        WsAction::SendAndStop(bytes) => assert_eq!(bytes, write_ws_close()),
        _ => panic!("the connection goes on"),
    }
    assert!(state.get_session("a").is_none());
    assert!(state.get_session("b").is_some());
}

#[test]
fn lost_connection_ends_the_session() {
    let mut state = one_session("a");
    assert!(matches!(
        websocket_step(&mut state, "a", WsEvent::Lost),
        WsAction::Stop
    ));
    assert_eq!(state.session_count(), 0);
}

#[test]
fn invalid_bytes_of_a_message_are_replaced() {
    let mut state = one_session("a");
    let mcp = frame(1, b"{\"type\":\"mcp\",\"payload\":\"\xff\xe4\xbd\xa0\"}");
    assert_eq!(
        sent(websocket_step(&mut state, "a", WsEvent::Frame(mcp))),
        write_ws_text(
            "{\"session_id\":\"\",\"type\":\"mcp\",\"payload\":{\"echo\":\"\u{fffd}你\"}}"
        )
    );
}

#[test]
fn frame_is_answered_for_the_given_text() {
    let mut state = one_session("a");
    let answered = answer_frame(&mut state, "a", &frame(1, b""), r#"{"type":"hello"}"#);
    assert!(sent(answered).len() > 2);
    assert!(state.get_session("a").expect("a session").hello_done);
}

#[test]
fn client_reads_the_reply_to_its_message() {
    let mut state = one_session("a");
    let key = [9u8, 8, 7, 6];
    let text = br#"{"type":"ping"}"#;
    let mut bytes = vec![0x81, 0x80 | text.len() as u8];
    bytes.extend_from_slice(&key);
    for (i, byte) in text.iter().enumerate() {
        bytes.push(byte ^ key[i % 4]);
    }
    let received = match read_ws_frame(&bytes) {
        FrameStep::Frame(received, used) => {
            assert_eq!(used, bytes.len());
            received
        }
        FrameStep::Need(n) => panic!("{n} bytes missing"),
    };
    let reply = sent(websocket_step(&mut state, "a", WsEvent::Frame(received)));
    match read_ws_frame(&reply) {
        FrameStep::Frame(read, used) => {
            assert_eq!(used, reply.len());
            assert_eq!(read.opcode, 1);
            assert_eq!(read.payload, br#"{"type":"pong"}"#);
        }
        FrameStep::Need(n) => panic!("{n} bytes missing"),
    }
}

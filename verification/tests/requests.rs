use xiaozhi_server::http::{
    header, header_map, header_or_empty, http_response, is_websocket_path, parse_request_line,
    Headers, HttpRequest, ReadStep, RequestReader,
};
use xiaozhi_server::routes::{answer_ota, handle_ota, register_device, route_http_request};
use xiaozhi_server::session::AppState;

fn request(method: &str, path: &str, headers: Headers, body: &[u8]) -> HttpRequest {
    HttpRequest {
        method: method.to_string(),
        path: path.to_string(),
        headers,
        body: body.to_vec(),
    }
}

fn headers(pairs: &[(&str, &str)]) -> Headers {
    let mut map = Headers::new();
    for (name, value) in pairs {
        map.insert(name.to_string(), value.to_string());
    }
    map
}

fn read(lines: &[&str], body: &[u8]) -> Option<HttpRequest> {
    let mut reader = RequestReader::new();
    for line in lines {
        match reader.take_line(line) {
            ReadStep::Line => {}
            ReadStep::Body(length) => {
                assert_eq!(length, body.len());
                return reader.finish(body.to_vec());
            }
            ReadStep::Refuse => return None,
        }
    }
    panic!("the head has no end")
}

#[test]
fn request_lines_are_split_into_words() {
    assert_eq!(
        parse_request_line("GET /health HTTP/1.1\r\n"),
        ("GET", "/health")
    );
    assert_eq!(parse_request_line("  POST\t/x\n"), ("POST", "/x"));
    assert_eq!(parse_request_line("DELETE"), ("DELETE", "/"));
    assert_eq!(parse_request_line(" \r\n"), ("GET", "/"));
    assert_eq!(parse_request_line(""), ("GET", "/"));
}

#[test]
fn requests_are_read_line_by_line() {
    let read = read(
        &[
            "POST /api/ota/ HTTP/1.1\r\n",
            "Device-Id:  11:22 \r\n",
            "no colon here\r\n",
            "CONTENT-LENGTH: 2\r\n",
            "\n",
            "\r\n",
        ],
        b"{}",
    )
    .expect("a request");
    assert_eq!(read.method, "POST");
    assert_eq!(read.path, "/api/ota/");
    assert_eq!(header(&read, "device-id"), Some("11:22"));
    assert_eq!(header(&read, "content-length"), Some("2"));
    assert_eq!(header(&read, "Device-Id"), None);
    assert_eq!(read.headers.len(), 2);
    assert_eq!(read.body, b"{}");
}

#[test]
fn blank_first_lines_are_refused() {
    for line in ["", "\r\n", " \t\n"] {
        let mut reader = RequestReader::new();
        assert!(matches!(reader.take_line(line), ReadStep::Refuse));
        assert!(reader.finish(Vec::new()).is_none());
    }
}

#[test]
fn end_of_input_ends_the_head() {
    let read = read(&["GET / HTTP/1.1\r\n", ""], b"").expect("a request");
    assert_eq!(read.path, "/");
}

#[test]
fn lengths_that_are_no_numbers_count_as_none() {
    for value in ["x", "-1", "", "99999999999999999999999999", "1.0"] {
        let line = format!("Content-Length: {value}\r\n");
        assert!(read(&["GET / HTTP/1.1\r\n", &line, "\r\n"], b"").is_some());
    }
    let read = read(
        &[
            "GET / HTTP/1.1\r\n",
            "Content-Length: 7\r\n",
            "Content-Length: +1\r\n",
            "\r\n",
        ],
        b"x",
    )
    .expect("a request");
    assert_eq!(header(&read, "content-length"), Some("+1"));
}

#[test]
fn body_has_the_length_that_the_headers_announce() {
    let first = "POST / HTTP/1.1\r\n";
    let end = "\r\n";
    assert!(read(&[first, "A: 1\r\n", end], b"").is_some());
    assert!(read(&[first, "Content-Length: 3\r\n", "A: 9\r\n", end], b"abc").is_some());
    assert!(read(
        &[first, "content-length: 3\r\n", "Content-Length: 1\r\n", end],
        b"a"
    )
    .is_some());
    assert!(read(
        &[first, "content-length: 3\r\n", "Content-Length: x\r\n", end],
        b""
    )
    .is_some());
}

#[test]
fn last_header_of_a_name_counts() {
    let read = read(
        &["GET / HTTP/1.1\r\n", "A: 1\r\n", "a : 2\r\n", "\r\n"],
        b"",
    )
    .expect("a request");
    assert_eq!(header(&read, "a"), Some("2"));
    assert_eq!(read.headers.len(), 1);
}

#[test]
fn headers_are_looked_up() {
    let map = headers(&[("a", "1")]);
    assert_eq!(header_map(&map, "a"), Some("1"));
    assert_eq!(header_map(&map, "b"), None);
    assert_eq!(header_or_empty(&map, "a"), "1");
    assert_eq!(header_or_empty(&map, "b"), "");
}

#[test]
fn websocket_paths() {
    assert!(is_websocket_path("/xiaozhi/v1/"));
    assert!(is_websocket_path("/ws/"));
    assert!(is_websocket_path("/ws/abc"));
    assert!(!is_websocket_path("/xiaozhi/v1"));
    assert!(!is_websocket_path("/ws"));
    assert!(!is_websocket_path("/health"));
}

#[test]
fn responses_count_the_bytes_of_the_body() {
    assert_eq!(
        http_response(200, "{}"),
        "HTTP/1.1 200 OK\r\nContent-Type: application/json\r\nContent-Length: 2\r\nConnection: close\r\n\r\n{}"
    );
    assert!(http_response(200, "你好").contains("Content-Length: 6\r\n"));
    assert!(http_response(400, "").starts_with("HTTP/1.1 400 Bad Request\r\n"));
    assert!(http_response(401, "").starts_with("HTTP/1.1 401 Unauthorized\r\n"));
    assert!(http_response(404, "").starts_with("HTTP/1.1 404 Not Found\r\n"));
    assert!(http_response(500, "").starts_with("HTTP/1.1 500 Internal Server Error\r\n"));
    assert!(http_response(7, "").starts_with("HTTP/1.1 7 Internal Server Error\r\n"));
}

#[test]
fn health_reports_the_number_of_sessions() {
    let mut state = AppState::default();
    let health = request("GET", "/health", Headers::new(), b"");
    let expected = |count: usize| {
        http_response(
            200,
            &format!(
                "{{\"status\":\"ok\",\"active_sessions\":{count},\"protocol_version\":1,\"transport\":\"websocket\"}}"
            ),
        )
    };
    assert_eq!(route_http_request(&health, &mut state), expected(0));
    state.insert_session("a", "d".to_string(), "c".to_string(), 1);
    state.insert_session("b", "d".to_string(), "c".to_string(), 1);
    assert_eq!(route_http_request(&health, &mut state), expected(2));
    assert_eq!(state.session_count(), 2);
}

#[test]
fn registration_starts_a_session() {
    let mut state = AppState::default();
    let reply = register_device(
        &mut state,
        r#"{"device_id":"esp32-001"}"#,
        "client".to_string(),
        "id-1",
        77,
    );
    assert_eq!(
        reply,
        http_response(
            200,
            r#"{"session_id":"id-1","websocket_url":"/xiaozhi/v1/","ice_servers":[{"urls":["stun:stun.l.google.com:19302"]}]}"#
        )
    );
    let session = state.get_session("id-1").expect("a session");
    assert_eq!(session.device_id, "esp32-001");
    assert_eq!(session.client_id, "client");
    assert_eq!(session.created_at_unix, 77);
    assert!(!session.hello_done);
}

#[test]
fn registration_takes_the_named_client() {
    let mut state = AppState::default();
    register_device(
        &mut state,
        r#"{"device_id":"d","client_id":"mine"}"#,
        "other".to_string(),
        "id",
        1,
    );
    assert_eq!(
        state.find_by_device_client("d", "mine").as_deref(),
        Some("id")
    );
    assert_eq!(state.find_by_device_client("d", "other"), None);
}

#[test]
fn registration_without_a_device_is_refused() {
    let refused = http_response(400, r#"{"error":"device_id is required"}"#);
    for body in ["", "{}", r#"{"device_id":1}"#, r#"{"device_id":" \t"}"#] {
        let mut state = AppState::default();
        let register = request(
            "POST",
            "/api/v1/device/register",
            Headers::new(),
            body.replace("\\t", "\t").as_bytes(),
        );
        assert_eq!(route_http_request(&register, &mut state), refused);
        assert_eq!(state.session_count(), 0);
    }
}

#[test]
fn invalid_bytes_of_a_body_are_replaced() {
    let mut state = AppState::default();
    let register = request(
        "POST",
        "/api/v1/device/register",
        Headers::new(),
        b"{\"device_id\":\"a\xffb\",\"client_id\":\"\xe4\xbd\xa0\"}",
    );
    let reply = route_http_request(&register, &mut state);
    assert!(reply.starts_with("HTTP/1.1 200 OK"));
    assert!(state
        .find_by_device_client("a\u{fffd}b", "你")
        .is_some());
}

#[test]
fn registered_client_is_made_up_where_none_is_named() {
    let mut state = AppState::default();
    let register = request(
        "POST",
        "/api/v1/device/register",
        Headers::new(),
        br#"{"device_id":"d"}"#,
    );
    route_http_request(&register, &mut state);
    assert!(state.find_by_device_client("d", "00000000").is_some());
}

#[test]
fn other_requests_are_not_found() {
    let mut state = AppState::default();
    let not_found = http_response(404, r#"{"error":"not found"}"#);
    for (method, path) in [
        ("GET", "/"),
        ("POST", "/health"),
        ("GET", "/api/v1/device/register"),
        ("GET", "/api/ota/"),
        ("POST", "/api/ota"),
        ("get", "/health"),
    ] {
        let other = request(method, path, Headers::new(), br#"{"device_id":"d"}"#);
        assert_eq!(route_http_request(&other, &mut state), not_found);
    }
    assert_eq!(state.session_count(), 0);
}

#[test]
fn updates_demand_headers_in_order() {
    let body = br#"{"application":{"version":"1.0.2"},"board":{"name":"b"}}"#;
    let refusal = |pairs: &[(&str, &str)], body: &[u8]| {
        handle_ota(&request("POST", "/api/ota/", headers(pairs), body))
    };
    let error = |message: &str| http_response(400, &format!("{{\"error\":\"{message}\"}}"));
    assert_eq!(refusal(&[], body), error("Device ID is required"));
    assert_eq!(
        refusal(&[("user-agent", "u"), ("client-id", "c")], body),
        error("Device ID is required")
    );
    assert_eq!(
        refusal(&[("device-id", "d")], body),
        error("Client ID is required")
    );
    assert_eq!(
        refusal(&[("device-id", "d"), ("client-id", "c")], body),
        error("User-Agent is required")
    );
    let all = [("device-id", ""), ("client-id", ""), ("user-agent", "")];
    assert_eq!(refusal(&all, b"{}"), error("Invalid OTA request"));
    assert_eq!(
        refusal(&all, br#"{"board":{"name":"b"}}"#),
        error("Invalid OTA request")
    );
    assert_eq!(
        refusal(&all, br#"{"application":{"version":"1"}}"#),
        error("Invalid OTA request")
    );
    assert!(refusal(&all, body).starts_with("HTTP/1.1 200 OK"));
}

#[test]
fn updates_are_answered_in_full() {
    let ota = request(
        "POST",
        "/xiaozhi/ota/",
        headers(&[
            ("device-id", "11:22"),
            ("client-id", "uuid"),
            ("user-agent", "u"),
        ]),
        b"",
    );
    let reply = answer_ota(
        &ota,
        r#"{"application":{"version":"1.0.1"},"board":{"name":"box"}}"#,
        "123456",
        1_700_000_000,
    );
    assert_eq!(
        reply,
        http_response(
            200,
            r#"{"activation":{"code":"123456","message":"请在设备端输入激活码"},"mqtt":{"endpoint":"mqtt.example.com","client_id":"GID_test@@@11:22@@@uuid","username":"device_1122","password":"password","publish_topic":"device-server"},"websocket":{"url":"wss://api.tenclass.net/xiaozhi/v1/","token":"test-token"},"server_time":{"timestamp":1700000000000,"timezone":"Asia/Shanghai","timezone_offset":-480},"firmware":{"version":"1.0.2","url":"https://example.com/firmware/1.0.2.bin"}}"#
        )
    );
}

#[test]
fn updates_come_on_two_paths_and_keep_the_sessions() {
    let mut state = AppState::default();
    for path in ["/api/ota/", "/xiaozhi/ota/"] {
        let ota = request(
            "POST",
            path,
            headers(&[("device-id", "d"), ("client-id", "c"), ("user-agent", "u")]),
            br#"{"application":{"version":"9"},"board":{"name":"b"}}"#,
        );
        let reply = route_http_request(&ota, &mut state);
        assert!(reply.contains(r#""firmware":{"version":"9","url":""}"#));
    }
    assert_eq!(state.session_count(), 0);
}

use xiaozhi_server::base64::base64_encode;
use xiaozhi_server::firmware::select_firmware;
use xiaozhi_server::handshake::websocket_accept_key;
use xiaozhi_server::http::{Headers, HttpRequest};
use xiaozhi_server::json::parse_json_string;
use xiaozhi_server::messages::handle_ws_text_message;
use xiaozhi_server::routes::{handle_ota, route_http_request};
use xiaozhi_server::session::AppState;
use xiaozhi_server::sha1::sha1_digest;
use xiaozhi_server::upgrade::validate_ws_headers;

fn hex_encode(bytes: [u8; 20]) -> String {
    let mut out = String::with_capacity(40);
    for byte in bytes {
        out.push_str(&format!("{byte:02x}"));
    }
    out
}

#[test]
fn parse_device_id_works() {
    assert_eq!(
        parse_json_string(r#"{"device_id":"esp32-01"}"#, "device_id").as_deref(),
        Some("esp32-01")
    );
}

#[test]
fn register_then_health_increases_sessions() {
    let mut state = AppState::default();
    let register = HttpRequest {
        method: "POST".to_string(),
        path: "/api/v1/device/register".to_string(),
        headers: Headers::new(),
        body: br#"{"device_id":"abc"}"#.to_vec(),
    };
    let response = route_http_request(&register, &mut state);
    assert!(response.contains("HTTP/1.1 200"));

    let health = HttpRequest {
        method: "GET".to_string(),
        path: "/health".to_string(),
        headers: Headers::new(),
        body: Vec::new(),
    };
    let health_resp = route_http_request(&health, &mut state);
    assert!(health_resp.contains("\"active_sessions\":1"));
}

#[test]
fn websocket_accept_key_matches_rfc_example() {
    let key = "dGhlIHNhbXBsZSBub25jZQ==";
    assert_eq!(websocket_accept_key(key), "s3pPLMBiTxaQ9kYGzzhZRbK+xOo=");
}

#[test]
fn sha1_and_base64_smoke_test() {
    let digest = sha1_digest(b"abc");
    assert_eq!(
        hex_encode(digest),
        "a9993e364706816aba3e25717850c26c9cd0d89d"
    );
    assert_eq!(base64_encode(b"hello"), "aGVsbG8=");
}

#[test]
fn websocket_headers_must_include_auth_protocol_ids() {
    let mut headers = Headers::new();
    headers.insert("connection".to_string(), "Upgrade".to_string());
    headers.insert("upgrade".to_string(), "websocket".to_string());
    headers.insert("protocol-version".to_string(), "1".to_string());
    headers.insert("authorization".to_string(), "Bearer token".to_string());
    headers.insert("device-id".to_string(), "11:22:33".to_string());
    headers.insert("client-id".to_string(), "uuid-1".to_string());
    headers.insert("sec-websocket-key".to_string(), "abc".to_string());

    assert!(validate_ws_headers(&headers).is_ok());
}

#[test]
fn ota_requires_headers_and_core_fields() {
    let req = HttpRequest {
        method: "POST".to_string(),
        path: "/api/ota/".to_string(),
        headers: Headers::new(),
        body: br#"{}"#.to_vec(),
    };
    let bad = handle_ota(&req);
    assert!(bad.contains("Device ID is required"));

    let mut headers = Headers::new();
    headers.insert("device-id".to_string(), "11:22".to_string());
    headers.insert("client-id".to_string(), "uuid".to_string());
    headers.insert("user-agent".to_string(), "bread/1.0.0".to_string());
    let good = HttpRequest {
        method: "POST".to_string(),
        path: "/api/ota/".to_string(),
        headers,
        body: br#"{"application":{"version":"0.9.8"},"board":{"name":"bread-compact-wifi-128x64"}}"#
            .to_vec(),
    };
    let ok = handle_ota(&good);
    assert!(ok.contains("\"firmware\""));
    assert!(ok.contains("1.0.2"));
}

#[test]
fn firmware_selection_forces_bread_098() {
    let fw = select_firmware("bread-compact", "0.9.8");
    assert_eq!(fw.version, "1.0.2");
    assert!(!fw.url.is_empty());
}

#[test]
fn ws_hello_message_returns_server_hello() {
    let mut state = AppState::default();
    let sid = state.create_session("d".to_string(), "c".to_string());
    let msg = handle_ws_text_message("{\"type\":\"hello\"}", &mut state, &sid)
        .expect("response should exist");
    assert!(msg.contains("\"type\":\"hello\""));
    assert!(msg.contains("\"sample_rate\":24000"));
}

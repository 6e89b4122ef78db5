//! The answers to plain HTTP requests.

use crate::clock::gen_code;
use crate::clock::is_code;
use crate::clock::is_id;
use crate::clock::now_secs;
use crate::clock::read_clock;
use crate::clock::seconds_at;
use crate::firmware::offer;
use crate::firmware::select_firmware;
use crate::http::header;
use crate::http::header_value;
use crate::http::http_response;
use crate::http::response;
use crate::http::HttpRequest;
use crate::http::RequestView;
use crate::json::nested_string_field;
use crate::json::parse_json_string;
use crate::json::parse_nested_json_string;
use crate::json::string_field;
use crate::session::fresh_session;
use crate::session::starts_at;
use crate::session::AppState;
use crate::session::SessionView;
use crate::text::alphanumerics;
use crate::text::decimal;
use crate::text::lossy_text;
use crate::text::push_decimal;
use crate::text::reads_utf8;
use crate::text::same;
use crate::text::sanitize;
use crate::text::trim;
use crate::text::trimmed;
use crate::text::utf8_lossy;
use vstd::prelude::*;
use vstd::string::*;

verus! {

// ---------------------------------------------------------------------------
// Routes
// ---------------------------------------------------------------------------

/// What a request asks for.
pub enum Route {
    Health,
    Register,
    Ota,
    Unknown,
}

/// What a method and a path ask for.
pub open spec fn route_of(method: Seq<char>, path: Seq<char>) -> Route {
    if method == "GET"@ && path == "/health"@ {
        Route::Health
    } else if method == "POST"@ && path == "/api/v1/device/register"@ {
        Route::Register
    } else if method == "POST"@ && (path == "/api/ota/"@ || path == "/xiaozhi/ota/"@) {
        Route::Ota
    } else {
        Route::Unknown
    }
}

fn route(method: &str, path: &str) -> (r: Route)
    ensures
        r == route_of(method@, path@),
{
    if same(method, "GET") && same(path, "/health") {
        Route::Health
    } else if same(method, "POST") && same(path, "/api/v1/device/register") {
        Route::Register
    } else if same(method, "POST") && (same(path, "/api/ota/") || same(path, "/xiaozhi/ota/")) {
        Route::Ota
    } else {
        Route::Unknown
    }
}

// ---------------------------------------------------------------------------
// Health
// ---------------------------------------------------------------------------

/// The report on a server with `count` sessions.
pub open spec fn health_report(count: nat) -> Seq<char> {
    response(
        200,
        "{\"status\":\"ok\",\"active_sessions\":"@ + decimal(count)
            + ",\"protocol_version\":1,\"transport\":\"websocket\"}"@,
    )
}

fn health(state: &AppState) -> (r: String)
    ensures
        r@ == health_report(state@.len()),
{
    let mut payload = "{\"status\":\"ok\",\"active_sessions\":".to_owned();
    push_decimal(&mut payload, state.session_count() as u128);
    payload.append(",\"protocol_version\":1,\"transport\":\"websocket\"}");
    http_response(200, payload.as_str())
}

// ---------------------------------------------------------------------------
// Registration
// ---------------------------------------------------------------------------

/// The device that a registration names: a `device_id` that is not blank.
pub open spec fn registered_device(body: Seq<char>) -> Option<Seq<char>> {
    match string_field(body, "device_id"@) {
        Some(device) => if trimmed(device).len() > 0 {
            Some(device)
        } else {
            None
        },
        None => None,
    }
}

/// The client that a registration names, or the one given.
pub open spec fn registered_client(body: Seq<char>, other: Seq<char>) -> Seq<char> {
    match string_field(body, "client_id"@) {
        Some(client) => client,
        None => other,
    }
}

/// The answer to a registration, with the session that it starts.
pub open spec fn registration_reply(body: Seq<char>, id: Seq<char>) -> Seq<char> {
    match registered_device(body) {
        Some(_) => response(
            200,
            "{\"session_id\":\""@ + id
                + "\",\"websocket_url\":\"/xiaozhi/v1/\",\"ice_servers\":[{\"urls\":[\"stun:stun.l.google.com:19302\"]}]}"@,
        ),
        None => response(400, "{\"error\":\"device_id is required\"}"@),
    }
}

/// The sessions after a registration: a new one for the device, or no change where none is named.
pub open spec fn after_registration(
    sessions: Map<Seq<char>, SessionView>,
    body: Seq<char>,
    client: Seq<char>,
    id: Seq<char>,
    now: u64,
) -> Map<Seq<char>, SessionView> {
    match registered_device(body) {
        Some(device) => sessions.insert(
            id,
            fresh_session(device, registered_client(body, client), now),
        ),
        None => sessions,
    }
}

/// Registers the device that `body` names under the identifier `id`, at the time `now`; `client`
/// is its client where the body names none.
pub fn register_device(state: &mut AppState, body: &str, client: String, id: &str, now: u64) -> (r:
    String)
    ensures
        r@ == registration_reply(body@, id@),
        final(state)@ == after_registration(old(state)@, body@, client@, id@, now),
{
    if let Some(device_id) = parse_json_string(body, "device_id") {
        if !trim(device_id.as_str()).is_empty() {
            let client_id = match parse_json_string(body, "client_id") {
                Some(named) => named,
                None => client,
            };
            state.insert_session(id, device_id, client_id, now);
            let mut payload = "{\"session_id\":\"".to_owned();
            payload.append(id);
            payload.append(
                "\",\"websocket_url\":\"/xiaozhi/v1/\",\"ice_servers\":[{\"urls\":[\"stun:stun.l.google.com:19302\"]}]}",
            );
            return http_response(200, payload.as_str());
        }
    }
    http_response(400, "{\"error\":\"device_id is required\"}")
}

// ---------------------------------------------------------------------------
// Updates over the air
// ---------------------------------------------------------------------------

/// What a device is told of its activation, its connections, the time and its firmware.
pub open spec fn ota_payload(
    device: Seq<char>,
    client: Seq<char>,
    board: Seq<char>,
    version: Seq<char>,
    code: Seq<char>,
    now: u64,
) -> Seq<char> {
    "{\"activation\":{\"code\":\""@ + code
        + "\",\"message\":\"请在设备端输入激活码\"},\"mqtt\":{\"endpoint\":\"mqtt.example.com\",\"client_id\":\"GID_test@@@"@
        + device + "@@@"@ + client + "\",\"username\":\"device_"@ + alphanumerics(device)
        + "\",\"password\":\"password\",\"publish_topic\":\"device-server\"},\"websocket\":{\"url\":\"wss://api.tenclass.net/xiaozhi/v1/\",\"token\":\"test-token\"},\"server_time\":{\"timestamp\":"@
        + decimal(now as nat * 1000)
        + ",\"timezone\":\"Asia/Shanghai\",\"timezone_offset\":-480},\"firmware\":{\"version\":\""@
        + offer(board, version).version + "\",\"url\":\""@ + offer(board, version).url + "\"}}"@
}

/// The answer to a request for an update. The device, the client and the user agent have to be in
/// the headers, in this order, and the board and the version in the body.
pub open spec fn ota_reply(
    headers: Map<Seq<char>, Seq<char>>,
    body: Seq<char>,
    code: Seq<char>,
    now: u64,
) -> Seq<char> {
    let board = nested_string_field(body, "board"@, "name"@);
    let version = nested_string_field(body, "application"@, "version"@);
    if header_value(headers, "device-id"@) is None {
        response(400, "{\"error\":\"Device ID is required\"}"@)
    } else if header_value(headers, "client-id"@) is None {
        response(400, "{\"error\":\"Client ID is required\"}"@)
    } else if header_value(headers, "user-agent"@) is None {
        response(400, "{\"error\":\"User-Agent is required\"}"@)
    } else if board is None || version is None {
        response(400, "{\"error\":\"Invalid OTA request\"}"@)
    } else {
        response(
            200,
            ota_payload(
                headers["device-id"@],
                headers["client-id"@],
                board->0,
                version->0,
                code,
                now,
            ),
        )
    }
}

/// Answers a request for an update whose body is the text `body`, with the activation code `code`
/// at the time `now`.
pub fn answer_ota(request: &HttpRequest, body: &str, code: &str, now: u64) -> (r: String)
    ensures
        r@ == ota_reply(request@.headers, body@, code@, now),
{
    let device_id = match header(request, "device-id") {
        Some(value) => value,
        None => return http_response(400, "{\"error\":\"Device ID is required\"}"),
    };
    let client_id = match header(request, "client-id") {
        Some(value) => value,
        None => return http_response(400, "{\"error\":\"Client ID is required\"}"),
    };
    if header(request, "user-agent").is_none() {
        return http_response(400, "{\"error\":\"User-Agent is required\"}");
    }
    let board_name = match parse_nested_json_string(body, "board", "name") {
        Some(value) => value,
        None => return http_response(400, "{\"error\":\"Invalid OTA request\"}"),
    };
    let current_version = match parse_nested_json_string(body, "application", "version") {
        Some(value) => value,
        None => return http_response(400, "{\"error\":\"Invalid OTA request\"}"),
    };
    let latest = select_firmware(board_name.as_str(), current_version.as_str());
    let now_ms: u128 = now as u128 * 1000;
    let username = sanitize(device_id);

    let mut payload = "{\"activation\":{\"code\":\"".to_owned();
    payload.append(code);
    payload.append(
        "\",\"message\":\"请在设备端输入激活码\"},\"mqtt\":{\"endpoint\":\"mqtt.example.com\",\"client_id\":\"GID_test@@@",
    );
    payload.append(device_id);
    payload.append("@@@");
    payload.append(client_id);
    payload.append("\",\"username\":\"device_");
    payload.append(username.as_str());
    payload.append(
        "\",\"password\":\"password\",\"publish_topic\":\"device-server\"},\"websocket\":{\"url\":\"wss://api.tenclass.net/xiaozhi/v1/\",\"token\":\"test-token\"},\"server_time\":{\"timestamp\":",
    );
    push_decimal(&mut payload, now_ms);
    payload.append(
        ",\"timezone\":\"Asia/Shanghai\",\"timezone_offset\":-480},\"firmware\":{\"version\":\"",
    );
    payload.append(latest.version.as_str());
    payload.append("\",\"url\":\"");
    payload.append(latest.url.as_str());
    payload.append("\"}}");
    http_response(200, payload.as_str())
}

/// `reply` answers a request for an update, for some new activation code and some time.
pub open spec fn updates(request: RequestView, reply: Seq<char>) -> bool {
    exists|code: Seq<char>, now: u64|
        is_code(code, 6) && reply == #[trigger] ota_reply(
            request.headers,
            lossy_text(request.body),
            code,
            now,
        )
}

/// Answers a request for an update, with a new activation code and the present time.
pub fn handle_ota(request: &HttpRequest) -> (r: String)
    ensures
        updates(request@, r@),
        reads_utf8(request@.body),
{
    let body = utf8_lossy(&request.body);
    let code = gen_code(6);
    let now: u64 = now_secs();
    let r = answer_ota(request, body.as_str(), code.as_str(), now);
    assert(is_code(code@, 6) && r@ == ota_reply(
        request@.headers,
        lossy_text(request@.body),
        code@,
        now,
    ));
    r
}

// ---------------------------------------------------------------------------
// All requests
// ---------------------------------------------------------------------------

/// `reply` answers a registration, and `after` are the sessions then, for some client, some time
/// and an identifier of that time that no session had.
pub open spec fn registers(
    body: Seq<char>,
    before: Map<Seq<char>, SessionView>,
    after: Map<Seq<char>, SessionView>,
    reply: Seq<char>,
) -> bool {
    exists|client: Seq<char>, id: Seq<char>, now: u64|
        is_code(client, 8) && is_id(id) && starts_at(before, id, now) && reply
            == registration_reply(body, id) && after == #[trigger] after_registration(
            before,
            body,
            client,
            id,
            now,
        )
}

/// `reply` answers a request that does not open a WebSocket connection, and `after` are the
/// sessions then. The body is read as text where it matters.
pub open spec fn routes(
    request: RequestView,
    before: Map<Seq<char>, SessionView>,
    after: Map<Seq<char>, SessionView>,
    reply: Seq<char>,
) -> bool {
    match route_of(request.method, request.path) {
        Route::Health => {
            &&& reply == health_report(before.len())
            &&& after == before
        },
        Route::Register => {
            &&& registers(lossy_text(request.body), before, after, reply)
            &&& reads_utf8(request.body)
        },
        Route::Ota => {
            &&& updates(request, reply)
            &&& reads_utf8(request.body)
            &&& after == before
        },
        Route::Unknown => {
            &&& reply == response(404, "{\"error\":\"not found\"}"@)
            &&& after == before
        },
    }
}

/// Answers a request that does not open a WebSocket connection.
pub fn route_http_request(request: &HttpRequest, state: &mut AppState) -> (r: String)
    ensures
        routes(request@, old(state)@, final(state)@, r@),
{
    match route(request.method.as_str(), request.path.as_str()) {
        Route::Health => health(state),
        Route::Register => {
            let body = utf8_lossy(&request.body);
            let client = gen_code(8);
            let reading = read_clock();
            let id = state.fresh_id(reading);
            let now: u64 = seconds_at(reading);
            let ghost named = client@;
            let r = register_device(state, body.as_str(), client, id.as_str(), now);
            assert(is_code(named, 8) && is_id(id@) && starts_at(old(state)@, id@, now) && r@
                == registration_reply(body@, id@) && state@ == after_registration(
                old(state)@,
                body@,
                named,
                id@,
                now,
            ));
            r
        },
        Route::Ota => handle_ota(request),
        Route::Unknown => http_response(404, "{\"error\":\"not found\"}"),
    }
}

} // verus!

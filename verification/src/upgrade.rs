//! The start of a WebSocket connection.

use crate::clock::is_id;
use crate::clock::read_clock;
use crate::clock::seconds_at;
use crate::handshake::accept_key;
use crate::handshake::websocket_accept_key;
use crate::http::header_or_empty;
use crate::http::header_text;
use crate::http::http_response;
use crate::http::response;
use crate::http::Headers;
use crate::http::HttpRequest;
use crate::http::RequestView;
use crate::session::belongs_to;
use crate::session::fresh_session;
use crate::session::starts_at;
use crate::session::AppState;
use crate::session::SessionView;
use crate::text::ascii_lowercase;
use crate::text::begins;
use crate::text::contains;
use crate::text::has_text;
use crate::text::lowercased;
use crate::text::same;
use crate::text::strip_prefix;
use crate::text::without_prefix;
use vstd::prelude::*;
use vstd::string::*;

verus! {

// ---------------------------------------------------------------------------
// The headers
// ---------------------------------------------------------------------------

/// The headers name a bearer token.
pub open spec fn has_bearer_token(headers: Map<Seq<char>, Seq<char>>) -> bool {
    let auth = header_text(headers, "authorization"@);
    "Bearer "@.is_prefix_of(auth) && auth.len() > 7
}

/// Why the headers do not open a connection: the first demand that they do not meet.
pub open spec fn refusal(headers: Map<Seq<char>, Seq<char>>) -> Option<Seq<char>> {
    if !contains(lowercased(header_text(headers, "connection"@)), "upgrade"@) || lowercased(
        header_text(headers, "upgrade"@),
    ) != "websocket"@ {
        Some("invalid websocket upgrade headers"@)
    } else if header_text(headers, "protocol-version"@) != "1"@ {
        Some("Protocol-Version must be 1"@)
    } else if !has_bearer_token(headers) {
        Some("Authorization header is required"@)
    } else if header_text(headers, "device-id"@).len() == 0 {
        Some("Device-Id header is required"@)
    } else if header_text(headers, "client-id"@).len() == 0 {
        Some("Client-Id header is required"@)
    } else if header_text(headers, "sec-websocket-key"@).len() == 0 {
        Some("Sec-WebSocket-Key header is required"@)
    } else {
        None
    }
}

/// Holds the headers to what a connection demands, and gives the device, the client and the key.
pub fn validate_ws_headers(headers: &Headers) -> (r: Result<
    (String, String, String),
    &'static str,
>)
    ensures
        match r {
            Ok((device_id, client_id, sec_key)) => {
                &&& refusal(headers@) is None
                &&& device_id@ == header_text(headers@, "device-id"@)
                &&& client_id@ == header_text(headers@, "client-id"@)
                &&& sec_key@ == header_text(headers@, "sec-websocket-key"@)
            },
            Err(message) => refusal(headers@) == Some(message@),
        },
{
    let connection = ascii_lowercase(header_or_empty(headers, "connection"));
    let upgrade = ascii_lowercase(header_or_empty(headers, "upgrade"));
    if !has_text(connection.as_str(), "upgrade") || !same(upgrade.as_str(), "websocket") {
        return Err("invalid websocket upgrade headers");
    }
    if !same(header_or_empty(headers, "protocol-version"), "1") {
        return Err("Protocol-Version must be 1");
    }
    let auth = header_or_empty(headers, "authorization");
    if !begins(auth, "Bearer ") || auth.unicode_len() <= 7 {
        return Err("Authorization header is required");
    }
    let device_id = header_or_empty(headers, "device-id");
    if device_id.is_empty() {
        return Err("Device-Id header is required");
    }
    let client_id = header_or_empty(headers, "client-id");
    if client_id.is_empty() {
        return Err("Client-Id header is required");
    }
    let sec_key = header_or_empty(headers, "sec-websocket-key");
    if sec_key.is_empty() {
        return Err("Sec-WebSocket-Key header is required");
    }
    Ok((device_id.to_owned(), client_id.to_owned(), sec_key.to_owned()))
}

// ---------------------------------------------------------------------------
// The decision
// ---------------------------------------------------------------------------

/// The answer to a request.
pub enum Reply {
    /// A response, after which the connection ends.
    Respond(String),
    /// A handshake that opens a WebSocket connection, and the session that it belongs to.
    Connect(String, String),
}

/// What the answer to a request holds.
pub enum ReplyView {
    Respond(Seq<char>),
    Connect(Seq<char>, Seq<char>),
}

impl View for Reply {
    type V = ReplyView;

    open spec fn view(&self) -> ReplyView {
        match *self {
            Reply::Respond(reply) => ReplyView::Respond(reply@),
            Reply::Connect(handshake, id) => ReplyView::Connect(handshake@, id@),
        }
    }
}

/// The response that refuses a connection with a reason.
pub open spec fn refusal_reply(message: Seq<char>) -> Seq<char> {
    response(401, "{\"error\":\""@ + message + "\"}"@)
}

/// The response where the session that is asked for does not exist.
pub open spec fn no_session_reply() -> Seq<char> {
    response(404, "{\"error\":\"session not found\"}"@)
}

/// The handshake that answers a client's key.
pub open spec fn handshake_reply(key: Seq<char>) -> Seq<char> {
    "HTTP/1.1 101 Switching Protocols\r\nUpgrade: websocket\r\nConnection: Upgrade\r\nSec-WebSocket-Accept: "@
        + accept_key(key) + "\r\n\r\n"@
}

/// The session that a path under `/ws/` names.
pub open spec fn named_session(path: Seq<char>) -> Seq<char> {
    without_prefix(path, "/ws/"@)
}

/// `reply` answers a request for a connection and `after` are the sessions then, where `id` and
/// `now` are at hand for a session that has to be started.
///
/// Headers that do not meet the demands are refused. A path under `/ws/` names a session, which
/// has to exist. Any other path takes a session of the device and the client, and starts one where
/// there is none.
pub open spec fn upgrades(
    request: RequestView,
    before: Map<Seq<char>, SessionView>,
    id: Seq<char>,
    now: u64,
    after: Map<Seq<char>, SessionView>,
    reply: ReplyView,
) -> bool {
    let device = header_text(request.headers, "device-id"@);
    let client = header_text(request.headers, "client-id"@);
    let handshake = handshake_reply(header_text(request.headers, "sec-websocket-key"@));
    match refusal(request.headers) {
        Some(message) => {
            &&& reply == ReplyView::Respond(refusal_reply(message))
            &&& after == before
        },
        None => if "/ws/"@.is_prefix_of(request.path) {
            let named = named_session(request.path);
            &&& reply == if before.contains_key(named) {
                ReplyView::Connect(handshake, named)
            } else {
                ReplyView::Respond(no_session_reply())
            }
            &&& after == before
        } else if exists|k: Seq<char>| belongs_to(before, k, device, client) {
            &&& reply matches ReplyView::Connect(text, taken) && text == handshake
                && belongs_to(before, taken, device, client)
            &&& after == before
        } else {
            &&& reply == ReplyView::Connect(handshake, id)
            &&& after == before.insert(id, fresh_session(device, client, now))
        },
    }
}

/// Answers a request for a connection; `id` and `now` are for a session that has to be started.
pub fn answer_upgrade(state: &mut AppState, request: &HttpRequest, id: &str, now: u64) -> (r:
    Reply)
    ensures
        upgrades(request@, old(state)@, id@, now, final(state)@, r@),
{
    let (device_id, client_id, sec_key) = match validate_ws_headers(&request.headers) {
        Ok(found) => found,
        Err(message) => {
            let mut payload = "{\"error\":\"".to_owned();
            payload.append(message);
            payload.append("\"}");
            return Reply::Respond(http_response(401, payload.as_str()));
        },
    };
    let session_id = if begins(request.path.as_str(), "/ws/") {
        strip_prefix(request.path.as_str(), "/ws/").to_owned()
    } else {
        match state.find_by_device_client(device_id.as_str(), client_id.as_str()) {
            Some(found) => found,
            None => {
                state.insert_session(id, device_id, client_id, now);
                id.to_owned()
            },
        }
    };
    if state.get_session(session_id.as_str()).is_none() {
        return Reply::Respond(http_response(404, "{\"error\":\"session not found\"}"));
    }
    let accept_value = websocket_accept_key(sec_key.as_str());
    let mut handshake =
        "HTTP/1.1 101 Switching Protocols\r\nUpgrade: websocket\r\nConnection: Upgrade\r\nSec-WebSocket-Accept: ".to_owned();
    handshake.append(accept_value.as_str());
    handshake.append("\r\n\r\n");
    Reply::Connect(handshake, session_id)
}

/// Answers a request for a connection; a session that has to be started gets an identifier that
/// no session has and the present time.
pub fn handle_websocket_upgrade(state: &mut AppState, request: &HttpRequest) -> (r: Reply)
    ensures
        exists|id: Seq<char>, now: u64|
            is_id(id) && starts_at(old(state)@, id, now) && #[trigger] upgrades(
                request@,
                old(state)@,
                id,
                now,
                final(state)@,
                r@,
            ),
{
    let reading = read_clock();
    let id = state.fresh_id(reading);
    let now: u64 = seconds_at(reading);
    answer_upgrade(state, request, id.as_str(), now)
}

} // verus!

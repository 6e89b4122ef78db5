//! What holds of the server as a whole, from one request, message or connection to the next.

use crate::clock::is_code;
use crate::clock::is_id;
use crate::clock::law_id_shape;
use crate::firmware::offer;
use crate::frame::decoded;
use crate::frame::frame_bytes;
use crate::frame::law_frame_round_trip;
use crate::frame::law_masked_frame_round_trip;
use crate::frame::masked_frame_bytes;
use crate::frame::FrameView;
use crate::frame::WsFrame;
use crate::handshake::accept_key;
use crate::http::header_text;
use crate::http::law_websocket_paths;
use crate::http::response;
use crate::http::RequestView;
use crate::json::law_payload;
use crate::json::nested_string_field;
use crate::json::not_before;
use crate::json::string_field;
use crate::messages::after_event;
use crate::messages::after_frame;
use crate::messages::after_message;
use crate::messages::event_action;
use crate::messages::frame_action;
use crate::messages::message_reply;
use crate::messages::said_hello;
use crate::messages::ActionView;
use crate::messages::EventView;
use crate::messages::WsAction;
use crate::messages::WsEvent;
use crate::routes::after_registration;
use crate::routes::health_report;
use crate::routes::ota_payload;
use crate::routes::ota_reply;
use crate::routes::registered_client;
use crate::routes::registered_device;
use crate::routes::registers;
use crate::routes::registration_reply;
use crate::routes::route_of;
use crate::routes::routes;
use crate::server::wants_websocket;
use crate::session::belongs_to;
use crate::session::law_hello_is_marked;
use crate::session::starts_at;
use crate::session::SessionView;
use crate::text::alphanumerics;
use crate::text::contains;
use crate::text::decimal;
use crate::text::law_prefix_is_dropped;
use crate::text::lossy_text;
use crate::text::lowercased;
use crate::text::reads_utf8;
use crate::text::trimmed;
use crate::text::without_prefix;
use crate::upgrade::handshake_reply;
use crate::upgrade::has_bearer_token;
use crate::upgrade::named_session;
use crate::upgrade::no_session_reply;
use crate::upgrade::refusal;
use crate::upgrade::refusal_reply;
use crate::upgrade::upgrades;
use crate::upgrade::Reply;
use crate::upgrade::ReplyView;
use vstd::prelude::*;
use vstd::utf8::encode_utf8;
use vstd::utf8::encode_utf8_decode_utf8;
use vstd::utf8::encode_utf8_valid_utf8;

verus! {

// ---------------------------------------------------------------------------
// Requests
// ---------------------------------------------------------------------------

/// A registration under an identifier that is not in use adds one session: the one of the device,
/// which has not said hello.
pub proof fn law_registration_adds_a_session(
    sessions: Map<Seq<char>, SessionView>,
    body: Seq<char>,
    client: Seq<char>,
    id: Seq<char>,
    now: u64,
)
    requires
        sessions.dom().finite(),
        registered_device(body) is Some,
        !sessions.contains_key(id),
    ensures
        ({
            let after = after_registration(sessions, body, client, id, now);
            &&& after.len() == sessions.len() + 1
            &&& belongs_to(
                after,
                id,
                registered_device(body)->0,
                registered_client(body, client),
            )
            &&& after[id].created_at_unix == now
            &&& !said_hello(after, id)
            &&& forall|k: Seq<char>| #[trigger]
                sessions.contains_key(k) ==> after.contains_key(k) && after[k] == sessions[k]
        }),
{
}

/// The health report after a registration under an identifier that is not in use counts one
/// session more.
pub proof fn law_health_counts_registration(
    sessions: Map<Seq<char>, SessionView>,
    body: Seq<char>,
    client: Seq<char>,
    id: Seq<char>,
    now: u64,
    request: RequestView,
    after: Map<Seq<char>, SessionView>,
    reply: Seq<char>,
)
    requires
        sessions.dom().finite(),
        registered_device(body) is Some,
        !sessions.contains_key(id),
        route_of(request.method, request.path) is Health,
        routes(request, after_registration(sessions, body, client, id, now), after, reply),
    ensures
        reply == health_report(sessions.len() + 1),
        after == after_registration(sessions, body, client, id, now),
{
}

/// Removing a session undoes its start under an identifier that was not in use.
pub proof fn law_removal_undoes_start(
    sessions: Map<Seq<char>, SessionView>,
    id: Seq<char>,
    session: SessionView,
)
    requires
        !sessions.contains_key(id),
    ensures
        sessions.insert(id, session).remove(id) == sessions,
{
    assert(sessions.insert(id, session).remove(id) =~= sessions);
}

/// Of the plain requests only a registration that names a device changes the sessions.
pub proof fn law_only_registration_changes_sessions(
    request: RequestView,
    before: Map<Seq<char>, SessionView>,
    after: Map<Seq<char>, SessionView>,
    reply: Seq<char>,
)
    requires
        routes(request, before, after, reply),
    ensures
        after != before ==> route_of(request.method, request.path) is Register
            && registered_device(lossy_text(request.body)) is Some,
{
}

/// A request for an update is answered with firmware just where its headers name the device, the
/// client and the user agent, and its body the board and the version; else it is refused.
pub proof fn law_update_demands(
    headers: Map<Seq<char>, Seq<char>>,
    body: Seq<char>,
    code: Seq<char>,
    now: u64,
)
    ensures
        ({
            let board = nested_string_field(body, "board"@, "name"@);
            let version = nested_string_field(body, "application"@, "version"@);
            if headers.contains_key("device-id"@) && headers.contains_key("client-id"@)
                && headers.contains_key("user-agent"@) && board is Some && version is Some {
                ota_reply(headers, body, code, now) == response(
                    200,
                    ota_payload(
                        headers["device-id"@],
                        headers["client-id"@],
                        board->0,
                        version->0,
                        code,
                        now,
                    ),
                )
            } else {
                exists|reason: Seq<char>|
                    ota_reply(headers, body, code, now) == #[trigger] response(400, reason)
            }
        }),
{
    let board = nested_string_field(body, "board"@, "name"@);
    let version = nested_string_field(body, "application"@, "version"@);
    let reply = ota_reply(headers, body, code, now);
    if !headers.contains_key("device-id"@) {
        assert(reply == response(400, "{\"error\":\"Device ID is required\"}"@));
    } else if !headers.contains_key("client-id"@) {
        assert(reply == response(400, "{\"error\":\"Client ID is required\"}"@));
    } else if !headers.contains_key("user-agent"@) {
        assert(reply == response(400, "{\"error\":\"User-Agent is required\"}"@));
    } else if board is None || version is None {
        assert(reply == response(400, "{\"error\":\"Invalid OTA request\"}"@));
    }
}

/// The demands on the headers of a connection: those of an upgrade to WebSocket, the protocol
/// version, a bearer token, the device, the client and the key.
pub proof fn law_connection_demands(headers: Map<Seq<char>, Seq<char>>)
    ensures
        refusal(headers) is None <==> {
            &&& contains(lowercased(header_text(headers, "connection"@)), "upgrade"@)
            &&& lowercased(header_text(headers, "upgrade"@)) == "websocket"@
            &&& header_text(headers, "protocol-version"@) == "1"@
            &&& has_bearer_token(headers)
            &&& header_text(headers, "device-id"@).len() > 0
            &&& header_text(headers, "client-id"@).len() > 0
            &&& header_text(headers, "sec-websocket-key"@).len() > 0
        },
{
}

/// A path under `/ws/` that ends in a name without that prefix names just that session.
proof fn lemma_named_session(id: Seq<char>)
    requires
        !"/ws/"@.is_prefix_of(id),
    ensures
        named_session("/ws/"@ + id) == id,
        "/ws/"@.is_prefix_of("/ws/"@ + id),
{
    reveal_strlit("/ws/");
    let path = "/ws/"@ + id;
    assert("/ws/"@.is_prefix_of(path)) by {
        assert(path.take("/ws/"@.len() as int) =~= "/ws/"@);
    }
    assert(path.skip("/ws/"@.len() as int) =~= id);
    reveal_with_fuel(without_prefix, 2);
}

/// An identifier does not start with the prefix of the session paths.
proof fn lemma_id_without_prefix(id: Seq<char>)
    requires
        is_id(id),
    ensures
        !"/ws/"@.is_prefix_of(id),
{
    law_id_shape(id);
    reveal_strlit("/ws/");
    if "/ws/"@.is_prefix_of(id) {
        assert(id[0] == "/ws/"@[0]);
    }
}

/// A device that has registered can connect to its session: with headers that meet the demands,
/// the path that names the session is answered with the handshake, and no session changes.
pub proof fn law_registered_device_connects(
    sessions: Map<Seq<char>, SessionView>,
    body: Seq<char>,
    client: Seq<char>,
    id: Seq<char>,
    now: u64,
    request: RequestView,
    other_id: Seq<char>,
    later: u64,
    after: Map<Seq<char>, SessionView>,
    reply: ReplyView,
)
    requires
        registered_device(body) is Some,
        is_id(id),
        request.path == "/ws/"@ + id,
        refusal(request.headers) is None,
        upgrades(
            request,
            after_registration(sessions, body, client, id, now),
            other_id,
            later,
            after,
            reply,
        ),
    ensures
        reply == ReplyView::Connect(
            handshake_reply(header_text(request.headers, "sec-websocket-key"@)),
            id,
        ),
        after == after_registration(sessions, body, client, id, now),
{
    lemma_id_without_prefix(id);
    lemma_named_session(id);
}

/// Headers that do not meet the demands are refused with the reason, whatever the path, and no
/// session changes.
pub proof fn law_bad_headers_are_refused(
    request: RequestView,
    before: Map<Seq<char>, SessionView>,
    id: Seq<char>,
    now: u64,
    after: Map<Seq<char>, SessionView>,
    reply: ReplyView,
)
    requires
        refusal(request.headers) is Some,
        upgrades(request, before, id, now, after, reply),
    ensures
        reply == ReplyView::Respond(refusal_reply(refusal(request.headers)->0)),
        after == before,
{
}

/// A connection that is accepted belongs to a session that exists.
pub proof fn law_connection_has_a_session(
    request: RequestView,
    before: Map<Seq<char>, SessionView>,
    id: Seq<char>,
    now: u64,
    after: Map<Seq<char>, SessionView>,
    reply: ReplyView,
)
    requires
        upgrades(request, before, id, now, after, reply),
    ensures
        reply matches ReplyView::Connect(_, taken) ==> after.contains_key(taken),
{
}

/// A connection on the common path belongs to a session of the device and the client that the
/// headers name.
pub proof fn law_connection_is_the_devices_own(
    request: RequestView,
    before: Map<Seq<char>, SessionView>,
    id: Seq<char>,
    now: u64,
    after: Map<Seq<char>, SessionView>,
    reply: ReplyView,
)
    requires
        refusal(request.headers) is None,
        !"/ws/"@.is_prefix_of(request.path),
        upgrades(request, before, id, now, after, reply),
    ensures
        reply matches ReplyView::Connect(_, taken) && belongs_to(
            after,
            taken,
            header_text(request.headers, "device-id"@),
            header_text(request.headers, "client-id"@),
        ),
{
}

/// A device that comes back on the common path gets a session of its own again, and none is
/// started.
pub proof fn law_device_keeps_its_session(
    first: RequestView,
    second: RequestView,
    before: Map<Seq<char>, SessionView>,
    id: Seq<char>,
    now: u64,
    between: Map<Seq<char>, SessionView>,
    reply: ReplyView,
    other_id: Seq<char>,
    later: u64,
    after: Map<Seq<char>, SessionView>,
    other_reply: ReplyView,
)
    requires
        refusal(first.headers) is None,
        refusal(second.headers) is None,
        !"/ws/"@.is_prefix_of(first.path),
        !"/ws/"@.is_prefix_of(second.path),
        header_text(first.headers, "device-id"@) == header_text(second.headers, "device-id"@),
        header_text(first.headers, "client-id"@) == header_text(second.headers, "client-id"@),
        upgrades(first, before, id, now, between, reply),
        upgrades(second, between, other_id, later, after, other_reply),
    ensures
        after == between,
        other_reply matches ReplyView::Connect(_, taken) && belongs_to(
            after,
            taken,
            header_text(second.headers, "device-id"@),
            header_text(second.headers, "client-id"@),
        ),
{
    let device = header_text(first.headers, "device-id"@);
    let client = header_text(first.headers, "client-id"@);
    if exists|k: Seq<char>| belongs_to(before, k, device, client) {
        let k = choose|k: Seq<char>| belongs_to(before, k, device, client);
        assert(belongs_to(between, k, device, client));
    } else {
        assert(belongs_to(between, id, device, client));
    }
}

// ---------------------------------------------------------------------------
// Connections
// ---------------------------------------------------------------------------

/// A session ends with its connection, and not before: it is gone where the connection stops, and
/// stays where the connection goes on.
pub proof fn law_session_ends_with_connection(
    sessions: Map<Seq<char>, SessionView>,
    id: Seq<char>,
    event: EventView,
)
    ensures
        match event_action(event) {
            ActionView::Stop => !after_event(sessions, id, event).contains_key(id),
            ActionView::SendAndStop(_) => !after_event(sessions, id, event).contains_key(id),
            _ => after_event(sessions, id, event).dom() == sessions.dom(),
        },
{
    assert(after_event(sessions, id, event).dom() =~= if event_action(event) is Stop
        || event_action(event) is SendAndStop {
        sessions.dom().remove(id)
    } else {
        sessions.dom()
    });
}

/// Once its connection has ended a session cannot be connected to.
pub proof fn law_ended_session_is_not_found(
    sessions: Map<Seq<char>, SessionView>,
    id: Seq<char>,
    event: EventView,
    request: RequestView,
    other_id: Seq<char>,
    now: u64,
    after: Map<Seq<char>, SessionView>,
    reply: ReplyView,
)
    requires
        is_id(id),
        event_action(event) is Stop || event_action(event) is SendAndStop,
        request.path == "/ws/"@ + id,
        refusal(request.headers) is None,
        upgrades(request, after_event(sessions, id, event), other_id, now, after, reply),
    ensures
        reply == ReplyView::Respond(no_session_reply()),
        after == after_event(sessions, id, event),
{
    law_session_ends_with_connection(sessions, id, event);
    lemma_id_without_prefix(id);
    lemma_named_session(id);
}

/// What happens on the connection of one session leaves the other sessions as they are.
pub proof fn law_sessions_are_separate(
    sessions: Map<Seq<char>, SessionView>,
    id: Seq<char>,
    event: EventView,
    other: Seq<char>,
)
    requires
        other != id,
    ensures
        after_event(sessions, id, event).contains_key(other) == sessions.contains_key(other),
        sessions.contains_key(other) ==> after_event(sessions, id, event)[other]
            == sessions[other],
{
}

/// An event changes nothing of a session but whether its device has said hello.
pub proof fn law_session_data_is_kept(
    sessions: Map<Seq<char>, SessionView>,
    id: Seq<char>,
    event: EventView,
)
    requires
        after_event(sessions, id, event).contains_key(id),
    ensures
        sessions.contains_key(id),
        ({
            let session = after_event(sessions, id, event)[id];
            &&& session.device_id == sessions[id].device_id
            &&& session.client_id == sessions[id].client_id
            &&& session.created_at_unix == sessions[id].created_at_unix
            &&& sessions[id].hello_done ==> session.hello_done
        }),
{
}

/// Every frame that the server sends can be read by the client, and is used up by that: text for
/// text, the same data for binary data, a pong with the same payload for a ping, an empty close
/// for a close.
pub proof fn law_replies_can_be_read(frame: FrameView)
    requires
        frame.payload.len() < 0x1_0000_0000_0000_0000,
    ensures
        ({
            let text = encode_utf8(message_reply(lossy_text(frame.payload)));
            frame.opcode == 1 && text.len() < 0x1_0000_0000_0000_0000 ==> (event_action(
                EventView::Frame(frame),
            ) matches ActionView::Send(bytes) && decoded(bytes) == Some(
                (FrameView { opcode: 1, payload: text }, bytes.len()),
            ))
        }),
        frame.opcode == 2 ==> (event_action(
            EventView::Frame(frame),
        ) matches ActionView::Send(bytes) && decoded(bytes) == Some(
            (FrameView { opcode: 2, payload: frame.payload }, bytes.len()),
        )),
        frame.opcode == 8 ==> (event_action(
            EventView::Frame(frame),
        ) matches ActionView::SendAndStop(bytes) && decoded(bytes) == Some(
            (FrameView { opcode: 8, payload: Seq::<u8>::empty() }, bytes.len()),
        )),
        frame.opcode == 9 ==> (event_action(
            EventView::Frame(frame),
        ) matches ActionView::Send(bytes) && decoded(bytes) == Some(
            (FrameView { opcode: 10, payload: frame.payload }, bytes.len()),
        )),
{
    let text = encode_utf8(message_reply(lossy_text(frame.payload)));
    if text.len() < 0x1_0000_0000_0000_0000 {
        lemma_decoded_alone(1, text);
    }
    lemma_decoded_alone(2, frame.payload);
    lemma_decoded_alone(8, Seq::<u8>::empty());
    lemma_decoded_alone(10, frame.payload);
}

/// A text that a client sends in a masked frame is answered with the reply to just that text, in
/// a frame of its own.
pub proof fn law_client_text_is_answered(
    sessions: Map<Seq<char>, SessionView>,
    id: Seq<char>,
    text: Seq<char>,
    key: Seq<u8>,
)
    requires
        key.len() == 4,
        encode_utf8(text).len() < 0x1_0000_0000_0000_0000,
    ensures
        decoded(masked_frame_bytes(1, encode_utf8(text), key)) matches Some((frame, _)) && (
        reads_utf8(frame.payload) ==> {
            &&& event_action(EventView::Frame(frame)) == ActionView::Send(
                frame_bytes(1, encode_utf8(message_reply(text))),
            )
            &&& after_event(sessions, id, EventView::Frame(frame)) == after_message(
                sessions,
                id,
                text,
            )
        }),
{
    let bytes = masked_frame_bytes(1, encode_utf8(text), key);
    law_masked_frame_round_trip(1, encode_utf8(text), key, Seq::<u8>::empty());
    assert(bytes + Seq::<u8>::empty() =~= bytes);
    encode_utf8_valid_utf8(text);
    encode_utf8_decode_utf8(text);
}

proof fn lemma_decoded_alone(opcode: u8, payload: Seq<u8>)
    requires
        opcode < 16,
        payload.len() < 0x1_0000_0000_0000_0000,
    ensures
        decoded(frame_bytes(opcode, payload)) == Some(
            (FrameView { opcode, payload }, frame_bytes(opcode, payload).len()),
        ),
{
    law_frame_round_trip(opcode, payload, Seq::<u8>::empty());
    assert(frame_bytes(opcode, payload) + Seq::<u8>::empty() =~= frame_bytes(opcode, payload));
}

// ---------------------------------------------------------------------------
// Messages
// ---------------------------------------------------------------------------

/// A hello is answered with the server's hello and noted: from then on the device has said hello.
pub proof fn law_hello_is_noted(
    sessions: Map<Seq<char>, SessionView>,
    id: Seq<char>,
    text: Seq<char>,
)
    requires
        sessions.contains_key(id),
        contains(text, "\"type\":\"hello\""@),
    ensures
        message_reply(text)
            == "{\"type\":\"hello\",\"transport\":\"websocket\",\"audio_params\":{\"format\":\"opus\",\"sample_rate\":24000,\"channels\":1,\"frame_duration\":60}}"@,
        said_hello(after_message(sessions, id, text), id),
{
}

/// No message takes a hello back.
pub proof fn law_hello_is_kept(
    sessions: Map<Seq<char>, SessionView>,
    id: Seq<char>,
    text: Seq<char>,
)
    requires
        said_hello(sessions, id),
    ensures
        said_hello(after_message(sessions, id, text), id),
{
}

/// A hello changes nothing of the sessions but the mark of its own session.
pub proof fn law_hello_changes_one_mark(
    sessions: Map<Seq<char>, SessionView>,
    id: Seq<char>,
    text: Seq<char>,
    other: Seq<char>,
)
    requires
        contains(text, "\"type\":\"hello\""@),
    ensures
        after_message(sessions, id, text).dom() == sessions.dom(),
        sessions.contains_key(id) ==> after_message(sessions, id, text)[id] == (SessionView {
            device_id: sessions[id].device_id,
            client_id: sessions[id].client_id,
            created_at_unix: sessions[id].created_at_unix,
            hello_done: true,
        }),
        other != id ==> after_message(sessions, id, text)[other] == sessions[other],
        message_reply(text)
            == "{\"type\":\"hello\",\"transport\":\"websocket\",\"audio_params\":{\"format\":\"opus\",\"sample_rate\":24000,\"channels\":1,\"frame_duration\":60}}"@,
{
    law_hello_is_marked(sessions, id, other);
}

/// A message that is no hello and holds both the mark of listening and that of a start, in any
/// place and order, is answered with what was detected.
pub proof fn law_listen_start_is_answered(
    sessions: Map<Seq<char>, SessionView>,
    id: Seq<char>,
    text: Seq<char>,
)
    requires
        !contains(text, "\"type\":\"hello\""@),
        contains(text, "\"type\":\"listen\""@),
        contains(text, "\"state\":\"start\""@),
    ensures
        message_reply(text)
            == "{\"session_id\":\"\",\"type\":\"listen\",\"state\":\"detect\",\"text\":\"你好小智\"}"@,
        after_message(sessions, id, text) == sessions,
{
}

/// A message that is no hello and holds both the mark of listening and that of a stop, and not
/// that of a start, is answered with the stop of the speech.
pub proof fn law_listen_stop_is_answered(
    sessions: Map<Seq<char>, SessionView>,
    id: Seq<char>,
    text: Seq<char>,
)
    requires
        !contains(text, "\"type\":\"hello\""@),
        contains(text, "\"type\":\"listen\""@),
        !contains(text, "\"state\":\"start\""@),
        contains(text, "\"state\":\"stop\""@),
    ensures
        message_reply(text) == "{\"type\":\"tts\",\"state\":\"stop\"}"@,
        after_message(sessions, id, text) == sessions,
{
}

/// A message to abort is answered with the stop of the speech, unless it is of one of the kinds
/// that are looked for before.
pub proof fn law_abort_is_answered(
    sessions: Map<Seq<char>, SessionView>,
    id: Seq<char>,
    text: Seq<char>,
)
    requires
        contains(text, "\"type\":\"abort\""@),
        !contains(text, "\"type\":\"hello\""@),
        !(contains(text, "\"type\":\"listen\""@) && (contains(text, "\"state\":\"start\""@)
            || contains(text, "\"state\":\"stop\""@))),
    ensures
        message_reply(text) == "{\"type\":\"tts\",\"state\":\"stop\"}"@,
        after_message(sessions, id, text) == sessions,
{
}

/// The payload of an mcp message comes back in the reply, unless the message is of one of the
/// kinds that are looked for before: all that stands between the first payload key and the last
/// character, or the empty object where the message has no payload key.
pub proof fn law_mcp_is_echoed(
    sessions: Map<Seq<char>, SessionView>,
    id: Seq<char>,
    text: Seq<char>,
    before: Seq<char>,
    payload: Seq<char>,
    last: char,
)
    requires
        contains(text, "\"type\":\"mcp\""@),
        !contains(text, "\"type\":\"hello\""@),
        !(contains(text, "\"type\":\"listen\""@) && (contains(text, "\"state\":\"start\""@)
            || contains(text, "\"state\":\"stop\""@))),
        !contains(text, "\"type\":\"abort\""@),
    ensures
        text == before + "\"payload\":"@ + payload + seq![last] && last as u32 <= 127
            && not_before(text, "\"payload\":"@, before.len() as int) ==> message_reply(text)
            == "{\"session_id\":\"\",\"type\":\"mcp\",\"payload\":{\"echo\":"@ + payload + "}}"@,
        text == before + "\"payload\":"@ + payload + seq![last] && last as u32 > 127 && not_before(
            text,
            "\"payload\":"@,
            before.len() as int,
        ) ==> message_reply(text)
            == "{\"session_id\":\"\",\"type\":\"mcp\",\"payload\":{\"echo\":"@ + "{}"@ + "}}"@,
        !contains(text, "\"payload\":"@) ==> message_reply(text)
            == "{\"session_id\":\"\",\"type\":\"mcp\",\"payload\":{\"echo\":"@ + "{}"@ + "}}"@,
        after_message(sessions, id, text) == sessions,
{
    law_payload(before, payload, last);
    law_payload(text, payload, last);
}

/// A message with none of the marks is acknowledged, whatever the sessions hold, and changes none
/// of them.
pub proof fn law_other_text_is_acknowledged(
    sessions: Map<Seq<char>, SessionView>,
    id: Seq<char>,
    text: Seq<char>,
)
    requires
        !contains(text, "\"type\":\"hello\""@),
        !(contains(text, "\"type\":\"listen\""@) && (contains(text, "\"state\":\"start\""@)
            || contains(text, "\"state\":\"stop\""@))),
        !contains(text, "\"type\":\"abort\""@),
        !contains(text, "\"type\":\"mcp\""@),
        !contains(text, "\"type\":\"ping\""@),
    ensures
        message_reply(text) == "{\"type\":\"ack\"}"@,
        after_message(sessions, id, text) == sessions,
{
}

/// A message with a ping is answered with a pong, unless it is of one of the kinds that are
/// looked for before.
pub proof fn law_ping_is_answered(
    sessions: Map<Seq<char>, SessionView>,
    id: Seq<char>,
    text: Seq<char>,
)
    requires
        contains(text, "\"type\":\"ping\""@),
        !contains(text, "\"type\":\"hello\""@),
        !(contains(text, "\"type\":\"listen\""@) && (contains(text, "\"state\":\"start\""@)
            || contains(text, "\"state\":\"stop\""@))),
        !contains(text, "\"type\":\"abort\""@),
        !contains(text, "\"type\":\"mcp\""@),
    ensures
        message_reply(text) == "{\"type\":\"pong\"}"@,
        after_message(sessions, id, text) == sessions,
{
}

// ---------------------------------------------------------------------------
// What each request is answered
// ---------------------------------------------------------------------------

/// The health report counts the sessions, whatever the headers and the body, and changes none.
pub proof fn law_health_request(
    request: RequestView,
    before: Map<Seq<char>, SessionView>,
    after: Map<Seq<char>, SessionView>,
    reply: Seq<char>,
)
    requires
        routes(request, before, after, reply),
        request.method == "GET"@,
        request.path == "/health"@,
    ensures
        reply == response(
            200,
            "{\"status\":\"ok\",\"active_sessions\":"@ + decimal(before.len())
                + ",\"protocol_version\":1,\"transport\":\"websocket\"}"@,
        ),
        after == before,
{
}

/// A registration that names a device starts one session more, of that device, under an identifier
/// that no session had, and gives the identifier back. Every session from before is still there as
/// it was. The client is the one that the body names.
pub proof fn law_registration_request(
    request: RequestView,
    before: Map<Seq<char>, SessionView>,
    after: Map<Seq<char>, SessionView>,
    reply: Seq<char>,
    device: Seq<char>,
) -> (id: Seq<char>)
    requires
        before.dom().finite(),
        routes(request, before, after, reply),
        request.method == "POST"@,
        request.path == "/api/v1/device/register"@,
        string_field(lossy_text(request.body), "device_id"@) == Some(device),
        trimmed(device).len() > 0,
    ensures
        is_id(id),
        !before.contains_key(id),
        after.dom() == before.dom().insert(id),
        after.len() == before.len() + 1,
        forall|k: Seq<char>| #[trigger] before.contains_key(k) ==> after[k] == before[k],
        after[id].device_id == device,
        !after[id].hello_done,
        starts_at(before, id, after[id].created_at_unix),
        string_field(lossy_text(request.body), "client_id"@) matches Some(client)
            ==> after[id].client_id == client,
        string_field(lossy_text(request.body), "client_id"@) is None ==> is_code(
            after[id].client_id,
            8,
        ),
        reply == response(
            200,
            "{\"session_id\":\""@ + id
                + "\",\"websocket_url\":\"/xiaozhi/v1/\",\"ice_servers\":[{\"urls\":[\"stun:stun.l.google.com:19302\"]}]}"@,
        ),
{
    let body = lossy_text(request.body);
    lemma_routes_differ();
    assert(registers(body, before, after, reply));
    let (client, id, now) = choose|client: Seq<char>, id: Seq<char>, now: u64|
        is_code(client, 8) && is_id(id) && starts_at(before, id, now) && reply
            == registration_reply(body, id) && after == #[trigger] after_registration(
            before,
            body,
            client,
            id,
            now,
        );
    assert(after.dom() =~= before.dom().insert(id));
    id
}

/// The methods and paths of the requests differ.
proof fn lemma_routes_differ()
    ensures
        "GET"@ != "POST"@,
        "/api/v1/device/register"@ != "/api/ota/"@,
        "/api/v1/device/register"@ != "/xiaozhi/ota/"@,
{
    reveal_strlit("GET");
    reveal_strlit("POST");
    reveal_strlit("/api/v1/device/register");
    reveal_strlit("/api/ota/");
    reveal_strlit("/xiaozhi/ota/");
    assert("GET"@.len() == 3 && "POST"@.len() == 4);
    assert("/api/v1/device/register"@.len() == 23);
    assert("/api/ota/"@.len() == 9 && "/xiaozhi/ota/"@.len() == 13);
}

/// A registration under a given identifier gives it back and starts the session with the time, the
/// device and the client that are given; the client that the body names counts before that.
pub proof fn law_registration(
    sessions: Map<Seq<char>, SessionView>,
    body: Seq<char>,
    client: Seq<char>,
    id: Seq<char>,
    now: u64,
    device: Seq<char>,
)
    requires
        string_field(body, "device_id"@) == Some(device),
        trimmed(device).len() > 0,
    ensures
        registration_reply(body, id) == response(
            200,
            "{\"session_id\":\""@ + id
                + "\",\"websocket_url\":\"/xiaozhi/v1/\",\"ice_servers\":[{\"urls\":[\"stun:stun.l.google.com:19302\"]}]}"@,
        ),
        after_registration(sessions, body, client, id, now) == sessions.insert(
            id,
            SessionView {
                device_id: device,
                client_id: match string_field(body, "client_id"@) {
                    Some(named) => named,
                    None => client,
                },
                created_at_unix: now,
                hello_done: false,
            },
        ),
{
}

/// A registration without a device, or with a blank one, is refused and starts no session.
pub proof fn law_registration_refused(
    sessions: Map<Seq<char>, SessionView>,
    body: Seq<char>,
    client: Seq<char>,
    id: Seq<char>,
    now: u64,
    request: RequestView,
    after: Map<Seq<char>, SessionView>,
    reply: Seq<char>,
)
    requires
        string_field(body, "device_id"@) matches Some(device) ==> trimmed(device).len() == 0,
    ensures
        registration_reply(body, id) == response(400, "{\"error\":\"device_id is required\"}"@),
        after_registration(sessions, body, client, id, now) == sessions,
        lossy_text(request.body) == body && request.method == "POST"@ && request.path
            == "/api/v1/device/register"@ && routes(request, sessions, after, reply) ==> reply
            == response(400, "{\"error\":\"device_id is required\"}"@) && after == sessions,
{
    lemma_routes_differ();
}

/// A request for an update is refused with the first thing that it lacks: the device, the client,
/// the user agent, or the board or the version in the body.
pub proof fn law_update_refusals(
    headers: Map<Seq<char>, Seq<char>>,
    body: Seq<char>,
    code: Seq<char>,
    now: u64,
)
    ensures
        ({
            let reply = ota_reply(headers, body, code, now);
            let device = headers.contains_key("device-id"@);
            let client = headers.contains_key("client-id"@);
            let agent = headers.contains_key("user-agent"@);
            &&& !device ==> reply == response(400, "{\"error\":\"Device ID is required\"}"@)
            &&& device && !client ==> reply == response(
                400,
                "{\"error\":\"Client ID is required\"}"@,
            )
            &&& device && client && !agent ==> reply == response(
                400,
                "{\"error\":\"User-Agent is required\"}"@,
            )
            &&& device && client && agent && (nested_string_field(body, "board"@, "name"@) is None
                || nested_string_field(body, "application"@, "version"@) is None) ==> reply
                == response(400, "{\"error\":\"Invalid OTA request\"}"@)
        }),
{
}

/// A device that asks for an update as it should is told its activation code, its own identifier
/// and that of its client, the time in milliseconds, and the firmware for its board and version.
pub proof fn law_update(
    headers: Map<Seq<char>, Seq<char>>,
    body: Seq<char>,
    code: Seq<char>,
    now: u64,
    board: Seq<char>,
    version: Seq<char>,
)
    requires
        headers.contains_key("device-id"@),
        headers.contains_key("client-id"@),
        headers.contains_key("user-agent"@),
        nested_string_field(body, "board"@, "name"@) == Some(board),
        nested_string_field(body, "application"@, "version"@) == Some(version),
    ensures
        ({
            let device = headers["device-id"@];
            let activation = "{\"activation\":{\"code\":\""@ + code
                + "\",\"message\":\"请在设备端输入激活码\"},\"mqtt\":{\"endpoint\":\"mqtt.example.com\",\"client_id\":\"GID_test@@@"@;
            let names = device + "@@@"@ + headers["client-id"@] + "\",\"username\":\"device_"@
                + alphanumerics(device);
            let time =
                "\",\"password\":\"password\",\"publish_topic\":\"device-server\"},\"websocket\":{\"url\":\"wss://api.tenclass.net/xiaozhi/v1/\",\"token\":\"test-token\"},\"server_time\":{\"timestamp\":"@
                + decimal((1000 * now) as nat);
            let firmware =
                ",\"timezone\":\"Asia/Shanghai\",\"timezone_offset\":-480},\"firmware\":{\"version\":\""@
                + offer(board, version).version + "\",\"url\":\""@ + offer(board, version).url
                + "\"}}"@;
            ota_reply(headers, body, code, now) == response(
                200,
                activation + names + time + firmware,
            )
        }),
{
    let device = headers["device-id"@];
    let activation = "{\"activation\":{\"code\":\""@ + code
        + "\",\"message\":\"请在设备端输入激活码\"},\"mqtt\":{\"endpoint\":\"mqtt.example.com\",\"client_id\":\"GID_test@@@"@;
    let names = device + "@@@"@ + headers["client-id"@] + "\",\"username\":\"device_"@
        + alphanumerics(device);
    let time =
        "\",\"password\":\"password\",\"publish_topic\":\"device-server\"},\"websocket\":{\"url\":\"wss://api.tenclass.net/xiaozhi/v1/\",\"token\":\"test-token\"},\"server_time\":{\"timestamp\":"@
        + decimal((1000 * now) as nat);
    let firmware =
        ",\"timezone\":\"Asia/Shanghai\",\"timezone_offset\":-480},\"firmware\":{\"version\":\""@
        + offer(board, version).version + "\",\"url\":\""@ + offer(board, version).url + "\"}}"@;
    let payload = ota_payload(device, headers["client-id"@], board, version, code, now);
    assert(payload =~= activation + names + time + firmware);
}

/// A request for an update comes on either of two paths, is answered for some code of six
/// characters and some time, and changes no session.
pub proof fn law_update_request(
    request: RequestView,
    before: Map<Seq<char>, SessionView>,
    after: Map<Seq<char>, SessionView>,
    reply: Seq<char>,
)
    requires
        routes(request, before, after, reply),
        request.method == "POST"@,
        request.path == "/api/ota/"@ || request.path == "/xiaozhi/ota/"@,
    ensures
        exists|code: Seq<char>, now: u64|
            is_code(code, 6) && reply == #[trigger] ota_reply(
                request.headers,
                lossy_text(request.body),
                code,
                now,
            ),
        after == before,
{
    lemma_routes_differ();
}

/// Every other request is not found and changes no session.
pub proof fn law_unknown_request(
    request: RequestView,
    before: Map<Seq<char>, SessionView>,
    after: Map<Seq<char>, SessionView>,
    reply: Seq<char>,
)
    requires
        routes(request, before, after, reply),
        !(request.method == "GET"@ && request.path == "/health"@),
        !(request.method == "POST"@ && request.path == "/api/v1/device/register"@),
        !(request.method == "POST"@ && request.path == "/api/ota/"@),
        !(request.method == "POST"@ && request.path == "/xiaozhi/ota/"@),
    ensures
        reply == response(404, "{\"error\":\"not found\"}"@),
        after == before,
{
}

// ---------------------------------------------------------------------------
// How a connection is opened
// ---------------------------------------------------------------------------

/// A connection is asked for with `GET` on the common path or on a path under `/ws/`.
pub proof fn law_wants_websocket(request: RequestView)
    ensures
        wants_websocket(request) <==> request.method == "GET"@ && (request.path == "/xiaozhi/v1/"@
            || exists|name: Seq<char>| request.path == #[trigger] ("/ws/"@ + name)),
{
    law_websocket_paths(request.path);
}

/// A bearer token is one or more characters behind the word `Bearer` and a space.
pub proof fn law_bearer_token(headers: Map<Seq<char>, Seq<char>>)
    ensures
        has_bearer_token(headers) <==> exists|token: Seq<char>|
            token.len() > 0 && header_text(headers, "authorization"@) == #[trigger] ("Bearer "@
                + token),
{
    let auth = header_text(headers, "authorization"@);
    reveal_strlit("Bearer ");
    if has_bearer_token(headers) {
        assert(auth =~= "Bearer "@ + auth.skip(7));
        assert(auth.skip(7).len() > 0);
    }
    if exists|token: Seq<char>| token.len() > 0 && auth == #[trigger] ("Bearer "@ + token) {
        let token = choose|token: Seq<char>| token.len() > 0 && auth == #[trigger] ("Bearer "@
            + token);
        assert(auth.take(7) =~= "Bearer "@);
    }
}

/// Headers are refused with the first demand that they do not meet, in this order: the upgrade,
/// the protocol version, the token, the device, the client, the key.
pub proof fn law_refusals(headers: Map<Seq<char>, Seq<char>>)
    ensures
        ({
            let upgrade = contains(lowercased(header_text(headers, "connection"@)), "upgrade"@)
                && lowercased(header_text(headers, "upgrade"@)) == "websocket"@;
            let version = header_text(headers, "protocol-version"@) == "1"@;
            let token = has_bearer_token(headers);
            let device = header_text(headers, "device-id"@).len() > 0;
            let client = header_text(headers, "client-id"@).len() > 0;
            let key = header_text(headers, "sec-websocket-key"@).len() > 0;
            let refused = refusal(headers);
            &&& !upgrade ==> refused == Some("invalid websocket upgrade headers"@)
            &&& upgrade && !version ==> refused == Some("Protocol-Version must be 1"@)
            &&& upgrade && version && !token ==> refused == Some(
                "Authorization header is required"@,
            )
            &&& upgrade && version && token && !device ==> refused == Some(
                "Device-Id header is required"@,
            )
            &&& upgrade && version && token && device && !client ==> refused == Some(
                "Client-Id header is required"@,
            )
            &&& upgrade && version && token && device && client && !key ==> refused == Some(
                "Sec-WebSocket-Key header is required"@,
            )
            &&& upgrade && version && token && device && client && key ==> refused is None
        }),
{
}

/// Refused headers are answered with the reason and status 401.
pub proof fn law_refusal_reply(
    request: RequestView,
    before: Map<Seq<char>, SessionView>,
    id: Seq<char>,
    now: u64,
    after: Map<Seq<char>, SessionView>,
    reply: ReplyView,
    reason: Seq<char>,
)
    requires
        refusal(request.headers) == Some(reason),
        upgrades(request, before, id, now, after, reply),
    ensures
        reply == ReplyView::Respond(response(401, "{\"error\":\""@ + reason + "\"}"@)),
        after == before,
{
}

/// A path under `/ws/` names what stands behind that start, however often it is repeated.
pub proof fn law_named_session(name: Seq<char>)
    ensures
        named_session("/ws/"@ + name) == named_session(name),
        !"/ws/"@.is_prefix_of(name) ==> named_session(name) == name,
{
    reveal_strlit("/ws/");
    law_prefix_is_dropped("/ws/"@, name);
}

/// A session that is named is connected to where it exists, with the handshake for the client's
/// key; else it is not found. No session changes.
pub proof fn law_named_session_is_taken(
    request: RequestView,
    before: Map<Seq<char>, SessionView>,
    id: Seq<char>,
    now: u64,
    after: Map<Seq<char>, SessionView>,
    reply: ReplyView,
    name: Seq<char>,
)
    requires
        refusal(request.headers) is None,
        request.path == "/ws/"@ + name,
        upgrades(request, before, id, now, after, reply),
    ensures
        before.contains_key(named_session(name)) ==> reply == ReplyView::Connect(
            "HTTP/1.1 101 Switching Protocols\r\nUpgrade: websocket\r\nConnection: Upgrade\r\nSec-WebSocket-Accept: "@
                + accept_key(header_text(request.headers, "sec-websocket-key"@)) + "\r\n\r\n"@,
            named_session(name),
        ),
        !before.contains_key(named_session(name)) ==> reply == ReplyView::Respond(
            response(404, "{\"error\":\"session not found\"}"@),
        ),
        after == before,
{
    law_named_session(name);
    assert((("/ws/"@ + name)).take("/ws/"@.len() as int) =~= "/ws/"@);
}

/// Without a name the device and the client of the headers are connected to a session of theirs.
/// Where they have none one is started for them, with the identifier and the time at hand, and
/// every other session stays as it is.
pub proof fn law_own_session_is_taken(
    request: RequestView,
    before: Map<Seq<char>, SessionView>,
    id: Seq<char>,
    now: u64,
    after: Map<Seq<char>, SessionView>,
    reply: ReplyView,
    device: Seq<char>,
    client: Seq<char>,
)
    requires
        refusal(request.headers) is None,
        !"/ws/"@.is_prefix_of(request.path),
        device == header_text(request.headers, "device-id"@),
        client == header_text(request.headers, "client-id"@),
        upgrades(request, before, id, now, after, reply),
    ensures
        ({
            &&& reply matches ReplyView::Connect(handshake, taken)
            &&& handshake
                == "HTTP/1.1 101 Switching Protocols\r\nUpgrade: websocket\r\nConnection: Upgrade\r\nSec-WebSocket-Accept: "@
                + accept_key(header_text(request.headers, "sec-websocket-key"@)) + "\r\n\r\n"@
            &&& after.contains_key(taken) && after[taken].device_id == device
                && after[taken].client_id == client
            &&& taken != id ==> before.contains_key(taken)
        }),
        (exists|k: Seq<char>| #[trigger]
            before.contains_key(k) && before[k].device_id == device && before[k].client_id
                == client) ==> after == before,
        !(exists|k: Seq<char>| #[trigger]
            before.contains_key(k) && before[k].device_id == device && before[k].client_id
                == client) ==> after == before.insert(
            id,
            SessionView {
                device_id: device,
                client_id: client,
                created_at_unix: now,
                hello_done: false,
            },
        ),
{
    if exists|k: Seq<char>| #[trigger]
        before.contains_key(k) && before[k].device_id == device && before[k].client_id == client {
        let k = choose|k: Seq<char>| #[trigger]
            before.contains_key(k) && before[k].device_id == device && before[k].client_id
                == client;
        assert(belongs_to(before, k, device, client));
    }
}

// ---------------------------------------------------------------------------
// How a connection goes on
// ---------------------------------------------------------------------------

/// A text frame is answered with the reply to its text, a binary frame with the same data, a ping
/// with a pong of the same payload, each in one frame; a close ends the connection and the session
/// with an empty close. Any other frame is passed over. A lost connection ends the session.
pub proof fn law_events(
    sessions: Map<Seq<char>, SessionView>,
    id: Seq<char>,
    frame: FrameView,
)
    ensures
        ({
            let action = event_action(EventView::Frame(frame));
            let after = after_event(sessions, id, EventView::Frame(frame));
            let text = lossy_text(frame.payload);
            &&& frame.opcode == 1 ==> action == ActionView::Send(
                frame_bytes(1, encode_utf8(message_reply(text))),
            ) && after == after_message(sessions, id, text)
            &&& frame.opcode == 2 ==> action == ActionView::Send(frame_bytes(2, frame.payload))
                && after == sessions
            &&& frame.opcode == 8 ==> action == ActionView::SendAndStop(
                frame_bytes(8, Seq::<u8>::empty()),
            ) && after == sessions.remove(id)
            &&& frame.opcode == 9 ==> action == ActionView::Send(frame_bytes(10, frame.payload))
                && after == sessions
            &&& frame.opcode != 1 && frame.opcode != 2 && frame.opcode != 8 && frame.opcode != 9
                ==> action == ActionView::Wait && after == sessions
        }),
        event_action(EventView::Lost) == ActionView::Stop,
        after_event(sessions, id, EventView::Lost) == sessions.remove(id),
{
}

/// The action on a frame follows its opcode and, for a text frame, the text that it was read as.
pub proof fn law_frame_actions(
    sessions: Map<Seq<char>, SessionView>,
    id: Seq<char>,
    frame: FrameView,
    text: Seq<char>,
)
    ensures
        frame_action(frame, text) == match frame.opcode {
            1 => ActionView::Send(frame_bytes(1, encode_utf8(message_reply(text)))),
            2 => ActionView::Send(frame_bytes(2, frame.payload)),
            8 => ActionView::SendAndStop(frame_bytes(8, Seq::<u8>::empty())),
            9 => ActionView::Send(frame_bytes(10, frame.payload)),
            _ => ActionView::Wait,
        },
        after_frame(sessions, id, frame, text) == match frame.opcode {
            1 => after_message(sessions, id, text),
            8 => sessions.remove(id),
            _ => sessions,
        },
{
}

/// Frames, events, actions and replies hold what their fields hold.
pub proof fn law_views(frame: WsFrame, event: WsEvent, action: WsAction, reply: Reply)
    ensures
        frame@.opcode == frame.opcode,
        frame@.payload == frame.payload@,
        event matches WsEvent::Frame(inner) ==> event@ == EventView::Frame(inner@),
        event is Lost ==> event@ == EventView::Lost,
        action matches WsAction::Send(bytes) ==> action@ == ActionView::Send(bytes@),
        action matches WsAction::SendAndStop(bytes) ==> action@ == ActionView::SendAndStop(bytes@),
        action is Wait ==> action@ == ActionView::Wait,
        action is Stop ==> action@ == ActionView::Stop,
        reply matches Reply::Respond(text) ==> reply@ == ReplyView::Respond(text@),
        reply matches Reply::Connect(text, id) ==> reply@ == ReplyView::Connect(text@, id@),
{
}

} // verus!

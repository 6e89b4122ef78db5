//! The messages of an open WebSocket connection.

use crate::frame::frame_bytes;
use crate::frame::write_ws_close;
use crate::frame::write_ws_frame;
use crate::frame::write_ws_text;
use crate::frame::FrameView;
use crate::frame::WsFrame;
use crate::json::extract_payload;
use crate::json::payload_part;
use crate::session::with_hello;
use crate::session::AppState;
use crate::session::SessionView;
use crate::text::contains;
use crate::text::has_text;
use crate::text::lossy_text;
use crate::text::reads_utf8;
use crate::text::utf8_lossy;
use vstd::prelude::*;
use vstd::string::*;
use vstd::utf8::encode_utf8;

verus! {

// ---------------------------------------------------------------------------
// Text messages
// ---------------------------------------------------------------------------

/// The kinds of text messages, told by the first of these marks that the text contains.
pub enum MessageKind {
    Hello,
    ListenStart,
    ListenStop,
    Abort,
    Mcp,
    Ping,
    Other,
}

/// The kind of a text message.
pub open spec fn kind_of(text: Seq<char>) -> MessageKind {
    if contains(text, "\"type\":\"hello\""@) {
        MessageKind::Hello
    } else if contains(text, "\"type\":\"listen\""@) && contains(text, "\"state\":\"start\""@) {
        MessageKind::ListenStart
    } else if contains(text, "\"type\":\"listen\""@) && contains(text, "\"state\":\"stop\""@) {
        MessageKind::ListenStop
    } else if contains(text, "\"type\":\"abort\""@) {
        MessageKind::Abort
    } else if contains(text, "\"type\":\"mcp\""@) {
        MessageKind::Mcp
    } else if contains(text, "\"type\":\"ping\""@) {
        MessageKind::Ping
    } else {
        MessageKind::Other
    }
}

/// The device of the session has said hello.
pub open spec fn said_hello(sessions: Map<Seq<char>, SessionView>, id: Seq<char>) -> bool {
    sessions.contains_key(id) && sessions[id].hello_done
}

/// The reply to a text message. Messages of no known kind are acknowledged.
pub open spec fn message_reply(text: Seq<char>) -> Seq<char> {
    match kind_of(text) {
        MessageKind::Hello => "{\"type\":\"hello\",\"transport\":\"websocket\",\"audio_params\":{\"format\":\"opus\",\"sample_rate\":24000,\"channels\":1,\"frame_duration\":60}}"@,
        MessageKind::ListenStart => "{\"session_id\":\"\",\"type\":\"listen\",\"state\":\"detect\",\"text\":\"你好小智\"}"@,
        MessageKind::ListenStop => "{\"type\":\"tts\",\"state\":\"stop\"}"@,
        MessageKind::Abort => "{\"type\":\"tts\",\"state\":\"stop\"}"@,
        MessageKind::Mcp => "{\"session_id\":\"\",\"type\":\"mcp\",\"payload\":{\"echo\":"@
            + payload_part(text) + "}}"@,
        MessageKind::Ping => "{\"type\":\"pong\"}"@,
        MessageKind::Other => "{\"type\":\"ack\"}"@,
    }
}

/// The sessions after a text message: a hello is noted.
pub open spec fn after_message(
    sessions: Map<Seq<char>, SessionView>,
    id: Seq<char>,
    text: Seq<char>,
) -> Map<Seq<char>, SessionView> {
    if kind_of(text) is Hello {
        with_hello(sessions, id)
    } else {
        sessions
    }
}

/// Takes in a text message of a session and gives the reply. Every message has one.
pub fn handle_ws_text_message(text: &str, state: &mut AppState, session_id: &str) -> (r: Option<
    String,
>)
    ensures
        r is Some,
        r->0@ == message_reply(text@),
        final(state)@ == after_message(old(state)@, session_id@, text@),
{
    if has_text(text, "\"type\":\"hello\"") {
        state.mark_hello_done(session_id);
        return Some(
            "{\"type\":\"hello\",\"transport\":\"websocket\",\"audio_params\":{\"format\":\"opus\",\"sample_rate\":24000,\"channels\":1,\"frame_duration\":60}}".to_owned(),
        );
    }
    if has_text(text, "\"type\":\"listen\"") {
        if has_text(text, "\"state\":\"start\"") {
            return Some(
                "{\"session_id\":\"\",\"type\":\"listen\",\"state\":\"detect\",\"text\":\"你好小智\"}".to_owned(),
            );
        }
        if has_text(text, "\"state\":\"stop\"") {
            return Some("{\"type\":\"tts\",\"state\":\"stop\"}".to_owned());
        }
    }
    if has_text(text, "\"type\":\"abort\"") {
        return Some("{\"type\":\"tts\",\"state\":\"stop\"}".to_owned());
    }
    if has_text(text, "\"type\":\"mcp\"") {
        let mut reply = "{\"session_id\":\"\",\"type\":\"mcp\",\"payload\":{\"echo\":".to_owned();
        reply.append(extract_payload(text));
        reply.append("}}");
        return Some(reply);
    }
    if has_text(text, "\"type\":\"ping\"") {
        return Some("{\"type\":\"pong\"}".to_owned());
    }
    Some("{\"type\":\"ack\"}".to_owned())
}

// ---------------------------------------------------------------------------
// The course of a connection
// ---------------------------------------------------------------------------

/// What happened on a connection.
pub enum WsEvent {
    /// A frame came in.
    Frame(WsFrame),
    /// Reading or writing failed: the connection is gone.
    Lost,
}

/// What happened, as far as the course of the connection depends on it.
pub enum EventView {
    Frame(FrameView),
    Lost,
}

impl View for WsEvent {
    type V = EventView;

    open spec fn view(&self) -> EventView {
        match *self {
            WsEvent::Frame(frame) => EventView::Frame(frame@),
            WsEvent::Lost => EventView::Lost,
        }
    }
}

/// What to do next on a connection.
pub enum WsAction {
    /// Write these bytes, then read the next frame.
    Send(Vec<u8>),
    /// Read the next frame.
    Wait,
    /// Write these bytes, then end the connection.
    SendAndStop(Vec<u8>),
    /// End the connection.
    Stop,
}

/// What to do next, with the bytes to write.
pub enum ActionView {
    Send(Seq<u8>),
    Wait,
    SendAndStop(Seq<u8>),
    Stop,
}

impl View for WsAction {
    type V = ActionView;

    open spec fn view(&self) -> ActionView {
        match *self {
            WsAction::Send(bytes) => ActionView::Send(bytes@),
            WsAction::Wait => ActionView::Wait,
            WsAction::SendAndStop(bytes) => ActionView::SendAndStop(bytes@),
            WsAction::Stop => ActionView::Stop,
        }
    }
}

/// What to do after a frame: text is answered, binary data goes back as it came, a close is
/// answered with a close, a ping with a pong of the same payload, and all else is passed over.
/// `text` is the text of the payload.
pub open spec fn frame_action(frame: FrameView, text: Seq<char>) -> ActionView {
    if frame.opcode == 1 {
        ActionView::Send(frame_bytes(1, encode_utf8(message_reply(text))))
    } else if frame.opcode == 2 {
        ActionView::Send(frame_bytes(2, frame.payload))
    } else if frame.opcode == 8 {
        ActionView::SendAndStop(frame_bytes(8, Seq::<u8>::empty()))
    } else if frame.opcode == 9 {
        ActionView::Send(frame_bytes(10, frame.payload))
    } else {
        ActionView::Wait
    }
}

/// The sessions after a frame: text may note a hello, and a close ends the session.
pub open spec fn after_frame(
    sessions: Map<Seq<char>, SessionView>,
    id: Seq<char>,
    frame: FrameView,
    text: Seq<char>,
) -> Map<Seq<char>, SessionView> {
    if frame.opcode == 1 {
        after_message(sessions, id, text)
    } else if frame.opcode == 8 {
        sessions.remove(id)
    } else {
        sessions
    }
}

/// What to do after an event.
pub open spec fn event_action(event: EventView) -> ActionView {
    match event {
        EventView::Frame(frame) => frame_action(frame, lossy_text(frame.payload)),
        EventView::Lost => ActionView::Stop,
    }
}

/// The sessions after an event.
pub open spec fn after_event(
    sessions: Map<Seq<char>, SessionView>,
    id: Seq<char>,
    event: EventView,
) -> Map<Seq<char>, SessionView> {
    match event {
        EventView::Frame(frame) => after_frame(sessions, id, frame, lossy_text(frame.payload)),
        EventView::Lost => sessions.remove(id),
    }
}

/// Takes in a frame of a session whose payload has the text `text`.
pub fn answer_frame(state: &mut AppState, session_id: &str, frame: &WsFrame, text: &str) -> (r:
    WsAction)
    ensures
        r@ == frame_action(frame@, text@),
        final(state)@ == after_frame(old(state)@, session_id@, frame@, text@),
{
    match frame.opcode {
        1 => match handle_ws_text_message(text, state, session_id) {
            Some(reply) => WsAction::Send(write_ws_text(reply.as_str())),
            None => WsAction::Wait,
        },
        2 => WsAction::Send(write_ws_frame(2, &frame.payload)),
        8 => {
            state.remove_session(session_id);
            WsAction::SendAndStop(write_ws_close())
        },
        9 => WsAction::Send(write_ws_frame(10, &frame.payload)),
        _ => WsAction::Wait,
    }
}

/// Takes in an event of a session's connection. The session ends with its connection.
pub fn websocket_step(state: &mut AppState, session_id: &str, event: WsEvent) -> (r: WsAction)
    ensures
        r@ == event_action(event@),
        final(state)@ == after_event(old(state)@, session_id@, event@),
        event@ matches EventView::Frame(frame) ==> (frame.opcode == 1 ==> reads_utf8(
            frame.payload,
        )),
{
    match event {
        WsEvent::Frame(frame) => {
            let text = if frame.opcode == 1 {
                utf8_lossy(&frame.payload)
            } else {
                String::new()
            };
            answer_frame(state, session_id, &frame, text.as_str())
        },
        WsEvent::Lost => {
            state.remove_session(session_id);
            WsAction::Stop
        },
    }
}

} // verus!

//! The answer to a request.

use crate::clock::is_id;
use crate::http::is_websocket_path;
use crate::http::opens_websocket;
use crate::http::HttpRequest;
use crate::http::RequestView;
use crate::routes::route_http_request;
use crate::routes::routes;
use crate::session::starts_at;
use crate::session::AppState;
use crate::text::same;
use crate::upgrade::handle_websocket_upgrade;
use crate::upgrade::upgrades;
use crate::upgrade::Reply;
use crate::upgrade::ReplyView;
use vstd::prelude::*;

verus! {

/// The request asks for a WebSocket connection.
pub open spec fn wants_websocket(request: RequestView) -> bool {
    request.method == "GET"@ && opens_websocket(request.path)
}

/// Answers a request: either with a response, after which the connection is done with, or with a
/// handshake, after which frames follow.
pub fn handle_request(request: &HttpRequest, state: &mut AppState) -> (r: Reply)
    ensures
        if wants_websocket(request@) {
            exists|id: Seq<char>, now: u64|
                is_id(id) && starts_at(old(state)@, id, now) && #[trigger] upgrades(
                    request@,
                    old(state)@,
                    id,
                    now,
                    final(state)@,
                    r@,
                )
        } else {
            r@ matches ReplyView::Respond(reply) && routes(
                request@,
                old(state)@,
                final(state)@,
                reply,
            )
        },
{
    if same(request.method.as_str(), "GET") && is_websocket_path(request.path.as_str()) {
        handle_websocket_upgrade(state, request)
    } else {
        Reply::Respond(route_http_request(request, state))
    }
}

} // verus!

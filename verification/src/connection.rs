//! What a connection does with the requests that arrive on it, and with the
//! reload channel once a browser has opened one.

use vstd::prelude::*;
use vstd::utf8::encode_utf8;

use crate::http::{asks_for_websocket, header_value, stays_open, Request, RequestModel, WS_PATH};
use crate::reload::{message, Reload, ReloadModel};
use crate::text::{owned, same_text};
use crate::ws::{
    accept_key, accept_value, control_payload, plain_frame, send_pong, text_frame, Incoming,
    IncomingModel, OP_PONG, OP_TEXT,
};

verus! {

/* ---------------------------------------------------------------- requests */

/// Whether a request opens the reload channel.
pub open spec fn opens_channel(request: RequestModel) -> bool {
    request.target == WS_PATH@ && asks_for_websocket(request)
}

/// What is to be done with a request that has arrived.
#[derive(Debug, PartialEq, Eq, Structural, Clone, Copy)]
pub enum Route {
    /// The connection becomes the reload channel, for as long as it lasts.
    Channel,
    /// The request is answered.
    Serve,
}

/// Decides what to do with a request that has arrived.
pub fn serve_connection(request: &Request) -> (r: Route)
    ensures
        r == if opens_channel(request@) {
            Route::Channel
        } else {
            Route::Serve
        },
{
    if same_text(request.target.as_str(), WS_PATH) && request.is_websocket_upgrade() {
        Route::Channel
    } else {
        Route::Serve
    }
}

/// Whether to wait for another request on the same connection: not once an
/// answer could not be written, nor where the client asked to close.
pub fn wait_for_another(request: &Request, written: bool) -> (r: bool)
    ensures
        r == (written && stays_open(request@)),
{
    written && request.keep_alive()
}

/* --------------------------------------------------------------- handshake */

/// What a client that names no key is told.
pub const REFUSAL: &'static str = "HTTP/1.1 400 Bad Request\r\nContent-Length: 0\r\n\r\n";

/// The answer that turns a connection into the reload channel.
pub open spec fn acceptance(key: Seq<char>) -> Seq<char> {
    "HTTP/1.1 101 Switching Protocols\r\nUpgrade: websocket\r\nConnection: Upgrade\r\nSec-WebSocket-Accept: "@
        + accept_value(key) + "\r\n\r\n"@
}

/// Answers the opening of the reload channel: with the acceptance, or with
/// what to say before hanging up.
pub fn handle_websocket(request: &Request) -> (r: Result<String, String>)
    ensures
        match header_value(request@, "sec-websocket-key"@) {
            Some(key) => r matches Ok(text) && text@ == acceptance(key),
            None => r matches Err(text) && text@ == REFUSAL@,
        },
{
    match request.header("sec-websocket-key") {
        Some(key) => {
            let mut out = owned(
                "HTTP/1.1 101 Switching Protocols\r\nUpgrade: websocket\r\nConnection: Upgrade\r\nSec-WebSocket-Accept: ",
            );
            out.append(accept_key(key).as_str());
            out.append("\r\n\r\n");
            Ok(out)
        },
        None => Err(owned(REFUSAL)),
    }
}

/// The frame that greets a browser on the reload channel.
pub fn greeting() -> (r: Vec<u8>)
    ensures
        r@ == plain_frame(OP_TEXT, encode_utf8("{\"type\":\"connected\"}"@)),
{
    text_frame("{\"type\":\"connected\"}")
}

/* ------------------------------------------------------------------ channel */

/// Something that happened while the reload channel was open.
pub enum ChannelEvent {
    /// The server is stopping.
    Shutdown,
    /// The browser sent a frame, or went away.
    Frame(Incoming),
    /// A reload was broadcast.
    Reload(Reload),
    /// Broadcasts were missed, because the browser is slow.
    Lagged,
    /// There will be no more broadcasts.
    Ended,
}

/// An event in mathematical terms.
pub enum ChannelEventModel {
    Shutdown,
    Frame(IncomingModel),
    Reload(ReloadModel),
    Lagged,
    Ended,
}

impl View for ChannelEvent {
    type V = ChannelEventModel;

    open spec fn view(&self) -> ChannelEventModel {
        match self {
            ChannelEvent::Shutdown => ChannelEventModel::Shutdown,
            ChannelEvent::Frame(incoming) => ChannelEventModel::Frame(incoming@),
            ChannelEvent::Reload(reload) => ChannelEventModel::Reload(reload@),
            ChannelEvent::Lagged => ChannelEventModel::Lagged,
            ChannelEvent::Ended => ChannelEventModel::Ended,
        }
    }
}

/// What to do about an event.
pub enum ChannelStep {
    /// Hang up.
    Close,
    /// Send these bytes, and hang up if that fails.
    Send(Vec<u8>),
    /// Nothing.
    Wait,
}

/// What to do, in mathematical terms.
pub enum ChannelStepModel {
    Close,
    Send(Seq<u8>),
    Wait,
}

impl View for ChannelStep {
    type V = ChannelStepModel;

    open spec fn view(&self) -> ChannelStepModel {
        match self {
            ChannelStep::Close => ChannelStepModel::Close,
            ChannelStep::Send(bytes) => ChannelStepModel::Send(bytes@),
            ChannelStep::Wait => ChannelStepModel::Wait,
        }
    }
}

/// The frame that carries a reload to the browser.
pub open spec fn reload_frame(reload: ReloadModel) -> Seq<u8> {
    plain_frame(OP_TEXT, encode_utf8(message(reload)))
}

/// What an event on the reload channel calls for. A browser that fell behind
/// is brought up to date by a full reload.
pub open spec fn channel_reaction(event: ChannelEventModel) -> ChannelStepModel {
    match event {
        ChannelEventModel::Shutdown => ChannelStepModel::Close,
        ChannelEventModel::Frame(IncomingModel::Close) => ChannelStepModel::Close,
        ChannelEventModel::Frame(IncomingModel::Pong(payload)) => ChannelStepModel::Send(
            plain_frame(OP_PONG, control_payload(payload)),
        ),
        ChannelEventModel::Frame(IncomingModel::Ignore) => ChannelStepModel::Wait,
        ChannelEventModel::Reload(reload) => ChannelStepModel::Send(reload_frame(reload)),
        ChannelEventModel::Lagged => ChannelStepModel::Send(reload_frame(ReloadModel::Full)),
        ChannelEventModel::Ended => ChannelStepModel::Close,
    }
}

/// Decides what to do about an event on the reload channel.
pub fn on_channel_event(event: ChannelEvent) -> (r: ChannelStep)
    ensures
        r@ == channel_reaction(event@),
{
    match event {
        ChannelEvent::Shutdown => ChannelStep::Close,
        ChannelEvent::Frame(incoming) => match incoming {
            Incoming::Close => ChannelStep::Close,
            Incoming::Pong(payload) => ChannelStep::Send(send_pong(payload.as_slice())),
            Incoming::Ignore => ChannelStep::Wait,
        },
        ChannelEvent::Reload(reload) => ChannelStep::Send(
            text_frame(reload.to_message().as_str()),
        ),
        ChannelEvent::Lagged => ChannelStep::Send(
            text_frame(Reload::Full.to_message().as_str()),
        ),
        ChannelEvent::Ended => ChannelStep::Close,
    }
}

} // verus!

//! The browser side of the server: the origin check, browser commands that become Pi
//! requests, static-asset responses, and fixed messages.

use vstd::prelude::*;
use crate::json::{members_view, object, Json, JsonV};
use crate::paths::{extension_spec, file_extension};
use crate::protocol::{ClientMessage, ServerMessage, SessionSummary};
use crate::rpc::{empty_object, single_member};
use crate::text::{
    before_first, opt_view, owned, split_first, strip_prefix, strip_prefix_spec, text_eq,
    trim_start_char, trim_start_matches,
};

verus! {

/// The version of the browser protocol.
pub const PROTOCOL_VERSION: u8 = 1;

/// A WebSocket request is accepted when it names no origin, or when its origin is the
/// `http://` or `https://` address of the host it was sent to.
pub open spec fn same_origin_spec(origin: Option<Seq<char>>, host: Option<Seq<char>>) -> bool {
    match origin {
        None => true,
        Some(o) => match host {
            None => false,
            Some(h) => {
                let rest = match strip_prefix_spec(o, "https://"@) {
                    Some(r) => Some(r),
                    None => strip_prefix_spec(o, "http://"@),
                };
                match rest {
                    Some(r) => before_first(r, '/') == h,
                    None => false,
                }
            },
        },
    }
}

/// Whether the `Origin` and `Host` headers (when readable as text) allow the request.
pub fn same_origin(origin: Option<&str>, host: Option<&str>) -> (r: bool)
    ensures
        r == same_origin_spec(
            match origin {
                Some(o) => Some(o@),
                None => None,
            },
            match host {
                Some(h) => Some(h@),
                None => None,
            },
        ),
{
    let origin = match origin {
        Some(o) => o,
        None => return true,
    };
    let host = match host {
        Some(h) => h,
        None => return false,
    };
    let rest = match strip_prefix(origin, "https://") {
        Some(r) => Some(r),
        None => strip_prefix(origin, "http://"),
    };
    match rest {
        Some(r) => {
            let first = split_first(r.as_str(), '/');
            text_eq(first.as_str(), host)
        },
        None => false,
    }
}

/// The Pi request a browser command stands for: its runtime, kind and parameters.
pub open spec fn command_spec(msg: ClientMessage) -> Option<(Seq<char>, Seq<char>, JsonV)> {
    match msg {
        ClientMessage::Compact { runtime_id } => Some(
            (runtime_id@, "compact"@, JsonV::Object(seq![])),
        ),
        ClientMessage::SetModel { runtime_id, provider, model_id } => Some(
            (
                runtime_id@,
                "set_model"@,
                JsonV::Object(
                    seq![("provider"@, JsonV::Str(provider@)), ("modelId"@, JsonV::Str(model_id@))],
                ),
            ),
        ),
        ClientMessage::SetThinkingLevel { runtime_id, level } => Some(
            (runtime_id@, "set_thinking_level"@, JsonV::Object(seq![("level"@, JsonV::Str(level@))])),
        ),
        _ => None,
    }
}

/// For the commands that are plain Pi requests (compact, set model, set thinking level),
/// the runtime, the request kind and its parameters.
pub fn command_request(msg: &ClientMessage) -> (r: Option<(String, String, Json)>)
    ensures
        match r {
            Some((id, kind, params)) => command_spec(*msg) == Some((id@, kind@, params@)),
            None => command_spec(*msg) is None,
        },
{
    match msg {
        ClientMessage::Compact { runtime_id } => Some(
            (runtime_id.clone(), owned("compact"), empty_object()),
        ),
        ClientMessage::SetModel { runtime_id, provider, model_id } => {
            let mut ms: Vec<(String, Json)> = Vec::new();
            ms.push((owned("provider"), Json::Str(provider.clone())));
            ms.push((owned("modelId"), Json::Str(model_id.clone())));
            let params = object(ms);
            assert(members_view(ms@) =~= seq![
                ("provider"@, JsonV::Str(provider@)),
                ("modelId"@, JsonV::Str(model_id@)),
            ]);
            Some((runtime_id.clone(), owned("set_model"), params))
        },
        ClientMessage::SetThinkingLevel { runtime_id, level } => Some(
            (
                runtime_id.clone(),
                owned("set_thinking_level"),
                single_member("level", Json::Str(level.clone())),
            ),
        ),
        _ => None,
    }
}

/// What the server sends back once it has handled a browser message: the opened session,
/// then the session list, each when the message calls for it.
#[derive(PartialEq, Eq, Structural, Clone, Copy, Debug)]
pub struct Replies {
    pub opened: bool,
    pub sessions: bool,
}

/// Listing sends the list; creating and opening a session send it opened and then the list,
/// since the list changed; activating sends it opened. Other messages are answered by the
/// events that follow, or by an error.
pub open spec fn replies_spec(msg: ClientMessage) -> Replies {
    match msg {
        ClientMessage::ListSessions => Replies { opened: false, sessions: true },
        ClientMessage::CreateSession => Replies { opened: true, sessions: true },
        ClientMessage::OpenSession { .. } => Replies { opened: true, sessions: true },
        ClientMessage::ActivateSession { .. } => Replies { opened: true, sessions: false },
        _ => Replies { opened: false, sessions: false },
    }
}

pub fn replies(msg: &ClientMessage) -> (r: Replies)
    ensures
        r == replies_spec(*msg),
{
    match msg {
        ClientMessage::ListSessions => Replies { opened: false, sessions: true },
        ClientMessage::CreateSession => Replies { opened: true, sessions: true },
        ClientMessage::OpenSession { .. } => Replies { opened: true, sessions: true },
        ClientMessage::ActivateSession { .. } => Replies { opened: true, sessions: false },
        _ => Replies { opened: false, sessions: false },
    }
}

/// The asset a request path asks for: the path without its leading slashes, or
/// "index.html" when nothing is left.
pub open spec fn asset_path_spec(uri_path: Seq<char>) -> Seq<char> {
    let p = trim_start_char(uri_path, '/');
    if p.len() == 0 {
        "index.html"@
    } else {
        p
    }
}

pub fn asset_path(uri_path: &str) -> (r: String)
    ensures
        r@ == asset_path_spec(uri_path@),
{
    let p = trim_start_matches(uri_path, '/');
    if p.as_str().is_empty() {
        owned("index.html")
    } else {
        p
    }
}

/// The media type that `mime_guess` gives for an extension: the first type it knows for it,
/// or "application/octet-stream".
pub uninterp spec fn mime_of_extension(ext: Seq<char>) -> Seq<char>;

/// Calls `mime_guess::from_ext(ext).first_or_octet_stream()`. Trusted: the result is
/// `mime_of_extension(ext)`, and "application/octet-stream" for the empty extension (for
/// which the crate's `from_ext` returns no guess). The table of types is not stated.
#[verifier::external_body]
fn mime_for_extension(ext: &str) -> (r: String)
    ensures
        r@ == mime_of_extension(ext@),
        ext@.len() == 0 ==> r@ == "application/octet-stream"@,
{
    mime_guess::from_ext(ext).first_or_octet_stream().as_ref().to_owned()
}

/// The content type of an asset, guessed from its path's extension.
pub open spec fn content_type_spec(path: Seq<char>) -> Seq<char> {
    match extension_spec(path) {
        Some(e) => mime_of_extension(e),
        None => "application/octet-stream"@,
    }
}

pub fn content_type(path: &str) -> (r: String)
    ensures
        r@ == content_type_spec(path@),
{
    match file_extension(path) {
        Some(e) => mime_for_extension(e.as_str()),
        None => owned("application/octet-stream"),
    }
}

/// The page is never cached; other assets are cached for an hour.
pub open spec fn cache_control_spec(path: Seq<char>) -> Seq<char> {
    if path == "index.html"@ {
        "no-cache"@
    } else {
        "public, max-age=3600"@
    }
}

pub fn cache_control(path: &str) -> (r: String)
    ensures
        r@ == cache_control_spec(path@),
{
    if text_eq(path, "index.html") {
        owned("no-cache")
    } else {
        owned("public, max-age=3600")
    }
}

/// The policy that keeps the page to its own scripts, styles, images and WebSocket.
pub open spec fn content_security_policy() -> Seq<char> {
    "default-src 'self'; script-src 'self'; style-src 'self'; img-src 'self' data:; connect-src 'self' ws: wss:; frame-ancestors 'none'; base-uri 'none'; form-action 'self'"@
}

/// The headers of an asset response, in order.
pub open spec fn asset_headers_spec(path: Seq<char>) -> Seq<(Seq<char>, Seq<char>)> {
    seq![
        ("content-type"@, content_type_spec(path)),
        ("cache-control"@, cache_control_spec(path)),
        ("x-content-type-options"@, "nosniff"@),
        ("referrer-policy"@, "no-referrer"@),
        ("x-frame-options"@, "DENY"@),
        ("content-security-policy"@, content_security_policy()),
    ]
}

pub fn asset_headers(path: &str) -> (r: Vec<(String, String)>)
    ensures
        r@.map_values(|h: (String, String)| (h.0@, h.1@)) == asset_headers_spec(path@),
{
    let mut h: Vec<(String, String)> = Vec::new();
    h.push((owned("content-type"), content_type(path)));
    h.push((owned("cache-control"), cache_control(path)));
    h.push((owned("x-content-type-options"), owned("nosniff")));
    h.push((owned("referrer-policy"), owned("no-referrer")));
    h.push((owned("x-frame-options"), owned("DENY")));
    h.push(
        (
            owned("content-security-policy"),
            owned(
                "default-src 'self'; script-src 'self'; style-src 'self'; img-src 'self' data:; connect-src 'self' ws: wss:; frame-ancestors 'none'; base-uri 'none'; form-action 'self'",
            ),
        ),
    );
    assert(h@.map_values(|h: (String, String)| (h.0@, h.1@)) =~= asset_headers_spec(path@));
    h
}

/// The body of the health check.
pub open spec fn health_spec() -> JsonV {
    JsonV::Object(
        seq![
            ("ok"@, JsonV::Bool(true)),
            ("service"@, JsonV::Str("pi-mobile-ui"@)),
            ("protocol"@, JsonV::Int(1)),
        ],
    )
}

pub fn health() -> (r: Json)
    ensures
        r@ == health_spec(),
{
    let mut ms: Vec<(String, Json)> = Vec::new();
    ms.push((owned("ok"), Json::Bool(true)));
    ms.push((owned("service"), Json::text("pi-mobile-ui")));
    ms.push((owned("protocol"), Json::Int(1)));
    let r = object(ms);
    assert(members_view(ms@) =~= seq![
        ("ok"@, JsonV::Bool(true)),
        ("service"@, JsonV::Str("pi-mobile-ui"@)),
        ("protocol"@, JsonV::Int(1)),
    ]);
    r
}

/// The first message on a new connection.
pub fn hello() -> (r: ServerMessage)
    ensures
        r == (ServerMessage::Hello { protocol: PROTOCOL_VERSION }),
{
    ServerMessage::Hello { protocol: PROTOCOL_VERSION }
}

/// The message that reports an error to the browser.
pub fn error_message(text: &str) -> (r: ServerMessage)
    ensures
        r matches ServerMessage::Error { message } && message@ == text@,
{
    ServerMessage::Error { message: owned(text) }
}

/// Seconds between the pings that keep a browser connection alive.
pub const HEARTBEAT_SECS: u64 = 25;

/// What happens on a browser connection while it is open.
#[derive(Debug)]
pub enum SocketEvent {
    /// The browser sent a text message.
    Text(String),
    /// The browser sent a ping.
    Ping(Vec<u8>),
    /// The browser closed the connection, or its stream ended.
    Close,
    /// Reading from the browser failed.
    Failed,
    /// A message came on the server's event bus.
    Bus(ServerMessage),
    /// The connection fell behind the bus and that many messages were skipped.
    Lagged(u64),
    /// The event bus closed.
    BusClosed,
    /// The heartbeat interval elapsed.
    Tick,
    /// Any other frame from the browser (binary data, a pong).
    Other,
}

/// What the connection does next.
#[derive(Debug)]
pub enum SocketAction {
    /// Handle the browser's message (a failure is reported to the browser as an error).
    Handle(String),
    /// Answer the ping with a pong carrying the same bytes.
    Pong(Vec<u8>),
    /// Send the message to the browser.
    Send(ServerMessage),
    /// Send a ping to the browser.
    Heartbeat,
    /// Nothing; wait for the next event.
    Ignore,
    /// End the connection.
    Stop,
}

/// One step of a browser connection: messages are handled and pings answered, every bus
/// message is forwarded as it comes, skipped ones and other frames are let go, the heartbeat
/// pings, and the connection ends when the browser leaves, reading fails or the bus closes.
pub open spec fn socket_step_spec(event: SocketEvent) -> SocketAction {
    match event {
        SocketEvent::Text(t) => SocketAction::Handle(t),
        SocketEvent::Ping(p) => SocketAction::Pong(p),
        SocketEvent::Close => SocketAction::Stop,
        SocketEvent::Failed => SocketAction::Stop,
        SocketEvent::Bus(m) => SocketAction::Send(m),
        SocketEvent::Lagged(_) => SocketAction::Ignore,
        SocketEvent::BusClosed => SocketAction::Stop,
        SocketEvent::Tick => SocketAction::Heartbeat,
        SocketEvent::Other => SocketAction::Ignore,
    }
}

pub fn socket_step(event: SocketEvent) -> (a: SocketAction)
    ensures
        a == socket_step_spec(event),
{
    match event {
        SocketEvent::Text(t) => SocketAction::Handle(t),
        SocketEvent::Ping(p) => SocketAction::Pong(p),
        SocketEvent::Close => SocketAction::Stop,
        SocketEvent::Failed => SocketAction::Stop,
        SocketEvent::Bus(m) => SocketAction::Send(m),
        SocketEvent::Lagged(_) => SocketAction::Ignore,
        SocketEvent::BusClosed => SocketAction::Stop,
        SocketEvent::Tick => SocketAction::Heartbeat,
        SocketEvent::Other => SocketAction::Ignore,
    }
}

/// What a new connection is sent first: the protocol version, then the session list.
pub fn greeting(sessions: Vec<SessionSummary>) -> (r: Vec<ServerMessage>)
    ensures
        r@.len() == 2,
        r@[0] == (ServerMessage::Hello { protocol: PROTOCOL_VERSION }),
        r@[1] == (ServerMessage::Sessions { sessions }),
{
    let mut r: Vec<ServerMessage> = Vec::new();
    r.push(hello());
    r.push(ServerMessage::Sessions { sessions });
    r
}

} // verus!

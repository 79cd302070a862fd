//! A connection to the proxy: its request head, what it is answered and what is dialled.
//!
//! The caller reads, dials and writes. What to do is decided here: `read_header_byte` after
//! each byte of the head, `serve_request` after the head, `serve_dialled` after the dial.
use vstd::prelude::*;
use vstd::slice::slice_subrange;
use vstd::utf8::{decode_utf8, encode_utf8, valid_utf8};
use crate::managed_proxy;
use crate::managed_proxy::{
    ManagedProxyConfig, ProxyRequestKind, ProxyTarget, RewriteError, RouteDecision,
};
use crate::number;
use crate::text;

verus! {

/// A head that has not ended within this many bytes is refused.
pub const MAX_HEADER_BYTES: usize = 32768;

/// The answer to a request that is no proxy request.
pub const BAD_REQUEST_RESPONSE: &'static str =
    "HTTP/1.1 400 Bad Request\r\nContent-Length: 0\r\nConnection: close\r\n\r\n";

/// The answer to a request whose target cannot be reached on its route.
pub const BAD_GATEWAY_RESPONSE: &'static str =
    "HTTP/1.1 502 Bad Gateway\r\nContent-Length: 0\r\nConnection: close\r\n\r\n";

/// The answer to a `CONNECT` request whose tunnel stands.
pub const TUNNEL_RESPONSE: &'static str = "HTTP/1.1 200 Connection Established\r\n\r\n";

/// Why a connection failed.
#[derive(Debug)]
pub enum ConnectionError {
    /// The client closed the connection within the head.
    ClosedInHeader,
    /// The head is too long.
    HeaderTooLong,
    /// The first line is no proxy request.
    NotAProxyRequest,
    /// The target could not be reached on its route, for this reason.
    Upstream(String),
    /// The first line could not be rewritten.
    Rewrite(RewriteError),
}

/// A `ConnectionError` as plain values.
pub enum ConnectionErrorView {
    ClosedInHeader,
    HeaderTooLong,
    NotAProxyRequest,
    Upstream(Seq<char>),
    Rewrite(RewriteError),
}

impl View for ConnectionError {
    type V = ConnectionErrorView;

    open spec fn view(&self) -> ConnectionErrorView {
        match self {
            ConnectionError::ClosedInHeader => ConnectionErrorView::ClosedInHeader,
            ConnectionError::HeaderTooLong => ConnectionErrorView::HeaderTooLong,
            ConnectionError::NotAProxyRequest => ConnectionErrorView::NotAProxyRequest,
            ConnectionError::Upstream(reason) => ConnectionErrorView::Upstream(reason@),
            ConnectionError::Rewrite(error) => ConnectionErrorView::Rewrite(*error),
        }
    }
}

impl ConnectionErrorView {
    /// The message for an error.
    pub open spec fn message_of(self) -> Seq<char> {
        match self {
            ConnectionErrorView::ClosedInHeader => "客户端在请求头完成前关闭"@,
            ConnectionErrorView::HeaderTooLong => "请求头超过 "@ + number::decimal(
                MAX_HEADER_BYTES as nat,
            ) + " 字节"@,
            ConnectionErrorView::NotAProxyRequest => "无法识别的代理请求首行"@,
            ConnectionErrorView::Upstream(reason) => reason,
            ConnectionErrorView::Rewrite(error) => error.message_of(),
        }
    }
}

impl ConnectionError {
    /// A message for the reader of a log.
    pub fn message(&self) -> (r: String)
        ensures
            r@ == self@.message_of(),
    {
        let mut out: Vec<char> = Vec::new();
        match self {
            ConnectionError::ClosedInHeader => {
                text::push_text(&mut out, "客户端在请求头完成前关闭");
            },
            ConnectionError::HeaderTooLong => {
                text::push_text(&mut out, "请求头超过 ");
                number::push_decimal(&mut out, MAX_HEADER_BYTES as u128);
                text::push_text(&mut out, " 字节");
            },
            ConnectionError::NotAProxyRequest => {
                text::push_text(&mut out, "无法识别的代理请求首行");
            },
            ConnectionError::Upstream(reason) => {
                text::push_text(&mut out, reason.as_str());
            },
            ConnectionError::Rewrite(error) => {
                text::push_text(&mut out, error.message());
            },
        }
        assert(out@ =~= self@.message_of());
        text::string_of(out.as_slice())
    }
}

/// What `String::from_utf8_lossy` makes of bytes that are not UTF-8.
pub uninterp spec fn utf8_lossy(bytes: Seq<u8>) -> Seq<char>;

/// Bytes read as text: as UTF-8 where they are UTF-8.
pub open spec fn text_of_bytes(bytes: Seq<u8>) -> Seq<char> {
    if valid_utf8(bytes) {
        decode_utf8(bytes)
    } else {
        utf8_lossy(bytes)
    }
}

/// `String::from_utf8_lossy`: bytes that are UTF-8 are decoded as they are. For other
/// bytes the result depends on the bytes alone; how they are replaced is not stated.
#[verifier::external_body]
fn from_utf8_lossy(bytes: &[u8]) -> (r: String)
    ensures
        r@ == (if valid_utf8(bytes@) {
            decode_utf8(bytes@)
        } else {
            utf8_lossy(bytes@)
        }),
{
    String::from_utf8_lossy(bytes).into_owned()
}

/// Whether bytes end in an empty line.
pub open spec fn ends_in_blank_line(bytes: Seq<u8>) -> bool {
    let n = bytes.len();
    n >= 4 && bytes[n - 4] == 13 && bytes[n - 3] == 10 && bytes[n - 2] == 13 && bytes[n - 1] == 10
}

/// How far the reading of a head has come.
#[derive(Debug)]
pub enum HeaderStep {
    /// The head goes on.
    More,
    /// The head is complete: its text, with the empty line that ends it.
    Complete(String),
    /// The head cannot be read.
    Failed(ConnectionError),
}

/// A `HeaderStep` as plain values.
pub enum HeaderStepView {
    More,
    Complete(Seq<char>),
    Failed(ConnectionErrorView),
}

impl View for HeaderStep {
    type V = HeaderStepView;

    open spec fn view(&self) -> HeaderStepView {
        match self {
            HeaderStep::More => HeaderStepView::More,
            HeaderStep::Complete(header) => HeaderStepView::Complete(header@),
            HeaderStep::Failed(error) => HeaderStepView::Failed(error@),
        }
    }
}

/// How far a head has come of which `bytes` were read so far.
pub open spec fn header_step_of(bytes: Seq<u8>) -> HeaderStepView {
    if bytes.len() > MAX_HEADER_BYTES {
        HeaderStepView::Failed(ConnectionErrorView::HeaderTooLong)
    } else if ends_in_blank_line(bytes) {
        HeaderStepView::Complete(text_of_bytes(bytes))
    } else {
        HeaderStepView::More
    }
}

/// Takes the next byte of a head, or the end of the stream, of which `bytes` were read
/// before.
pub fn read_header_byte(bytes: &mut Vec<u8>, next: Option<u8>) -> (r: HeaderStep)
    ensures
        match next {
            Some(byte) => final(bytes)@ == old(bytes)@.push(byte) && r@ == header_step_of(
                final(bytes)@,
            ),
            None => final(bytes)@ == old(bytes)@ && r@ == HeaderStepView::Failed(
                ConnectionErrorView::ClosedInHeader,
            ),
        },
{
    match next {
        None => HeaderStep::Failed(ConnectionError::ClosedInHeader),
        Some(byte) => {
            bytes.push(byte);
            let n: usize = bytes.len();
            if n > MAX_HEADER_BYTES {
                HeaderStep::Failed(ConnectionError::HeaderTooLong)
            } else if n >= 4 && bytes[n - 4] == 13 && bytes[n - 3] == 10 && bytes[n - 2] == 13
                && bytes[n - 1] == 10 {
                HeaderStep::Complete(from_utf8_lossy(bytes.as_slice()))
            } else {
                HeaderStep::More
            }
        },
    }
}

/// What to do next on a connection.
#[derive(Debug)]
pub enum ConnectionAction {
    /// Write `response` to the client and close. The connection failed if there is a
    /// `failure`.
    Answer { response: String, failure: Option<ConnectionError> },
    /// Connect to `target` on the route `decision`, and on no other.
    Dial { target: ProxyTarget, decision: RouteDecision },
    /// Write each text to its side, then copy bytes both ways.
    Relay { to_client: String, to_upstream: String },
    /// Close. The connection failed.
    Fail(ConnectionError),
}

/// A `ConnectionAction` as plain values.
pub enum ConnectionActionView {
    Answer { response: Seq<char>, failure: Option<ConnectionErrorView> },
    Dial { target: managed_proxy::TargetView, decision: RouteDecision },
    Relay { to_client: Seq<char>, to_upstream: Seq<char> },
    Fail(ConnectionErrorView),
}

impl View for ConnectionAction {
    type V = ConnectionActionView;

    open spec fn view(&self) -> ConnectionActionView {
        match self {
            ConnectionAction::Answer { response, failure } => ConnectionActionView::Answer {
                response: response@,
                failure: match failure {
                    Some(error) => Some(error@),
                    None => None,
                },
            },
            ConnectionAction::Dial { target, decision } => ConnectionActionView::Dial {
                target: target@,
                decision: *decision,
            },
            ConnectionAction::Relay { to_client, to_upstream } => ConnectionActionView::Relay {
                to_client: to_client@,
                to_upstream: to_upstream@,
            },
            ConnectionAction::Fail(error) => ConnectionActionView::Fail(error@),
        }
    }
}

/// The first line of a head, without white space around it.
pub open spec fn first_line_of(header: Seq<char>) -> Seq<char> {
    text::trimmed(header.take(managed_proxy::first_line_len(header) as int))
}

/// The first line of a head, without white space around it.
pub fn first_line(header: &str) -> (r: String)
    ensures
        r@ == first_line_of(header@),
{
    let cs = text::chars_of(header);
    let n: usize = managed_proxy::find_first_line_end(cs.as_slice());
    assert(cs@.subrange(0, n as int) == header@.take(n as int));
    text::string_of(text::trim(slice_subrange(cs.as_slice(), 0, n)))
}

/// The answer that tells what the proxy is.
pub open spec fn identify_response_of() -> Seq<char> {
    "HTTP/1.1 200 OK\r\nContent-Type: text/plain\r\nContent-Length: "@ + number::decimal(
        encode_utf8(managed_proxy::MANAGED_PROXY_ID_BODY@).len(),
    ) + "\r\nConnection: close\r\n\r\n"@ + managed_proxy::MANAGED_PROXY_ID_BODY@
}

/// The answer that tells what the proxy is.
pub fn identify_response() -> (r: String)
    ensures
        r@ == identify_response_of(),
{
    let mut out: Vec<char> = Vec::new();
    text::push_text(
        &mut out,
        "HTTP/1.1 200 OK\r\nContent-Type: text/plain\r\nContent-Length: ",
    );
    number::push_decimal(&mut out, managed_proxy::MANAGED_PROXY_ID_BODY.as_bytes().len() as u128);
    text::push_text(&mut out, "\r\nConnection: close\r\n\r\n");
    text::push_text(&mut out, managed_proxy::MANAGED_PROXY_ID_BODY);
    assert(out@ =~= identify_response_of());
    text::string_of(out.as_slice())
}

/// What to do after a head was read.
pub open spec fn request_action_of(header: Seq<char>) -> ConnectionActionView {
    let line = first_line_of(header);
    if managed_proxy::identify_request(line) {
        ConnectionActionView::Answer { response: identify_response_of(), failure: None }
    } else {
        match managed_proxy::request_target_of(line) {
            None => ConnectionActionView::Answer {
                response: BAD_REQUEST_RESPONSE@,
                failure: Some(ConnectionErrorView::NotAProxyRequest),
            },
            Some(target) => ConnectionActionView::Dial {
                target,
                decision: managed_proxy::route_of(target.0),
            },
        }
    }
}

/// Decides what to do after a head was read.
pub fn serve_request(header: &str) -> (r: ConnectionAction)
    ensures
        r@ == request_action_of(header@),
{
    let line = first_line(header);
    if managed_proxy::is_self_identify_request(line.as_str()) {
        return ConnectionAction::Answer { response: identify_response(), failure: None };
    }
    match managed_proxy::parse_proxy_request_line(line.as_str()) {
        None => ConnectionAction::Answer {
            response: BAD_REQUEST_RESPONSE.to_owned(),
            failure: Some(ConnectionError::NotAProxyRequest),
        },
        Some(target) => {
            let decision = managed_proxy::route_for_host(target.host.as_str());
            ConnectionAction::Dial { target, decision }
        },
    }
}

/// The host and port to open a connection to for a target: the target itself, or the
/// upstream through which it is reached.
pub open spec fn dial_address_of(
    target: managed_proxy::TargetView,
    decision: RouteDecision,
    upstream: (Seq<char>, u16),
) -> (Seq<char>, u16) {
    match decision {
        RouteDecision::Socks5 => upstream,
        RouteDecision::Direct => (target.0, target.1),
    }
}

/// The host and port to open a connection to. On the SOCKS5 route a handshake follows.
pub fn dial_address<'a>(
    target: &'a ProxyTarget,
    decision: RouteDecision,
    config: &'a ManagedProxyConfig,
) -> (r: (&'a str, u16))
    ensures
        (r.0@, r.1) == dial_address_of(
            target@,
            decision,
            (config.socks5_host@, config.socks5_port),
        ),
{
    match decision {
        RouteDecision::Socks5 => (config.socks5_host.as_str(), config.socks5_port),
        RouteDecision::Direct => (target.host.as_str(), target.port),
    }
}

/// What to do after the target of a head was dialled, successfully or not.
pub open spec fn dialled_action_of(
    header: Seq<char>,
    kind: ProxyRequestKind,
    dial: Result<(), Seq<char>>,
) -> ConnectionActionView {
    match dial {
        Err(reason) => ConnectionActionView::Answer {
            response: BAD_GATEWAY_RESPONSE@,
            failure: Some(ConnectionErrorView::Upstream(reason)),
        },
        Ok(()) => match kind {
            ProxyRequestKind::Connect => ConnectionActionView::Relay {
                to_client: TUNNEL_RESPONSE@,
                to_upstream: ""@,
            },
            ProxyRequestKind::Plain => match managed_proxy::origin_form_of(header) {
                Ok(head) => ConnectionActionView::Relay { to_client: ""@, to_upstream: head },
                Err(error) => ConnectionActionView::Fail(ConnectionErrorView::Rewrite(error)),
            },
        },
    }
}

/// Decides what to do after the target of a head was dialled. `dial` tells whether that
/// succeeded, and why not.
pub fn serve_dialled(header: &str, kind: ProxyRequestKind, dial: Result<(), String>) -> (r:
    ConnectionAction)
    ensures
        r@ == dialled_action_of(
            header@,
            kind,
            match dial {
                Ok(()) => Ok(()),
                Err(reason) => Err(reason@),
            },
        ),
{
    match dial {
        Err(reason) => ConnectionAction::Answer {
            response: BAD_GATEWAY_RESPONSE.to_owned(),
            failure: Some(ConnectionError::Upstream(reason)),
        },
        Ok(()) => match kind {
            ProxyRequestKind::Connect => ConnectionAction::Relay {
                to_client: TUNNEL_RESPONSE.to_owned(),
                to_upstream: "".to_owned(),
            },
            ProxyRequestKind::Plain => match managed_proxy::rewrite_to_origin_form(header) {
                Ok(head) => ConnectionAction::Relay {
                    to_client: "".to_owned(),
                    to_upstream: head,
                },
                Err(error) => ConnectionAction::Fail(ConnectionError::Rewrite(error)),
            },
        },
    }
}

/// What is logged of a request: where it went and how that ended, and nothing of its
/// headers, its query or its body.
#[derive(Debug, Clone)]
pub struct RouteRecord {
    pub host: String,
    pub port: u16,
    pub decision: &'static str,
    pub upstream_ok: bool,
    pub duration_ms: u128,
}

/// The name of a route in the log.
pub open spec fn decision_name_of(decision: RouteDecision) -> Seq<char> {
    match decision {
        RouteDecision::Socks5 => "socks5"@,
        RouteDecision::Direct => "direct"@,
    }
}

/// What to log of a request.
pub fn route_record(
    target: &ProxyTarget,
    decision: RouteDecision,
    upstream_ok: bool,
    duration_ms: u128,
) -> (r: RouteRecord)
    ensures
        r.host@ == target.host@,
        r.port == target.port,
        r.decision@ == decision_name_of(decision),
        r.upstream_ok == upstream_ok,
        r.duration_ms == duration_ms,
{
    RouteRecord {
        host: target.host.as_str().to_owned(),
        port: target.port,
        decision: match decision {
            RouteDecision::Socks5 => "socks5",
            RouteDecision::Direct => "direct",
        },
        upstream_ok,
        duration_ms,
    }
}

} // verus!

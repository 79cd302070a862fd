//! Requests to the local proxy: what they ask for and where they are routed.
//!
//! Two forms of request are served: `CONNECT host:443`, which opens a tunnel, and an
//! absolute URI such as `GET http://host:8080/path`, which is forwarded in clear text.
use vstd::prelude::*;
use vstd::slice::slice_subrange;
use crate::managed_gateway;
use crate::number;
use crate::text;

pub use crate::socks5::{
    build_socks5_connect_request, build_socks5_greeting, parse_socks5_connect_reply,
    parse_socks5_method_reply, socks5_connect_reply_len,
};

verus! {

/// The two forms of a proxy request.
#[derive(Debug, Clone, Copy, PartialEq, Eq, Structural)]
pub enum ProxyRequestKind {
    /// `CONNECT host:443 HTTP/1.1`: a tunnel that is not looked into.
    Connect,
    /// `GET http://host:8080/path HTTP/1.1`: an absolute URI, forwarded in clear text.
    Plain,
}

/// What a proxy request asks to reach.
#[derive(Debug, Clone, PartialEq, Eq)]
pub struct ProxyTarget {
    pub host: String,
    pub port: u16,
    pub kind: ProxyRequestKind,
}

/// A target as plain values: host, port and form of the request.
pub type TargetView = (Seq<char>, u16, ProxyRequestKind);

impl View for ProxyTarget {
    type V = TargetView;

    open spec fn view(&self) -> TargetView {
        (self.host@, self.port, self.kind)
    }
}

/// Host in lower case and port of `host`, `host:port`, `[host]` or `[host]:port`.
///
/// A host without brackets holds no colon. Behind the closing bracket only a port
/// counts; other text there is ignored.
pub open spec fn host_port_of(input: Seq<char>, default_port: u16) -> Option<(Seq<char>, u16)> {
    let s = text::trimmed(input);
    if s.len() == 0 {
        None
    } else if s[0] == '[' {
        match text::split_once_of(s.skip(1), ']') {
            None => None,
            Some((host, tail)) => if host.len() == 0 {
                None
            } else if tail.len() > 0 && tail[0] == ':' {
                match number::parse_u16_of(tail.skip(1)) {
                    Some(port) => Some((text::ascii_lowercase_of(host), port)),
                    None => None,
                }
            } else {
                Some((text::ascii_lowercase_of(host), default_port))
            },
        }
    } else {
        match text::split_once_of(s, ':') {
            None => Some((text::ascii_lowercase_of(s), default_port)),
            Some((host, port_text)) => if host.len() == 0 {
                None
            } else {
                match number::parse_u16_of(port_text) {
                    Some(port) => Some((text::ascii_lowercase_of(host), port)),
                    None => None,
                }
            },
        }
    }
}

/// What follows the scheme of an `http` URI, whatever its case.
pub open spec fn http_rest_of(target: Seq<char>) -> Option<Seq<char>> {
    if "http://"@.is_prefix_of(text::ascii_lowercase_of(target)) {
        Some(target.skip(7))
    } else {
        None
    }
}

/// Whether `c` ends the authority of a URI.
pub open spec fn ends_authority(c: char) -> bool {
    c == '/' || c == '?' || c == '#'
}

/// The number of characters of `s` in front of its path, query or fragment.
pub open spec fn authority_len(s: Seq<char>) -> nat
    decreases s.len(),
{
    if s.len() == 0 || ends_authority(s[0]) {
        0
    } else {
        1 + authority_len(s.drop_first())
    }
}

/// What a request with the given method and target asks to reach.
pub open spec fn target_of(method: Seq<char>, target: Seq<char>) -> Option<TargetView> {
    if text::ascii_lowercase_of(method) == text::ascii_lowercase_of("CONNECT"@) {
        match host_port_of(target, 443) {
            Some((host, port)) => Some((host, port, ProxyRequestKind::Connect)),
            None => None,
        }
    } else {
        match http_rest_of(target) {
            None => None,
            Some(rest) => match host_port_of(rest.take(authority_len(rest) as int), 80) {
                Some((host, port)) => Some((host, port, ProxyRequestKind::Plain)),
                None => None,
            },
        }
    }
}

/// What the first line of a request asks to reach.
pub open spec fn request_target_of(line: Seq<char>) -> Option<TargetView> {
    match text::split_word_of(line) {
        None => None,
        Some((method, rest)) => match text::split_word_of(rest) {
            None => None,
            Some((target, _)) => target_of(method, target),
        },
    }
}

/// Reads the first line of a proxy request. `None` where it is not one.
///
/// Only the method and the target count; an origin-form target is no proxy request.
pub fn parse_proxy_request_line(line: &str) -> (r: Option<ProxyTarget>)
    ensures
        match r {
            Some(target) => request_target_of(line@) == Some(target@),
            None => request_target_of(line@) is None,
        },
{
    let cs = text::chars_of(line);
    let (method, rest) = match text::split_word(cs.as_slice()) {
        Some(parts) => parts,
        None => {
            return None;
        },
    };
    let target = match text::split_word(rest) {
        Some(parts) => parts.0,
        None => {
            return None;
        },
    };
    if text::is_text_ignoring_ascii_case(method, "CONNECT") {
        return match split_host_port(target, 443) {
            Some((host, port)) => Some(
                ProxyTarget { host, port, kind: ProxyRequestKind::Connect },
            ),
            None => None,
        };
    }
    let rest = match strip_http_scheme(target) {
        Some(rest) => rest,
        None => {
            return None;
        },
    };
    let n: usize = find_authority_end(rest);
    assert(rest@.subrange(0, n as int) == rest@.take(n as int));
    match split_host_port(slice_subrange(rest, 0, n), 80) {
        Some((host, port)) => Some(ProxyTarget { host, port, kind: ProxyRequestKind::Plain }),
        None => None,
    }
}

/// What follows the scheme of an `http` URI. `https` URIs are not accepted: clients
/// reach those with `CONNECT`.
fn strip_http_scheme(target: &[char]) -> (r: Option<&[char]>)
    ensures
        match r {
            Some(rest) => http_rest_of(target@) == Some(rest@),
            None => http_rest_of(target@) is None,
        },
{
    let lower = text::to_ascii_lowercase(target);
    let scheme = text::chars_of("http://");
    proof {
        reveal_strlit("http://");
    }
    if text::starts_with(lower.as_slice(), scheme.as_slice()) {
        assert(target@.subrange(7, target@.len() as int) == target@.skip(7));
        Some(slice_subrange(target, 7, target.len()))
    } else {
        None
    }
}

/// The index in `cs` of its path, query or fragment, or its length.
fn find_authority_end(cs: &[char]) -> (r: usize)
    ensures
        r == authority_len(cs@),
        r <= cs@.len(),
{
    let n: usize = cs.len();
    let mut i: usize = 0;
    assert(cs@.skip(0) == cs@);
    while i < n && !(cs[i] == '/' || cs[i] == '?' || cs[i] == '#')
        invariant
            i <= n,
            n == cs@.len(),
            authority_len(cs@) == i + authority_len(cs@.skip(i as int)),
        decreases n - i,
    {
        assert(cs@.skip(i as int).drop_first() == cs@.skip(i + 1));
        i = i + 1;
    }
    i
}

/// Splits host and port. An IPv6 address stands in brackets.
fn split_host_port(input: &[char], default_port: u16) -> (r: Option<(String, u16)>)
    ensures
        match r {
            Some((host, port)) => host_port_of(input@, default_port) == Some((host@, port)),
            None => host_port_of(input@, default_port) is None,
        },
{
    let s = text::trim(input);
    if s.len() == 0 {
        return None;
    }
    if s[0] == '[' {
        assert(s@.subrange(1, s@.len() as int) == s@.skip(1));
        let (host, tail) = match text::split_once(slice_subrange(s, 1, s.len()), ']') {
            Some(parts) => parts,
            None => {
                return None;
            },
        };
        if host.len() == 0 {
            return None;
        }
        let port: u16 = if tail.len() > 0 && tail[0] == ':' {
            assert(tail@.subrange(1, tail@.len() as int) == tail@.skip(1));
            match number::parse_u16(slice_subrange(tail, 1, tail.len())) {
                Some(port) => port,
                None => {
                    return None;
                },
            }
        } else {
            default_port
        };
        let lower = text::to_ascii_lowercase(host);
        return Some((text::string_of(lower.as_slice()), port));
    }
    match text::split_once(s, ':') {
        Some((host, port_text)) => {
            if host.len() == 0 {
                return None;
            }
            match number::parse_u16(port_text) {
                Some(port) => {
                    let lower = text::to_ascii_lowercase(host);
                    Some((text::string_of(lower.as_slice()), port))
                },
                None => None,
            }
        },
        None => {
            let lower = text::to_ascii_lowercase(s);
            Some((text::string_of(lower.as_slice()), default_port))
        },
    }
}

/// Where a request is sent.
#[derive(Debug, Clone, Copy, PartialEq, Eq, Structural)]
pub enum RouteDecision {
    /// Through the SOCKS5 upstream. If that fails the request fails.
    Socks5,
    /// Straight to the target.
    Direct,
}

/// The route for a host whose name has been normalised once.
pub open spec fn normalized_route_of(host: Seq<char>) -> RouteDecision {
    if !managed_gateway::direct_host(host) && managed_gateway::proxied(
        managed_gateway::normalized_host(host),
    ) {
        RouteDecision::Socks5
    } else {
        RouteDecision::Direct
    }
}

/// The route for a host.
pub open spec fn route_of(host: Seq<char>) -> RouteDecision {
    normalized_route_of(managed_gateway::normalized_host(host))
}

/// Whether a normalised host is never sent through the upstream.
pub fn is_never_proxied(host: &str) -> (r: bool)
    ensures
        r == managed_gateway::direct_host(host@),
{
    managed_gateway::is_direct_host(host)
}

/// The route for a host whose name has been normalised.
pub fn route_for_normalized_host(host: &str) -> (r: RouteDecision)
    ensures
        r == normalized_route_of(host@),
{
    if is_never_proxied(host) {
        return RouteDecision::Direct;
    }
    let result = text::chars_of(managed_gateway::pac_result_for_host(host));
    proof {
        managed_gateway::lemma_results_differ();
    }
    if text::is_text(result.as_slice(), managed_gateway::MANAGED_GATEWAY_SOCKS5_RESULT) {
        RouteDecision::Socks5
    } else {
        RouteDecision::Direct
    }
}

/// The route for a host, by the rules of the PAC script.
pub fn route_for_host(host: &str) -> (r: RouteDecision)
    ensures
        r == route_of(host@),
{
    let normalized = managed_gateway::normalize_pac_host(host);
    route_for_normalized_host(normalized.as_str())
}

/// The path under which the proxy tells what it is.
pub const MANAGED_PROXY_ID_PATH: &'static str = "/__managed_proxy_id";

/// What the proxy answers under that path.
pub const MANAGED_PROXY_ID_BODY: &'static str = "codex-plus-plus-managed-proxy";

/// Whether the first line of a request asks the proxy what it is.
pub open spec fn identify_request(line: Seq<char>) -> bool {
    match text::split_word_of(line) {
        None => false,
        Some((method, rest)) => match text::split_word_of(rest) {
            None => false,
            Some((path, _)) => text::ascii_lowercase_of(method) == text::ascii_lowercase_of("GET"@)
                && path == MANAGED_PROXY_ID_PATH@,
        },
    }
}

/// Whether the first line of a request asks the proxy what it is.
pub fn is_self_identify_request(first_line: &str) -> (r: bool)
    ensures
        r == identify_request(first_line@),
{
    let cs = text::chars_of(first_line);
    match text::split_word(cs.as_slice()) {
        Some((method, rest)) => match text::split_word(rest) {
            Some((path, _)) => text::is_text_ignoring_ascii_case(method, "GET") && text::is_text(
                path,
                MANAGED_PROXY_ID_PATH,
            ),
            None => false,
        },
        None => false,
    }
}

/// Why the first line of a request could not be rewritten.
#[derive(Debug, Clone, Copy, PartialEq, Eq, Structural)]
pub enum RewriteError {
    MissingLineEnd,
    MissingMethod,
    MissingUri,
}

impl RewriteError {
    /// The message for a `RewriteError`.
    pub open spec fn message_of(self) -> Seq<char> {
        match self {
            RewriteError::MissingLineEnd => "请求头缺少首行结尾"@,
            RewriteError::MissingMethod => "请求首行缺少方法"@,
            RewriteError::MissingUri => "请求首行缺少 URI"@,
        }
    }

    /// A message for the reader of a log.
    pub fn message(&self) -> (r: &'static str)
        ensures
            r@ == self.message_of(),
    {
        match self {
            RewriteError::MissingLineEnd => "请求头缺少首行结尾",
            RewriteError::MissingMethod => "请求首行缺少方法",
            RewriteError::MissingUri => "请求首行缺少 URI",
        }
    }
}

/// The number of characters of `s` in front of its first carriage return and line feed,
/// or its length if it has none.
pub open spec fn first_line_len(s: Seq<char>) -> nat
    decreases s.len(),
{
    if s.len() == 0 || (s.len() > 1 && s[0] == '\r' && s[1] == '\n') {
        0
    } else {
        1 + first_line_len(s.drop_first())
    }
}

/// The origin form of an absolute URI: what follows its authority up to a fragment, that is
/// its path and query, with a slash in front if its path is empty.
pub open spec fn origin_path_of(uri: Seq<char>) -> Seq<char> {
    let rest = match http_rest_of(uri) {
        Some(rest) => rest,
        None => uri,
    };
    let after = rest.skip(authority_len(rest) as int);
    let tail = after.take(text::before(after, '#') as int);
    if tail.len() > 0 && tail[0] == '/' {
        tail
    } else {
        "/"@ + tail
    }
}

/// A request head with the URI of its first line in origin form.
pub open spec fn origin_form_of(header: Seq<char>) -> Result<Seq<char>, RewriteError> {
    let n: nat = first_line_len(header);
    if n >= header.len() {
        Err(RewriteError::MissingLineEnd)
    } else {
        match text::split_word_of(header.take(n as int)) {
            None => Err(RewriteError::MissingMethod),
            Some((method, rest)) => match text::split_word_of(rest) {
                None => Err(RewriteError::MissingUri),
                Some((uri, rest)) => {
                    let version = match text::split_word_of(rest) {
                        Some((version, _)) => version,
                        None => "HTTP/1.1"@,
                    };
                    Ok(
                        method + " "@ + origin_path_of(uri) + " "@ + version + "\r\n"@
                            + header.skip(n as int + 2),
                    )
                },
            },
        }
    }
}

/// The index in `cs` of the end of its first line, or its length.
pub fn find_first_line_end(cs: &[char]) -> (r: usize)
    ensures
        r == first_line_len(cs@),
        r <= cs@.len(),
        r < cs@.len() ==> r + 1 < cs@.len(),
{
    let n: usize = cs.len();
    let mut i: usize = 0;
    assert(cs@.skip(0) == cs@);
    while i < n && !(n - i > 1 && cs[i] == '\r' && cs[i + 1] == '\n')
        invariant
            i <= n,
            n == cs@.len(),
            first_line_len(cs@) == i + first_line_len(cs@.skip(i as int)),
        decreases n - i,
    {
        assert(cs@.skip(i as int).drop_first() == cs@.skip(i + 1));
        i = i + 1;
    }
    i
}

/// The origin form of an absolute URI: its path and query.
pub fn origin_form_path(uri: &[char]) -> (r: Vec<char>)
    ensures
        r@ == origin_path_of(uri@),
{
    let rest = match strip_http_scheme(uri) {
        Some(rest) => rest,
        None => uri,
    };
    let n: usize = find_authority_end(rest);
    let after = slice_subrange(rest, n, rest.len());
    assert(after@ == rest@.skip(n as int));
    let end: usize = text::find(after, '#');
    let tail = slice_subrange(after, 0, end);
    assert(tail@ == after@.take(end as int));
    let mut out: Vec<char> = Vec::new();
    if !(tail.len() > 0 && tail[0] == '/') {
        text::push_text(&mut out, "/");
    }
    text::push_chars(&mut out, tail);
    assert(out@ =~= origin_path_of(uri@));
    out
}

/// Rewrites the absolute URI in the first line of a request head to origin form. What
/// follows the first line stays as it is.
pub fn rewrite_to_origin_form(header: &str) -> (r: Result<String, RewriteError>)
    ensures
        match r {
            Ok(head) => origin_form_of(header@) == Ok::<Seq<char>, RewriteError>(head@),
            Err(error) => origin_form_of(header@) == Err::<Seq<char>, RewriteError>(error),
        },
{
    let cs = text::chars_of(header);
    let n: usize = find_first_line_end(cs.as_slice());
    if n >= cs.len() {
        return Err(RewriteError::MissingLineEnd);
    }
    assert(cs@.subrange(0, n as int) == header@.take(n as int));
    let (method, rest) = match text::split_word(slice_subrange(cs.as_slice(), 0, n)) {
        Some(parts) => parts,
        None => {
            return Err(RewriteError::MissingMethod);
        },
    };
    let (uri, rest) = match text::split_word(rest) {
        Some(parts) => parts,
        None => {
            return Err(RewriteError::MissingUri);
        },
    };
    let path = origin_form_path(uri);
    let mut out: Vec<char> = Vec::new();
    text::push_chars(&mut out, method);
    text::push_text(&mut out, " ");
    text::push_chars(&mut out, path.as_slice());
    text::push_text(&mut out, " ");
    match text::split_word(rest) {
        Some((version, _)) => {
            text::push_chars(&mut out, version);
        },
        None => {
            text::push_text(&mut out, "HTTP/1.1");
        },
    }
    text::push_text(&mut out, "\r\n");
    text::push_chars(&mut out, slice_subrange(cs.as_slice(), n + 2, cs.len()));
    assert(cs@.subrange(n + 2, cs@.len() as int) == header@.skip(n + 2));
    assert(Ok::<Seq<char>, RewriteError>(out@) =~= origin_form_of(header@)) by {
        assert(out@ =~= origin_form_of(header@)->Ok_0);
    }
    Ok(text::string_of(out.as_slice()))
}

/// Where the proxy finds its SOCKS5 upstream.
#[derive(Debug, Clone)]
pub struct ManagedProxyConfig {
    pub socks5_host: String,
    pub socks5_port: u16,
}

impl Default for ManagedProxyConfig {
    /// The managed upstream.
    fn default() -> (r: Self)
        ensures
            r.socks5_host@ == managed_gateway::MANAGED_GATEWAY_SOCKS5_HOST@,
            r.socks5_port == managed_gateway::MANAGED_GATEWAY_SOCKS5_PORT,
    {
        ManagedProxyConfig {
            socks5_host: managed_gateway::MANAGED_GATEWAY_SOCKS5_HOST.to_owned(),
            socks5_port: managed_gateway::MANAGED_GATEWAY_SOCKS5_PORT,
        }
    }
}

/// The port that the proxy listens on unless it is told otherwise. It is fixed because
/// its address is kept in a file that outlives the proxy.
pub const DEFAULT_MANAGED_PROXY_PORT: u16 = 17891;

/// The port to listen on, given the setting that may override the default. A setting
/// that is no port, or zero, is ignored.
pub open spec fn proxy_port_of(setting: Option<Seq<char>>) -> u16 {
    match setting {
        Some(value) => match number::parse_u16_of(text::trimmed(value)) {
            Some(port) => if port != 0 {
                port
            } else {
                DEFAULT_MANAGED_PROXY_PORT
            },
            None => DEFAULT_MANAGED_PROXY_PORT,
        },
        None => DEFAULT_MANAGED_PROXY_PORT,
    }
}

/// The port to listen on, given the setting that may override the default.
pub fn managed_proxy_port_for(setting: Option<&str>) -> (r: u16)
    ensures
        r == proxy_port_of(match setting {
            Some(value) => Some(value@),
            None => None,
        }),
        r != 0,
{
    match setting {
        Some(value) => {
            let cs = text::chars_of(value);
            match number::parse_u16(text::trim(cs.as_slice())) {
                Some(port) => if port != 0 {
                    port
                } else {
                    DEFAULT_MANAGED_PROXY_PORT
                },
                None => DEFAULT_MANAGED_PROXY_PORT,
            }
        },
        None => DEFAULT_MANAGED_PROXY_PORT,
    }
}

} // verus!

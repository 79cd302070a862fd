use codex_plus_core::connection::{
    dial_address, first_line, identify_response, read_header_byte, route_record, serve_dialled,
    serve_request, ConnectionAction, ConnectionError, HeaderStep, BAD_GATEWAY_RESPONSE,
    BAD_REQUEST_RESPONSE, MAX_HEADER_BYTES, TUNNEL_RESPONSE,
};
use codex_plus_core::managed_proxy::{
    ManagedProxyConfig, ProxyRequestKind, ProxyTarget, RewriteError, RouteDecision,
};
use codex_plus_core::socks5::{continue_handshake, start_handshake, HandshakeAction};
use codex_plus_core::startup::{
    after_listen, after_probe, begin_startup, is_managed_proxy_response, probe_request, StartupStep,
};

fn read_header(stream: &[u8]) -> (HeaderStep, usize) {
    let mut bytes = Vec::new();
    for byte in stream {
        let step = read_header_byte(&mut bytes, Some(*byte));
        if !matches!(step, HeaderStep::More) {
            return (step, bytes.len());
        }
    }
    (read_header_byte(&mut bytes, None), bytes.len())
}

fn header_of(stream: &[u8]) -> String {
    match read_header(stream).0 {
        HeaderStep::Complete(header) => header,
        step => panic!("{step:?}"),
    }
}

fn dial(header: &str) -> (ProxyTarget, RouteDecision) {
    match serve_request(header) {
        ConnectionAction::Dial { target, decision } => (target, decision),
        action => panic!("{action:?}"),
    }
}

fn answer(action: ConnectionAction) -> (String, Option<String>) {
    match action {
        ConnectionAction::Answer { response, failure } => {
            (response, failure.map(|error| error.message()))
        }
        action => panic!("{action:?}"),
    }
}

fn relay(action: ConnectionAction) -> (String, String) {
    match action {
        ConnectionAction::Relay { to_client, to_upstream } => (to_client, to_upstream),
        action => panic!("{action:?}"),
    }
}

fn fake_upstream() -> ManagedProxyConfig {
    ManagedProxyConfig { socks5_host: "127.0.0.1".to_string(), socks5_port: 1080 }
}

#[test]
fn openai_host_is_tunneled_through_socks5_upstream() {
    let header =
        header_of(b"CONNECT chatgpt.com:443 HTTP/1.1\r\nHost: chatgpt.com:443\r\n\r\nping");
    let (target, decision) = dial(&header);
    assert_eq!(format!("{}:{}", target.host, target.port), "chatgpt.com:443");
    assert_eq!(decision, RouteDecision::Socks5);
    let config = fake_upstream();
    assert_eq!(dial_address(&target, decision, &config), ("127.0.0.1", 1080));
    let (to_client, to_upstream) = relay(serve_dialled(&header, target.kind, Ok(())));
    assert!(to_client.starts_with("HTTP/1.1 200"));
    assert_eq!(to_upstream, "");
}

#[test]
fn unmatched_host_goes_direct_and_preserves_query() {
    let target_port = 8080;
    let request = format!(
        "GET http://127.0.0.1:{target_port}/models?client_version=0.154.0 HTTP/1.1\r\nHost: 127.0.0.1\r\n\r\n"
    );
    let header = header_of(request.as_bytes());
    let (target, decision) = dial(&header);
    assert_eq!(decision, RouteDecision::Direct);
    let config = fake_upstream();
    assert_eq!(dial_address(&target, decision, &config), ("127.0.0.1", target_port));
    let (to_client, to_upstream) = relay(serve_dialled(&header, target.kind, Ok(())));
    assert_eq!(to_client, "");
    assert!(to_upstream.contains("GET /models?client_version=0.154.0"));
    assert_eq!(
        to_upstream,
        "GET /models?client_version=0.154.0 HTTP/1.1\r\nHost: 127.0.0.1\r\n\r\n"
    );
}

#[test]
fn matched_host_returns_502_instead_of_falling_back_to_direct() {
    let header = header_of(b"CONNECT chatgpt.com:443 HTTP/1.1\r\nHost: chatgpt.com:443\r\n\r\n");
    let (target, decision) = dial(&header);
    assert_eq!(decision, RouteDecision::Socks5);
    let phase = match start_handshake() {
        HandshakeAction::Exchange { phase, .. } => phase,
        _ => panic!("no greeting"),
    };
    let phase = match continue_handshake(phase, &target.host, target.port, &[0x05, 0x00]) {
        HandshakeAction::Exchange { phase, .. } => phase,
        _ => panic!("no request"),
    };
    let refusal = [0x05, 0x05, 0x00, 0x01, 0];
    let reason = match continue_handshake(phase, &target.host, target.port, &refusal) {
        HandshakeAction::Failed(error) => error.message(),
        _ => panic!("not refused"),
    };
    assert!(reason.contains("连接被拒绝"));
    let (response, failure) = answer(serve_dialled(&header, target.kind, Err(reason.clone())));
    assert!(response.starts_with("HTTP/1.1 502"));
    assert!(!response.contains("200 Connection Established"));
    assert_eq!(failure, Some(reason));
}

#[test]
fn unreachable_socks5_upstream_also_fails_closed() {
    let header = header_of(b"CONNECT api.openai.com:443 HTTP/1.1\r\n\r\n");
    let (target, decision) = dial(&header);
    assert_eq!(decision, RouteDecision::Socks5);
    let reason = Err("connection refused".to_string());
    let (response, _) = answer(serve_dialled(&header, target.kind, reason));
    assert!(response.starts_with("HTTP/1.1 502"));
}

#[test]
fn self_identify_endpoint_reports_managed_proxy() {
    let header = header_of(b"GET /__managed_proxy_id HTTP/1.1\r\nHost: 127.0.0.1\r\n\r\n");
    let (response, failure) = answer(serve_request(&header));
    assert!(response.contains("200 OK"));
    assert!(response.contains("codex-plus-plus-managed-proxy"));
    assert_eq!(failure, None);
}

#[test]
fn identify_response_counts_its_body() {
    assert_eq!(
        identify_response(),
        "HTTP/1.1 200 OK\r\nContent-Type: text/plain\r\nContent-Length: 29\r\n\
         Connection: close\r\n\r\ncodex-plus-plus-managed-proxy"
    );
}

#[test]
fn what_is_no_proxy_request_is_answered_400() {
    for head in ["GET /models HTTP/1.1\r\n\r\n", "\r\n\r\n", "POST /__managed_proxy_id\r\n\r\n"] {
        let (response, failure) = answer(serve_request(&header_of(head.as_bytes())));
        assert_eq!(response, BAD_REQUEST_RESPONSE);
        assert_eq!(failure.as_deref(), Some("无法识别的代理请求首行"));
    }
}

#[test]
fn answers_are_these() {
    assert_eq!(
        BAD_REQUEST_RESPONSE,
        "HTTP/1.1 400 Bad Request\r\nContent-Length: 0\r\nConnection: close\r\n\r\n"
    );
    assert_eq!(
        BAD_GATEWAY_RESPONSE,
        "HTTP/1.1 502 Bad Gateway\r\nContent-Length: 0\r\nConnection: close\r\n\r\n"
    );
    assert_eq!(TUNNEL_RESPONSE, "HTTP/1.1 200 Connection Established\r\n\r\n");
}

#[test]
fn head_ends_at_its_first_empty_line() {
    let (step, read) = read_header(b"A\r\nB\r\n\r\nC\r\n\r\n");
    assert!(matches!(step, HeaderStep::Complete(header) if header == "A\r\nB\r\n\r\n"));
    assert_eq!(read, 8);
}

#[test]
fn head_that_is_cut_off_fails() {
    match read_header(b"GET / HTTP/1.1\r\n").0 {
        HeaderStep::Failed(error) => assert_eq!(error.message(), "客户端在请求头完成前关闭"),
        step => panic!("{step:?}"),
    }
}

#[test]
fn head_over_the_limit_is_refused() {
    let mut stream = vec![b'a'; MAX_HEADER_BYTES - 4];
    stream.extend_from_slice(b"\r\n\r\n");
    assert_eq!(stream.len(), MAX_HEADER_BYTES);
    assert!(matches!(read_header(&stream).0, HeaderStep::Complete(_)));
    stream.insert(0, b'a');
    let (step, read) = read_header(&stream);
    assert_eq!(read, MAX_HEADER_BYTES + 1);
    match step {
        HeaderStep::Failed(error) => assert_eq!(error.message(), "请求头超过 32768 字节"),
        step => panic!("{step:?}"),
    }
}

#[test]
fn head_is_read_as_utf8_as_far_as_it_is() {
    assert_eq!(header_of("GET ä\r\n\r\n".as_bytes()), "GET ä\r\n\r\n");
    assert_eq!(header_of(b"GET \xff\r\n\r\n"), "GET \u{fffd}\r\n\r\n");
}

#[test]
fn first_line_is_trimmed() {
    assert_eq!(first_line("  GET a b \r\nHost: c\r\n\r\n"), "GET a b");
    assert_eq!(first_line("GET a"), "GET a");
    assert_eq!(first_line("\r\nGET a"), "");
}

#[test]
fn plain_request_without_line_end_cannot_be_rewritten() {
    match serve_dialled("GET http://h/", ProxyRequestKind::Plain, Ok(())) {
        ConnectionAction::Fail(error) => {
            assert!(matches!(error, ConnectionError::Rewrite(RewriteError::MissingLineEnd)));
            assert_eq!(error.message(), "请求头缺少首行结尾");
        }
        action => panic!("{action:?}"),
    }
}

#[test]
fn record_names_target_route_and_outcome() {
    let (target, decision) = dial("GET http://H:81/p?token=x HTTP/1.1\r\nA: b\r\n\r\n");
    let record = route_record(&target, decision, true, 12);
    assert_eq!(
        format!("{record:?}"),
        "RouteRecord { host: \"h\", port: 81, decision: \"direct\", upstream_ok: true, \
         duration_ms: 12 }"
    );
    let (target, decision) = dial("CONNECT chatgpt.com HTTP/1.1\r\n\r\n");
    let record = route_record(&target, decision, false, 0);
    assert_eq!(record.decision, "socks5");
    assert!(!record.upstream_ok);
}

#[test]
fn probe_is_answered_and_recognised() {
    assert_eq!(
        probe_request(),
        "GET /__managed_proxy_id HTTP/1.1\r\nHost: 127.0.0.1\r\nConnection: close\r\n\r\n"
    );
    let header = header_of(probe_request().as_bytes());
    let (response, failure) = answer(serve_request(&header));
    assert_eq!(failure, None);
    assert!(is_managed_proxy_response(Some(&response)));
    assert!(!is_managed_proxy_response(Some("HTTP/1.1 200 OK\r\n\r\nhello")));
    assert!(!is_managed_proxy_response(None));
}

#[test]
fn startup_keeps_to_one_port() {
    assert_eq!(begin_startup(Some(5), Some("18000")), StartupStep::Running(5));
    assert_eq!(begin_startup(None, Some("18000")), StartupStep::Probe(18000));
    assert_eq!(begin_startup(None, None), StartupStep::Probe(17891));
    assert_eq!(after_probe(18000, true), StartupStep::Reused(18000));
    assert_eq!(after_probe(18000, false), StartupStep::Listen(18000));
    assert_eq!(after_listen(18000, Ok(18000)), Ok(18000));
}

#[test]
fn port_that_is_taken_is_an_error() {
    assert_eq!(
        after_listen(17891, Err("in use".to_string())),
        Err("受管代理端口 17891 不可用（且不是本工具的旧实例）：\
             受管代理无法监听 127.0.0.1:17891：in use。\
             请释放该端口，或用 CODEX_PLUS_MANAGED_PROXY_PORT 指定其他端口"
            .to_string())
    );
}

#[test]
fn headers_play_no_part() {
    let action = |head: &str| format!("{:?}", serve_request(head));
    let line = "GET http://example.com/ HTTP/1.1\r\n";
    assert_eq!(
        action(&format!("{line}Host: chatgpt.com\r\n\r\n")),
        action(&format!("{line}\r\n"))
    );
    assert_ne!(
        action(&format!("{line}\r\n")),
        action("GET http://chatgpt.com/ HTTP/1.1\r\n\r\n")
    );
}

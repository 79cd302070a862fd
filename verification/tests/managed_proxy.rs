use codex_plus_core::managed_proxy::{
    build_socks5_connect_request, build_socks5_greeting, managed_proxy_port_for,
    origin_form_path, parse_proxy_request_line, parse_socks5_connect_reply, parse_socks5_method_reply,
    rewrite_to_origin_form, route_for_host, socks5_connect_reply_len, ManagedProxyConfig,
    ProxyRequestKind, RewriteError, RouteDecision, DEFAULT_MANAGED_PROXY_PORT,
};
use codex_plus_core::socks5::{
    continue_handshake, socks5_reply_message, start_handshake, HandshakeAction, HandshakePhase,
    Socks5Error,
};

#[test]
fn parses_connect_with_explicit_port() {
    let target = parse_proxy_request_line("CONNECT chatgpt.com:443 HTTP/1.1").expect("parsed");
    assert_eq!(target.host, "chatgpt.com");
    assert_eq!(target.port, 443);
    assert_eq!(target.kind, ProxyRequestKind::Connect);
}

#[test]
fn connect_without_port_defaults_to_443() {
    let target = parse_proxy_request_line("CONNECT auth.openai.com HTTP/1.1").expect("parsed");
    assert_eq!(target.port, 443);
}

#[test]
fn parses_absolute_uri_with_port_and_query() {
    let line = "GET http://10.20.30.61:8080/models?client_version=0.154.0 HTTP/1.1";
    let target = parse_proxy_request_line(line).expect("parsed");
    assert_eq!(target.host, "10.20.30.61");
    assert_eq!(target.port, 8080);
    assert_eq!(target.kind, ProxyRequestKind::Plain);
}

#[test]
fn absolute_uri_without_port_defaults_to_80() {
    let target =
        parse_proxy_request_line("POST http://example.com/api HTTP/1.1").expect("parsed");
    assert_eq!(target.port, 80);
}

#[test]
fn parses_ipv6_literal() {
    let target = parse_proxy_request_line("CONNECT [::1]:8443 HTTP/1.1").expect("parsed");
    assert_eq!(target.host, "::1");
    assert_eq!(target.port, 8443);
}

#[test]
fn method_is_case_insensitive() {
    let target = parse_proxy_request_line("connect chatgpt.com:443 HTTP/1.1").expect("parsed");
    assert_eq!(target.kind, ProxyRequestKind::Connect);
}

#[test]
fn rejects_origin_form_and_garbage() {
    assert!(parse_proxy_request_line("GET /models HTTP/1.1").is_none());
    assert!(parse_proxy_request_line("GET").is_none());
    assert!(parse_proxy_request_line("").is_none());
    assert!(parse_proxy_request_line("CONNECT :443 HTTP/1.1").is_none());
}

#[test]
fn openai_hosts_route_through_socks5() {
    for host in [
        "chatgpt.com",
        "auth.openai.com",
        "api.openai.com",
        "cdn.oaistatic.com",
    ] {
        assert_eq!(
            route_for_host(host),
            RouteDecision::Socks5,
            "host should be proxied: {host}"
        );
    }
}

#[test]
fn gateway_and_loopback_always_direct() {
    for host in ["10.20.30.61", "127.0.0.1", "localhost", "::1"] {
        assert_eq!(
            route_for_host(host),
            RouteDecision::Direct,
            "host must never be proxied: {host}"
        );
    }
}

#[test]
fn unrelated_hosts_go_direct() {
    for host in ["github.com", "registry.npmjs.org", "example.com"] {
        assert_eq!(route_for_host(host), RouteDecision::Direct);
    }
}

#[test]
fn routing_is_case_insensitive() {
    assert_eq!(route_for_host("ChatGPT.com"), RouteDecision::Socks5);
}

#[test]
fn builds_no_auth_greeting() {
    assert_eq!(build_socks5_greeting(), [0x05, 0x01, 0x00]);
}

#[test]
fn builds_domain_connect_request() {
    let request = build_socks5_connect_request("chatgpt.com", 443).expect("built");
    assert_eq!(&request[..5], &[0x05, 0x01, 0x00, 0x03, 11]);
    assert_eq!(&request[5..16], b"chatgpt.com");
    assert_eq!(&request[16..], &[0x01, 0xbb]);
}

#[test]
fn rejects_empty_and_overlong_host() {
    assert!(build_socks5_connect_request("", 443).is_err());
    let long_host = "a".repeat(256);
    assert!(build_socks5_connect_request(&long_host, 443).is_err());
    let max_host = "a".repeat(255);
    assert!(build_socks5_connect_request(&max_host, 443).is_ok());
}

#[test]
fn accepts_no_auth_method_reply_only() {
    assert!(parse_socks5_method_reply(&[0x05, 0x00]).is_ok());
    assert!(parse_socks5_method_reply(&[0x05, 0x02]).is_err());
    assert!(parse_socks5_method_reply(&[0x04, 0x00]).is_err());
    assert!(parse_socks5_method_reply(&[0x05]).is_err());
}

#[test]
fn maps_connect_reply_codes() {
    assert!(parse_socks5_connect_reply(&[0x05, 0x00, 0x00, 0x01]).is_ok());
    let refused = parse_socks5_connect_reply(&[0x05, 0x05, 0x00, 0x01]).expect_err("refused");
    assert!(refused.message().contains("连接被拒绝"));
    let unreachable =
        parse_socks5_connect_reply(&[0x05, 0x03, 0x00, 0x01]).expect_err("unreachable");
    assert!(unreachable.message().contains("网络不可达"));
}

#[test]
fn computes_connect_reply_length_per_address_type() {
    assert_eq!(
        socks5_connect_reply_len(&[0x05, 0x00, 0x00, 0x01, 0, 0, 0, 0, 0, 0]),
        Some(10)
    );
    assert_eq!(
        socks5_connect_reply_len(&[0x05, 0x00, 0x00, 0x03, 3, b'a', b'b', b'c', 0, 0]),
        Some(10)
    );
    assert_eq!(socks5_connect_reply_len(&[0x05, 0x00]), None);
}

#[test]
fn host_is_lowered_and_the_scheme_may_be_in_capitals() {
    let target = parse_proxy_request_line("GET HTTP://Example.COM:81/A?B#C HTTP/1.1").expect("parsed");
    assert_eq!(target.host, "example.com");
    assert_eq!(target.port, 81);
    assert_eq!(target.kind, ProxyRequestKind::Plain);
    let target = parse_proxy_request_line("CONNECT [FE80::1]").expect("parsed");
    assert_eq!(target.host, "fe80::1");
    assert_eq!(target.port, 443);
}

#[test]
fn authority_ends_at_path_query_or_fragment() {
    for tail in ["", "/", "?q=http://x:1/", "#f", "/p?q#f"] {
        let line = format!("GET http://h:8080{tail} HTTP/1.1");
        let target = parse_proxy_request_line(&line).expect("parsed");
        assert_eq!((target.host.as_str(), target.port), ("h", 8080));
    }
}

#[test]
fn malformed_targets_are_no_requests() {
    for line in [
        "CONNECT",
        "CONNECT a:b",
        "CONNECT a:",
        "CONNECT a:65536",
        "CONNECT a:-1",
        "CONNECT a:1:2",
        "CONNECT ::1",
        "CONNECT []:443",
        "CONNECT [::1",
        "CONNECT [::1]:x",
        "GET https://h/ HTTP/1.1",
        "GET http:// HTTP/1.1",
        "GET http:///p HTTP/1.1",
        "GET http://:80/ HTTP/1.1",
        " ",
    ] {
        assert!(parse_proxy_request_line(line).is_none(), "{line}");
    }
}

#[test]
fn ports_may_have_a_plus_sign_and_leading_zeros() {
    assert_eq!(parse_proxy_request_line("CONNECT a:+80").expect("parsed").port, 80);
    assert_eq!(parse_proxy_request_line("CONNECT a:00080").expect("parsed").port, 80);
    assert_eq!(parse_proxy_request_line("CONNECT a:65535").expect("parsed").port, 65535);
    assert_eq!(parse_proxy_request_line("CONNECT a:0").expect("parsed").port, 0);
}

#[test]
fn text_behind_the_bracket_counts_only_as_a_port() {
    let target = parse_proxy_request_line("CONNECT [::1]x").expect("parsed");
    assert_eq!((target.host.as_str(), target.port), ("::1", 443));
}

#[test]
fn proxy_normalises_a_host_twice() {
    assert_eq!(route_for_host("auth0.com ."), RouteDecision::Socks5);
    assert_eq!(route_for_host("AUTH0.COM.."), RouteDecision::Socks5);
    assert_eq!(route_for_host("LOCALHOST."), RouteDecision::Direct);
}

#[test]
fn default_upstream_is_the_managed_one() {
    let config = ManagedProxyConfig::default();
    assert_eq!(config.socks5_host, "10.20.30.61");
    assert_eq!(config.socks5_port, 7891);
}

#[test]
fn port_setting_overrides_the_default_if_it_is_a_port() {
    assert_eq!(DEFAULT_MANAGED_PROXY_PORT, 17891);
    assert_eq!(managed_proxy_port_for(None), 17891);
    assert_eq!(managed_proxy_port_for(Some(" 18000\n")), 18000);
    assert_eq!(managed_proxy_port_for(Some("1")), 1);
    for value in ["", "0", "000", "65536", "-1", "1 2", "x"] {
        assert_eq!(managed_proxy_port_for(Some(value)), 17891, "{value}");
    }
}

#[test]
fn rewriting_keeps_query_version_and_headers() {
    assert_eq!(
        rewrite_to_origin_form("GET http://h:1/p?q=1 HTTP/1.0\r\nHost: h\r\nX: http://h/\r\n\r\n"),
        Ok("GET /p?q=1 HTTP/1.0\r\nHost: h\r\nX: http://h/\r\n\r\n".to_string())
    );
    assert_eq!(
        rewrite_to_origin_form("POST   http://h\r\n\r\n"),
        Ok("POST / HTTP/1.1\r\n\r\n".to_string())
    );
    assert_eq!(
        rewrite_to_origin_form("GET HTTP://h/p HTTP/1.1\r\n"),
        Ok("GET /p HTTP/1.1\r\n".to_string())
    );
    assert_eq!(
        rewrite_to_origin_form(
            "GET HTTP://example.com/a?b=1 HTTP/1.1\r\nHost: example.com\r\n\r\n"
        ),
        Ok("GET /a?b=1 HTTP/1.1\r\nHost: example.com\r\n\r\n".to_string())
    );
    for (uri, path) in [
        ("http://example.com?x=1", "/?x=1"),
        ("http://h?q=/x", "/?q=/x"),
        ("http://h", "/"),
        ("http://h#f", "/"),
        ("http://h/p?q#f?g", "/p?q"),
        ("http://h?q#/f", "/?q"),
        ("/p?q", "/p?q"),
        ("*", "/"),
    ] {
        let uri: Vec<char> = uri.chars().collect();
        assert_eq!(origin_form_path(&uri).into_iter().collect::<String>(), path);
    }
}

#[test]
fn heads_that_cannot_be_rewritten() {
    assert_eq!(
        rewrite_to_origin_form("GET http://h/ HTTP/1.1\n"),
        Err(RewriteError::MissingLineEnd)
    );
    assert_eq!(rewrite_to_origin_form("  \r\n"), Err(RewriteError::MissingMethod));
    assert_eq!(rewrite_to_origin_form("GET \r\n"), Err(RewriteError::MissingUri));
    assert_eq!(RewriteError::MissingLineEnd.message(), "请求头缺少首行结尾");
    assert_eq!(RewriteError::MissingMethod.message(), "请求首行缺少方法");
    assert_eq!(RewriteError::MissingUri.message(), "请求首行缺少 URI");
}

#[test]
fn request_counts_bytes_and_not_characters() {
    let request = build_socks5_connect_request("ä.example", 65535).expect("built");
    assert_eq!(request[4], 10);
    assert_eq!(&request[5..15], "ä.example".as_bytes());
    assert_eq!(&request[15..], &[0xff, 0xff]);
    let long = "ä".repeat(128);
    assert_eq!(
        build_socks5_connect_request(&long, 1),
        Err(Socks5Error::HostTooLong(256))
    );
}

#[test]
fn socks5_errors_say_what_is_wrong() {
    let message = |error: Socks5Error| error.message();
    assert_eq!(message(Socks5Error::EmptyHost), "SOCKS5 目标主机为空");
    assert_eq!(message(Socks5Error::HostTooLong(256)), "SOCKS5 目标主机过长：256 字节");
    assert_eq!(message(Socks5Error::MethodReplyTooShort), "SOCKS5 方法应答长度不足");
    assert_eq!(message(Socks5Error::ConnectReplyTooShort), "SOCKS5 CONNECT 应答长度不足");
    assert_eq!(message(Socks5Error::UnsupportedVersion(4)), "SOCKS5 版本不支持：0x04");
    assert_eq!(message(Socks5Error::AuthRequired(0xfe)), "SOCKS5 上游要求认证方法 0xfe");
    assert_eq!(message(Socks5Error::Refused(8)), "SOCKS5 上游拒绍：不支持的地址类型");
    assert_eq!(message(Socks5Error::UnknownAddressType), "SOCKS5 应答地址类型未知");
}

#[test]
fn each_reply_gives_its_error() {
    assert_eq!(parse_socks5_method_reply(&[5]), Err(Socks5Error::MethodReplyTooShort));
    assert_eq!(parse_socks5_method_reply(&[4, 0]), Err(Socks5Error::UnsupportedVersion(4)));
    assert_eq!(parse_socks5_method_reply(&[5, 2]), Err(Socks5Error::AuthRequired(2)));
    assert_eq!(parse_socks5_connect_reply(&[5]), Err(Socks5Error::ConnectReplyTooShort));
    assert_eq!(parse_socks5_connect_reply(&[4, 0]), Err(Socks5Error::UnsupportedVersion(4)));
    assert_eq!(parse_socks5_connect_reply(&[5, 9]), Err(Socks5Error::Refused(9)));
    assert_eq!(build_socks5_connect_request("", 1), Err(Socks5Error::EmptyHost));
    let texts = [
        "上游一般性故障",
        "规则不允许",
        "网络不可达",
        "主机不可达",
        "连接被拒绝",
        "TTL 过期",
        "不支持的命令",
        "不支持的地址类型",
        "未知错误",
    ];
    for (index, text) in texts.iter().enumerate() {
        assert_eq!(socks5_reply_message(index as u8 + 1), *text);
    }
    assert_eq!(socks5_reply_message(255), "未知错误");
}

#[test]
fn reply_length_for_ipv6_and_unknown_addresses() {
    assert_eq!(socks5_connect_reply_len(&[5, 0, 0, 4, 0]), Some(22));
    assert_eq!(socks5_connect_reply_len(&[5, 0, 0, 3, 255]), Some(262));
    assert_eq!(socks5_connect_reply_len(&[5, 0, 0, 2, 0]), None);
    assert_eq!(socks5_connect_reply_len(&[]), None);
}

fn exchange(action: HandshakeAction) -> (Vec<u8>, usize, HandshakePhase) {
    match action {
        HandshakeAction::Exchange { send, expect, phase } => (send, expect, phase),
        HandshakeAction::Established => panic!("established"),
        HandshakeAction::Failed(error) => panic!("{error:?}"),
    }
}

#[test]
fn handshake_reaches_the_target() {
    let (send, expect, phase) = exchange(start_handshake());
    assert_eq!((send, expect), (vec![5, 1, 0], 2));
    let (send, expect, phase) = exchange(continue_handshake(phase, "chatgpt.com", 443, &[5, 0]));
    assert_eq!(send, build_socks5_connect_request("chatgpt.com", 443).expect("built"));
    assert_eq!((expect, phase), (5, HandshakePhase::ConnectReply));
    let (send, expect, phase) =
        exchange(continue_handshake(phase, "chatgpt.com", 443, &[5, 0, 0, 1, 127]));
    assert_eq!((send, expect, phase), (vec![], 5, HandshakePhase::BoundAddress));
    assert!(matches!(
        continue_handshake(phase, "chatgpt.com", 443, &[0, 0, 1, 0, 80]),
        HandshakeAction::Established
    ));
}

fn failure(action: HandshakeAction) -> Option<Socks5Error> {
    match action {
        HandshakeAction::Failed(error) => Some(error),
        _ => None,
    }
}

#[test]
fn handshake_fails_where_the_upstream_does_not_agree() {
    let method = HandshakePhase::MethodReply;
    let reply = HandshakePhase::ConnectReply;
    assert_eq!(
        failure(continue_handshake(method, "h", 1, &[5, 0xff])),
        Some(Socks5Error::AuthRequired(0xff))
    );
    assert_eq!(
        failure(continue_handshake(method, "", 1, &[5, 0])),
        Some(Socks5Error::EmptyHost)
    );
    assert_eq!(
        failure(continue_handshake(reply, "h", 1, &[5, 5, 0, 1, 0])),
        Some(Socks5Error::Refused(5))
    );
    assert_eq!(
        failure(continue_handshake(reply, "h", 1, &[5, 0, 0, 9, 0])),
        Some(Socks5Error::UnknownAddressType)
    );
    assert_eq!(failure(start_handshake()), None);
}

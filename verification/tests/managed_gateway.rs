use codex_plus_core::managed_gateway::{
    build_pac_script, inject_managed_pac_arg, is_proxy_pac_path, managed_proxy_pac_url_arg,
    normalize_pac_host, pac_result_for_host, suffix_matches_label_boundary,
    MANAGED_GATEWAY_SOCKS5_RESULT,
};

#[test]
fn exact_domain_only_matches_identical_host() {
    assert_eq!(
        pac_result_for_host("chat.openai.com.cdn.cloudflare.net"),
        MANAGED_GATEWAY_SOCKS5_RESULT
    );
    assert_eq!(pac_result_for_host("x.static.cloudflareinsights.com"), "DIRECT");
    assert_eq!(pac_result_for_host("browser-intake-datadoghq.com"), MANAGED_GATEWAY_SOCKS5_RESULT);
    assert_eq!(pac_result_for_host("x.browser-intake-datadoghq.com"), "DIRECT");
}

#[test]
fn suffix_matches_root_and_subdomains_with_label_boundary() {
    assert_eq!(pac_result_for_host("openai.com"), MANAGED_GATEWAY_SOCKS5_RESULT);
    assert_eq!(pac_result_for_host("api.openai.com"), MANAGED_GATEWAY_SOCKS5_RESULT);
    assert_eq!(pac_result_for_host("deep.sub.auth0.com"), MANAGED_GATEWAY_SOCKS5_RESULT);
    assert_eq!(pac_result_for_host("notauth0.com"), "DIRECT");
    assert_eq!(pac_result_for_host("auth0.company"), "DIRECT");
    assert_eq!(pac_result_for_host("notopenai.com"), MANAGED_GATEWAY_SOCKS5_RESULT);
}

#[test]
fn keyword_is_case_insensitive_on_host_only() {
    assert_eq!(pac_result_for_host("OpenAI.example"), MANAGED_GATEWAY_SOCKS5_RESULT);
    assert_eq!(pac_result_for_host("my-openai-proxy.internal"), MANAGED_GATEWAY_SOCKS5_RESULT);
}

#[test]
fn trailing_dot_and_case_normalize_consistently() {
    assert_eq!(pac_result_for_host("API.OpenAI.com."), MANAGED_GATEWAY_SOCKS5_RESULT);
    assert_eq!(pac_result_for_host("api.openai.com"), pac_result_for_host("API.OPENAI.COM."));
}

#[test]
fn gateway_ip_and_loopback_always_direct() {
    for host in ["10.20.30.61", "localhost", "127.0.0.1", "::1"] {
        assert_eq!(pac_result_for_host(host), "DIRECT");
    }
    assert_eq!(pac_result_for_host("10.20.30.61.example"), "DIRECT");
}

#[test]
fn normal_non_openai_host_is_direct() {
    assert_eq!(pac_result_for_host("github.com"), "DIRECT");
    assert_eq!(pac_result_for_host("example.com"), "DIRECT");
}

#[test]
fn matched_result_has_no_direct_fallback() {
    assert!(!MANAGED_GATEWAY_SOCKS5_RESULT.contains("DIRECT"));
}

#[test]
fn pac_script_contains_findproxy_and_both_results() {
    let pac = build_pac_script();
    assert!(pac.contains("FindProxyForURL"));
    assert!(pac.contains("SOCKS5 10.20.30.61:7891"));
    assert!(pac.contains("\"DIRECT\""));
}

#[test]
fn pac_script_embeds_rule_snapshots() {
    let pac = build_pac_script();
    assert!(pac.contains("chat.openai.com.cdn.cloudflare.net"));
    assert!(pac.contains("chatgpt.livekit.cloud"));
}

#[test]
fn proxy_pac_path_matcher_is_exact() {
    assert!(is_proxy_pac_path("/proxy.pac"));
    assert!(!is_proxy_pac_path("/proxy.pac/other"));
    assert!(!is_proxy_pac_path("/other"));
}

#[test]
fn managed_pac_url_arg_shape() {
    assert_eq!(
        managed_proxy_pac_url_arg(57321),
        "--proxy-pac-url=http://127.0.0.1:57321/proxy.pac"
    );
}

#[test]
fn injects_unique_managed_pac_arg_replacing_conflicts() {
    let args = vec![
        "--remote-debugging-port=9229".to_string(),
        "--proxy-pac-url=http://evil.example/proxy.pac".to_string(),
        "--proxy-server=socks5://evil:1".to_string(),
        "--remote-allow-origins=http://127.0.0.1:9229".to_string(),
    ];
    let out = inject_managed_pac_arg(&args, 57321);
    assert_eq!(
        out.iter()
            .filter(|arg| arg.starts_with("--proxy-pac-url="))
            .count(),
        1
    );
    assert!(out.contains(&managed_proxy_pac_url_arg(57321)));
    assert!(out.iter().all(|arg| !arg.starts_with("--proxy-server")));
    assert!(out.contains(&"--remote-debugging-port=9229".to_string()));
}

#[test]
fn inject_appends_when_no_existing_pac_args() {
    let out = inject_managed_pac_arg(&[], 9);
    assert_eq!(out, vec!["--proxy-pac-url=http://127.0.0.1:9/proxy.pac"]);
}

#[test]
fn host_is_trimmed_lowered_and_loses_its_dots() {
    assert_eq!(normalize_pac_host("  API.OpenAI.com... "), "api.openai.com");
    assert_eq!(normalize_pac_host(""), "");
    assert_eq!(normalize_pac_host("..."), "");
    assert_eq!(normalize_pac_host("a b"), "a b");
}

#[test]
fn other_alphabets_are_lowered_too() {
    assert_eq!(normalize_pac_host("ÄÖÜ.Example"), "äöü.example");
    assert_eq!(normalize_pac_host("ΣΑΣ"), "σας");
}

#[test]
fn white_space_before_a_trailing_dot_stays() {
    assert_eq!(normalize_pac_host("auth0.com ."), "auth0.com ");
    assert_eq!(pac_result_for_host("auth0.com ."), "DIRECT");
}

#[test]
fn label_boundary_is_a_dot() {
    assert!(suffix_matches_label_boundary("openai.com", "openai.com"));
    assert!(suffix_matches_label_boundary("api.openai.com", "openai.com"));
    assert!(!suffix_matches_label_boundary("notopenai.com", "openai.com"));
    assert!(!suffix_matches_label_boundary("com", "openai.com"));
    assert!(suffix_matches_label_boundary(".openai.com", "openai.com"));
}

#[test]
fn every_suffix_covers_itself_and_its_subdomains() {
    for suffix in codex_plus_core::managed_gateway::DOMAIN_SUFFIXES {
        assert_eq!(pac_result_for_host(suffix), MANAGED_GATEWAY_SOCKS5_RESULT);
        let sub = format!("a.b.{suffix}.");
        assert_eq!(pac_result_for_host(&sub), MANAGED_GATEWAY_SOCKS5_RESULT);
    }
    for domain in codex_plus_core::managed_gateway::EXACT_DOMAINS {
        assert_eq!(pac_result_for_host(domain), MANAGED_GATEWAY_SOCKS5_RESULT);
    }
}

#[test]
fn pac_script_declares_its_lists_as_arrays() {
    let pac = build_pac_script();
    assert!(pac.starts_with("// Codex++ managed gateway PAC."));
    assert!(pac.contains("var EXACT_DOMAINS = [\"browser-intake-datadoghq.com\", \"chat.openai"));
    assert!(pac.contains("\"static.cloudflareinsights.com\"];\nvar DOMAIN_SUFFIXES = [\"ai.com\", "));
    assert!(pac.contains("\"turn.livekit.cloud\"];\nvar KEYWORDS = [\"openai\"];\n"));
    assert!(pac.ends_with("  return DIRECT_RESULT;\n}\n"));
}

#[test]
fn arguments_that_set_a_proxy_are_recognised_with_white_space_around() {
    let args = vec![
        "  --proxy-server".to_string(),
        "a --proxy-server".to_string(),
        "--proxy-pac-url".to_string(),
        "\t--proxy-pac-url=x".to_string(),
        "--proxy-serverless".to_string(),
    ];
    assert_eq!(
        inject_managed_pac_arg(&args, 65535),
        vec![
            "a --proxy-server",
            "--proxy-pac-url",
            "--proxy-pac-url=http://127.0.0.1:65535/proxy.pac",
        ]
    );
}

#[test]
fn second_injection_replaces_the_first() {
    let args = vec!["--a".to_string(), "--b".to_string()];
    let once = inject_managed_pac_arg(&args, 1);
    assert_eq!(inject_managed_pac_arg(&once, 2), inject_managed_pac_arg(&args, 2));
}

#[test]
fn subdomains_of_proxied_hosts_are_proxied_but_for_two() {
    for host in codex_plus_core::managed_gateway::EXACT_DOMAINS {
        let expected = match host {
            "browser-intake-datadoghq.com" | "static.cloudflareinsights.com" => "DIRECT",
            _ => MANAGED_GATEWAY_SOCKS5_RESULT,
        };
        assert_eq!(pac_result_for_host(&format!("x.{host}")), expected);
    }
    assert_eq!(pac_result_for_host("x.my-openai.."), MANAGED_GATEWAY_SOCKS5_RESULT);
}

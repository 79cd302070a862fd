//! Routing rules of the managed gateway and the PAC script that carries them.
//!
//! A host name is normalised and then looked up: the gateway itself and the loopback
//! names always go direct, a host that falls under one of the rules goes through the
//! SOCKS5 upstream, and every other host goes direct.
use vstd::prelude::*;
use crate::number;
use crate::text;

verus! {

/// Base address of the model gateway.
pub const MANAGED_GATEWAY_BASE_URL: &'static str = "http://10.20.30.61:8080";

/// Host of the SOCKS5 upstream, which is the gateway host.
pub const MANAGED_GATEWAY_SOCKS5_HOST: &'static str = "10.20.30.61";

/// Port of the SOCKS5 upstream.
pub const MANAGED_GATEWAY_SOCKS5_PORT: u16 = 7891;

/// PAC result for a host that goes through the upstream. It names no second choice.
pub const MANAGED_GATEWAY_SOCKS5_RESULT: &'static str = "SOCKS5 10.20.30.61:7891";

/// PAC result for a host that is reached directly.
pub const DIRECT_RESULT: &'static str = "DIRECT";

/// The name of the managed provider in the engine's configuration.
pub const MANAGED_GATEWAY_PROVIDER_ID: &'static str = "managed_gateway";

/// The name under which the credential store keeps the gateway's token.
pub const MANAGED_GATEWAY_CREDENTIAL_TARGET: &'static str = "managed-gateway";

/// Hosts that match a rule only by their whole name.
pub const EXACT_DOMAINS: [&'static str; 7] = [
    "browser-intake-datadoghq.com",
    "chat.openai.com.cdn.cloudflare.net",
    "openai-api.arkoselabs.com",
    "openaicom-api-bdcpf8c6d2e9atf6.z01.azurefd.net",
    "openaicomproductionae4b.blob.core.windows.net",
    "production-openaicom-storage.azureedge.net",
    "static.cloudflareinsights.com",
];

/// Domains that match together with all their subdomains.
pub const DOMAIN_SUFFIXES: [&'static str; 24] = [
    "ai.com",
    "algolia.net",
    "api.statsig.com",
    "auth0.com",
    "chatgpt.com",
    "chatgpt.livekit.cloud",
    "client-api.arkoselabs.com",
    "events.statsigapi.net",
    "featuregates.org",
    "host.livekit.cloud",
    "identrust.com",
    "intercom.io",
    "intercomcdn.com",
    "launchdarkly.com",
    "oaistatic.com",
    "oaiusercontent.com",
    "observeit.net",
    "openai.com",
    "openaiapi-site.azureedge.net",
    "openaicom.imgix.net",
    "segment.io",
    "sentry.io",
    "stripe.com",
    "turn.livekit.cloud",
];

/// Words that match wherever they occur in a host name.
pub const KEYWORDS: [&'static str; 1] = ["openai"];

/// What `str::to_lowercase` makes of a string with characters beyond ASCII.
pub uninterp spec fn unicode_lowercase(s: Seq<char>) -> Seq<char>;

/// `str::to_lowercase` maps ASCII letters to lower case and leaves the other ASCII
/// characters alone; what it makes of a string with other characters has a name only.
pub assume_specification[ str::to_lowercase ](s: &str) -> (r: String)
    ensures
        r@ == (if vstd::utf8::is_ascii_chars(s@) {
            text::ascii_lowercase_of(s@)
        } else {
            unicode_lowercase(s@)
        }),
;

/// `s` in lower case.
pub open spec fn lowercase_of(s: Seq<char>) -> Seq<char> {
    if vstd::utf8::is_ascii_chars(s) {
        text::ascii_lowercase_of(s)
    } else {
        unicode_lowercase(s)
    }
}

/// A host name in lower case, without surrounding white space and trailing dots.
pub open spec fn normalized_host(host: Seq<char>) -> Seq<char> {
    text::trim_end_matches_of(lowercase_of(text::trimmed(host)), '.')
}

/// Whether a normalised host is the gateway or a loopback name.
pub open spec fn direct_host(host: Seq<char>) -> bool {
    ||| host == MANAGED_GATEWAY_SOCKS5_HOST@
    ||| host == "localhost"@
    ||| host == "127.0.0.1"@
    ||| host == "::1"@
}

/// Whether `host` is `domain` or one of its subdomains.
pub open spec fn within_domain(host: Seq<char>, domain: Seq<char>) -> bool {
    ||| host == domain
    ||| (seq!['.'] + domain).is_suffix_of(host)
}

/// Whether `host` is one of `domains`.
pub open spec fn listed(host: Seq<char>, domains: Seq<&'static str>) -> bool {
    exists|i: int| 0 <= i < domains.len() && host == (#[trigger] domains[i])@
}

/// Whether `host` is one of `domains` or a subdomain of one.
pub open spec fn within_listed(host: Seq<char>, domains: Seq<&'static str>) -> bool {
    exists|i: int| 0 <= i < domains.len() && within_domain(host, (#[trigger] domains[i])@)
}

/// Whether one of `words` occurs in `host`.
pub open spec fn mentions(host: Seq<char>, words: Seq<&'static str>) -> bool {
    exists|i: int| 0 <= i < words.len() && text::occurs((#[trigger] words[i])@, host)
}

/// Whether a normalised host goes through the SOCKS5 upstream.
pub open spec fn proxied(host: Seq<char>) -> bool {
    &&& !direct_host(host)
    &&& {
        ||| listed(host, EXACT_DOMAINS@)
        ||| within_listed(host, DOMAIN_SUFFIXES@)
        ||| mentions(host, KEYWORDS@)
    }
}

/// The PAC result for a normalised host.
pub open spec fn pac_result(host: Seq<char>) -> Seq<char> {
    if proxied(host) {
        MANAGED_GATEWAY_SOCKS5_RESULT@
    } else {
        DIRECT_RESULT@
    }
}

/// The two PAC results differ.
pub proof fn lemma_results_differ()
    ensures
        MANAGED_GATEWAY_SOCKS5_RESULT@ != DIRECT_RESULT@,
{
    reveal_strlit("SOCKS5 10.20.30.61:7891");
    reveal_strlit("DIRECT");
    assert(MANAGED_GATEWAY_SOCKS5_RESULT@.len() == 23);
    assert(DIRECT_RESULT@.len() == 6);
}

/// Removes the trailing dots of a host name.
pub fn without_trailing_dots(host: &str) -> (r: String)
    ensures
        r@ == text::trim_end_matches_of(host@, '.'),
{
    let cs = text::chars_of(host);
    text::string_of(text::trim_end_matches(cs.as_slice(), '.'))
}

/// Normalises a host name: lower case, no surrounding white space, no trailing dots.
pub fn normalize_pac_host(host: &str) -> (r: String)
    ensures
        r@ == normalized_host(host@),
{
    let cs = text::chars_of(host);
    let trimmed = text::string_of(text::trim(cs.as_slice()));
    let lower = trimmed.as_str().to_lowercase();
    without_trailing_dots(lower.as_str())
}

/// Whether `host` is `suffix` or ends in it behind a dot.
pub fn suffix_matches_label_boundary(host: &str, suffix: &str) -> (r: bool)
    ensures
        r == within_domain(host@, suffix@),
{
    let host_chars = text::chars_of(host);
    let suffix_chars = text::chars_of(suffix);
    if text::same_chars(host_chars.as_slice(), suffix_chars.as_slice()) {
        return true;
    }
    let mut dotted: Vec<char> = Vec::new();
    dotted.push('.');
    text::push_chars(&mut dotted, suffix_chars.as_slice());
    assert(dotted@ =~= seq!['.'] + suffix@);
    text::ends_with(host_chars.as_slice(), dotted.as_slice())
}

/// Whether `host` is one of `domains`.
fn is_listed(host: &str, domains: &[&'static str]) -> (r: bool)
    ensures
        r == listed(host@, domains@),
{
    let host_chars = text::chars_of(host);
    let n: usize = domains.len();
    let mut i: usize = 0;
    while i < n
        invariant
            i <= n,
            n == domains@.len(),
            host_chars@ == host@,
            forall|j: int| 0 <= j < i ==> host@ != (#[trigger] domains@[j])@,
        decreases n - i,
    {
        if text::is_text(host_chars.as_slice(), domains[i]) {
            return true;
        }
        i = i + 1;
    }
    false
}

/// Whether `host` is one of `domains` or a subdomain of one.
fn is_within_listed(host: &str, domains: &[&'static str]) -> (r: bool)
    ensures
        r == within_listed(host@, domains@),
{
    let n: usize = domains.len();
    let mut i: usize = 0;
    while i < n
        invariant
            i <= n,
            n == domains@.len(),
            forall|j: int| 0 <= j < i ==> !within_domain(host@, (#[trigger] domains@[j])@),
        decreases n - i,
    {
        if suffix_matches_label_boundary(host, domains[i]) {
            return true;
        }
        i = i + 1;
    }
    false
}

/// Whether one of `words` occurs in `host`.
fn mentions_any(host: &str, words: &[&'static str]) -> (r: bool)
    ensures
        r == mentions(host@, words@),
{
    let host_chars = text::chars_of(host);
    let n: usize = words.len();
    let mut i: usize = 0;
    while i < n
        invariant
            i <= n,
            n == words@.len(),
            host_chars@ == host@,
            forall|j: int| 0 <= j < i ==> !text::occurs((#[trigger] words@[j])@, host@),
        decreases n - i,
    {
        let word = text::chars_of(words[i]);
        if text::contains(host_chars.as_slice(), word.as_slice()) {
            return true;
        }
        i = i + 1;
    }
    false
}

/// Whether a normalised host is the gateway or a loopback name.
pub fn is_direct_host(host: &str) -> (r: bool)
    ensures
        r == direct_host(host@),
{
    let cs = text::chars_of(host);
    text::is_text(cs.as_slice(), MANAGED_GATEWAY_SOCKS5_HOST) || text::is_text(
        cs.as_slice(),
        "localhost",
    ) || text::is_text(cs.as_slice(), "127.0.0.1") || text::is_text(cs.as_slice(), "::1")
}

/// The PAC result for a host name that is already normalised.
pub fn pac_result_for_normalized_host(host: &str) -> (r: &'static str)
    ensures
        r@ == pac_result(host@),
{
    if is_direct_host(host) {
        return DIRECT_RESULT;
    }
    if is_listed(host, &EXACT_DOMAINS) {
        return MANAGED_GATEWAY_SOCKS5_RESULT;
    }
    if is_within_listed(host, &DOMAIN_SUFFIXES) {
        return MANAGED_GATEWAY_SOCKS5_RESULT;
    }
    if mentions_any(host, &KEYWORDS) {
        return MANAGED_GATEWAY_SOCKS5_RESULT;
    }
    DIRECT_RESULT
}

/// The PAC result for a host name.
pub fn pac_result_for_host(host: &str) -> (r: &'static str)
    ensures
        r@ == pac_result(normalized_host(host@)),
{
    let normalized = normalize_pac_host(host);
    pac_result_for_normalized_host(normalized.as_str())
}

/// `value` in double quotes.
pub open spec fn quoted(value: Seq<char>) -> Seq<char> {
    "\""@ + value + "\""@
}

/// A JavaScript array literal of the strings `values`.
pub open spec fn js_array(values: Seq<&str>) -> Seq<char> {
    "["@ + text::joined(
        Seq::new(values.len(), |i: int| quoted(values[i]@)),
        ", "@,
    ) + "]"@
}

/// The PAC script: the rules as array literals, and the function that applies them.
pub open spec fn pac_script() -> Seq<char> {
    PAC_HEAD@ + js_array(EXACT_DOMAINS@) + PAC_SUFFIXES@ + js_array(DOMAIN_SUFFIXES@)
        + PAC_KEYWORDS@ + js_array(KEYWORDS@) + PAC_FUNCTIONS@
}

/// The script up to the exact domains.
pub const PAC_HEAD: &'static str =
    r#"// Codex++ managed gateway PAC. Generated content; do not edit.
var EXACT_DOMAINS = "#;

/// The script between the exact domains and the domain suffixes.
pub const PAC_SUFFIXES: &'static str = r#";
var DOMAIN_SUFFIXES = "#;

/// The script between the domain suffixes and the keywords.
pub const PAC_KEYWORDS: &'static str = r#";
var KEYWORDS = "#;

/// The script behind the keywords.
pub const PAC_FUNCTIONS: &'static str = r#";
var SOCKS5_RESULT = "SOCKS5 10.20.30.61:7891";
var DIRECT_RESULT = "DIRECT";
var DIRECT_HOSTS = ["10.20.30.61", "localhost", "127.0.0.1", "::1"];
function normalizeHost(host) {
  var h = String(host).toLowerCase();
  while (h.length > 0 && h.charAt(h.length - 1) === ".") h = h.substring(0, h.length - 1);
  return h;
}
function FindProxyForURL(url, host) {
  var h = normalizeHost(host);
  for (var i = 0; i < DIRECT_HOSTS.length; i++) {
    if (h === DIRECT_HOSTS[i]) return DIRECT_RESULT;
  }
  for (var i = 0; i < EXACT_DOMAINS.length; i++) {
    if (h === EXACT_DOMAINS[i]) return SOCKS5_RESULT;
  }
  for (var i = 0; i < DOMAIN_SUFFIXES.length; i++) {
    var s = DOMAIN_SUFFIXES[i];
    if (h === s) return SOCKS5_RESULT;
    if (h.length > s.length && h.charAt(h.length - s.length - 1) === "." && h.substring(h.length - s.length) === s) return SOCKS5_RESULT;
  }
  for (var i = 0; i < KEYWORDS.length; i++) {
    if (h.indexOf(KEYWORDS[i]) !== -1) return SOCKS5_RESULT;
  }
  return DIRECT_RESULT;
}
"#;

/// Writes `values` as a JavaScript array literal of strings.
pub fn js_string_array(values: &[&str]) -> (r: String)
    ensures
        r@ == js_array(values@),
{
    let mut parts: Vec<Vec<char>> = Vec::new();
    let n: usize = values.len();
    let mut i: usize = 0;
    while i < n
        invariant
            i <= n,
            n == values@.len(),
            parts@.len() == i,
            forall|j: int| 0 <= j < i ==> (#[trigger] parts@[j])@ == quoted(values@[j]@),
        decreases n - i,
    {
        let mut part: Vec<char> = Vec::new();
        text::push_text(&mut part, "\"");
        text::push_text(&mut part, values[i]);
        text::push_text(&mut part, "\"");
        assert(part@ =~= quoted(values@[i as int]@));
        parts.push(part);
        i = i + 1;
    }
    assert(text::views(parts@) =~= Seq::new(values@.len(), |i: int| quoted(values@[i]@)));
    let list = text::join(&parts, ", ");
    let mut out: Vec<char> = Vec::new();
    text::push_text(&mut out, "[");
    text::push_chars(&mut out, list.as_slice());
    text::push_text(&mut out, "]");
    assert(out@ =~= js_array(values@));
    text::string_of(out.as_slice())
}

/// The PAC script. It depends on the rules alone.
pub fn build_pac_script() -> (r: String)
    ensures
        r@ == pac_script(),
{
    let exact = js_string_array(&EXACT_DOMAINS);
    let suffixes = js_string_array(&DOMAIN_SUFFIXES);
    let keywords = js_string_array(&KEYWORDS);
    let mut out: Vec<char> = Vec::new();
    text::push_text(&mut out, PAC_HEAD);
    text::push_text(&mut out, exact.as_str());
    text::push_text(&mut out, PAC_SUFFIXES);
    text::push_text(&mut out, suffixes.as_str());
    text::push_text(&mut out, PAC_KEYWORDS);
    text::push_text(&mut out, keywords.as_str());
    text::push_text(&mut out, PAC_FUNCTIONS);
    assert(out@ =~= pac_script());
    text::string_of(out.as_slice())
}

/// Whether `path` is where the helper serves the PAC script.
pub fn is_proxy_pac_path(path: &str) -> (r: bool)
    ensures
        r == (path@ == "/proxy.pac"@),
{
    let cs = text::chars_of(path);
    text::is_text(cs.as_slice(), "/proxy.pac")
}

/// The launch argument that points at the PAC script on the helper's port.
pub open spec fn pac_url_arg(helper_port: u16) -> Seq<char> {
    "--proxy-pac-url=http://127.0.0.1:"@ + number::decimal(helper_port as nat) + "/proxy.pac"@
}

/// Whether a launch argument sets a proxy of its own.
pub open spec fn sets_proxy(arg: Seq<char>) -> bool {
    ||| "--proxy-pac-url="@.is_prefix_of(text::trimmed(arg))
    ||| "--proxy-server"@.is_prefix_of(text::trimmed(arg))
}

/// The launch arguments that set no proxy, in their order.
pub open spec fn without_proxy_args(args: Seq<Seq<char>>) -> Seq<Seq<char>>
    decreases args.len(),
{
    if args.len() == 0 {
        Seq::empty()
    } else if sets_proxy(args.last()) {
        without_proxy_args(args.drop_last())
    } else {
        without_proxy_args(args.drop_last()).push(args.last())
    }
}

/// The launch arguments with the managed PAC argument as the one that sets a proxy.
pub open spec fn with_pac_arg(args: Seq<Seq<char>>, helper_port: u16) -> Seq<Seq<char>> {
    without_proxy_args(args).push(pac_url_arg(helper_port))
}

/// The views of a sequence of strings.
pub open spec fn string_views(values: Seq<String>) -> Seq<Seq<char>> {
    Seq::new(values.len(), |i: int| values[i]@)
}

/// The launch argument that points at the PAC script on the helper's port.
pub fn managed_proxy_pac_url_arg(helper_port: u16) -> (r: String)
    ensures
        r@ == pac_url_arg(helper_port),
{
    let mut out: Vec<char> = Vec::new();
    text::push_text(&mut out, "--proxy-pac-url=http://127.0.0.1:");
    number::push_decimal(&mut out, helper_port as u128);
    text::push_text(&mut out, "/proxy.pac");
    assert(out@ =~= pac_url_arg(helper_port));
    text::string_of(out.as_slice())
}

/// Drops the launch arguments that set a proxy and appends the managed PAC argument.
pub fn inject_managed_pac_arg(args: &[String], helper_port: u16) -> (r: Vec<String>)
    ensures
        string_views(r@) == with_pac_arg(string_views(args@), helper_port),
{
    let mut out: Vec<String> = Vec::new();
    let n: usize = args.len();
    let mut i: usize = 0;
    let pac_url = text::chars_of("--proxy-pac-url=");
    let server = text::chars_of("--proxy-server");
    let ghost all = string_views(args@);
    assert(string_views(out@) =~= without_proxy_args(all.take(0)));
    while i < n
        invariant
            i <= n,
            n == args@.len(),
            all == string_views(args@),
            pac_url@ == "--proxy-pac-url="@,
            server@ == "--proxy-server"@,
            string_views(out@) == without_proxy_args(all.take(i as int)),
        decreases n - i,
    {
        let arg = text::chars_of(args[i].as_str());
        let trimmed = text::trim(arg.as_slice());
        assert(all.take(i + 1).drop_last() == all.take(i as int));
        assert(all.take(i + 1).last() == args@[i as int]@);
        if !text::starts_with(trimmed, pac_url.as_slice()) && !text::starts_with(
            trimmed,
            server.as_slice(),
        ) {
            let ghost so_far = out@;
            out.push(args[i].clone());
            assert(string_views(out@) =~= string_views(so_far).push(args@[i as int]@));
        }
        i = i + 1;
    }
    assert(all.take(n as int) == all);
    let ghost so_far = out@;
    let arg = managed_proxy_pac_url_arg(helper_port);
    out.push(arg);
    assert(string_views(out@) =~= string_views(so_far).push(arg@));
    out
}

} // verus!

//! What holds of host names, the PAC rules and the routes taken together.
//!
//! The laws on how names are normalised speak of ASCII names: what other names are in lower
//! case is known by name alone.
use vstd::prelude::*;
use vstd::utf8::is_ascii_chars;
use crate::managed_gateway;
use crate::managed_proxy;
use crate::text;

verus! {

/// Lower case and trimming can be exchanged.
proof fn lemma_lowercase_trim_start(s: Seq<char>)
    ensures
        text::trim_start_of(text::ascii_lowercase_of(s)) == text::ascii_lowercase_of(
            text::trim_start_of(s),
        ),
    decreases s.len(),
{
    let l = text::ascii_lowercase_of(s);
    if s.len() > 0 {
        text::lemma_ascii_lower(s[0]);
        if text::white_space(s[0]) {
            assert(l.drop_first() =~= text::ascii_lowercase_of(s.drop_first()));
            lemma_lowercase_trim_start(s.drop_first());
        }
    }
}

/// Lower case and trimming can be exchanged.
proof fn lemma_lowercase_trim_end(s: Seq<char>)
    ensures
        text::trim_end_of(text::ascii_lowercase_of(s)) == text::ascii_lowercase_of(
            text::trim_end_of(s),
        ),
    decreases s.len(),
{
    let l = text::ascii_lowercase_of(s);
    if s.len() > 0 {
        text::lemma_ascii_lower(s.last());
        if text::white_space(s.last()) {
            assert(l.drop_last() =~= text::ascii_lowercase_of(s.drop_last()));
            lemma_lowercase_trim_end(s.drop_last());
        }
    }
}

/// Removing trailing dots keeps a prefix, and what it removes is dots.
proof fn lemma_trim_dots(s: Seq<char>) -> (m: int)
    ensures
        0 <= m <= s.len(),
        text::trim_end_matches_of(s, '.') == s.take(m),
        forall|i: int| m <= i < s.len() ==> #[trigger] s[i] == '.',
        m > 0 ==> s[m - 1] != '.',
    decreases s.len(),
{
    if s.len() > 0 && s.last() == '.' {
        let m = lemma_trim_dots(s.drop_last());
        assert(s.drop_last().take(m) =~= s.take(m));
        assert forall|i: int| m <= i < s.len() implies #[trigger] s[i] == '.' by {
            if i < s.len() - 1 {
                assert(s[i] == s.drop_last()[i]);
            }
        }
        m
    } else {
        assert(s.take(s.len() as int) =~= s);
        s.len() as int
    }
}

/// The lower case of an ASCII text is ASCII, and its own lower case.
proof fn lemma_lowercase(s: Seq<char>)
    requires
        is_ascii_chars(s),
    ensures
        is_ascii_chars(text::ascii_lowercase_of(s)),
        text::ascii_lowercase_of(text::ascii_lowercase_of(s)) == text::ascii_lowercase_of(s),
{
    let l = text::ascii_lowercase_of(s);
    assert forall|i: int| 0 <= i < l.len() implies 0 <= #[trigger] l[i] as nat && (l[i] as nat)
        < 128 by {
        text::lemma_ascii_lower(s[i]);
        assert((s[i] as nat) < 128);
    }
    assert forall|i: int| 0 <= i < l.len() implies text::ascii_lowercase_of(l)[i] == l[i] by {
        text::lemma_ascii_lower(s[i]);
    }
    assert(text::ascii_lowercase_of(l) =~= l);
}

/// An ASCII host is normalised by putting it in lower case, trimming it and removing its
/// trailing dots.
proof fn lemma_normalized_ascii(host: Seq<char>)
    requires
        is_ascii_chars(host),
    ensures
        managed_gateway::normalized_host(host) == text::trim_end_matches_of(
            text::trimmed(text::ascii_lowercase_of(host)),
            '.',
        ),
        is_ascii_chars(managed_gateway::normalized_host(host)),
        text::ascii_lowercase_of(managed_gateway::normalized_host(host))
            == managed_gateway::normalized_host(host),
{
    let r = text::lemma_trimmed(host);
    let t = text::trimmed(host);
    assert forall|i: int| 0 <= i < t.len() implies 0 <= #[trigger] t[i] as nat && (t[i] as nat)
        < 128 by {
        assert(t[i] == host[r.0 + i]);
    }
    assert(is_ascii_chars(t));
    lemma_lowercase_trim_start(host);
    lemma_lowercase_trim_end(text::trim_start_of(host));
    let l = text::ascii_lowercase_of(t);
    lemma_lowercase(t);
    let m = lemma_trim_dots(l);
    let n = managed_gateway::normalized_host(host);
    assert(n == l.take(m));
    assert forall|i: int| 0 <= i < n.len() implies 0 <= #[trigger] n[i] as nat && (n[i] as nat)
        < 128 by {
        assert(n[i] == l[i]);
    }
    assert(text::ascii_lowercase_of(n) =~= n) by {
        assert forall|i: int| 0 <= i < n.len() implies text::ascii_lowercase_of(n)[i] == n[i] by {
            assert(text::ascii_lowercase_of(l)[i] == l[i]);
        }
    }
}

/// There are two PAC results, and the one for the upstream offers no direct connection.
pub proof fn law_no_direct_fallback(host: Seq<char>)
    ensures
        managed_gateway::pac_result(host) == managed_gateway::MANAGED_GATEWAY_SOCKS5_RESULT@
            || managed_gateway::pac_result(host) == managed_gateway::DIRECT_RESULT@,
        !text::occurs(
            managed_gateway::DIRECT_RESULT@,
            managed_gateway::MANAGED_GATEWAY_SOCKS5_RESULT@,
        ),
{
    reveal_strlit("SOCKS5 10.20.30.61:7891");
    reveal_strlit("DIRECT");
    let s = managed_gateway::MANAGED_GATEWAY_SOCKS5_RESULT@;
    let d = managed_gateway::DIRECT_RESULT@;
    assert forall|i: int| 0 <= i && i + d.len() <= s.len() implies #[trigger] s.subrange(
        i,
        i + d.len(),
    ) != d by {
        assert(s.subrange(i, i + d.len())[0] == s[i]);
        assert(d[0] == 'D');
        assert(s.len() == 23);
        assert(i == 0 || i == 1 || i == 2 || i == 3 || i == 4 || i == 5 || i == 6 || i == 7 || i
            == 8 || i == 9 || i == 10 || i == 11 || i == 12 || i == 13 || i == 14 || i == 15 || i
            == 16 || i == 17);
    }
}

/// The gateway and the loopback names are never sent through the upstream, whatever the
/// rules say.
pub proof fn law_gateway_and_loopback_go_direct(host: Seq<char>)
    requires
        managed_gateway::direct_host(managed_gateway::normalized_host(host)),
    ensures
        managed_gateway::pac_result(managed_gateway::normalized_host(host))
            == managed_gateway::DIRECT_RESULT@,
        managed_proxy::route_of(host) == managed_proxy::RouteDecision::Direct,
{
}

/// A domain covers a longer name exactly if a dot stands in front of it there.
pub proof fn law_label_boundary(front: Seq<char>, domain: Seq<char>)
    ensures
        managed_gateway::within_domain(front + domain, domain) <==> front.len() == 0
            || front.last() == '.',
{
    let host = front + domain;
    let dotted = seq!['.'] + domain;
    if front.len() == 0 {
        assert(host =~= domain);
    } else {
        assert(host.len() != domain.len());
        let tail = host.skip(host.len() - dotted.len());
        assert(tail[0] == front.last());
        if front.last() == '.' {
            assert(tail =~= dotted);
        } else {
            assert(dotted[0] == '.');
        }
    }
}

/// The case of ASCII letters plays no part.
pub proof fn law_case_is_ignored(a: Seq<char>, b: Seq<char>)
    requires
        is_ascii_chars(a),
        is_ascii_chars(b),
        text::ascii_lowercase_of(a) == text::ascii_lowercase_of(b),
    ensures
        managed_gateway::normalized_host(a) == managed_gateway::normalized_host(b),
        managed_proxy::route_of(a) == managed_proxy::route_of(b),
{
    lemma_normalized_ascii(a);
    lemma_normalized_ascii(b);
}

/// Trimming the start does not reach beyond a character that is no white space.
proof fn lemma_trim_start_concat(s: Seq<char>, t: Seq<char>)
    requires
        t.len() > 0,
        !text::white_space(t[0]),
    ensures
        text::trim_start_of(s + t) == text::trim_start_of(s) + t,
    decreases s.len(),
{
    if s.len() == 0 {
        assert(s + t =~= t);
        assert(text::trim_start_of(s) + t =~= t);
    } else if text::white_space(s[0]) {
        assert((s + t).drop_first() =~= s.drop_first() + t);
        lemma_trim_start_concat(s.drop_first(), t);
    }
}

/// A trailing dot plays no part, unless white space stands in front of it.
pub proof fn law_trailing_dot_is_ignored(host: Seq<char>)
    requires
        is_ascii_chars(host),
        host.len() > 0 ==> !text::white_space(host.last()),
    ensures
        managed_gateway::normalized_host(host.push('.')) == managed_gateway::normalized_host(host),
        managed_proxy::route_of(host.push('.')) == managed_proxy::route_of(host),
{
    let dot = seq!['.'];
    let longer = host.push('.');
    assert(longer =~= host + dot);
    lemma_normalized_ascii(host);
    lemma_normalized_ascii(longer);
    let l = text::ascii_lowercase_of(host);
    assert(text::ascii_lowercase_of(longer) =~= l + dot);
    lemma_trim_start_concat(l, dot);
    let t = text::trim_start_of(l);
    let a = text::lemma_trim_start(l);
    assert(text::trim_end_of(t + dot) == t + dot);
    if t.len() > 0 {
        assert(t.last() == l.last());
        text::lemma_ascii_lower(host.last());
    }
    assert(text::trim_end_of(t) == t);
    assert((t + dot).drop_last() =~= t);
}

/// Whether `domain` is in normal form and no loopback name or address can end in it.
pub open spec fn proper_domain(domain: Seq<char>) -> bool {
    &&& domain.len() > 2
    &&& forall|i: int|
        0 <= i < domain.len() ==> (#[trigger] domain[i] as nat) < 128 && !text::white_space(
            domain[i],
        ) && text::ascii_lower(domain[i]) == domain[i]
    &&& domain.last() != '.'
    &&& domain.last() != '1'
    &&& (domain.last() == 't' ==> domain[domain.len() - 2] != 's')
}

/// The domain suffixes are in normal form.
proof fn lemma_suffixes_are_proper(i: int)
    requires
        0 <= i < managed_gateway::DOMAIN_SUFFIXES@.len(),
    ensures
        proper_domain(managed_gateway::DOMAIN_SUFFIXES@[i]@),
{
    reveal_strlit("ai.com");
    reveal_strlit("algolia.net");
    reveal_strlit("api.statsig.com");
    reveal_strlit("auth0.com");
    reveal_strlit("chatgpt.com");
    reveal_strlit("chatgpt.livekit.cloud");
    reveal_strlit("client-api.arkoselabs.com");
    reveal_strlit("events.statsigapi.net");
    reveal_strlit("featuregates.org");
    reveal_strlit("host.livekit.cloud");
    reveal_strlit("identrust.com");
    reveal_strlit("intercom.io");
    reveal_strlit("intercomcdn.com");
    reveal_strlit("launchdarkly.com");
    reveal_strlit("oaistatic.com");
    reveal_strlit("oaiusercontent.com");
    reveal_strlit("observeit.net");
    reveal_strlit("openai.com");
    reveal_strlit("openaiapi-site.azureedge.net");
    reveal_strlit("openaicom.imgix.net");
    reveal_strlit("segment.io");
    reveal_strlit("sentry.io");
    reveal_strlit("stripe.com");
    reveal_strlit("turn.livekit.cloud");
    assert(proper_domain("ai.com"@));
    assert(proper_domain("algolia.net"@));
    assert(proper_domain("api.statsig.com"@));
    assert(proper_domain("auth0.com"@));
    assert(proper_domain("chatgpt.com"@));
    assert(proper_domain("chatgpt.livekit.cloud"@));
    assert(proper_domain("client-api.arkoselabs.com"@));
    assert(proper_domain("events.statsigapi.net"@));
    assert(proper_domain("featuregates.org"@));
    assert(proper_domain("host.livekit.cloud"@));
    assert(proper_domain("identrust.com"@));
    assert(proper_domain("intercom.io"@));
    assert(proper_domain("intercomcdn.com"@));
    assert(proper_domain("launchdarkly.com"@));
    assert(proper_domain("oaistatic.com"@));
    assert(proper_domain("oaiusercontent.com"@));
    assert(proper_domain("observeit.net"@));
    assert(proper_domain("openai.com"@));
    assert(proper_domain("openaiapi-site.azureedge.net"@));
    assert(proper_domain("openaicom.imgix.net"@));
    assert(proper_domain("segment.io"@));
    assert(proper_domain("sentry.io"@));
    assert(proper_domain("stripe.com"@));
    assert(proper_domain("turn.livekit.cloud"@));
}

/// A name that ends in a proper domain is neither the gateway nor a loopback name.
proof fn lemma_proper_is_not_direct(host: Seq<char>, domain: Seq<char>)
    requires
        proper_domain(domain),
        domain.is_suffix_of(host),
    ensures
        !managed_gateway::direct_host(host),
{
    reveal_strlit("10.20.30.61");
    reveal_strlit("localhost");
    reveal_strlit("127.0.0.1");
    reveal_strlit("::1");
    assert(domain.last() == host.last());
    assert(domain[domain.len() - 2] == host[host.len() - 2]);
    assert(managed_gateway::MANAGED_GATEWAY_SOCKS5_HOST@.last() == '1');
    assert("127.0.0.1"@.last() == '1');
    assert("::1"@.last() == '1');
    assert("localhost"@.last() == 't' && "localhost"@["localhost"@.len() - 2] == 's');
}

/// A listed domain and every one of its subdomains goes through the upstream, by the PAC
/// rules and by the route that the proxy takes.
pub proof fn law_suffix_covers_subdomains(sub: Seq<char>, i: int)
    requires
        is_ascii_chars(sub),
        0 <= i < managed_gateway::DOMAIN_SUFFIXES@.len(),
    ensures
        managed_proxy::route_of(managed_gateway::DOMAIN_SUFFIXES@[i]@)
            == managed_proxy::RouteDecision::Socks5,
        managed_proxy::route_of(sub + seq!['.'] + managed_gateway::DOMAIN_SUFFIXES@[i]@)
            == managed_proxy::RouteDecision::Socks5,
        managed_gateway::proxied(
            managed_gateway::normalized_host(managed_gateway::DOMAIN_SUFFIXES@[i]@),
        ),
        managed_gateway::proxied(
            managed_gateway::normalized_host(
                sub + seq!['.'] + managed_gateway::DOMAIN_SUFFIXES@[i]@,
            ),
        ),
{
    let domain = managed_gateway::DOMAIN_SUFFIXES@[i]@;
    lemma_suffixes_are_proper(i);
    assert(is_ascii_chars(domain));
    assert(text::ascii_lowercase_of(domain) =~= domain);
    lemma_normalized_ascii(domain);
    assert(!text::white_space(domain[0]) && !text::white_space(domain[domain.len() - 1]));
    text::lemma_trimmed_unchanged(domain);
    assert(managed_gateway::normalized_host(domain) == domain);
    assert(domain.skip(0) =~= domain);
    lemma_proper_is_not_direct(domain, domain);
    assert(managed_gateway::within_domain(domain, managed_gateway::DOMAIN_SUFFIXES@[i]@));

    let tail = seq!['.'] + domain;
    let host = sub + seq!['.'] + domain;
    assert(host =~= sub + tail);
    assert(is_ascii_chars(host)) by {
        assert forall|k: int| 0 <= k < host.len() implies 0 <= #[trigger] host[k] as nat && (
        host[k] as nat) < 128 by {
            if k < sub.len() {
                assert(host[k] == sub[k]);
            } else if k > sub.len() {
                assert(host[k] == domain[k - sub.len() - 1]);
            }
        }
    }
    lemma_normalized_ascii(host);
    let l = text::ascii_lowercase_of(sub);
    assert(text::ascii_lowercase_of(host) =~= l + tail) by {
        assert forall|k: int| 0 <= k < host.len() implies text::ascii_lower(#[trigger] host[k])
            == (l + tail)[k] by {
            if k > sub.len() {
                assert(host[k] == domain[k - sub.len() - 1]);
            }
        }
    }
    lemma_trim_start_concat(l, tail);
    let t = text::trim_start_of(l) + tail;
    assert(t.last() == domain[domain.len() - 1]);
    assert(text::trim_end_of(t) == t);
    assert(text::trim_end_matches_of(t, '.') == t);
    let normal = managed_gateway::normalized_host(host);
    assert(normal == t);
    assert(t.skip(t.len() - tail.len()) =~= tail);
    assert(t.skip(t.len() - domain.len()) =~= domain);
    lemma_proper_is_not_direct(t, domain);
    assert(managed_gateway::within_domain(t, managed_gateway::DOMAIN_SUFFIXES@[i]@));
    let a = text::lemma_trim_start(l);
    assert(!text::white_space(t[0]) && !text::white_space(t[t.len() - 1]));
    text::lemma_trimmed_unchanged(t);
    law_normalising_twice_is_once(domain);
    law_normalising_twice_is_once(host);
}

/// Three characters by which the exact domains end differently.
spec fn ending(s: Seq<char>) -> (char, char, char) {
    (s[s.len() - 6], s[s.len() - 5], s[s.len() - 1])
}

/// No two exact domains end alike.
proof fn lemma_exact_domains_end_differently(i: int, j: int)
    requires
        0 <= i < managed_gateway::EXACT_DOMAINS@.len(),
        0 <= j < managed_gateway::EXACT_DOMAINS@.len(),
    ensures
        managed_gateway::EXACT_DOMAINS@[i]@.len() >= 6,
        i != j ==> ending(managed_gateway::EXACT_DOMAINS@[i]@) != ending(
            managed_gateway::EXACT_DOMAINS@[j]@,
        ),
{
    reveal_strlit("browser-intake-datadoghq.com");
    reveal_strlit("chat.openai.com.cdn.cloudflare.net");
    reveal_strlit("openai-api.arkoselabs.com");
    reveal_strlit("openaicom-api-bdcpf8c6d2e9atf6.z01.azurefd.net");
    reveal_strlit("openaicomproductionae4b.blob.core.windows.net");
    reveal_strlit("production-openaicom-storage.azureedge.net");
    reveal_strlit("static.cloudflareinsights.com");
    assert(ending("browser-intake-datadoghq.com"@) == ('h', 'q', 'm'));
    assert(ending("chat.openai.com.cdn.cloudflare.net"@) == ('r', 'e', 't'));
    assert(ending("openai-api.arkoselabs.com"@) == ('b', 's', 'm'));
    assert(ending("openaicom-api-bdcpf8c6d2e9atf6.z01.azurefd.net"@) == ('f', 'd', 't'));
    assert(ending("openaicomproductionae4b.blob.core.windows.net"@) == ('w', 's', 't'));
    assert(ending("production-openaicom-storage.azureedge.net"@) == ('g', 'e', 't'));
    assert(ending("static.cloudflareinsights.com"@) == ('t', 's', 'm'));
}

/// An exact domain matches itself and, by the exact rule, no subdomain.
pub proof fn law_exact_domain_matches_itself_alone(sub: Seq<char>, i: int)
    requires
        0 <= i < managed_gateway::EXACT_DOMAINS@.len(),
    ensures
        managed_gateway::listed(
            managed_gateway::EXACT_DOMAINS@[i]@,
            managed_gateway::EXACT_DOMAINS@,
        ),
        !managed_gateway::listed(
            sub + seq!['.'] + managed_gateway::EXACT_DOMAINS@[i]@,
            managed_gateway::EXACT_DOMAINS@,
        ),
{
    let domain = managed_gateway::EXACT_DOMAINS@[i]@;
    let host = sub + seq!['.'] + domain;
    assert forall|j: int| 0 <= j < managed_gateway::EXACT_DOMAINS@.len() implies host
        != #[trigger] managed_gateway::EXACT_DOMAINS@[j]@ by {
        lemma_exact_domains_end_differently(i, j);
        assert(ending(host) == ending(domain));
        assert(host.len() > domain.len());
    }
}

/// No direct host mentions the keyword.
proof fn lemma_keyword_is_not_direct(host: Seq<char>)
    requires
        text::occurs("openai"@, host),
    ensures
        !managed_gateway::direct_host(host),
{
    reveal_strlit("openai");
    reveal_strlit("10.20.30.61");
    reveal_strlit("localhost");
    reveal_strlit("127.0.0.1");
    reveal_strlit("::1");
    let n: int = "openai"@.len() as int;
    let k = choose|k: int|
        0 <= k && k + n <= host.len() && #[trigger] host.subrange(k, k + n) == "openai"@;
    let s = host.subrange(k, k + n);
    assert(s[0] == host[k] && s[1] == host[k + 1]);
    assert(host[k] == 'o' && host[k + 1] == 'p');
    if managed_gateway::direct_host(host) {
        assert(host.len() <= 11);
        assert(k == 0 || k == 1 || k == 2 || k == 3 || k == 4 || k == 5);
        if host == managed_gateway::MANAGED_GATEWAY_SOCKS5_HOST@ {
            assert(false);
        } else if host == "localhost"@ {
            assert(false);
        } else if host == "127.0.0.1"@ {
            assert(false);
        }
    }
}

/// A host that mentions the keyword, in any case, goes through the upstream, by the PAC
/// rules and by the route that the proxy takes.
pub proof fn law_keyword_matches_anywhere(host: Seq<char>)
    requires
        is_ascii_chars(host),
        text::occurs("openai"@, text::ascii_lowercase_of(host)),
    ensures
        managed_gateway::proxied(managed_gateway::normalized_host(host)),
        managed_proxy::route_of(host) == managed_proxy::RouteDecision::Socks5,
{
    lemma_keyword_is_proxied(host);
    lemma_normalized_ascii(host);
    lemma_keyword_is_proxied(managed_gateway::normalized_host(host));
    lemma_keyword_is_not_direct(managed_gateway::normalized_host(host));
}

/// A host that mentions the keyword still does when it is normalised.
proof fn lemma_keyword_is_proxied(host: Seq<char>)
    requires
        is_ascii_chars(host),
        text::occurs("openai"@, text::ascii_lowercase_of(host)),
    ensures
        text::occurs("openai"@, managed_gateway::normalized_host(host)),
        managed_gateway::proxied(managed_gateway::normalized_host(host)),
{
    reveal_strlit("openai");
    lemma_normalized_ascii(host);
    let word = "openai"@;
    let n: int = word.len() as int;
    let l = text::ascii_lowercase_of(host);
    let k = choose|k: int| 0 <= k && k + n <= l.len() && #[trigger] l.subrange(k, k + n) == word;
    assert forall|i: int| 0 <= i < n implies l[k + i] == #[trigger] word[i] by {
        assert(l.subrange(k, k + n)[i] == l[k + i]);
    }
    assert(l[k] == 'o') by {
        assert(word[0] == 'o');
    }
    assert(l[k + n - 1] == 'i') by {
        assert(word[n - 1] == 'i');
    }
    let r = text::lemma_trimmed(l);
    let t = text::trimmed(l);
    assert(r.0 <= k);
    assert(k + n <= r.1);
    let m = lemma_trim_dots(t);
    assert(t[k - r.0 + n - 1] == l[k + n - 1]);
    assert(k - r.0 + n <= m);
    let normal = managed_gateway::normalized_host(host);
    assert(normal.subrange(k - r.0, k - r.0 + n) =~= word);
    assert(text::occurs(word, normal));
    assert(managed_gateway::KEYWORDS@[0]@ == word);
    assert(managed_gateway::mentions(normal, managed_gateway::KEYWORDS@));
    lemma_keyword_is_not_direct(normal);
}

/// Normalising a name twice is normalising it once, unless white space stands in front of
/// its trailing dots.
pub proof fn law_normalising_twice_is_once(host: Seq<char>)
    requires
        is_ascii_chars(host),
        text::trimmed(managed_gateway::normalized_host(host)) == managed_gateway::normalized_host(
            host,
        ),
    ensures
        managed_gateway::normalized_host(managed_gateway::normalized_host(host))
            == managed_gateway::normalized_host(host),
{
    let n = managed_gateway::normalized_host(host);
    lemma_normalized_ascii(host);
    lemma_normalized_ascii(n);
    let m = lemma_trim_dots(text::trimmed(text::ascii_lowercase_of(host)));
    assert(text::trim_end_matches_of(n, '.') == n);
}

/// The proxy, which normalises a name and goes by the rules, which normalise it again,
/// routes a host as the PAC rules say if the second time changes nothing.
pub proof fn law_route_follows_pac(host: Seq<char>)
    requires
        managed_gateway::normalized_host(managed_gateway::normalized_host(host))
            == managed_gateway::normalized_host(host),
    ensures
        managed_proxy::route_of(host) == managed_proxy::RouteDecision::Socks5
            <==> managed_gateway::pac_result(managed_gateway::normalized_host(host))
            == managed_gateway::MANAGED_GATEWAY_SOCKS5_RESULT@,
{
    managed_gateway::lemma_results_differ();
}

/// What occurs in a part of a text occurs in the text.
proof fn lemma_occurs_within(needle: Seq<char>, before: Seq<char>, s: Seq<char>, after: Seq<char>)
    requires
        text::occurs(needle, s),
    ensures
        text::occurs(needle, before + s + after),
{
    let n = needle.len() as int;
    let i = choose|i: int|
        0 <= i && i + n <= s.len() && #[trigger] s.subrange(i, i + n) == needle;
    let whole = before + s + after;
    let k = before.len() + i;
    assert(whole.subrange(k, k + n) =~= s.subrange(i, i + n));
}

/// Whether `s` holds no white space.
pub open spec fn without_white_space(s: Seq<char>) -> bool {
    forall|i: int| 0 <= i < s.len() ==> !text::white_space(#[trigger] s[i])
}

/// An ASCII name without white space is normalised by removing the dots behind its lower
/// case.
proof fn lemma_normalized_without_white_space(host: Seq<char>)
    requires
        is_ascii_chars(host),
        without_white_space(host),
    ensures
        managed_gateway::normalized_host(host) == text::trim_end_matches_of(
            text::ascii_lowercase_of(host),
            '.',
        ),
        without_white_space(text::ascii_lowercase_of(host)),
        without_white_space(managed_gateway::normalized_host(host)),
{
    lemma_normalized_ascii(host);
    let l = text::ascii_lowercase_of(host);
    assert forall|i: int| 0 <= i < l.len() implies !text::white_space(#[trigger] l[i]) by {
        text::lemma_ascii_lower(host[i]);
    }
    lemma_unchanged_without_white_space(l);
    let m = lemma_trim_dots(l);
    let n = managed_gateway::normalized_host(host);
    assert forall|i: int| 0 <= i < n.len() implies !text::white_space(#[trigger] n[i]) by {
        assert(n[i] == l[i]);
    }
}

/// Trimming leaves a text without white space alone.
proof fn lemma_unchanged_without_white_space(s: Seq<char>)
    requires
        without_white_space(s),
    ensures
        text::trimmed(s) == s,
{
    if s.len() > 0 {
        assert(!text::white_space(s[0]) && !text::white_space(s[s.len() - 1]));
        text::lemma_trimmed_unchanged(s);
    }
}

/// The proxy routes every ASCII host without white space as the PAC rules say.
pub proof fn law_route_follows_pac_for_plain_names(host: Seq<char>)
    requires
        is_ascii_chars(host),
        without_white_space(host),
    ensures
        managed_proxy::route_of(host) == managed_proxy::RouteDecision::Socks5
            <==> managed_gateway::pac_result(managed_gateway::normalized_host(host))
            == managed_gateway::MANAGED_GATEWAY_SOCKS5_RESULT@,
{
    lemma_normalized_without_white_space(host);
    lemma_unchanged_without_white_space(managed_gateway::normalized_host(host));
    law_normalising_twice_is_once(host);
    law_route_follows_pac(host);
}

/// Whether a host is one of the two exact domains that no other rule covers.
pub open spec fn exact_only(host: Seq<char>) -> bool {
    host == "browser-intake-datadoghq.com"@ || host == "static.cloudflareinsights.com"@
}

/// The other exact domains mention the keyword.
proof fn lemma_exact_domains_mention_keyword(i: int)
    requires
        0 <= i < managed_gateway::EXACT_DOMAINS@.len(),
        !exact_only(managed_gateway::EXACT_DOMAINS@[i]@),
    ensures
        text::occurs("openai"@, managed_gateway::EXACT_DOMAINS@[i]@),
{
    reveal_strlit("openai");
    let word = "openai"@;
    reveal_strlit("chat.openai.com.cdn.cloudflare.net");
    assert("chat.openai.com.cdn.cloudflare.net"@.subrange(5int, 5int + word.len()) =~= word);
    reveal_strlit("openai-api.arkoselabs.com");
    assert("openai-api.arkoselabs.com"@.subrange(0int, 0int + word.len()) =~= word);
    reveal_strlit("openaicom-api-bdcpf8c6d2e9atf6.z01.azurefd.net");
    assert("openaicom-api-bdcpf8c6d2e9atf6.z01.azurefd.net"@.subrange(0int, 0int + word.len()) =~= word);
    reveal_strlit("openaicomproductionae4b.blob.core.windows.net");
    assert("openaicomproductionae4b.blob.core.windows.net"@.subrange(0int, 0int + word.len()) =~= word);
    reveal_strlit("production-openaicom-storage.azureedge.net");
    assert("production-openaicom-storage.azureedge.net"@.subrange(11int, 11int + word.len()) =~= word);
}

/// The normal form of a subdomain ends in that of the domain.
proof fn lemma_normalized_subdomain(sub: Seq<char>, host: Seq<char>) -> (front: Seq<char>)
    requires
        is_ascii_chars(sub),
        is_ascii_chars(host),
        without_white_space(host),
        managed_gateway::normalized_host(host).len() > 0,
    ensures
        is_ascii_chars(sub + seq!['.'] + host),
        managed_gateway::normalized_host(sub + seq!['.'] + host) == front + seq!['.']
            + managed_gateway::normalized_host(host),
        front.len() > 0 ==> !text::white_space(front[0]),
{
    let n = managed_gateway::normalized_host(host);
    let dot = seq!['.'];
    let longer = sub + dot + host;
    assert forall|i: int| 0 <= i < longer.len() implies '\0' <= #[trigger] longer[i]
        <= '\u{7f}' by {
        if i < sub.len() {
            assert(longer[i] == sub[i]);
        } else if i > sub.len() {
            assert(longer[i] == host[i - sub.len() - 1]);
        }
    }
    lemma_normalized_without_white_space(host);
    lemma_normalized_ascii(longer);
    let l = text::ascii_lowercase_of(sub);
    let h = text::ascii_lowercase_of(host);
    assert(text::ascii_lowercase_of(longer) =~= l + (dot + h));
    lemma_trim_start_concat(l, dot + h);
    let front = text::trim_start_of(l);
    let a = text::lemma_trim_start(l);
    let t = front + (dot + h);
    let m = lemma_trim_dots(h);
    assert(h.len() > 0);
    assert(t.last() == h[h.len() - 1]);
    assert(text::trim_end_of(t) == t);
    let k = lemma_trim_dots(t);
    let end = front.len() + 1 + m;
    assert(t[end - 1] == h[m - 1]);
    if k < end {
        assert(t[end - 1] == '.');
    }
    if k > end {
        assert(t[k - 1] == h[k - 1 - front.len() - 1]);
    }
    assert(t.take(end) =~= front + dot + n);
    front
}

/// Every subdomain of a host that goes through the upstream goes through it too, by the
/// PAC rules and by the route that the proxy takes, unless the host is one of the two
/// exact domains that no other rule covers.
pub proof fn law_subdomain_stays_proxied(sub: Seq<char>, host: Seq<char>)
    requires
        is_ascii_chars(sub),
        is_ascii_chars(host),
        without_white_space(host),
        managed_gateway::pac_result(managed_gateway::normalized_host(host))
            == managed_gateway::MANAGED_GATEWAY_SOCKS5_RESULT@,
        !exact_only(managed_gateway::normalized_host(host)),
    ensures
        managed_gateway::pac_result(managed_gateway::normalized_host(sub + seq!['.'] + host))
            == managed_gateway::MANAGED_GATEWAY_SOCKS5_RESULT@,
        managed_proxy::route_of(sub + seq!['.'] + host) == managed_proxy::RouteDecision::Socks5,
{
    let n = managed_gateway::normalized_host(host);
    let longer = sub + seq!['.'] + host;
    managed_gateway::lemma_results_differ();
    lemma_proxied_is_not_empty(n);
    let front = lemma_normalized_subdomain(sub, host);
    lemma_normalized_without_white_space(host);
    let t = managed_gateway::normalized_host(longer);
    let before = front + seq!['.'];
    let nothing = Seq::<char>::empty();
    assert(t =~= before + n + nothing);
    if managed_gateway::within_listed(n, managed_gateway::DOMAIN_SUFFIXES@) {
        let i = choose|i: int|
            0 <= i < managed_gateway::DOMAIN_SUFFIXES@.len() && managed_gateway::within_domain(
                n,
                (#[trigger] managed_gateway::DOMAIN_SUFFIXES@[i])@,
            );
        let domain = managed_gateway::DOMAIN_SUFFIXES@[i]@;
        let dotted = seq!['.'] + domain;
        lemma_suffixes_are_proper(i);
        if n == domain {
            assert(t.skip(t.len() - dotted.len()) =~= dotted);
        } else {
            assert(t.skip(t.len() - dotted.len()) =~= n.skip(n.len() - dotted.len()));
        }
        assert(t.skip(t.len() - domain.len()) =~= dotted.skip(1));
        assert(dotted.skip(1) =~= domain);
        lemma_proper_is_not_direct(t, domain);
        assert(managed_gateway::within_domain(t, managed_gateway::DOMAIN_SUFFIXES@[i]@));
    } else {
        if !managed_gateway::mentions(n, managed_gateway::KEYWORDS@) {
            let i = choose|i: int|
                0 <= i < managed_gateway::EXACT_DOMAINS@.len() && n == (
                #[trigger] managed_gateway::EXACT_DOMAINS@[i])@;
            lemma_exact_domains_mention_keyword(i);
        }
        assert(managed_gateway::KEYWORDS@[0]@ == "openai"@);
        assert(text::occurs("openai"@, n));
        lemma_occurs_within("openai"@, before, n, nothing);
        lemma_keyword_is_not_direct(t);
        assert(managed_gateway::mentions(t, managed_gateway::KEYWORDS@));
    }
    assert(t[0] == before[0]);
    assert(t.last() == n[n.len() - 1]);
    text::lemma_trimmed_unchanged(t);
    law_normalising_twice_is_once(longer);
    law_route_follows_pac(longer);
}

/// The empty name goes through the upstream by no rule.
proof fn lemma_proxied_is_not_empty(host: Seq<char>)
    requires
        managed_gateway::proxied(host),
    ensures
        host.len() > 0,
{
    if managed_gateway::within_listed(host, managed_gateway::DOMAIN_SUFFIXES@) {
        let i = choose|i: int|
            0 <= i < managed_gateway::DOMAIN_SUFFIXES@.len() && managed_gateway::within_domain(
                host,
                (#[trigger] managed_gateway::DOMAIN_SUFFIXES@[i])@,
            );
        lemma_suffixes_are_proper(i);
    } else if managed_gateway::listed(host, managed_gateway::EXACT_DOMAINS@) {
        let i = choose|i: int|
            0 <= i < managed_gateway::EXACT_DOMAINS@.len() && host == (
            #[trigger] managed_gateway::EXACT_DOMAINS@[i])@;
        lemma_exact_domains_end_differently(i, i);
    } else {
        reveal_strlit("openai");
        assert(text::occurs("openai"@, host));
    }
}

/// Each part occurs in the joined text.
proof fn lemma_occurs_in_joined(parts: Seq<Seq<char>>, sep: Seq<char>, i: int)
    requires
        0 <= i < parts.len(),
    ensures
        text::occurs(parts[i], text::joined(parts, sep)),
    decreases parts.len(),
{
    let part = parts[i];
    let nothing = Seq::<char>::empty();
    let start: int = 0;
    assert(part.subrange(start, start + part.len()) =~= part);
    assert(text::occurs(part, part));
    if parts.len() > 1 {
        let front = text::joined(parts.drop_last(), sep);
        if i == parts.len() - 1 {
            lemma_occurs_within(part, front + sep, part, nothing);
            assert(front + sep + part + nothing =~= text::joined(parts, sep));
        } else {
            assert(parts.drop_last()[i] == part);
            lemma_occurs_in_joined(parts.drop_last(), sep, i);
            lemma_occurs_within(part, nothing, front, sep + parts.last());
            assert(nothing + front + (sep + parts.last()) =~= text::joined(parts, sep));
        }
    }
}

/// Each element of an array literal occurs in it, in quotes.
proof fn lemma_occurs_in_js_array(values: Seq<&str>, i: int)
    requires
        0 <= i < values.len(),
    ensures
        text::occurs(managed_gateway::quoted(values[i]@), managed_gateway::js_array(values)),
{
    let parts = Seq::new(values.len(), |k: int| managed_gateway::quoted(values[k]@));
    lemma_occurs_in_joined(parts, ", "@, i);
    lemma_occurs_within(parts[i], "["@, text::joined(parts, ", "@), "]"@);
}

/// The PAC script holds every rule that the proxy goes by.
pub proof fn law_script_embeds_the_rules(i: int)
    ensures
        0 <= i < managed_gateway::EXACT_DOMAINS@.len() ==> text::occurs(
            managed_gateway::quoted(managed_gateway::EXACT_DOMAINS@[i]@),
            managed_gateway::pac_script(),
        ),
        0 <= i < managed_gateway::DOMAIN_SUFFIXES@.len() ==> text::occurs(
            managed_gateway::quoted(managed_gateway::DOMAIN_SUFFIXES@[i]@),
            managed_gateway::pac_script(),
        ),
        0 <= i < managed_gateway::KEYWORDS@.len() ==> text::occurs(
            managed_gateway::quoted(managed_gateway::KEYWORDS@[i]@),
            managed_gateway::pac_script(),
        ),
{
    let script = managed_gateway::pac_script();
    let exact = managed_gateway::js_array(managed_gateway::EXACT_DOMAINS@);
    let suffixes = managed_gateway::js_array(managed_gateway::DOMAIN_SUFFIXES@);
    let keywords = managed_gateway::js_array(managed_gateway::KEYWORDS@);
    let head = managed_gateway::PAC_HEAD@;
    let second = managed_gateway::PAC_SUFFIXES@;
    let third = managed_gateway::PAC_KEYWORDS@;
    let functions = managed_gateway::PAC_FUNCTIONS@;
    if 0 <= i < managed_gateway::EXACT_DOMAINS@.len() {
        lemma_occurs_in_js_array(managed_gateway::EXACT_DOMAINS@, i);
        let after = second + suffixes + third + keywords + functions;
        let rule = managed_gateway::quoted(managed_gateway::EXACT_DOMAINS@[i]@);
        lemma_occurs_within(rule, head, exact, after);
        assert(head + exact + after =~= script);
    }
    if 0 <= i < managed_gateway::DOMAIN_SUFFIXES@.len() {
        lemma_occurs_in_js_array(managed_gateway::DOMAIN_SUFFIXES@, i);
        let before = head + exact + second;
        let after = third + keywords + functions;
        let rule = managed_gateway::quoted(managed_gateway::DOMAIN_SUFFIXES@[i]@);
        lemma_occurs_within(rule, before, suffixes, after);
        assert(before + suffixes + after =~= script);
    }
    if 0 <= i < managed_gateway::KEYWORDS@.len() {
        lemma_occurs_in_js_array(managed_gateway::KEYWORDS@, i);
        let before = head + exact + second + suffixes + third;
        let rule = managed_gateway::quoted(managed_gateway::KEYWORDS@[i]@);
        lemma_occurs_within(rule, before, keywords, functions);
        assert(before + keywords + functions =~= script);
    }
}

/// Whether a host is the gateway itself or the local machine.
pub open spec fn gateway_or_loopback(host: Seq<char>) -> bool {
    ||| host == "10.20.30.61"@
    ||| host == "localhost"@
    ||| host == "127.0.0.1"@
    ||| host == "::1"@
}

/// Whether a host is one of the names that are matched as a whole.
pub open spec fn matched_as_a_whole(host: Seq<char>) -> bool {
    ||| host == "browser-intake-datadoghq.com"@
    ||| host == "chat.openai.com.cdn.cloudflare.net"@
    ||| host == "openai-api.arkoselabs.com"@
    ||| host == "openaicom-api-bdcpf8c6d2e9atf6.z01.azurefd.net"@
    ||| host == "openaicomproductionae4b.blob.core.windows.net"@
    ||| host == "production-openaicom-storage.azureedge.net"@
    ||| host == "static.cloudflareinsights.com"@
}

/// Whether a host is `domain`, or ends in it behind a dot.
pub open spec fn is_or_is_below(host: Seq<char>, domain: Seq<char>) -> bool {
    ||| host == domain
    ||| {
        &&& host.len() > domain.len()
        &&& host[host.len() - domain.len() - 1] == '.'
        &&& forall|k: int|
            0 <= k < domain.len() ==> host[host.len() - domain.len() + k] == #[trigger] domain[k]
    }
}

/// Whether a host is one of the domains that are matched with all that is below them.
pub open spec fn matched_by_domain(host: Seq<char>) -> bool {
    ||| is_or_is_below(host, "ai.com"@)
    ||| is_or_is_below(host, "algolia.net"@)
    ||| is_or_is_below(host, "api.statsig.com"@)
    ||| is_or_is_below(host, "auth0.com"@)
    ||| is_or_is_below(host, "chatgpt.com"@)
    ||| is_or_is_below(host, "chatgpt.livekit.cloud"@)
    ||| is_or_is_below(host, "client-api.arkoselabs.com"@)
    ||| is_or_is_below(host, "events.statsigapi.net"@)
    ||| is_or_is_below(host, "featuregates.org"@)
    ||| is_or_is_below(host, "host.livekit.cloud"@)
    ||| is_or_is_below(host, "identrust.com"@)
    ||| is_or_is_below(host, "intercom.io"@)
    ||| is_or_is_below(host, "intercomcdn.com"@)
    ||| is_or_is_below(host, "launchdarkly.com"@)
    ||| is_or_is_below(host, "oaistatic.com"@)
    ||| is_or_is_below(host, "oaiusercontent.com"@)
    ||| is_or_is_below(host, "observeit.net"@)
    ||| is_or_is_below(host, "openai.com"@)
    ||| is_or_is_below(host, "openaiapi-site.azureedge.net"@)
    ||| is_or_is_below(host, "openaicom.imgix.net"@)
    ||| is_or_is_below(host, "segment.io"@)
    ||| is_or_is_below(host, "sentry.io"@)
    ||| is_or_is_below(host, "stripe.com"@)
    ||| is_or_is_below(host, "turn.livekit.cloud"@)
}

/// Whether the letters of the keyword stand anywhere in a host.
pub open spec fn matched_by_keyword(host: Seq<char>) -> bool {
    exists|k: int|
        0 <= k && k + 6 <= host.len() && #[trigger] host[k] == 'o' && host[k + 1] == 'p' && host[k
            + 2] == 'e' && host[k + 3] == 'n' && host[k + 4] == 'a' && host[k + 5] == 'i'
}

/// Ending in a domain behind a dot is a matter of the characters at the end.
proof fn lemma_within_domain(host: Seq<char>, domain: Seq<char>)
    ensures
        managed_gateway::within_domain(host, domain) == is_or_is_below(host, domain),
{
    let dotted = seq!['.'] + domain;
    if dotted.is_suffix_of(host) {
        let tail = host.skip(host.len() - dotted.len());
        assert(tail[0] == '.');
        assert forall|k: int| 0 <= k < domain.len() implies host[host.len() - domain.len() + k]
            == #[trigger] domain[k] by {
            assert(tail[k + 1] == dotted[k + 1]);
        }
    } else if host != domain && is_or_is_below(host, domain) {
        let tail = host.skip(host.len() - dotted.len());
        assert forall|k: int| 0 <= k < dotted.len() implies tail[k] == dotted[k] by {
            if k > 0 {
                assert(dotted[k] == domain[k - 1]);
            }
        }
        assert(tail =~= dotted);
    }
}

/// Mentioning the keyword is a matter of six characters in a row.
proof fn lemma_keyword(host: Seq<char>)
    ensures
        text::occurs("openai"@, host) == matched_by_keyword(host),
{
    reveal_strlit("openai");
    let word = "openai"@;
    if text::occurs(word, host) {
        let k = choose|k: int|
            0 <= k && k + word.len() <= host.len() && #[trigger] host.subrange(
                k,
                k + word.len(),
            ) == word;
        let s = host.subrange(k, k + word.len());
        assert(s[0] == host[k] && s[1] == host[k + 1] && s[2] == host[k + 2] && s[3] == host[k + 3]
            && s[4] == host[k + 4] && s[5] == host[k + 5]);
    }
    if matched_by_keyword(host) {
        let k = choose|k: int|
            0 <= k && k + 6 <= host.len() && #[trigger] host[k] == 'o' && host[k + 1] == 'p'
                && host[k + 2] == 'e' && host[k + 3] == 'n' && host[k + 4] == 'a' && host[k + 5]
                == 'i';
        assert(host.subrange(k, k + word.len()) =~= word);
    }
}

/// The rules are these and no others: a normalised host goes through the upstream exactly
/// if it is neither the gateway nor the local machine, and is one of the names that are
/// matched as a whole, is or is below one of the domains, or holds the keyword. Every other
/// host goes direct.
pub proof fn law_rules_are_these_and_no_others(host: Seq<char>)
    ensures
        !gateway_or_loopback(host) && (matched_as_a_whole(host) || matched_by_domain(host)
            || matched_by_keyword(host)) ==> managed_gateway::pac_result(host)
            == "SOCKS5 10.20.30.61:7891"@,
        !(!gateway_or_loopback(host) && (matched_as_a_whole(host) || matched_by_domain(host)
            || matched_by_keyword(host))) ==> managed_gateway::pac_result(host) == "DIRECT"@,
{
    let exact = managed_gateway::EXACT_DOMAINS@;
    let domains = managed_gateway::DOMAIN_SUFFIXES@;
    let words = managed_gateway::KEYWORDS@;
    lemma_exact_list(host);
    lemma_domain_list(host);
    lemma_keyword(host);
    assert(words[0]@ == "openai"@);
    if managed_gateway::mentions(host, words) {
        let i = choose|i: int| 0 <= i < words.len() && text::occurs((#[trigger] words[i])@, host);
        assert(i == 0);
    }
}

/// The names that are matched as a whole are those of the list.
proof fn lemma_exact_list(host: Seq<char>)
    ensures
        managed_gateway::listed(host, managed_gateway::EXACT_DOMAINS@) == matched_as_a_whole(host),
{
    let exact = managed_gateway::EXACT_DOMAINS@;
    assert(exact[0]@ == "browser-intake-datadoghq.com"@);
    assert(exact[1]@ == "chat.openai.com.cdn.cloudflare.net"@);
    assert(exact[2]@ == "openai-api.arkoselabs.com"@);
    assert(exact[3]@ == "openaicom-api-bdcpf8c6d2e9atf6.z01.azurefd.net"@);
    assert(exact[4]@ == "openaicomproductionae4b.blob.core.windows.net"@);
    assert(exact[5]@ == "production-openaicom-storage.azureedge.net"@);
    assert(exact[6]@ == "static.cloudflareinsights.com"@);
    if managed_gateway::listed(host, exact) {
        let i = choose|i: int| 0 <= i < exact.len() && host == (#[trigger] exact[i])@;
        assert(i == 0 || i == 1 || i == 2 || i == 3 || i == 4 || i == 5 || i == 6);
    }
}

/// The domains that are matched with all that is below them are those of the list.
proof fn lemma_domain_list(host: Seq<char>)
    ensures
        managed_gateway::within_listed(host, managed_gateway::DOMAIN_SUFFIXES@)
            == matched_by_domain(host),
{
    let domains = managed_gateway::DOMAIN_SUFFIXES@;
    assert(domains[0]@ == "ai.com"@);
    lemma_within_domain(host, "ai.com"@);
    assert(domains[1]@ == "algolia.net"@);
    lemma_within_domain(host, "algolia.net"@);
    assert(domains[2]@ == "api.statsig.com"@);
    lemma_within_domain(host, "api.statsig.com"@);
    assert(domains[3]@ == "auth0.com"@);
    lemma_within_domain(host, "auth0.com"@);
    assert(domains[4]@ == "chatgpt.com"@);
    lemma_within_domain(host, "chatgpt.com"@);
    assert(domains[5]@ == "chatgpt.livekit.cloud"@);
    lemma_within_domain(host, "chatgpt.livekit.cloud"@);
    assert(domains[6]@ == "client-api.arkoselabs.com"@);
    lemma_within_domain(host, "client-api.arkoselabs.com"@);
    assert(domains[7]@ == "events.statsigapi.net"@);
    lemma_within_domain(host, "events.statsigapi.net"@);
    assert(domains[8]@ == "featuregates.org"@);
    lemma_within_domain(host, "featuregates.org"@);
    assert(domains[9]@ == "host.livekit.cloud"@);
    lemma_within_domain(host, "host.livekit.cloud"@);
    assert(domains[10]@ == "identrust.com"@);
    lemma_within_domain(host, "identrust.com"@);
    assert(domains[11]@ == "intercom.io"@);
    lemma_within_domain(host, "intercom.io"@);
    assert(domains[12]@ == "intercomcdn.com"@);
    lemma_within_domain(host, "intercomcdn.com"@);
    assert(domains[13]@ == "launchdarkly.com"@);
    lemma_within_domain(host, "launchdarkly.com"@);
    assert(domains[14]@ == "oaistatic.com"@);
    lemma_within_domain(host, "oaistatic.com"@);
    assert(domains[15]@ == "oaiusercontent.com"@);
    lemma_within_domain(host, "oaiusercontent.com"@);
    assert(domains[16]@ == "observeit.net"@);
    lemma_within_domain(host, "observeit.net"@);
    assert(domains[17]@ == "openai.com"@);
    lemma_within_domain(host, "openai.com"@);
    assert(domains[18]@ == "openaiapi-site.azureedge.net"@);
    lemma_within_domain(host, "openaiapi-site.azureedge.net"@);
    assert(domains[19]@ == "openaicom.imgix.net"@);
    lemma_within_domain(host, "openaicom.imgix.net"@);
    assert(domains[20]@ == "segment.io"@);
    lemma_within_domain(host, "segment.io"@);
    assert(domains[21]@ == "sentry.io"@);
    lemma_within_domain(host, "sentry.io"@);
    assert(domains[22]@ == "stripe.com"@);
    lemma_within_domain(host, "stripe.com"@);
    assert(domains[23]@ == "turn.livekit.cloud"@);
    lemma_within_domain(host, "turn.livekit.cloud"@);
    if managed_gateway::within_listed(host, domains) {
        let i = choose|i: int|
            0 <= i < domains.len() && managed_gateway::within_domain(
                host,
                (#[trigger] domains[i])@,
            );
        lemma_within_domain(host, domains[i]@);
        assert(i == 0 || i == 1 || i == 2 || i == 3 || i == 4 || i == 5 || i == 6 || i == 7
            || i == 8 || i == 9 || i == 10 || i == 11 || i == 12 || i == 13 || i == 14 || i == 15
            || i == 16 || i == 17 || i == 18 || i == 19 || i == 20 || i == 21 || i == 22
            || i == 23);
    }
}

/// The proxy takes the upstream for a host exactly if the name, normalised, is neither the
/// gateway nor the local machine, and, normalised once more, is matched by the rules.
/// Every other host is reached directly.
pub proof fn law_routes_are_these_and_no_others(host: Seq<char>)
    ensures
        ({
            let once = managed_gateway::normalized_host(host);
            let twice = managed_gateway::normalized_host(once);
            let upstream = !gateway_or_loopback(once) && !gateway_or_loopback(twice) && (
            matched_as_a_whole(twice) || matched_by_domain(twice) || matched_by_keyword(twice));
            &&& upstream ==> managed_proxy::route_of(host) == managed_proxy::RouteDecision::Socks5
            &&& !upstream ==> managed_proxy::route_of(host) == managed_proxy::RouteDecision::Direct
        }),
{
    let twice = managed_gateway::normalized_host(managed_gateway::normalized_host(host));
    law_rules_are_these_and_no_others(twice);
    managed_gateway::lemma_results_differ();
}

/// Normalising an ASCII name puts it in lower case, takes off the white space round it and
/// then the dots at its end, and takes off nothing else: in lower case the name is `r.0`, the
/// normal form, the dots `r.1` and `r.2`, one after the other.
pub proof fn law_normalising_takes_off_the_margin_alone(host: Seq<char>) -> (r: (
    Seq<char>,
    Seq<char>,
    Seq<char>,
))
    requires
        is_ascii_chars(host),
    ensures
        r.0 + managed_gateway::normalized_host(host) + r.1 + r.2 == Seq::new(
            host.len(),
            |i: int|
                if 'A' <= host[i] && host[i] <= 'Z' {
                    ((host[i] as u32 + 32) as u32) as char
                } else {
                    host[i]
                },
        ),
        text::blank(r.0),
        text::blank(r.2),
        forall|i: int| 0 <= i < r.1.len() ==> #[trigger] r.1[i] == '.',
        ({
            let core = managed_gateway::normalized_host(host) + r.1;
            core.len() > 0 ==> !text::white_space(core[0]) && !text::white_space(core.last())
        }),
        managed_gateway::normalized_host(host).len() > 0 ==> managed_gateway::normalized_host(
            host,
        ).last() != '.',
{
    lemma_normalized_ascii(host);
    let l = text::ascii_lowercase_of(host);
    let r = text::lemma_trimmed(l);
    let t = text::trimmed(l);
    let m = lemma_trim_dots(t);
    let name = managed_gateway::normalized_host(host);
    let front = l.take(r.0);
    let dots = t.skip(m);
    let back = l.skip(r.1);
    let core = name + dots;
    assert(core =~= t);
    assert(front + name + dots + back =~= l);
    assert(l =~= Seq::new(
        host.len(),
        |i: int|
            if 'A' <= host[i] && host[i] <= 'Z' {
                ((host[i] as u32 + 32) as u32) as char
            } else {
                host[i]
            },
    ));
    assert forall|i: int| 0 <= i < back.len() implies text::white_space(#[trigger] back[i]) by {
        assert(back[i] == l[r.1 + i]);
    }
    assert forall|i: int| 0 <= i < dots.len() implies #[trigger] dots[i] == '.' by {
        assert(dots[i] == t[m + i]);
    }
    (front, dots, back)
}

/// Normalising a name that is not ASCII takes the white space off round it, puts what is
/// left in lower case and takes off the dots at the end, and takes off nothing else: the name
/// is `r.0`, a core and `r.2`, and the core in lower case is the normal form and the dots
/// `r.3`.
pub proof fn law_normalising_other_names(host: Seq<char>) -> (r: (
    Seq<char>,
    Seq<char>,
    Seq<char>,
    Seq<char>,
))
    requires
        !is_ascii_chars(host),
    ensures
        host == r.0 + r.1 + r.2,
        text::blank(r.0),
        text::blank(r.2),
        r.1.len() > 0 ==> !text::white_space(r.1[0]) && !text::white_space(r.1.last()),
        managed_gateway::normalized_host(host) + r.3 == (if is_ascii_chars(r.1) {
            text::ascii_lowercase_of(r.1)
        } else {
            managed_gateway::unicode_lowercase(r.1)
        }),
        forall|i: int| 0 <= i < r.3.len() ==> #[trigger] r.3[i] == '.',
        managed_gateway::normalized_host(host).len() > 0 ==> managed_gateway::normalized_host(
            host,
        ).last() != '.',
{
    let b = text::lemma_trimmed(host);
    let core = text::trimmed(host);
    let front = host.take(b.0);
    let back = host.skip(b.1);
    assert(front + core + back =~= host);
    assert forall|i: int| 0 <= i < back.len() implies text::white_space(#[trigger] back[i]) by {
        assert(back[i] == host[b.1 + i]);
    }
    let l = managed_gateway::lowercase_of(core);
    let m = lemma_trim_dots(l);
    let dots = l.skip(m);
    assert(l.take(m) + dots =~= l);
    assert forall|i: int| 0 <= i < dots.len() implies #[trigger] dots[i] == '.' by {
        assert(dots[i] == l[m + i]);
    }
    (front, core, back, dots)
}

/// An array literal holds its strings in double quotes, in order, with commas between them,
/// in brackets: one more string is added in front of the closing bracket.
pub proof fn law_array_literal_grows_at_its_end(values: Seq<&str>, value: &str)
    ensures
        managed_gateway::js_array(Seq::<&str>::empty()) == "[]"@,
        values.len() == 0 ==> managed_gateway::js_array(values.push(value)) == "[\""@ + value@
            + "\"]"@,
        values.len() > 0 ==> managed_gateway::js_array(values.push(value))
            == managed_gateway::js_array(values).drop_last() + ", \""@ + value@ + "\"]"@,
{
    reveal_strlit("[]");
    reveal_strlit("[");
    reveal_strlit("]");
    reveal_strlit("\"");
    reveal_strlit("[\"");
    reveal_strlit("\"]");
    reveal_strlit(", ");
    reveal_strlit(", \"");
    let nothing = Seq::<&str>::empty();
    let no_parts = Seq::new(nothing.len(), |i: int| managed_gateway::quoted(nothing[i]@));
    assert(no_parts =~= Seq::<Seq<char>>::empty());
    assert(managed_gateway::js_array(nothing) =~= "[]"@);
    let longer = values.push(value);
    let parts = Seq::new(values.len(), |i: int| managed_gateway::quoted(values[i]@));
    let all = Seq::new(longer.len(), |i: int| managed_gateway::quoted(longer[i]@));
    assert(all.drop_last() =~= parts);
    assert(all.last() == managed_gateway::quoted(value@));
    if values.len() == 0 {
        assert(managed_gateway::js_array(longer) =~= "[\""@ + value@ + "\"]"@);
    } else {
        let inner = text::joined(parts, ", "@);
        assert(managed_gateway::js_array(values).drop_last() =~= "["@ + inner);
        assert(managed_gateway::js_array(longer) =~= managed_gateway::js_array(values).drop_last()
            + ", \""@ + value@ + "\"]"@);
    }
}

/// The PAC script declares the three lists as array literals, and applies them in order
/// after the hosts that always go direct.
pub proof fn law_script_reads_thus()
    ensures
        managed_gateway::pac_script()
            == "// Codex++ managed gateway PAC. Generated content; do not edit.\nvar EXACT_DOMAINS = "@
            + managed_gateway::js_array(managed_gateway::EXACT_DOMAINS@)
            + ";\nvar DOMAIN_SUFFIXES = "@ + managed_gateway::js_array(
            managed_gateway::DOMAIN_SUFFIXES@,
        ) + ";\nvar KEYWORDS = "@ + managed_gateway::js_array(managed_gateway::KEYWORDS@)
            + r#";
var SOCKS5_RESULT = "SOCKS5 10.20.30.61:7891";
var DIRECT_RESULT = "DIRECT";
var DIRECT_HOSTS = ["10.20.30.61", "localhost", "127.0.0.1", "::1"];
function normalizeHost(host) {
  var h = String(host).toLowerCase();
  while (h.length > 0 && h.charAt(h.length - 1) === ".") h = h.substring(0, h.length - 1);
  return h;
}
function FindProxyForURL(url, host) {
  var h = normalizeHost(host);
  for (var i = 0; i < DIRECT_HOSTS.length; i++) {
    if (h === DIRECT_HOSTS[i]) return DIRECT_RESULT;
  }
  for (var i = 0; i < EXACT_DOMAINS.length; i++) {
    if (h === EXACT_DOMAINS[i]) return SOCKS5_RESULT;
  }
  for (var i = 0; i < DOMAIN_SUFFIXES.length; i++) {
    var s = DOMAIN_SUFFIXES[i];
    if (h === s) return SOCKS5_RESULT;
    if (h.length > s.length && h.charAt(h.length - s.length - 1) === "." && h.substring(h.length - s.length) === s) return SOCKS5_RESULT;
  }
  for (var i = 0; i < KEYWORDS.length; i++) {
    if (h.indexOf(KEYWORDS[i]) !== -1) return SOCKS5_RESULT;
  }
  return DIRECT_RESULT;
}
"#@,
{
}

/// A host whose name has been normalised takes the upstream exactly if it is neither the
/// gateway nor the local machine and, normalised again, is matched by the rules.
pub proof fn law_normalized_routes_are_these(host: Seq<char>)
    ensures
        ({
            let again = managed_gateway::normalized_host(host);
            let upstream = !gateway_or_loopback(host) && !gateway_or_loopback(again) && (
            matched_as_a_whole(again) || matched_by_domain(again) || matched_by_keyword(again));
            &&& upstream ==> managed_proxy::normalized_route_of(host)
                == managed_proxy::RouteDecision::Socks5
            &&& !upstream ==> managed_proxy::normalized_route_of(host)
                == managed_proxy::RouteDecision::Direct
        }),
{
    law_rules_are_these_and_no_others(managed_gateway::normalized_host(host));
    managed_gateway::lemma_results_differ();
}

} // verus!

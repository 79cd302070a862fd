//! What holds of proxy requests and of the connections that bring them.
use vstd::prelude::*;
use vstd::utf8::{decode_utf8, encode_utf8, valid_utf8};
use crate::connection;
use crate::connection::{ConnectionActionView, ConnectionErrorView, HeaderStepView};
use crate::managed_gateway;
use crate::managed_proxy;
use crate::managed_proxy::{ProxyRequestKind, RouteDecision};
use crate::number;
use crate::startup;
use crate::text;

verus! {

/// Whether `s` is a word: not empty and without white space.
pub open spec fn is_word(s: Seq<char>) -> bool {
    s.len() > 0 && forall|i: int| 0 <= i < s.len() ==> !text::white_space(#[trigger] s[i])
}

/// Whether a word that `s` follows ends in front of it.
pub open spec fn ends_word(s: Seq<char>) -> bool {
    s.len() > 0 ==> text::white_space(s[0])
}

/// The length of a word does not depend on what follows it.
proof fn lemma_word_len_concat(s: Seq<char>, rest: Seq<char>)
    requires
        ends_word(rest),
    ensures
        text::word_len(s + rest) == text::word_len(s),
        text::word_len(s) <= s.len(),
    decreases s.len(),
{
    if s.len() == 0 {
        assert(s + rest =~= rest);
    } else {
        assert((s + rest).drop_first() =~= s.drop_first() + rest);
        lemma_word_len_concat(s.drop_first(), rest);
    }
}

/// A word is as long as itself.
proof fn lemma_word_len(s: Seq<char>)
    requires
        forall|i: int| 0 <= i < s.len() ==> !text::white_space(#[trigger] s[i]),
    ensures
        text::word_len(s) == s.len(),
    decreases s.len(),
{
    if s.len() > 0 {
        assert(!text::white_space(s[0]));
        assert forall|i: int| 0 <= i < s.drop_first().len() implies !text::white_space(
            #[trigger] s.drop_first()[i],
        ) by {
            assert(s.drop_first()[i] == s[i + 1]);
        }
        lemma_word_len(s.drop_first());
    }
}

/// The first word of a text that begins with a word.
proof fn lemma_split_word(word: Seq<char>, rest: Seq<char>)
    requires
        is_word(word),
        ends_word(rest),
    ensures
        text::split_word_of(word + rest) == Some((word, rest)),
{
    let s = word + rest;
    assert(s[0] == word[0]);
    lemma_word_len(word);
    lemma_word_len_concat(word, rest);
    assert(s.take(word.len() as int) =~= word);
    assert(s.skip(word.len() as int) =~= rest);
}

/// A space in front of a text does not change its words.
proof fn lemma_split_word_after_space(s: Seq<char>)
    ensures
        text::split_word_of(" "@ + s) == text::split_word_of(s),
{
    reveal_strlit(" ");
    let t = " "@ + s;
    assert(t[0] == ' ');
    assert(t.drop_first() =~= s);
}

/// Trimming twice is trimming once.
proof fn lemma_trim_start_twice(s: Seq<char>)
    ensures
        text::trim_start_of(text::trim_start_of(s)) == text::trim_start_of(s),
    decreases s.len(),
{
    if s.len() > 0 && text::white_space(s[0]) {
        lemma_trim_start_twice(s.drop_first());
    }
}

/// White space behind a text does not change how its start is trimmed.
proof fn lemma_trim_start_before_blank(s: Seq<char>, space: Seq<char>)
    requires
        text::blank(space),
    ensures
        text::trim_start_of(s).len() == 0 ==> text::trim_start_of(s + space).len() == 0,
        text::trim_start_of(s).len() > 0 ==> text::trim_start_of(s + space)
            == text::trim_start_of(s) + space,
    decreases s.len() + space.len(),
{
    let t = s + space;
    if s.len() > 0 {
        if text::white_space(s[0]) {
            assert(t.drop_first() =~= s.drop_first() + space);
            lemma_trim_start_before_blank(s.drop_first(), space);
        }
    } else if space.len() > 0 {
        assert(text::white_space(space[0]));
        assert(t.drop_first() =~= s + space.drop_first());
        assert forall|i: int| 0 <= i < space.drop_first().len() implies text::white_space(
            #[trigger] space.drop_first()[i],
        ) by {
            assert(space.drop_first()[i] == space[i + 1]);
        }
        lemma_trim_start_before_blank(s, space.drop_first());
    }
}

/// White space behind a text does not change its words.
proof fn lemma_split_word_before_blank(s: Seq<char>, space: Seq<char>)
    requires
        text::blank(space),
    ensures
        text::split_word_of(s) is None ==> text::split_word_of(s + space) is None,
        text::split_word_of(s) matches Some((word, rest)) ==> text::split_word_of(s + space)
            == Some((word, rest + space)),
{
    lemma_trim_start_before_blank(s, space);
    let t = text::trim_start_of(s);
    if t.len() > 0 {
        if space.len() > 0 {
            assert(text::white_space(space[0]));
        }
        lemma_word_len_concat(t, space);
        let n = text::word_len(t) as int;
        assert((t + space).take(n) =~= t.take(n));
        assert((t + space).skip(n) =~= t.skip(n) + space);
    }
}

/// Trimming a line does not change its words: a word that the trimmed line has, the line
/// has too.
proof fn lemma_split_word_of_trimmed(line: Seq<char>) -> (space: Seq<char>)
    ensures
        text::blank(space),
        text::split_word_of(text::trimmed(line)) is None ==> text::split_word_of(line) is None,
        text::split_word_of(text::trimmed(line)) matches Some((word, rest)) ==> text::split_word_of(
            line,
        ) == Some((word, rest + space)),
{
    let t = text::trim_start_of(line);
    let b = text::lemma_trim_end(t);
    let space = t.skip(b);
    assert forall|i: int| 0 <= i < space.len() implies text::white_space(#[trigger] space[i]) by {
        assert(space[i] == t[b + i]);
    }
    assert(text::trimmed(line) + space =~= t);
    lemma_trim_start_twice(line);
    lemma_split_word_before_blank(text::trimmed(line), space);
    space
}

/// A text with the letters of `CONNECT` is a word.
proof fn lemma_connect_is_word(method: Seq<char>)
    requires
        text::ascii_lowercase_of(method) == text::ascii_lowercase_of("CONNECT"@),
    ensures
        is_word(method),
{
    reveal_strlit("CONNECT");
    let upper = "CONNECT"@;
    assert(upper.len() == 7);
    assert(method.len() == text::ascii_lowercase_of(method).len());
    assert(upper.len() == text::ascii_lowercase_of(upper).len());
    assert forall|i: int| 0 <= i < method.len() implies !text::white_space(#[trigger] method[i]) by {
        assert(text::ascii_lowercase_of(method)[i] == text::ascii_lower(method[i]));
        assert(text::ascii_lowercase_of(upper)[i] == text::ascii_lower(upper[i]));
        text::lemma_ascii_lower(method[i]);
        text::lemma_ascii_lower(upper[i]);
        assert(i == 0 || i == 1 || i == 2 || i == 3 || i == 4 || i == 5 || i == 6);
    }
}

/// The two words of a request line are its method and its target; what follows them does
/// not count.
proof fn lemma_request_line(method: Seq<char>, target: Seq<char>, rest: Seq<char>)
    requires
        is_word(method),
        is_word(target),
        ends_word(rest),
    ensures
        managed_proxy::request_target_of(method + " "@ + target + rest) == managed_proxy::target_of(
            method,
            target,
        ),
{
    reveal_strlit(" ");
    let tail = " "@ + (target + rest);
    assert(method + " "@ + target + rest =~= method + tail);
    assert(tail[0] == ' ');
    lemma_split_word(method, tail);
    lemma_split_word_after_space(target + rest);
    lemma_split_word(target, rest);
}

/// A host and port are read back from the form in which they are written.
proof fn lemma_host_port(host: Seq<char>, port: u16, default_port: u16)
    requires
        is_word(host),
        host[0] != '[',
        !host.contains(':'),
    ensures
        managed_proxy::host_port_of(host + ":"@ + number::decimal(port as nat), default_port)
            == Some((text::ascii_lowercase_of(host), port)),
        managed_proxy::host_port_of(host, default_port) == Some(
            (text::ascii_lowercase_of(host), default_port),
        ),
        is_word(host + ":"@ + number::decimal(port as nat)),
{
    reveal_strlit(":");
    let digits = number::decimal(port as nat);
    number::lemma_decimal(port as nat);
    number::lemma_port_round_trip(port);
    let s = host + ":"@ + digits;
    let n = host.len() as int;
    assert forall|i: int| 0 <= i < s.len() implies !text::white_space(#[trigger] s[i]) by {
        if i < n {
            assert(s[i] == host[i]);
        } else if i == n {
            assert(s[i] == ':');
        } else {
            assert(s[i] == digits[i - n - 1]);
            assert(number::is_digit(digits[i - n - 1]));
        }
    }
    text::lemma_trimmed_unchanged(s);
    text::lemma_trimmed_unchanged(host);
    assert forall|i: int| 0 <= i < n implies #[trigger] s[i] != ':' by {
        assert(host.contains(host[i]));
    }
    assert(s[n] == ':');
    text::lemma_before_is(s, ':', n);
    assert(s.take(n) =~= host);
    assert(s.skip(n + 1) =~= digits);
    assert forall|i: int| 0 <= i < n implies #[trigger] host[i] != ':' by {
        assert(host.contains(host[i]));
    }
    text::lemma_before_is(host, ':', n);
    assert(s[0] == host[0]);
}

/// A `CONNECT` request for a host and port is read as one for that host, in lower case, and
/// that port, whatever the case of its method and whatever follows. Without a port it is
/// for port 443.
pub proof fn law_connect_names_its_target(
    method: Seq<char>,
    host: Seq<char>,
    port: u16,
    rest: Seq<char>,
)
    requires
        text::ascii_lowercase_of(method) == text::ascii_lowercase_of("CONNECT"@),
        is_word(host),
        host[0] != '[',
        !host.contains(':'),
        ends_word(rest),
    ensures
        managed_proxy::request_target_of(
            method + " "@ + (host + ":"@ + number::decimal(port as nat)) + rest,
        ) == Some((text::ascii_lowercase_of(host), port, ProxyRequestKind::Connect)),
        managed_proxy::request_target_of(method + " "@ + host + rest) == Some(
            (text::ascii_lowercase_of(host), 443u16, ProxyRequestKind::Connect),
        ),
{
    lemma_connect_is_word(method);
    lemma_host_port(host, port, 443);
    lemma_request_line(method, host + ":"@ + number::decimal(port as nat), rest);
    lemma_request_line(method, host, rest);
}

/// An IPv6 address in brackets is read like any host.
pub proof fn law_brackets_hold_a_host(host: Seq<char>, port: u16, default_port: u16)
    requires
        is_word(host),
        !host.contains(']'),
    ensures
        managed_proxy::host_port_of(
            "["@ + host + "]:"@ + number::decimal(port as nat),
            default_port,
        ) == Some((text::ascii_lowercase_of(host), port)),
        managed_proxy::host_port_of("["@ + host + "]"@, default_port) == Some(
            (text::ascii_lowercase_of(host), default_port),
        ),
{
    reveal_strlit("[");
    reveal_strlit("]:");
    reveal_strlit("]");
    let digits = number::decimal(port as nat);
    number::lemma_decimal(port as nat);
    number::lemma_port_round_trip(port);
    let n = host.len() as int;
    let s = "["@ + host + "]:"@ + digits;
    assert(s.last() == digits.last());
    assert(number::is_digit(digits[digits.len() - 1]));
    assert(!text::white_space(s[s.len() - 1]));
    assert(s[0] == '[');
    text::lemma_trimmed_unchanged(s);
    let inner = s.skip(1);
    assert forall|i: int| 0 <= i < n implies #[trigger] inner[i] != ']' by {
        assert(inner[i] == host[i]);
        assert(host.contains(host[i]));
    }
    assert(inner[n] == ']');
    text::lemma_before_is(inner, ']', n);
    assert(inner.take(n) =~= host);
    let tail = inner.skip(n + 1);
    assert(tail[0] == ':');
    assert(tail.skip(1) =~= digits);
    let t = "["@ + host + "]"@;
    assert(t[0] == '[');
    assert(t.last() == ']');
    text::lemma_trimmed_unchanged(t);
    let within = t.skip(1);
    assert forall|i: int| 0 <= i < n implies #[trigger] within[i] != ']' by {
        assert(within[i] == host[i]);
        assert(host.contains(host[i]));
    }
    assert(within[n] == ']');
    text::lemma_before_is(within, ']', n);
    assert(within.take(n) =~= host);
    assert(within.skip(n + 1).len() == 0);
}

/// Whether `s` can follow the authority of a URI: nothing, or a path, query or fragment.
pub open spec fn follows_authority(s: Seq<char>) -> bool {
    s.len() > 0 ==> managed_proxy::ends_authority(s[0])
}

/// Whether `s` holds no character that ends an authority.
pub open spec fn is_authority(s: Seq<char>) -> bool {
    forall|i: int| 0 <= i < s.len() ==> !managed_proxy::ends_authority(#[trigger] s[i])
}

/// The authority of a URI ends where its path, query or fragment begins.
proof fn lemma_authority_len(authority: Seq<char>, rest: Seq<char>)
    requires
        is_authority(authority),
        follows_authority(rest),
    ensures
        managed_proxy::authority_len(authority + rest) == authority.len(),
    decreases authority.len(),
{
    let s = authority + rest;
    if authority.len() == 0 {
        assert(s =~= rest);
    } else {
        assert(s[0] == authority[0]);
        assert(s.drop_first() =~= authority.drop_first() + rest);
        assert forall|i: int| 0 <= i < authority.drop_first().len() implies
            !managed_proxy::ends_authority(#[trigger] authority.drop_first()[i]) by {
            assert(authority.drop_first()[i] == authority[i + 1]);
        }
        lemma_authority_len(authority.drop_first(), rest);
    }
}

/// What a request with an absolute URI asks to reach is in the authority of the URI alone:
/// its path, its query and its fragment do not count.
pub proof fn law_path_and_query_do_not_count(
    method: Seq<char>,
    authority: Seq<char>,
    rest: Seq<char>,
)
    requires
        text::ascii_lowercase_of(method) != text::ascii_lowercase_of("CONNECT"@),
        is_authority(authority),
        follows_authority(rest),
    ensures
        managed_proxy::target_of(method, "http://"@ + authority + rest) == (
        match managed_proxy::host_port_of(authority, 80) {
            Some((host, port)) => Some((host, port, ProxyRequestKind::Plain)),
            None => None,
        }),
{
    reveal_strlit("http://");
    let scheme = "http://"@;
    let target = scheme + authority + rest;
    let lower = text::ascii_lowercase_of(target);
    assert(scheme.len() == 7);
    assert forall|i: int| 0 <= i < 7 implies lower[i] == scheme[i] by {
        assert(target[i] == scheme[i]);
        assert(i == 0 || i == 1 || i == 2 || i == 3 || i == 4 || i == 5 || i == 6);
    }
    assert(scheme =~= lower.take(7));
    assert(scheme.is_prefix_of(lower));
    let tail = target.skip(7);
    assert(tail =~= authority + rest);
    lemma_authority_len(authority, rest);
    assert(tail.take(authority.len() as int) =~= authority);
}

/// A request with an absolute URI for a host and port is read as one for that host, in
/// lower case, and that port, whatever the path. Without a port it is for port 80.
pub proof fn law_absolute_uri_names_its_target(
    method: Seq<char>,
    host: Seq<char>,
    port: u16,
    path: Seq<char>,
    rest: Seq<char>,
)
    requires
        is_word(method),
        text::ascii_lowercase_of(method) != text::ascii_lowercase_of("CONNECT"@),
        is_word(host),
        host[0] != '[',
        !host.contains(':'),
        is_authority(host),
        path.len() > 0 ==> is_word(path) && managed_proxy::ends_authority(path[0]),
        ends_word(rest),
    ensures
        managed_proxy::request_target_of(
            method + " "@ + ("http://"@ + (host + ":"@ + number::decimal(port as nat)) + path)
                + rest,
        ) == Some((text::ascii_lowercase_of(host), port, ProxyRequestKind::Plain)),
        managed_proxy::request_target_of(method + " "@ + ("http://"@ + host + path) + rest) == Some(
            (text::ascii_lowercase_of(host), 80u16, ProxyRequestKind::Plain),
        ),
{
    reveal_strlit("http://");
    reveal_strlit(":");
    let scheme = "http://"@;
    let digits = number::decimal(port as nat);
    number::lemma_decimal(port as nat);
    lemma_host_port(host, port, 80);
    let authority = host + ":"@ + digits;
    assert forall|i: int| 0 <= i < authority.len() implies !managed_proxy::ends_authority(
        #[trigger] authority[i],
    ) by {
        if i < host.len() {
            assert(authority[i] == host[i]);
        } else if i == host.len() {
            assert(authority[i] == ':');
        } else {
            assert(authority[i] == digits[i - host.len() - 1]);
            assert(number::is_digit(digits[i - host.len() - 1]));
        }
    }
    lemma_uri_is_word(authority, path);
    lemma_uri_is_word(host, path);
    lemma_request_line(method, scheme + authority + path, rest);
    lemma_request_line(method, scheme + host + path, rest);
    law_path_and_query_do_not_count(method, authority, path);
    law_path_and_query_do_not_count(method, host, path);
}

/// A URI made of words is a word.
proof fn lemma_uri_is_word(authority: Seq<char>, path: Seq<char>)
    requires
        is_word(authority),
        path.len() > 0 ==> is_word(path),
    ensures
        is_word("http://"@ + authority + path),
{
    reveal_strlit("http://");
    let scheme = "http://"@;
    let uri = scheme + authority + path;
    assert(scheme.len() == 7);
    assert forall|i: int| 0 <= i < uri.len() implies !text::white_space(#[trigger] uri[i]) by {
        if i < 7 {
            assert(uri[i] == scheme[i]);
            assert(i == 0 || i == 1 || i == 2 || i == 3 || i == 4 || i == 5 || i == 6);
        } else if i < 7 + authority.len() {
            assert(uri[i] == authority[i - 7]);
        } else {
            assert(uri[i] == path[i - 7 - authority.len()]);
        }
    }
}

/// The origin form of an `http` URI, its scheme in any case, is its path and query: both
/// are kept, an empty path becomes a slash, and a fragment is left out.
pub proof fn law_origin_form_keeps_path_and_query(
    scheme: Seq<char>,
    authority: Seq<char>,
    rest: Seq<char>,
    fragment: Seq<char>,
)
    requires
        text::ascii_lowercase_of(scheme) == "http://"@,
        is_authority(authority),
        follows_authority(rest),
        !rest.contains('#'),
        fragment.len() > 0 ==> fragment[0] == '#',
    ensures
        managed_proxy::origin_path_of(scheme + authority + rest + fragment) == (if rest.len() > 0
            && rest[0] == '/' {
            rest
        } else {
            "/"@ + rest
        }),
{
    reveal_strlit("http://");
    let uri = scheme + authority + rest + fragment;
    assert(scheme.len() == text::ascii_lowercase_of(scheme).len());
    assert(text::ascii_lowercase_of(uri).take(7) =~= text::ascii_lowercase_of(scheme));
    assert("http://"@.is_prefix_of(text::ascii_lowercase_of(uri)));
    let behind = rest + fragment;
    let after_scheme = uri.skip(7);
    assert(after_scheme =~= authority + behind);
    if rest.len() > 0 {
        assert(behind[0] == rest[0]);
    } else {
        assert(behind =~= fragment);
    }
    lemma_authority_len(authority, behind);
    assert(after_scheme.skip(authority.len() as int) =~= behind);
    let n = rest.len() as int;
    assert forall|i: int| 0 <= i < n implies #[trigger] behind[i] != '#' by {
        assert(behind[i] == rest[i]);
        assert(rest.contains(rest[i]));
    }
    if fragment.len() > 0 {
        assert(behind[n] == fragment[0]);
    }
    text::lemma_before_is(behind, '#', n);
    assert(behind.take(n) =~= rest);
}

/// The first line ends at its carriage return and line feed.
proof fn lemma_first_line_len(line: Seq<char>, rest: Seq<char>)
    requires
        !line.contains('\r'),
    ensures
        managed_proxy::first_line_len(line + "\r\n"@ + rest) == line.len(),
    decreases line.len(),
{
    reveal_strlit("\r\n");
    let s = line + "\r\n"@ + rest;
    if line.len() == 0 {
        assert(s[0] == '\r' && s[1] == '\n');
    } else {
        assert(line.contains(line[0]));
        assert(s[0] == line[0]);
        assert(s.drop_first() =~= line.drop_first() + "\r\n"@ + rest);
        assert forall|i: int| 0 <= i < line.drop_first().len() implies line.drop_first()[i]
            != '\r' by {
            assert(line.contains(line[i + 1]));
        }
        lemma_first_line_len(line.drop_first(), rest);
    }
}

/// Rewriting a head changes the URI of its first line and nothing else: the method, the
/// version and every header stay.
pub proof fn law_rewriting_changes_the_uri_alone(
    method: Seq<char>,
    uri: Seq<char>,
    version: Seq<char>,
    headers: Seq<char>,
)
    requires
        is_word(method),
        is_word(uri),
        is_word(version),
    ensures
        managed_proxy::origin_form_of(
            method + " "@ + uri + " "@ + version + "\r\n"@ + headers,
        ) == Ok::<Seq<char>, managed_proxy::RewriteError>(
            method + " "@ + managed_proxy::origin_path_of(uri) + " "@ + version + "\r\n"@ + headers,
        ),
{
    reveal_strlit(" ");
    reveal_strlit("\r\n");
    let line = method + " "@ + uri + " "@ + version;
    let header = line + "\r\n"@ + headers;
    let m = method.len() as int;
    let u = uri.len() as int;
    assert forall|i: int| 0 <= i < line.len() implies line[i] != '\r' by {
        if i < m {
            assert(line[i] == method[i]);
        } else if i == m {
            assert(line[i] == ' ');
        } else if i < m + 1 + u {
            assert(line[i] == uri[i - m - 1]);
        } else if i == m + 1 + u {
            assert(line[i] == ' ');
        } else {
            assert(line[i] == version[i - m - u - 2]);
        }
    }
    assert(!line.contains('\r'));
    lemma_first_line_len(line, headers);
    let n = line.len() as int;
    assert(header.take(n) =~= line);
    assert(header.skip(n + 2) =~= headers);
    let tail = " "@ + (uri + (" "@ + version));
    assert(line =~= method + tail);
    assert(tail[0] == ' ');
    lemma_split_word(method, tail);
    lemma_split_word_after_space(uri + (" "@ + version));
    assert((" "@ + version)[0] == ' ');
    lemma_split_word(uri, " "@ + version);
    lemma_split_word_after_space(version);
    let nothing = Seq::<char>::empty();
    assert(version + nothing =~= version);
    lemma_split_word(version, nothing);
}

/// A complete head in UTF-8 has a first line with an end.
pub proof fn law_complete_header_has_a_first_line(bytes: Seq<u8>)
    requires
        valid_utf8(bytes),
        connection::ends_in_blank_line(bytes),
        bytes.len() <= connection::MAX_HEADER_BYTES,
    ensures
        connection::header_step_of(bytes) == HeaderStepView::Complete(decode_utf8(bytes)),
        managed_proxy::first_line_len(decode_utf8(bytes)) < decode_utf8(bytes).len(),
{
    let n = bytes.len() as int;
    let tail = bytes.subrange(n - 4, n);
    vstd::utf8::is_char_boundary_iff_not_is_continuation_byte(bytes, n - 4);
    vstd::utf8::decode_utf8_split(bytes, n - 4);
    let end = seq!['\r', '\n', '\r', '\n'];
    assert(vstd::utf8::is_ascii_chars(end));
    vstd::utf8::is_ascii_chars_encode_utf8(end);
    let encoded = encode_utf8(end);
    assert(end[0] as u8 == encoded[0] && end[1] as u8 == encoded[1] && end[2] as u8 == encoded[2]
        && end[3] as u8 == encoded[3]);
    assert(encoded =~= tail);
    vstd::utf8::encode_utf8_decode_utf8(end);
    let header = decode_utf8(bytes);
    let front = decode_utf8(bytes.subrange(0, n - 4));
    assert(header == front + end);
    lemma_first_line_ends(header, front.len() as int);
}

/// A text that holds a carriage return and a line feed has a first line with an end.
proof fn lemma_first_line_ends(s: Seq<char>, i: int)
    requires
        0 <= i,
        i + 1 < s.len(),
        s[i] == '\r',
        s[i + 1] == '\n',
    ensures
        managed_proxy::first_line_len(s) <= i,
    decreases i,
{
    if i > 0 {
        lemma_first_line_ends(s.drop_first(), i - 1);
    }
}

/// Once the target of a plain request is reached its head can be rewritten: no such request
/// fails for its form after it was dialled.
pub proof fn law_dialled_plain_request_is_relayed(header: Seq<char>)
    requires
        managed_proxy::first_line_len(header) < header.len(),
        connection::request_action_of(header) is Dial,
    ensures
        managed_proxy::origin_form_of(header) is Ok,
        forall|kind: ProxyRequestKind|
            #[trigger] connection::dialled_action_of(header, kind, Ok(())) is Relay,
{
    let line = header.take(managed_proxy::first_line_len(header) as int);
    let short = text::trimmed(line);
    let space = lemma_split_word_of_trimmed(line);
    let rest = text::split_word_of(short)->Some_0.1;
    lemma_split_word_before_blank(rest, space);
}

/// The proxy fails closed. Whatever is dialled is dialled on the route that the rules give
/// for the host of the first line; on the SOCKS5 route that is the upstream and never the
/// target; and if the dial fails the client is told so and nothing else is tried.
pub proof fn law_fails_closed(header: Seq<char>, upstream: (Seq<char>, u16), reason: Seq<char>)
    ensures
        connection::request_action_of(header) matches ConnectionActionView::Dial {
            target,
            decision,
        } ==> {
            &&& managed_proxy::request_target_of(connection::first_line_of(header)) == Some(target)
            &&& decision == managed_proxy::route_of(target.0)
            &&& decision == RouteDecision::Socks5 ==> connection::dial_address_of(
                target,
                decision,
                upstream,
            ) == upstream
            &&& connection::dialled_action_of(header, target.2, Err(reason))
                == (ConnectionActionView::Answer {
                response: connection::BAD_GATEWAY_RESPONSE@,
                failure: Some(ConnectionErrorView::Upstream(reason)),
            })
        },
{
}

/// Only the first line of a head counts for what is done: headers play no part.
pub proof fn law_headers_do_not_count(
    line: Seq<char>,
    headers: Seq<char>,
    other_headers: Seq<char>,
)
    requires
        !line.contains('\r'),
    ensures
        connection::request_action_of(line + "\r\n"@ + headers) == connection::request_action_of(
            line + "\r\n"@ + other_headers,
        ),
{
    lemma_first_line_len(line, headers);
    lemma_first_line_len(line, other_headers);
    let n = line.len() as int;
    assert((line + "\r\n"@ + headers).take(n) =~= line);
    assert((line + "\r\n"@ + other_headers).take(n) =~= line);
}

/// Nothing is relayed before the target was dialled, and a request that is not dialled is
/// answered at once.
pub proof fn law_relay_needs_a_dial(header: Seq<char>)
    ensures
        connection::request_action_of(header) !is Relay,
        connection::request_action_of(header) !is Fail,
        connection::request_action_of(header) is Dial <==> !managed_proxy::identify_request(
            connection::first_line_of(header),
        ) && managed_proxy::request_target_of(connection::first_line_of(header)) is Some,
        forall|kind: ProxyRequestKind, dial: Result<(), Seq<char>>|
            #[trigger] connection::dialled_action_of(header, kind, dial) is Relay ==> dial is Ok,
        forall|kind: ProxyRequestKind, dial: Result<(), Seq<char>>|
            #[trigger] connection::dialled_action_of(header, kind, dial) !is Dial,
{
}

/// A head that is complete ends at its first empty line and within the limit.
pub proof fn law_header_ends_at_first_blank_line(stream: Seq<u8>, n: int)
    requires
        0 <= n <= stream.len(),
        connection::header_step_of(stream.take(n)) is Complete,
        forall|k: int|
            0 <= k < n ==> #[trigger] connection::header_step_of(stream.take(k)) is More,
    ensures
        4 <= n <= connection::MAX_HEADER_BYTES,
        connection::ends_in_blank_line(stream.take(n)),
        forall|k: int|
            0 <= k < n ==> !connection::ends_in_blank_line(#[trigger] stream.take(k)),
{
    assert(stream.take(n).len() == n);
    assert forall|k: int| 0 <= k < n implies !connection::ends_in_blank_line(
        #[trigger] stream.take(k),
    ) by {
        assert(connection::header_step_of(stream.take(k)) is More);
    }
}

/// The probe finds the proxy: the proxy answers the probe by telling what it is, and that
/// answer is recognised.
pub proof fn law_probe_finds_the_proxy()
    ensures
        connection::request_action_of(startup::probe_request_of())
            == (ConnectionActionView::Answer {
            response: connection::identify_response_of(),
            failure: None,
        }),
        startup::identifies_proxy(connection::identify_response_of()),
{
    reveal_strlit("GET ");
    reveal_strlit("GET");
    reveal_strlit("/__managed_proxy_id");
    reveal_strlit(" HTTP/1.1\r\nHost: 127.0.0.1\r\nConnection: close\r\n\r\n");
    reveal_strlit(" HTTP/1.1");
    reveal_strlit("HTTP/1.1");
    reveal_strlit("\r\n");
    reveal_strlit("Host: 127.0.0.1\r\nConnection: close\r\n\r\n");
    reveal_strlit(" ");
    let path = managed_proxy::MANAGED_PROXY_ID_PATH@;
    let request = startup::probe_request_of();
    let line = "GET "@ + path + " HTTP/1.1"@;
    assert(request =~= line + "\r\n"@ + "Host: 127.0.0.1\r\nConnection: close\r\n\r\n"@);
    assert forall|i: int| 0 <= i < line.len() implies line[i] != '\r' by {
        if i < 4 {
            assert(line[i] == "GET "@[i]);
        } else if i < 23 {
            assert(line[i] == path[i - 4]);
        } else {
            assert(line[i] == " HTTP/1.1"@[i - 23]);
        }
    }
    assert(!line.contains('\r'));
    lemma_first_line_len(line, "Host: 127.0.0.1\r\nConnection: close\r\n\r\n"@);
    assert(request.take(line.len() as int) =~= line);
    assert(line[0] == 'G');
    assert(line.last() == '1');
    text::lemma_trimmed_unchanged(line);
    let tail = " "@ + (path + " HTTP/1.1"@);
    assert(line =~= "GET"@ + tail);
    assert(tail[0] == ' ');
    lemma_split_word("GET"@, tail);
    lemma_split_word_after_space(path + " HTTP/1.1"@);
    assert(" HTTP/1.1"@[0] == ' ');
    lemma_split_word(path, " HTTP/1.1"@);
    let response = connection::identify_response_of();
    let body = managed_proxy::MANAGED_PROXY_ID_BODY@;
    let k = response.len() - body.len();
    assert(response.subrange(k, k + body.len()) =~= body);
}

/// A port that is set is used, unless it is zero.
pub proof fn law_port_setting_is_used(port: u16)
    requires
        port != 0,
    ensures
        managed_proxy::proxy_port_of(Some(number::decimal(port as nat))) == port,
{
    number::lemma_decimal(port as nat);
    number::lemma_port_round_trip(port);
    let digits = number::decimal(port as nat);
    assert(number::is_digit(digits[0]) && number::is_digit(digits[digits.len() - 1]));
    text::lemma_trimmed_unchanged(digits);
}

/// The launch arguments that stay are those that set no proxy, each in its place.
proof fn lemma_without_proxy_args(args: Seq<Seq<char>>)
    ensures
        managed_gateway::without_proxy_args(args) == args.filter(
            |arg: Seq<char>| !managed_gateway::sets_proxy(arg),
        ),
        forall|i: int|
            0 <= i < managed_gateway::without_proxy_args(args).len()
                ==> !managed_gateway::sets_proxy(
                #[trigger] managed_gateway::without_proxy_args(args)[i],
            ),
        (forall|i: int| 0 <= i < args.len() ==> !managed_gateway::sets_proxy(#[trigger] args[i]))
            ==> managed_gateway::without_proxy_args(args) == args,
    decreases args.len(),
{
    reveal(Seq::filter);
    if args.len() > 0 {
        lemma_without_proxy_args(args.drop_last());
        assert(args.drop_last().push(args.last()) =~= args);
    }
}

/// The managed argument sets a proxy.
proof fn lemma_pac_arg_sets_proxy(port: u16)
    ensures
        managed_gateway::sets_proxy(managed_gateway::pac_url_arg(port)),
{
    reveal_strlit("--proxy-pac-url=");
    reveal_strlit("--proxy-pac-url=http://127.0.0.1:");
    reveal_strlit("/proxy.pac");
    let arg = managed_gateway::pac_url_arg(port);
    assert(arg[0] == '-');
    assert(arg.last() == 'c');
    text::lemma_trimmed_unchanged(arg);
    assert("--proxy-pac-url="@ =~= arg.take(16));
}

/// After injection the managed argument stands last and is the only one that sets a proxy;
/// the arguments that set none stay, in their order.
pub proof fn law_one_proxy_argument(args: Seq<Seq<char>>, port: u16)
    ensures
        managed_gateway::with_pac_arg(args, port).last() == managed_gateway::pac_url_arg(port),
        managed_gateway::sets_proxy(managed_gateway::pac_url_arg(port)),
        forall|i: int|
            0 <= i < managed_gateway::with_pac_arg(args, port).len() - 1
                ==> !managed_gateway::sets_proxy(
                #[trigger] managed_gateway::with_pac_arg(args, port)[i],
            ),
        managed_gateway::with_pac_arg(args, port).drop_last() == args.filter(
            |arg: Seq<char>| !managed_gateway::sets_proxy(arg),
        ),
{
    lemma_without_proxy_args(args);
    lemma_pac_arg_sets_proxy(port);
    assert(managed_gateway::with_pac_arg(args, port).drop_last()
        =~= managed_gateway::without_proxy_args(args));
}

/// A second injection replaces the first.
pub proof fn law_last_injection_counts(args: Seq<Seq<char>>, first: u16, second: u16)
    ensures
        managed_gateway::with_pac_arg(managed_gateway::with_pac_arg(args, first), second)
            == managed_gateway::with_pac_arg(args, second),
{
    let kept = managed_gateway::without_proxy_args(args);
    let once = managed_gateway::with_pac_arg(args, first);
    lemma_without_proxy_args(args);
    lemma_without_proxy_args(kept);
    lemma_pac_arg_sets_proxy(first);
    assert(once.drop_last() =~= kept);
}

/// The first word of a text stands behind white space alone, and ends where the text ends or
/// white space follows. A text without a word is blank.
pub proof fn law_first_word(s: Seq<char>) -> (lead: Seq<char>)
    ensures
        text::blank(lead),
        match text::split_word_of(s) {
            None => text::blank(s),
            Some((word, rest)) => s == lead + word + rest && is_word(word) && ends_word(rest),
        },
{
    let a = text::lemma_trim_start(s);
    let t = text::trim_start_of(s);
    let lead = s.take(a);
    if t.len() > 0 {
        lemma_word_of(t);
        let n = text::word_len(t) as int;
        assert(lead + t.take(n) + t.skip(n) =~= s);
    } else {
        assert forall|i: int| 0 <= i < s.len() implies text::white_space(#[trigger] s[i]) by {
            assert(i < a);
        }
    }
    lead
}

/// The characters of the first word are no white space, and the next one is.
proof fn lemma_word_of(t: Seq<char>)
    ensures
        text::word_len(t) <= t.len(),
        forall|i: int| 0 <= i < text::word_len(t) ==> !text::white_space(#[trigger] t[i]),
        text::word_len(t) < t.len() ==> text::white_space(t[text::word_len(t) as int]),
        t.len() > 0 && !text::white_space(t[0]) ==> text::word_len(t) > 0,
    decreases t.len(),
{
    if t.len() > 0 && !text::white_space(t[0]) {
        let rest = t.drop_first();
        lemma_word_of(rest);
        assert forall|i: int| 0 <= i < text::word_len(t) implies !text::white_space(
            #[trigger] t[i],
        ) by {
            if i > 0 {
                assert(t[i] == rest[i - 1]);
            }
        }
    }
}

/// White space in front of a text does not change its words.
proof fn lemma_split_word_behind_blank(space: Seq<char>, s: Seq<char>)
    requires
        text::blank(space),
    ensures
        text::split_word_of(space + s) == text::split_word_of(s),
    decreases space.len(),
{
    if space.len() == 0 {
        assert(space + s =~= s);
    } else {
        assert(text::white_space(space[0]));
        assert((space + s)[0] == space[0]);
        assert((space + s).drop_first() =~= space.drop_first() + s);
        assert forall|i: int| 0 <= i < space.drop_first().len() implies text::white_space(
            #[trigger] space.drop_first()[i],
        ) by {
            assert(space.drop_first()[i] == space[i + 1]);
        }
        lemma_split_word_behind_blank(space.drop_first(), s);
    }
}

/// Whether a method is `GET`, in any case.
pub open spec fn is_get(method: Seq<char>) -> bool {
    &&& method.len() == 3
    &&& method[0] == 'G' || method[0] == 'g'
    &&& method[1] == 'E' || method[1] == 'e'
    &&& method[2] == 'T' || method[2] == 't'
}

/// Whether a method is `CONNECT`, in any case.
pub open spec fn is_connect(method: Seq<char>) -> bool {
    &&& method.len() == 7
    &&& method[0] == 'C' || method[0] == 'c'
    &&& method[1] == 'O' || method[1] == 'o'
    &&& method[2] == 'N' || method[2] == 'n'
    &&& method[3] == 'N' || method[3] == 'n'
    &&& method[4] == 'E' || method[4] == 'e'
    &&& method[5] == 'C' || method[5] == 'c'
    &&& method[6] == 'T' || method[6] == 't'
}

/// A letter in lower case comes from that letter in one of its cases.
proof fn lemma_lower_letter(c: char, upper: char)
    requires
        'A' <= upper && upper <= 'Z',
    ensures
        text::ascii_lower(c) == text::ascii_lower(upper) <==> c == upper || c
            == text::ascii_lower(upper),
{
    let l = (upper as u32 + 32) as u32;
    vstd::utf8::char_u32_cast(text::ascii_lower(upper), l);
    if 'A' <= c && c <= 'Z' {
        let k = (c as u32 + 32) as u32;
        vstd::utf8::char_u32_cast(text::ascii_lower(c), k);
        if text::ascii_lower(c) == text::ascii_lower(upper) {
            assert(k == l);
            vstd::utf8::char_u32_cast(c, c as u32);
            vstd::utf8::char_u32_cast(upper, upper as u32);
        }
    }
}

/// Methods are told apart by their letters, whatever the case.
proof fn lemma_methods(method: Seq<char>)
    ensures
        (text::ascii_lowercase_of(method) == text::ascii_lowercase_of("GET"@)) == is_get(method),
        (text::ascii_lowercase_of(method) == text::ascii_lowercase_of("CONNECT"@)) == is_connect(
            method,
        ),
{
    reveal_strlit("GET");
    reveal_strlit("CONNECT");
    let l = text::ascii_lowercase_of(method);
    let get = text::ascii_lowercase_of("GET"@);
    let connect = text::ascii_lowercase_of("CONNECT"@);
    assert(get.len() == 3 && connect.len() == 7 && l.len() == method.len());
    if method.len() == 3 {
        lemma_lower_letter(method[0], 'G');
        lemma_lower_letter(method[1], 'E');
        lemma_lower_letter(method[2], 'T');
        assert(l[0] == text::ascii_lower(method[0]) && get[0] == text::ascii_lower('G'));
        assert(l[1] == text::ascii_lower(method[1]) && get[1] == text::ascii_lower('E'));
        assert(l[2] == text::ascii_lower(method[2]) && get[2] == text::ascii_lower('T'));
        if is_get(method) {
            assert(l =~= get);
        }
    }
    if method.len() == 7 {
        lemma_lower_letter(method[0], 'C');
        lemma_lower_letter(method[1], 'O');
        lemma_lower_letter(method[2], 'N');
        lemma_lower_letter(method[3], 'N');
        lemma_lower_letter(method[4], 'E');
        lemma_lower_letter(method[5], 'C');
        lemma_lower_letter(method[6], 'T');
        assert(l[0] == text::ascii_lower(method[0]) && connect[0] == text::ascii_lower('C'));
        assert(l[1] == text::ascii_lower(method[1]) && connect[1] == text::ascii_lower('O'));
        assert(l[2] == text::ascii_lower(method[2]) && connect[2] == text::ascii_lower('N'));
        assert(l[3] == text::ascii_lower(method[3]) && connect[3] == text::ascii_lower('N'));
        assert(l[4] == text::ascii_lower(method[4]) && connect[4] == text::ascii_lower('E'));
        assert(l[5] == text::ascii_lower(method[5]) && connect[5] == text::ascii_lower('C'));
        assert(l[6] == text::ascii_lower(method[6]) && connect[6] == text::ascii_lower('T'));
        if is_connect(method) {
            assert(l =~= connect);
        }
    }
}

/// The identity of the proxy is told to no other request than a `GET`, in any case, of its
/// own path: nothing but white space stands in front of the method and between the two.
pub proof fn law_identity_is_told_for_its_path_alone(header: Seq<char>) -> (r: (
    Seq<char>,
    Seq<char>,
    Seq<char>,
    Seq<char>,
))
    ensures
        connection::request_action_of(header) matches ConnectionActionView::Answer {
            response,
            failure,
        } && failure is None ==> {
            &&& connection::first_line_of(header) == r.0 + r.1 + r.2 + "/__managed_proxy_id"@ + r.3
            &&& text::blank(r.0)
            &&& is_get(r.1)
            &&& text::blank(r.2)
            &&& r.2.len() > 0
            &&& ends_word(r.3)
        },
{
    let line = connection::first_line_of(header);
    let lead = law_first_word(line);
    match text::split_word_of(line) {
        None => (lead, lead, lead, lead),
        Some((method, rest)) => {
            let gap = law_first_word(rest);
            lemma_methods(method);
            match text::split_word_of(rest) {
                None => (lead, lead, lead, lead),
                Some((path, tail)) => {
                    assert(lead + method + gap + path + tail =~= lead + method + (gap + path
                        + tail));
                    if gap.len() == 0 {
                        assert(rest[0] == path[0]);
                    }
                    (lead, method, gap, tail)
                },
            }
        },
    }
}

/// A `GET`, in any case, of its own path is answered with the identity of the proxy.
pub proof fn law_identity_is_told(method: Seq<char>, rest: Seq<char>, headers: Seq<char>)
    requires
        is_get(method),
        ends_word(rest),
        !rest.contains('\r'),
    ensures
        connection::request_action_of(
            method + " /__managed_proxy_id"@ + rest + "\r\n"@ + headers,
        ) == (ConnectionActionView::Answer {
            response: "HTTP/1.1 200 OK\r\nContent-Type: text/plain\r\nContent-Length: 29\r\nConnection: close\r\n\r\ncodex-plus-plus-managed-proxy"@,
            failure: None,
        }),
{
    reveal_strlit(" /__managed_proxy_id");
    reveal_strlit("/__managed_proxy_id");
    reveal_strlit(" ");
    let path = managed_proxy::MANAGED_PROXY_ID_PATH@;
    let line = method + " /__managed_proxy_id"@ + rest;
    assert(is_word(method));
    assert(is_word(path)) by {
        assert(path == "/__managed_proxy_id"@);
        assert(path.len() == 19);
    }
    assert(" /__managed_proxy_id"@ =~= " "@ + path);
    let tail = " "@ + (path + rest);
    assert(line =~= method + tail);
    assert forall|i: int| 0 <= i < line.len() implies line[i] != '\r' by {
        if i < method.len() {
            assert(line[i] == method[i]);
        } else if i < method.len() + 20 {
            assert(line[i] == " /__managed_proxy_id"@[i - method.len()]);
        } else {
            assert(line[i] == rest[i - method.len() - 20]);
            assert(rest.contains(rest[i - method.len() - 20]));
        }
    }
    assert(!line.contains('\r'));
    lemma_first_line_len(line, headers);
    let header = line + "\r\n"@ + headers;
    assert(header.take(line.len() as int) =~= line);
    lemma_methods(method);
    assert(tail[0] == ' ');
    lemma_split_word(method, tail);
    lemma_split_word_after_space(path + rest);
    lemma_split_word(path, rest);
    let space = lemma_words_of_trimmed(line);
    law_identity_response();
}

/// Trimming a line does not change its words.
proof fn lemma_words_of_trimmed(line: Seq<char>) -> (space: Seq<char>)
    ensures
        managed_proxy::identify_request(text::trimmed(line)) == managed_proxy::identify_request(
            line,
        ),
        managed_proxy::request_target_of(text::trimmed(line)) == managed_proxy::request_target_of(
            line,
        ),
{
    let short = text::trimmed(line);
    let space = lemma_split_word_of_trimmed(line);
    if let Some((word, rest)) = text::split_word_of(short) {
        lemma_split_word_before_blank(rest, space);
    }
    space
}

/// The answer that tells the identity: a status line, its headers, an empty line, and a body
/// of as many bytes as the headers say.
pub proof fn law_identity_response()
    ensures
        connection::identify_response_of()
            == "HTTP/1.1 200 OK\r\nContent-Type: text/plain\r\nContent-Length: 29\r\nConnection: close\r\n\r\ncodex-plus-plus-managed-proxy"@,
        encode_utf8("codex-plus-plus-managed-proxy"@).len() == 29,
{
    reveal_strlit("HTTP/1.1 200 OK\r\nContent-Type: text/plain\r\nContent-Length: ");
    reveal_strlit("\r\nConnection: close\r\n\r\n");
    reveal_strlit("codex-plus-plus-managed-proxy");
    reveal_strlit(
        "HTTP/1.1 200 OK\r\nContent-Type: text/plain\r\nContent-Length: 29\r\nConnection: close\r\n\r\ncodex-plus-plus-managed-proxy",
    );
    let body = "codex-plus-plus-managed-proxy"@;
    assert(body.len() == 29);
    assert(vstd::utf8::is_ascii_chars(body));
    vstd::utf8::is_ascii_chars_encode_utf8(body);
    reveal_with_fuel(number::decimal, 3);
    assert(number::decimal(29) =~= seq!['2', '9']);
    assert(connection::identify_response_of()
        =~= "HTTP/1.1 200 OK\r\nContent-Type: text/plain\r\nContent-Length: 29\r\nConnection: close\r\n\r\ncodex-plus-plus-managed-proxy"@);
}

/// A request line is dialled for what it names: neither its headers nor the identity of the
/// proxy come in between.
proof fn lemma_line_is_dialled(
    method: Seq<char>,
    target: Seq<char>,
    rest: Seq<char>,
    headers: Seq<char>,
)
    requires
        is_word(method),
        is_word(target),
        target[0] != '/' || !is_get(method),
        ends_word(rest),
        !rest.contains('\r'),
        managed_proxy::target_of(method, target) is Some,
    ensures
        connection::request_action_of(method + " "@ + target + rest + "\r\n"@ + headers)
            == (ConnectionActionView::Dial {
            target: managed_proxy::target_of(method, target)->Some_0,
            decision: managed_proxy::route_of(managed_proxy::target_of(method, target)->Some_0.0),
        }),
{
    reveal_strlit(" ");
    reveal_strlit("/__managed_proxy_id");
    let line = method + " "@ + target + rest;
    let m = method.len() as int;
    let t = target.len() as int;
    assert forall|i: int| 0 <= i < line.len() implies line[i] != '\r' by {
        if i < m {
            assert(line[i] == method[i]);
        } else if i == m {
            assert(line[i] == ' ');
        } else if i < m + 1 + t {
            assert(line[i] == target[i - m - 1]);
        } else {
            assert(line[i] == rest[i - m - 1 - t]);
            assert(rest.contains(rest[i - m - 1 - t]));
        }
    }
    assert(!line.contains('\r'));
    lemma_first_line_len(line, headers);
    let header = line + "\r\n"@ + headers;
    assert(header.take(line.len() as int) =~= line);
    let space = lemma_words_of_trimmed(line);
    lemma_request_line(method, target, rest);
    lemma_methods(method);
    let tail = " "@ + (target + rest);
    assert(line =~= method + tail);
    assert(tail[0] == ' ');
    lemma_split_word(method, tail);
    lemma_split_word_after_space(target + rest);
    lemma_split_word(target, rest);
    assert(managed_proxy::MANAGED_PROXY_ID_PATH@[0] == '/');
}

/// Every request with a method, an absolute `http` URI with a host and port, and whatever
/// follows, is dialled: the host in lower case and the port are those of the URI. Without a
/// port it is port 80. No such request is answered by the proxy itself.
pub proof fn law_absolute_uri_is_dialled(
    method: Seq<char>,
    host: Seq<char>,
    port: u16,
    path: Seq<char>,
    rest: Seq<char>,
    headers: Seq<char>,
)
    requires
        is_word(method),
        !is_connect(method),
        is_word(host),
        host[0] != '[',
        !host.contains(':'),
        forall|i: int|
            0 <= i < host.len() ==> #[trigger] host[i] != '/' && host[i] != '?' && host[i] != '#',
        path.len() > 0 ==> is_word(path) && (path[0] == '/' || path[0] == '?' || path[0] == '#'),
        ends_word(rest),
        !rest.contains('\r'),
    ensures
        connection::request_action_of(
            method + " "@ + ("http://"@ + (host + ":"@ + number::decimal(port as nat)) + path)
                + rest + "\r\n"@ + headers,
        ) == (ConnectionActionView::Dial {
            target: (text::ascii_lowercase_of(host), port, ProxyRequestKind::Plain),
            decision: managed_proxy::route_of(text::ascii_lowercase_of(host)),
        }),
        connection::request_action_of(
            method + " "@ + ("http://"@ + host + path) + rest + "\r\n"@ + headers,
        ) == (ConnectionActionView::Dial {
            target: (text::ascii_lowercase_of(host), 80u16, ProxyRequestKind::Plain),
            decision: managed_proxy::route_of(text::ascii_lowercase_of(host)),
        }),
{
    reveal_strlit("http://");
    reveal_strlit(":");
    lemma_methods(method);
    lemma_host_port(host, port, 80);
    let digits = number::decimal(port as nat);
    number::lemma_decimal(port as nat);
    let authority = host + ":"@ + digits;
    assert forall|i: int| 0 <= i < authority.len() implies !managed_proxy::ends_authority(
        #[trigger] authority[i],
    ) by {
        if i < host.len() {
            assert(authority[i] == host[i]);
        } else if i == host.len() {
            assert(authority[i] == ':');
        } else {
            assert(authority[i] == digits[i - host.len() - 1]);
            assert(number::is_digit(digits[i - host.len() - 1]));
        }
    }
    lemma_uri_is_word(authority, path);
    lemma_uri_is_word(host, path);
    law_path_and_query_do_not_count(method, authority, path);
    law_path_and_query_do_not_count(method, host, path);
    assert(("http://"@ + authority + path)[0] == 'h');
    assert(("http://"@ + host + path)[0] == 'h');
    lemma_line_is_dialled(method, "http://"@ + authority + path, rest, headers);
    lemma_line_is_dialled(method, "http://"@ + host + path, rest, headers);
}

/// Every `CONNECT` request, in any case, with a host and port, and whatever follows, is
/// dialled: the host in lower case and the port are those of the request. Without a port it
/// is port 443.
pub proof fn law_connect_is_dialled(
    method: Seq<char>,
    host: Seq<char>,
    port: u16,
    rest: Seq<char>,
    headers: Seq<char>,
)
    requires
        is_connect(method),
        is_word(host),
        host[0] != '[',
        !host.contains(':'),
        ends_word(rest),
        !rest.contains('\r'),
    ensures
        connection::request_action_of(
            method + " "@ + (host + ":"@ + number::decimal(port as nat)) + rest + "\r\n"@ + headers,
        ) == (ConnectionActionView::Dial {
            target: (text::ascii_lowercase_of(host), port, ProxyRequestKind::Connect),
            decision: managed_proxy::route_of(text::ascii_lowercase_of(host)),
        }),
        connection::request_action_of(method + " "@ + host + rest + "\r\n"@ + headers) == (
        ConnectionActionView::Dial {
            target: (text::ascii_lowercase_of(host), 443u16, ProxyRequestKind::Connect),
            decision: managed_proxy::route_of(text::ascii_lowercase_of(host)),
        }),
{
    lemma_methods(method);
    lemma_connect_is_word(method);
    lemma_host_port(host, port, 443);
    lemma_line_is_dialled(method, host + ":"@ + number::decimal(port as nat), rest, headers);
    lemma_line_is_dialled(method, host, rest, headers);
}

/// After every head one of three things is done: the identity is told, the request is refused
/// with a whole 400 response, or a target is dialled on the route for its host.
pub proof fn law_request_is_answered_or_dialled(header: Seq<char>)
    ensures
        match connection::request_action_of(header) {
            ConnectionActionView::Answer { response, failure: None } => response
                == "HTTP/1.1 200 OK\r\nContent-Type: text/plain\r\nContent-Length: 29\r\nConnection: close\r\n\r\ncodex-plus-plus-managed-proxy"@,
            ConnectionActionView::Answer { response, failure: Some(error) } => response
                == "HTTP/1.1 400 Bad Request\r\nContent-Length: 0\r\nConnection: close\r\n\r\n"@
                && error == ConnectionErrorView::NotAProxyRequest,
            ConnectionActionView::Dial { target, decision } => decision
                == managed_proxy::route_of(target.0),
            _ => false,
        },
{
    law_identity_response();
}

/// After the dial for a `CONNECT` request succeeded, the client is sent a whole response
/// head, a status line and an empty line, and the upstream nothing.
pub proof fn law_tunnel_is_confirmed_in_full(header: Seq<char>)
    ensures
        connection::dialled_action_of(header, ProxyRequestKind::Connect, Ok(())) == (
        ConnectionActionView::Relay {
            to_client: "HTTP/1.1 200 Connection Established\r\n\r\n"@,
            to_upstream: Seq::empty(),
        }),
        ({
            let head = connection::dialled_action_of(
                header,
                ProxyRequestKind::Connect,
                Ok(()),
            )->to_client;
            let n = head.len();
            n > 16 && head.take(13) == "HTTP/1.1 200 "@ && head[n - 4] == '\r' && head[n - 3] == '\n'
                && head[n - 2] == '\r' && head[n - 1] == '\n'
        }),
{
    reveal_strlit("");
    reveal_strlit("HTTP/1.1 200 Connection Established\r\n\r\n");
    reveal_strlit("HTTP/1.1 200 ");
    assert(""@ =~= Seq::<char>::empty());
    let head = "HTTP/1.1 200 Connection Established\r\n\r\n"@;
    assert(head.len() == 39);
    assert(head.take(13) =~= "HTTP/1.1 200 "@);
}

/// After a dial that failed, for whatever request, the client is sent a whole 502 response,
/// and the connection ends with the reason.
pub proof fn law_failed_dial_is_answered_502(
    header: Seq<char>,
    kind: ProxyRequestKind,
    reason: Seq<char>,
)
    ensures
        connection::dialled_action_of(header, kind, Err(reason)) == (ConnectionActionView::Answer {
            response: "HTTP/1.1 502 Bad Gateway\r\nContent-Length: 0\r\nConnection: close\r\n\r\n"@,
            failure: Some(ConnectionErrorView::Upstream(reason)),
        }),
{
}

/// After the dial for a plain request succeeded, the upstream is sent its head with the path
/// and query in place of the URI, and the client nothing. The method, the version and the
/// headers are sent as they came.
pub proof fn law_plain_request_is_forwarded(
    method: Seq<char>,
    scheme: Seq<char>,
    authority: Seq<char>,
    rest: Seq<char>,
    fragment: Seq<char>,
    version: Seq<char>,
    headers: Seq<char>,
)
    requires
        is_word(method),
        text::ascii_lowercase_of(scheme) == "http://"@,
        is_word(scheme + authority + rest + fragment),
        forall|i: int|
            0 <= i < authority.len() ==> #[trigger] authority[i] != '/' && authority[i] != '?'
                && authority[i] != '#',
        rest.len() > 0 ==> rest[0] == '/' || rest[0] == '?',
        !rest.contains('#'),
        fragment.len() > 0 ==> fragment[0] == '#',
        is_word(version),
    ensures
        connection::dialled_action_of(
            method + " "@ + (scheme + authority + rest + fragment) + " "@ + version + "\r\n"@
                + headers,
            ProxyRequestKind::Plain,
            Ok(()),
        ) == (ConnectionActionView::Relay {
            to_client: Seq::empty(),
            to_upstream: method + " "@ + (if rest.len() > 0 && rest[0] == '/' {
                rest
            } else {
                "/"@ + rest
            }) + " "@ + version + "\r\n"@ + headers,
        }),
{
    reveal_strlit("");
    assert(""@ =~= Seq::<char>::empty());
    let uri = scheme + authority + rest + fragment;
    law_rewriting_changes_the_uri_alone(method, uri, version, headers);
    law_origin_form_keeps_path_and_query(scheme, authority, rest, fragment);
}

/// A first line without a version is sent on with the usual one.
pub proof fn law_missing_version_is_added(
    method: Seq<char>,
    uri: Seq<char>,
    space: Seq<char>,
    headers: Seq<char>,
)
    requires
        is_word(method),
        is_word(uri),
        text::blank(space),
        !space.contains('\r'),
    ensures
        managed_proxy::origin_form_of(method + " "@ + uri + space + "\r\n"@ + headers) == Ok::<
            Seq<char>,
            managed_proxy::RewriteError,
        >(method + " "@ + managed_proxy::origin_path_of(uri) + " HTTP/1.1\r\n"@ + headers),
{
    reveal_strlit(" ");
    reveal_strlit("\r\n");
    reveal_strlit("HTTP/1.1");
    reveal_strlit(" HTTP/1.1\r\n");
    let line = method + " "@ + uri + space;
    let header = line + "\r\n"@ + headers;
    let m = method.len() as int;
    let u = uri.len() as int;
    assert forall|i: int| 0 <= i < line.len() implies line[i] != '\r' by {
        if i < m {
            assert(line[i] == method[i]);
        } else if i == m {
            assert(line[i] == ' ');
        } else if i < m + 1 + u {
            assert(line[i] == uri[i - m - 1]);
        } else {
            assert(line[i] == space[i - m - 1 - u]);
            assert(space.contains(space[i - m - 1 - u]));
        }
    }
    assert(!line.contains('\r'));
    lemma_first_line_len(line, headers);
    let n = line.len() as int;
    assert(header.take(n) =~= line);
    assert(header.skip(n + 2) =~= headers);
    let tail = " "@ + (uri + space);
    assert(line =~= method + tail);
    assert(tail[0] == ' ');
    lemma_split_word(method, tail);
    lemma_split_word_after_space(uri + space);
    if space.len() > 0 {
        assert(text::white_space(space[0]));
    }
    lemma_split_word(uri, space);
    let nothing = Seq::<char>::empty();
    assert(text::trim_start_of(nothing).len() == 0);
    lemma_split_word_before_blank(nothing, space);
    assert(nothing + space =~= space);
    let path = managed_proxy::origin_path_of(uri);
    assert(method + " "@ + path + " "@ + "HTTP/1.1"@ + "\r\n"@ + headers =~= method + " "@ + path
        + " HTTP/1.1\r\n"@ + headers);
}

/// A head is rewritten exactly if its first line is ended and holds two words. Where it is
/// not, the error says which is missing.
pub proof fn law_heads_that_cannot_be_rewritten(header: Seq<char>)
    ensures
        ({
            let line = header.take(managed_proxy::first_line_len(header) as int);
            match managed_proxy::origin_form_of(header) {
                Err(managed_proxy::RewriteError::MissingLineEnd) => forall|i: int|
                    0 <= i && i + 1 < header.len() ==> !(#[trigger] header[i] == '\r' && header[i
                        + 1] == '\n'),
                Err(managed_proxy::RewriteError::MissingMethod) => text::blank(line),
                Err(managed_proxy::RewriteError::MissingUri) => exists|lead: Seq<char>, word: Seq<
                    char,
                >, space: Seq<char>|
                    {
                        &&& #[trigger] (lead + word + space) == line
                        &&& text::blank(lead)
                        &&& is_word(word)
                        &&& text::blank(space)
                    },
                Ok(_) => managed_proxy::first_line_len(header) < header.len() && !text::blank(line),
            }
        }),
{
    let n = managed_proxy::first_line_len(header) as int;
    let line = header.take(n);
    if n >= header.len() {
        assert forall|i: int| 0 <= i && i + 1 < header.len() implies !(#[trigger] header[i] == '\r'
            && header[i + 1] == '\n') by {
            if header[i] == '\r' && header[i + 1] == '\n' {
                lemma_first_line_ends(header, i);
            }
        }
    } else {
        let lead = law_first_word(line);
        if let Some((word, rest)) = text::split_word_of(line) {
            let gap = law_first_word(rest);
            assert(lead + word + rest == line);
            assert(line[lead.len() as int] == word[0]);
        }
    }
}

/// The connection for a target is opened to the target itself on the direct route, and to the
/// upstream on the other.
pub proof fn law_each_route_has_its_address(
    host: Seq<char>,
    port: u16,
    kind: ProxyRequestKind,
    upstream: (Seq<char>, u16),
)
    ensures
        connection::dial_address_of((host, port, kind), RouteDecision::Direct, upstream) == (
            host,
            port,
        ),
        connection::dial_address_of((host, port, kind), RouteDecision::Socks5, upstream)
            == upstream,
{
}

/// A head is over its limit at 32769 bytes. Up to there it is complete exactly if it ends in
/// an empty line, and goes on otherwise; complete, it is read as UTF-8 where it is UTF-8.
pub proof fn law_header_is_read_to_its_empty_line(front: Seq<u8>, bytes: Seq<u8>)
    ensures
        bytes.len() > 32768 ==> connection::header_step_of(bytes) == HeaderStepView::Failed(
            ConnectionErrorView::HeaderTooLong,
        ),
        front.len() + 4 <= 32768 ==> connection::header_step_of(front + seq![13u8, 10, 13, 10])
            == HeaderStepView::Complete(
            if valid_utf8(front + seq![13u8, 10, 13, 10]) {
                decode_utf8(front + seq![13u8, 10, 13, 10])
            } else {
                connection::utf8_lossy(front + seq![13u8, 10, 13, 10])
            },
        ),
        bytes.len() <= 32768 && !(seq![13u8, 10, 13, 10].is_suffix_of(bytes))
            ==> connection::header_step_of(bytes) == HeaderStepView::More,
{
    let end = seq![13u8, 10, 13, 10];
    let whole = front + end;
    let n = whole.len() as int;
    assert(whole[n - 4] == 13 && whole[n - 3] == 10 && whole[n - 2] == 13 && whole[n - 1] == 10);
    if connection::ends_in_blank_line(bytes) {
        assert(bytes.skip(bytes.len() - 4) =~= end);
    }
}

/// An authority without brackets names a host and perhaps a port, in these forms and no
/// others: nothing is accepted that is not a host, with the port of a scheme or with one that
/// follows a single colon.
pub proof fn law_host_and_port_have_these_forms(input: Seq<char>, default_port: u16)
    ensures
        ({
            let s = text::trimmed(input);
            match managed_proxy::host_port_of(input, default_port) {
                Some((host, port)) => {
                    ||| {
                        &&& s.len() > 0 && s[0] != '[' && !s.contains(':')
                        &&& host == text::ascii_lowercase_of(s)
                        &&& port == default_port
                    }
                    ||| exists|name: Seq<char>, digits: Seq<char>|
                        {
                            &&& s == #[trigger] (name + seq![':'] + digits)
                            &&& name.len() > 0 && name[0] != '[' && !name.contains(':')
                            &&& host == text::ascii_lowercase_of(name)
                            &&& number::parse_u16_of(digits) == Some(port)
                        }
                    ||| exists|name: Seq<char>, tail: Seq<char>|
                        {
                            &&& s == #[trigger] (seq!['['] + name + seq![']'] + tail)
                            &&& name.len() > 0 && !name.contains(']')
                            &&& host == text::ascii_lowercase_of(name)
                            &&& if tail.len() > 0 && tail[0] == ':' {
                                number::parse_u16_of(tail.skip(1)) == Some(port)
                            } else {
                                port == default_port
                            }
                        }
                },
                None => {
                    ||| s.len() == 0
                    ||| s[0] == ':'
                    ||| s[0] == '[' && !s.contains(']')
                    ||| s.len() > 1 && s[0] == '[' && s[1] == ']'
                    ||| exists|name: Seq<char>, digits: Seq<char>|
                        {
                            &&& s == #[trigger] (name + seq![':'] + digits)
                            &&& s[0] != '[' && !name.contains(':')
                            &&& number::parse_u16_of(digits) is None
                        }
                    ||| exists|name: Seq<char>, digits: Seq<char>|
                        {
                            &&& s == #[trigger] (seq!['['] + name + seq![']'] + seq![':'] + digits)
                            &&& !name.contains(']')
                            &&& number::parse_u16_of(digits) is None
                        }
                },
            }
        }),
{
    let s = text::trimmed(input);
    if s.len() > 0 && s[0] == '[' {
        let inner = s.skip(1);
        text::lemma_before(inner, ']');
        let n = text::before(inner, ']') as int;
        if n < inner.len() {
            let name = inner.take(n);
            let tail = inner.skip(n + 1);
            assert forall|i: int| 0 <= i < name.len() implies name[i] != ']' by {
                assert(name[i] == inner[i]);
            }
            assert(s =~= seq!['['] + name + seq![']'] + tail);
            if n == 0 {
                assert(s[1] == inner[0]);
            }
            if tail.len() > 0 && tail[0] == ':' && number::parse_u16_of(tail.skip(1)) is None {
                assert(s =~= seq!['['] + name + seq![']'] + seq![':'] + tail.skip(1));
            }
        } else {
            assert forall|i: int| 0 <= i < s.len() implies s[i] != ']' by {
                if i > 0 {
                    assert(s[i] == inner[i - 1]);
                }
            }
        }
    } else if s.len() > 0 {
        text::lemma_before(s, ':');
        let n = text::before(s, ':') as int;
        if n < s.len() {
            let name = s.take(n);
            let digits = s.skip(n + 1);
            assert forall|i: int| 0 <= i < name.len() implies name[i] != ':' by {
                assert(name[i] == s[i]);
            }
            assert(s =~= name + seq![':'] + digits);
        } else {
            assert forall|i: int| 0 <= i < s.len() implies s[i] != ':' by {
                assert(s[i] != ':');
            }
        }
    }
}

/// The target of a `CONNECT` request is read as host and port. That of any other request
/// begins with the scheme `http`, in any case, or names nothing to reach.
pub proof fn law_only_connect_and_http_name_a_target(method: Seq<char>, target: Seq<char>)
    ensures
        is_connect(method) ==> managed_proxy::target_of(method, target) == (
        match managed_proxy::host_port_of(target, 443) {
            Some((host, port)) => Some((host, port, ProxyRequestKind::Connect)),
            None => None,
        }),
        !is_connect(method) && !(target.len() >= 7 && text::ascii_lowercase_of(target.take(7))
            == "http://"@) ==> managed_proxy::target_of(method, target) is None,
{
    lemma_methods(method);
    reveal_strlit("http://");
    if target.len() >= 7 {
        assert(text::ascii_lowercase_of(target.take(7)) =~= text::ascii_lowercase_of(target).take(
            7,
        ));
    }
}

/// The port setting is used where it spells out a port other than zero, whatever white space
/// is round it; where there is none, or zero, or more than a port can be, the default is.
pub proof fn law_port_setting_is_used_or_ignored(front: Seq<char>, n: nat, back: Seq<char>)
    requires
        text::blank(front),
        text::blank(back),
    ensures
        managed_proxy::proxy_port_of(None) == 17891,
        0 < n <= 65535 ==> managed_proxy::proxy_port_of(Some(front + number::decimal(n) + back))
            == n,
        n == 0 || n > 65535 ==> managed_proxy::proxy_port_of(
            Some(front + number::decimal(n) + back),
        ) == 17891,
{
    let digits = number::decimal(n);
    number::lemma_decimal(n);
    assert(number::is_digit(digits[0]) && number::is_digit(digits[digits.len() - 1]));
    lemma_trimmed_between(front, digits, back);
    assert(number::unsigned_digits(digits) == digits);
}

/// A port setting that holds anything but digits, behind a plus sign or not, is ignored.
pub proof fn law_port_setting_holds_digits_alone(value: Seq<char>, i: int)
    requires
        0 <= i < text::trimmed(value).len(),
        !('0' <= text::trimmed(value)[i] && text::trimmed(value)[i] <= '9'),
        i > 0 || text::trimmed(value)[0] != '+' || text::trimmed(value).len() == 1,
    ensures
        managed_proxy::proxy_port_of(Some(value)) == 17891,
{
    let s = text::trimmed(value);
    let digits = number::unsigned_digits(s);
    if s[0] == '+' {
        if i > 0 {
            assert(digits[i - 1] == s[i]);
            assert(!number::is_digit(digits[i - 1]));
        }
    } else {
        assert(!number::is_digit(digits[i]));
    }
}

/// Trimming takes off the white space round a text that neither begins nor ends in any.
proof fn lemma_trimmed_between(front: Seq<char>, s: Seq<char>, back: Seq<char>)
    requires
        text::blank(front),
        text::blank(back),
        s.len() > 0,
        !text::white_space(s[0]),
        !text::white_space(s.last()),
    ensures
        text::trimmed(front + s + back) == s,
{
    let whole = front + s + back;
    let r = text::lemma_trimmed(whole);
    let a = front.len() as int;
    let b = a + s.len();
    assert(whole[a] == s[0]);
    assert(whole[b - 1] == s[s.len() - 1]);
    if r.0 > a {
        assert(text::white_space(whole[a]));
    }
    if r.1 < b {
        assert(text::white_space(whole[b - 1]));
    }
    assert(r.0 < r.1);
    if r.0 < a {
        assert(whole[r.0] == front[r.0]);
    }
    if r.1 > b {
        assert(whole[r.1 - 1] == back[r.1 - 1 - b]);
    }
    assert(whole.subrange(a, b) =~= s);
}

/// Of the launch arguments exactly those stay, in their order, whose text, without the white
/// space round it, begins with neither of two words; the one that points at the helper's
/// script comes last.
pub proof fn law_injection_drops_these_arguments_alone(args: Seq<Seq<char>>, port: u16)
    ensures
        managed_gateway::with_pac_arg(args, port) == args.filter(
            |arg: Seq<char>|
                !("--proxy-pac-url="@.is_prefix_of(text::trimmed(arg)))
                    && !("--proxy-server"@.is_prefix_of(text::trimmed(arg))),
        ).push(
            "--proxy-pac-url=http://127.0.0.1:"@ + number::decimal(port as nat) + "/proxy.pac"@,
        ),
{
    lemma_without_proxy_args(args);
    let keeps = |arg: Seq<char>| !managed_gateway::sets_proxy(arg);
    let lacks = |arg: Seq<char>|
        !("--proxy-pac-url="@.is_prefix_of(text::trimmed(arg)))
            && !("--proxy-server"@.is_prefix_of(text::trimmed(arg)));
    assert(keeps =~= lacks);
}

/// What a failed connection says: the reason of the upstream as it came, and for each other
/// failure a text of its own.
pub proof fn law_failures_say_what_happened(reason: Seq<char>)
    ensures
        ConnectionErrorView::ClosedInHeader.message_of() == "客户端在请求头完成前关闭"@,
        ConnectionErrorView::HeaderTooLong.message_of() == "请求头超过 "@ + number::decimal(32768)
            + " 字节"@,
        ConnectionErrorView::NotAProxyRequest.message_of() == "无法识别的代理请求首行"@,
        ConnectionErrorView::Upstream(reason).message_of() == reason,
        ConnectionErrorView::Rewrite(managed_proxy::RewriteError::MissingLineEnd).message_of()
            == "请求头缺少首行结尾"@,
        ConnectionErrorView::Rewrite(managed_proxy::RewriteError::MissingMethod).message_of()
            == "请求首行缺少方法"@,
        ConnectionErrorView::Rewrite(managed_proxy::RewriteError::MissingUri).message_of()
            == "请求首行缺少 URI"@,
{
}

/// A route is logged under a name of its own.
pub proof fn law_routes_have_names()
    ensures
        connection::decision_name_of(RouteDecision::Socks5) == "socks5"@,
        connection::decision_name_of(RouteDecision::Direct) == "direct"@,
{
}

/// The view of an action holds what the caller is handed, piece by piece.
pub proof fn law_action_shows_what_it_holds(action: connection::ConnectionAction)
    ensures
        match action {
            connection::ConnectionAction::Answer { response, failure } => action@ matches
                ConnectionActionView::Answer { response: told, failure: why } && told == response@
                && (why is Some) == (failure is Some) && (failure is Some ==> why->0
                == failure->0@),
            connection::ConnectionAction::Dial { target, decision } => action@ matches
                ConnectionActionView::Dial { target: named, decision: route } && named == (
                target.host@,
                target.port,
                target.kind,
            ) && route == decision,
            connection::ConnectionAction::Relay { to_client, to_upstream } => action@ matches
                ConnectionActionView::Relay { to_client: back, to_upstream: on } && back
                == to_client@ && on == to_upstream@,
            connection::ConnectionAction::Fail(error) => action@ matches
                ConnectionActionView::Fail(why) && why == error@,
        },
{
}

/// The words of a first line count, and not how much white space is between them, in front or
/// behind. The target is the second word, whatever follows it.
pub proof fn law_words_of_the_first_line_count(
    lead: Seq<char>,
    method: Seq<char>,
    gap: Seq<char>,
    target: Seq<char>,
    rest: Seq<char>,
)
    requires
        text::blank(lead),
        is_word(method),
        text::blank(gap),
        gap.len() > 0,
        is_word(target),
        ends_word(rest),
    ensures
        managed_proxy::request_target_of(lead + method + gap + target + rest)
            == managed_proxy::target_of(method, target),
{
    assert(text::white_space(gap[0]));
    let behind = gap + (target + rest);
    assert(lead + method + gap + target + rest =~= lead + (method + behind));
    lemma_split_word_behind_blank(lead, method + behind);
    assert(behind[0] == gap[0]);
    lemma_split_word(method, behind);
    lemma_split_word_behind_blank(gap, target + rest);
    lemma_split_word(target, rest);
}

/// A first line is written anew from its first three words, one space between them. White
/// space round them, and words behind them, are left out, and the headers stay.
pub proof fn law_first_line_is_written_anew(
    lead: Seq<char>,
    method: Seq<char>,
    gap: Seq<char>,
    uri: Seq<char>,
    second_gap: Seq<char>,
    version: Seq<char>,
    rest: Seq<char>,
    headers: Seq<char>,
)
    requires
        text::blank(lead),
        is_word(method),
        text::blank(gap),
        gap.len() > 0,
        is_word(uri),
        text::blank(second_gap),
        second_gap.len() > 0,
        is_word(version),
        ends_word(rest),
        !(lead + method + gap + uri + second_gap + version + rest).contains('\r'),
    ensures
        managed_proxy::origin_form_of(
            lead + method + gap + uri + second_gap + version + rest + "\r\n"@ + headers,
        ) == Ok::<Seq<char>, managed_proxy::RewriteError>(
            method + " "@ + managed_proxy::origin_path_of(uri) + " "@ + version + "\r\n"@ + headers,
        ),
{
    reveal_strlit("\r\n");
    let line = lead + method + gap + uri + second_gap + version + rest;
    let header = line + "\r\n"@ + headers;
    lemma_first_line_len(line, headers);
    let n = line.len() as int;
    assert(header.take(n) =~= line);
    assert(header.skip(n + 2) =~= headers);
    assert(text::white_space(gap[0]));
    assert(text::white_space(second_gap[0]));
    let last = second_gap + (version + rest);
    let behind = gap + (uri + last);
    assert(line =~= lead + (method + behind));
    lemma_split_word_behind_blank(lead, method + behind);
    assert(behind[0] == gap[0]);
    lemma_split_word(method, behind);
    lemma_split_word_behind_blank(gap, uri + last);
    assert(last[0] == second_gap[0]);
    lemma_split_word(uri, last);
    lemma_split_word_behind_blank(second_gap, version + rest);
    lemma_split_word(version, rest);
}

/// A URI without the scheme is cut in the same way: what is in front of its first slash or
/// question mark goes, and so does its fragment.
pub proof fn law_uri_without_scheme_is_cut_alike(
    front: Seq<char>,
    rest: Seq<char>,
    fragment: Seq<char>,
)
    requires
        forall|i: int|
            0 <= i < front.len() ==> #[trigger] front[i] != '/' && front[i] != '?' && front[i]
                != '#',
        rest.len() > 0 ==> rest[0] == '/' || rest[0] == '?',
        !rest.contains('#'),
        fragment.len() > 0 ==> fragment[0] == '#',
        !("http://"@.is_prefix_of(text::ascii_lowercase_of(front + rest + fragment))),
    ensures
        managed_proxy::origin_path_of(front + rest + fragment) == (if rest.len() > 0 && rest[0]
            == '/' {
            rest
        } else {
            "/"@ + rest
        }),
{
    let uri = front + rest + fragment;
    let behind = rest + fragment;
    assert(uri =~= front + behind);
    if rest.len() > 0 {
        assert(behind[0] == rest[0]);
    } else {
        assert(behind =~= fragment);
    }
    lemma_authority_len(front, behind);
    assert(uri.skip(front.len() as int) =~= behind);
    let n = rest.len() as int;
    assert forall|i: int| 0 <= i < n implies #[trigger] behind[i] != '#' by {
        assert(rest.contains(rest[i]));
    }
    if fragment.len() > 0 {
        assert(behind[n] == fragment[0]);
    }
    text::lemma_before_is(behind, '#', n);
    assert(behind.take(n) =~= rest);
}

} // verus!

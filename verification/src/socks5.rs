//! The client side of a SOCKS5 handshake without authentication.
//!
//! The target is named by its domain, so that the upstream resolves it.
use vstd::prelude::*;
use vstd::utf8::encode_utf8;
use crate::number;
use crate::text;

verus! {

/// Why a SOCKS5 handshake failed.
#[derive(Debug, Clone, Copy, PartialEq, Eq, Structural)]
pub enum Socks5Error {
    /// The target has no host name.
    EmptyHost,
    /// The host name has this many bytes, more than a request can carry.
    HostTooLong(usize),
    /// The reply to the greeting is incomplete.
    MethodReplyTooShort,
    /// The reply to the request is incomplete.
    ConnectReplyTooShort,
    /// The upstream speaks this version.
    UnsupportedVersion(u8),
    /// The upstream asks for this authentication method.
    AuthRequired(u8),
    /// The upstream refused the request with this code.
    Refused(u8),
    /// The bound address in the reply is of an unknown type.
    UnknownAddressType,
}

impl Socks5Error {
    /// The message for a `Socks5Error`.
    pub open spec fn message_of(self) -> Seq<char> {
        match self {
            Socks5Error::EmptyHost => "SOCKS5 目标主机为空"@,
            Socks5Error::HostTooLong(len) => "SOCKS5 目标主机过长："@ + number::decimal(len as nat)
                + " 字节"@,
            Socks5Error::MethodReplyTooShort => "SOCKS5 方法应答长度不足"@,
            Socks5Error::ConnectReplyTooShort => "SOCKS5 CONNECT 应答长度不足"@,
            Socks5Error::UnsupportedVersion(version) => "SOCKS5 版本不支持：0x"@
                + number::hex_byte(version),
            Socks5Error::AuthRequired(method) => "SOCKS5 上游要求认证方法 0x"@ + number::hex_byte(
                method,
            ),
            Socks5Error::Refused(code) => "SOCKS5 上游拒绍："@ + reply_message_of(code),
            Socks5Error::UnknownAddressType => "SOCKS5 应答地址类型未知"@,
        }
    }

    /// A message for the reader of a log.
    pub fn message(&self) -> (r: String)
        ensures
            r@ == self.message_of(),
    {
        let mut out: Vec<char> = Vec::new();
        match self {
            Socks5Error::EmptyHost => {
                text::push_text(&mut out, "SOCKS5 目标主机为空");
            },
            Socks5Error::HostTooLong(len) => {
                text::push_text(&mut out, "SOCKS5 目标主机过长：");
                number::push_decimal(&mut out, *len as u128);
                text::push_text(&mut out, " 字节");
            },
            Socks5Error::MethodReplyTooShort => {
                text::push_text(&mut out, "SOCKS5 方法应答长度不足");
            },
            Socks5Error::ConnectReplyTooShort => {
                text::push_text(&mut out, "SOCKS5 CONNECT 应答长度不足");
            },
            Socks5Error::UnsupportedVersion(version) => {
                text::push_text(&mut out, "SOCKS5 版本不支持：0x");
                number::push_hex_byte(&mut out, *version);
            },
            Socks5Error::AuthRequired(method) => {
                text::push_text(&mut out, "SOCKS5 上游要求认证方法 0x");
                number::push_hex_byte(&mut out, *method);
            },
            Socks5Error::Refused(code) => {
                text::push_text(&mut out, "SOCKS5 上游拒绍：");
                text::push_text(&mut out, socks5_reply_message(*code));
            },
            Socks5Error::UnknownAddressType => {
                text::push_text(&mut out, "SOCKS5 应答地址类型未知");
            },
        }
        assert(out@ =~= self.message_of());
        text::string_of(out.as_slice())
    }
}

/// What a reply code of the upstream means.
pub open spec fn reply_message_of(code: u8) -> Seq<char> {
    if code == 1 {
        "上游一般性故障"@
    } else if code == 2 {
        "规则不允许"@
    } else if code == 3 {
        "网络不可达"@
    } else if code == 4 {
        "主机不可达"@
    } else if code == 5 {
        "连接被拒绝"@
    } else if code == 6 {
        "TTL 过期"@
    } else if code == 7 {
        "不支持的命令"@
    } else if code == 8 {
        "不支持的地址类型"@
    } else {
        "未知错误"@
    }
}

/// What a reply code of the upstream means.
pub fn socks5_reply_message(code: u8) -> (r: &'static str)
    ensures
        r@ == reply_message_of(code),
{
    match code {
        0x01 => "上游一般性故障",
        0x02 => "规则不允许",
        0x03 => "网络不可达",
        0x04 => "主机不可达",
        0x05 => "连接被拒绝",
        0x06 => "TTL 过期",
        0x07 => "不支持的命令",
        0x08 => "不支持的地址类型",
        _ => "未知错误",
    }
}

/// The greeting: version five, one method, no authentication.
pub open spec fn greeting() -> Seq<u8> {
    seq![5u8, 1u8, 0u8]
}

/// The greeting of a client that offers no authentication.
pub fn build_socks5_greeting() -> (r: [u8; 3])
    ensures
        r@ == greeting(),
{
    let greeting: [u8; 3] = [0x05, 0x01, 0x00];
    assert(greeting@ =~= self::greeting());
    greeting
}

/// The request to connect to a host, given by the bytes of its name, and a port.
pub open spec fn connect_request(host: Seq<u8>, port: u16) -> Seq<u8> {
    seq![5u8, 1u8, 0u8, 3u8, host.len() as u8] + host + seq![(port / 256) as u8, (port % 256) as u8]
}

/// The request to connect to a host and port, or why there is none: its length is sent
/// in one byte.
pub open spec fn connect_request_of(host: Seq<u8>, port: u16) -> Result<Seq<u8>, Socks5Error> {
    if host.len() == 0 {
        Err(Socks5Error::EmptyHost)
    } else if host.len() > 255 {
        Err(Socks5Error::HostTooLong(host.len() as usize))
    } else {
        Ok(connect_request(host, port))
    }
}

/// The request to connect to `host` and `port`.
pub fn build_socks5_connect_request(host: &str, port: u16) -> (r: Result<Vec<u8>, Socks5Error>)
    ensures
        match r {
            Ok(request) => connect_request_of(encode_utf8(host@), port) == Ok::<
                Seq<u8>,
                Socks5Error,
            >(request@),
            Err(error) => connect_request_of(encode_utf8(host@), port) == Err::<
                Seq<u8>,
                Socks5Error,
            >(error),
        },
{
    let bytes = host.as_bytes();
    let n: usize = bytes.len();
    if n == 0 {
        return Err(Socks5Error::EmptyHost);
    }
    if n > 255 {
        return Err(Socks5Error::HostTooLong(n));
    }
    let mut request: Vec<u8> = Vec::with_capacity(7 + n);
    request.push(0x05);
    request.push(0x01);
    request.push(0x00);
    request.push(0x03);
    request.push(n as u8);
    request.extend_from_slice(bytes);
    request.push((port / 256) as u8);
    request.push((port % 256) as u8);
    assert(request@ =~= connect_request(bytes@, port));
    Ok(request)
}

/// What the reply to the greeting says: whether the upstream goes on without
/// authentication.
pub open spec fn method_reply_of(bytes: Seq<u8>) -> Result<(), Socks5Error> {
    if bytes.len() < 2 {
        Err(Socks5Error::MethodReplyTooShort)
    } else if bytes[0] != 5 {
        Err(Socks5Error::UnsupportedVersion(bytes[0]))
    } else if bytes[1] != 0 {
        Err(Socks5Error::AuthRequired(bytes[1]))
    } else {
        Ok(())
    }
}

/// Checks the reply to the greeting. A demand for authentication is a failure.
pub fn parse_socks5_method_reply(bytes: &[u8]) -> (r: Result<(), Socks5Error>)
    ensures
        r == method_reply_of(bytes@),
{
    if bytes.len() < 2 {
        return Err(Socks5Error::MethodReplyTooShort);
    }
    if bytes[0] != 0x05 {
        return Err(Socks5Error::UnsupportedVersion(bytes[0]));
    }
    if bytes[1] != 0x00 {
        return Err(Socks5Error::AuthRequired(bytes[1]));
    }
    Ok(())
}

/// What the reply to the request says.
pub open spec fn connect_reply_of(bytes: Seq<u8>) -> Result<(), Socks5Error> {
    if bytes.len() < 2 {
        Err(Socks5Error::ConnectReplyTooShort)
    } else if bytes[0] != 5 {
        Err(Socks5Error::UnsupportedVersion(bytes[0]))
    } else if bytes[1] != 0 {
        Err(Socks5Error::Refused(bytes[1]))
    } else {
        Ok(())
    }
}

/// Checks the reply to the request. Every code but zero is a failure.
pub fn parse_socks5_connect_reply(bytes: &[u8]) -> (r: Result<(), Socks5Error>)
    ensures
        r == connect_reply_of(bytes@),
{
    if bytes.len() < 2 {
        return Err(Socks5Error::ConnectReplyTooShort);
    }
    if bytes[0] != 0x05 {
        return Err(Socks5Error::UnsupportedVersion(bytes[0]));
    }
    match bytes[1] {
        0x00 => Ok(()),
        code => Err(Socks5Error::Refused(code)),
    }
}

/// The length of a reply to the request, with the address that it ends in: four bytes,
/// an IPv4 address, a name with its length or an IPv6 address, and a port. `None` where
/// the bytes do not tell.
pub open spec fn connect_reply_len_of(bytes: Seq<u8>) -> Option<usize> {
    if bytes.len() < 5 {
        None
    } else if bytes[3] == 1 {
        Some(10)
    } else if bytes[3] == 3 {
        Some((7 + bytes[4]) as usize)
    } else if bytes[3] == 4 {
        Some(22)
    } else {
        None
    }
}

/// The length of a reply to the request, from its first five bytes.
pub fn socks5_connect_reply_len(bytes: &[u8]) -> (r: Option<usize>)
    ensures
        r == connect_reply_len_of(bytes@),
{
    if bytes.len() < 5 {
        return None;
    }
    let addr_len: usize = match bytes[3] {
        0x01 => 4,
        0x03 => 1 + bytes[4] as usize,
        0x04 => 16,
        _ => {
            return None;
        },
    };
    Some(4 + addr_len + 2)
}

/// How far a handshake has come: which bytes of the upstream are read next.
#[derive(Debug, Clone, Copy, PartialEq, Eq, Structural)]
pub enum HandshakePhase {
    /// The reply to the greeting.
    MethodReply,
    /// The first bytes of the reply to the request.
    ConnectReply,
    /// The rest of the address in the reply to the request.
    BoundAddress,
}

/// What to do next in a handshake.
pub enum HandshakeAction {
    /// Send `send`, then read exactly `expect` bytes; the handshake is then in `phase`.
    Exchange { send: Vec<u8>, expect: usize, phase: HandshakePhase },
    /// The tunnel stands.
    Established,
    /// The handshake failed. The connection is of no use.
    Failed(Socks5Error),
}

/// A `HandshakeAction` as plain values.
pub enum HandshakeActionView {
    Exchange { send: Seq<u8>, expect: nat, phase: HandshakePhase },
    Established,
    Failed(Socks5Error),
}

impl View for HandshakeAction {
    type V = HandshakeActionView;

    open spec fn view(&self) -> HandshakeActionView {
        match self {
            HandshakeAction::Exchange { send, expect, phase } => HandshakeActionView::Exchange {
                send: send@,
                expect: *expect as nat,
                phase: *phase,
            },
            HandshakeAction::Established => HandshakeActionView::Established,
            HandshakeAction::Failed(error) => HandshakeActionView::Failed(*error),
        }
    }
}

/// How a handshake begins.
pub open spec fn handshake_start() -> HandshakeActionView {
    HandshakeActionView::Exchange {
        send: greeting(),
        expect: 2,
        phase: HandshakePhase::MethodReply,
    }
}

/// How a handshake for a host and port goes on, in `phase`, after `received` was read.
pub open spec fn handshake_step(
    phase: HandshakePhase,
    host: Seq<u8>,
    port: u16,
    received: Seq<u8>,
) -> HandshakeActionView {
    match phase {
        HandshakePhase::MethodReply => match method_reply_of(received) {
            Err(error) => HandshakeActionView::Failed(error),
            Ok(()) => match connect_request_of(host, port) {
                Err(error) => HandshakeActionView::Failed(error),
                Ok(request) => HandshakeActionView::Exchange {
                    send: request,
                    expect: 5,
                    phase: HandshakePhase::ConnectReply,
                },
            },
        },
        HandshakePhase::ConnectReply => match connect_reply_of(received) {
            Err(error) => HandshakeActionView::Failed(error),
            Ok(()) => match connect_reply_len_of(received) {
                None => HandshakeActionView::Failed(Socks5Error::UnknownAddressType),
                Some(total) => if total <= received.len() {
                    HandshakeActionView::Established
                } else {
                    HandshakeActionView::Exchange {
                        send: Seq::empty(),
                        expect: (total - received.len()) as nat,
                        phase: HandshakePhase::BoundAddress,
                    }
                },
            },
        },
        HandshakePhase::BoundAddress => HandshakeActionView::Established,
    }
}

/// Begins a handshake.
pub fn start_handshake() -> (r: HandshakeAction)
    ensures
        r@ == handshake_start(),
{
    let greeting = build_socks5_greeting();
    let mut send: Vec<u8> = Vec::new();
    send.extend_from_slice(&greeting);
    assert(send@ =~= self::greeting());
    HandshakeAction::Exchange { send, expect: 2, phase: HandshakePhase::MethodReply }
}

/// Goes on with the handshake for `host` and `port`, which is in `phase`, after
/// `received` was read.
pub fn continue_handshake(phase: HandshakePhase, host: &str, port: u16, received: &[u8]) -> (r:
    HandshakeAction)
    ensures
        r@ == handshake_step(phase, encode_utf8(host@), port, received@),
{
    match phase {
        HandshakePhase::MethodReply => {
            match parse_socks5_method_reply(received) {
                Err(error) => {
                    return HandshakeAction::Failed(error);
                },
                Ok(()) => {},
            }
            match build_socks5_connect_request(host, port) {
                Err(error) => HandshakeAction::Failed(error),
                Ok(send) => HandshakeAction::Exchange {
                    send,
                    expect: 5,
                    phase: HandshakePhase::ConnectReply,
                },
            }
        },
        HandshakePhase::ConnectReply => {
            match parse_socks5_connect_reply(received) {
                Err(error) => {
                    return HandshakeAction::Failed(error);
                },
                Ok(()) => {},
            }
            match socks5_connect_reply_len(received) {
                None => HandshakeAction::Failed(Socks5Error::UnknownAddressType),
                Some(total) => {
                    if total <= received.len() {
                        HandshakeAction::Established
                    } else {
                        let expect: usize = total - received.len();
                        HandshakeAction::Exchange {
                            send: Vec::new(),
                            expect,
                            phase: HandshakePhase::BoundAddress,
                        }
                    }
                },
            }
        },
        HandshakePhase::BoundAddress => HandshakeAction::Established,
    }
}

/// The host and port that a request asks for.
pub open spec fn requested_target(request: Seq<u8>) -> (Seq<u8>, u16) {
    let n = request[4] as int;
    (request.subrange(5, 5 + n), (request[5 + n] * 256 + request[6 + n]) as u16)
}

/// A request names its host and port in full: both can be read back from it.
pub proof fn law_request_names_its_target(host: Seq<u8>, port: u16)
    requires
        0 < host.len() <= 255,
    ensures
        connect_request_of(host, port) is Ok,
        connect_request_of(host, port)->Ok_0.len() == 7 + host.len(),
        requested_target(connect_request_of(host, port)->Ok_0) == (host, port),
{
    let request = connect_request(host, port);
    let n = host.len() as int;
    assert(request[4] == n);
    assert(request.subrange(5, 5 + n) =~= host);
    assert(request[5 + n] == (port / 256) as u8);
    assert(request[6 + n] == (port % 256) as u8);
}

/// The first five bytes of a reply tell its length, which goes beyond them.
pub proof fn law_reply_length_is_in_its_head(reply: Seq<u8>)
    requires
        reply.len() >= 5,
    ensures
        connect_reply_len_of(reply) == connect_reply_len_of(reply.take(5)),
        connect_reply_len_of(reply) matches Some(total) ==> 7 <= total <= 262,
        connect_reply_len_of(reply) is None <==> reply[3] != 1 && reply[3] != 3 && reply[3] != 4,
{
}

/// A tunnel stands only after the upstream accepted the greeting without authentication,
/// was asked for exactly this host and port, and accepted the request.
pub proof fn law_tunnel_needs_acceptance(
    host: Seq<u8>,
    port: u16,
    method_reply: Seq<u8>,
    connect_reply: Seq<u8>,
)
    ensures
        handshake_step(HandshakePhase::MethodReply, host, port, method_reply)
            !is Established,
        handshake_step(HandshakePhase::MethodReply, host, port, method_reply) matches
            HandshakeActionView::Exchange { send, expect, phase } ==> method_reply.len() >= 2
            && method_reply[0] == 5 && method_reply[1] == 0 && requested_target(send) == (
            host,
            port,
        ) && expect == 5 && phase == HandshakePhase::ConnectReply,
        handshake_step(HandshakePhase::ConnectReply, host, port, connect_reply) !is Failed
            ==> connect_reply.len() >= 5 && connect_reply[0] == 5 && connect_reply[1] == 0,
{
    if 0 < host.len() <= 255 {
        law_request_names_its_target(host, port);
    }
}

/// After the five bytes that are asked for, an accepted reply is read to its end: what is
/// read is as long as the reply, and nothing more is sent.
pub proof fn law_reply_is_read_to_its_end(host: Seq<u8>, port: u16, head: Seq<u8>)
    requires
        head.len() == 5,
        connect_reply_of(head) is Ok,
        connect_reply_len_of(head) is Some,
    ensures
        handshake_step(HandshakePhase::ConnectReply, host, port, head) matches
            HandshakeActionView::Exchange { send, expect, phase } && send.len() == 0 && head.len()
            + expect == connect_reply_len_of(head)->Some_0 && phase == HandshakePhase::BoundAddress,
{
}

/// Read by the rules of the protocol, byte by byte, the request for a host and port asks for
/// just these: version five, command connect, a reserved zero, an address that is a name, the
/// length of the name, the name, and the port, its high byte first.
pub proof fn law_request_follows_the_protocol(host: Seq<u8>, port: u16)
    requires
        1 <= host.len() <= 255,
    ensures
        connect_request_of(host, port) matches Ok(request) && {
            let n = host.len() as int;
            &&& request.len() == n + 7
            &&& request[0] == 5 && request[1] == 1 && request[2] == 0 && request[3] == 3
            &&& request[4] == n
            &&& forall|i: int| 0 <= i < n ==> request[5 + i] == #[trigger] host[i]
            &&& request[n + 5] * 256 + request[n + 6] == port
        },
{
    let request = connect_request(host, port);
    let n = host.len() as int;
    assert(request[n + 5] == (port / 256) as u8);
    assert(request[n + 6] == (port % 256) as u8);
    assert forall|i: int| 0 <= i < n implies request[5 + i] == #[trigger] host[i] by {}
}

/// A host without a name, or with a name that is too long for one byte of length, is not
/// asked for.
pub proof fn law_unnameable_host_is_refused(host: Seq<u8>, port: u16)
    requires
        host.len() <= usize::MAX,
    ensures
        host.len() == 0 ==> connect_request_of(host, port) == Err::<Seq<u8>, Socks5Error>(
            Socks5Error::EmptyHost,
        ),
        host.len() > 255 ==> connect_request_of(host, port) == Err::<Seq<u8>, Socks5Error>(
            Socks5Error::HostTooLong(host.len() as usize),
        ),
{
}

/// A reply is as long as its parts: four bytes, an address of four bytes, of sixteen, or of
/// a length and as many bytes, and two bytes of port. What follows does not count.
pub proof fn law_reply_is_as_long_as_its_parts(
    start: Seq<u8>,
    address: Seq<u8>,
    port: Seq<u8>,
    more: Seq<u8>,
)
    requires
        start.len() == 3,
        port.len() == 2,
    ensures
        address.len() == 4 ==> connect_reply_len_of(start.push(1) + address + port + more) == Some(
            (start.push(1) + address + port).len() as usize,
        ),
        address.len() == 16 ==> connect_reply_len_of(start.push(4) + address + port + more) == Some(
            (start.push(4) + address + port).len() as usize,
        ),
        address.len() <= 255 ==> connect_reply_len_of(
            start.push(3).push(address.len() as u8) + address + port + more,
        ) == Some((start.push(3).push(address.len() as u8) + address + port).len() as usize),
{
    if address.len() == 4 {
        assert((start.push(1) + address + port + more)[3] == 1);
    }
    if address.len() == 16 {
        assert((start.push(4) + address + port + more)[3] == 4);
    }
    if address.len() <= 255 {
        let reply = start.push(3).push(address.len() as u8) + address + port + more;
        assert(reply[3] == 3);
        assert(reply[4] == address.len());
    }
}

/// Two bytes decide each reply: five and zero accept, another version or another second byte
/// refuses, and fewer bytes are no reply.
pub proof fn law_replies_are_judged_by_two_bytes(first: u8, second: u8, more: Seq<u8>)
    ensures
        method_reply_of(seq![5u8, 0u8] + more) == Ok::<(), Socks5Error>(()),
        connect_reply_of(seq![5u8, 0u8] + more) == Ok::<(), Socks5Error>(()),
        first != 5 ==> method_reply_of(seq![first, second] + more) == Err::<(), Socks5Error>(
            Socks5Error::UnsupportedVersion(first),
        ),
        first != 5 ==> connect_reply_of(seq![first, second] + more) == Err::<(), Socks5Error>(
            Socks5Error::UnsupportedVersion(first),
        ),
        second != 0 ==> method_reply_of(seq![5u8, second] + more) == Err::<(), Socks5Error>(
            Socks5Error::AuthRequired(second),
        ),
        second != 0 ==> connect_reply_of(seq![5u8, second] + more) == Err::<(), Socks5Error>(
            Socks5Error::Refused(second),
        ),
        more.len() < 2 ==> method_reply_of(more) == Err::<(), Socks5Error>(
            Socks5Error::MethodReplyTooShort,
        ),
        more.len() < 2 ==> connect_reply_of(more) == Err::<(), Socks5Error>(
            Socks5Error::ConnectReplyTooShort,
        ),
{
    assert((seq![5u8, 0u8] + more)[0] == 5 && (seq![5u8, 0u8] + more)[1] == 0);
    assert((seq![first, second] + more)[0] == first);
    assert((seq![5u8, second] + more)[0] == 5 && (seq![5u8, second] + more)[1] == second);
}

/// With an upstream that accepts, the handshake goes through: the greeting is sent and two
/// bytes are read, the request is sent and five bytes are read, the rest of the reply is read,
/// and the tunnel stands.
pub proof fn law_accepting_upstream_gives_a_tunnel(
    host: Seq<u8>,
    port: u16,
    kind: u8,
    length: u8,
    address: Seq<u8>,
)
    requires
        1 <= host.len() <= 255,
        kind == 1 || kind == 3 || kind == 4,
    ensures
        handshake_start() == (HandshakeActionView::Exchange {
            send: seq![5u8, 1u8, 0u8],
            expect: 2,
            phase: HandshakePhase::MethodReply,
        }),
        handshake_step(HandshakePhase::MethodReply, host, port, seq![5u8, 0u8]) matches
            HandshakeActionView::Exchange { send, expect, phase } && send == seq![
            5u8,
            1u8,
            0u8,
            3u8,
            host.len() as u8,
        ] + host + seq![(port / 256) as u8, (port % 256) as u8] && expect == 5 && phase
            == HandshakePhase::ConnectReply,
        handshake_step(
            HandshakePhase::ConnectReply,
            host,
            port,
            seq![5u8, 0u8, 0u8, kind, length],
        ) == (HandshakeActionView::Exchange {
            send: Seq::empty(),
            expect: if kind == 1 {
                5
            } else if kind == 4 {
                17
            } else {
                (length + 2) as nat
            },
            phase: HandshakePhase::BoundAddress,
        }),
        handshake_step(HandshakePhase::BoundAddress, host, port, address)
            == HandshakeActionView::Established,
{
    let reply = seq![5u8, 0u8];
    assert(reply[0] == 5 && reply[1] == 0);
    let head = seq![5u8, 0u8, 0u8, kind, length];
    assert(head[0] == 5 && head[1] == 0 && head[3] == kind && head[4] == length);
}

/// A handshake with an upstream that refuses in either reply fails with the refusal, and so
/// does one whose reply names no address that is known.
pub proof fn law_refusal_ends_the_handshake(
    host: Seq<u8>,
    port: u16,
    method: u8,
    code: u8,
    kind: u8,
    length: u8,
)
    ensures
        method != 0 ==> handshake_step(
            HandshakePhase::MethodReply,
            host,
            port,
            seq![5u8, method],
        ) == HandshakeActionView::Failed(Socks5Error::AuthRequired(method)),
        code != 0 ==> handshake_step(
            HandshakePhase::ConnectReply,
            host,
            port,
            seq![5u8, code, 0u8, kind, length],
        ) == HandshakeActionView::Failed(Socks5Error::Refused(code)),
        kind != 1 && kind != 3 && kind != 4 ==> handshake_step(
            HandshakePhase::ConnectReply,
            host,
            port,
            seq![5u8, 0u8, 0u8, kind, length],
        ) == HandshakeActionView::Failed(Socks5Error::UnknownAddressType),
{
    let reply = seq![5u8, method];
    assert(reply[0] == 5 && reply[1] == method);
    let refusal = seq![5u8, code, 0u8, kind, length];
    assert(refusal[0] == 5 && refusal[1] == code);
    let head = seq![5u8, 0u8, 0u8, kind, length];
    assert(head[0] == 5 && head[1] == 0 && head[3] == kind);
}

/// What an error says: the text for its kind, with the length in decimal or the byte in two
/// hexadecimal digits.
pub proof fn law_errors_say_what_is_wrong(len: usize, byte: u8)
    ensures
        Socks5Error::EmptyHost.message_of() == "SOCKS5 目标主机为空"@,
        Socks5Error::HostTooLong(len).message_of() == "SOCKS5 目标主机过长："@ + number::decimal(
            len as nat,
        ) + " 字节"@,
        Socks5Error::MethodReplyTooShort.message_of() == "SOCKS5 方法应答长度不足"@,
        Socks5Error::ConnectReplyTooShort.message_of() == "SOCKS5 CONNECT 应答长度不足"@,
        Socks5Error::UnsupportedVersion(byte).message_of() == "SOCKS5 版本不支持：0x"@
            + number::hex_byte(byte),
        Socks5Error::AuthRequired(byte).message_of() == "SOCKS5 上游要求认证方法 0x"@
            + number::hex_byte(byte),
        Socks5Error::UnknownAddressType.message_of() == "SOCKS5 应答地址类型未知"@,
        Socks5Error::Refused(byte).message_of() == "SOCKS5 上游拒绍："@ + (match byte {
            1 => "上游一般性故障"@,
            2 => "规则不允许"@,
            3 => "网络不可达"@,
            4 => "主机不可达"@,
            5 => "连接被拒绝"@,
            6 => "TTL 过期"@,
            7 => "不支持的命令"@,
            8 => "不支持的地址类型"@,
            _ => "未知错误"@,
        }),
{
}

} // verus!

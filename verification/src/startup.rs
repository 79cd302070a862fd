//! Getting the proxy to run: at most once in a process, on the one port that its clients
//! were told.
//!
//! A port that is taken is probed: a proxy of an earlier process answers under its own
//! path and is used again. Anything else on the port is an error; another port is never
//! taken instead.
use vstd::prelude::*;
use crate::managed_proxy;
use crate::number;
use crate::text;

verus! {

/// The request that asks whoever listens what it is.
pub open spec fn probe_request_of() -> Seq<char> {
    "GET "@ + managed_proxy::MANAGED_PROXY_ID_PATH@
        + " HTTP/1.1\r\nHost: 127.0.0.1\r\nConnection: close\r\n\r\n"@
}

/// The request that asks whoever listens what it is.
pub fn probe_request() -> (r: String)
    ensures
        r@ == probe_request_of(),
{
    let mut out: Vec<char> = Vec::new();
    text::push_text(&mut out, "GET ");
    text::push_text(&mut out, managed_proxy::MANAGED_PROXY_ID_PATH);
    text::push_text(&mut out, " HTTP/1.1\r\nHost: 127.0.0.1\r\nConnection: close\r\n\r\n");
    assert(out@ =~= probe_request_of());
    text::string_of(out.as_slice())
}

/// Whether an answer to the probe comes from a managed proxy.
pub open spec fn identifies_proxy(response: Seq<char>) -> bool {
    text::occurs(managed_proxy::MANAGED_PROXY_ID_BODY@, response)
}

/// Whether an answer to the probe comes from a managed proxy. `None` stands for a probe
/// that could not be sent or was not answered with text in time.
pub fn is_managed_proxy_response(response: Option<&str>) -> (r: bool)
    ensures
        r == match response {
            Some(response) => identifies_proxy(response@),
            None => false,
        },
{
    match response {
        Some(response) => {
            let cs = text::chars_of(response);
            let body = text::chars_of(managed_proxy::MANAGED_PROXY_ID_BODY);
            text::contains(cs.as_slice(), body.as_slice())
        },
        None => false,
    }
}

/// What to do next to get the proxy to run.
#[derive(Debug, Clone, Copy, PartialEq, Eq, Structural)]
pub enum StartupStep {
    /// The proxy runs in this process, on this port.
    Running(u16),
    /// A proxy of an earlier process listens on this port and is used.
    Reused(u16),
    /// Ask whoever listens on this port what it is.
    Probe(u16),
    /// Listen on this port.
    Listen(u16),
}

/// The first step, given the port of the proxy that runs in this process, if one does,
/// and the setting for the port.
pub open spec fn startup_of(running: Option<u16>, setting: Option<Seq<char>>) -> StartupStep {
    match running {
        Some(port) => StartupStep::Running(port),
        None => StartupStep::Probe(managed_proxy::proxy_port_of(setting)),
    }
}

/// Decides how to begin.
pub fn begin_startup(running: Option<u16>, setting: Option<&str>) -> (r: StartupStep)
    ensures
        r == startup_of(
            running,
            match setting {
                Some(value) => Some(value@),
                None => None,
            },
        ),
{
    match running {
        Some(port) => StartupStep::Running(port),
        None => StartupStep::Probe(managed_proxy::managed_proxy_port_for(setting)),
    }
}

/// The step after the probe of a port.
pub open spec fn probed_of(port: u16, is_proxy: bool) -> StartupStep {
    if is_proxy {
        StartupStep::Reused(port)
    } else {
        StartupStep::Listen(port)
    }
}

/// Decides how to go on after the probe of `port` told whether a proxy listens there.
pub fn after_probe(port: u16, is_proxy: bool) -> (r: StartupStep)
    ensures
        r == probed_of(port, is_proxy),
{
    if is_proxy {
        StartupStep::Reused(port)
    } else {
        StartupStep::Listen(port)
    }
}

/// The message for a port that cannot be listened on.
pub open spec fn listen_error_of(port: u16, reason: Seq<char>) -> Seq<char> {
    "受管代理无法监听 127.0.0.1:"@ + number::decimal(port as nat) + "："@ + reason
}

/// The message for a port that cannot be listened on.
pub fn listen_error(port: u16, reason: &str) -> (r: String)
    ensures
        r@ == listen_error_of(port, reason@),
{
    let mut out: Vec<char> = Vec::new();
    text::push_text(&mut out, "受管代理无法监听 127.0.0.1:");
    number::push_decimal(&mut out, port as u128);
    text::push_text(&mut out, "：");
    text::push_text(&mut out, reason);
    assert(out@ =~= listen_error_of(port, reason@));
    text::string_of(out.as_slice())
}

/// The message for a port that something else has taken.
pub open spec fn port_conflict_of(port: u16, reason: Seq<char>) -> Seq<char> {
    "受管代理端口 "@ + number::decimal(port as nat)
        + " 不可用（且不是本工具的旧实例）："@ + reason
        + "。请释放该端口，或用 CODEX_PLUS_MANAGED_PROXY_PORT 指定其他端口"@
}

/// The message for a port that something else has taken.
pub fn port_conflict(port: u16, reason: &str) -> (r: String)
    ensures
        r@ == port_conflict_of(port, reason@),
{
    let mut out: Vec<char> = Vec::new();
    text::push_text(&mut out, "受管代理端口 ");
    number::push_decimal(&mut out, port as u128);
    text::push_text(&mut out, " 不可用（且不是本工具的旧实例）：");
    text::push_text(&mut out, reason);
    text::push_text(
        &mut out,
        "。请释放该端口，或用 CODEX_PLUS_MANAGED_PROXY_PORT 指定其他端口",
    );
    assert(out@ =~= port_conflict_of(port, reason@));
    text::string_of(out.as_slice())
}

/// Decides how it ends after listening on `port` gave a port, or failed for the reason
/// that the system named.
pub fn after_listen(port: u16, listening: Result<u16, String>) -> (r: Result<u16, String>)
    ensures
        match listening {
            Ok(actual) => r == Ok::<u16, String>(actual),
            Err(reason) => r matches Err(message) && message@ == port_conflict_of(
                port,
                listen_error_of(port, reason@),
            ),
        },
{
    match listening {
        Ok(actual) => Ok(actual),
        Err(reason) => {
            let error = listen_error(port, reason.as_str());
            Err(port_conflict(port, error.as_str()))
        },
    }
}

/// A process that has no proxy yet ends up with one on the port that the setting names, or
/// with none: each step after the first keeps to that port.
pub proof fn law_one_port(setting: Option<Seq<char>>, is_proxy: bool)
    ensures
        startup_of(None, setting) == StartupStep::Probe(managed_proxy::proxy_port_of(setting)),
        probed_of(managed_proxy::proxy_port_of(setting), is_proxy) == StartupStep::Reused(
            managed_proxy::proxy_port_of(setting),
        ) || probed_of(managed_proxy::proxy_port_of(setting), is_proxy) == StartupStep::Listen(
            managed_proxy::proxy_port_of(setting),
        ),
        managed_proxy::proxy_port_of(setting) != 0,
{
}

/// A process that runs the proxy uses it again, whatever the setting.
pub proof fn law_running_proxy_is_kept(port: u16, setting: Option<Seq<char>>)
    ensures
        startup_of(Some(port), setting) == StartupStep::Running(port),
{
}

/// An answer comes from the proxy exactly if the name of the proxy stands in it somewhere.
pub proof fn law_proxy_is_known_by_its_name(front: Seq<char>, response: Seq<char>, back: Seq<char>)
    ensures
        identifies_proxy(front + "codex-plus-plus-managed-proxy"@ + back),
        identifies_proxy(response) ==> exists|a: Seq<char>, b: Seq<char>|
            response == #[trigger] (a + "codex-plus-plus-managed-proxy"@ + b),
{
    let name = "codex-plus-plus-managed-proxy"@;
    let whole = front + name + back;
    let k = front.len() as int;
    assert(whole.subrange(k, k + name.len()) =~= name);
    if identifies_proxy(response) {
        let i = choose|i: int|
            0 <= i && i + name.len() <= response.len() && #[trigger] response.subrange(
                i,
                i + name.len(),
            ) == name;
        let a = response.take(i);
        let b = response.skip(i + name.len());
        assert(response =~= a + name + b);
    }
}

/// The probe asks for the path under which the proxy tells what it is, in a whole request.
pub proof fn law_probe_reads_thus()
    ensures
        probe_request_of()
            == "GET /__managed_proxy_id HTTP/1.1\r\nHost: 127.0.0.1\r\nConnection: close\r\n\r\n"@,
{
    reveal_strlit("GET ");
    reveal_strlit("/__managed_proxy_id");
    reveal_strlit(" HTTP/1.1\r\nHost: 127.0.0.1\r\nConnection: close\r\n\r\n");
    reveal_strlit("GET /__managed_proxy_id HTTP/1.1\r\nHost: 127.0.0.1\r\nConnection: close\r\n\r\n");
    assert(probe_request_of()
        =~= "GET /__managed_proxy_id HTTP/1.1\r\nHost: 127.0.0.1\r\nConnection: close\r\n\r\n"@);
}

/// A port on which a proxy answers is used, and one on which none does is listened on.
pub proof fn law_probe_decides(port: u16)
    ensures
        probed_of(port, true) == StartupStep::Reused(port),
        probed_of(port, false) == StartupStep::Listen(port),
{
}

/// The messages for a port that cannot be used name the port and the reason.
pub proof fn law_port_errors_name_the_port(port: u16, reason: Seq<char>)
    ensures
        listen_error_of(port, reason) == "受管代理无法监听 127.0.0.1:"@ + number::decimal(
            port as nat,
        ) + "："@ + reason,
        port_conflict_of(port, reason) == "受管代理端口 "@ + number::decimal(port as nat)
            + " 不可用（且不是本工具的旧实例）："@ + reason
            + "。请释放该端口，或用 CODEX_PLUS_MANAGED_PROXY_PORT 指定其他端口"@,
{
}

} // verus!

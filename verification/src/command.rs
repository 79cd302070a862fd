//! The command line of the credential helper.
//!
//! `get managed-gateway` writes the token to standard output, for the engine to read.
//! `clear-managed-env` takes the managed block out of the engine's `.env` file.
use vstd::prelude::*;
use crate::credential::CredentialError;
use crate::managed_gateway;
use crate::text;

verus! {

/// What the helper is asked to do.
#[derive(Debug, Clone, Copy, PartialEq, Eq, Structural)]
pub enum Command {
    /// Write the token to standard output.
    Get,
    /// Take the managed block out of the `.env` file.
    ClearManagedEnv,
    /// Nothing that it knows: tell how it is used.
    Usage,
}

/// What arguments ask for.
pub open spec fn command_of(args: Seq<Seq<char>>) -> Command {
    if args == seq!["clear-managed-env"@] {
        Command::ClearManagedEnv
    } else if args == seq!["get"@, managed_gateway::MANAGED_GATEWAY_CREDENTIAL_TARGET@] {
        Command::Get
    } else {
        Command::Usage
    }
}

/// Whether a string reads `s`.
fn is_argument(arg: &String, s: &str) -> (r: bool)
    ensures
        r == (arg@ == s@),
{
    let cs = text::chars_of(arg.as_str());
    text::is_text(cs.as_slice(), s)
}

/// Reads the arguments of the helper.
pub fn parse_arguments(args: &[String]) -> (r: Command)
    ensures
        r == command_of(managed_gateway::string_views(args@)),
{
    let ghost views = managed_gateway::string_views(args@);
    if args.len() == 1 && is_argument(&args[0], "clear-managed-env") {
        assert(views =~= seq!["clear-managed-env"@]);
        return Command::ClearManagedEnv;
    }
    assert(views != seq!["clear-managed-env"@]) by {
        let wanted = seq!["clear-managed-env"@];
        if views == wanted {
            assert(views.len() == 1 && wanted[0] == args@[0]@);
        }
    }
    if args.len() == 2 && is_argument(&args[0], "get") && is_argument(
        &args[1],
        managed_gateway::MANAGED_GATEWAY_CREDENTIAL_TARGET,
    ) {
        assert(views =~= seq!["get"@, managed_gateway::MANAGED_GATEWAY_CREDENTIAL_TARGET@]);
        return Command::Get;
    }
    assert(views != seq!["get"@, managed_gateway::MANAGED_GATEWAY_CREDENTIAL_TARGET@]) by {
        let wanted = seq!["get"@, managed_gateway::MANAGED_GATEWAY_CREDENTIAL_TARGET@];
        if views == wanted {
            assert(views.len() == 2);
            assert(wanted[0] == args@[0]@);
            assert(wanted[1] == args@[1]@);
        }
    }
    Command::Usage
}

/// How the helper ends: what it writes, a line to each stream at most, and its exit code.
#[derive(Debug)]
pub struct Report {
    pub stdout: Option<String>,
    pub stderr: Option<String>,
    pub code: i32,
}

/// A `Report` as plain values.
pub type ReportView = (Option<Seq<char>>, Option<Seq<char>>, i32);

impl View for Report {
    type V = ReportView;

    open spec fn view(&self) -> ReportView {
        (
            match self.stdout {
                Some(line) => Some(line@),
                None => None,
            },
            match self.stderr {
                Some(line) => Some(line@),
                None => None,
            },
            self.code,
        )
    }
}

/// How the helper ends after it read the token. A failure is told without its cause.
pub open spec fn get_report_of(
    outcome: Result<Option<Seq<char>>, CredentialError>,
) -> ReportView {
    match outcome {
        Ok(Some(token)) => (Some(token), None, 0),
        Ok(None) => (None, Some("credential not found"@), 2),
        Err(_) => (None, Some("credential read failed"@), 2),
    }
}

/// How the helper ends after it read the token.
pub fn get_report(outcome: Result<Option<String>, CredentialError>) -> (r: Report)
    ensures
        r@ == get_report_of(
            match outcome {
                Ok(Some(token)) => Ok(Some(token@)),
                Ok(None) => Ok(None),
                Err(error) => Err(error),
            },
        ),
{
    match outcome {
        Ok(Some(token)) => Report { stdout: Some(token), stderr: None, code: 0 },
        Ok(None) => Report {
            stdout: None,
            stderr: Some("credential not found".to_owned()),
            code: 2,
        },
        Err(_) => Report {
            stdout: None,
            stderr: Some("credential read failed".to_owned()),
            code: 2,
        },
    }
}

/// How the helper is used.
pub open spec fn usage_of() -> Seq<char> {
    "usage: codex-plus-credential get "@ + managed_gateway::MANAGED_GATEWAY_CREDENTIAL_TARGET@
        + " | codex-plus-credential clear-managed-env"@
}

/// How the helper ends if it is asked for nothing that it knows.
pub fn usage_report() -> (r: Report)
    ensures
        r@ == (None::<Seq<char>>, Some(usage_of()), 2i32),
{
    let mut out: Vec<char> = Vec::new();
    text::push_text(&mut out, "usage: codex-plus-credential get ");
    text::push_text(&mut out, managed_gateway::MANAGED_GATEWAY_CREDENTIAL_TARGET);
    text::push_text(&mut out, " | codex-plus-credential clear-managed-env");
    assert(out@ =~= usage_of());
    Report { stdout: None, stderr: Some(text::string_of(out.as_slice())), code: 2 }
}

/// How the helper ends after it took the managed block out, or failed for a reason.
pub open spec fn clear_report_of(outcome: Result<(), Seq<char>>) -> ReportView {
    match outcome {
        Ok(()) => (None, None, 0),
        Err(reason) => (None, Some("clear managed env failed: "@ + reason), 1),
    }
}

/// How the helper ends after it took the managed block out, or failed for a reason.
pub fn clear_report(outcome: Result<(), String>) -> (r: Report)
    ensures
        r@ == clear_report_of(
            match outcome {
                Ok(()) => Ok(()),
                Err(reason) => Err(reason@),
            },
        ),
{
    match outcome {
        Ok(()) => Report { stdout: None, stderr: None, code: 0 },
        Err(reason) => {
            let mut out: Vec<char> = Vec::new();
            text::push_text(&mut out, "clear managed env failed: ");
            text::push_text(&mut out, reason.as_str());
            assert(out@ =~= "clear managed env failed: "@ + reason@);
            Report { stdout: None, stderr: Some(text::string_of(out.as_slice())), code: 1 }
        },
    }
}

/// Only a token that was read reaches standard output, and only then is the exit code of
/// `get` zero.
pub proof fn law_only_the_token_is_written(outcome: Result<Option<Seq<char>>, CredentialError>)
    ensures
        get_report_of(outcome).0 == (match outcome {
            Ok(token) => token,
            Err(_) => None,
        }),
        get_report_of(outcome).2 == 0 <==> get_report_of(outcome).0 is Some,
{
}

/// The token is read for the two words of `get` alone, the block is taken out for the one word
/// of `clear-managed-env` alone, and every other list of arguments asks for nothing.
pub proof fn law_two_lists_of_arguments_are_known(args: Seq<Seq<char>>)
    ensures
        args.len() == 2 && args[0] == "get"@ && args[1] == "managed-gateway"@ <==> command_of(args)
            == Command::Get,
        args.len() == 1 && args[0] == "clear-managed-env"@ <==> command_of(args)
            == Command::ClearManagedEnv,
{
    let clear = seq!["clear-managed-env"@];
    let get = seq!["get"@, "managed-gateway"@];
    assert(clear.len() == 1 && clear[0] == "clear-managed-env"@);
    assert(get.len() == 2 && get[0] == "get"@ && get[1] == "managed-gateway"@);
    if args.len() == 1 && args[0] == "clear-managed-env"@ {
        assert(args =~= clear);
    }
    if args.len() == 2 && args[0] == "get"@ && args[1] == "managed-gateway"@ {
        assert(args =~= get);
    }
}

/// What the helper writes and with which code it ends, in each case. A failure to read is
/// told in the same words whatever its cause.
pub proof fn law_reports_read_thus(token: Seq<char>, error: CredentialError, reason: Seq<char>)
    ensures
        get_report_of(Ok(Some(token))) == (Some(token), None::<Seq<char>>, 0i32),
        get_report_of(Ok(None)) == (None::<Seq<char>>, Some("credential not found"@), 2i32),
        get_report_of(Err(error)) == (None::<Seq<char>>, Some("credential read failed"@), 2i32),
        clear_report_of(Ok(())) == (None::<Seq<char>>, None::<Seq<char>>, 0i32),
        clear_report_of(Err(reason)) == (
            None::<Seq<char>>,
            Some("clear managed env failed: "@ + reason),
            1i32,
        ),
        usage_of()
            == "usage: codex-plus-credential get managed-gateway | codex-plus-credential clear-managed-env"@,
{
    reveal_strlit("usage: codex-plus-credential get ");
    reveal_strlit("managed-gateway");
    reveal_strlit(" | codex-plus-credential clear-managed-env");
    reveal_strlit(
        "usage: codex-plus-credential get managed-gateway | codex-plus-credential clear-managed-env",
    );
    assert(usage_of()
        =~= "usage: codex-plus-credential get managed-gateway | codex-plus-credential clear-managed-env"@);
}

} // verus!

//! What can go wrong with a tool server, and the states it can be in.

use vstd::prelude::*;
use vstd::string::*;
use crate::number;
use crate::number::show;
use crate::text::{cat2, cat3, cat5};

verus! {

/// Where the connection to a server stands.
#[derive(Debug, Clone, Copy, PartialEq, Eq, Structural)]
pub enum ServerState {
    NeedsApproval,
    /// It awaits a sign-in.
    NeedsAuth,
    /// It awaits a token that only the user can supply.
    NeedsToken,
    Connecting,
    Ready,
    /// It was lost or never came up; another attempt is due.
    Degraded,
    Reconnecting,
    /// It failed too often. A slow probe still revives it.
    Parked,
    /// It is configured in a way that no attempt can mend.
    Failed,
    Stopped,
    /// It is configured and switched off.
    Disabled,
}

impl ServerState {
    /// What the user reads.
    pub open spec fn label(self) -> Seq<char> {
        match self {
            ServerState::NeedsApproval => "awaiting approval"@,
            ServerState::NeedsAuth => "needs sign-in"@,
            ServerState::NeedsToken => "needs an API token"@,
            ServerState::Connecting => "connecting"@,
            ServerState::Ready => "ready"@,
            ServerState::Degraded => "degraded"@,
            ServerState::Reconnecting => "reconnecting"@,
            ServerState::Parked => "parked after repeated failures"@,
            ServerState::Failed => "failed"@,
            ServerState::Stopped => "stopped"@,
            ServerState::Disabled => "disabled"@,
        }
    }

    /// What the user reads.
    pub fn text(&self) -> (out: &'static str)
        ensures
            out@ == self.label(),
    {
        match self {
            ServerState::NeedsApproval => "awaiting approval",
            ServerState::NeedsAuth => "needs sign-in",
            ServerState::NeedsToken => "needs an API token",
            ServerState::Connecting => "connecting",
            ServerState::Ready => "ready",
            ServerState::Degraded => "degraded",
            ServerState::Reconnecting => "reconnecting",
            ServerState::Parked => "parked after repeated failures",
            ServerState::Failed => "failed",
            ServerState::Stopped => "stopped",
            ServerState::Disabled => "disabled",
        }
    }

    /// Whether the server takes calls.
    pub fn is_live(&self) -> (yes: bool)
        ensures
            yes == (*self is Ready),
    {
        match self {
            ServerState::Ready => true,
            _ => false,
        }
    }
}

#[allow(inconsistent_fields)]
pub enum Error {
    Disabled,
    UnknownServer(String),
    /// The server is known but takes no calls now.
    ServerNotReady { server: String, state: ServerState, detail: Option<String> },
    UnknownTool { server: String, tool: String },
    BadToolName(String),
    BadArguments { tool: String, reason: String },
    Unavailable { server: String, command: String, hint: String },
    EmptyCommand,
    NeedsAuth(String),
    NeedsToken(String),
    Auth(String),
    BadUrl(String),
    Sandbox(String),
    Spawn(String),
    Protocol(String),
    /// After this many milliseconds.
    Timeout(u64),
}

/// The digits behind the point, without trailing zeros, after thousandths.
pub open spec fn fraction(thousandths: nat) -> Seq<char> {
    if thousandths == 0 {
        seq![]
    } else if thousandths % 100 == 0 {
        seq!['.', number::digit(thousandths / 100)]
    } else if thousandths % 10 == 0 {
        seq!['.', number::digit(thousandths / 100), number::digit(thousandths / 10 % 10)]
    } else {
        seq![
            '.',
            number::digit(thousandths / 100),
            number::digit(thousandths / 10 % 10),
            number::digit(thousandths % 10),
        ]
    }
}

/// A time as it is shown: in seconds from one second on, else in milliseconds.
pub open spec fn time_text(ms: nat) -> Seq<char> {
    if ms == 0 {
        "0ns"@
    } else if ms < 1000 {
        number::decimal(ms) + "ms"@
    } else {
        number::decimal(ms / 1000) + fraction(ms % 1000) + "s"@
    }
}

fn digit_of(d: u64) -> (c: char)
    requires
        d < 10,
    ensures
        c == number::digit(d as nat),
{
    (48u8 + d as u8) as char
}

/// A time as it is shown.
pub fn show_time(ms: u64) -> (out: String)
    ensures
        out@ == time_text(ms as nat),
{
    if ms == 0 {
        return "0ns".to_owned();
    }
    if ms < 1000 {
        return cat2(show(ms).as_str(), "ms");
    }
    let mut out = show(ms / 1000);
    let ghost whole = out@;
    let t: u64 = ms % 1000;
    if t != 0 {
        out.push('.');
        out.push(digit_of(t / 100));
        if t % 100 != 0 {
            out.push(digit_of(t / 10 % 10));
            if t % 10 != 0 {
                out.push(digit_of(t % 10));
            }
        }
    }
    assert(out@ =~= whole + fraction(t as nat));
    out.append("s");
    out
}

impl Error {
    /// What the user reads.
    pub open spec fn message(self) -> Seq<char> {
        match self {
            Error::Disabled => "MCP is disabled"@,
            Error::UnknownServer(s) => "no MCP server named '"@ + s@ + "'"@,
            Error::ServerNotReady { server, state, detail } => "MCP server '"@ + server@ + "' is "@
                + state.label() + match detail {
                Some(d) => ": "@ + d@,
                None => seq![],
            },
            Error::UnknownTool { server, tool } => "'"@ + tool@
                + "' is not an exposed tool on MCP server '"@ + server@ + "'"@,
            Error::BadToolName(n) => "MCP tool name must be 'mcp__<server>__<tool>': "@ + n@,
            Error::BadArguments { tool, reason } => "invalid arguments for '"@ + tool@ + "': "@
                + reason@,
            Error::Unavailable { server, command, hint } => server@ + " is unavailable ("@
                + command@ + "); "@ + hint@,
            Error::EmptyCommand => "MCP command is empty"@,
            Error::NeedsAuth(s) => "MCP server '"@ + s@
                + "' needs authorization — connect it from /mcp or run `medha mcp auth "@ + s@
                + "`"@,
            Error::NeedsToken(s) => "MCP server '"@ + s@
                + "' needs an API token — add one with `medha mcp add "@ + s@
                + " --url <url> --bearer <token>`"@,
            Error::Auth(e) => "MCP authorization failed: "@ + e@,
            Error::BadUrl(e) => "invalid MCP server URL: "@ + e@,
            Error::Sandbox(e) => "MCP sandbox could not be prepared: "@ + e@,
            Error::Spawn(e) => "failed to start MCP server: "@ + e@,
            Error::Protocol(e) => "MCP request failed: "@ + e@,
            Error::Timeout(ms) => "MCP request timed out after "@ + time_text(ms as nat),
        }
    }

    /// What the user reads.
    pub fn text(&self) -> (out: String)
        ensures
            out@ == self.message(),
    {
        match self {
            Error::Disabled => "MCP is disabled".to_owned(),
            Error::UnknownServer(s) => cat3("no MCP server named '", s.as_str(), "'"),
            Error::ServerNotReady { server, state, detail } => {
                let mut out = cat3("MCP server '", server.as_str(), "' is ");
                out.append(state.text());
                let ghost so_far = out@;
                match detail {
                    Some(d) => {
                        out.append(": ");
                        out.append(d.as_str());
                        assert(out@ =~= so_far + (": "@ + d@));
                    },
                    None => {
                        assert(out@ =~= so_far + seq![]);
                    },
                }
                out
            },
            Error::UnknownTool { server, tool } => cat5(
                "'",
                tool.as_str(),
                "' is not an exposed tool on MCP server '",
                server.as_str(),
                "'",
            ),
            Error::BadToolName(n) => cat2(
                "MCP tool name must be 'mcp__<server>__<tool>': ",
                n.as_str(),
            ),
            Error::BadArguments { tool, reason } => {
                let mut out = cat3("invalid arguments for '", tool.as_str(), "': ");
                out.append(reason.as_str());
                out
            },
            Error::Unavailable { server, command, hint } => cat5(
                server.as_str(),
                " is unavailable (",
                command.as_str(),
                "); ",
                hint.as_str(),
            ),
            Error::EmptyCommand => "MCP command is empty".to_owned(),
            Error::NeedsAuth(s) => cat5(
                "MCP server '",
                s.as_str(),
                "' needs authorization — connect it from /mcp or run `medha mcp auth ",
                s.as_str(),
                "`",
            ),
            Error::NeedsToken(s) => cat5(
                "MCP server '",
                s.as_str(),
                "' needs an API token — add one with `medha mcp add ",
                s.as_str(),
                " --url <url> --bearer <token>`",
            ),
            Error::Auth(e) => cat2("MCP authorization failed: ", e.as_str()),
            Error::BadUrl(e) => cat2("invalid MCP server URL: ", e.as_str()),
            Error::Sandbox(e) => cat2("MCP sandbox could not be prepared: ", e.as_str()),
            Error::Spawn(e) => cat2("failed to start MCP server: ", e.as_str()),
            Error::Protocol(e) => cat2("MCP request failed: ", e.as_str()),
            Error::Timeout(ms) => cat2("MCP request timed out after ", show_time(*ms).as_str()),
        }
    }

    /// The configuration is at fault, so that no other attempt can help.
    pub open spec fn terminal(self) -> bool {
        self is EmptyCommand || self is Unavailable || self is Sandbox || self is BadUrl
    }

    /// Whether the configuration is at fault.
    pub fn is_terminal(&self) -> (yes: bool)
        ensures
            yes == self.terminal(),
    {
        match self {
            Error::EmptyCommand => true,
            Error::Unavailable { .. } => true,
            Error::Sandbox(_) => true,
            Error::BadUrl(_) => true,
            _ => false,
        }
    }

    /// The state of the server that the error is about.
    pub fn server_state(&self) -> (out: Option<ServerState>)
        ensures
            out == match *self {
                Error::ServerNotReady { state, .. } => Some(state),
                _ => None,
            },
    {
        match self {
            Error::ServerNotReady { state, .. } => Some(*state),
            _ => None,
        }
    }
}

} // verus!

//! What can go wrong with a language server.

use vstd::prelude::*;
use vstd::string::*;
use crate::number;
use crate::number::show;
use crate::text::{cat2, cat3, cat5};

verus! {

#[allow(inconsistent_fields)]
pub enum Error {
    Disabled,
    OutsideWorkspace(String),
    EmptyCommand,
    UnsupportedFile(String),
    AmbiguousServers(String),
    Capacity(usize),
    ApprovalRequired { server: String, root: String, command: Vec<String> },
    Spawn(String),
    ServerUnavailable { server: String, command: String, hint: String },
    Io(String),
    Timeout(String),
    Disconnected,
    Protocol(String),
    Sandbox(String),
    InvalidFileUri(String),
}

impl Error {
    /// What the user reads.
    pub open spec fn message(self) -> Seq<char> {
        match self {
            Error::Disabled => "LSP is disabled"@,
            Error::OutsideWorkspace(p) => "path is outside the workspace: "@ + p@,
            Error::EmptyCommand => "LSP command is empty"@,
            Error::UnsupportedFile(p) => "no configured language server for: "@ + p@,
            Error::AmbiguousServers(ids) => {
                "multiple project language servers match; specify one of: "@ + ids@
            },
            Error::Capacity(n) => "language-server capacity reached ("@ + number::decimal(n as nat)
                + ")"@,
            Error::ApprovalRequired { server, root, .. } => "language server '"@ + server@
                + "' requires approval before starting in "@ + root@,
            Error::Spawn(e) => "failed to start language server: "@ + e@,
            Error::ServerUnavailable { server, command, hint } => server@ + " is unavailable ("@
                + command@ + "); "@ + hint@,
            Error::Io(e) => "language server I/O failed: "@ + e@,
            Error::Timeout(m) => "language server request timed out: "@ + m@,
            Error::Disconnected => "language server disconnected"@,
            Error::Protocol(e) => "language server rejected request: "@ + e@,
            Error::Sandbox(e) => "language-server sandbox could not be prepared: "@ + e@,
            Error::InvalidFileUri(p) => "invalid file URI: "@ + p@,
        }
    }

    /// What the user reads.
    pub fn text(&self) -> (out: String)
        ensures
            out@ == self.message(),
    {
        match self {
            Error::Disabled => "LSP is disabled".to_owned(),
            Error::OutsideWorkspace(p) => cat2("path is outside the workspace: ", p.as_str()),
            Error::EmptyCommand => "LSP command is empty".to_owned(),
            Error::UnsupportedFile(p) => cat2("no configured language server for: ", p.as_str()),
            Error::AmbiguousServers(ids) => cat2(
                "multiple project language servers match; specify one of: ",
                ids.as_str(),
            ),
            Error::Capacity(n) => cat3(
                "language-server capacity reached (",
                show(*n as u64).as_str(),
                ")",
            ),
            Error::ApprovalRequired { server, root, .. } => {
                let mut out = cat3(
                    "language server '",
                    server.as_str(),
                    "' requires approval before starting in ",
                );
                out.append(root.as_str());
                out
            },
            Error::Spawn(e) => cat2("failed to start language server: ", e.as_str()),
            Error::ServerUnavailable { server, command, hint } => cat5(
                server.as_str(),
                " is unavailable (",
                command.as_str(),
                "); ",
                hint.as_str(),
            ),
            Error::Io(e) => cat2("language server I/O failed: ", e.as_str()),
            Error::Timeout(m) => cat2("language server request timed out: ", m.as_str()),
            Error::Disconnected => "language server disconnected".to_owned(),
            Error::Protocol(e) => cat2("language server rejected request: ", e.as_str()),
            Error::Sandbox(e) => cat2(
                "language-server sandbox could not be prepared: ",
                e.as_str(),
            ),
            Error::InvalidFileUri(p) => cat2("invalid file URI: ", p.as_str()),
        }
    }
}

} // verus!

//! Connecting a server that the user asked for, and signing in to it.

use vstd::prelude::*;
use vstd::string::*;
use crate::mcp::errors::{Error, ServerState};
use crate::mcp::launch::Transport;
use crate::mcp::manager;
use crate::mcp::manager::{McpManager, ServerStatus, SlotView};
use crate::number;
use crate::number::show;
use crate::text::cat3;

verus! {

/// The address to which a provider sends the browser back.
pub fn redirect_address(port: u16) -> (out: String)
    ensures
        out@ == "http://127.0.0.1:"@ + number::decimal(port as nat) + "/callback"@,
{
    cat3("http://127.0.0.1:", show(port as u64).as_str(), "/callback")
}

/// The response that shows a page to the browser. Its length is counted in bytes.
pub fn callback_response(page: &str) -> (out: String)
    ensures
        out@ == "HTTP/1.1 200 OK\r\nContent-Type: text/html; charset=utf-8\r\nContent-Length: "@
            + number::decimal(page.len() as nat) + "\r\nConnection: close\r\n\r\n"@ + page@,
{
    let n: usize = page.len();
    let mut out = cat3(
        "HTTP/1.1 200 OK\r\nContent-Type: text/html; charset=utf-8\r\nContent-Length: ",
        show(n as u64).as_str(),
        "\r\nConnection: close\r\n\r\n",
    );
    out.append(page);
    out
}

/// What follows an attempt to connect a server that the user asked for.
pub enum Attempt {
    /// The user is to sign in.
    SignIn,
    Done(ServerStatus),
    Failed(Error),
}

impl McpManager {
    /// Begins to connect a server that the user asked for: its failures are forgotten. One
    /// that is switched off is never connected. Whether it had a connection, which is to be shut down first.
    pub fn approve_and_connect(&mut self, id: &str) -> (out: Result<bool, Error>)
        requires
            old(self).wf(),
        ensures
            final(self).wf(),
            final(self).config == old(self).config,
            final(self).tools == old(self).tools,
            match old(self).place(id@) {
                Some(i) if manager::slots(old(self).servers@)[i].config.disabled => {
                    &&& out matches Err(e) && manager::switched_off(e, id@)
                    &&& final(self).servers == old(self).servers
                },
                Some(i) => {
                    let s = manager::slots(old(self).servers@)[i];
                    &&& out matches Ok(b) && b == s.connected
                    &&& manager::slots(final(self).servers@) == manager::slots(
                        old(self).servers@,
                    ).update(
                        i,
                        SlotView {
                            state: if s.connected {
                                ServerState::Reconnecting
                            } else {
                                ServerState::Connecting
                            },
                            failures: 0,
                            retry_at: None,
                            ..manager::detached(s)
                        },
                    )
                },
                None => {
                    &&& out matches Err(Error::UnknownServer(s)) && s@ == id@
                    &&& final(self).servers == old(self).servers
                },
            },
    {
        let ghost start = manager::slots(self.servers@);
        if self.is_off(id) {
            return self.begin_connect(id);
        }
        match self.approve(id) {
            Ok(_) => {},
            Err(e) => {
                return Err(e);
            },
        }
        proof {
            let now = manager::slots(self.servers@);
            manager::lemma_slot_at(start, id@, 0);
            manager::lemma_slot_at(now, id@, 0);
            let i = old(self).place(id@)->0;
            assert(now[i].config.id@ == id@);
            let j = self.place(id@)->0;
            assert(start[j].config.id@ == id@);
        }
        let out = self.begin_connect(id);
        proof {
            let i = old(self).place(id@)->0;
            let s = start[i];
            assert(manager::slots(self.servers@) =~= start.update(
                i,
                SlotView {
                    state: if s.connected {
                        ServerState::Reconnecting
                    } else {
                        ServerState::Connecting
                    },
                    failures: 0,
                    retry_at: None,
                    ..manager::detached(s)
                },
            ));
        }
        out
    }

    /// What follows the attempt. Only where the user can be shown an address is a
    /// server that wants a sign-in signed in to; otherwise that is its failure.
    pub fn after_connect(&self, id: &str, outcome: Result<(), Error>, announced: bool) -> (out:
        Attempt)
        ensures
            match outcome {
                Ok(_) => match self.place(id@) {
                    Some(i) => out matches Attempt::Done(s) && s@ == manager::status_of(
                        manager::slots(self.servers@)[i],
                        self.tools@,
                    ),
                    None => out matches Attempt::Failed(Error::UnknownServer(s)) && s@ == id@,
                },
                Err(e) => if e is NeedsAuth && announced {
                    out is SignIn
                } else {
                    out == Attempt::Failed(e)
                },
            },
    {
        match outcome {
            Ok(_) => match self.server_status(id) {
                Ok(s) => Attempt::Done(s),
                Err(e) => Attempt::Failed(e),
            },
            Err(Error::NeedsAuth(s)) => if announced {
                Attempt::SignIn
            } else {
                Attempt::Failed(Error::NeedsAuth(s))
            },
            Err(e) => Attempt::Failed(e),
        }
    }

    /// Begins a sign-in: the address, or why there is none. `has_store` says whether
    /// credentials can be kept.
    pub fn authorize(&mut self, id: &str, has_store: bool) -> (out: Result<String, Error>)
        requires
            old(self).wf(),
        ensures
            final(self).wf(),
            final(self).config == old(self).config,
            final(self).tools == old(self).tools,
            match old(self).place(id@) {
                Some(i) if manager::slots(old(self).servers@)[i].config.disabled => {
                    &&& out matches Err(e) && manager::switched_off(e, id@)
                    &&& final(self).servers == old(self).servers
                },
                Some(i) => {
                    let s = manager::slots(old(self).servers@)[i];
                    match s.config.transport {
                        Transport::Remote { url, auth } => if !(auth is OAuth || auth is Auto) {
                            &&& out matches Err(Error::Auth(m)) && m@ == "'"@ + id@
                                + "' is not a remote server; nothing to sign in to"@
                            &&& final(self).servers == old(self).servers
                        } else if !has_store {
                            &&& out matches Err(Error::Auth(m)) && m@
                                == "no credential store is configured"@
                            &&& final(self).servers == old(self).servers
                        } else {
                            &&& out matches Ok(u) && u@ == url@
                            &&& manager::slots(final(self).servers@) == manager::slots(
                                old(self).servers@,
                            ).update(
                                i,
                                SlotView {
                                    state: ServerState::Connecting,
                                    detail: Some("signing in…"@),
                                    ..s
                                },
                            )
                        },
                        _ => {
                            &&& out matches Err(Error::Auth(m)) && m@ == "'"@ + id@
                                + "' is not a remote server; nothing to sign in to"@
                            &&& final(self).servers == old(self).servers
                        },
                    }
                },
                None => {
                    &&& out matches Err(Error::UnknownServer(s)) && s@ == id@
                    &&& final(self).servers == old(self).servers
                },
            },
    {
        match self.sign_in_address(id, has_store) {
            Ok(url) => {
                self.set_state(id, ServerState::Connecting, Some("signing in…".to_owned()));
                Ok(url)
            },
            Err(e) => Err(e),
        }
    }

    /// A sign-in failed: the server still awaits one, and says why.
    pub fn sign_in_failed(&mut self, id: &str, error: &Error)
        requires
            old(self).wf(),
        ensures
            final(self).wf(),
            final(self).config == old(self).config,
            final(self).tools == old(self).tools,
            manager::slots(final(self).servers@) == match old(self).place(id@) {
                Some(i) => manager::slots(old(self).servers@).update(
                    i,
                    SlotView {
                        state: ServerState::NeedsAuth,
                        detail: Some(error.message()),
                        ..manager::slots(old(self).servers@)[i]
                    },
                ),
                None => manager::slots(old(self).servers@),
            },
    {
        self.set_state(id, ServerState::NeedsAuth, Some(error.text()));
    }
}

} // verus!

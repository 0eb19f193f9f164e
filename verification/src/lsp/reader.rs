//! What a server's messages do to a client, one by one, and how requests end.

use vstd::prelude::*;
use vstd::string::*;
use crate::json::{Json, JsonView};
use crate::json_text;
use crate::lsp::errors::Error;
use crate::lsp::types;
use crate::lsp::wire;
use crate::lsp::wire::{
    answer, cancel_message, publication, response_result, Publication, Published, Requests,
};
use crate::paths;

verus! {

/// What a client knows of its server.
pub struct Reader {
    pub root: String,
    pub settings: Json,
    pub requests: Requests,
    pub published: Published,
    pub sync_kind: u64,
    pub alive: bool,
}

/// What a message came to.
pub struct Received {
    /// The request that it answers.
    pub settled: Option<i64>,
    /// The answer that the server gets.
    pub reply: Option<Json>,
    /// What it publishes. Its path is to be made the file system's own before it is
    /// recorded.
    pub publication: Option<Publication>,
}

/// How the wait for a response ended.
pub enum Ending {
    Response(Json),
    /// The request could not be sent.
    NotSent(Error),
    /// The server is gone.
    Gone,
    TimedOut,
}

impl Reader {
    /// A client of a server that was just started. Until the server says otherwise,
    /// documents are sent whole.
    pub fn new(root: String, settings: Json) -> (out: Reader)
        ensures
            out.requests.wf(),
            out.root == root,
            out.settings == settings,
            out.requests.next_id == 1,
            out.requests.pending@ == Seq::<i64>::empty(),
            out.published.sequence == 0,
            forall|p: Seq<char>| (#[trigger] out.published.at(p)) is None,
            out.sync_kind == 1,
            out.alive,
    {
        Reader {
            root,
            settings,
            requests: Requests::new(),
            published: Published::new(),
            sync_kind: 1,
            alive: true,
        }
    }

    /// The message is the response to a request that is awaited.
    pub open spec fn awaits(self, message: JsonView) -> bool {
        message.field("method"@) is None && match message.get("id"@).integer() {
            Some(id) => self.requests.pending@.contains(id as i64),
            None => false,
        }
    }

    /// Takes a message of the server: a response settles the request it belongs to, a
    /// request is answered, and findings are handed on.
    pub fn receive(&mut self, message: &Json) -> (out: Received)
        requires
            old(self).requests.wf(),
        ensures
            final(self).requests.wf(),
            final(self).root == old(self).root,
            final(self).settings == old(self).settings,
            final(self).published == old(self).published,
            final(self).alive == old(self).alive,
            final(self).requests.next_id == old(self).requests.next_id,
            match out.settled {
                Some(id) => {
                    &&& old(self).awaits(message@)
                    &&& message@.get("id"@).integer() == Some(id as int)
                    &&& final(self).requests.pending@ == old(self).requests.pending@.filter(
                        wire::but(id),
                    )
                },
                None => {
                    &&& !old(self).awaits(message@)
                    &&& final(self).requests.pending@ == old(self).requests.pending@
                },
            },
            types::json_view(out.reply) == wire::answer_to(
                message@,
                old(self).root@,
                old(self).settings@,
            ),
            final(self).sync_kind == wire::sync_kind_after(message@, old(self).sync_kind),
            match out.publication {
                Some(p) => wire::publication_in(message@) == Some(p@),
                None => wire::publication_in(message@) is None,
            },
    {
        let settled = self.requests.settle(message);
        let (reply, kind) = answer(message, self.root.as_str(), &self.settings, self.sync_kind);
        self.sync_kind = kind;
        Received { settled, reply, publication: publication(message) }
    }

    /// Records findings under the file system's own path.
    pub fn record(&mut self, path: String, found: Publication)
        requires
            old(self).requests.wf(),
            old(self).published.sequence < u64::MAX,
        ensures
            final(self).requests == old(self).requests,
            final(self).root == old(self).root,
            final(self).settings == old(self).settings,
            final(self).sync_kind == old(self).sync_kind,
            final(self).alive == old(self).alive,
            final(self).published.sequence == old(self).published.sequence + 1,
            final(self).published.at(path@) matches Some(s) && s.sequence
                == final(self).published.sequence && s.version == found.version && s.diagnostics
                == found.diagnostics,
            forall|p: Seq<char>|
                !paths::same_place(p, path@) ==> #[trigger] final(self).published.at(p) == old(
                    self,
                ).published.at(p),
    {
        self.published.record(path, found.version, found.diagnostics);
    }

    /// The server's output ended: nothing is awaited any more.
    pub fn close(&mut self)
        requires
            old(self).requests.wf(),
        ensures
            final(self).requests.wf(),
            final(self).requests.pending@ == Seq::<i64>::empty(),
            final(self).requests.next_id == old(self).requests.next_id,
            final(self).published == old(self).published,
            final(self).root == old(self).root,
            final(self).settings == old(self).settings,
            final(self).sync_kind == old(self).sync_kind,
            !final(self).alive,
    {
        self.requests.clear();
        self.alive = false;
    }

    /// Whether the server has published anything yet.
    pub fn is_published(&self) -> (yes: bool)
        ensures
            yes == (self.published.sequence > 0),
    {
        self.published.sequence > 0
    }

    /// What a request came to, and the message that cancels it where it was given up.
    /// A request that was not sent or was given up is awaited no longer.
    pub fn conclude(&mut self, id: i64, method: &str, ending: Ending) -> (out: (
        Result<Json, Error>,
        Option<Json>,
    ))
        requires
            old(self).requests.wf(),
        ensures
            final(self).requests.wf(),
            final(self).requests.next_id == old(self).requests.next_id,
            final(self).published == old(self).published,
            final(self).root == old(self).root,
            final(self).settings == old(self).settings,
            final(self).sync_kind == old(self).sync_kind,
            final(self).alive == old(self).alive,
            final(self).requests.pending@ == (if ending is NotSent || ending is TimedOut {
                old(self).requests.pending@.filter(wire::but(id))
            } else {
                old(self).requests.pending@
            }),
            match ending {
                Ending::Response(r) => out.1 is None && match r@.field("error"@) {
                    Some(e) => out.0 matches Err(Error::Protocol(m)) && m@ == json_text::rendered(
                        e,
                    ),
                    None => out.0 matches Ok(v) && v@ == r@.get("result"@),
                },
                Ending::NotSent(e) => out.1 is None && out.0 == Err::<Json, Error>(e),
                Ending::Gone => out.1 is None && out.0 == Err::<Json, Error>(Error::Disconnected),
                Ending::TimedOut => {
                    &&& out.1 matches Some(m) && m@ == wire::notification(
                        "$/cancelRequest"@,
                        JsonView::Object(seq![("id"@, wire::number_json(id as int))]),
                    )
                    &&& out.0 matches Err(Error::Timeout(m)) && m@ == method@
                },
            },
    {
        match ending {
            Ending::Response(r) => match response_result(&r) {
                Ok(v) => (Ok(v), None),
                Err(e) => (Err(Error::Protocol(e)), None),
            },
            Ending::NotSent(e) => {
                self.requests.forget(id);
                (Err(e), None)
            },
            Ending::Gone => (Err(Error::Disconnected), None),
            Ending::TimedOut => {
                self.requests.forget(id);
                (Err(Error::Timeout(method.to_owned())), Some(cancel_message(id)))
            },
        }
    }
}

/// A response is taken once: the request that it settles is awaited no longer, so the
/// same message settles nothing more.
pub proof fn law_responses_settle_once(before: Reader, after: Reader, message: JsonView, id: i64)
    requires
        before.requests.wf(),
        before.awaits(message),
        message.get("id"@).integer() == Some(id as int),
        after.requests.pending@ == before.requests.pending@.filter(wire::but(id)),
    ensures
        !after.awaits(message),
        forall|other: i64|
            other != id ==> (#[trigger] after.requests.pending@.contains(other)
                == before.requests.pending@.contains(other)),
{
    let all = before.requests.pending@;
    let left = after.requests.pending@;
    assert forall|x: i64| #[trigger] left.contains(x) implies x != id && all.contains(x) by {
        let i = left.index_of(x);
        all.lemma_filter_pred(wire::but(id), i);
        all.lemma_filter_contains_rev(wire::but(id), x);
    }
    assert forall|other: i64| other != id implies (#[trigger] left.contains(other)
        == all.contains(other)) by {
        if all.contains(other) {
            let i = all.index_of(other);
            all.lemma_filter_contains(wire::but(id), i);
        }
    }
}

} // verus!

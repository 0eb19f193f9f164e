//! The messages between the client and a language server.

use vstd::prelude::*;
use vstd::string::*;
use crate::json;
use crate::json::{array, object2, object3, object4, string, Json, JsonView};
use crate::json_text;
use crate::json_text::render;
use crate::lsp::parse;
use crate::lsp::parse::{
    parse_diagnostics, registered_sync_kind, resolve_configuration_section,
};
use crate::lsp::types;
use crate::lsp::types::{Diagnostic, DiagnosticView};
use crate::number;
use crate::number::{parse_up_to, show};
use crate::paths;
use crate::paths::{path_file_name, same_path};
use crate::text;
use crate::text::{cat3, char_position_from, chars_of, lower_text, same, text_slice, trimmed};
use crate::urls;
use crate::urls::{file_address, file_path};

verus! {

/// What one header line does to the reading of a frame.
pub enum HeaderStep {
    /// The headers go on; the length that they gave so far.
    More(Option<usize>),
    /// The headers are over; the payload has this many bytes.
    Payload(usize),
    /// The length is no number of bytes.
    BadLength,
    /// The headers are over and gave no length.
    NoLength,
}

/// The value of a header line that gives the length of the payload.
pub open spec fn length_value(line: Seq<char>) -> Option<Seq<char>> {
    match text::find_char(line, ':') {
        Some(i) => if text::lowered(line.take(i)) == "content-length"@ {
            Some(line.skip(i + 1))
        } else {
            None
        },
        None => None,
    }
}

/// What one header line does: an empty line ends the headers, and the last length
/// given counts.
pub open spec fn header_step(seen: Option<usize>, line: Seq<char>) -> HeaderStep {
    if line == "\r\n"@ || line == "\n"@ {
        match seen {
            Some(n) => HeaderStep::Payload(n),
            None => HeaderStep::NoLength,
        }
    } else {
        match length_value(line) {
            Some(v) => match number::parsed(text::trim(v), usize::MAX as nat) {
                Some(n) => HeaderStep::More(Some(n as usize)),
                None => HeaderStep::BadLength,
            },
            None => HeaderStep::More(seen),
        }
    }
}

/// Reads one header line, line end included.
pub fn read_header(seen: Option<usize>, line: &str) -> (out: HeaderStep)
    ensures
        out == header_step(seen, line@),
{
    if same(line, "\r\n") || same(line, "\n") {
        return match seen {
            Some(n) => HeaderStep::Payload(n),
            None => HeaderStep::NoLength,
        };
    }
    let x = chars_of(line);
    let n: usize = x.len();
    match char_position_from(&x, ':', 0) {
        Some(i) => {
            proof {
                text::lemma_find_char_from(line@, ':', 0);
            }
            let name = text_slice(&x, 0, i);
            assert(x@.subrange(0, i as int) =~= line@.take(i as int));
            if same(lower_text(name.as_str()).as_str(), "content-length") {
                let value = text_slice(&x, i + 1, n);
                assert(x@.subrange(i + 1, x@.len() as int) =~= line@.skip(i + 1));
                match parse_up_to(trimmed(value.as_str()).as_str(), usize::MAX as u64) {
                    Some(n) => HeaderStep::More(Some(n as usize)),
                    None => HeaderStep::BadLength,
                }
            } else {
                HeaderStep::More(seen)
            }
        },
        None => HeaderStep::More(seen),
    }
}

/// The line that gives the length of a payload.
pub open spec fn length_line(n: nat) -> Seq<char> {
    "Content-Length: "@ + number::decimal(n) + "\r\n"@
}

/// What stands before a payload of `n` bytes.
pub fn frame_header(n: usize) -> (out: String)
    ensures
        out@ == length_line(n as nat) + "\r\n"@,
{
    let mut out = cat3("Content-Length: ", show(n as u64).as_str(), "\r\n");
    out.append("\r\n");
    out
}

/// The headers of a written frame read back as its length.
pub proof fn law_frame_length_round_trip(n: usize, seen: Option<usize>)
    ensures
        header_step(seen, length_line(n as nat)) == HeaderStep::More(Some(n)),
        header_step(Some(n), "\r\n"@) == HeaderStep::Payload(n),
{
    let line = length_line(n as nat);
    let digits = number::decimal(n as nat);
    reveal_strlit("Content-Length: ");
    reveal_strlit("content-length");
    reveal_strlit("\r\n");
    reveal_strlit("\n");
    number::lemma_decimal_parses(n as nat);
    assert(line[14] == ':');
    assert forall|i: int| 0 <= i < 14 implies line[i] != ':' by {
        assert(line[i] == "Content-Length: "@[i]);
    }
    text::lemma_find_char_from(line, ':', 0);
    assert(text::find_char(line, ':') == Some(14int));
    assert(text::lowered(line.take(14)) =~= "content-length"@);
    let v = line.skip(15);
    assert(v =~= seq![' '] + digits + seq!['\r', '\n']);
    assert(v[0] == ' ');
    let w = v.drop_first();
    assert(w =~= digits + seq!['\r', '\n']);
    assert(w[0] == digits[0]);
    assert(!text::is_white(w[0]));
    assert(text::trim_start(w) == w);
    assert(text::trim_start(v) == w);
    let a = w.drop_last();
    assert(a =~= digits + seq!['\r']);
    let b = a.drop_last();
    assert(b =~= digits);
    assert(!text::is_white(digits.last()));
    assert(text::trim_end(digits) == digits);
    assert(text::trim_end(a) == digits);
    assert(text::trim_end(w) == digits);
}

/// A request to a server.
pub open spec fn request(id: int, method: Seq<char>, params: JsonView) -> JsonView {
    JsonView::Object(
        seq![
            ("jsonrpc"@, JsonView::Text("2.0"@)),
            ("id"@, number_json(id)),
            ("method"@, JsonView::Text(method)),
            ("params"@, params),
        ],
    )
}

/// A whole number.
pub open spec fn number_json(n: int) -> JsonView {
    if n < 0 {
        JsonView::Negative(n as i64)
    } else {
        JsonView::Unsigned(n as u64)
    }
}

fn number_value(n: i64) -> (out: Json)
    ensures
        out@ == number_json(n as int),
{
    if n < 0 {
        Json::Negative(n)
    } else {
        Json::Unsigned(n as u64)
    }
}

/// A notification to a server.
pub open spec fn notification(method: Seq<char>, params: JsonView) -> JsonView {
    JsonView::Object(
        seq![
            ("jsonrpc"@, JsonView::Text("2.0"@)),
            ("method"@, JsonView::Text(method)),
            ("params"@, params),
        ],
    )
}

/// A notification to a server.
pub fn notification_message(method: &str, params: Json) -> (out: Json)
    ensures
        out@ == notification(method@, params@),
{
    object3("jsonrpc", string("2.0"), "method", string(method), "params", params)
}

/// The notification that takes a request back.
pub fn cancel_message(id: i64) -> (out: Json)
    ensures
        out@ == notification(
            "$/cancelRequest"@,
            JsonView::Object(seq![("id"@, number_json(id as int))]),
        ),
{
    notification_message("$/cancelRequest", json::object1("id", number_value(id)))
}

/// The result of a response, or the text of the error that it holds.
pub fn response_result(response: &Json) -> (out: Result<Json, String>)
    ensures
        match out {
            Ok(v) => response@.field("error"@) is None && v@ == response@.get("result"@),
            Err(e) => response@.field("error"@) matches Some(x) && e@ == json_text::rendered(x),
        },
{
    match response.field("error") {
        Some(e) => Err(render(e)),
        None => Ok(
            match response.field("result") {
                Some(v) => v.copy(),
                None => Json::Null,
            },
        ),
    }
}

/// The requests that await a response.
pub struct Requests {
    pub next_id: i64,
    pub pending: Vec<i64>,
}

/// Accepts every number but `id`.
pub open spec fn but(id: i64) -> spec_fn(i64) -> bool {
    |x: i64| x != id
}

impl Requests {
    /// Each awaited response has a number of its own, below the next one.
    pub open spec fn wf(self) -> bool {
        &&& self.pending@.no_duplicates()
        &&& forall|i: int|
            0 <= i < self.pending@.len() ==> (#[trigger] self.pending@[i]) < self.next_id
    }

    pub fn new() -> (out: Requests)
        ensures
            out.wf(),
            out.next_id == 1,
            out.pending@ == Seq::<i64>::empty(),
    {
        Requests { next_id: 1, pending: Vec::new() }
    }

    /// A new request: its number and its message.
    pub fn begin(&mut self, method: &str, params: Json) -> (out: (i64, Json))
        requires
            old(self).wf(),
            old(self).next_id < i64::MAX,
        ensures
            final(self).wf(),
            out.0 == old(self).next_id,
            out.1@ == request(out.0 as int, method@, params@),
            final(self).next_id == old(self).next_id + 1,
            final(self).pending@ == old(self).pending@.push(out.0),
    {
        let id: i64 = self.next_id;
        self.next_id = id + 1;
        self.pending.push(id);
        (
            id,
            object4(
                "jsonrpc",
                string("2.0"),
                "id",
                number_value(id),
                "method",
                string(method),
                "params",
                params,
            ),
        )
    }

    /// Stops awaiting a response; whether it was awaited.
    pub fn forget(&mut self, id: i64) -> (was: bool)
        requires
            old(self).wf(),
        ensures
            final(self).wf(),
            was == old(self).pending@.contains(id),
            final(self).next_id == old(self).next_id,
            final(self).pending@ == old(self).pending@.filter(but(id)),
            !final(self).pending@.contains(id),
    {
        let ghost all = self.pending@;
        let mut left: Vec<i64> = Vec::new();
        let mut was = false;
        let mut i: usize = 0;
        proof {
            reveal(Seq::filter);
            assert(left@ =~= all.take(0).filter(but(id)));
        }
        while i < self.pending.len()
            invariant
                i <= self.pending@.len(),
                all == self.pending@,
                left@ == all.take(i as int).filter(but(id)),
                was == all.take(i as int).contains(id),
            decreases self.pending@.len() - i,
        {
            let x: i64 = self.pending[i];
            proof {
                reveal(Seq::filter);
                assert(all.take(i + 1).drop_last() =~= all.take(i as int));
                assert(all.take(i + 1) =~= all.take(i as int).push(x));
                assert(all.take(i + 1)[i as int] == x);
                if all.take(i as int).contains(id) {
                    let j = all.take(i as int).index_of(id);
                    assert(all.take(i + 1)[j] == id);
                }
            }
            if x == id {
                was = true;
            } else {
                left.push(x);
            }
            i = i + 1;
        }
        assert(all.take(i as int) =~= all);
        proof {
            all.lemma_filter_len(but(id));
            lemma_filter_wf(all, id);
        }
        self.pending = left;
        was
    }

    /// The request that a message answers: it carries the number of one that is
    /// awaited, and no method. The response is then awaited no longer.
    pub fn settle(&mut self, message: &Json) -> (out: Option<i64>)
        requires
            old(self).wf(),
        ensures
            final(self).wf(),
            match out {
                Some(id) => {
                    &&& message@.field("method"@) is None
                    &&& message@.get("id"@).integer() == Some(id as int)
                    &&& old(self).pending@.contains(id)
                    &&& final(self).next_id == old(self).next_id
                    &&& final(self).pending@ == old(self).pending@.filter(but(id))
                    &&& !final(self).pending@.contains(id)
                },
                None => {
                    &&& final(self).next_id == old(self).next_id
                    &&& final(self).pending@ == old(self).pending@
                    &&& message@.field("method"@) is None ==> match message@.get("id"@).integer() {
                        Some(id) => !old(self).pending@.contains(id as i64),
                        None => true,
                    }
                },
            },
    {
        if message.field("method").is_some() {
            return None;
        }
        let id: i64 = match message.field("id") {
            Some(v) => match v.integer() {
                Some(id) => id,
                None => {
                    return None;
                },
            },
            None => {
                return None;
            },
        };
        let ghost all = self.pending@;
        if self.forget(id) {
            Some(id)
        } else {
            proof {
                lemma_filter_all(all, id);
            }
            None
        }
    }

    /// The connection is gone: nothing is awaited any more.
    pub fn clear(&mut self)
        requires
            old(self).wf(),
        ensures
            final(self).wf(),
            final(self).next_id == old(self).next_id,
            final(self).pending@ == Seq::<i64>::empty(),
    {
        self.pending = Vec::new();
    }
}

proof fn lemma_filter_wf(all: Seq<i64>, id: i64)
    requires
        all.no_duplicates(),
    ensures
        all.filter(but(id)).no_duplicates(),
        !all.filter(but(id)).contains(id),
        forall|i: int|
            0 <= i < all.filter(but(id)).len() ==> all.contains(
                #[trigger] all.filter(but(id))[i],
            ),
    decreases all.len(),
{
    reveal(Seq::filter);
    if all.len() > 0 {
        let head = all.drop_last();
        lemma_filter_wf(head, id);
        let now = all.filter(but(id));
        let was = head.filter(but(id));
        assert forall|i: int| 0 <= i < now.len() implies all.contains(#[trigger] now[i]) by {
            if i < was.len() {
                assert(now[i] == was[i]);
                let j = head.index_of(was[i]);
                assert(all[j] == now[i]);
            } else {
                assert(all[all.len() - 1] == now[i]);
            }
        }
        if all.last() != id {
            assert forall|i: int, j: int| 0 <= i < now.len() && 0 <= j < now.len() && i
                != j implies now[i] != now[j] by {
                if i < was.len() && j == was.len() {
                    let k = head.index_of(was[i]);
                    assert(all[k] != all[all.len() - 1]);
                }
                if j < was.len() && i == was.len() {
                    let k = head.index_of(was[j]);
                    assert(all[k] != all[all.len() - 1]);
                }
            }
            assert forall|i: int| 0 <= i < now.len() implies now[i] != id by {
                if i < was.len() {
                    assert(was.contains(was[i]));
                }
            }
        }
    }
}

proof fn lemma_filter_all(all: Seq<i64>, id: i64)
    requires
        !all.contains(id),
    ensures
        all.filter(but(id)) == all,
    decreases all.len(),
{
    reveal(Seq::filter);
    if all.len() > 0 {
        assert forall|x: i64| all.drop_last().contains(x) implies all.contains(x) by {
            let j = all.drop_last().index_of(x);
            assert(all[j] == x);
        }
        lemma_filter_all(all.drop_last(), id);
        assert(all.contains(all.last()));
        assert(all.drop_last().push(all.last()) =~= all);
    }
}

/// A server's requests that are answered with null.
pub open spec fn acknowledged(method: Seq<char>) -> bool {
    ||| method == "client/registerCapability"@
    ||| method == "client/unregisterCapability"@
    ||| method == "window/workDoneProgress/create"@
    ||| method == "workspace/diagnostic/refresh"@
    ||| method == "workspace/inlayHint/refresh"@
    ||| method == "workspace/semanticTokens/refresh"@
    ||| method == "workspace/codeLens/refresh"@
}

/// Finds the settings of each section that is asked for.
pub open spec fn sections(settings: JsonView, items: Seq<JsonView>) -> Seq<JsonView> {
    items.map_values(|item: JsonView| parse::section_of(settings, item.text_at("section"@)))
}

/// The address of the workspace, or nothing where its path has none.
pub open spec fn root_uri(root: Seq<char>) -> Seq<char> {
    match urls::uri_of_path(root) {
        Some(u) => u,
        None => seq![],
    }
}

/// The name of the workspace.
pub open spec fn root_name(root: Seq<char>) -> Seq<char> {
    match paths::file_name(root) {
        Some(n) => n,
        None => "workspace"@,
    }
}

/// The one folder of the workspace.
pub open spec fn folders(root: Seq<char>) -> JsonView {
    JsonView::List(
        seq![
            JsonView::Object(
                seq![
                    ("uri"@, JsonView::Text(root_uri(root))),
                    ("name"@, JsonView::Text(root_name(root))),
                ],
            ),
        ],
    )
}

/// What a server's request is answered: a result, or none where it is not
/// supported.
pub open spec fn result_for(
    message: JsonView,
    method: Seq<char>,
    root: Seq<char>,
    settings: JsonView,
) -> Option<JsonView> {
    if method == "workspace/configuration"@ {
        Some(
            JsonView::List(sections(settings, message.get("params"@).get("items"@).items())),
        )
    } else if method == "workspace/workspaceFolders"@ {
        Some(folders(root))
    } else if acknowledged(method) {
        Some(JsonView::Null)
    } else {
        None
    }
}

/// The refusal of a method.
pub open spec fn unsupported() -> JsonView {
    JsonView::Object(
        seq![
            ("code"@, JsonView::Negative(-32601i64)),
            ("message"@, JsonView::Text("method not supported by Medha"@)),
        ],
    )
}

/// The answer to a message: only a request, with a number and a method, has one.
pub open spec fn answer_to(message: JsonView, root: Seq<char>, settings: JsonView) -> Option<
    JsonView,
> {
    match (message.field("id"@), message.text_at("method"@)) {
        (Some(id), Some(method)) => Some(
            match result_for(message, method, root, settings) {
                Some(result) => JsonView::Object(
                    seq![
                        ("jsonrpc"@, JsonView::Text("2.0"@)),
                        ("id"@, id),
                        ("result"@, result),
                    ],
                ),
                None => JsonView::Object(
                    seq![
                        ("jsonrpc"@, JsonView::Text("2.0"@)),
                        ("id"@, id),
                        ("error"@, unsupported()),
                    ],
                ),
            },
        ),
        _ => None,
    }
}

/// The synchronisation kind after a message: a registration for document changes
/// sets it.
pub open spec fn sync_kind_after(message: JsonView, kind: u64) -> u64 {
    if message.field("id"@) is Some && message.text_at("method"@) == Some(
        "client/registerCapability"@,
    ) {
        match parse::sync_kind_in(message) {
            Some(k) => k,
            None => kind,
        }
    } else {
        kind
    }
}

fn configuration(message: &Json, settings: &Json) -> (out: Json)
    ensures
        out@ == JsonView::List(
            sections(settings@, message@.get("params"@).get("items"@).items()),
        ),
{
    broadcast use json::lemma_list_view;

    let mut out: Vec<Json> = Vec::new();
    let found: Option<&Vec<Json>> = match message.field("params") {
        Some(p) => match p.field("items") {
            Some(items) => items.list(),
            None => None,
        },
        None => None,
    };
    match found {
        Some(items) => {
            let ghost all = json::values(items@);
            let mut i: usize = 0;
            while i < items.len()
                invariant
                    i <= items@.len(),
                    out@.len() == i,
                    all == json::values(items@),
                    forall|j: int|
                        0 <= j < i ==> (#[trigger] out@[j])@ == parse::section_of(
                            settings@,
                            all[j].text_at("section"@),
                        ),
                decreases items@.len() - i,
            {
                let section: Option<&str> = match items[i].text_at("section") {
                    Some(s) => Some(s.as_str()),
                    None => None,
                };
                out.push(resolve_configuration_section(settings, section));
                i = i + 1;
            }
            assert(json::values(out@) =~= sections(settings@, all));
        },
        None => {
            assert(json::values(out@) =~= sections(settings@, seq![]));
        },
    }
    array(out)
}

fn workspace_folders(root: &str) -> (out: Json)
    ensures
        out@ == folders(root@),
{
    let uri = match file_address(root) {
        Some(u) => u,
        None => String::new(),
    };
    let name = match path_file_name(root) {
        Some(n) => n,
        None => "workspace".to_owned(),
    };
    let mut list: Vec<Json> = Vec::new();
    let folder = object2("uri", string(uri.as_str()), "name", string(name.as_str()));
    assert(uri@ =~= root_uri(root@));
    let ghost inner = folder@;
    list.push(folder);
    assert(json::values(list@) =~= seq![inner]);
    array(list)
}

fn is_acknowledged(method: &str) -> (yes: bool)
    ensures
        yes == acknowledged(method@),
{
    same(method, "client/registerCapability") || same(method, "client/unregisterCapability")
        || same(method, "window/workDoneProgress/create") || same(
        method,
        "workspace/diagnostic/refresh",
    ) || same(method, "workspace/inlayHint/refresh") || same(
        method,
        "workspace/semanticTokens/refresh",
    ) || same(method, "workspace/codeLens/refresh")
}

/// The answer to a server's message, and the synchronisation kind after it.
pub fn answer(message: &Json, root: &str, settings: &Json, sync_kind: u64) -> (out: (
    Option<Json>,
    u64,
))
    ensures
        types::json_view(out.0) == answer_to(message@, root@, settings@),
        out.1 == sync_kind_after(message@, sync_kind),
{
    let (id, method) = match (message.field("id"), message.text_at("method")) {
        (Some(id), Some(method)) => (id, method),
        _ => {
            return (None, sync_kind);
        },
    };
    let m = method.as_str();
    let mut kind: u64 = sync_kind;
    let result = if same(m, "workspace/configuration") {
        Some(configuration(message, settings))
    } else if same(m, "workspace/workspaceFolders") {
        Some(workspace_folders(root))
    } else if is_acknowledged(m) {
        if same(m, "client/registerCapability") {
            match registered_sync_kind(message) {
                Some(k) => {
                    kind = k;
                },
                None => {},
            }
        }
        Some(Json::Null)
    } else {
        None
    };
    proof {
        reveal_strlit("workspace/configuration");
        reveal_strlit("workspace/workspaceFolders");
        reveal_strlit("client/registerCapability");
        assert("workspace/configuration"@.len() == 23);
        assert("workspace/workspaceFolders"@.len() == 26);
        assert("client/registerCapability"@.len() == 25);
    }
    let reply = match result {
        Some(result) => object3(
            "jsonrpc",
            string("2.0"),
            "id",
            id.copy(),
            "result",
            result,
        ),
        None => object3(
            "jsonrpc",
            string("2.0"),
            "id",
            id.copy(),
            "error",
            object2(
                "code",
                Json::Negative(-32601),
                "message",
                string("method not supported by Medha"),
            ),
        ),
    };
    (Some(reply), kind)
}

/// Every request of a server is answered once, under its own number, with a
/// result or with an error; nothing else is answered.
pub proof fn law_server_requests_are_answered(message: JsonView, root: Seq<char>, settings: JsonView)
    ensures
        answer_to(message, root, settings) is Some <==> message.field("id"@) is Some
            && message.text_at("method"@) is Some,
        answer_to(message, root, settings) matches Some(reply) ==> {
            &&& reply.field("id"@) == message.field("id"@)
            &&& reply.field("result"@) is Some <==> reply.field("error"@) is None
            &&& reply.field("method"@) is None
        },
{
    reveal_strlit("jsonrpc");
    reveal_strlit("id");
    reveal_strlit("result");
    reveal_strlit("error");
    reveal_strlit("method");
    assert("jsonrpc"@.len() == 7 && "id"@.len() == 2 && "result"@.len() == 6 && "error"@.len() == 5
        && "method"@.len() == 6);
    assert("result"@[0] == 'r' && "method"@[0] == 'm');
    reveal_with_fuel(json::entry_from, 4);
}

/// What a server publishes of a file.
pub struct Publication {
    pub path: String,
    pub version: Option<i64>,
    pub diagnostics: Vec<Diagnostic>,
}

/// What a [`Publication`] holds.
#[verifier::ext_equal]
pub ghost struct PublicationView {
    pub path: Seq<char>,
    pub version: Option<int>,
    pub diagnostics: Seq<DiagnosticView>,
}

impl View for Publication {
    type V = PublicationView;

    open spec fn view(&self) -> PublicationView {
        PublicationView {
            path: self.path@,
            version: match self.version {
                Some(n) => Some(n as int),
                None => None,
            },
            diagnostics: types::found(self.diagnostics@),
        }
    }
}

/// What a message publishes, and of which file.
pub open spec fn publication_in(message: JsonView) -> Option<PublicationView> {
    if message.text_at("method"@) == Some("textDocument/publishDiagnostics"@) {
        let params = message.get("params"@);
        match (params.text_at("uri"@), params.field("diagnostics"@)) {
            (Some(uri), Some(items)) => match urls::path_of_uri(uri) {
                Some(path) => Some(
                    PublicationView {
                        path,
                        version: params.get("version"@).integer(),
                        diagnostics: json::picked(items.items(), parse::by_diagnostic()),
                    },
                ),
                None => None,
            },
            _ => None,
        }
    } else {
        None
    }
}

/// What a message publishes, and of which file.
pub fn publication(message: &Json) -> (out: Option<Publication>)
    ensures
        match out {
            Some(p) => publication_in(message@) == Some(p@),
            None => publication_in(message@) is None,
        },
{
    match message.text_at("method") {
        Some(m) => if !same(m.as_str(), "textDocument/publishDiagnostics") {
            return None;
        },
        None => {
            return None;
        },
    }
    let params = match message.field("params") {
        Some(p) => p,
        None => {
            return None;
        },
    };
    match (params.text_at("uri"), params.field("diagnostics")) {
        (Some(uri), Some(items)) => match file_path(uri.as_str()) {
            Some(path) => {
                let version: Option<i64> = match params.field("version") {
                    Some(v) => v.integer(),
                    None => None,
                };
                Some(Publication { path, version, diagnostics: parse_diagnostics(items) })
            },
            None => None,
        },
        _ => None,
    }
}

/// The last findings published for a file, and when.
pub struct DiagnosticSnapshot {
    /// Counts the publications of the server.
    pub sequence: u64,
    pub version: Option<i64>,
    pub diagnostics: Vec<Diagnostic>,
}

/// The findings that a server published, by file.
pub struct Published {
    pub sequence: u64,
    pub files: Vec<(String, DiagnosticSnapshot)>,
}

/// The position of the first entry for a path, from the `i`-th on.
pub open spec fn file_at(files: Seq<(String, DiagnosticSnapshot)>, path: Seq<char>, i: int) -> Option<
    int,
>
    decreases files.len() - i,
{
    if i < 0 || i >= files.len() {
        None
    } else if paths::same_place(files[i].0@, path) {
        Some(i)
    } else {
        file_at(files, path, i + 1)
    }
}

proof fn lemma_file_at(files: Seq<(String, DiagnosticSnapshot)>, path: Seq<char>, i: int)
    requires
        0 <= i,
    ensures
        file_at(files, path, i) matches Some(j) ==> i <= j < files.len() && paths::same_place(
            files[j].0@,
            path,
        ),
    decreases files.len() - i,
{
    if i < files.len() && !paths::same_place(files[i].0@, path) {
        lemma_file_at(files, path, i + 1);
    }
}

/// The findings are newer than a point in the count, and not of an older version
/// of the file.
pub open spec fn newer(snapshot: DiagnosticSnapshot, sequence: u64, version: i64) -> bool {
    snapshot.sequence > sequence && match snapshot.version {
        Some(v) => v >= version,
        None => true,
    }
}

impl Published {
    pub fn new() -> (out: Published)
        ensures
            out.sequence == 0,
            out.files@ == Seq::<(String, DiagnosticSnapshot)>::empty(),
    {
        Published { sequence: 0, files: Vec::new() }
    }

    /// What was last published for a path.
    pub open spec fn at(self, path: Seq<char>) -> Option<DiagnosticSnapshot> {
        match file_at(self.files@, path, 0) {
            Some(i) => Some(self.files@[i].1),
            None => None,
        }
    }

    fn find(&self, path: &str) -> (out: Option<usize>)
        ensures
            match out {
                Some(i) => file_at(self.files@, path@, 0) == Some(i as int) && i
                    < self.files@.len(),
                None => file_at(self.files@, path@, 0) is None,
            },
    {
        let mut i: usize = 0;
        while i < self.files.len()
            invariant
                i <= self.files@.len(),
                file_at(self.files@, path@, 0) == file_at(self.files@, path@, i as int),
            decreases self.files@.len() - i,
        {
            if same_path(self.files[i].0.as_str(), path) {
                return Some(i);
            }
            i = i + 1;
        }
        None
    }

    /// Records what was published for a path, in place of what was there. The path
    /// is the file's own, as the file system names it.
    pub fn record(&mut self, path: String, version: Option<i64>, diagnostics: Vec<Diagnostic>)
        requires
            old(self).sequence < u64::MAX,
        ensures
            final(self).sequence == old(self).sequence + 1,
            final(self).at(path@) == Some(
                (DiagnosticSnapshot { sequence: final(self).sequence, version, diagnostics }),
            ),
            forall|p: Seq<char>|
                !paths::same_place(p, path@) ==> #[trigger] final(self).at(p) == old(self).at(p),
    {
        let ghost before = self.files@;
        let ghost place = path@;
        self.sequence = self.sequence + 1;
        let snapshot = DiagnosticSnapshot { sequence: self.sequence, version, diagnostics };
        match self.find(path.as_str()) {
            Some(i) => {
                proof {
                    lemma_file_at(before, place, 0);
                }
                self.files[i] = (path, snapshot);
                let ghost entry = self.files@[i as int];
                proof {
                    lemma_put(before, i as int, entry, place);
                }
            },
            None => {
                self.files.push((path, snapshot));
                proof {
                    lemma_push(before, self.files@.last(), 0);
                    assert(self.files@ =~= before.push(self.files@.last()));
                }
            },
        }
        proof {
            assert forall|p: Seq<char>| !paths::same_place(p, place) implies #[trigger] self.at(p)
                == old(self).at(p) by {
                assert(file_at(self.files@, p, 0) == file_at(before, p, 0));
                lemma_file_at(before, p, 0);
            }
        }
    }

    /// Forgets what was published for a path.
    pub fn remove(&mut self, path: &str)
        ensures
            final(self).sequence == old(self).sequence,
            final(self).files@ == old(self).files@.filter(elsewhere(path@)),
            final(self).at(path@) is None,
    {
        let ghost all = self.files@;
        let mut old_files: Vec<(String, DiagnosticSnapshot)> = Vec::new();
        std::mem::swap(&mut old_files, &mut self.files);
        let mut left: Vec<(String, DiagnosticSnapshot)> = Vec::new();
        proof {
            reveal(Seq::filter);
            assert(left@ =~= all.take(0).filter(elsewhere(path@)));
        }
        for f in it: old_files
            invariant
                it.seq() == all,
                left@ == all.take(it.index() as int).filter(elsewhere(path@)),
        {
            proof {
                reveal(Seq::filter);
                assert(all.take(it.index() as int + 1).drop_last() =~= all.take(it.index() as int));
            }
            if !same_path(f.0.as_str(), path) {
                left.push(f);
            }
        }
        assert(all.take(all.len() as int) =~= all);
        proof {
            lemma_elsewhere(all, path@, 0);
        }
        self.files = left;
    }

    /// What was published for a path after a point in the count, for this version
    /// of the file or a later one.
    pub fn snapshot_after(&self, path: &str, sequence: u64, version: i64) -> (out: Option<
        &DiagnosticSnapshot,
    >)
        ensures
            match out {
                Some(s) => self.at(path@) == Some(*s) && newer(*s, sequence, version),
                None => match self.at(path@) {
                    Some(s) => !newer(s, sequence, version),
                    None => true,
                },
            },
    {
        match self.find(path) {
            Some(i) => {
                let s = &self.files[i].1;
                let fresh = s.sequence > sequence && match s.version {
                    Some(v) => v >= version,
                    None => true,
                };
                if fresh {
                    Some(s)
                } else {
                    None
                }
            },
            None => None,
        }
    }
}

/// Accepts files that are not at a path.
pub open spec fn elsewhere(path: Seq<char>) -> spec_fn((String, DiagnosticSnapshot)) -> bool {
    |f: (String, DiagnosticSnapshot)| !paths::same_place(f.0@, path)
}

proof fn lemma_elsewhere(files: Seq<(String, DiagnosticSnapshot)>, path: Seq<char>, i: int)
    requires
        0 <= i,
    ensures
        file_at(files.filter(elsewhere(path)), path, i) is None,
    decreases files.filter(elsewhere(path)).len() - i,
{
    let left = files.filter(elsewhere(path));
    if i < left.len() {
        files.lemma_filter_pred(elsewhere(path), i);
        lemma_elsewhere(files, path, i + 1);
    }
}

proof fn lemma_put(
    files: Seq<(String, DiagnosticSnapshot)>,
    at: int,
    entry: (String, DiagnosticSnapshot),
    place: Seq<char>,
)
    requires
        file_at(files, place, 0) == Some(at),
        0 <= at < files.len(),
        entry.0@ == place,
        paths::same_place(files[at].0@, place),
    ensures
        file_at(files.update(at, entry), place, 0) == Some(at),
        forall|p: Seq<char>|
            !paths::same_place(p, place) ==> #[trigger] file_at(files.update(at, entry), p, 0)
                == file_at(files, p, 0) && file_at(files, p, 0) != Some(at),
{
    lemma_put_from(files, at, entry, place, place, 0);
    assert forall|p: Seq<char>| !paths::same_place(p, place) implies #[trigger] file_at(
        files.update(at, entry),
        p,
        0,
    ) == file_at(files, p, 0) && file_at(files, p, 0) != Some(at) by {
        lemma_put_from(files, at, entry, place, p, 0);
        lemma_file_at(files, p, 0);
    }
}

proof fn lemma_put_from(
    files: Seq<(String, DiagnosticSnapshot)>,
    at: int,
    entry: (String, DiagnosticSnapshot),
    place: Seq<char>,
    p: Seq<char>,
    i: int,
)
    requires
        0 <= i,
        0 <= at < files.len(),
        entry.0@ == place,
        paths::same_place(files[at].0@, place),
        p == place || !paths::same_place(p, place),
    ensures
        file_at(files.update(at, entry), p, i) == file_at(files, p, i),
    decreases files.len() - i,
{
    let now = files.update(at, entry);
    if i < files.len() {
        if i == at {
            assert(paths::same_place(now[i].0@, p) == paths::same_place(files[i].0@, p));
        } else {
            assert(now[i] == files[i]);
        }
        lemma_put_from(files, at, entry, place, p, i + 1);
    }
}

proof fn lemma_push(
    files: Seq<(String, DiagnosticSnapshot)>,
    entry: (String, DiagnosticSnapshot),
    i: int,
)
    requires
        0 <= i <= files.len(),
        file_at(files, entry.0@, i) is None,
    ensures
        file_at(files.push(entry), entry.0@, i) == Some(files.len() as int),
        forall|p: Seq<char>|
            !paths::same_place(p, entry.0@) ==> #[trigger] file_at(files.push(entry), p, i)
                == file_at(files, p, i),
    decreases files.len() - i,
{
    let now = files.push(entry);
    if i < files.len() {
        assert(now[i] == files[i]);
        lemma_push(files, entry, i + 1);
        assert forall|p: Seq<char>| !paths::same_place(p, entry.0@) implies #[trigger] file_at(
            now,
            p,
            i,
        ) == file_at(files, p, i) by {
            assert(file_at(now, p, i + 1) == file_at(files, p, i + 1));
        }
    } else {
        assert(now[i] == entry);
        assert forall|p: Seq<char>| !paths::same_place(p, entry.0@) implies #[trigger] file_at(
            now,
            p,
            i,
        ) == file_at(files, p, i) by {
            assert(!paths::same_place(now[i].0@, p));
            assert(file_at(now, p, i + 1) is None);
        }
    }
}

} // verus!

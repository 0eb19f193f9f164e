//! One language server's documents, and the answers it gives about them.

use vstd::prelude::*;
use vstd::string::*;
use crate::json;
use crate::json::{array, object1, object2, object3, object4, string, Json, JsonView};
use crate::lsp::adapters;
use crate::lsp::adapters::Language;
use crate::lsp::delta::{DiagnosticBaseline, DiagnosticBaselineEntry};
use crate::lsp::edits;
use crate::lsp::edits::{incremental_content_change, position_value};
use crate::lsp::errors::Error;
use crate::lsp::parse;
use crate::lsp::parse::{parse_hover, truncate_chars};
use crate::lsp::reports::{DiagnosticReport, QueryReport};
use crate::lsp::types;
use crate::lsp::types::{Diagnostic, DiagnosticView, Hover, Location, Position, Symbol};
use crate::lsp::wire;
use crate::lsp::wire::{notification_message, DiagnosticSnapshot, Published};
use crate::number;
use crate::order;
use crate::order::comes_before;
use crate::paths;
use crate::paths::{path_comes_before, path_extension, same_path};
use crate::ranking;
use crate::ranking::{collect, merge, settle, Ranked};
use crate::text;
use crate::text::{chars_of, same};
use crate::urls;
use crate::urls::file_address;

verus! {

/// The document that a path names.
pub open spec fn document_id(uri: Seq<char>) -> JsonView {
    JsonView::Object(seq![("textDocument"@, JsonView::Object(seq![("uri"@, JsonView::Text(uri))]))])
}

fn document_value(uri: &str) -> (out: Json)
    ensures
        out@ == document_id(uri@),
{
    object1("textDocument", object1("uri", string(uri)))
}

/// The parameters of a query on a document, or that its path has no address.
pub fn document_params(path: &str) -> (out: Result<Json, Error>)
    ensures
        match out {
            Ok(v) => match urls::uri_of_path(path@) {
                Some(uri) => v@ == document_id(uri),
                None => false,
            },
            Err(e) => urls::uri_of_path(path@) is None && (e matches Error::InvalidFileUri(p) && p@
                == path@),
        },
{
    match file_address(path) {
        Some(uri) => Ok(document_value(uri.as_str())),
        None => Err(Error::InvalidFileUri(path.to_owned())),
    }
}

/// The parameters of a query on a position of a document.
pub open spec fn position_params(uri: Seq<char>, position: Position) -> JsonView {
    JsonView::Object(
        seq![
            ("textDocument"@, JsonView::Object(seq![("uri"@, JsonView::Text(uri))])),
            ("position"@, edits::position_json(position)),
        ],
    )
}

/// The parameters of a query on a position of a document, or that its path has no
/// address.
pub fn text_document_position(path: &str, position: Position) -> (out: Result<Json, Error>)
    ensures
        match out {
            Ok(v) => match urls::uri_of_path(path@) {
                Some(uri) => v@ == position_params(uri, position),
                None => false,
            },
            Err(e) => urls::uri_of_path(path@) is None && (e matches Error::InvalidFileUri(p) && p@
                == path@),
        },
{
    match file_address(path) {
        Some(uri) => Ok(
            object2(
                "textDocument",
                object1("uri", string(uri.as_str())),
                "position",
                position_value(position),
            ),
        ),
        None => Err(Error::InvalidFileUri(path.to_owned())),
    }
}

/// The parameters of a search for references.
pub fn references_params(path: &str, position: Position, include_declaration: bool) -> (out: Result<
    Json,
    Error,
>)
    ensures
        match out {
            Ok(v) => match urls::uri_of_path(path@) {
                Some(uri) => v@ == JsonView::Object(
                    seq![
                        ("textDocument"@, JsonView::Object(seq![("uri"@, JsonView::Text(uri))])),
                        ("position"@, edits::position_json(position)),
                        (
                            "context"@,
                            JsonView::Object(
                                seq![("includeDeclaration"@, JsonView::Bool(include_declaration))],
                            ),
                        ),
                    ],
                ),
                None => false,
            },
            Err(e) => urls::uri_of_path(path@) is None && (e matches Error::InvalidFileUri(p) && p@
                == path@),
        },
{
    match file_address(path) {
        Some(uri) => Ok(
            object3(
                "textDocument",
                object1("uri", string(uri.as_str())),
                "position",
                position_value(position),
                "context",
                object1("includeDeclaration", Json::Bool(include_declaration)),
            ),
        ),
        None => Err(Error::InvalidFileUri(path.to_owned())),
    }
}

/// A document that the server has open.
pub struct Document {
    pub path: String,
    pub version: i64,
    pub text: String,
    /// When it was last used, by the count of uses.
    pub touched: u64,
}

/// What a [`Document`] holds.
#[verifier::ext_equal]
pub ghost struct DocumentView {
    pub path: Seq<char>,
    pub version: i64,
    pub text: Seq<char>,
    pub touched: u64,
}

impl View for Document {
    type V = DocumentView;

    open spec fn view(&self) -> DocumentView {
        DocumentView {
            path: self.path@,
            version: self.version,
            text: self.text@,
            touched: self.touched,
        }
    }
}

/// What each document holds.
pub open spec fn documents(v: Seq<Document>) -> Seq<DocumentView> {
    v.map_values(|d: Document| d@)
}

/// The place of the document of a path, from the `i`-th on.
pub open spec fn document_at(v: Seq<DocumentView>, path: Seq<char>, i: int) -> Option<int>
    decreases v.len() - i,
{
    if i < 0 || i >= v.len() {
        None
    } else if paths::same_place(v[i].path, path) {
        Some(i)
    } else {
        document_at(v, path, i + 1)
    }
}

proof fn lemma_document_at(v: Seq<DocumentView>, path: Seq<char>, i: int)
    requires
        0 <= i,
    ensures
        match document_at(v, path, i) {
            Some(j) => i <= j < v.len() && paths::same_place(v[j].path, path),
            None => forall|j: int| i <= j < v.len() ==> !paths::same_place((#[trigger] v[j]).path, path),
        },
    decreases v.len() - i,
{
    if i < v.len() && !paths::same_place(v[i].path, path) {
        lemma_document_at(v, path, i + 1);
    }
}

/// What tells the server that a document is open.
pub open spec fn did_open(
    uri: Seq<char>,
    language: Seq<char>,
    version: i64,
    text: Seq<char>,
) -> JsonView {
    wire::notification(
        "textDocument/didOpen"@,
        JsonView::Object(
            seq![
                (
                    "textDocument"@,
                    JsonView::Object(
                        seq![
                            ("uri"@, JsonView::Text(uri)),
                            ("languageId"@, JsonView::Text(language)),
                            ("version"@, wire::number_json(version as int)),
                            ("text"@, JsonView::Text(text)),
                        ],
                    ),
                ),
            ],
        ),
    )
}

/// How a change is told: by what changed, or by the whole text.
pub open spec fn change_of(kind: u64, old: Seq<char>, new: Seq<char>) -> JsonView {
    if kind == 2 {
        edits::content_change(old, new)
    } else {
        JsonView::Object(seq![("text"@, JsonView::Text(new))])
    }
}

/// What tells the server that a document changed.
pub open spec fn did_change(
    uri: Seq<char>,
    version: i64,
    kind: u64,
    old: Seq<char>,
    new: Seq<char>,
) -> JsonView {
    wire::notification(
        "textDocument/didChange"@,
        JsonView::Object(
            seq![
                (
                    "textDocument"@,
                    JsonView::Object(
                        seq![
                            ("uri"@, JsonView::Text(uri)),
                            ("version"@, wire::number_json(version as int)),
                        ],
                    ),
                ),
                ("contentChanges"@, JsonView::List(seq![change_of(kind, old, new)])),
            ],
        ),
    )
}

/// What tells the server that a document was saved.
pub open spec fn did_save(uri: Seq<char>) -> JsonView {
    wire::notification("textDocument/didSave"@, document_id(uri))
}

/// What tells the server that a document is closed.
pub open spec fn did_close(uri: Seq<char>) -> JsonView {
    wire::notification("textDocument/didClose"@, document_id(uri))
}

fn version_value(n: i64) -> (out: Json)
    ensures
        out@ == wire::number_json(n as int),
{
    if n < 0 {
        Json::Negative(n)
    } else {
        Json::Unsigned(n as u64)
    }
}

/// What tells the server that a document was saved, or that its path has no
/// address.
pub fn save_message(path: &str) -> (out: Result<Json, Error>)
    ensures
        match out {
            Ok(v) => match urls::uri_of_path(path@) {
                Some(uri) => v@ == did_save(uri),
                None => false,
            },
            Err(e) => urls::uri_of_path(path@) is None && (e matches Error::InvalidFileUri(p) && p@
                == path@),
        },
{
    match document_params(path) {
        Ok(v) => Ok(notification_message("textDocument/didSave", v)),
        Err(e) => Err(e),
    }
}

/// How a document is brought up to date with the server.
#[allow(inconsistent_fields)]
pub enum Sync {
    /// The server has the text.
    Current { version: i64 },
    /// The server has an older text; this tells it, where it wants to be told.
    Changed { version: i64, message: Option<Json> },
    /// The server does not have the document. It is open once this was told.
    Open { message: Json },
}

/// A document that was closed to bound what the server keeps.
pub struct Closed {
    pub path: String,
    pub message: Option<Json>,
}

/// What a [`Closed`] holds.
#[verifier::ext_equal]
pub ghost struct ClosedView {
    pub path: Seq<char>,
    pub message: Option<JsonView>,
}

impl View for Closed {
    type V = ClosedView;

    open spec fn view(&self) -> ClosedView {
        ClosedView { path: self.path@, message: types::json_view(self.message) }
    }
}

/// What each closed document holds.
pub open spec fn closures(v: Seq<Closed>) -> Seq<ClosedView> {
    v.map_values(|c: Closed| c@)
}

/// How a document is closed.
pub open spec fn closing(path: Seq<char>) -> ClosedView {
    ClosedView {
        path,
        message: match urls::uri_of_path(path) {
            Some(uri) => Some(did_close(uri)),
            None => None,
        },
    }
}

/// The least recently used document but the one to keep.
pub open spec fn victim(v: Seq<DocumentView>, keep: Seq<char>) -> Option<int>
    decreases v.len(),
{
    if v.len() == 0 {
        None
    } else {
        let head = victim(v.drop_last(), keep);
        if paths::same_place(v.last().path, keep) {
            head
        } else {
            match head {
                Some(i) => if v.last().touched < v[i].touched {
                    Some(v.len() - 1)
                } else {
                    head
                },
                None => Some(v.len() - 1),
            }
        }
    }
}

proof fn lemma_victim(v: Seq<DocumentView>, keep: Seq<char>)
    ensures
        match victim(v, keep) {
            Some(i) => {
                &&& 0 <= i < v.len()
                &&& !paths::same_place(v[i].path, keep)
                &&& forall|j: int|
                    0 <= j < v.len() && !paths::same_place((#[trigger] v[j]).path, keep) ==> v[i].touched
                        <= v[j].touched
            },
            None => forall|j: int| 0 <= j < v.len() ==> paths::same_place((#[trigger] v[j]).path, keep),
        },
    decreases v.len(),
{
    if v.len() > 0 {
        let head = v.drop_last();
        lemma_victim(head, keep);
        assert forall|j: int| 0 <= j < head.len() implies v[j] == #[trigger] head[j] by {}
        match victim(head, keep) {
            Some(i) => {
                assert(v[i] == head[i]);
                assert forall|j: int|
                    0 <= j < v.len() && !paths::same_place((#[trigger] v[j]).path, keep) implies v[victim(
                    v,
                    keep,
                )->0].touched <= v[j].touched by {
                    if j < head.len() {
                        assert(v[j] == head[j]);
                    }
                }
            },
            None => {
                assert forall|j: int| 0 <= j < head.len() implies paths::same_place(
                    (#[trigger] v[j]).path,
                    keep,
                ) by {
                    assert(v[j] == head[j]);
                }
            },
        }
    }
}

/// The documents that stay open, and those that are closed for them, in the order
/// in which they are closed: least recently used first.
pub open spec fn evicted(v: Seq<DocumentView>, keep: Seq<char>, max: nat) -> (
    Seq<DocumentView>,
    Seq<ClosedView>,
)
    decreases v.len(),
{
    if v.len() <= max {
        (v, seq![])
    } else {
        match victim(v, keep) {
            Some(i) => if 0 <= i < v.len() {
                let rest = evicted(v.remove(i), keep, max);
                (rest.0, seq![closing(v[i].path)] + rest.1)
            } else {
                (v, seq![])
            },
            None => (v, seq![]),
        }
    }
}

/// No two documents are at the same place.
pub open spec fn separate(v: Seq<DocumentView>) -> bool {
    forall|i: int, j: int|
        #![trigger v[i], v[j]]
        0 <= i < j < v.len() ==> !paths::same_place(v[i].path, v[j].path)
}

proof fn lemma_separate_without(v: Seq<DocumentView>, i: int)
    requires
        separate(v),
        0 <= i < v.len(),
    ensures
        separate(v.remove(i)),
{
    let w = v.remove(i);
    assert forall|a: int, b: int|
        #![trigger w[a], w[b]]
        0 <= a < b < w.len() implies !paths::same_place(w[a].path, w[b].path) by {
        let x = if a < i {
            a
        } else {
            a + 1
        };
        let y = if b < i {
            b
        } else {
            b + 1
        };
        assert(w[a] == v[x] && w[b] == v[y]);
    }
}

/// Once documents were closed, no more than the limit are open, or only the one to
/// keep. That one is never closed.
pub proof fn law_open_documents_are_bounded(v: Seq<DocumentView>, keep: Seq<char>, max: nat)
    requires
        separate(v),
        exists|i: int| 0 <= i < v.len() && paths::same_place((#[trigger] v[i]).path, keep),
    ensures
        separate(evicted(v, keep, max).0),
        evicted(v, keep, max).0.len() <= max || evicted(v, keep, max).0.len() == 1,
        exists|i: int|
            0 <= i < evicted(v, keep, max).0.len() && paths::same_place(
                (#[trigger] evicted(v, keep, max).0[i]).path,
                keep,
            ),
        evicted(v, keep, max).0.len() + evicted(v, keep, max).1.len() == v.len(),
    decreases v.len(),
{
    lemma_victim(v, keep);
    let k = choose|i: int| 0 <= i < v.len() && paths::same_place((#[trigger] v[i]).path, keep);
    if v.len() <= max {
        assert(paths::same_place(evicted(v, keep, max).0[k].path, keep));
    } else {
        match victim(v, keep) {
            Some(i) => {
                let w = v.remove(i);
                lemma_separate_without(v, i);
                if k < i {
                    assert(paths::same_place(w[k].path, keep));
                } else {
                    assert(paths::same_place(w[k - 1].path, keep));
                }
                law_open_documents_are_bounded(w, keep, max);
                let left = evicted(w, keep, max).0;
                let j = choose|j: int| 0 <= j < left.len() && paths::same_place((#[trigger] left[j]).path, keep);
                assert(paths::same_place(evicted(v, keep, max).0[j].path, keep));
            },
            None => {
                assert(paths::same_place(evicted(v, keep, max).0[k].path, keep));
                if v.len() > 1 {
                    assert(paths::same_place(v[0].path, keep) && paths::same_place(v[1].path, keep));
                }
            },
        }
    }
}

/// The documents that a server has open.
pub struct Documents {
    pub files: Vec<Document>,
    pub clock: u64,
    pub languages: Vec<Language>,
    pub max_open: usize,
}

/// The language of an extension: of several, the last that is named.
pub open spec fn last_language(v: Seq<(Seq<char>, Seq<char>)>, extension: Seq<char>) -> Option<
    Seq<char>,
>
    decreases v.len(),
{
    if v.len() == 0 {
        None
    } else if v.last().0 == extension {
        Some(v.last().1)
    } else {
        last_language(v.drop_last(), extension)
    }
}

/// The language of a file.
pub open spec fn language_id(languages: Seq<(Seq<char>, Seq<char>)>, path: Seq<char>) -> Option<
    Seq<char>,
> {
    let extension = match paths::extension(path) {
        Some(e) => e,
        None => seq![],
    };
    last_language(languages, extension)
}

impl Documents {
    /// No document is open twice.
    pub open spec fn wf(self) -> bool {
        separate(documents(self.files@))
    }

    pub fn new(languages: Vec<Language>, max_open: usize) -> (out: Documents)
        ensures
            out.wf(),
            documents(out.files@) == Seq::<DocumentView>::empty(),
            out.clock == 0,
            out.languages == languages,
            out.max_open == max_open,
    {
        let out = Documents { files: Vec::new(), clock: 0, languages, max_open };
        assert(documents(out.files@) =~= Seq::<DocumentView>::empty());
        out
    }

    /// The open document of a path.
    pub open spec fn at(self, path: Seq<char>) -> Option<DocumentView> {
        match document_at(documents(self.files@), path, 0) {
            Some(i) => Some(documents(self.files@)[i]),
            None => None,
        }
    }

    fn find(&self, path: &str) -> (out: Option<usize>)
        ensures
            match out {
                Some(i) => document_at(documents(self.files@), path@, 0) == Some(i as int) && i
                    < self.files@.len(),
                None => document_at(documents(self.files@), path@, 0) is None,
            },
    {
        let mut i: usize = 0;
        while i < self.files.len()
            invariant
                i <= self.files@.len(),
                document_at(documents(self.files@), path@, 0) == document_at(
                    documents(self.files@),
                    path@,
                    i as int,
                ),
            decreases self.files@.len() - i,
        {
            assert(documents(self.files@)[i as int] == self.files@[i as int]@);
            if same_path(self.files[i].path.as_str(), path) {
                return Some(i);
            }
            i = i + 1;
        }
        None
    }

    fn language(&self, path: &str) -> (out: Option<String>)
        ensures
            text::view_of(out) == language_id(adapters::mappings(self.languages@), path@),
    {
        let extension = match path_extension(path) {
            Some(e) => e,
            None => String::new(),
        };
        assert(paths::extension(path@) is None ==> extension@ =~= seq![]);
        let ghost all = adapters::mappings(self.languages@);
        let mut i: usize = self.languages.len();
        assert(all.take(i as int) =~= all);
        while i > 0
            invariant
                i <= self.languages@.len(),
                all == adapters::mappings(self.languages@),
                language_id(all, path@) == last_language(all.take(i as int), extension@),
            decreases i,
        {
            i = i - 1;
            assert(all.take(i + 1).drop_last() =~= all.take(i as int));
            assert(all[i as int] == (
                self.languages@[i as int].extension@,
                self.languages@[i as int].language_id@,
            ));
            if same(self.languages[i].extension.as_str(), extension.as_str()) {
                return Some(self.languages[i].language_id.clone());
            }
        }
        None
    }

    /// Brings a document up to date. A known document takes the new text at once; an
    /// unknown one is open only after [`Documents::opened`].
    pub fn sync_document(&mut self, path: &str, text: &str, sync_kind: u64) -> (out: Result<
        Sync,
        Error,
    >)
        requires
            old(self).wf(),
            old(self).clock < u64::MAX,
            old(self).at(path@) matches Some(d) ==> d.version < i64::MAX,
        ensures
            final(self).wf(),
            final(self).languages == old(self).languages,
            final(self).max_open == old(self).max_open,
            match urls::uri_of_path(path@) {
                None => {
                    &&& out matches Err(Error::InvalidFileUri(p)) && p@ == path@
                    &&& *final(self) == *old(self)
                },
                Some(uri) => {
                    &&& final(self).clock == old(self).clock + 1
                    &&& match document_at(documents(old(self).files@), path@, 0) {
                        Some(i) => {
                            let d = documents(old(self).files@)[i];
                            if d.text == text@ {
                                &&& out matches Ok(Sync::Current { version }) && version
                                    == d.version
                                &&& documents(final(self).files@) == documents(
                                    old(self).files@,
                                ).update(i, DocumentView { touched: old(self).clock, ..d })
                            } else {
                                &&& out matches Ok(Sync::Changed { version, message }) && version
                                    == d.version + 1 && types::json_view(message) == (if sync_kind
                                    == 0 {
                                    None
                                } else {
                                    Some(did_change(uri, version, sync_kind, d.text, text@))
                                })
                                &&& documents(final(self).files@) == documents(
                                    old(self).files@,
                                ).update(
                                    i,
                                    DocumentView {
                                        path: d.path,
                                        version: (d.version + 1) as i64,
                                        text: text@,
                                        touched: old(self).clock,
                                    },
                                )
                            }
                        },
                        None => {
                            &&& final(self).files == old(self).files
                            &&& match language_id(adapters::mappings(old(self).languages@), path@) {
                                Some(l) => out matches Ok(Sync::Open { message }) && message@
                                    == did_open(uri, l, 1, text@),
                                None => out matches Err(Error::UnsupportedFile(p)) && p@ == path@,
                            }
                        },
                    }
                },
            },
    {
        let uri = match file_address(path) {
            Some(u) => u,
            None => {
                return Err(Error::InvalidFileUri(path.to_owned()));
            },
        };
        let touched: u64 = self.clock;
        self.clock = touched + 1;
        let ghost start = documents(self.files@);
        match self.find(path) {
            Some(i) => {
                assert(start[i as int] == self.files@[i as int]@);
                let mut d = self.files.remove(i);
                let ghost dv = d@;
                if same(d.text.as_str(), text) {
                    d.touched = touched;
                    let version: i64 = d.version;
                    self.files.insert(i, d);
                    proof {
                        lemma_update(
                            start,
                            i as int,
                            DocumentView { touched, ..dv },
                        );
                        assert(documents(self.files@) =~= start.update(
                            i as int,
                            DocumentView { touched, ..dv },
                        ));
                    }
                    Ok(Sync::Current { version })
                } else {
                    let version: i64 = d.version + 1;
                    let message = if sync_kind == 0 {
                        None
                    } else {
                        let change = if sync_kind == 2 {
                            incremental_content_change(d.text.as_str(), text)
                        } else {
                            object1("text", string(text))
                        };
                        let ghost cv = change@;
                        let mut changes: Vec<Json> = Vec::new();
                        changes.push(change);
                        assert(json::values(changes@) =~= seq![cv]);
                        Some(
                            notification_message(
                                "textDocument/didChange",
                                object2(
                                    "textDocument",
                                    object2(
                                        "uri",
                                        string(uri.as_str()),
                                        "version",
                                        version_value(version),
                                    ),
                                    "contentChanges",
                                    array(changes),
                                ),
                            ),
                        )
                    };
                    d.version = version;
                    d.text = text.to_owned();
                    d.touched = touched;
                    let ghost now = d@;
                    self.files.insert(i, d);
                    proof {
                        lemma_update(start, i as int, now);
                        assert(documents(self.files@) =~= start.update(i as int, now));
                    }
                    Ok(Sync::Changed { version, message })
                }
            },
            None => match self.language(path) {
                Some(language) => Ok(
                    Sync::Open {
                        message: notification_message(
                            "textDocument/didOpen",
                            object1(
                                "textDocument",
                                object4(
                                    "uri",
                                    string(uri.as_str()),
                                    "languageId",
                                    string(language.as_str()),
                                    "version",
                                    version_value(1),
                                    "text",
                                    string(text),
                                ),
                            ),
                        ),
                    },
                ),
                None => Err(Error::UnsupportedFile(path.to_owned())),
            },
        }
    }

    fn find_victim(&self, keep: &str) -> (out: Option<usize>)
        ensures
            match out {
                Some(i) => victim(documents(self.files@), keep@) == Some(i as int) && i
                    < self.files@.len(),
                None => victim(documents(self.files@), keep@) is None,
            },
    {
        let ghost all = documents(self.files@);
        let mut best: Option<usize> = None;
        let mut i: usize = 0;
        while i < self.files.len()
            invariant
                i <= self.files@.len(),
                all == documents(self.files@),
                match best {
                    Some(b) => victim(all.take(i as int), keep@) == Some(b as int) && b < i,
                    None => victim(all.take(i as int), keep@) is None,
                },
            decreases self.files@.len() - i,
        {
            assert(all.take(i + 1).drop_last() =~= all.take(i as int));
            assert(all[i as int] == self.files@[i as int]@);
            if !same_path(self.files[i].path.as_str(), keep) {
                match best {
                    Some(b) => {
                        assert(all.take(i + 1)[b as int] == self.files@[b as int]@);
                        assert(all.take(i as int)[b as int] == self.files@[b as int]@);
                        if self.files[i].touched < self.files[b].touched {
                            best = Some(i);
                        }
                    },
                    None => {
                        best = Some(i);
                    },
                }
            }
            i = i + 1;
        }
        assert(all.take(i as int) =~= all);
        best
    }

    /// A document was opened: it is kept, and others are closed for it where too
    /// many are open. `touched` is the count of uses when the opening began.
    pub fn opened(&mut self, path: &str, text: &str, touched: u64) -> (out: Vec<Closed>)
        requires
            old(self).wf(),
            old(self).at(path@) is None,
        ensures
            final(self).wf(),
            final(self).clock == old(self).clock,
            final(self).languages == old(self).languages,
            final(self).max_open == old(self).max_open,
            ({
                let with = documents(old(self).files@).push(
                    DocumentView { path: path@, version: 1, text: text@, touched },
                );
                let e = evicted(with, path@, old(self).max_open as nat);
                documents(final(self).files@) == e.0 && closures(out@) == e.1
            }),
    {
        let ghost start = documents(self.files@);
        let document = Document {
            path: path.to_owned(),
            version: 1,
            text: text.to_owned(),
            touched,
        };
        let ghost dv = document@;
        self.files.push(document);
        let ghost with = start.push(dv);
        assert(documents(self.files@) =~= with);
        proof {
            lemma_document_at(start, path@, 0);
            assert forall|a: int, b: int|
                #![trigger with[a], with[b]]
                0 <= a < b < with.len() implies !paths::same_place(with[a].path, with[b].path) by {
                assert(with[a] == start[a]);
                if b < start.len() {
                    assert(with[b] == start[b]);
                }
            }
        }
        let ghost whole = evicted(with, path@, self.max_open as nat);
        let mut out: Vec<Closed> = Vec::new();
        assert(closures(out@) + whole.1 =~= whole.1);
        loop
            invariant
                self.clock == old(self).clock,
                self.languages == old(self).languages,
                self.max_open == old(self).max_open,
                separate(documents(self.files@)),
                whole.0 == evicted(documents(self.files@), path@, self.max_open as nat).0,
                whole.1 == closures(out@) + evicted(
                    documents(self.files@),
                    path@,
                    self.max_open as nat,
                ).1,
                whole == evicted(with, path@, self.max_open as nat),
            ensures
                self.clock == old(self).clock,
                self.languages == old(self).languages,
                self.max_open == old(self).max_open,
                separate(documents(self.files@)),
                documents(self.files@) == whole.0,
                closures(out@) == whole.1,
                whole == evicted(with, path@, self.max_open as nat),
            decreases self.files@.len(),
        {
            let ghost now = documents(self.files@);
            assert(now.len() == self.files@.len());
            if self.files.len() <= self.max_open {
                assert(closures(out@) + seq![] =~= closures(out@));
                break;
            }
            match self.find_victim(path) {
                Some(i) => {
                    assert(now[i as int] == self.files@[i as int]@);
                    proof {
                        lemma_separate_without(now, i as int);
                    }
                    let ghost so_far = closures(out@);
                    let d = self.files.remove(i);
                    assert(documents(self.files@) =~= now.remove(i as int));
                    let message = match file_address(d.path.as_str()) {
                        Some(uri) => Some(
                            notification_message(
                                "textDocument/didClose",
                                document_value(uri.as_str()),
                            ),
                        ),
                        None => None,
                    };
                    let closed = Closed { path: d.path, message };
                    let ghost cv = closed@;
                    assert(cv =~= closing(now[i as int].path));
                    out.push(closed);
                    assert(closures(out@) =~= so_far.push(cv));
                    assert(so_far + (seq![cv] + evicted(
                        documents(self.files@),
                        path@,
                        self.max_open as nat,
                    ).1) =~= closures(out@) + evicted(
                        documents(self.files@),
                        path@,
                        self.max_open as nat,
                    ).1);
                },
                None => {
                    assert(closures(out@) + seq![] =~= closures(out@));
                    break;
                },
            }
        }
        out
    }

    /// Whether a document is open.
    pub fn is_open(&self, path: &str) -> (yes: bool)
        ensures
            yes == (self.at(path@) is Some),
    {
        self.find(path).is_some()
    }

    /// The version of a document that the server has with this very text.
    pub fn version_of(&self, path: &str, text: &str) -> (out: Option<i64>)
        ensures
            out == match self.at(path@) {
                Some(d) => if d.text == text@ {
                    Some(d.version)
                } else {
                    None
                },
                None => None,
            },
    {
        match self.find(path) {
            Some(i) => {
                assert(documents(self.files@)[i as int] == self.files@[i as int]@);
                if same(self.files[i].text.as_str(), text) {
                    Some(self.files[i].version)
                } else {
                    None
                }
            },
            None => None,
        }
    }
}

proof fn lemma_update(v: Seq<DocumentView>, i: int, d: DocumentView)
    requires
        separate(v),
        0 <= i < v.len(),
        d.path == v[i].path,
    ensures
        separate(v.update(i, d)),
{
    let w = v.update(i, d);
    assert forall|a: int, b: int|
        #![trigger w[a], w[b]]
        0 <= a < b < w.len() implies !paths::same_place(w[a].path, w[b].path) by {
        assert(paths::same_place(v[a].path, w[a].path) && paths::same_place(v[b].path, w[b].path));
    }
}

/// A copy of each finding.
pub fn copy_diagnostics(v: &Vec<Diagnostic>) -> (out: Vec<Diagnostic>)
    ensures
        types::found(out@) == types::found(v@),
        out@.len() == v@.len(),
{
    let mut out: Vec<Diagnostic> = Vec::new();
    let mut i: usize = 0;
    while i < v.len()
        invariant
            i <= v@.len(),
            out@.len() == i,
            forall|j: int| 0 <= j < i ==> (#[trigger] out@[j])@ == v@[j]@,
        decreases v@.len() - i,
    {
        out.push(v[i].copy());
        i = i + 1;
    }
    assert(types::found(out@) =~= types::found(v@));
    out
}

/// The findings of a file before an edit, from what the server published for this
/// very text; none where it published nothing for it. The findings are in order and
/// bounded.
pub fn diagnostic_baseline(
    server: &str,
    text: &str,
    version: Option<i64>,
    snapshot: Option<&DiagnosticSnapshot>,
    max_results: usize,
) -> (out: Option<DiagnosticBaseline>)
    ensures
        match (version, snapshot) {
            (Some(v), Some(s)) => if match s.version {
                Some(published) => published >= v,
                None => true,
            } {
                out matches Some(b) && b.entries@.len() == 1 && b.entries@[0].server@ == server@
                    && b.entries@[0].text@ == text@ && bounded_findings(
                    b.entries@[0].diagnostics@,
                    types::found(s.diagnostics@),
                    max_results as nat,
                )
            } else {
                out is None
            },
            _ => out is None,
        },
{
    let (v, s) = match (version, snapshot) {
        (Some(v), Some(s)) => (v, s),
        _ => {
            return None;
        },
    };
    let usable = match s.version {
        Some(published) => published >= v,
        None => true,
    };
    if !usable {
        return None;
    }
    let copied = copy_diagnostics(&s.diagnostics);
    let ghost from = copied@;
    let mut diagnostics = collect(copied);
    if diagnostics.len() > max_results {
        diagnostics.truncate(max_results);
    }
    proof {
        let all = ranking::collected(from);
        assert(diagnostics@ =~= all.take(
            if all.len() <= max_results {
                all.len() as int
            } else {
                max_results as int
            },
        ));
    }
    let mut entries: Vec<DiagnosticBaselineEntry> = Vec::new();
    entries.push(
        DiagnosticBaselineEntry { server: server.to_owned(), text: text.to_owned(), diagnostics },
    );
    Some(DiagnosticBaseline { entries })
}

/// The list holds the first `max` of some findings, put in order and merged.
pub open spec fn bounded_findings(
    list: Seq<Diagnostic>,
    findings: Seq<DiagnosticView>,
    max: nat,
) -> bool {
    exists|all: Seq<Diagnostic>|
        types::found(all) == findings && list == (#[trigger] ranking::collected(all)).take(
            if ranking::collected(all).len() <= max {
                ranking::collected(all).len() as int
            } else {
                max as int
            },
        )
}

/// The waiting for what a server finds in a new text. Findings settle for a while
/// before they count, since servers publish in steps.
pub struct Waiting {
    /// Only what is published after this point counts.
    pub before_sequence: u64,
    pub version: i64,
    pub clean_settle: u64,
    pub diagnostic_settle: u64,
    pub candidate: Option<Candidate>,
}

/// Findings that count once their deadline has passed.
pub struct Candidate {
    pub sequence: u64,
    pub deadline: u64,
    pub diagnostics: Vec<Diagnostic>,
}

pub open spec fn least(a: u64, b: u64) -> u64 {
    if a <= b {
        a
    } else {
        b
    }
}

impl Waiting {
    /// Waits for what is published after a point. An empty list of findings settles
    /// two seconds, a filled one as configured, and neither longer than the timeout.
    pub fn new(before_sequence: u64, version: i64, timeout: u64, settle: u64) -> (out: Waiting)
        ensures
            out.before_sequence == before_sequence,
            out.version == version,
            out.clean_settle == least(timeout, 2_000),
            out.diagnostic_settle == least(timeout, settle),
            out.candidate is None,
    {
        Waiting {
            before_sequence,
            version,
            clean_settle: if timeout <= 2_000 {
                timeout
            } else {
                2_000
            },
            diagnostic_settle: if timeout <= settle {
                timeout
            } else {
                settle
            },
            candidate: None,
        }
    }

    /// Looks at what was published. Newer findings replace those that settle, and
    /// settle anew.
    pub fn observe(&mut self, published: &Published, path: &str, now: u64)
        ensures
            final(self).before_sequence == old(self).before_sequence,
            final(self).version == old(self).version,
            final(self).clean_settle == old(self).clean_settle,
            final(self).diagnostic_settle == old(self).diagnostic_settle,
            match published.at(path@) {
                Some(s) => if wire::newer(s, old(self).before_sequence, old(self).version) && !(
                old(self).candidate matches Some(c) && c.sequence == s.sequence) {
                    final(self).candidate matches Some(c) && c.sequence == s.sequence
                        && c.deadline == number::later(
                        now,
                        if s.diagnostics@.len() == 0 {
                            old(self).clean_settle
                        } else {
                            old(self).diagnostic_settle
                        },
                    ) && types::found(c.diagnostics@) == types::found(s.diagnostics@)
                } else {
                    final(self).candidate == old(self).candidate
                },
                None => final(self).candidate == old(self).candidate,
            },
    {
        match published.snapshot_after(path, self.before_sequence, self.version) {
            Some(s) => {
                let known = match &self.candidate {
                    Some(c) => c.sequence == s.sequence,
                    None => false,
                };
                if !known {
                    let wait: u64 = if s.diagnostics.len() == 0 {
                        self.clean_settle
                    } else {
                        self.diagnostic_settle
                    };
                    let deadline: u64 = if now > u64::MAX - wait {
                        u64::MAX
                    } else {
                        now + wait
                    };
                    self.candidate = Some(
                        Candidate {
                            sequence: s.sequence,
                            deadline,
                            diagnostics: copy_diagnostics(&s.diagnostics),
                        },
                    );
                }
            },
            None => {},
        }
    }

    /// Whether the findings have settled.
    pub fn settled(&self, now: u64) -> (yes: bool)
        ensures
            yes == (self.candidate matches Some(c) && now >= c.deadline),
    {
        match &self.candidate {
            Some(c) => now >= c.deadline,
            None => false,
        }
    }
}

/// A report of a server alone: the findings in order, those beyond the limit apart.
pub open spec fn fresh(
    out: DiagnosticReport,
    found: Seq<Diagnostic>,
    server: Seq<char>,
    root: Seq<char>,
    path: Seq<char>,
    version: i64,
    max: nat,
) -> bool {
    let all = ranking::collected(found);
    match out {
        DiagnosticReport::Fresh {
            server: s,
            root: r,
            sources,
            warnings,
            path: p,
            version: v,
            diagnostics,
            overflow,
            total,
            truncated,
            introduced,
            resolved,
        } => {
            &&& s@ == server
            &&& r@ == root
            &&& text::views(sources@) == seq![server]
            &&& warnings@.len() == 0
            &&& p@ == path
            &&& v == version
            &&& diagnostics@ + overflow@ == all
            &&& diagnostics@.len() == if all.len() > max {
                max
            } else {
                all.len()
            }
            &&& total == all.len()
            &&& truncated == (all.len() > max)
            &&& introduced is None
            &&& resolved is None
        },
        _ => false,
    }
}

/// The report of what a server found in a text.
pub fn fresh_report(
    server: &str,
    root: &str,
    path: &str,
    version: i64,
    diagnostics: Vec<Diagnostic>,
    max_results: usize,
) -> (out: DiagnosticReport)
    ensures
        fresh(out, diagnostics@, server@, root@, path@, version, max_results as nat),
{
    let mut diagnostics = collect(diagnostics);
    let ghost all = diagnostics@;
    let total: usize = diagnostics.len();
    let overflow = if total > max_results {
        diagnostics.split_off(max_results)
    } else {
        Vec::new()
    };
    assert(diagnostics@ + overflow@ =~= all);
    let mut sources: Vec<String> = Vec::new();
    sources.push(server.to_owned());
    assert(text::views(sources@) =~= seq![server@]);
    DiagnosticReport::Fresh {
        server: server.to_owned(),
        root: root.to_owned(),
        sources,
        warnings: Vec::new(),
        path: path.to_owned(),
        version,
        diagnostics,
        overflow,
        total,
        truncated: total > max_results,
        introduced: None,
        resolved: None,
    }
}

/// What a server found in a text: what settled in time; else what it gave when
/// asked; else nothing fresh, which is no clean file.
pub fn conclude(
    server: &str,
    root: &str,
    path: &str,
    version: i64,
    settled: Option<Vec<Diagnostic>>,
    pulled: Option<Vec<Diagnostic>>,
    waited_ms: u64,
    max_results: usize,
) -> (out: DiagnosticReport)
    ensures
        match (settled, pulled) {
            (Some(d), _) => fresh(out, d@, server@, root@, path@, version, max_results as nat),
            (None, Some(d)) => fresh(out, d@, server@, root@, path@, version, max_results as nat),
            (None, None) => match out {
                DiagnosticReport::NoFreshData {
                    server: s,
                    root: r,
                    path: p,
                    version: v,
                    waited_ms: w,
                } => s@ == server@ && r@ == root@ && p@ == path@ && v == version && w == waited_ms,
                _ => false,
            },
        },
{
    match settled {
        Some(d) => fresh_report(server, root, path, version, d, max_results),
        None => match pulled {
            Some(d) => fresh_report(server, root, path, version, d, max_results),
            None => DiagnosticReport::NoFreshData {
                server: server.to_owned(),
                root: root.to_owned(),
                path: path.to_owned(),
                version,
                waited_ms,
            },
        },
    }
}

/// Where a server neither published nor answered, the report is not fresh: silence
/// is no clean file.
pub proof fn law_silence_is_not_clean(
    out: DiagnosticReport,
    found: Seq<Diagnostic>,
    server: Seq<char>,
    root: Seq<char>,
    path: Seq<char>,
    version: i64,
    max: nat,
)
    requires
        fresh(out, found, server, root, path, version, max),
    ensures
        out is Fresh,
        out->Fresh_total == 0 <==> found.len() == 0,
{
    if found.len() > 0 {
        let _ = ranking::lemma_find_collected(found, 0);
    } else {
        assert(ranking::ranked(found) =~= seq![]);
        assert(ranking::collected(found) =~= seq![]);
    }
}

/// A report of a server alone on a query: the first `max` items, and the rest apart.
pub open spec fn answered<T>(
    out: QueryReport<T>,
    all: Seq<T>,
    server: Seq<char>,
    root: Seq<char>,
    max: nat,
) -> bool {
    match out {
        QueryReport::Ready {
            server: s,
            root: r,
            sources,
            warnings,
            items,
            overflow,
            total,
            truncated,
        } => {
            &&& s@ == server
            &&& r@ == root
            &&& text::views(sources@) == seq![server]
            &&& warnings@.len() == 0
            &&& items@ + overflow@ == all
            &&& items@.len() == if all.len() > max {
                max
            } else {
                all.len()
            }
            &&& total == all.len()
            &&& truncated == (all.len() > max)
        },
        _ => false,
    }
}

fn answer<T>(items: Vec<T>, server: &str, root: &str, max_results: usize) -> (out: QueryReport<T>)
    ensures
        answered(out, items@, server@, root@, max_results as nat),
{
    let mut items = items;
    let ghost all = items@;
    let total: usize = items.len();
    let overflow = if total > max_results {
        items.split_off(max_results)
    } else {
        Vec::new()
    };
    assert(items@ + overflow@ =~= all);
    let mut sources: Vec<String> = Vec::new();
    sources.push(server.to_owned());
    assert(text::views(sources@) =~= seq![server@]);
    QueryReport::Ready {
        server: server.to_owned(),
        root: root.to_owned(),
        sources,
        warnings: Vec::new(),
        items,
        overflow,
        total,
        truncated: total > max_results,
    }
}

/// The report of the places that a server found, in order.
pub fn location_report(items: Vec<Location>, server: &str, root: &str, max_results: usize) -> (out:
    QueryReport<Location>)
    ensures
        answered(out, ranking::settled(items@), server@, root@, max_results as nat),
{
    answer(settle(items), server, root, max_results)
}

/// The report of the symbols of a document or a call hierarchy, in the order in
/// which the server gave them.
pub fn symbol_report(items: Vec<Symbol>, server: &str, root: &str, max_results: usize) -> (out:
    QueryReport<Symbol>)
    ensures
        answered(out, ranking::merged(items@), server@, root@, max_results as nat),
{
    answer(merge(items), server, root, max_results)
}

/// A symbol that ranks by its name, file and line.
pub struct ByLine {
    pub symbol: Symbol,
}

impl Ranked for ByLine {
    open spec fn under(&self, other: &ByLine) -> bool {
        ||| order::before(self.symbol.name@, other.symbol.name@)
        ||| self.symbol.name@ == other.symbol.name@ && paths::path_before(
            self.symbol.location.path@,
            other.symbol.location.path@,
        )
        ||| self.symbol.name@ == other.symbol.name@ && paths::same_place(
            self.symbol.location.path@,
            other.symbol.location.path@,
        ) && self.symbol.location.range.start.line < other.symbol.location.range.start.line
    }

    open spec fn alike(&self, other: &ByLine) -> bool {
        self.symbol.alike(&other.symbol)
    }

    fn is_under(&self, other: &ByLine) -> (yes: bool) {
        let a = &self.symbol;
        let b = &other.symbol;
        if comes_before(a.name.as_str(), b.name.as_str()) {
            return true;
        }
        if !same(a.name.as_str(), b.name.as_str()) {
            return false;
        }
        path_comes_before(a.location.path.as_str(), b.location.path.as_str()) || (same_path(
            a.location.path.as_str(),
            b.location.path.as_str(),
        ) && a.location.range.start.line < b.location.range.start.line)
    }

    fn is_alike(&self, other: &ByLine) -> (yes: bool) {
        self.symbol.is_alike(&other.symbol)
    }

    proof fn reflexive(a: ByLine) {
        <Symbol as Ranked>::reflexive(a.symbol);
    }

    proof fn asymmetric(a: ByLine, b: ByLine) {
        order::lemma_before_total(a.symbol.name@, b.symbol.name@);
        paths::lemma_path_total(a.symbol.location.path@, b.symbol.location.path@);
    }

    proof fn transitive(a: ByLine, b: ByLine, c: ByLine) {
        let (x, y, z) = (a.symbol, b.symbol, c.symbol);
        order::lemma_before_total(x.name@, y.name@);
        order::lemma_before_total(y.name@, z.name@);
        order::lemma_before_total(x.name@, z.name@);
        if order::before(x.name@, y.name@) && order::before(y.name@, z.name@) {
            order::lemma_before_transitive(x.name@, y.name@, z.name@);
        }
        if order::before(z.name@, y.name@) && order::before(y.name@, x.name@) {
            order::lemma_before_transitive(z.name@, y.name@, x.name@);
        }
        paths::lemma_path_total(x.location.path@, y.location.path@);
        paths::lemma_path_total(y.location.path@, z.location.path@);
        paths::lemma_path_total(x.location.path@, z.location.path@);
        paths::lemma_path_transitive(x.location.path@, y.location.path@, z.location.path@);
        paths::lemma_path_transitive(z.location.path@, y.location.path@, x.location.path@);
    }
}

/// The symbols, to be ranked by line.
pub open spec fn by_line(v: Seq<Symbol>) -> Seq<ByLine> {
    v.map_values(|s: Symbol| ByLine { symbol: s })
}

/// The symbols that were ranked by line.
pub open spec fn unwrapped(v: Seq<ByLine>) -> Seq<Symbol> {
    v.map_values(|b: ByLine| b.symbol)
}

/// The report of the symbols that a search found, by name, file and line.
pub fn search_report(items: Vec<Symbol>, server: &str, root: &str, max_results: usize) -> (out:
    QueryReport<Symbol>)
    ensures
        answered(
            out,
            unwrapped(ranking::settled(by_line(items@))),
            server@,
            root@,
            max_results as nat,
        ),
{
    let ghost all = items@;
    let mut wrapped: Vec<ByLine> = Vec::new();
    for s in it: items
        invariant
            it.seq() == all,
            wrapped@ == by_line(all.take(it.index() as int)),
    {
        let ghost n = wrapped@.len();
        wrapped.push(ByLine { symbol: s });
        assert(wrapped@ =~= by_line(all.take(it.index() as int + 1)));
    }
    assert(all.take(all.len() as int) =~= all);
    let ranked = settle(wrapped);
    let ghost settled = ranked@;
    let mut plain: Vec<Symbol> = Vec::new();
    for b in it: ranked
        invariant
            it.seq() == settled,
            plain@ == unwrapped(settled.take(it.index() as int)),
    {
        plain.push(b.symbol);
        assert(plain@ =~= unwrapped(settled.take(it.index() as int + 1)));
    }
    assert(settled.take(settled.len() as int) =~= settled);
    answer(plain, server, root, max_results)
}

/// The report of a hover text: cut to the limit, and whole in the overflow where it
/// was cut.
pub fn hover_report(result: &Json, server: &str, root: &str, max_chars: usize) -> (out: QueryReport<
    Hover,
>)
    ensures
        ({
            let whole = match result@.field("contents"@) {
                Some(c) => Some(parse::cut(parse::contents_text(c), usize::MAX as nat)),
                None => None,
            };
            let range = match result@.field("range"@) {
                Some(r) => parse::range_in(r),
                None => None,
            };
            match out {
                QueryReport::Ready {
                    server: s,
                    root: r,
                    sources,
                    warnings,
                    items,
                    overflow,
                    total,
                    truncated,
                } => {
                    &&& s@ == server@
                    &&& r@ == root@
                    &&& text::views(sources@) == seq![server@]
                    &&& warnings@.len() == 0
                    &&& total == items@.len()
                    &&& match whole {
                        Some(w) => {
                            &&& items@.len() == 1
                            &&& items@[0].contents@ == parse::cut(w, max_chars as nat)
                            &&& items@[0].range == range
                            &&& truncated == (w.len() > max_chars)
                            &&& if truncated {
                                overflow@.len() == 1 && overflow@[0].contents@ == w
                                    && overflow@[0].range == range
                            } else {
                                overflow@.len() == 0
                            }
                        },
                        None => items@.len() == 0 && overflow@.len() == 0 && !truncated,
                    }
                },
                _ => false,
            }
        }),
{
    let mut items: Vec<Hover> = Vec::new();
    let mut overflow: Vec<Hover> = Vec::new();
    let mut truncated = false;
    match parse_hover(result, usize::MAX) {
        Some(h) => {
            let cut = truncate_chars(h.contents.as_str(), max_chars);
            items.push(Hover { contents: cut, range: h.range });
            if chars_of(h.contents.as_str()).len() > max_chars {
                truncated = true;
                overflow.push(h);
            }
        },
        None => {},
    }
    let mut sources: Vec<String> = Vec::new();
    sources.push(server.to_owned());
    assert(text::views(sources@) =~= seq![server@]);
    let total: usize = items.len();
    QueryReport::Ready {
        server: server.to_owned(),
        root: root.to_owned(),
        sources,
        warnings: Vec::new(),
        items,
        overflow,
        total,
        truncated,
    }
}

/// The item whose calls are asked for: the first that was prepared.
pub fn prepared_item(prepared: &Json) -> (out: Option<Json>)
    ensures
        types::json_view(out) == (if prepared@.items().len() > 0 {
            Some(prepared@.items()[0])
        } else {
            None
        }),
{
    match prepared.list() {
        Some(items) => if items.len() > 0 {
            assert(json::values(items@)[0] == items@[0]@);
            Some(items[0].copy())
        } else {
            None
        },
        None => None,
    }
}

/// The method that asks for the calls of an item.
pub fn calls_method(outgoing: bool) -> (out: &'static str)
    ensures
        out@ == (if outgoing {
            "callHierarchy/outgoingCalls"@
        } else {
            "callHierarchy/incomingCalls"@
        }),
{
    if outgoing {
        "callHierarchy/outgoingCalls"
    } else {
        "callHierarchy/incomingCalls"
    }
}

/// An object with one truth value.
pub open spec fn flag(key: Seq<char>, value: bool) -> JsonView {
    JsonView::Object(seq![(key, JsonView::Bool(value))])
}

/// What the client can do with the workspace.
pub open spec fn workspace_capabilities() -> JsonView {
    JsonView::Object(
        seq![
            ("configuration"@, JsonView::Bool(true)),
            ("workspaceFolders"@, JsonView::Bool(true)),
            (
                "symbol"@,
                JsonView::Object(
                    seq![
                        ("dynamicRegistration"@, JsonView::Bool(false)),
                        (
                            "resolveSupport"@,
                            JsonView::Object(
                                seq![
                                    (
                                        "properties"@,
                                        JsonView::List(seq![JsonView::Text("location.range"@)]),
                                    ),
                                ],
                            ),
                        ),
                    ],
                ),
            ),
        ],
    )
}

/// A method that is not registered later, and may answer with links.
pub open spec fn linked() -> JsonView {
    JsonView::Object(
        seq![
            ("dynamicRegistration"@, JsonView::Bool(false)),
            ("linkSupport"@, JsonView::Bool(true)),
        ],
    )
}

/// What the client can do with documents.
pub open spec fn document_capabilities() -> JsonView {
    JsonView::Object(
        seq![
            (
                "synchronization"@,
                JsonView::Object(
                    seq![
                        ("dynamicRegistration"@, JsonView::Bool(true)),
                        ("didSave"@, JsonView::Bool(true)),
                    ],
                ),
            ),
            (
                "publishDiagnostics"@,
                JsonView::Object(
                    seq![
                        ("versionSupport"@, JsonView::Bool(true)),
                        ("relatedInformation"@, JsonView::Bool(true)),
                        ("codeDescriptionSupport"@, JsonView::Bool(true)),
                        (
                            "tagSupport"@,
                            JsonView::Object(
                                seq![
                                    (
                                        "valueSet"@,
                                        JsonView::List(
                                            seq![JsonView::Unsigned(1), JsonView::Unsigned(2)],
                                        ),
                                    ),
                                ],
                            ),
                        ),
                    ],
                ),
            ),
            ("definition"@, linked()),
            ("implementation"@, linked()),
            ("references"@, flag("dynamicRegistration"@, false)),
            (
                "documentSymbol"@,
                JsonView::Object(
                    seq![
                        ("dynamicRegistration"@, JsonView::Bool(false)),
                        ("hierarchicalDocumentSymbolSupport"@, JsonView::Bool(true)),
                    ],
                ),
            ),
            ("callHierarchy"@, flag("dynamicRegistration"@, false)),
            (
                "hover"@,
                JsonView::Object(
                    seq![
                        ("dynamicRegistration"@, JsonView::Bool(false)),
                        (
                            "contentFormat"@,
                            JsonView::List(
                                seq![JsonView::Text("markdown"@), JsonView::Text("plaintext"@)],
                            ),
                        ),
                    ],
                ),
            ),
            (
                "diagnostic"@,
                JsonView::Object(
                    seq![
                        ("dynamicRegistration"@, JsonView::Bool(true)),
                        ("relatedDocumentSupport"@, JsonView::Bool(false)),
                    ],
                ),
            ),
        ],
    )
}

/// The parameters with which a server is initialised.
pub open spec fn initialize_rows(
    process: u64,
    client_version: Seq<char>,
    uri: Seq<char>,
    root: Seq<char>,
) -> Seq<(Seq<char>, JsonView)> {
    seq![
        ("processId"@, JsonView::Unsigned(process)),
        (
            "clientInfo"@,
            JsonView::Object(
                seq![
                    ("name"@, JsonView::Text("medha"@)),
                    ("version"@, JsonView::Text(client_version)),
                ],
            ),
        ),
        ("rootUri"@, JsonView::Text(uri)),
        (
            "capabilities"@,
            JsonView::Object(
                seq![
                    ("workspace"@, workspace_capabilities()),
                    ("textDocument"@, document_capabilities()),
                ],
            ),
        ),
        (
            "workspaceFolders"@,
            JsonView::List(
                seq![
                    JsonView::Object(
                        seq![
                            ("uri"@, JsonView::Text(uri)),
                            ("name"@, JsonView::Text(wire::root_name(root))),
                        ],
                    ),
                ],
            ),
        ),
    ]
}

fn workspace_value() -> (out: Json)
    ensures
        out@ == workspace_capabilities(),
{
    let mut properties: Vec<Json> = Vec::new();
    properties.push(string("location.range"));
    assert(json::values(properties@) =~= seq![JsonView::Text("location.range"@)]);
    object3(
        "configuration",
        Json::Bool(true),
        "workspaceFolders",
        Json::Bool(true),
        "symbol",
        object2(
            "dynamicRegistration",
            Json::Bool(false),
            "resolveSupport",
            object1("properties", array(properties)),
        ),
    )
}

fn linked_value() -> (out: Json)
    ensures
        out@ == linked(),
{
    object2("dynamicRegistration", Json::Bool(false), "linkSupport", Json::Bool(true))
}

fn push_entry(v: &mut Vec<(String, Json)>, key: &str, value: Json)
    ensures
        json::rows(final(v)@) == json::rows(old(v)@).push((key@, value@)),
{
    let ghost was = json::rows(v@);
    let ghost jv = value@;
    v.push((key.to_owned(), value));
    assert(json::rows(v@) =~= was.push((key@, jv)));
}

fn document_capabilities_value() -> (out: Json)
    ensures
        out@ == document_capabilities(),
{
    broadcast use json::lemma_object_view;

    let mut tags: Vec<Json> = Vec::new();
    tags.push(Json::Unsigned(1));
    tags.push(Json::Unsigned(2));
    assert(json::values(tags@) =~= seq![JsonView::Unsigned(1), JsonView::Unsigned(2)]);
    let mut formats: Vec<Json> = Vec::new();
    formats.push(string("markdown"));
    formats.push(string("plaintext"));
    assert(json::values(formats@) =~= seq![
        JsonView::Text("markdown"@),
        JsonView::Text("plaintext"@),
    ]);
    let mut v: Vec<(String, Json)> = Vec::new();
    assert(json::rows(v@) =~= seq![]);
    push_entry(
        &mut v,
        "synchronization",
        object2("dynamicRegistration", Json::Bool(true), "didSave", Json::Bool(true)),
    );
    push_entry(
        &mut v,
        "publishDiagnostics",
        object4(
            "versionSupport",
            Json::Bool(true),
            "relatedInformation",
            Json::Bool(true),
            "codeDescriptionSupport",
            Json::Bool(true),
            "tagSupport",
            object1("valueSet", array(tags)),
        ),
    );
    push_entry(&mut v, "definition", linked_value());
    push_entry(&mut v, "implementation", linked_value());
    push_entry(&mut v, "references", object1("dynamicRegistration", Json::Bool(false)));
    push_entry(
        &mut v,
        "documentSymbol",
        object2(
            "dynamicRegistration",
            Json::Bool(false),
            "hierarchicalDocumentSymbolSupport",
            Json::Bool(true),
        ),
    );
    push_entry(&mut v, "callHierarchy", object1("dynamicRegistration", Json::Bool(false)));
    push_entry(
        &mut v,
        "hover",
        object2("dynamicRegistration", Json::Bool(false), "contentFormat", array(formats)),
    );
    push_entry(
        &mut v,
        "diagnostic",
        object2("dynamicRegistration", Json::Bool(true), "relatedDocumentSupport", Json::Bool(false)),
    );
    assert(json::rows(v@) =~= document_capabilities()->Object_0);
    Json::Object(v)
}

/// The parameters with which a server is initialised, its settings among them where
/// it has any, or that its root has no address.
pub fn initialize_params(process: u64, client_version: &str, root: &str, settings: &Json) -> (out:
    Result<Json, Error>)
    ensures
        match urls::uri_of_path(root@) {
            Some(uri) => out matches Ok(v) && v@ == JsonView::Object(
                if settings@ is Null {
                    initialize_rows(process, client_version@, uri, root@)
                } else {
                    initialize_rows(process, client_version@, uri, root@).push(
                        ("initializationOptions"@, settings@),
                    )
                },
            ),
            None => out matches Err(Error::InvalidFileUri(p)) && p@ == root@,
        },
{
    broadcast use json::lemma_object_view;

    let uri = match file_address(root) {
        Some(u) => u,
        None => {
            return Err(Error::InvalidFileUri(root.to_owned()));
        },
    };
    let name = match paths::path_file_name(root) {
        Some(n) => n,
        None => "workspace".to_owned(),
    };
    let folder = object2("uri", string(uri.as_str()), "name", string(name.as_str()));
    let ghost fv = folder@;
    let mut folders: Vec<Json> = Vec::new();
    folders.push(folder);
    assert(json::values(folders@) =~= seq![fv]);
    let mut v: Vec<(String, Json)> = Vec::new();
    assert(json::rows(v@) =~= seq![]);
    push_entry(&mut v, "processId", Json::Unsigned(process));
    push_entry(
        &mut v,
        "clientInfo",
        object2("name", string("medha"), "version", string(client_version)),
    );
    push_entry(&mut v, "rootUri", string(uri.as_str()));
    push_entry(
        &mut v,
        "capabilities",
        object2(
            "workspace",
            workspace_value(),
            "textDocument",
            document_capabilities_value(),
        ),
    );
    push_entry(&mut v, "workspaceFolders", array(folders));
    assert(json::rows(v@) == initialize_rows(process, client_version@, uri@, root@));
    match settings {
        Json::Null => {},
        other => {
            push_entry(&mut v, "initializationOptions", other.copy());
        },
    }
    Ok(Json::Object(v))
}

/// How a server wants to be told of changes, by its answer to the initialisation:
/// with whole texts unless it says otherwise.
pub open spec fn announced_sync(result: JsonView) -> u64 {
    let sync = result.get("capabilities"@).field("textDocumentSync"@);
    let kind = match sync {
        Some(s) => match s.field("change"@) {
            Some(c) => c,
            None => s,
        },
        None => JsonView::Null,
    };
    match kind {
        JsonView::Unsigned(n) => if n < 2 {
            n
        } else {
            2
        },
        _ => 1,
    }
}

/// How a server wants to be told of changes.
pub fn initial_sync_kind(result: &Json) -> (out: u64)
    ensures
        out == announced_sync(result@),
{
    let sync = match result.field("capabilities") {
        Some(c) => c.field("textDocumentSync"),
        None => None,
    };
    let kind: Option<u64> = match sync {
        Some(s) => match s.field("change") {
            Some(c) => c.unsigned(),
            None => s.unsigned(),
        },
        None => None,
    };
    match kind {
        Some(n) => if n < 2 {
            n
        } else {
            2
        },
        None => 1,
    }
}

} // verus!

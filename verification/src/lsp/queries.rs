//! Queries on files: what each server is asked, and what the answers come to.

use vstd::prelude::*;
use vstd::string::*;
use crate::json;
use crate::json::{object1, string, Json, JsonView};
use crate::lsp::client;
use crate::lsp::client::{
    calls_method, document_params, location_report, prepared_item, references_params,
    search_report, symbol_report, text_document_position,
};
use crate::lsp::delta;
use crate::lsp::delta::{apply_diagnostic_delta, DiagnosticBaseline, DiagnosticBaselineEntry};
use crate::lsp::edits;
use crate::lsp::errors::Error;
use crate::lsp::manager;
use crate::lsp::manager::{Admission, ClientEntry, EntryView, LspManager, Resolved};
use crate::lsp::parse;
use crate::lsp::parse::{
    parse_call_hierarchy, parse_diagnostics, parse_document_symbols, parse_locations,
    parse_symbols, LocationView, SymbolView,
};
use crate::lsp::reports;
use crate::lsp::reports::{
    merge_diagnostic_reports, merge_hover_reports, merge_location_reports, merge_symbol_reports,
    DiagnosticReport, QueryReport,
};
use crate::lsp::types;
use crate::lsp::types::{Diagnostic, Hover, Location, Position, Symbol};
use crate::ranking;
use crate::paths;
use crate::text;
use crate::urls;

verus! {

/// What a server is asked about a file.
pub enum Query {
    Definition(Position),
    /// The places that use a symbol, with its declaration or without.
    References(Position, bool),
    Implementation(Position),
    Hover(Position),
    DocumentSymbols,
    /// The symbols of the whole workspace that match a text.
    WorkspaceSymbols(String),
    /// The item whose callers or callees are asked for next.
    CallHierarchy(Position),
}

impl Query {
    /// The method that asks.
    pub open spec fn method(self) -> Seq<char> {
        match self {
            Query::Definition(_) => "textDocument/definition"@,
            Query::References(_, _) => "textDocument/references"@,
            Query::Implementation(_) => "textDocument/implementation"@,
            Query::Hover(_) => "textDocument/hover"@,
            Query::DocumentSymbols => "textDocument/documentSymbol"@,
            Query::WorkspaceSymbols(_) => "workspace/symbol"@,
            Query::CallHierarchy(_) => "textDocument/prepareCallHierarchy"@,
        }
    }

    /// What the method is given, for a document with an address.
    pub open spec fn params(self, uri: Seq<char>) -> JsonView {
        match self {
            Query::Definition(p) | Query::Implementation(p) | Query::Hover(p)
            | Query::CallHierarchy(p) => client::position_params(uri, p),
            Query::References(p, declaration) => JsonView::Object(
                seq![
                    ("textDocument"@, JsonView::Object(seq![("uri"@, JsonView::Text(uri))])),
                    ("position"@, edits::position_json(p)),
                    (
                        "context"@,
                        JsonView::Object(seq![("includeDeclaration"@, JsonView::Bool(declaration))]),
                    ),
                ],
            ),
            Query::DocumentSymbols => client::document_id(uri),
            Query::WorkspaceSymbols(q) => JsonView::Object(seq![("query"@, JsonView::Text(q@))]),
        }
    }

    /// Whether the server must hold the file's current text before it is asked.
    pub fn needs_document(&self) -> (yes: bool)
        ensures
            yes == !(self is WorkspaceSymbols),
    {
        match self {
            Query::WorkspaceSymbols(_) => false,
            _ => true,
        }
    }

    /// The request for a file, or that its path has no address. A search of the
    /// workspace needs none.
    pub fn request(&self, path: &str) -> (out: Result<(&'static str, Json), Error>)
        ensures
            match out {
                Ok((method, params)) => {
                    &&& method@ == self.method()
                    &&& match urls::uri_of_path(path@) {
                        Some(uri) => params@ == self.params(uri),
                        None => self is WorkspaceSymbols && params@ == self.params(seq![]),
                    }
                },
                Err(e) => {
                    &&& !(self is WorkspaceSymbols)
                    &&& urls::uri_of_path(path@) is None
                    &&& e matches Error::InvalidFileUri(p) && p@ == path@
                },
            },
    {
        let (method, params) = match self {
            Query::Definition(p) => (
                "textDocument/definition",
                text_document_position(path, *p),
            ),
            Query::References(p, declaration) => (
                "textDocument/references",
                references_params(path, *p, *declaration),
            ),
            Query::Implementation(p) => (
                "textDocument/implementation",
                text_document_position(path, *p),
            ),
            Query::Hover(p) => ("textDocument/hover", text_document_position(path, *p)),
            Query::DocumentSymbols => ("textDocument/documentSymbol", document_params(path)),
            Query::WorkspaceSymbols(q) => (
                "workspace/symbol",
                Ok(object1("query", string(q.as_str()))),
            ),
            Query::CallHierarchy(p) => (
                "textDocument/prepareCallHierarchy",
                text_document_position(path, *p),
            ),
        };
        match params {
            Ok(v) => Ok((method, v)),
            Err(e) => Err(e),
        }
    }
}

/// The report gives these places, in order and merged.
pub open spec fn gives_places(
    out: QueryReport<Location>,
    found: Seq<LocationView>,
    server: Seq<char>,
    root: Seq<char>,
    max: nat,
) -> bool {
    exists|all: Seq<Location>|
        #[trigger] parse::places(all) == found && client::answered(
            out,
            ranking::settled(all),
            server,
            root,
            max,
        )
}

/// The report of a server's answer to a query for places.
pub fn places_report(result: &Json, server: &str, root: &str, max_results: usize) -> (out:
    QueryReport<Location>)
    ensures
        gives_places(
            out,
            parse::locations_in(result@),
            server@,
            root@,
            max_results as nat,
        ),
{
    let items = parse_locations(result);
    let ghost all = items@;
    let out = location_report(items, server, root, max_results);
    assert(parse::places(all) == parse::locations_in(result@));
    out
}

/// The report gives these symbols, in the order given, neighbours merged.
pub open spec fn gives_symbols(
    out: QueryReport<Symbol>,
    found: Seq<SymbolView>,
    server: Seq<char>,
    root: Seq<char>,
    max: nat,
) -> bool {
    exists|all: Seq<Symbol>|
        #[trigger] parse::symbols(all) == found && client::answered(
            out,
            ranking::merged(all),
            server,
            root,
            max,
        )
}

/// The report of a server's answer to a query for the symbols of a document.
pub fn outline_report(
    result: &Json,
    path: &str,
    server: &str,
    root: &str,
    max_results: usize,
) -> (out: QueryReport<Symbol>)
    ensures
        gives_symbols(
            out,
            parse::list_symbols(result@.items(), path@, None),
            server@,
            root@,
            max_results as nat,
        ),
{
    let items = parse_document_symbols(result, path);
    let ghost all = items@;
    let out = symbol_report(items, server, root, max_results);
    assert(parse::symbols(all) == parse::list_symbols(result@.items(), path@, None));
    out
}

/// The report gives these symbols, by name, file and line.
pub open spec fn gives_matches(
    out: QueryReport<Symbol>,
    found: Seq<SymbolView>,
    server: Seq<char>,
    root: Seq<char>,
    max: nat,
) -> bool {
    exists|all: Seq<Symbol>|
        #[trigger] parse::symbols(all) == found && client::answered(
            out,
            client::unwrapped(ranking::settled(client::by_line(all))),
            server,
            root,
            max,
        )
}

/// The report of a server's answer to a search of the workspace.
pub fn matches_report(result: &Json, server: &str, root: &str, max_results: usize) -> (out:
    QueryReport<Symbol>)
    ensures
        gives_matches(
            out,
            json::picked(result@.items(), parse::by_information()),
            server@,
            root@,
            max_results as nat,
        ),
{
    let items = parse_symbols(result);
    let ghost all = items@;
    let out = search_report(items, server, root, max_results);
    assert(parse::symbols(all) == json::picked(result@.items(), parse::by_information()));
    out
}

/// What follows once a call hierarchy was prepared.
pub enum Prepared {
    /// There is nothing at the position.
    Empty(QueryReport<Symbol>),
    /// This is asked next.
    Ask(&'static str, Json),
}

/// What follows once a call hierarchy was prepared: the callers or callees of the
/// first item are asked for.
pub fn prepared_calls(
    prepared: &Json,
    outgoing: bool,
    server: &str,
    root: &str,
    max_results: usize,
) -> (out: Prepared)
    ensures
        match out {
            Prepared::Empty(report) => prepared@.items().len() == 0 && gives_symbols(
                report,
                seq![],
                server@,
                root@,
                max_results as nat,
            ),
            Prepared::Ask(method, params) => {
                &&& prepared@.items().len() > 0
                &&& method@ == (if outgoing {
                    "callHierarchy/outgoingCalls"@
                } else {
                    "callHierarchy/incomingCalls"@
                })
                &&& params@ == JsonView::Object(seq![("item"@, prepared@.items()[0])])
            },
        },
{
    match prepared_item(prepared) {
        Some(item) => Prepared::Ask(calls_method(outgoing), object1("item", item)),
        None => {
            let none: Vec<Symbol> = Vec::new();
            let ghost all = none@;
            let report = symbol_report(none, server, root, max_results);
            assert(parse::symbols(all) =~= seq![]);
            Prepared::Empty(report)
        },
    }
}

/// The report of the callers or callees that a server gave.
pub fn calls_report(
    result: &Json,
    outgoing: bool,
    server: &str,
    root: &str,
    max_results: usize,
) -> (out: QueryReport<Symbol>)
    ensures
        gives_symbols(
            out,
            json::picked(result@.items(), parse::by_call(outgoing)),
            server@,
            root@,
            max_results as nat,
        ),
{
    let items = parse_call_hierarchy(result, outgoing);
    let ghost all = items@;
    let out = symbol_report(items, server, root, max_results);
    assert(parse::symbols(all) == json::picked(result@.items(), parse::by_call(outgoing)));
    out
}

/// The findings that a server gave when it was asked for them.
pub fn pulled_diagnostics(result: &Json) -> (out: Option<Vec<Diagnostic>>)
    ensures
        match (out, result@.field("items"@)) {
            (Some(v), Some(items)) => types::found(v@) == json::picked(
                items.items(),
                parse::by_diagnostic(),
            ),
            (None, None) => true,
            _ => false,
        },
{
    match result.field("items") {
        Some(items) => Some(parse_diagnostics(items)),
        None => None,
    }
}

/// What came of asking one server.
pub enum Asked<T> {
    /// It was not there to be asked.
    Absent(Error),
    /// It was asked and failed.
    Failed(Error),
    Answered(T),
}

/// Accepts servers that were not there.
pub open spec fn absent<T>() -> spec_fn(Asked<T>) -> bool {
    |a: Asked<T>| a is Absent
}

/// Accepts servers that were asked.
pub open spec fn present<T>() -> spec_fn(Asked<T>) -> bool {
    |a: Asked<T>| !(a is Absent)
}

/// The servers that were not there, and then those that were asked.
pub open spec fn arranged<T>(v: Seq<Asked<T>>) -> Seq<Asked<T>> {
    v.filter(absent()) + v.filter(present())
}

fn arrange<T>(v: Vec<Asked<T>>) -> (out: Vec<Asked<T>>)
    ensures
        out@ == arranged(v@),
{
    let ghost all = v@;
    let mut first: Vec<Asked<T>> = Vec::new();
    let mut rest: Vec<Asked<T>> = Vec::new();
    proof {
        reveal(Seq::filter);
        assert(all.take(0).filter(absent()) =~= seq![]);
        assert(all.take(0).filter(present()) =~= seq![]);
    }
    for a in it: v
        invariant
            it.seq() == all,
            first@ == all.take(it.index() as int).filter(absent()),
            rest@ == all.take(it.index() as int).filter(present()),
    {
        proof {
            let k = it.index() as int;
            reveal(Seq::filter);
            assert(all.take(k + 1).drop_last() =~= all.take(k));
            assert(all.take(k + 1).last() == a);
        }
        match a {
            Asked::Absent(e) => first.push(Asked::Absent(e)),
            a => rest.push(a),
        }
    }
    assert(all.take(all.len() as int) =~= all);
    first.append(&mut rest);
    first
}

/// A server's answer; where it failed, the reason in its place.
pub open spec fn stands_for<T>(report: QueryReport<T>, a: Asked<QueryReport<T>>) -> bool {
    match a {
        Asked::Answered(r) => report == r,
        Asked::Absent(e) | Asked::Failed(e) => report matches QueryReport::Unavailable { reason }
            && reason@ == e.message(),
    }
}

/// The reports stand for the servers, one for one.
pub open spec fn stand_for<T>(reports: Seq<QueryReport<T>>, v: Seq<Asked<QueryReport<T>>>) -> bool {
    &&& reports.len() == v.len()
    &&& forall|i: int| 0 <= i < v.len() ==> stands_for(#[trigger] reports[i], v[i])
}

/// How many results the servers counted.
pub open spec fn counted<T>(v: Seq<Asked<QueryReport<T>>>) -> nat
    decreases v.len(),
{
    if v.len() == 0 {
        0
    } else {
        counted(v.drop_last()) + match v.last() {
            Asked::Answered(QueryReport::Ready { total, .. }) => total as nat,
            _ => 0,
        }
    }
}

proof fn lemma_counted<T>(r: Seq<QueryReport<T>>, v: Seq<Asked<QueryReport<T>>>, apart: bool)
    requires
        stand_for(r, v),
    ensures
        reports::gathered(r, apart).total == counted(v),
    decreases v.len(),
{
    if v.len() > 0 {
        let (a, b) = (r.drop_last(), v.drop_last());
        assert forall|i: int| 0 <= i < b.len() implies stands_for(#[trigger] a[i], b[i]) by {
            assert(a[i] == r[i] && b[i] == v[i]);
        }
        lemma_counted(a, b, apart);
        assert(stands_for(r[v.len() - 1], v[v.len() - 1]));
    }
}

proof fn lemma_count_sum<T>(a: Seq<Asked<QueryReport<T>>>, b: Seq<Asked<QueryReport<T>>>)
    ensures
        counted(a + b) == counted(a) + counted(b),
    decreases b.len(),
{
    if b.len() == 0 {
        assert(a + b =~= a);
    } else {
        assert((a + b).drop_last() =~= a + b.drop_last());
        assert((a + b).last() == b.last());
        lemma_count_sum(a, b.drop_last());
    }
}

proof fn lemma_count_split<T>(v: Seq<Asked<QueryReport<T>>>)
    ensures
        counted(arranged(v)) == counted(v),
    decreases v.len(),
{
    reveal(Seq::filter);
    if v.len() > 0 {
        let head = v.drop_last();
        lemma_count_split(head);
        let (a, b) = (head.filter(absent()), head.filter(present()));
        if v.last() is Absent {
            lemma_count_sum(a.push(v.last()), b);
            lemma_count_sum(a, b);
            assert(a.push(v.last()).drop_last() =~= a);
        } else {
            assert((a + b.push(v.last())).drop_last() =~= a + b);
            assert((a + b.push(v.last())).last() == v.last());
        }
    } else {
        assert(arranged(v) =~= v);
    }
}

/// A report for each server: those that were not there first, then those that were
/// asked.
fn query_clients<T>(answers: Vec<Asked<QueryReport<T>>>) -> (out: Vec<QueryReport<T>>)
    ensures
        stand_for(out@, arranged(answers@)),
{
    let v = arrange(answers);
    let ghost all = v@;
    let mut out: Vec<QueryReport<T>> = Vec::new();
    for a in it: v
        invariant
            it.seq() == all,
            out@.len() == it.index(),
            forall|i: int| 0 <= i < it.index() ==> stands_for(#[trigger] out@[i], all[i]),
    {
        let report = match a {
            Asked::Answered(r) => r,
            Asked::Absent(e) => QueryReport::Unavailable { reason: e.text() },
            Asked::Failed(e) => QueryReport::Unavailable { reason: e.text() },
        };
        out.push(report);
    }
    out
}

/// The answers make this report: no server can be asked, or what all of them said,
/// merged.
pub open spec fn settles<T: ranking::Ranked>(
    m: LspManager,
    path: Seq<char>,
    answers: Seq<Asked<QueryReport<T>>>,
    apart: bool,
    out: QueryReport<T>,
) -> bool {
    if !m.config.enabled {
        out matches QueryReport::Unavailable { reason } && reason@ == Error::Disabled.message()
    } else if !m.serves(path) {
        out matches QueryReport::Unsupported { path: p } && p@ == path
    } else {
        exists|r: Seq<QueryReport<T>>|
            #[trigger] stand_for(r, arranged(answers)) && reports::reports(
                out,
                reports::gathered(r, apart),
                ranking::settled(reports::gathered(r, apart).items),
                m.workspace@,
                m.config.max_results as nat,
            )
    }
}

/// The report stands for the server's answer on a file's findings; where it failed,
/// the reason in its place.
pub open spec fn finding_stands_for(
    report: DiagnosticReport,
    a: Asked<DiagnosticReport>,
    path: Seq<char>,
) -> bool {
    match a {
        Asked::Answered(r) => report == r,
        Asked::Absent(e) | Asked::Failed(e) => report matches DiagnosticReport::Unavailable {
            path: p,
            reason,
        } && p@ == path && reason@ == e.message(),
    }
}

/// The reports stand for the servers, one for one.
pub open spec fn findings_stand_for(
    reports: Seq<DiagnosticReport>,
    v: Seq<Asked<DiagnosticReport>>,
    path: Seq<char>,
) -> bool {
    &&& reports.len() == v.len()
    &&& forall|i: int| 0 <= i < v.len() ==> finding_stands_for(#[trigger] reports[i], v[i], path)
}

/// How many findings a server counted.
pub open spec fn tally(r: DiagnosticReport) -> nat {
    match r {
        DiagnosticReport::Fresh { total, .. } => total as nat,
        _ => 0,
    }
}

/// How many findings the servers counted.
pub open spec fn tallied(v: Seq<Asked<DiagnosticReport>>) -> nat
    decreases v.len(),
{
    if v.len() == 0 {
        0
    } else {
        tallied(v.drop_last()) + match v.last() {
            Asked::Answered(r) => tally(r),
            _ => 0,
        }
    }
}

proof fn lemma_tallied(
    r: Seq<DiagnosticReport>,
    v: Seq<Asked<DiagnosticReport>>,
    path: Seq<char>,
)
    requires
        findings_stand_for(r, v, path),
    ensures
        reports::diagnosed(r).total == tallied(v),
    decreases v.len(),
{
    if v.len() > 0 {
        let (a, b) = (r.drop_last(), v.drop_last());
        assert forall|i: int|
            0 <= i < b.len() implies finding_stands_for(#[trigger] a[i], b[i], path) by {
            assert(a[i] == r[i] && b[i] == v[i]);
        }
        lemma_tallied(a, b, path);
        assert(finding_stands_for(r[v.len() - 1], v[v.len() - 1], path));
    }
}

/// The answers make this report of a file's findings: no server can be asked, or
/// what all of them said, merged.
pub open spec fn diagnosis(
    m: LspManager,
    path: Seq<char>,
    answers: Seq<Asked<DiagnosticReport>>,
    out: DiagnosticReport,
) -> bool {
    if !m.config.enabled {
        out matches DiagnosticReport::Unavailable { path: p, reason } && p@ == path && reason@
            == Error::Disabled.message()
    } else if !m.serves(path) {
        out matches DiagnosticReport::Unsupported { path: p } && p@ == path
    } else {
        exists|r: Seq<DiagnosticReport>|
            #[trigger] findings_stand_for(r, arranged(answers), path) && reports::diagnoses(
                out,
                reports::diagnosed(r),
                path,
                m.workspace@,
                m.config.max_results as nat,
            )
    }
}

/// What an edited file's server said.
pub enum Edited {
    /// It has published nothing yet, and was only given the text.
    Cold { server: String, root: String, version: i64 },
    /// Its report on the new text.
    Warm(DiagnosticReport),
}

/// The report on an edit. A cold server is never waited for: its report is stale.
pub open spec fn edit_report(
    a: Edited,
    path: Seq<char>,
    baseline: Option<&DiagnosticBaseline>,
    new_text: Seq<char>,
    out: DiagnosticReport,
) -> bool {
    match a {
        Edited::Cold { server, root, version } => out matches DiagnosticReport::NoFreshData {
            server: s,
            root: r,
            path: p,
            version: v,
            waited_ms,
        } && s == server && r == root && p@ == path && v == version && waited_ms == 0,
        Edited::Warm(report) => delta::changed(report, baseline, new_text, out),
    }
}

/// The answers on an edit, each turned into a report.
pub open spec fn edit_reports(
    v: Seq<Asked<Edited>>,
    path: Seq<char>,
    baseline: Option<&DiagnosticBaseline>,
    new_text: Seq<char>,
    out: Seq<Asked<DiagnosticReport>>,
) -> bool {
    &&& out.len() == v.len()
    &&& forall|i: int|
        0 <= i < v.len() ==> match ((#[trigger] out[i]), v[i]) {
            (Asked::Absent(e), Asked::Absent(f)) => e == f,
            (Asked::Failed(e), Asked::Failed(f)) => e == f,
            (Asked::Answered(r), Asked::Answered(a)) => edit_report(
                a,
                path,
                baseline,
                new_text,
                r,
            ),
            _ => false,
        }
}

/// How many findings the servers counted after an edit.
pub open spec fn edit_tally(v: Seq<Asked<Edited>>) -> nat
    decreases v.len(),
{
    if v.len() == 0 {
        0
    } else {
        edit_tally(v.drop_last()) + match v.last() {
            Asked::Answered(Edited::Warm(r)) => tally(r),
            _ => 0,
        }
    }
}

proof fn lemma_edit_tally(
    v: Seq<Asked<Edited>>,
    path: Seq<char>,
    baseline: Option<&DiagnosticBaseline>,
    new_text: Seq<char>,
    out: Seq<Asked<DiagnosticReport>>,
)
    requires
        edit_reports(v, path, baseline, new_text, out),
    ensures
        tallied(out) == edit_tally(v),
    decreases v.len(),
{
    if v.len() > 0 {
        let (a, b) = (v.drop_last(), out.drop_last());
        assert forall|i: int| 0 <= i < a.len() implies b[i] == out[i] && a[i] == v[i] by {}
        lemma_edit_tally(a, path, baseline, new_text, b);
        assert(out[v.len() - 1] == out.last());
    }
}

proof fn lemma_tally_split(v: Seq<Asked<DiagnosticReport>>)
    ensures
        tallied(arranged(v)) == tallied(v),
    decreases v.len(),
{
    reveal(Seq::filter);
    if v.len() > 0 {
        let head = v.drop_last();
        lemma_tally_split(head);
        let (a, b) = (head.filter(absent()), head.filter(present()));
        if v.last() is Absent {
            lemma_tally_sum(a.push(v.last()), b);
            lemma_tally_sum(a, b);
            assert(a.push(v.last()).drop_last() =~= a);
        } else {
            assert((a + b.push(v.last())).drop_last() =~= a + b);
            assert((a + b.push(v.last())).last() == v.last());
        }
    } else {
        assert(arranged(v) =~= v);
    }
}

proof fn lemma_tally_sum(a: Seq<Asked<DiagnosticReport>>, b: Seq<Asked<DiagnosticReport>>)
    ensures
        tallied(a + b) == tallied(a) + tallied(b),
    decreases b.len(),
{
    if b.len() == 0 {
        assert(a + b =~= a);
    } else {
        assert((a + b).drop_last() =~= a + b.drop_last());
        assert((a + b).last() == b.last());
        lemma_tally_sum(a, b.drop_last());
    }
}

/// The entries of the baselines that servers have, in order.
pub open spec fn all_entries(v: Seq<Option<DiagnosticBaseline>>) -> Seq<DiagnosticBaselineEntry>
    decreases v.len(),
{
    if v.len() == 0 {
        seq![]
    } else {
        all_entries(v.drop_last()) + match v.last() {
            Some(b) => b.entries@,
            None => seq![],
        }
    }
}

/// A server that was approved, and what has to happen for it to run.
pub struct Start {
    pub chosen: Resolved,
    /// The one that failed before, to be shut down first.
    pub parked: Option<ClientEntry>,
    pub fresh: bool,
    pub retired: Option<ClientEntry>,
    pub evicted: Option<ClientEntry>,
}

/// The server that failed before, and the servers without it.
pub open spec fn unparked(v: Seq<EntryView>, server: Seq<char>, root: Seq<char>) -> (
    Option<EntryView>,
    Seq<EntryView>,
) {
    match manager::entry_at(v, server, root, 0) {
        Some(i) => if v[i].failures > 0 {
            (Some(v[i]), v.remove(i))
        } else {
            (None, v)
        },
        None => (None, v),
    }
}

impl LspManager {
    /// What the findings of a file come to. The answers are those of the servers
    /// that serve it, in their order.
    pub fn diagnostics(&self, path: &str, answers: Vec<Asked<DiagnosticReport>>) -> (out:
        DiagnosticReport)
        requires
            tallied(answers@) <= usize::MAX,
        ensures
            diagnosis(*self, path@, answers@, out),
    {
        if !self.config.enabled {
            return DiagnosticReport::Unavailable {
                path: path.to_owned(),
                reason: Error::Disabled.text(),
            };
        }
        if !self.supports(path) {
            return DiagnosticReport::Unsupported { path: path.to_owned() };
        }
        proof {
            lemma_tally_split(answers@);
        }
        let v = arrange(answers);
        let ghost all = v@;
        let mut found: Vec<DiagnosticReport> = Vec::new();
        for a in it: v
            invariant
                it.seq() == all,
                found@.len() == it.index(),
                forall|i: int|
                    0 <= i < it.index() ==> finding_stands_for(
                        #[trigger] found@[i],
                        all[i],
                        path@,
                    ),
        {
            let report = match a {
                Asked::Answered(r) => r,
                Asked::Absent(e) => DiagnosticReport::Unavailable {
                    path: path.to_owned(),
                    reason: e.text(),
                },
                Asked::Failed(e) => DiagnosticReport::Unavailable {
                    path: path.to_owned(),
                    reason: e.text(),
                },
            };
            found.push(report);
        }
        proof {
            assert(findings_stand_for(found@, all, path@));
            lemma_tallied(found@, all, path@);
        }
        merge_diagnostic_reports(
            found,
            path,
            self.workspace.as_str(),
            self.config.max_results,
        )
    }

    /// What the findings of a file come to after an edit, with what the edit
    /// introduced and resolved.
    pub fn diagnostics_after_edit(
        &self,
        path: &str,
        new_text: &str,
        baseline: Option<&DiagnosticBaseline>,
        answers: Vec<Asked<Edited>>,
    ) -> (out: DiagnosticReport)
        requires
            edit_tally(answers@) <= usize::MAX,
        ensures
            exists|r: Seq<Asked<DiagnosticReport>>|
                #[trigger] edit_reports(answers@, path@, baseline, new_text@, r) && diagnosis(
                    *self,
                    path@,
                    r,
                    out,
                ),
    {
        let ghost all = answers@;
        let mut v: Vec<Asked<DiagnosticReport>> = Vec::new();
        for a in it: answers
            invariant
                it.seq() == all,
                edit_reports(all.take(it.index() as int), path@, baseline, new_text@, v@),
        {
            let ghost was = v@;
            let ghost k = it.index() as int;
            let asked = match a {
                Asked::Absent(e) => Asked::Absent(e),
                Asked::Failed(e) => Asked::Failed(e),
                Asked::Answered(Edited::Cold { server, root, version }) => Asked::Answered(
                    DiagnosticReport::NoFreshData {
                        server,
                        root,
                        path: path.to_owned(),
                        version,
                        waited_ms: 0,
                    },
                ),
                Asked::Answered(Edited::Warm(report)) => Asked::Answered(
                    apply_diagnostic_delta(report, baseline, new_text),
                ),
            };
            v.push(asked);
            proof {
                let now = all.take(k + 1);
                assert(now[k] == a);
                assert forall|i: int| 0 <= i < k implies now[i] == all.take(k)[i] && v@[i]
                    == was[i] by {}
            }
        }
        assert(all.take(all.len() as int) =~= all);
        proof {
            lemma_edit_tally(all, path@, baseline, new_text@, v@);
        }
        self.diagnostics(path, v)
    }

    /// The baselines of a file's servers, as one; none where no server has one.
    pub fn diagnostic_baseline(&self, path: &str, baselines: Vec<Option<DiagnosticBaseline>>) -> (
        out: Option<DiagnosticBaseline>)
        ensures
            match out {
                Some(b) => self.config.enabled && self.serves(path@) && b.entries@.len() > 0
                    && b.entries@ == all_entries(baselines@),
                None => !self.config.enabled || !self.serves(path@) || all_entries(
                    baselines@,
                ).len() == 0,
            },
    {
        if !self.config.enabled || !self.supports(path) {
            return None;
        }
        let ghost all = baselines@;
        let mut entries: Vec<DiagnosticBaselineEntry> = Vec::new();
        for b in it: baselines
            invariant
                it.seq() == all,
                entries@ == all_entries(all.take(it.index() as int)),
        {
            proof {
                let k = it.index() as int;
                assert(all.take(k + 1).drop_last() =~= all.take(k));
                assert(all.take(k + 1).last() == b);
            }
            match b {
                Some(b) => {
                    let mut more = b.entries;
                    entries.append(&mut more);
                },
                None => {},
            }
        }
        assert(all.take(all.len() as int) =~= all);
        if entries.len() > 0 {
            Some(DiagnosticBaseline { entries })
        } else {
            None
        }
    }

    fn locate(&self, path: &str, answers: Vec<Asked<QueryReport<Location>>>) -> (out: QueryReport<
        Location,
    >)
        requires
            counted(answers@) <= usize::MAX,
        ensures
            settles(*self, path@, answers@, false, out),
    {
        match self.unsupported_or_disabled(path) {
            Some(report) => report,
            None => {
                let found = query_clients(answers);
                proof {
                    lemma_count_split(answers@);
                    lemma_counted(found@, arranged(answers@), false);
                }
                merge_location_reports(found, self.workspace.as_str(), self.config.max_results)
            },
        }
    }

    fn name_symbols(&self, path: &str, answers: Vec<Asked<QueryReport<Symbol>>>) -> (out:
        QueryReport<Symbol>)
        requires
            counted(answers@) <= usize::MAX,
        ensures
            settles(*self, path@, answers@, false, out),
    {
        match self.unsupported_or_disabled(path) {
            Some(report) => report,
            None => {
                let found = query_clients(answers);
                proof {
                    lemma_count_split(answers@);
                    lemma_counted(found@, arranged(answers@), false);
                }
                merge_symbol_reports(found, self.workspace.as_str(), self.config.max_results)
            },
        }
    }

    /// Where the symbol at a position is defined, from what each server said.
    pub fn definition(&self, path: &str, answers: Vec<Asked<QueryReport<Location>>>) -> (out:
        QueryReport<Location>)
        requires
            counted(answers@) <= usize::MAX,
        ensures
            settles(*self, path@, answers@, false, out),
    {
        self.locate(path, answers)
    }

    /// Where the symbol at a position is used, from what each server said.
    pub fn references(&self, path: &str, answers: Vec<Asked<QueryReport<Location>>>) -> (out:
        QueryReport<Location>)
        requires
            counted(answers@) <= usize::MAX,
        ensures
            settles(*self, path@, answers@, false, out),
    {
        self.locate(path, answers)
    }

    /// Where the symbol at a position is implemented, from what each server said.
    pub fn implementations(&self, path: &str, answers: Vec<Asked<QueryReport<Location>>>) -> (out:
        QueryReport<Location>)
        requires
            counted(answers@) <= usize::MAX,
        ensures
            settles(*self, path@, answers@, false, out),
    {
        self.locate(path, answers)
    }

    /// What is known of the symbol at a position, from what each server said.
    pub fn hover(&self, path: &str, answers: Vec<Asked<QueryReport<Hover>>>) -> (out: QueryReport<
        Hover,
    >)
        requires
            counted(answers@) <= usize::MAX,
        ensures
            settles(*self, path@, answers@, true, out),
    {
        match self.unsupported_or_disabled(path) {
            Some(report) => report,
            None => {
                let found = query_clients(answers);
                proof {
                    lemma_count_split(answers@);
                    lemma_counted(found@, arranged(answers@), true);
                }
                merge_hover_reports(found, self.workspace.as_str(), self.config.max_results)
            },
        }
    }

    /// The symbols of the workspace that match, from what each server of a file said.
    pub fn workspace_symbols(&self, path: &str, answers: Vec<Asked<QueryReport<Symbol>>>) -> (out:
        QueryReport<Symbol>)
        requires
            counted(answers@) <= usize::MAX,
        ensures
            settles(*self, path@, answers@, false, out),
    {
        self.name_symbols(path, answers)
    }

    /// The symbols of a file, from what each server said.
    pub fn document_symbols(&self, path: &str, answers: Vec<Asked<QueryReport<Symbol>>>) -> (out:
        QueryReport<Symbol>)
        requires
            counted(answers@) <= usize::MAX,
        ensures
            settles(*self, path@, answers@, false, out),
    {
        self.name_symbols(path, answers)
    }

    /// The callers or callees of the symbol at a position, from what each server
    /// said.
    pub fn call_hierarchy(&self, path: &str, answers: Vec<Asked<QueryReport<Symbol>>>) -> (out:
        QueryReport<Symbol>)
        requires
            counted(answers@) <= usize::MAX,
        ensures
            settles(*self, path@, answers@, false, out),
    {
        self.name_symbols(path, answers)
    }

    /// The start changes nothing but who is approved and which servers there are.
    pub open spec fn started(
        self,
        now: u64,
        server: Seq<char>,
        root: Seq<char>,
        after: LspManager,
    ) -> bool {
        let (_, rest) = unparked(manager::entries(self.clients@), server, root);
        &&& after.workspace == self.workspace
        &&& after.config == self.config
        &&& manager::keys(after.approved_servers@) == manager::keys(self.approved_servers@).push(
            (server, root),
        )
        &&& manager::entries(after.clients@) == manager::admission(
            rest,
            self.limits(),
            server,
            root,
            now,
        ).clients
    }

    /// Approves the server of a file and asks for it. An explicit start is also a
    /// fresh one: a server that failed before gives up its place and its count of
    /// failures.
    pub fn approve_and_start_for(
        &mut self,
        path: &str,
        is_dir: bool,
        files: &Vec<String>,
        server_id: Option<&str>,
        now: u64,
    ) -> (out: Result<Start, Error>)
        requires
            old(self).wf(),
        ensures
            final(self).wf(),
            ({
                let all = old(self).candidates(path@, is_dir, text::views(files@));
                let id = match server_id {
                    Some(s) => Some(s@),
                    None => None,
                };
                match (old(self).refusal(path@, is_dir, text::views(files@)), manager::start_choice(all, id)) {
                    (Some(m), _) => *final(self) == *old(self) && (out matches Err(e) && e.message() == m),
                    (None, None) => *final(self) == *old(self) && (out matches Err(e)
                        && match server_id {
                        Some(_) => e matches Error::UnsupportedFile(p) && p@ == path@,
                        None => e matches Error::AmbiguousServers(names) && names@
                            == manager::start_options(all),
                    }),
                    (None, Some((adapter, root))) => {
                        let (parked, rest) = unparked(
                            manager::entries(old(self).clients@),
                            adapter.id,
                            root,
                        );
                        let a = manager::admission(
                            rest,
                            old(self).limits(),
                            adapter.id,
                            root,
                            now,
                        );
                        &&& old(self).started(now, adapter.id, root, *final(self))
                        &&& match out {
                            Ok(s) => {
                                &&& !a.full
                                &&& s.chosen.adapter@ == adapter
                                &&& s.chosen.root@ == root
                                &&& manager::entry_view(s.parked) == parked
                                &&& s.fresh == a.fresh
                                &&& manager::entry_view(s.retired) == a.retired
                                &&& manager::entry_view(s.evicted) == a.evicted
                            },
                            Err(e) => a.full && (e matches Error::Capacity(n) && n
                                == old(self).config.max_servers),
                        }
                    },
                }
            }),
    {
        let chosen = match self.resolve_start_server(path, is_dir, files, server_id) {
            Ok(r) => r,
            Err(e) => {
                return Err(e);
            },
        };
        let parked = self.approve(chosen.adapter.id.as_str(), chosen.root.as_str());
        proof {
            let v = manager::entries(old(self).clients@);
            let i = manager::entry_at(v, chosen.adapter.id@, chosen.root@, 0);
            if i is Some {
                manager::lemma_entry_at(v, chosen.adapter.id@, chosen.root@, 0);
                assert(v[i->0] == old(self).clients@[i->0]@);
            }
        }
        match self.client_for_resolved(
            chosen.adapter.id.as_str(),
            chosen.root.as_str(),
            chosen.adapter.requires_approval,
            now,
        ) {
            Admission::Granted { fresh, retired, evicted } => Ok(
                Start { chosen, parked, fresh, retired, evicted },
            ),
            _ => Err(Error::Capacity(self.config.max_servers)),
        }
    }

    /// Approves the only server of a file and asks for it.
    pub fn approve_and_start(&mut self, path: &str, is_dir: bool, files: &Vec<String>, now: u64) -> (
        out: Result<Start, Error>)
        requires
            old(self).wf(),
        ensures
            final(self).wf(),
            ({
                let all = old(self).candidates(path@, is_dir, text::views(files@));
                match (
                    old(self).refusal(path@, is_dir, text::views(files@)),
                    manager::start_choice(all, None),
                ) {
                    (Some(m), _) => *final(self) == *old(self) && (out matches Err(e) && e.message() == m),
                    (None, None) => *final(self) == *old(self) && (
                    out matches Err(Error::AmbiguousServers(names)) && names@
                        == manager::start_options(all)),
                    (None, Some((adapter, root))) => {
                        let (parked, rest) = unparked(
                            manager::entries(old(self).clients@),
                            adapter.id,
                            root,
                        );
                        let a = manager::admission(
                            rest,
                            old(self).limits(),
                            adapter.id,
                            root,
                            now,
                        );
                        &&& old(self).started(now, adapter.id, root, *final(self))
                        &&& match out {
                            Ok(s) => !a.full && s.chosen.adapter@ == adapter && s.chosen.root@
                                == root && manager::entry_view(s.parked) == parked && s.fresh
                                == a.fresh && manager::entry_view(s.retired) == a.retired
                                && manager::entry_view(s.evicted) == a.evicted,
                            Err(e) => a.full && (e matches Error::Capacity(n) && n
                                == old(self).config.max_servers),
                        }
                    },
                }
            }),
    {
        self.approve_and_start_for(path, is_dir, files, None, now)
    }
}

/// An explicit start is the way back for a server that used up its restarts: it
/// always finds a place, is started, and its count of failures begins anew.
pub proof fn law_explicit_start_clears_failures(
    v: Seq<EntryView>,
    limits: manager::Limits,
    server: Seq<char>,
    root: Seq<char>,
    now: u64,
)
    requires
        manager::separate(v),
        v.len() <= limits.max_servers,
        manager::entry_at(v, server, root, 0) matches Some(i) && v[i].failures > 0,
    ensures
        ({
            let a = manager::admission(unparked(v, server, root).1, limits, server, root, now);
            &&& a.fresh
            &&& a.evicted is None
            &&& a.clients.last() == manager::new_entry(server, root, now, 0)
        }),
{
    manager::lemma_entry_at(v, server, root, 0);
    let i = manager::entry_at(v, server, root, 0)->0;
    let rest = v.remove(i);
    manager::lemma_entry_at(rest, server, root, 0);
    if let Some(j) = manager::entry_at(rest, server, root, 0) {
        let k = if j < i {
            j
        } else {
            j + 1
        };
        assert(rest[j] == v[k]);
        assert(v[i].server == v[k].server && paths::same_place(v[i].root, v[k].root));
    }
}

} // verus!

//! Reports of one query to several servers, merged into one.

use vstd::prelude::*;
use vstd::string::*;
use crate::lsp::types::{Diagnostic, Hover, Location, Symbol};
use crate::order;
use crate::order::sorted_distinct;
use crate::ranking;
use crate::ranking::{collect, settle, Ranked};
use crate::text;
use crate::text::{cat2, join};

verus! {

/// What a query came to.
pub enum QueryReport<T> {
    Ready {
        server: String,
        root: String,
        sources: Vec<String>,
        warnings: Vec<String>,
        items: Vec<T>,
        /// Items beyond the limit on results.
        overflow: Vec<T>,
        total: usize,
        truncated: bool,
    },
    Unavailable { reason: String },
    Unsupported { path: String },
}

/// What several reports hold together, in the order they came.
#[verifier::ext_equal]
pub ghost struct GatheredView<T> {
    pub sources: Seq<Seq<char>>,
    pub warnings: Seq<Seq<char>>,
    pub items: Seq<T>,
    pub overflow: Seq<T>,
    pub total: nat,
    pub truncated: bool,
}

/// What several reports hold together. Overflow joins the items, unless it is
/// kept apart.
pub open spec fn gathered<T>(reports: Seq<QueryReport<T>>, apart: bool) -> GatheredView<T>
    decreases reports.len(),
{
    if reports.len() == 0 {
        GatheredView {
            sources: seq![],
            warnings: seq![],
            items: seq![],
            overflow: seq![],
            total: 0,
            truncated: false,
        }
    } else {
        let g = gathered(reports.drop_last(), apart);
        match reports.last() {
            QueryReport::Ready { sources, warnings, items, overflow, total, truncated, .. } => {
                GatheredView {
                    sources: g.sources + text::views(sources@),
                    warnings: g.warnings + text::views(warnings@),
                    items: if apart {
                        g.items + items@
                    } else {
                        g.items + items@ + overflow@
                    },
                    overflow: if apart {
                        g.overflow + overflow@
                    } else {
                        g.overflow
                    },
                    total: g.total + total as nat,
                    truncated: g.truncated || truncated,
                }
            },
            QueryReport::Unavailable { reason } => GatheredView {
                warnings: g.warnings.push(reason@),
                ..g
            },
            QueryReport::Unsupported { path } => GatheredView {
                warnings: g.warnings.push("unsupported file: "@ + path@),
                ..g
            },
        }
    }
}

/// What several reports hold together.
pub struct Gathered<T> {
    pub sources: Vec<String>,
    pub warnings: Vec<String>,
    pub items: Vec<T>,
    pub overflow: Vec<T>,
    pub total: usize,
    pub truncated: bool,
}

impl<T> View for Gathered<T> {
    type V = GatheredView<T>;

    open spec fn view(&self) -> GatheredView<T> {
        GatheredView {
            sources: text::views(self.sources@),
            warnings: text::views(self.warnings@),
            items: self.items@,
            overflow: self.overflow@,
            total: self.total as nat,
            truncated: self.truncated,
        }
    }
}

/// Appends texts to a list of texts.
pub fn extend_texts(list: &mut Vec<String>, more: Vec<String>)
    ensures
        text::views(final(list)@) == text::views(old(list)@) + text::views(more@),
{
    let ghost a = list@;
    let ghost b = more@;
    let mut more = more;
    list.append(&mut more);
    assert(text::views(list@) =~= text::views(a) + text::views(b));
}

/// Appends a text to a list of texts.
pub fn push_text(list: &mut Vec<String>, s: String)
    ensures
        text::views(final(list)@) == text::views(old(list)@).push(s@),
{
    let ghost a = list@;
    let ghost t = s@;
    list.push(s);
    assert(text::views(list@) =~= text::views(a).push(t));
}

proof fn lemma_total_grows<T>(reports: Seq<QueryReport<T>>, apart: bool, i: int)
    requires
        0 <= i <= reports.len(),
    ensures
        gathered(reports.take(i), apart).total <= gathered(reports, apart).total,
    decreases reports.len() - i,
{
    if i < reports.len() {
        lemma_total_grows(reports, apart, i + 1);
        assert(reports.take(i + 1).drop_last() =~= reports.take(i));
    } else {
        assert(reports.take(i) =~= reports);
    }
}

fn gather<T>(reports: Vec<QueryReport<T>>, apart: bool) -> (out: Gathered<T>)
    requires
        gathered(reports@, apart).total <= usize::MAX,
    ensures
        out@ == gathered(reports@, apart),
{
    let ghost all = reports@;
    let mut out = Gathered {
        sources: Vec::new(),
        warnings: Vec::new(),
        items: Vec::new(),
        overflow: Vec::new(),
        total: 0,
        truncated: false,
    };
    assert(out@ =~= gathered(all.take(0), apart));
    for report in it: reports
        invariant
            it.seq() == all,
            gathered(all, apart).total <= usize::MAX,
            out@ == gathered(all.take(it.index() as int), apart),
    {
        let ghost k = it.index() as int;
        proof {
            assert(all.take(k + 1).drop_last() =~= all.take(k));
            assert(all.take(k + 1).last() == report);
            lemma_total_grows(all, apart, k + 1);
        }
        match report {
            QueryReport::Ready { sources, warnings, items, overflow, total, truncated, .. } => {
                extend_texts(&mut out.sources, sources);
                extend_texts(&mut out.warnings, warnings);
                let mut items = items;
                let mut overflow = overflow;
                out.items.append(&mut items);
                if apart {
                    out.overflow.append(&mut overflow);
                } else {
                    out.items.append(&mut overflow);
                }
                out.total = out.total + total;
                out.truncated = out.truncated || truncated;
            },
            QueryReport::Unavailable { reason } => {
                push_text(&mut out.warnings, reason);
            },
            QueryReport::Unsupported { path } => {
                push_text(&mut out.warnings, cat2("unsupported file: ", path.as_str()));
            },
        }
        assert(out@ =~= gathered(all.take(k + 1), apart));
    }
    assert(all.take(all.len() as int) =~= all);
    out
}

/// The larger of two counts.
pub open spec fn larger(a: nat, b: nat) -> nat {
    if a >= b {
        a
    } else {
        b
    }
}

/// The smaller of two counts.
pub open spec fn smaller(a: nat, b: nat) -> nat {
    if a <= b {
        a
    } else {
        b
    }
}

/// Why nothing can be reported: the warnings, or that no server matched.
pub open spec fn no_server(warnings: Seq<Seq<char>>) -> Seq<char> {
    let w = order::distinct(warnings);
    if w.len() == 0 {
        "no matching language server was available"@
    } else {
        text::joined(w, "; "@)
    }
}

/// The report that gathered findings make, where `items` are those findings in
/// order and without repetition. Sources and warnings are sorted and distinct.
/// The first `max` items are shown and the rest is overflow; none is dropped.
/// Without a source there is nothing to report.
pub open spec fn reports<T>(
    out: QueryReport<T>,
    g: GatheredView<T>,
    items: Seq<T>,
    workspace: Seq<char>,
    max: nat,
) -> bool {
    let sources = order::distinct(g.sources);
    let warnings = order::distinct(g.warnings);
    let shown = smaller(max, items.len());
    match out {
        QueryReport::Ready {
            server,
            root,
            sources: s,
            warnings: w,
            items: i,
            overflow,
            total,
            truncated,
        } => {
            &&& sources.len() > 0
            &&& server@ == text::joined(sources, "+"@)
            &&& root@ == workspace
            &&& text::views(s@) == sources
            &&& text::views(w@) == warnings
            &&& i@ == items.take(shown as int)
            &&& overflow@ == g.overflow + items.skip(shown as int)
            &&& total == larger(g.total, items.len())
            &&& truncated == (g.truncated || items.len() > max)
        },
        QueryReport::Unavailable { reason } => sources.len() == 0 && reason@ == no_server(
            g.warnings,
        ),
        QueryReport::Unsupported { .. } => false,
    }
}

fn unavailable_reason(warnings: &Vec<String>) -> (out: String)
    ensures
        out@ == no_server(text::views(warnings@)),
{
    let w = sorted_distinct(warnings);
    assert(text::views(w@).len() == w@.len());
    if w.len() == 0 {
        "no matching language server was available".to_owned()
    } else {
        join(&w, "; ")
    }
}

fn finish_merged_report<T>(
    items: Vec<T>,
    gathered: Gathered<T>,
    workspace: &str,
    max_results: usize,
) -> (out: QueryReport<T>)
    ensures
        reports(out, gathered@, items@, workspace@, max_results as nat),
{
    let ghost g = gathered@;
    let ghost all = items@;
    let sources = sorted_distinct(&gathered.sources);
    assert(text::views(sources@).len() == sources@.len());
    if sources.len() == 0 {
        return QueryReport::Unavailable { reason: unavailable_reason(&gathered.warnings) };
    }
    let warnings = sorted_distinct(&gathered.warnings);
    let mut items = items;
    let mut overflow = gathered.overflow;
    let known: usize = items.len();
    if known > max_results {
        let mut rest = items.split_off(max_results);
        overflow.append(&mut rest);
    }
    proof {
        let shown = smaller(max_results as nat, all.len()) as int;
        assert(items@ =~= all.take(shown));
        assert(overflow@ =~= g.overflow + all.skip(shown));
    }
    let total: usize = if gathered.total >= known {
        gathered.total
    } else {
        known
    };
    QueryReport::Ready {
        server: join(&sources, "+"),
        root: workspace.to_owned(),
        sources,
        warnings,
        items,
        overflow,
        total,
        truncated: gathered.truncated || known > max_results,
    }
}

fn merge_reports<T: Ranked>(
    reports: Vec<QueryReport<T>>,
    apart: bool,
    workspace: &str,
    max_results: usize,
) -> (out: QueryReport<T>)
    requires
        gathered(reports@, apart).total <= usize::MAX,
    ensures
        self::reports(
            out,
            gathered(reports@, apart),
            ranking::settled(gathered(reports@, apart).items),
            workspace@,
            max_results as nat,
        ),
{
    let mut g = gather(reports, apart);
    let ghost whole = g@;
    let mut items: Vec<T> = Vec::new();
    items.append(&mut g.items);
    let items = settle(items);
    assert(items@ == ranking::settled(whole.items));
    let out = finish_merged_report(items, g, workspace, max_results);
    out
}

/// One report of the places that several servers found.
pub fn merge_location_reports(
    reports: Vec<QueryReport<Location>>,
    workspace: &str,
    max_results: usize,
) -> (out: QueryReport<Location>)
    requires
        gathered(reports@, false).total <= usize::MAX,
    ensures
        self::reports(
            out,
            gathered(reports@, false),
            ranking::settled(gathered(reports@, false).items),
            workspace@,
            max_results as nat,
        ),
{
    merge_reports(reports, false, workspace, max_results)
}

/// One report of the hover texts that several servers gave. What overflowed in
/// one of them stays overflow.
pub fn merge_hover_reports(
    reports: Vec<QueryReport<Hover>>,
    workspace: &str,
    max_results: usize,
) -> (out: QueryReport<Hover>)
    requires
        gathered(reports@, true).total <= usize::MAX,
    ensures
        self::reports(
            out,
            gathered(reports@, true),
            ranking::settled(gathered(reports@, true).items),
            workspace@,
            max_results as nat,
        ),
{
    merge_reports(reports, true, workspace, max_results)
}

/// One report of the symbols that several servers found.
pub fn merge_symbol_reports(
    reports: Vec<QueryReport<Symbol>>,
    workspace: &str,
    max_results: usize,
) -> (out: QueryReport<Symbol>)
    requires
        gathered(reports@, false).total <= usize::MAX,
    ensures
        self::reports(
            out,
            gathered(reports@, false),
            ranking::settled(gathered(reports@, false).items),
            workspace@,
            max_results as nat,
        ),
{
    merge_reports(reports, false, workspace, max_results)
}

/// What diagnostics of a file came to. `NoFreshData` differs from `Fresh` with
/// an empty list: it must never be taken for a clean file.
pub enum DiagnosticReport {
    Fresh {
        server: String,
        root: String,
        sources: Vec<String>,
        warnings: Vec<String>,
        path: String,
        version: i64,
        diagnostics: Vec<Diagnostic>,
        /// Diagnostics beyond the limit on results.
        overflow: Vec<Diagnostic>,
        total: usize,
        truncated: bool,
        introduced: Option<Vec<Diagnostic>>,
        resolved: Option<Vec<Diagnostic>>,
    },
    NoFreshData { server: String, root: String, path: String, version: i64, waited_ms: u64 },
    Unavailable { path: String, reason: String },
    Unsupported { path: String },
}

/// What several diagnostic reports hold together, in the order they came.
#[verifier::ext_equal]
pub ghost struct DiagnosedView {
    pub sources: Seq<Seq<char>>,
    pub stale: Seq<Seq<char>>,
    pub warnings: Seq<Seq<char>>,
    pub diagnostics: Seq<Diagnostic>,
    pub introduced: Seq<Diagnostic>,
    pub resolved: Seq<Diagnostic>,
    pub delta: bool,
    pub version: int,
    pub waited: int,
    pub total: nat,
    pub truncated: bool,
}

/// The items of an optional list.
pub open spec fn items_of(v: Option<Vec<Diagnostic>>) -> Seq<Diagnostic> {
    match v {
        Some(items) => items@,
        None => seq![],
    }
}

/// The larger of two numbers.
pub open spec fn max_of(a: int, b: int) -> int {
    if a >= b {
        a
    } else {
        b
    }
}

/// What several diagnostic reports hold together.
pub open spec fn diagnosed(reports: Seq<DiagnosticReport>) -> DiagnosedView
    decreases reports.len(),
{
    if reports.len() == 0 {
        DiagnosedView {
            sources: seq![],
            stale: seq![],
            warnings: seq![],
            diagnostics: seq![],
            introduced: seq![],
            resolved: seq![],
            delta: false,
            version: 0,
            waited: 0,
            total: 0,
            truncated: false,
        }
    } else {
        let g = diagnosed(reports.drop_last());
        match reports.last() {
            DiagnosticReport::Fresh {
                server,
                sources,
                warnings,
                version,
                diagnostics,
                overflow,
                total,
                truncated,
                introduced,
                resolved,
                ..
            } => DiagnosedView {
                sources: if sources@.len() == 0 {
                    g.sources.push(server@)
                } else {
                    g.sources + text::views(sources@)
                },
                stale: g.stale,
                warnings: g.warnings + text::views(warnings@),
                diagnostics: g.diagnostics + diagnostics@ + overflow@,
                introduced: g.introduced + items_of(introduced),
                resolved: g.resolved + items_of(resolved),
                delta: g.delta || introduced is Some || resolved is Some,
                version: max_of(g.version, version as int),
                waited: g.waited,
                total: g.total + total as nat,
                truncated: g.truncated || truncated,
            },
            DiagnosticReport::NoFreshData { server, version, waited_ms, .. } => DiagnosedView {
                stale: g.stale.push(server@),
                warnings: g.warnings.push(server@ + ": no fresh diagnostic data"@),
                version: max_of(g.version, version as int),
                waited: max_of(g.waited, waited_ms as int),
                ..g
            },
            DiagnosticReport::Unavailable { reason, .. } => DiagnosedView {
                warnings: g.warnings.push(reason@),
                ..g
            },
            DiagnosticReport::Unsupported { path } => DiagnosedView {
                warnings: g.warnings.push("unsupported file: "@ + path@),
                ..g
            },
        }
    }
}

/// What several diagnostic reports hold together.
struct Diagnosed {
    sources: Vec<String>,
    stale: Vec<String>,
    warnings: Vec<String>,
    diagnostics: Vec<Diagnostic>,
    introduced: Vec<Diagnostic>,
    resolved: Vec<Diagnostic>,
    delta: bool,
    version: i64,
    waited: u64,
    total: usize,
    truncated: bool,
}

impl Diagnosed {
    spec fn whole(&self) -> DiagnosedView {
        DiagnosedView {
            sources: text::views(self.sources@),
            stale: text::views(self.stale@),
            warnings: text::views(self.warnings@),
            diagnostics: self.diagnostics@,
            introduced: self.introduced@,
            resolved: self.resolved@,
            delta: self.delta,
            version: self.version as int,
            waited: self.waited as int,
            total: self.total as nat,
            truncated: self.truncated,
        }
    }
}

proof fn lemma_diagnosed_grows(reports: Seq<DiagnosticReport>, i: int)
    requires
        0 <= i <= reports.len(),
    ensures
        diagnosed(reports.take(i)).total <= diagnosed(reports).total,
    decreases reports.len() - i,
{
    if i < reports.len() {
        lemma_diagnosed_grows(reports, i + 1);
        assert(reports.take(i + 1).drop_last() =~= reports.take(i));
    } else {
        assert(reports.take(i) =~= reports);
    }
}

fn extend_found(list: &mut Vec<Diagnostic>, more: Option<Vec<Diagnostic>>) -> (any: bool)
    ensures
        final(list)@ == old(list)@ + items_of(more),
        any == more is Some,
{
    match more {
        Some(items) => {
            let mut items = items;
            list.append(&mut items);
            true
        },
        None => {
            assert(list@ =~= list@ + seq![]);
            false
        },
    }
}

fn diagnose(reports: Vec<DiagnosticReport>) -> (out: Diagnosed)
    requires
        diagnosed(reports@).total <= usize::MAX,
    ensures
        out.whole() == diagnosed(reports@),
{
    let ghost all = reports@;
    let mut out = Diagnosed {
        sources: Vec::new(),
        stale: Vec::new(),
        warnings: Vec::new(),
        diagnostics: Vec::new(),
        introduced: Vec::new(),
        resolved: Vec::new(),
        delta: false,
        version: 0,
        waited: 0,
        total: 0,
        truncated: false,
    };
    assert(out.whole() =~= diagnosed(all.take(0)));
    for report in it: reports
        invariant
            it.seq() == all,
            diagnosed(all).total <= usize::MAX,
            out.whole() == diagnosed(all.take(it.index() as int)),
    {
        let ghost k = it.index() as int;
        proof {
            assert(all.take(k + 1).drop_last() =~= all.take(k));
            assert(all.take(k + 1).last() == report);
            lemma_diagnosed_grows(all, k + 1);
        }
        match report {
            DiagnosticReport::Fresh {
                server,
                sources,
                warnings,
                version,
                diagnostics,
                overflow,
                total,
                truncated,
                introduced,
                resolved,
                ..
            } => {
                if sources.len() == 0 {
                    push_text(&mut out.sources, server);
                } else {
                    extend_texts(&mut out.sources, sources);
                }
                extend_texts(&mut out.warnings, warnings);
                let mut diagnostics = diagnostics;
                let mut overflow = overflow;
                out.diagnostics.append(&mut diagnostics);
                out.diagnostics.append(&mut overflow);
                let i = extend_found(&mut out.introduced, introduced);
                let r = extend_found(&mut out.resolved, resolved);
                out.delta = out.delta || i || r;
                out.total = out.total + total;
                out.truncated = out.truncated || truncated;
                if version > out.version {
                    out.version = version;
                }
            },
            DiagnosticReport::NoFreshData { server, version, waited_ms, .. } => {
                push_text(
                    &mut out.warnings,
                    cat2(server.as_str(), ": no fresh diagnostic data"),
                );
                push_text(&mut out.stale, server);
                if version > out.version {
                    out.version = version;
                }
                if waited_ms > out.waited {
                    out.waited = waited_ms;
                }
            },
            DiagnosticReport::Unavailable { reason, .. } => {
                push_text(&mut out.warnings, reason);
            },
            DiagnosticReport::Unsupported { path } => {
                push_text(&mut out.warnings, cat2("unsupported file: ", path.as_str()));
            },
        }
        assert(out.whole() =~= diagnosed(all.take(k + 1)));
    }
    assert(all.take(all.len() as int) =~= all);
    out
}

/// The optional list, where there is one, holds the first `max` of these.
pub open spec fn bounded(
    v: Option<Vec<Diagnostic>>,
    present: bool,
    items: Seq<Diagnostic>,
    max: nat,
) -> bool {
    match v {
        Some(list) => present && list@ == items.take(smaller(max, items.len()) as int),
        None => !present,
    }
}

/// The report that gathered diagnostics make. It is fresh only where some
/// server gave fresh diagnostics; where every server that answered had none, it
/// says so; otherwise nothing was available. The first `max` diagnostics are
/// shown and the rest is overflow; none is dropped.
pub open spec fn diagnoses(
    out: DiagnosticReport,
    g: DiagnosedView,
    file: Seq<char>,
    workspace: Seq<char>,
    max: nat,
) -> bool {
    let fresh = order::distinct(g.sources);
    let stale = order::distinct(g.stale);
    let found = ranking::collected(g.diagnostics);
    let shown = smaller(max, found.len());
    match out {
        DiagnosticReport::Fresh {
            server,
            root,
            sources,
            warnings,
            path,
            version,
            diagnostics,
            overflow,
            total,
            truncated,
            introduced,
            resolved,
        } => {
            &&& fresh.len() > 0
            &&& server@ == text::joined(fresh, "+"@)
            &&& root@ == workspace
            &&& text::views(sources@) == fresh
            &&& text::views(warnings@) == order::distinct(g.warnings)
            &&& path@ == file
            &&& version == g.version
            &&& diagnostics@ == found.take(shown as int)
            &&& overflow@ == found.skip(shown as int)
            &&& total == larger(g.total, found.len())
            &&& truncated == (g.truncated || found.len() > max)
            &&& bounded(introduced, g.delta, ranking::collected(g.introduced), max)
            &&& bounded(resolved, g.delta, ranking::collected(g.resolved), max)
        },
        DiagnosticReport::NoFreshData { server, root, path, version, waited_ms } => {
            &&& fresh.len() == 0
            &&& stale.len() > 0
            &&& server@ == text::joined(stale, "+"@)
            &&& root@ == workspace
            &&& path@ == file
            &&& version == g.version
            &&& waited_ms == g.waited
        },
        DiagnosticReport::Unavailable { path, reason } => {
            &&& fresh.len() == 0
            &&& stale.len() == 0
            &&& path@ == file
            &&& reason@ == no_server(g.warnings)
        },
        DiagnosticReport::Unsupported { .. } => false,
    }
}

fn bound(list: Vec<Diagnostic>, present: bool, max: usize) -> (out: Option<Vec<Diagnostic>>)
    ensures
        bounded(out, present, ranking::collected(list@), max as nat),
{
    if !present {
        return None;
    }
    let mut list = collect(list);
    let ghost all = list@;
    if list.len() > max {
        list.truncate(max);
    }
    assert(list@ =~= all.take(smaller(max as nat, all.len()) as int));
    Some(list)
}

/// One report of the diagnostics that several servers gave for a file.
pub fn merge_diagnostic_reports(
    reports: Vec<DiagnosticReport>,
    path: &str,
    workspace: &str,
    max_results: usize,
) -> (out: DiagnosticReport)
    requires
        diagnosed(reports@).total <= usize::MAX,
    ensures
        diagnoses(out, diagnosed(reports@), path@, workspace@, max_results as nat),
{
    let g = diagnose(reports);
    let sources = sorted_distinct(&g.sources);
    assert(text::views(sources@).len() == sources@.len());
    if sources.len() == 0 {
        let stale = sorted_distinct(&g.stale);
        assert(text::views(stale@).len() == stale@.len());
        if stale.len() > 0 {
            return DiagnosticReport::NoFreshData {
                server: join(&stale, "+"),
                root: workspace.to_owned(),
                path: path.to_owned(),
                version: g.version,
                waited_ms: g.waited,
            };
        }
        return DiagnosticReport::Unavailable {
            path: path.to_owned(),
            reason: unavailable_reason(&g.warnings),
        };
    }
    let warnings = sorted_distinct(&g.warnings);
    let mut diagnostics = collect(g.diagnostics);
    let ghost found = diagnostics@;
    let known: usize = diagnostics.len();
    let overflow = if known > max_results {
        diagnostics.split_off(max_results)
    } else {
        Vec::new()
    };
    proof {
        let shown = smaller(max_results as nat, found.len()) as int;
        assert(diagnostics@ =~= found.take(shown));
        assert(overflow@ =~= found.skip(shown));
    }
    let total: usize = if g.total >= known {
        g.total
    } else {
        known
    };
    DiagnosticReport::Fresh {
        server: join(&sources, "+"),
        root: workspace.to_owned(),
        sources,
        warnings,
        path: path.to_owned(),
        version: g.version,
        diagnostics,
        overflow,
        total,
        truncated: g.truncated || known > max_results,
        introduced: bound(g.introduced, g.delta, max_results),
        resolved: bound(g.resolved, g.delta, max_results),
    }
}

/// The report came from a server with fresh diagnostics.
pub open spec fn is_fresh(report: DiagnosticReport) -> bool {
    report is Fresh
}

proof fn lemma_sources(reports: Seq<DiagnosticReport>)
    ensures
        diagnosed(reports).sources.len() > 0 <==> exists|i: int|
            0 <= i < reports.len() && is_fresh(#[trigger] reports[i]),
    decreases reports.len(),
{
    if reports.len() > 0 {
        let head = reports.drop_last();
        lemma_sources(head);
        if diagnosed(head).sources.len() > 0 {
            let i = choose|i: int| 0 <= i < head.len() && is_fresh(#[trigger] head[i]);
            assert(is_fresh(reports[i]));
        }
        if is_fresh(reports.last()) {
            assert(is_fresh(reports[reports.len() - 1]));
        }
        if exists|i: int| 0 <= i < reports.len() && is_fresh(#[trigger] reports[i]) {
            let i = choose|i: int| 0 <= i < reports.len() && is_fresh(#[trigger] reports[i]);
            if i < head.len() {
                assert(is_fresh(head[i]));
            }
        }
    }
}

/// A merged report is fresh exactly where some report is. Stale or missing data
/// is never merged into a report of a clean file.
pub proof fn law_stale_is_never_clean(
    reports: Seq<DiagnosticReport>,
    out: DiagnosticReport,
    path: Seq<char>,
    workspace: Seq<char>,
    max: nat,
)
    requires
        diagnoses(out, diagnosed(reports), path, workspace, max),
    ensures
        is_fresh(out) <==> exists|i: int|
            0 <= i < reports.len() && is_fresh(#[trigger] reports[i]),
{
    lemma_sources(reports);
    let sources = diagnosed(reports).sources;
    order::lemma_distinct(sources);
    if sources.len() > 0 {
        assert(order::holds(sources, sources[0]));
        assert(order::holds(order::distinct(sources), sources[0]));
    } else if order::distinct(sources).len() > 0 {
        assert(order::holds(order::distinct(sources), order::distinct(sources)[0]));
    }
}

/// The shown results never pass the limit, and nothing that was gathered is
/// lost: each finding is shown or overflows, as itself or as one like it.
pub proof fn law_merging_keeps_every_diagnostic(
    reports: Seq<DiagnosticReport>,
    out: DiagnosticReport,
    path: Seq<char>,
    workspace: Seq<char>,
    max: nat,
    i: int,
)
    requires
        diagnoses(out, diagnosed(reports), path, workspace, max),
        is_fresh(out),
        0 <= i < diagnosed(reports).diagnostics.len(),
    ensures
        out->Fresh_diagnostics@.len() <= max,
        exists|k: int|
            0 <= k < (out->Fresh_diagnostics@ + out->Fresh_overflow@).len()
                && diagnosed(reports).diagnostics[i].same_finding(
                &(out->Fresh_diagnostics@ + out->Fresh_overflow@)[k],
            ),
{
    let all = diagnosed(reports).diagnostics;
    let found = ranking::collected(all);
    let k = ranking::lemma_find_collected(all, i);
    assert(out->Fresh_diagnostics@ + out->Fresh_overflow@ =~= found);
    assert(all[i].same_finding(&(out->Fresh_diagnostics@ + out->Fresh_overflow@)[k]));
}

} // verus!

//! What holds of every answer of a language server, as it is read and reported.

use vstd::prelude::*;
use crate::json;
use crate::json::JsonView;
use crate::lsp::adapters;
use crate::lsp::client;
use crate::lsp::delta::DiagnosticBaseline;
use crate::lsp::laws::law_last_language_counts;
use crate::lsp::laws::law_picked;
use crate::lsp::manager;
use crate::lsp::manager::EntryView;
use crate::lsp::parse;
use crate::lsp::parse::{LocationView, SymbolView};
use crate::lsp::queries;
use crate::lsp::queries::{Asked, Edited};
use crate::lsp::reports::{DiagnosticReport, QueryReport};
use crate::lsp::starting;
use crate::lsp::types::{Location, Symbol};
use crate::lsp::wire;
use crate::order;
use crate::paths;
use crate::ranking;
use crate::ranking::Ranked;
use crate::urls;

verus! {

/// What is taken from a list keeps the order of its items.
pub proof fn law_picked_in_order<T>(
    a: Seq<JsonView>,
    b: Seq<JsonView>,
    pick: spec_fn(JsonView) -> Option<T>,
    x: JsonView,
)
    ensures
        json::picked(a + b, pick) == json::picked(a, pick) + json::picked(b, pick),
        json::picked(seq![x], pick) == match pick(x) {
            Some(y) => seq![y],
            None => seq![],
        },
    decreases b.len(),
{
    reveal_with_fuel(json::picked, 2);
    assert(seq![x].drop_last() =~= seq![]);
    assert(seq![x].last() == x);
    if b.len() == 0 {
        assert(a + b =~= a);
    } else {
        law_picked_in_order(a, b.drop_last(), pick, x);
        assert((a + b).drop_last() =~= a + b.drop_last());
        assert((a + b).last() == b.last());
    }
}

/// An answer that is null names no place, one that is a place names it alone, and a list names
/// exactly the places of its items.
pub proof fn law_every_place_is_read(v: JsonView, items: Seq<JsonView>, place: LocationView)
    ensures
        parse::locations_in(JsonView::Null).len() == 0,
        v is Object && parse::location_in(v) == Some(place) ==> parse::locations_in(v) == seq![
            place,
        ],
        v is Object && parse::location_in(v) is None ==> parse::locations_in(v).len() == 0,
        parse::locations_in(JsonView::List(items)).contains(place) <==> exists|i: int|
            0 <= i < items.len() && parse::location_in(#[trigger] items[i]) == Some(place),
{
    law_picked(items, parse::by_location(), place);
    let pick = parse::by_location();
    if exists|i: int| 0 <= i < items.len() && pick(#[trigger] items[i]) == Some(place) {
        let i = choose|i: int| 0 <= i < items.len() && pick(#[trigger] items[i]) == Some(place);
        assert(parse::location_in(items[i]) == Some(place));
    }
    if exists|i: int|
        0 <= i < items.len() && parse::location_in(#[trigger] items[i]) == Some(place) {
        let i = choose|i: int|
            0 <= i < items.len() && parse::location_in(#[trigger] items[i]) == Some(place);
        assert(pick(items[i]) == Some(place));
    }
}

/// A plain text is shown as it is, a marked one by its value, and the parts of a list one
/// after the other, an empty line between them.
pub proof fn law_hovers_show_every_part(s: Seq<char>, language: Seq<char>, parts: Seq<JsonView>)
    ensures
        parse::contents_text(JsonView::Text(s)) == s,
        parse::contents_text(
            JsonView::Object(
                seq![("language"@, JsonView::Text(language)), ("value"@, JsonView::Text(s))],
            ),
        ) == s,
        parse::contents_text(JsonView::Null).len() == 0,
        parse::contents_text(JsonView::List(seq![])).len() == 0,
        parse::contents_text(JsonView::List(seq![JsonView::Text(s)])) == s,
        parse::contents_text(
            JsonView::List(
                seq![
                    JsonView::Object(
                        seq![("language"@, JsonView::Text(language)), ("value"@, JsonView::Text(s))],
                    ),
                ],
            ),
        ) == s,
        json::picked(parts, parse::by_mark()).len() > 0 ==> parse::contents_text(
            JsonView::List(parts.push(JsonView::Text(s))),
        ) == parse::contents_text(JsonView::List(parts)) + "\n\n"@ + s,
        parse::contents_text(JsonView::List(parts.push(JsonView::Null))) == parse::contents_text(
            JsonView::List(parts),
        ),
{
    reveal_strlit("language");
    reveal_strlit("value");
    assert("language"@.len() == 8 && "value"@.len() == 5);
    reveal_with_fuel(json::entry_from, 3);
    reveal_with_fuel(json::picked, 2);
    let pick = parse::by_mark();
    let marked = JsonView::Object(
        seq![("language"@, JsonView::Text(language)), ("value"@, JsonView::Text(s))],
    );
    assert(pick(marked) == Some(s));
    assert(pick(JsonView::Text(s)) == Some(s));
    assert(pick(JsonView::Null) is None);
    law_picked_in_order(seq![], seq![], pick, marked);
    law_picked_in_order(seq![], seq![], pick, JsonView::Text(s));
    assert(parts.push(JsonView::Text(s)).drop_last() =~= parts);
    assert(parts.push(JsonView::Null).drop_last() =~= parts);
    let was = json::picked(parts, pick);
    assert(json::picked(parts.push(JsonView::Text(s)), pick) == was.push(s));
    assert(was.push(s).drop_last() =~= was);
}

/// An answer that announces how it wants to be told of changes.
pub open spec fn announcing(sync: JsonView) -> JsonView {
    JsonView::Object(
        seq![("capabilities"@, JsonView::Object(seq![("textDocumentSync"@, sync)]))],
    )
}

/// A server is told of changes as it announced, by a number or by the number of its options,
/// and with whole texts where it announced nothing.
pub proof fn law_synchronisation_is_as_announced(n: u64)
    ensures
        n <= 2 ==> client::announced_sync(announcing(JsonView::Unsigned(n))) == n,
        n <= 2 ==> client::announced_sync(
            announcing(JsonView::Object(seq![("change"@, JsonView::Unsigned(n))])),
        ) == n,
        n > 2 ==> client::announced_sync(announcing(JsonView::Unsigned(n))) == 2,
        client::announced_sync(JsonView::Null) == 1,
        client::announced_sync(JsonView::Object(seq![])) == 1,
        client::announced_sync(announcing(JsonView::Object(seq![]))) == 1,
{
    reveal_with_fuel(json::entry_from, 2);
    let options = JsonView::Object(seq![("change"@, JsonView::Unsigned(n))]);
    assert(options.field("change"@) == Some(JsonView::Unsigned(n)));
    let a = JsonView::Object(seq![("textDocumentSync"@, JsonView::Unsigned(n))]);
    let b = JsonView::Object(seq![("textDocumentSync"@, options)]);
    let c = JsonView::Object(seq![("textDocumentSync"@, JsonView::Object(seq![]))]);
    assert(announcing(JsonView::Unsigned(n)).get("capabilities"@) == a);
    assert(announcing(options).get("capabilities"@) == b);
    assert(announcing(JsonView::Object(seq![])).get("capabilities"@) == c);
    assert(a.field("textDocumentSync"@) == Some(JsonView::Unsigned(n)));
    assert(b.field("textDocumentSync"@) == Some(options));
    assert(c.field("textDocumentSync"@) == Some(JsonView::Object(seq![])));
}

/// A publication is read with the file that its address names, its version and its findings;
/// a message of another method publishes nothing, whatever it holds.
pub proof fn law_publications_are_read(
    method: Seq<char>,
    uri: Seq<char>,
    version: u64,
    findings: Seq<JsonView>,
)
    ensures
        ({
            let message = JsonView::Object(
                seq![
                    ("method"@, JsonView::Text(method)),
                    (
                        "params"@,
                        JsonView::Object(
                            seq![
                                ("uri"@, JsonView::Text(uri)),
                                ("version"@, JsonView::Unsigned(version)),
                                ("diagnostics"@, JsonView::List(findings)),
                            ],
                        ),
                    ),
                ],
            );
            let read = wire::publication_in(message);
            &&& method != "textDocument/publishDiagnostics"@ ==> read is None
            &&& urls::path_of_uri(uri) is None ==> read is None
            &&& method == "textDocument/publishDiagnostics"@ && version <= i64::MAX ==> (
            urls::path_of_uri(uri) matches Some(path) ==> read is Some && read->0.path == path
                && read->0.version == Some(version as int) && read->0.diagnostics == json::picked(
                findings,
                parse::by_diagnostic(),
            ))
        }),
{
    reveal_strlit("method");
    reveal_strlit("params");
    reveal_strlit("uri");
    reveal_strlit("version");
    reveal_strlit("diagnostics");
    assert("method"@[0] == 'm' && "params"@[0] == 'p');
    assert("uri"@.len() == 3 && "version"@.len() == 7 && "diagnostics"@.len() == 11);
    reveal_with_fuel(json::entry_from, 4);
}

/// A file has the language that its extension is listed for last.
pub proof fn law_files_have_the_language_of_their_extension(
    languages: Seq<(Seq<char>, Seq<char>)>,
    path: Seq<char>,
    i: int,
)
    requires
        0 <= i < languages.len(),
        paths::extension(path) == Some(languages[i].0),
        forall|j: int| i < j < languages.len() ==> (#[trigger] languages[j]).0 != languages[i].0,
    ensures
        client::language_id(languages, path) == Some(languages[i].1),
{
    law_last_language_counts(languages, languages[i].0, i);
}

/// A server that failed before gives up its place, and no other does.
pub proof fn law_failed_servers_give_up_their_place(
    v: Seq<EntryView>,
    server: Seq<char>,
    root: Seq<char>,
    i: int,
)
    requires
        manager::separate(v),
    ensures
        ({
            let (parked, rest) = queries::unparked(v, server, root);
            &&& 0 <= i < v.len() && starting::stands_for(v[i], server, root) && v[i].failures > 0
                ==> parked == Some(v[i]) && rest == v.take(i) + v.skip(i + 1)
            &&& 0 <= i < v.len() && starting::stands_for(v[i], server, root) && v[i].failures == 0
                ==> parked is None && rest == v
            &&& starting::is_new(v, server, root) ==> parked is None && rest == v
        }),
{
    starting::lemma_entry_at(v, server, root, 0);
    if 0 <= i < v.len() && starting::stands_for(v[i], server, root) {
        if let Some(k) = manager::entry_at(v, server, root, 0) {
            if k < i {
                assert(v[k].server == v[i].server && paths::same_place(v[k].root, v[i].root));
            }
            assert(k == i);
            assert(v.remove(i) =~= v.take(i) + v.skip(i + 1));
        } else {
            assert(!starting::stands_for(v[i], server, root));
        }
    }
    if starting::is_new(v, server, root) {
        if let Some(k) = manager::entry_at(v, server, root, 0) {
            assert(starting::stands_for(v[k], server, root));
        }
    }
}

/// A server that has published nothing yet is not waited for, and one that failed is still
/// reported as failed, with its reason.
pub proof fn law_edits_do_not_wait_for_cold_servers(
    v: Seq<Asked<Edited>>,
    path: Seq<char>,
    baseline: Option<&DiagnosticBaseline>,
    new_text: Seq<char>,
    out: Seq<Asked<DiagnosticReport>>,
    i: int,
)
    requires
        queries::edit_reports(v, path, baseline, new_text, out),
        0 <= i < v.len(),
    ensures
        out.len() == v.len(),
        v[i] matches Asked::Absent(e) ==> out[i] == Asked::<DiagnosticReport>::Absent(e),
        v[i] matches Asked::Failed(e) ==> out[i] == Asked::<DiagnosticReport>::Failed(e),
        v[i] matches Asked::Answered(Edited::Cold { server, root, version }) ==> (out[i] matches
            Asked::Answered(DiagnosticReport::NoFreshData {
            server: s,
            root: r,
            path: p,
            version: n,
            waited_ms,
        }) && s == server && r == root && p@ == path && n == version && waited_ms == 0),
        v[i] matches Asked::Answered(_) ==> out[i] is Answered,
{
    let x = out[i];
}

/// The report holds only places that the answer named, and leaves none of them out.
pub proof fn law_reported_places_were_named(
    out: QueryReport<Location>,
    found: Seq<LocationView>,
    server: Seq<char>,
    root: Seq<char>,
    max: nat,
    k: int,
)
    requires
        queries::gives_places(out, found, server, root, max),
    ensures
        out matches QueryReport::Ready { server: s, root: r, items, overflow, total, .. } && s@
            == server && r@ == root && items@.len() <= max && total == items@.len()
            + overflow@.len() && (overflow@.len() > 0 ==> items@.len() == max) && (found.len() > 0
            ==> total > 0) && total <= found.len() && (0 <= k < items@.len() ==> found.contains(
            items@[k]@,
        )) && (0 <= k < found.len() ==> exists|j: int|
            0 <= j < total && paths::same_place(
                found[k].path,
                (#[trigger] (items@ + overflow@)[j]).path@,
            ) && (items@ + overflow@)[j].range == found[k].range),
{
    let all = choose|all: Seq<Location>|
        #[trigger] parse::places(all) == found && client::answered(
            out,
            ranking::settled(all),
            server,
            root,
            max,
        );
    ranking::law_settled(all);
    let shown = ranking::settled(all);
    if let QueryReport::Ready { items, overflow, .. } = out {
        if 0 <= k < items@.len() {
            assert((items@ + overflow@)[k] == items@[k]);
            assert(all.contains(shown[k]));
            let j = choose|j: int| 0 <= j < all.len() && all[j] == shown[k];
            assert(found[j] == items@[k]@);
        }
        if 0 <= k < found.len() {
            ranking::law_nothing_lost(all, k);
            let j = choose|j: int| 0 <= j < shown.len() && all[k].alike(&shown[j]);
            assert(found[k] == all[k]@);
            assert(paths::same_place(found[k].path, (items@ + overflow@)[j].path@));
        }
    }
}

/// What a search of the workspace found is reported by name, and under one name by file and
/// line; nothing is shown that was not found.
pub proof fn law_matches_are_in_order(
    out: QueryReport<Symbol>,
    found: Seq<SymbolView>,
    server: Seq<char>,
    root: Seq<char>,
    max: nat,
    j: int,
    k: int,
)
    requires
        queries::gives_matches(out, found, server, root, max),
    ensures
        out matches QueryReport::Ready { server: s, root: r, items, overflow, total, .. } && s@
            == server && r@ == root && items@.len() <= max && total == items@.len()
            + overflow@.len() && (overflow@.len() > 0 ==> items@.len() == max) && (found.len() > 0
            ==> total > 0) && (0 <= k < items@.len() ==> found.contains(items@[k]@)) && (0 <= j < k
            < items@.len() ==> !order::before(items@[k].name@, items@[j].name@) && (items@[k].name@
            == items@[j].name@ && paths::same_place(
            items@[k].location.path@,
            items@[j].location.path@,
        ) ==> items@[j].location.range.start.line <= items@[k].location.range.start.line)),
{
    let all = choose|all: Seq<Symbol>|
        #[trigger] parse::symbols(all) == found && client::answered(
            out,
            client::unwrapped(ranking::settled(client::by_line(all))),
            server,
            root,
            max,
        );
    let lines = client::by_line(all);
    ranking::law_settled(lines);
    let shown = ranking::settled(lines);
    let plain = client::unwrapped(shown);
    assert(plain.len() == shown.len());
    if let QueryReport::Ready { items, overflow, .. } = out {
        if 0 <= k < items@.len() {
            assert((items@ + overflow@)[k] == items@[k]);
            assert(plain[k] == shown[k].symbol);
            assert(lines.contains(shown[k]));
            let i = choose|i: int| 0 <= i < lines.len() && lines[i] == shown[k];
            assert(found[i] == items@[k]@);
        }
        if 0 <= j < k < items@.len() {
            assert((items@ + overflow@)[j] == items@[j]);
            assert(plain[j] == shown[j].symbol);
            assert(!shown[k].under(&shown[j]));
        }
    }
}

/// Every server that comes with the program runs without being approved, has a program and a
/// language, and takes a repository for its root where nothing of its own marks one.
pub proof fn law_built_in_servers_are_ready(i: int)
    requires
        0 <= i < adapters::built_ins().len(),
    ensures
        ({
            let a = adapters::built_ins()[i];
            &&& !a.requires_approval
            &&& a.settings == JsonView::Null
            &&& a.command.len() > 0
            &&& a.languages.len() > 0
            &&& a.root_markers.len() > 0
            &&& a.root_markers.last() == ".git"@
        }),
{
}

/// The files of the common languages are served, each under the name that its server expects.
pub proof fn law_common_languages_are_served(path: Seq<char>)
    ensures
        ({
            let all = adapters::built_ins();
            let e = paths::extension(path);
            &&& e == Some("rs"@) ==> exists|a: adapters::AdapterView| #[trigger]
                all.contains(a) && a.id == "rust-analyzer"@ && client::language_id(
                    a.languages,
                    path,
                ) == Some("rust"@)
            &&& e == Some("py"@) ==> exists|a: adapters::AdapterView| #[trigger]
                all.contains(a) && a.id == "pyright"@ && client::language_id(a.languages, path)
                    == Some("python"@)
            &&& e == Some("go"@) ==> exists|a: adapters::AdapterView| #[trigger]
                all.contains(a) && a.id == "gopls"@ && client::language_id(a.languages, path)
                    == Some("go"@)
            &&& e == Some("java"@) ==> exists|a: adapters::AdapterView| #[trigger]
                all.contains(a) && a.id == "jdtls"@ && client::language_id(a.languages, path)
                    == Some("java"@)
            &&& e == Some("cs"@) ==> exists|a: adapters::AdapterView| #[trigger]
                all.contains(a) && a.id == "omnisharp"@ && client::language_id(a.languages, path)
                    == Some("csharp"@)
            &&& e == Some("php"@) ==> exists|a: adapters::AdapterView| #[trigger]
                all.contains(a) && a.id == "intelephense"@ && client::language_id(a.languages, path)
                    == Some("php"@)
            &&& e == Some("lua"@) ==> exists|a: adapters::AdapterView| #[trigger]
                all.contains(a) && a.id == "lua-language-server"@ && client::language_id(
                    a.languages,
                    path,
                ) == Some("lua"@)
            &&& e == Some("swift"@) ==> exists|a: adapters::AdapterView| #[trigger]
                all.contains(a) && a.id == "sourcekit-lsp"@ && client::language_id(
                    a.languages,
                    path,
                ) == Some("swift"@)
        }),
{
    let all = adapters::built_ins();
    reveal_with_fuel(client::last_language, 2);
    assert(all[0] == adapters::rust_analyzer_adapter() && all.contains(all[0]));
    assert(all[2] == adapters::python_adapter() && all.contains(all[2]));
    assert(all[3] == adapters::go_adapter() && all.contains(all[3]));
    assert(all[6] == adapters::java_adapter() && all.contains(all[6]));
    assert(all[7] == adapters::csharp_adapter() && all.contains(all[7]));
    assert(all[8] == adapters::php_adapter() && all.contains(all[8]));
    assert(all[9] == adapters::lua_adapter() && all.contains(all[9]));
    assert(all[12] == adapters::swift_adapter() && all.contains(all[12]));
}

/// A server is told who starts it, at which root and with which folder, and that the client
/// understands links, versions and several folders.
pub proof fn law_servers_are_told_where_they_work(
    process: u64,
    version: Seq<char>,
    uri: Seq<char>,
    root: Seq<char>,
)
    ensures
        ({
            let told = JsonView::Object(client::initialize_rows(process, version, uri, root));
            &&& told.get("processId"@) == JsonView::Unsigned(process)
            &&& told.get("rootUri"@) == JsonView::Text(uri)
            &&& told.get("clientInfo"@).text_at("version"@) == Some(version)
            &&& told.get("workspaceFolders"@).items().len() == 1
            &&& told.get("workspaceFolders"@).items()[0].text_at("uri"@) == Some(uri)
            &&& paths::file_name(root) matches Some(n) ==> told.get(
                "workspaceFolders"@,
            ).items()[0].text_at("name"@) == Some(n)
            &&& told.get("capabilities"@).get("workspace"@).get("workspaceFolders"@)
                == JsonView::Bool(true)
        }),
{
    reveal_strlit("processId");
    reveal_strlit("rootUri");
    reveal_strlit("clientInfo");
    reveal_strlit("capabilities");
    reveal_strlit("workspaceFolders");
    reveal_strlit("configuration");
    reveal_strlit("version");
    reveal_strlit("name");
    reveal_strlit("uri");
    assert("processId"@.len() == 9 && "rootUri"@.len() == 7 && "clientInfo"@.len() == 10
        && "capabilities"@.len() == 12 && "workspaceFolders"@.len() == 16 && "configuration"@.len()
        == 13 && "version"@.len() == 7 && "name"@.len() == 4 && "uri"@.len() == 3);
    reveal_with_fuel(json::entry_from, 6);
}

} // verus!

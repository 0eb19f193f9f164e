//! What holds of every exchange with a language server.

use vstd::prelude::*;
use crate::json;
use crate::json::JsonView;
use crate::lsp::client;
use crate::lsp::client::DocumentView;
use crate::lsp::edits;
use crate::lsp::parse;
use crate::lsp::parse::{LocationView, SymbolView};
use crate::lsp::reports;
use crate::lsp::reports::{DiagnosedView, DiagnosticReport, QueryReport};
use crate::lsp::types::{Diagnostic, Location, Position, Range, Symbol};
use crate::lsp::wire;
use crate::lsp::wire::{DiagnosticSnapshot, HeaderStep};
use crate::number;
use crate::order;
use crate::paths;
use crate::ranking;
use crate::text;
use crate::urls;

verus! {

proof fn lemma_keys()
    ensures
        "jsonrpc"@.len() == 7 && "jsonrpc"@[0] == 'j',
        "id"@.len() == 2,
        "method"@.len() == 6 && "method"@[0] == 'm',
        "params"@.len() == 6 && "params"@[0] == 'p',
        "result"@.len() == 6 && "result"@[0] == 'r',
        "error"@.len() == 5,
        "textDocument"@.len() == 12,
        "contentChanges"@.len() == 14,
        "uri"@.len() == 3,
        "languageId"@.len() == 10,
        "version"@.len() == 7 && "version"@[0] == 'v',
        "text"@.len() == 4,
        "range"@.len() == 5 && "range"@[0] == 'r',
        "start"@.len() == 5 && "start"@[0] == 's',
        "end"@.len() == 3,
        "line"@.len() == 4 && "line"@[0] == 'l',
        "character"@.len() == 9,
        "name"@.len() == 4 && "name"@[0] == 'n',
        "message"@.len() == 7 && "message"@[0] == 'm',
{
    reveal_strlit("jsonrpc");
    reveal_strlit("id");
    reveal_strlit("method");
    reveal_strlit("params");
    reveal_strlit("result");
    reveal_strlit("error");
    reveal_strlit("textDocument");
    reveal_strlit("contentChanges");
    reveal_strlit("uri");
    reveal_strlit("languageId");
    reveal_strlit("version");
    reveal_strlit("text");
    reveal_strlit("range");
    reveal_strlit("start");
    reveal_strlit("end");
    reveal_strlit("line");
    reveal_strlit("character");
    reveal_strlit("name");
    reveal_strlit("message");
}

/// A request carries its number, its method and its parameters; a notification carries no
/// number, so that nobody answers it.
pub proof fn law_messages_are_well_formed(id: i64, method: Seq<char>, params: JsonView)
    ensures
        ({
            let r = wire::request(id as int, method, params);
            let n = wire::notification(method, params);
            &&& r.text_at("jsonrpc"@) == Some("2.0"@)
            &&& r.get("id"@).integer() == Some(id as int)
            &&& r.text_at("method"@) == Some(method)
            &&& r.field("params"@) == Some(params)
            &&& n.text_at("jsonrpc"@) == Some("2.0"@)
            &&& n.field("id"@) is None
            &&& n.text_at("method"@) == Some(method)
            &&& n.field("params"@) == Some(params)
        }),
{
    lemma_keys();
    reveal_with_fuel(json::entry_from, 5);
}

/// The whole number that a value is.
pub open spec fn whole(v: JsonView) -> Option<int> {
    match v {
        JsonView::Unsigned(n) => Some(n as int),
        JsonView::Negative(n) => Some(n as int),
        _ => None,
    }
}

/// A server is told of an opened document by its address, its language, its version and its
/// whole text.
pub proof fn law_documents_are_opened_whole(
    uri: Seq<char>,
    language: Seq<char>,
    version: i64,
    content: Seq<char>,
)
    ensures
        ({
            let m = client::did_open(uri, language, version, content);
            let d = m.get("params"@).get("textDocument"@);
            &&& m.text_at("method"@) == Some("textDocument/didOpen"@)
            &&& m.field("id"@) is None
            &&& d.text_at("uri"@) == Some(uri)
            &&& d.text_at("languageId"@) == Some(language)
            &&& whole(d.get("version"@)) == Some(version as int)
            &&& d.text_at("text"@) == Some(content)
        }),
{
    lemma_keys();
    reveal_with_fuel(json::entry_from, 5);
}

/// The one change of a change message.
pub open spec fn sent_change(message: JsonView) -> JsonView {
    message.get("params"@).get("contentChanges"@).items()[0]
}

/// Whatever kind of synchronisation a server asked for, one that has the old text and
/// follows the message has the new one: the change holds the whole text where it names no
/// range, and else replaces what stands in the range. The message names the document and
/// its new version.
pub proof fn law_changes_bring_servers_up_to_date(
    uri: Seq<char>,
    version: i64,
    kind: u64,
    old: Seq<char>,
    new: Seq<char>,
    m: int,
    n: int,
)
    requires
        forall|i: int, line: nat, character: nat| #[trigger]
            edits::lies_at(old, i, line, character) ==> line <= u32::MAX && character <= u32::MAX,
    ensures
        ({
            let message = client::did_change(uri, version, kind, old, new);
            let d = message.get("params"@).get("textDocument"@);
            let c = sent_change(message);
            &&& message.text_at("method"@) == Some("textDocument/didChange"@)
            &&& message.field("id"@) is None
            &&& d.text_at("uri"@) == Some(uri)
            &&& whole(d.get("version"@)) == Some(version as int)
            &&& message.get("params"@).get("contentChanges"@).items().len() == 1
            &&& c.text_at("text"@) is Some
            &&& (c.field("range"@) is Some) == (kind == 2)
            &&& c.field("range"@) is None ==> c.text_at("text"@) == Some(new)
            &&& c.field("range"@) is Some && edits::lies_at(
                old,
                m,
                edits::range_at(c, "start"@, "line"@)->Unsigned_0 as nat,
                edits::range_at(c, "start"@, "character"@)->Unsigned_0 as nat,
            ) && edits::lies_at(
                old,
                n,
                edits::range_at(c, "end"@, "line"@)->Unsigned_0 as nat,
                edits::range_at(c, "end"@, "character"@)->Unsigned_0 as nat,
            ) ==> old.take(m) + c.text_at("text"@)->0 + old.skip(n) == new
        }),
{
    lemma_keys();
    reveal_with_fuel(json::entry_from, 5);
    let message = client::did_change(uri, version, kind, old, new);
    let params = message.get("params"@);
    assert(params.get("contentChanges"@).items() == seq![client::change_of(kind, old, new)]);
    assert(sent_change(message) == client::change_of(kind, old, new));
    edits::law_sent_change_gives_new_text(old, new, m, n);
}

/// A server is told of a saved and of a closed document by its address.
pub proof fn law_documents_are_closed_by_address(uri: Seq<char>)
    ensures
        ({
            let c = client::did_close(uri);
            let s = client::did_save(uri);
            &&& c.text_at("method"@) == Some("textDocument/didClose"@)
            &&& s.text_at("method"@) == Some("textDocument/didSave"@)
            &&& c.get("params"@).get("textDocument"@).text_at("uri"@) == Some(uri)
            &&& s.get("params"@).get("textDocument"@).text_at("uri"@) == Some(uri)
            &&& c.field("id"@) is None && s.field("id"@) is None
        }),
{
    lemma_keys();
    reveal_with_fuel(json::entry_from, 5);
}

/// A query on a position names the document and that position.
pub proof fn law_queries_name_their_position(uri: Seq<char>, position: Position)
    ensures
        ({
            let p = client::position_params(uri, position);
            &&& p.get("textDocument"@).text_at("uri"@) == Some(uri)
            &&& p.get("position"@).get("line"@) == JsonView::Unsigned(position.line as u64)
            &&& p.get("position"@).get("character"@) == JsonView::Unsigned(
                position.character as u64,
            )
        }),
{
    lemma_keys();
    reveal_strlit("position");
    assert("position"@.len() == 8);
    reveal_with_fuel(json::entry_from, 4);
}

/// The document that makes room is the one that was used longest ago, and never the one to
/// keep; there is none only where every document is that one.
pub proof fn law_longest_unused_makes_room(v: Seq<DocumentView>, keep: Seq<char>)
    ensures
        match client::victim(v, keep) {
            Some(i) => 0 <= i < v.len() && !paths::same_place(v[i].path, keep) && forall|j: int|
                0 <= j < v.len() && !paths::same_place((#[trigger] v[j]).path, keep)
                    ==> v[i].touched <= v[j].touched,
            None => forall|j: int|
                0 <= j < v.len() ==> paths::same_place((#[trigger] v[j]).path, keep),
        },
    decreases v.len(),
{
    if v.len() > 0 {
        let head = v.drop_last();
        law_longest_unused_makes_room(head, keep);
        assert(forall|j: int| 0 <= j < head.len() ==> head[j] == v[j]);
        assert forall|j: int|
            0 <= j < v.len() && client::victim(v, keep) is Some && !paths::same_place(
                (#[trigger] v[j]).path,
                keep,
            ) implies v[client::victim(v, keep)->0].touched <= v[j].touched by {
            if j < head.len() {
                assert(head[j] == v[j]);
            }
        }
        if client::victim(v, keep) is None {
            assert forall|j: int| 0 <= j < v.len() implies paths::same_place(
                (#[trigger] v[j]).path,
                keep,
            ) by {
                if j < head.len() {
                    assert(head[j] == v[j]);
                }
            }
        }
    }
}

/// Where no more documents are open than may be, none is closed; else the first that is
/// closed is the one that was used longest ago.
pub proof fn law_only_surplus_is_closed(v: Seq<DocumentView>, keep: Seq<char>, max: nat)
    ensures
        v.len() <= max ==> client::evicted(v, keep, max).0 == v && client::evicted(
            v,
            keep,
            max,
        ).1.len() == 0,
        v.len() > max && client::victim(v, keep) is Some ==> client::evicted(v, keep, max).1.len()
            > 0 && client::evicted(v, keep, max).1[0].path == v[client::victim(v, keep)->0].path,
        forall|i: int|
            0 <= i < client::evicted(v, keep, max).0.len() ==> v.contains(
                #[trigger] client::evicted(v, keep, max).0[i],
            ),
    decreases v.len(),
{
    law_longest_unused_makes_room(v, keep);
    let out = client::evicted(v, keep, max);
    if v.len() > max && client::victim(v, keep) is Some {
        let i = client::victim(v, keep)->0;
        let rest = v.remove(i);
        law_only_surplus_is_closed(rest, keep, max);
        assert forall|k: int| 0 <= k < out.0.len() implies v.contains(#[trigger] out.0[k]) by {
            assert(rest.contains(out.0[k]));
            let j = choose|j: int| 0 <= j < rest.len() && rest[j] == out.0[k];
            if j < i {
                assert(v[j] == out.0[k]);
            } else {
                assert(v[j + 1] == out.0[k]);
            }
        }
    } else {
        assert forall|k: int| 0 <= k < out.0.len() implies v.contains(#[trigger] out.0[k]) by {
            assert(v[k] == out.0[k]);
        }
    }
}

/// A closed document is told by its address, where its path has one.
pub proof fn law_closed_documents_are_told(path: Seq<char>)
    ensures
        client::closing(path).path == path,
        match urls::uri_of_path(path) {
            Some(uri) => client::closing(path).message matches Some(m) && m.get("params"@).get(
                "textDocument"@,
            ).text_at("uri"@) == Some(uri) && m.text_at("method"@) == Some(
                "textDocument/didClose"@,
            ),
            None => client::closing(path).message is None,
        },
{
    if let Some(uri) = urls::uri_of_path(path) {
        law_documents_are_closed_by_address(uri);
    }
}

/// Of several languages for one extension the last counts.
pub proof fn law_last_language_counts(
    v: Seq<(Seq<char>, Seq<char>)>,
    extension: Seq<char>,
    i: int,
)
    requires
        0 <= i < v.len(),
        v[i].0 == extension,
        forall|j: int| i < j < v.len() ==> (#[trigger] v[j]).0 != extension,
    ensures
        client::last_language(v, extension) == Some(v[i].1),
    decreases v.len(),
{
    if i < v.len() - 1 {
        assert(v[v.len() - 1].0 != extension);
        law_last_language_counts(v.drop_last(), extension, i);
    }
}

/// A file whose extension no language is named for has none.
pub proof fn law_unnamed_extensions_have_no_language(
    v: Seq<(Seq<char>, Seq<char>)>,
    extension: Seq<char>,
)
    requires
        forall|j: int| 0 <= j < v.len() ==> (#[trigger] v[j]).0 != extension,
    ensures
        client::last_language(v, extension) is None,
    decreases v.len(),
{
    if v.len() > 0 {
        assert(v[v.len() - 1].0 != extension);
        law_unnamed_extensions_have_no_language(v.drop_last(), extension);
    }
}

/// A report of one server shows at most as many findings as it may, counts all of them, says
/// whether it left some out, and loses none.
pub proof fn law_reports_count_everything(
    out: DiagnosticReport,
    found: Seq<Diagnostic>,
    server: Seq<char>,
    root: Seq<char>,
    path: Seq<char>,
    version: i64,
    max: nat,
    i: int,
)
    requires
        client::fresh(out, found, server, root, path, version, max),
        0 <= i < found.len(),
    ensures
        out is Fresh,
        out->Fresh_server@ == server && out->Fresh_root@ == root && out->Fresh_path@ == path,
        out->Fresh_version == version,
        out->Fresh_diagnostics@.len() <= max,
        out->Fresh_total == out->Fresh_diagnostics@.len() + out->Fresh_overflow@.len(),
        out->Fresh_truncated == (out->Fresh_overflow@.len() > 0),
        out->Fresh_overflow@.len() > 0 ==> out->Fresh_diagnostics@.len() == max,
        exists|k: int|
            0 <= k < (out->Fresh_diagnostics@ + out->Fresh_overflow@).len()
                && found[i].same_finding(
                #[trigger] &(out->Fresh_diagnostics@ + out->Fresh_overflow@)[k],
            ),
{
    let k = ranking::lemma_find_collected(found, i);
    let all = out->Fresh_diagnostics@ + out->Fresh_overflow@;
    assert(all == ranking::collected(found));
    assert(found[i].same_finding(&all[k]));
}

/// A report on a query shows at most as many items as it may, in order, counts all of them,
/// and says whether it left some out, which it keeps.
pub proof fn law_answers_count_everything<T>(
    out: QueryReport<T>,
    all: Seq<T>,
    server: Seq<char>,
    root: Seq<char>,
    max: nat,
)
    requires
        client::answered(out, all, server, root, max),
    ensures
        out is Ready,
        out->Ready_server@ == server && out->Ready_root@ == root,
        out->Ready_items@.len() <= max,
        out->Ready_items@ == all.take(out->Ready_items@.len() as int),
        out->Ready_overflow@ == all.skip(out->Ready_items@.len() as int),
        out->Ready_total == all.len(),
        out->Ready_truncated == (all.len() > max),
        all.len() <= max ==> out->Ready_items@ == all,
{
    assert(out->Ready_items@ =~= all.take(out->Ready_items@.len() as int));
    assert(out->Ready_overflow@ =~= all.skip(out->Ready_items@.len() as int));
}

/// The length of a payload is read from its header in letters of either case, the last one
/// counts, and any other header changes nothing.
pub proof fn law_headers_give_the_length(
    name: Seq<char>,
    n: usize,
    rest: Seq<char>,
    seen: Option<usize>,
)
    requires
        !name.contains(':'),
        name.len() > 0,
    ensures
        text::lowered(name) == "content-length"@ ==> wire::header_step(
            seen,
            name + seq![':'] + number::decimal(n as nat),
        ) == HeaderStep::More(Some(n)),
        text::lowered(name) != "content-length"@ && name[0] != '\r' && name[0] != '\n'
            ==> wire::header_step(seen, name + seq![':'] + rest) == HeaderStep::More(seen),
        wire::header_step(None, "\r\n"@) == HeaderStep::NoLength,
        wire::header_step(Some(n), "\n"@) == HeaderStep::Payload(n),
{
    reveal_strlit("\r\n");
    reveal_strlit("\n");
    reveal_strlit("content-length");
    let d = number::decimal(n as nat);
    number::lemma_decimal_parses(n as nat);
    lemma_colon(name, d);
    lemma_colon(name, rest);
    let line = name + seq![':'] + d;
    assert(line.take(name.len() as int) =~= name);
    assert(line.skip(name.len() + 1int) =~= d);
    let other = name + seq![':'] + rest;
    assert(other.take(name.len() as int) =~= name);
    let ends = text::law_trim(d);
    assert(number::all_digits(d)) by {
        number::lemma_decimal_parses(n as nat);
    }
    assert(text::trim(d) == d) by {
        if ends.0 > 0 {
            assert(text::is_white(d[0]));
            assert('0' <= d[0] <= '9');
        }
        if ends.1 < d.len() {
            assert(text::is_white(d[ends.1]));
            assert('0' <= d[ends.1] <= '9');
        }
        assert(d.subrange(0, d.len() as int) =~= d);
    }
    if text::lowered(name) == "content-length"@ {
        assert(name.len() == 14) by {
            assert(text::lowered(name).len() == name.len());
        }
        assert(line.len() > 2);
    }
    assert(other[0] == name[0]);
}

proof fn lemma_colon(name: Seq<char>, rest: Seq<char>)
    requires
        !name.contains(':'),
    ensures
        text::find_char(name + seq![':'] + rest, ':') == Some(name.len() as int),
{
    let s = name + seq![':'] + rest;
    text::lemma_find_char_from(s, ':', 0);
    assert(s[name.len() as int] == ':');
    let at = text::find_char(s, ':')->0;
    if at < name.len() {
        assert(name[at] == ':');
    }
}

/// What a server's request is answered: its settings for each section that it asks for, in
/// order; the one workspace folder; null where there is nothing to say; else that the method
/// is not there.
pub proof fn law_server_requests_get_what_they_ask(
    message: JsonView,
    root: Seq<char>,
    settings: JsonView,
    i: int,
)
    requires
        message.field("id"@) is Some,
        message.text_at("method"@) is Some,
    ensures
        ({
            let method = message.text_at("method"@)->0;
            let reply = wire::answer_to(message, root, settings)->0;
            let asked = message.get("params"@).get("items"@).items();
            &&& reply.field("id"@) == message.field("id"@)
            &&& method == "workspace/configuration"@ ==> {
                let given = reply.get("result"@).items();
                &&& given.len() == asked.len()
                &&& 0 <= i < asked.len() ==> given[i] == parse::section_of(
                    settings,
                    asked[i].text_at("section"@),
                )
            }
            &&& method == "workspace/workspaceFolders"@ ==> reply.get("result"@).items().len() == 1
                && (urls::uri_of_path(root) matches Some(uri) ==> reply.get("result"@).items()[0].text_at(
                "uri"@,
            ) == Some(uri))
            &&& method == "client/registerCapability"@ ==> reply.field("result"@) == Some(
                JsonView::Null,
            )
            &&& method == "window/workDoneProgress/create"@ ==> reply.field("result"@) == Some(
                JsonView::Null,
            )
        }),
{
    lemma_keys();
    reveal_strlit("workspace/configuration");
    reveal_strlit("workspace/workspaceFolders");
    reveal_strlit("client/registerCapability");
    reveal_strlit("window/workDoneProgress/create");
    assert("workspace/configuration"@.len() == 23 && "workspace/workspaceFolders"@.len() == 26
        && "client/registerCapability"@.len() == 25 && "window/workDoneProgress/create"@.len()
        == 30);
    reveal_with_fuel(json::entry_from, 4);
}

/// A section is found key by key: without a section a server gets all settings, and under a
/// key followed by more what that section of the key's value is.
pub proof fn law_sections_are_walked(settings: JsonView, key: Seq<char>, rest: Seq<char>)
    requires
        !key.contains('.'),
        key.len() > 0,
        rest.len() > 0,
    ensures
        parse::section_of(settings, None) == settings,
        parse::section_of(settings, Some(key)) == settings.get(key),
        parse::section_of(settings, Some(key + seq!['.'] + rest)) == match settings.field(key) {
            Some(v) => parse::section_of(v, Some(rest)),
            None => JsonView::Null,
        },
{
    text::lemma_split_front(key, '.', rest);
    reveal_with_fuel(parse::walked, 3);
    let more = text::split(rest, '.');
    let keys = text::split(key + seq!['.'] + rest, '.');
    assert(keys[0] == key);
    if let Some(v) = settings.field(key) {
        assert(keys.skip(1) =~= more.skip(0));
        lemma_walked(v, keys, 1, more, 0);
    }
}

proof fn lemma_walked(
    v: JsonView,
    a: Seq<Seq<char>>,
    i: int,
    b: Seq<Seq<char>>,
    j: int,
)
    requires
        0 <= i <= a.len(),
        0 <= j <= b.len(),
        a.skip(i) == b.skip(j),
    ensures
        parse::walked(v, a, i) == parse::walked(v, b, j),
    decreases a.len() - i,
{
    assert(a.skip(i).len() == a.len() - i && b.skip(j).len() == b.len() - j);
    if i < a.len() {
        assert(a[i] == a.skip(i)[0] && b[j] == b.skip(j)[0]);
        assert(a.skip(i + 1) =~= a.skip(i).drop_first());
        assert(b.skip(j + 1) =~= b.skip(j).drop_first());
        if let Some(next) = v.field(a[i]) {
            lemma_walked(next, a, i + 1, b, j + 1);
        }
    }
}

/// A position and a range that are written are read again as they are.
pub proof fn law_ranges_round_trip(r: Range)
    ensures
        parse::position_in(edits::position_json(r.start)) == Some(r.start),
        parse::range_in(edits::range_json(r)) == Some(r),
{
    lemma_keys();
    reveal_with_fuel(json::entry_from, 3);
}

/// A place is read by its address and its range, and the target of a link by its own.
pub proof fn law_places_are_read(uri: Seq<char>, path: Seq<char>, r: Range)
    requires
        urls::path_of_uri(uri) == Some(path),
    ensures
        parse::location_in(
            JsonView::Object(
                seq![("uri"@, JsonView::Text(uri)), ("range"@, edits::range_json(r))],
            ),
        ) == Some(LocationView { path, range: r }),
        parse::location_in(
            JsonView::Object(
                seq![
                    ("targetUri"@, JsonView::Text(uri)),
                    ("targetSelectionRange"@, edits::range_json(r)),
                ],
            ),
        ) == Some(LocationView { path, range: r }),
{
    lemma_keys();
    law_ranges_round_trip(r);
    reveal_strlit("targetUri");
    reveal_strlit("targetSelectionRange");
    reveal_strlit("targetRange");
    assert("targetUri"@.len() == 9 && "targetSelectionRange"@.len() == 20 && "targetRange"@.len()
        == 11);
    reveal_with_fuel(json::entry_from, 3);
}

/// A finding is read where it has a message and a range that can be read, with that message
/// and range, and with what it says of its severity, code and source.
pub proof fn law_findings_are_read(v: JsonView, r: Range)
    requires
        v.field("range"@) == Some(edits::range_json(r)),
    ensures
        parse::diagnostic_in(v) is Some <==> v.text_at("message"@) is Some,
        parse::diagnostic_in(v) matches Some(d) ==> {
            &&& Some(d.message) == v.text_at("message"@)
            &&& d.range == r
            &&& d.source == v.text_at("source"@)
            &&& d.code == v.field("code"@)
            &&& v.field("severity"@) is None ==> d.severity is None
            &&& v.field("severity"@) matches Some(JsonView::Unsigned(n)) ==> n < 256
                ==> d.severity is Some && d.severity->0 == n
            &&& d.data == v.field("data"@)
        },
{
    law_ranges_round_trip(r);
}

/// What is taken from a list is exactly what its items give, in their order.
pub proof fn law_picked<T>(v: Seq<JsonView>, pick: spec_fn(JsonView) -> Option<T>, x: T)
    ensures
        json::picked(v, pick).contains(x) <==> exists|i: int|
            0 <= i < v.len() && pick(#[trigger] v[i]) == Some(x),
        (forall|i: int| 0 <= i < v.len() ==> pick(#[trigger] v[i]) is Some) ==> json::picked(
            v,
            pick,
        ).len() == v.len(),
    decreases v.len(),
{
    if v.len() > 0 {
        let head = v.drop_last();
        let was = json::picked(head, pick);
        let now = json::picked(v, pick);
        law_picked(head, pick, x);
        assert(forall|i: int| 0 <= i < head.len() ==> head[i] == v[i]);
        if now.contains(x) {
            let k = choose|k: int| 0 <= k < now.len() && now[k] == x;
            if k < was.len() {
                assert(was[k] == x);
                let i = choose|i: int| 0 <= i < head.len() && pick(#[trigger] head[i]) == Some(x);
                assert(pick(v[i]) == Some(x));
            } else {
                assert(pick(v[v.len() - 1]) == Some(x));
            }
        }
        if exists|i: int| 0 <= i < v.len() && pick(#[trigger] v[i]) == Some(x) {
            let i = choose|i: int| 0 <= i < v.len() && pick(#[trigger] v[i]) == Some(x);
            if i < head.len() {
                assert(pick(head[i]) == Some(x));
                let k = choose|k: int| 0 <= k < was.len() && was[k] == x;
                assert(now[k] == x);
            } else {
                assert(now[was.len() as int] == x);
            }
        }
    }
}

/// A text that is cut keeps its beginning, as much as fits, and says that it was cut.
pub proof fn law_cut_texts_say_so(s: Seq<char>, max: nat)
    ensures
        s.len() <= max ==> parse::cut(s, max) == s,
        s.len() > max ==> parse::cut(s, max).take(max as int) == s.take(max as int)
            && text::ends_with(parse::cut(s, max), "… [truncated]"@),
{
    reveal_strlit("\n… [truncated]");
    reveal_strlit("… [truncated]");
    if s.len() > max {
        let c = parse::cut(s, max);
        assert(c.take(max as int) =~= s.take(max as int));
        let e = "… [truncated]"@;
        assert(c.subrange(c.len() - e.len(), c.len() as int) =~= e);
    }
}

/// Findings count where they were published after the point, for no older version than the
/// one that is asked about.
pub proof fn law_newer_findings(s: DiagnosticSnapshot, sequence: u64, version: i64)
    ensures
        wire::newer(s, sequence, version) <==> s.sequence > sequence && (s.version is None
            || s.version->0 >= version),
{
}

/// A hierarchical record is a symbol at its selection, its children follow it, and each of
/// them names it as what holds it.
pub proof fn law_children_name_their_parent(
    v: JsonView,
    path: Seq<char>,
    container: Option<Seq<char>>,
    name: Seq<char>,
    kind: u8,
    r: Range,
)
    requires
        v is Object,
        v.field("location"@) is None,
        v.text_at("name"@) == Some(name),
        v.get("kind"@) == JsonView::Unsigned(kind as u64),
        v.field("selectionRange"@) == Some(edits::range_json(r)),
    ensures
        ({
            let all = parse::tree_symbols(v, path, container);
            &&& all.len() > 0
            &&& all[0] == (SymbolView { name, kind, container, path, range: r })
            &&& v.field("children"@) is None ==> all.len() == 1
            &&& v.field("children"@) matches Some(JsonView::List(items)) ==> all.skip(1)
                == parse::list_symbols(items, path, Some(name))
        }),
{
    law_ranges_round_trip(r);
    let own = seq![SymbolView { name, kind, container, path, range: r }];
    let all = parse::tree_symbols(v, path, container);
    if let Some(JsonView::List(items)) = v.field("children"@) {
        assert(all == own + parse::list_symbols(items, path, Some(name)));
        assert(all.skip(1) =~= parse::list_symbols(items, path, Some(name)));
    }
}

/// Outgoing calls are read at the end that they lead to, incoming ones at that they come from.
pub proof fn law_calls_are_read_at_their_other_end(call: JsonView)
    ensures
        call.field("to"@) is None ==> parse::call_end(call, true) is None,
        call.field("from"@) is None ==> parse::call_end(call, false) is None,
        parse::call_end(call, true) matches Some(s) ==> Some(s.name) == call.get("to"@).text_at(
            "name"@,
        ),
        parse::call_end(call, false) matches Some(s) ==> Some(s.name) == call.get("from"@).text_at(
            "name"@,
        ),
{
}

/// A server that registers for changes says how it wants them: not at all, whole or by what
/// changed. Nothing else sets it.
pub proof fn law_registration_sets_synchronisation(message: JsonView, kind: u64, n: u64)
    ensures
        message.text_at("method"@) != Some("client/registerCapability"@) ==> wire::sync_kind_after(
            message,
            kind,
        ) == kind,
        message.field("id"@) is Some && message.text_at("method"@) == Some(
            "client/registerCapability"@,
        ) && message.get("params"@).get("registrations"@).items().len() == 1 && message.get(
            "params"@,
        ).get("registrations"@).items()[0].text_at("method"@) == Some("textDocument/didChange"@)
            && message.get("params"@).get("registrations"@).items()[0].get("registerOptions"@).get(
            "syncKind"@,
        ) == JsonView::Unsigned(n) && n <= 2 ==> wire::sync_kind_after(message, kind) == n,
{
    reveal_with_fuel(parse::change_registration, 2);
}

/// Everything that one of several reports found, shown or not, is gathered, its warnings
/// too, and the servers that gave it are named.
proof fn lemma_diagnosed(all: Seq<DiagnosticReport>, i: int, d: Diagnostic)
    requires
        0 <= i < all.len(),
    ensures
        ({
            let g = reports::diagnosed(all);
            match all[i] {
                DiagnosticReport::Fresh {
                    server,
                    sources,
                    version,
                    diagnostics,
                    overflow,
                    total,
                    truncated,
                    introduced,
                    resolved,
                    ..
                } => {
                    &&& (diagnostics@ + overflow@).contains(d) ==> g.diagnostics.contains(d)
                    &&& introduced is Some && introduced->0@.contains(d) ==> g.introduced.contains(d)
                    &&& resolved is Some && resolved->0@.contains(d) ==> g.resolved.contains(d)
                    &&& introduced is Some || resolved is Some ==> g.delta
                    &&& version <= g.version
                    &&& total <= g.total
                    &&& truncated ==> g.truncated
                    &&& sources@.len() == 0 ==> g.sources.contains(server@)
                    &&& forall|k: int|
                        0 <= k < sources@.len() ==> g.sources.contains(#[trigger] sources@[k]@)
                },
                DiagnosticReport::NoFreshData { server, waited_ms, version, .. } => {
                    &&& g.stale.contains(server@)
                    &&& waited_ms <= g.waited
                    &&& version <= g.version
                    &&& g.warnings.contains(server@ + ": no fresh diagnostic data"@)
                },
                DiagnosticReport::Unavailable { reason, .. } => g.warnings.contains(reason@),
                DiagnosticReport::Unsupported { path } => g.warnings.contains(
                    "unsupported file: "@ + path@,
                ),
            }
        }),
    decreases all.len(),
{
    let head = all.drop_last();
    let was = reports::diagnosed(head);
    let now = reports::diagnosed(all);
    if i < all.len() - 1 {
        lemma_diagnosed(head, i, d);
        assert(head[i] == all[i]);
    }
    lemma_step_keeps(was, now, all.last(), d);
    if i == all.len() - 1 {
        if let DiagnosticReport::Fresh { sources, diagnostics, overflow, introduced, resolved, .. } =
            all[i] {
            let n = was.diagnostics.len() as int;
            if (diagnostics@ + overflow@).contains(d) {
                let k = choose|k: int|
                    0 <= k < (diagnostics@ + overflow@).len() && (diagnostics@ + overflow@)[k] == d;
                assert(now.diagnostics[n + k] == d);
            }
            if introduced is Some && introduced->0@.contains(d) {
                let k = choose|k: int| 0 <= k < introduced->0@.len() && introduced->0@[k] == d;
                assert(now.introduced[was.introduced.len() + k] == d);
            }
            if resolved is Some && resolved->0@.contains(d) {
                let k = choose|k: int| 0 <= k < resolved->0@.len() && resolved->0@[k] == d;
                assert(now.resolved[was.resolved.len() + k] == d);
            }
            if sources@.len() == 0 {
                assert(now.sources[was.sources.len() as int] == all[i]->Fresh_server@);
            } else {
                assert forall|k: int| 0 <= k < sources@.len() implies now.sources.contains(
                    #[trigger] sources@[k]@,
                ) by {
                    assert(now.sources[was.sources.len() + k] == text::views(sources@)[k]);
                }
            }
        } else if let DiagnosticReport::NoFreshData { server, .. } = all[i] {
            assert(now.stale[was.stale.len() as int] == server@);
            assert(now.warnings[was.warnings.len() as int] == server@
                + ": no fresh diagnostic data"@);
        } else {
            assert(now.warnings.last() == now.warnings[was.warnings.len() as int]);
        }
    } else if let DiagnosticReport::Fresh { sources, .. } = all[i] {
        assert forall|k: int| 0 <= k < sources@.len() implies now.sources.contains(
            #[trigger] sources@[k]@,
        ) by {
            lemma_prefix_holds(was.sources, now.sources, sources@[k]@);
        }
        lemma_prefix_holds(was.sources, now.sources, all[i]->Fresh_server@);
    } else if let DiagnosticReport::NoFreshData { server, .. } = all[i] {
        lemma_prefix_holds(was.stale, now.stale, server@);
        lemma_prefix_holds(was.warnings, now.warnings, server@ + ": no fresh diagnostic data"@);
    } else if let DiagnosticReport::Unavailable { reason, .. } = all[i] {
        lemma_prefix_holds(was.warnings, now.warnings, reason@);
    } else if let DiagnosticReport::Unsupported { path } = all[i] {
        lemma_prefix_holds(was.warnings, now.warnings, "unsupported file: "@ + path@);
    }
}

spec fn begins<T>(a: Seq<T>, b: Seq<T>) -> bool {
    a.len() <= b.len() && b.take(a.len() as int) == a
}

proof fn lemma_prefix_holds<T>(a: Seq<T>, b: Seq<T>, x: T)
    ensures
        begins(a, b) && a.contains(x) ==> b.contains(x),
{
    if begins(a, b) && a.contains(x) {
        let k = choose|k: int| 0 <= k < a.len() && a[k] == x;
        assert(b.take(a.len() as int)[k] == x);
        assert(b[k] == x);
    }
}

proof fn lemma_step_keeps(
    was: DiagnosedView,
    now: DiagnosedView,
    last: DiagnosticReport,
    d: Diagnostic,
)
    requires
        exists|all: Seq<DiagnosticReport>|
            all.len() > 0 && all.last() == last && #[trigger] reports::diagnosed(all) == now
                && reports::diagnosed(all.drop_last()) == was,
    ensures
        begins(was.sources, now.sources),
        begins(was.stale, now.stale),
        begins(was.warnings, now.warnings),
        was.diagnostics.contains(d) ==> now.diagnostics.contains(d),
        was.introduced.contains(d) ==> now.introduced.contains(d),
        was.resolved.contains(d) ==> now.resolved.contains(d),
        was.delta ==> now.delta,
        was.version <= now.version,
        was.waited <= now.waited,
        was.total <= now.total,
        was.truncated ==> now.truncated,
{
    assert(now.sources.take(was.sources.len() as int) =~= was.sources);
    assert(now.stale.take(was.stale.len() as int) =~= was.stale);
    assert(now.warnings.take(was.warnings.len() as int) =~= was.warnings);
    assert(now.diagnostics.take(was.diagnostics.len() as int) =~= was.diagnostics);
    assert(now.introduced.take(was.introduced.len() as int) =~= was.introduced);
    assert(now.resolved.take(was.resolved.len() as int) =~= was.resolved);
    lemma_prefix_holds(was.diagnostics, now.diagnostics, d);
    lemma_prefix_holds(was.introduced, now.introduced, d);
    lemma_prefix_holds(was.resolved, now.resolved, d);
}

/// Whatever one server found is in the merged report, shown or beyond the limit; a report
/// that was truncated leaves the merged one so, its version is no older than any, and what a
/// server found introduced is told as introduced, as long as there is room.
pub proof fn law_no_server_is_dropped(
    all: Seq<DiagnosticReport>,
    out: DiagnosticReport,
    path: Seq<char>,
    workspace: Seq<char>,
    max: nat,
    i: int,
    d: Diagnostic,
)
    requires
        reports::diagnoses(out, reports::diagnosed(all), path, workspace, max),
        0 <= i < all.len(),
        all[i] is Fresh,
    ensures
        out is Fresh,
        out->Fresh_path@ == path,
        out->Fresh_version >= all[i]->Fresh_version,
        out->Fresh_total >= all[i]->Fresh_total,
        all[i]->Fresh_truncated ==> out->Fresh_truncated,
        out->Fresh_diagnostics@.len() <= max,
        (all[i]->Fresh_diagnostics@ + all[i]->Fresh_overflow@).contains(d) ==> exists|k: int|
            0 <= k < (out->Fresh_diagnostics@ + out->Fresh_overflow@).len() && d.same_finding(
                #[trigger] &(out->Fresh_diagnostics@ + out->Fresh_overflow@)[k],
            ),
        all[i]->Fresh_introduced is Some ==> out->Fresh_introduced is Some
            && out->Fresh_introduced->0@.len() <= max,
        all[i]->Fresh_resolved is Some ==> out->Fresh_resolved is Some
            && out->Fresh_resolved->0@.len() <= max,
        all[i]->Fresh_introduced is Some && all[i]->Fresh_introduced->0@.contains(d)
            && out->Fresh_introduced->0@.len() < max ==> exists|k: int|
            0 <= k < out->Fresh_introduced->0@.len() && d.same_finding(
                #[trigger] &out->Fresh_introduced->0@[k],
            ),
        all[i]->Fresh_resolved is Some && all[i]->Fresh_resolved->0@.contains(d)
            && out->Fresh_resolved->0@.len() < max ==> exists|k: int|
            0 <= k < out->Fresh_resolved->0@.len() && d.same_finding(
                #[trigger] &out->Fresh_resolved->0@[k],
            ),
{
    lemma_diagnosed(all, i, d);
    reports::law_stale_is_never_clean(all, out, path, workspace, max);
    assert(reports::is_fresh(all[i]));
    let g = reports::diagnosed(all);
    if (all[i]->Fresh_diagnostics@ + all[i]->Fresh_overflow@).contains(d) {
        let j = choose|j: int| 0 <= j < g.diagnostics.len() && g.diagnostics[j] == d;
        let k = ranking::lemma_find_collected(g.diagnostics, j);
        let found = ranking::collected(g.diagnostics);
        assert(out->Fresh_diagnostics@ + out->Fresh_overflow@ =~= found);
        assert(d.same_finding(&(out->Fresh_diagnostics@ + out->Fresh_overflow@)[k]));
    }
    if all[i]->Fresh_introduced is Some && all[i]->Fresh_introduced->0@.contains(d)
        && out->Fresh_introduced->0@.len() < max {
        let j = choose|j: int| 0 <= j < g.introduced.len() && g.introduced[j] == d;
        let k = ranking::lemma_find_collected(g.introduced, j);
        assert(d.same_finding(&out->Fresh_introduced->0@[k]));
    }
    if all[i]->Fresh_resolved is Some && all[i]->Fresh_resolved->0@.contains(d)
        && out->Fresh_resolved->0@.len() < max {
        let j = choose|j: int| 0 <= j < g.resolved.len() && g.resolved[j] == d;
        let k = ranking::lemma_find_collected(g.resolved, j);
        assert(d.same_finding(&out->Fresh_resolved->0@[k]));
    }
}

proof fn lemma_gathered<T>(all: Seq<QueryReport<T>>, apart: bool, i: int, x: T)
    requires
        0 <= i < all.len(),
    ensures
        ({
            let g = reports::gathered(all, apart);
            match all[i] {
                QueryReport::Ready { items, overflow, total, truncated, .. } => {
                    &&& items@.contains(x) ==> g.items.contains(x)
                    &&& overflow@.contains(x) ==> g.items.contains(x) || g.overflow.contains(x)
                    &&& !apart && overflow@.contains(x) ==> g.items.contains(x)
                    &&& total <= g.total
                    &&& truncated ==> g.truncated
                },
                QueryReport::Unavailable { reason } => g.warnings.contains(reason@),
                QueryReport::Unsupported { path } => g.warnings.contains(
                    "unsupported file: "@ + path@,
                ),
            }
        }),
    decreases all.len(),
{
    let was = reports::gathered(all.drop_last(), apart);
    let now = reports::gathered(all, apart);
    assert(now.items.take(was.items.len() as int) =~= was.items);
    assert(now.overflow.take(was.overflow.len() as int) =~= was.overflow);
    assert(now.warnings.take(was.warnings.len() as int) =~= was.warnings);
    if i < all.len() - 1 {
        lemma_gathered(all.drop_last(), apart, i, x);
        assert(all.drop_last()[i] == all[i]);
        lemma_prefix_holds(was.items, now.items, x);
        lemma_prefix_holds(was.overflow, now.overflow, x);
        if let QueryReport::Unavailable { reason } = all[i] {
            lemma_prefix_holds(was.warnings, now.warnings, reason@);
        } else if let QueryReport::Unsupported { path } = all[i] {
            lemma_prefix_holds(was.warnings, now.warnings, "unsupported file: "@ + path@);
        }
    } else {
        if let QueryReport::Ready { items, overflow, .. } = all[i] {
            let n = was.items.len() as int;
            if items@.contains(x) {
                let k = choose|k: int| 0 <= k < items@.len() && items@[k] == x;
                assert(now.items[n + k] == x);
            }
            if overflow@.contains(x) {
                let k = choose|k: int| 0 <= k < overflow@.len() && overflow@[k] == x;
                if apart {
                    assert(now.overflow[was.overflow.len() + k] == x);
                } else {
                    assert(now.items[n + items@.len() + k] == x);
                }
            }
        } else {
            assert(now.warnings[was.warnings.len() as int] == now.warnings.last());
        }
    }
}

/// Whatever one server answered a query is in the merged answer, shown or beyond the limit,
/// as itself or as one like it.
pub proof fn law_no_answer_is_dropped<T: ranking::Ranked>(
    all: Seq<QueryReport<T>>,
    apart: bool,
    out: QueryReport<T>,
    workspace: Seq<char>,
    max: nat,
    i: int,
    x: T,
)
    requires
        reports::reports(
            out,
            reports::gathered(all, apart),
            ranking::settled(reports::gathered(all, apart).items),
            workspace,
            max,
        ),
        0 <= i < all.len(),
        all[i] is Ready,
        out is Ready,
    ensures
        out->Ready_items@.len() <= max,
        out->Ready_total >= all[i]->Ready_total,
        all[i]->Ready_truncated ==> out->Ready_truncated,
        all[i]->Ready_items@.contains(x) || all[i]->Ready_overflow@.contains(x) ==> (exists|k: int|
            0 <= k < out->Ready_items@.len() && x.alike(#[trigger] &out->Ready_items@[k])) || (
        exists|k: int|
            0 <= k < out->Ready_overflow@.len() && x.alike(#[trigger] &out->Ready_overflow@[k])),
{
    lemma_gathered(all, apart, i, x);
    let g = reports::gathered(all, apart);
    let found = ranking::settled(g.items);
    let shown = reports::smaller(max, found.len()) as int;
    if g.items.contains(x) {
        let j = choose|j: int| 0 <= j < g.items.len() && g.items[j] == x;
        ranking::law_nothing_lost(g.items, j);
        let k = choose|k: int| 0 <= k < found.len() && g.items[j].alike(&found[k]);
        if k < shown {
            assert(x.alike(&out->Ready_items@[k]));
        } else {
            assert(x.alike(&out->Ready_overflow@[g.overflow.len() + k - shown]));
        }
    } else if g.overflow.contains(x) {
        let j = choose|j: int| 0 <= j < g.overflow.len() && g.overflow[j] == x;
        T::reflexive(x);
        assert(x.alike(&out->Ready_overflow@[j]));
    }
}

/// The place of a position among all: by its line, and then by its character.
pub open spec fn rank_of(p: Position) -> int {
    p.line * 0x1_0000_0000 + p.character
}

/// A position comes before another by its line, and on the same line by its character; a
/// range by where it starts, and then by where it ends.
pub proof fn law_positions_are_ordered(a: Position, b: Position, c: Position, d: Position)
    ensures
        a.before(b) <==> rank_of(a) < rank_of(b),
        a == b <==> rank_of(a) == rank_of(b),
        (Range { start: a, end: b }).before(Range { start: c, end: d }) <==> rank_of(a) < rank_of(c)
            || rank_of(a) == rank_of(c) && rank_of(b) < rank_of(d),
{
    assert(rank_of(a) == rank_of(c) ==> a.line == c.line && a.character == c.character);
    assert(rank_of(a) == rank_of(b) ==> a.line == b.line && a.character == b.character);
}

/// Findings are put in the order of their places, and in one place in that of their words.
/// Findings are the same only where place, weight, source and words are.
pub proof fn law_findings_are_in_the_order_of_their_places(a: Diagnostic, b: Diagnostic)
    ensures
        a.range.before(b.range) ==> ranking::Ranked::under(&a, &b) && !ranking::Ranked::under(
            &b,
            &a,
        ),
        a.range == b.range && order::before(a.message@, b.message@) ==> ranking::Ranked::under(
            &a,
            &b,
        ) && !ranking::Ranked::under(&b, &a),
        a.same_finding(&b) ==> a.range == b.range && a.severity == b.severity && a.message@
            == b.message@ && text::view_of(a.source) == text::view_of(b.source),
        a.range == b.range && a.severity == b.severity && a.message@ == b.message@ && text::view_of(
            a.source,
        ) == text::view_of(b.source) && a.code is None && b.code is None ==> a.same_finding(&b),
{
    if a.range == b.range && order::before(a.message@, b.message@) {
        order::lemma_before_total(a.message@, b.message@);
    }
    law_positions_are_ordered(a.range.start, a.range.end, b.range.start, b.range.end);
    law_positions_are_ordered(b.range.start, b.range.end, a.range.start, a.range.end);
}

/// Places are put in the order of their files, and in one file in that of their ranges;
/// symbols in the order of their names.
pub proof fn law_places_and_symbols_are_ordered(a: Location, b: Location, s: Symbol, t: Symbol)
    ensures
        paths::path_before(a.path@, b.path@) ==> ranking::Ranked::under(&a, &b),
        paths::same_place(a.path@, b.path@) && a.range.before(b.range) ==> ranking::Ranked::under(
            &a,
            &b,
        ),
        ranking::Ranked::alike(&a, &b) <==> paths::same_place(a.path@, b.path@) && a.range
            == b.range,
        order::before(s.name@, t.name@) ==> ranking::Ranked::under(&s, &t),
        ranking::Ranked::alike(&s, &t) ==> s.name@ == t.name@ && s.kind == t.kind
            && paths::same_place(s.location.path@, t.location.path@) && s.location.range
            == t.location.range,
{
}

} // verus!

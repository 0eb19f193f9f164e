//! Reading what language servers answer.

use vstd::prelude::*;
use vstd::string::*;
use crate::json;
use crate::json::{Json, JsonView};
use crate::lsp::types;
use crate::lsp::types::{CodeDescription, Diagnostic, DiagnosticView, Hover, Location, Position, Range, RelatedInformation, RelatedView, Symbol};
use crate::text;
use crate::text::{chars_of, join, same, split_on, text_slice};
use crate::urls;
use crate::urls::file_path;

verus! {

/// A number that fits 32 bits.
pub open spec fn small(v: JsonView) -> Option<u32> {
    match v {
        JsonView::Unsigned(n) => if n <= u32::MAX {
            Some(n as u32)
        } else {
            None
        },
        _ => None,
    }
}

/// The two members of a record: by their names in an object, by their order in a
/// list of two.
pub open spec fn members(v: JsonView, first: Seq<char>, second: Seq<char>) -> Option<
    (JsonView, JsonView),
> {
    match v {
        JsonView::Object(_) => match (v.field(first), v.field(second)) {
            (Some(a), Some(b)) => Some((a, b)),
            _ => None,
        },
        JsonView::List(items) => if items.len() == 2 {
            Some((items[0], items[1]))
        } else {
            None
        },
        _ => None,
    }
}

/// The position that a value describes.
pub open spec fn position_in(v: JsonView) -> Option<Position> {
    match members(v, "line"@, "character"@) {
        Some((a, b)) => match (small(a), small(b)) {
            (Some(line), Some(character)) => Some(Position { line, character }),
            _ => None,
        },
        None => None,
    }
}

/// The range that a value describes.
pub open spec fn range_in(v: JsonView) -> Option<Range> {
    match members(v, "start"@, "end"@) {
        Some((a, b)) => match (position_in(a), position_in(b)) {
            (Some(start), Some(end)) => Some(Range { start, end }),
            _ => None,
        },
        None => None,
    }
}

fn parse_small(v: &Json) -> (out: Option<u32>)
    ensures
        out == small(v@),
{
    match v.unsigned() {
        Some(n) => if n <= 0xffff_ffff {
            Some(n as u32)
        } else {
            None
        },
        None => None,
    }
}

fn split_members<'a>(v: &'a Json, first: &str, second: &str) -> (out: Option<(&'a Json, &'a Json)>)
    ensures
        match out {
            Some(m) => members(v@, first@, second@) == Some((m.0@, m.1@)),
            None => members(v@, first@, second@) is None,
        },
{
    broadcast use json::lemma_list_view, json::lemma_object_view;

    match v {
        Json::Object(_) => match (v.field(first), v.field(second)) {
            (Some(a), Some(b)) => Some((a, b)),
            _ => None,
        },
        Json::List(items) => if items.len() == 2 {
            Some((&items[0], &items[1]))
        } else {
            None
        },
        _ => None,
    }
}

fn parse_position(v: &Json) -> (out: Option<Position>)
    ensures
        out == position_in(v@),
{
    match split_members(v, "line", "character") {
        Some((a, b)) => match (parse_small(a), parse_small(b)) {
            (Some(line), Some(character)) => Some(Position { line, character }),
            _ => None,
        },
        None => None,
    }
}

/// The range that a value describes.
pub fn parse_range(v: &Json) -> (out: Option<Range>)
    ensures
        out == range_in(v@),
{
    match split_members(v, "start", "end") {
        Some((a, b)) => match (parse_position(a), parse_position(b)) {
            (Some(start), Some(end)) => Some(Range { start, end }),
            _ => None,
        },
        None => None,
    }
}

/// The first value that is there.
pub open spec fn either(a: Option<JsonView>, b: Option<JsonView>) -> Option<JsonView> {
    match a {
        Some(v) => Some(v),
        None => b,
    }
}

fn first_of<'a>(a: Option<&'a Json>, b: Option<&'a Json>) -> (out: Option<&'a Json>)
    ensures
        match out {
            Some(v) => either(
                match a {
                    Some(x) => Some(x@),
                    None => None,
                },
                match b {
                    Some(x) => Some(x@),
                    None => None,
                },
            ) == Some(v@),
            None => a is None && b is None,
        },
{
    match a {
        Some(v) => Some(v),
        None => b,
    }
}

/// What a [`Location`] holds.
#[verifier::ext_equal]
pub ghost struct LocationView {
    pub path: Seq<char>,
    pub range: Range,
}

impl View for Location {
    type V = LocationView;

    open spec fn view(&self) -> LocationView {
        LocationView { path: self.path@, range: self.range }
    }
}

/// What each location holds.
pub open spec fn places(v: Seq<Location>) -> Seq<LocationView> {
    v.map_values(|l: Location| l@)
}

/// The location that a value describes, as a plain location or as the target of a
/// link.
pub open spec fn location_in(v: JsonView) -> Option<LocationView> {
    match (
        either(v.field("uri"@), v.field("targetUri"@)),
        either(
            either(v.field("range"@), v.field("targetSelectionRange"@)),
            v.field("targetRange"@),
        ),
    ) {
        (Some(JsonView::Text(uri)), Some(r)) => match (urls::path_of_uri(uri), range_in(r)) {
            (Some(path), Some(range)) => Some(LocationView { path, range }),
            _ => None,
        },
        _ => None,
    }
}

/// The location that a value describes.
pub fn parse_location(v: &Json) -> (out: Option<Location>)
    ensures
        match out {
            Some(l) => location_in(v@) == Some(l@),
            None => location_in(v@) is None,
        },
{
    let uri = match first_of(v.field("uri"), v.field("targetUri")) {
        Some(u) => match u.text() {
            Some(t) => t,
            None => {
                return None;
            },
        },
        None => {
            return None;
        },
    };
    let range = match first_of(
        first_of(v.field("range"), v.field("targetSelectionRange")),
        v.field("targetRange"),
    ) {
        Some(r) => r,
        None => {
            return None;
        },
    };
    match (file_path(uri.as_str()), parse_range(range)) {
        (Some(path), Some(range)) => Some(Location { path, range }),
        _ => None,
    }
}

/// Takes the location of a value.
pub open spec fn by_location() -> spec_fn(JsonView) -> Option<LocationView> {
    |v: JsonView| location_in(v)
}

/// The locations that an answer describes: none for null, one for a single
/// location, else those of the list.
pub open spec fn locations_in(v: JsonView) -> Seq<LocationView> {
    match v {
        JsonView::Null => seq![],
        JsonView::List(items) => json::picked(items, by_location()),
        _ => match location_in(v) {
            Some(l) => seq![l],
            None => seq![],
        },
    }
}

/// The locations that an answer describes.
pub fn parse_locations(v: &Json) -> (out: Vec<Location>)
    ensures
        places(out@) == locations_in(v@),
{
    broadcast use json::lemma_list_view;

    let mut out: Vec<Location> = Vec::new();
    assert(places(out@) =~= seq![]);
    match v {
        Json::Null => {},
        Json::List(items) => {
            let ghost all = json::values(items@);
            let mut i: usize = 0;
            assert(places(out@) =~= json::picked(all.take(0), by_location()));
            while i < items.len()
                invariant
                    i <= items@.len(),
                    all == json::values(items@),
                    places(out@) == json::picked(all.take(i as int), by_location()),
                decreases items@.len() - i,
            {
                let ghost was = out@;
                assert(all.take(i + 1).drop_last() =~= all.take(i as int));
                match parse_location(&items[i]) {
                    Some(l) => {
                        let ghost lv = l@;
                        out.push(l);
                        assert(places(out@) =~= places(was).push(lv));
                    },
                    None => {},
                }
                i = i + 1;
            }
            assert(all.take(i as int) =~= all);
        },
        other => match parse_location(other) {
            Some(l) => {
                let ghost lv = l@;
                out.push(l);
                assert(places(out@) =~= seq![lv]);
            },
            None => {},
        },
    }
    out
}

/// The related finding that a value describes.
pub open spec fn related_in(v: JsonView) -> Option<RelatedView> {
    match (v.field("location"@), v.text_at("message"@)) {
        (Some(l), Some(message)) => match location_in(l) {
            Some(l) => Some(RelatedView { path: l.path, range: l.range, message }),
            None => None,
        },
        _ => None,
    }
}

/// Takes the related finding of a value.
pub open spec fn by_relation() -> spec_fn(JsonView) -> Option<RelatedView> {
    |v: JsonView| related_in(v)
}

fn parse_related(v: &Json) -> (out: Option<RelatedInformation>)
    ensures
        match out {
            Some(r) => related_in(v@) == Some(r@),
            None => related_in(v@) is None,
        },
{
    match (v.field("location"), v.text_at("message")) {
        (Some(l), Some(message)) => match parse_location(l) {
            Some(location) => Some(RelatedInformation { location, message: message.clone() }),
            None => None,
        },
        _ => None,
    }
}

fn parse_related_list(v: Option<&Json>) -> (out: Vec<RelatedInformation>)
    ensures
        types::related(out@) == json::picked(
            match v {
                Some(j) => j@.items(),
                None => seq![],
            },
            by_relation(),
        ),
{
    let mut out: Vec<RelatedInformation> = Vec::new();
    let items = match v {
        Some(j) => match j.list() {
            Some(items) => items,
            None => {
                assert(types::related(out@) =~= seq![]);
                return out;
            },
        },
        None => {
            assert(types::related(out@) =~= seq![]);
            return out;
        },
    };
    let ghost all = json::values(items@);
    let mut i: usize = 0;
    assert(types::related(out@) =~= json::picked(all.take(0), by_relation()));
    while i < items.len()
        invariant
            i <= items@.len(),
            all == json::values(items@),
            types::related(out@) == json::picked(all.take(i as int), by_relation()),
        decreases items@.len() - i,
    {
        let ghost was = out@;
        assert(all.take(i + 1).drop_last() =~= all.take(i as int));
        match parse_related(&items[i]) {
            Some(r) => {
                let ghost rv = r@;
                out.push(r);
                assert(types::related(out@) =~= types::related(was).push(rv));
            },
            None => {},
        }
        i = i + 1;
    }
    assert(all.take(i as int) =~= all);
    out
}

/// The lowest eight bits of a number.
pub open spec fn low_byte(v: JsonView) -> Option<u8> {
    match v {
        JsonView::Unsigned(n) => Some((n % 256) as u8),
        _ => None,
    }
}

/// Takes the lowest eight bits of a number.
pub open spec fn by_low_byte() -> spec_fn(JsonView) -> Option<u8> {
    |v: JsonView| low_byte(v)
}

fn parse_low_byte(v: &Json) -> (out: Option<u8>)
    ensures
        out == low_byte(v@),
{
    match v.unsigned() {
        Some(n) => Some((n % 256) as u8),
        None => None,
    }
}

fn parse_low_bytes(v: Option<&Json>) -> (out: Vec<u8>)
    ensures
        out@ == json::picked(
            match v {
                Some(j) => j@.items(),
                None => seq![],
            },
            by_low_byte(),
        ),
{
    let mut out: Vec<u8> = Vec::new();
    let items = match v {
        Some(j) => match j.list() {
            Some(items) => items,
            None => {
                return out;
            },
        },
        None => {
            return out;
        },
    };
    let ghost all = json::values(items@);
    let mut i: usize = 0;
    while i < items.len()
        invariant
            i <= items@.len(),
            all == json::values(items@),
            out@ == json::picked(all.take(i as int), by_low_byte()),
        decreases items@.len() - i,
    {
        assert(all.take(i + 1).drop_last() =~= all.take(i as int));
        match parse_low_byte(&items[i]) {
            Some(n) => {
                out.push(n);
            },
            None => {},
        }
        i = i + 1;
    }
    assert(all.take(i as int) =~= all);
    out
}

/// The diagnostic that a value describes. It needs a range and a message; the
/// rest is taken as far as it is there.
pub open spec fn diagnostic_in(v: JsonView) -> Option<DiagnosticView> {
    match (v.field("range"@), v.text_at("message"@)) {
        (Some(r), Some(message)) => match range_in(r) {
            Some(range) => Some(
                DiagnosticView {
                    range,
                    severity: low_byte(v.get("severity"@)),
                    code: v.field("code"@),
                    href: v.get("codeDescription"@).text_at("href"@),
                    source: v.text_at("source"@),
                    message,
                    tags: json::picked(v.get("tags"@).items(), by_low_byte()),
                    related: json::picked(v.get("relatedInformation"@).items(), by_relation()),
                    data: v.field("data"@),
                },
            ),
            None => None,
        },
        _ => None,
    }
}

fn copy_field(v: &Json, key: &str) -> (out: Option<Json>)
    ensures
        types::json_view(out) == v@.field(key@),
{
    match v.field(key) {
        Some(j) => Some(j.copy()),
        None => None,
    }
}

fn copy_text_at(v: &Json, key: &str) -> (out: Option<String>)
    ensures
        text::view_of(out) == v@.text_at(key@),
{
    match v.text_at(key) {
        Some(s) => Some(s.clone()),
        None => None,
    }
}

/// The diagnostic that a value describes.
pub fn parse_diagnostic(v: &Json) -> (out: Option<Diagnostic>)
    ensures
        match out {
            Some(d) => diagnostic_in(v@) == Some(d@),
            None => diagnostic_in(v@) is None,
        },
{
    let range = match v.field("range") {
        Some(r) => match parse_range(r) {
            Some(range) => range,
            None => {
                return None;
            },
        },
        None => {
            return None;
        },
    };
    let message = match v.text_at("message") {
        Some(m) => m.clone(),
        None => {
            return None;
        },
    };
    let code_description = match v.field("codeDescription") {
        Some(c) => match c.text_at("href") {
            Some(href) => Some(CodeDescription { href: href.clone() }),
            None => None,
        },
        None => None,
    };
    let severity = match v.field("severity") {
        Some(s) => parse_low_byte(s),
        None => None,
    };
    let tags = parse_low_bytes(v.field("tags"));
    let related_information = parse_related_list(v.field("relatedInformation"));
    let out = Diagnostic {
        range,
        severity,
        code: copy_field(v, "code"),
        code_description,
        source: copy_text_at(v, "source"),
        message,
        tags,
        related_information,
        data: copy_field(v, "data"),
    };
    assert(diagnostic_in(v@) == Some(out@));
    Some(out)
}

/// Takes the diagnostic of a value.
pub open spec fn by_diagnostic() -> spec_fn(JsonView) -> Option<DiagnosticView> {
    |v: JsonView| diagnostic_in(v)
}

/// The diagnostics of a list; none where the value is no list.
pub fn parse_diagnostics(v: &Json) -> (out: Vec<Diagnostic>)
    ensures
        types::found(out@) == json::picked(v@.items(), by_diagnostic()),
{
    let mut out: Vec<Diagnostic> = Vec::new();
    let items = match v.list() {
        Some(items) => items,
        None => {
            assert(types::found(out@) =~= seq![]);
            return out;
        },
    };
    let ghost all = json::values(items@);
    let mut i: usize = 0;
    assert(types::found(out@) =~= json::picked(all.take(0), by_diagnostic()));
    while i < items.len()
        invariant
            i <= items@.len(),
            all == json::values(items@),
            types::found(out@) == json::picked(all.take(i as int), by_diagnostic()),
        decreases items@.len() - i,
    {
        let ghost was = out@;
        assert(all.take(i + 1).drop_last() =~= all.take(i as int));
        match parse_diagnostic(&items[i]) {
            Some(d) => {
                let ghost dv = d@;
                out.push(d);
                assert(types::found(out@) =~= types::found(was).push(dv));
            },
            None => {},
        }
        i = i + 1;
    }
    assert(all.take(i as int) =~= all);
    out
}

/// At most `max` characters of a text, with a notice behind where some were cut.
pub open spec fn cut(s: Seq<char>, max: nat) -> Seq<char> {
    if s.len() <= max {
        s
    } else {
        s.take(max as int) + "\n… [truncated]"@
    }
}

/// At most `max` characters of a text, with a notice behind where some were cut.
pub fn truncate_chars(s: &str, max: usize) -> (out: String)
    ensures
        out@ == cut(s@, max as nat),
{
    let x = chars_of(s);
    if x.len() <= max {
        s.to_owned()
    } else {
        let mut out = text_slice(&x, 0, max);
        out.append("\n… [truncated]");
        assert(x@.subrange(0, max as int) =~= x@.take(max as int));
        out
    }
}

/// The text of a marked string: itself, or its `value`.
pub open spec fn marked_text(v: JsonView) -> Option<Seq<char>> {
    match v {
        JsonView::Text(s) => Some(s),
        JsonView::Object(_) => v.text_at("value"@),
        _ => None,
    }
}

/// Takes the text of a marked string.
pub open spec fn by_mark() -> spec_fn(JsonView) -> Option<Seq<char>> {
    |v: JsonView| marked_text(v)
}

fn marked_string_text(v: &Json) -> (out: Option<String>)
    ensures
        text::view_of(out) == marked_text(v@),
{
    broadcast use json::lemma_object_view;

    match v {
        Json::Text(s) => Some(s.clone()),
        Json::Object(_) => copy_text_at(v, "value"),
        _ => None,
    }
}

/// The hover text of an answer's contents: several marked strings are parted by an
/// empty line.
pub open spec fn contents_text(v: JsonView) -> Seq<char> {
    match v {
        JsonView::Text(s) => s,
        JsonView::List(items) => text::joined(json::picked(items, by_mark()), "\n\n"@),
        _ => match marked_text(v) {
            Some(s) => s,
            None => seq![],
        },
    }
}

fn hover_text(v: &Json) -> (out: String)
    ensures
        out@ == contents_text(v@),
{
    broadcast use json::lemma_list_view;

    match v {
        Json::Text(s) => s.clone(),
        Json::List(items) => {
            let ghost all = json::values(items@);
            let mut parts: Vec<String> = Vec::new();
            let mut i: usize = 0;
            assert(text::views(parts@) =~= json::picked(all.take(0), by_mark()));
            while i < items.len()
                invariant
                    i <= items@.len(),
                    all == json::values(items@),
                    text::views(parts@) == json::picked(all.take(i as int), by_mark()),
                decreases items@.len() - i,
            {
                let ghost was = parts@;
                assert(all.take(i + 1).drop_last() =~= all.take(i as int));
                match marked_string_text(&items[i]) {
                    Some(s) => {
                        let ghost sv = s@;
                        parts.push(s);
                        assert(text::views(parts@) =~= text::views(was).push(sv));
                    },
                    None => {},
                }
                i = i + 1;
            }
            assert(all.take(i as int) =~= all);
            join(&parts, "\n\n")
        },
        other => match marked_string_text(other) {
            Some(s) => s,
            None => String::new(),
        },
    }
}

/// The hover that an answer describes; none where it has no contents.
pub fn parse_hover(v: &Json, max_chars: usize) -> (out: Option<Hover>)
    ensures
        match out {
            Some(h) => {
                &&& v@.field("contents"@) is Some
                &&& h.contents@ == cut(contents_text(v@.get("contents"@)), max_chars as nat)
                &&& h.range == match v@.field("range"@) {
                    Some(r) => range_in(r),
                    None => None,
                }
            },
            None => v@.field("contents"@) is None,
        },
{
    match v.field("contents") {
        Some(contents) => {
            let all = hover_text(contents);
            Some(
                Hover {
                    contents: truncate_chars(all.as_str(), max_chars),
                    range: match v.field("range") {
                        Some(r) => parse_range(r),
                        None => None,
                    },
                },
            )
        },
        None => None,
    }
}

/// What a [`Symbol`] holds.
#[verifier::ext_equal]
pub ghost struct SymbolView {
    pub name: Seq<char>,
    pub kind: u8,
    pub container: Option<Seq<char>>,
    pub path: Seq<char>,
    pub range: Range,
}

impl View for Symbol {
    type V = SymbolView;

    open spec fn view(&self) -> SymbolView {
        SymbolView {
            name: self.name@,
            kind: self.kind,
            container: text::view_of(self.container_name),
            path: self.location.path@,
            range: self.location.range,
        }
    }
}

/// What each symbol holds.
pub open spec fn symbols(v: Seq<Symbol>) -> Seq<SymbolView> {
    v.map_values(|s: Symbol| s@)
}

/// A number that fits eight bits.
pub open spec fn byte(v: JsonView) -> Option<u8> {
    match v {
        JsonView::Unsigned(n) => if n <= 255 {
            Some(n as u8)
        } else {
            None
        },
        _ => None,
    }
}

fn parse_byte(v: &Json) -> (out: Option<u8>)
    ensures
        out == byte(v@),
{
    match v.unsigned() {
        Some(n) => if n <= 255 {
            Some(n as u8)
        } else {
            None
        },
        None => None,
    }
}

/// The symbol that a flat record describes.
pub open spec fn information_in(v: JsonView) -> Option<SymbolView> {
    match (v.text_at("name"@), byte(v.get("kind"@)), v.field("location"@)) {
        (Some(name), Some(kind), Some(l)) => match location_in(l) {
            Some(l) => Some(
                SymbolView {
                    name,
                    kind,
                    container: v.text_at("containerName"@),
                    path: l.path,
                    range: l.range,
                },
            ),
            None => None,
        },
        _ => None,
    }
}

/// Takes the symbol of a flat record.
pub open spec fn by_information() -> spec_fn(JsonView) -> Option<SymbolView> {
    |v: JsonView| information_in(v)
}

fn byte_at(v: &Json, key: &str) -> (out: Option<u8>)
    ensures
        out == byte(v@.get(key@)),
{
    match v.field(key) {
        Some(j) => parse_byte(j),
        None => None,
    }
}

fn symbol_from_information(v: &Json) -> (out: Option<Symbol>)
    ensures
        match out {
            Some(s) => information_in(v@) == Some(s@),
            None => information_in(v@) is None,
        },
{
    match (v.text_at("name"), byte_at(v, "kind"), v.field("location")) {
        (Some(name), Some(kind), Some(l)) => match parse_location(l) {
            Some(location) => Some(
                Symbol {
                    name: name.clone(),
                    kind,
                    container_name: copy_text_at(v, "containerName"),
                    location,
                },
            ),
            None => None,
        },
        _ => None,
    }
}

/// The symbols of a flat list; none where the value is no list.
pub fn parse_symbols(v: &Json) -> (out: Vec<Symbol>)
    ensures
        symbols(out@) == json::picked(v@.items(), by_information()),
{
    let mut out: Vec<Symbol> = Vec::new();
    let items = match v.list() {
        Some(items) => items,
        None => {
            assert(symbols(out@) =~= seq![]);
            return out;
        },
    };
    let ghost all = json::values(items@);
    let mut i: usize = 0;
    assert(symbols(out@) =~= json::picked(all.take(0), by_information()));
    while i < items.len()
        invariant
            i <= items@.len(),
            all == json::values(items@),
            symbols(out@) == json::picked(all.take(i as int), by_information()),
        decreases items@.len() - i,
    {
        let ghost was = out@;
        assert(all.take(i + 1).drop_last() =~= all.take(i as int));
        match symbol_from_information(&items[i]) {
            Some(s) => {
                let ghost sv = s@;
                out.push(s);
                assert(symbols(out@) =~= symbols(was).push(sv));
            },
            None => {},
        }
        i = i + 1;
    }
    assert(all.take(i as int) =~= all);
    out
}

/// The symbols of one record of a document: a flat record is one symbol. A
/// hierarchical one is itself a symbol, where it has a range, and holds those of
/// its children, whose container it is.
pub open spec fn tree_symbols(v: JsonView, path: Seq<char>, container: Option<Seq<char>>) -> Seq<
    SymbolView,
>
    decreases v, 0nat,
{
    match v {
        JsonView::Object(rows) => {
            proof {
                json::lemma_entry_smaller(rows, "children"@, 0);
                assert(decreases_to!(v => v->Object_0));
            }
            if v.field("location"@) is Some {
                match information_in(v) {
                    Some(s) => seq![s],
                    None => seq![],
                }
            } else {
                match (v.text_at("name"@), low_byte(v.get("kind"@))) {
                    (Some(name), Some(kind)) => {
                        let own = match either(v.field("selectionRange"@), v.field("range"@)) {
                            Some(r) => match range_in(r) {
                                Some(range) => seq![
                                    SymbolView { name, kind, container, path, range },
                                ],
                                None => seq![],
                            },
                            None => seq![],
                        };
                        match json::entry_from(rows, "children"@, 0) {
                            Some(children) => match children {
                                JsonView::List(items) => own + list_symbols(
                                    items,
                                    path,
                                    Some(name),
                                ),
                                _ => own,
                            },
                            None => own,
                        }
                    },
                    _ => seq![],
                }
            }
        },
        _ => seq![],
    }
}

/// The symbols of the records of a list.
pub open spec fn list_symbols(
    v: Seq<JsonView>,
    path: Seq<char>,
    container: Option<Seq<char>>,
) -> Seq<SymbolView>
    decreases v, 1nat,
{
    if v.len() == 0 {
        seq![]
    } else {
        list_symbols(v.drop_last(), path, container) + tree_symbols(v.last(), path, container)
    }
}

/// A copy of an optional text.
fn owned(s: Option<&str>) -> (out: Option<String>)
    ensures
        text::view_of(out) == match s {
            Some(t) => Some(t@),
            None => None,
        },
{
    match s {
        Some(t) => Some(t.to_owned()),
        None => None,
    }
}

fn collect_document_symbol(
    v: &Json,
    path: &str,
    container: Option<&str>,
    out: &mut Vec<Symbol>,
)
    ensures
        symbols(final(out)@) == symbols(old(out)@) + tree_symbols(v@, path@, text::str_view(container)),
    decreases v@, 0nat,
{
    broadcast use json::lemma_list_view, json::lemma_object_view;

    let ghost before = symbols(out@);
    match v {
        Json::Object(_) => {},
        _ => {
            assert(symbols(out@) =~= before + tree_symbols(v@, path@, text::str_view(container)));
            return;
        },
    }
    let ghost rows = v@->Object_0;
    proof {
        json::lemma_entry_smaller(rows, "children"@, 0);
        assert(decreases_to!(v@ => v@->Object_0));
    }
    if v.field("location").is_some() {
        let found = symbol_from_information(v);
        match found {
            Some(s) => {
                out.push(s);
            },
            None => {},
        }
        assert(symbols(out@) =~= before + tree_symbols(v@, path@, text::str_view(container)));
        return;
    }
    let kind = match v.field("kind") {
        Some(k) => parse_low_byte(k),
        None => None,
    };
    match (v.text_at("name"), kind) {
        (Some(name), Some(kind)) => {
            let range = match first_of(v.field("selectionRange"), v.field("range")) {
                Some(r) => parse_range(r),
                None => None,
            };
            let ghost own: Seq<SymbolView> = match range {
                Some(range) => seq![
                    SymbolView {
                        name: name@,
                        kind,
                        container: text::str_view(container),
                        path: path@,
                        range,
                    },
                ],
                None => seq![],
            };
            match range {
                Some(range) => {
                    out.push(
                        Symbol {
                            name: name.clone(),
                            kind,
                            container_name: owned(container),
                            location: Location { path: path.to_owned(), range },
                        },
                    );
                },
                None => {},
            }
            assert(symbols(out@) =~= before + own);
            match v.field("children") {
                Some(children) => match children.list() {
                    Some(items) => {
                        let ghost all = json::values(items@);
                        assert(decreases_to!(children@ => children@->List_0));
                        let mut i: usize = 0;
                        assert(symbols(out@) =~= before + own + list_symbols(
                            all.take(0),
                            path@,
                            Some(name@),
                        ));
                        while i < items.len()
                            invariant
                                i <= items@.len(),
                                all == json::values(items@),
                                decreases_to!(v@ => all),
                                symbols(out@) == before + own + list_symbols(
                                    all.take(i as int),
                                    path@,
                                    Some(name@),
                                ),
                            decreases items@.len() - i,
                        {
                            assert(all.take(i + 1).drop_last() =~= all.take(i as int));
                            assert(decreases_to!(all => all[i as int]));
                            let ghost was = symbols(out@);
                            collect_document_symbol(&items[i], path, Some(name.as_str()), out);
                            assert(symbols(out@) =~= before + own + list_symbols(
                                all.take(i + 1),
                                path@,
                                Some(name@),
                            ));
                            i = i + 1;
                        }
                        assert(all.take(i as int) =~= all);
                        assert(symbols(out@) =~= before + (own + list_symbols(
                            all,
                            path@,
                            Some(name@),
                        )));
                    },
                    None => {},
                },
                None => {},
            }
        },
        _ => {
            assert(symbols(out@) =~= before + tree_symbols(v@, path@, text::str_view(container)));
        },
    }
}

/// The symbols of a document, from either shape of the answer: flat records, or a
/// hierarchy, in which children follow their parent.
pub fn parse_document_symbols(v: &Json, path: &str) -> (out: Vec<Symbol>)
    ensures
        symbols(out@) == list_symbols(v@.items(), path@, None),
{
    let mut out: Vec<Symbol> = Vec::new();
    let items = match v.list() {
        Some(items) => items,
        None => {
            assert(symbols(out@) =~= seq![]);
            return out;
        },
    };
    let ghost all = json::values(items@);
    let mut i: usize = 0;
    assert(symbols(out@) =~= list_symbols(all.take(0), path@, None));
    while i < items.len()
        invariant
            i <= items@.len(),
            all == json::values(items@),
            symbols(out@) == list_symbols(all.take(i as int), path@, None),
        decreases items@.len() - i,
    {
        assert(all.take(i + 1).drop_last() =~= all.take(i as int));
        collect_document_symbol(&items[i], path, None, &mut out);
        i = i + 1;
    }
    assert(all.take(i as int) =~= all);
    out
}

/// The key under which a call names its other end.
pub open spec fn end_key(outgoing: bool) -> Seq<char> {
    if outgoing {
        "to"@
    } else {
        "from"@
    }
}

/// The symbol at the other end of a call.
pub open spec fn call_end(call: JsonView, outgoing: bool) -> Option<SymbolView> {
    match call.field(end_key(outgoing)) {
        Some(v) => match (
            v.text_at("uri"@),
            either(v.field("selectionRange"@), v.field("range"@)),
            v.text_at("name"@),
            byte(v.get("kind"@)),
        ) {
            (Some(uri), Some(r), Some(name), Some(kind)) => match (
                urls::path_of_uri(uri),
                range_in(r),
            ) {
                (Some(path), Some(range)) => Some(
                    SymbolView { name, kind, container: v.text_at("detail"@), path, range },
                ),
                _ => None,
            },
            _ => None,
        },
        None => None,
    }
}

/// Takes the symbol at the other end of a call.
pub open spec fn by_call(outgoing: bool) -> spec_fn(JsonView) -> Option<SymbolView> {
    |v: JsonView| call_end(v, outgoing)
}

fn parse_call(call: &Json, outgoing: bool) -> (out: Option<Symbol>)
    ensures
        match out {
            Some(s) => call_end(call@, outgoing) == Some(s@),
            None => call_end(call@, outgoing) is None,
        },
{
    let key = if outgoing {
        "to"
    } else {
        "from"
    };
    let v = match call.field(key) {
        Some(v) => v,
        None => {
            return None;
        },
    };
    match (
        v.text_at("uri"),
        first_of(v.field("selectionRange"), v.field("range")),
        v.text_at("name"),
        byte_at(v, "kind"),
    ) {
        (Some(uri), Some(r), Some(name), Some(kind)) => match (
            file_path(uri.as_str()),
            parse_range(r),
        ) {
            (Some(path), Some(range)) => Some(
                Symbol {
                    name: name.clone(),
                    kind,
                    container_name: copy_text_at(v, "detail"),
                    location: Location { path, range },
                },
            ),
            _ => None,
        },
        _ => None,
    }
}

/// The symbols at the other ends of incoming or outgoing calls.
pub fn parse_call_hierarchy(v: &Json, outgoing: bool) -> (out: Vec<Symbol>)
    ensures
        symbols(out@) == json::picked(v@.items(), by_call(outgoing)),
{
    let mut out: Vec<Symbol> = Vec::new();
    let items = match v.list() {
        Some(items) => items,
        None => {
            assert(symbols(out@) =~= seq![]);
            return out;
        },
    };
    let ghost all = json::values(items@);
    let mut i: usize = 0;
    assert(symbols(out@) =~= json::picked(all.take(0), by_call(outgoing)));
    while i < items.len()
        invariant
            i <= items@.len(),
            all == json::values(items@),
            symbols(out@) == json::picked(all.take(i as int), by_call(outgoing)),
        decreases items@.len() - i,
    {
        let ghost was = out@;
        assert(all.take(i + 1).drop_last() =~= all.take(i as int));
        match parse_call(&items[i], outgoing) {
            Some(s) => {
                let ghost sv = s@;
                out.push(s);
                assert(symbols(out@) =~= symbols(was).push(sv));
            },
            None => {},
        }
        i = i + 1;
    }
    assert(all.take(i as int) =~= all);
    out
}

/// The first registration for document changes, from the `i`-th on.
pub open spec fn change_registration(items: Seq<JsonView>, i: int) -> Option<JsonView>
    decreases items.len() - i,
{
    if i < 0 || i >= items.len() {
        None
    } else if items[i].text_at("method"@) == Some("textDocument/didChange"@) {
        Some(items[i])
    } else {
        change_registration(items, i + 1)
    }
}

/// The synchronisation kind that a registration asks for, two at most.
pub open spec fn sync_kind_in(message: JsonView) -> Option<u64> {
    match change_registration(message.get("params"@).get("registrations"@).items(), 0) {
        Some(r) => match r.get("registerOptions"@).get("syncKind"@) {
            JsonView::Unsigned(n) => if n < 2 {
                Some(n)
            } else {
                Some(2u64)
            },
            _ => None,
        },
        None => None,
    }
}

/// The synchronisation kind that a server registers for document changes.
pub fn registered_sync_kind(message: &Json) -> (out: Option<u64>)
    ensures
        out == sync_kind_in(message@),
{
    let items = match message.field("params") {
        Some(p) => match p.field("registrations") {
            Some(r) => match r.list() {
                Some(items) => items,
                None => {
                    return None;
                },
            },
            None => {
                return None;
            },
        },
        None => {
            return None;
        },
    };
    let ghost all = json::values(items@);
    let mut i: usize = 0;
    while i < items.len()
        invariant
            i <= items@.len(),
            all == json::values(items@),
            all == message@.get("params"@).get("registrations"@).items(),
            change_registration(all, 0) == change_registration(all, i as int),
        decreases items@.len() - i,
    {
        assert(all[i as int] == items@[i as int]@);
        let hit = match items[i].text_at("method") {
            Some(m) => same(m.as_str(), "textDocument/didChange"),
            None => false,
        };
        if hit {
            return match items[i].field("registerOptions") {
                Some(options) => match options.field("syncKind") {
                    Some(k) => match k.unsigned() {
                        Some(n) => if n < 2 {
                            Some(n)
                        } else {
                            Some(2)
                        },
                        None => None,
                    },
                    None => None,
                },
                None => None,
            };
        }
        i = i + 1;
    }
    None
}

/// The value at the end of a path of keys.
pub open spec fn walked(v: JsonView, keys: Seq<Seq<char>>, i: int) -> JsonView
    decreases keys.len() - i,
{
    if i < 0 || i >= keys.len() {
        v
    } else {
        match v.field(keys[i]) {
            Some(next) => walked(next, keys, i + 1),
            None => JsonView::Null,
        }
    }
}

/// The settings that a server asks for: all of them where it names no section,
/// else what stands under the dotted section, or null.
pub open spec fn section_of(settings: JsonView, section: Option<Seq<char>>) -> JsonView {
    match section {
        None => settings,
        Some(s) => if s.len() == 0 {
            settings
        } else {
            walked(settings, text::split(s, '.'), 0)
        },
    }
}

/// The settings that a server asks for.
pub fn resolve_configuration_section(settings: &Json, section: Option<&str>) -> (out: Json)
    ensures
        out@ == section_of(settings@, text::str_view(section)),
{
    let s = match section {
        None => {
            return settings.copy();
        },
        Some(s) => s,
    };
    let x = chars_of(s);
    if x.len() == 0 {
        return settings.copy();
    }
    let keys = split_on(&x, '.');
    let mut current: &Json = settings;
    let mut i: usize = 0;
    while i < keys.len()
        invariant
            i <= keys@.len(),
            section == Some(s),
            s@.len() > 0,
            text::views(keys@) == text::split(s@, '.'),
            walked(settings@, text::split(s@, '.'), 0) == walked(
                current@,
                text::split(s@, '.'),
                i as int,
            ),
        decreases keys@.len() - i,
    {
        assert(text::views(keys@)[i as int] == keys@[i as int]@);
        match current.field(keys[i].as_str()) {
            Some(next) => {
                current = next;
            },
            None => {
                return Json::Null;
            },
        }
        i = i + 1;
    }
    current.copy()
}

} // verus!

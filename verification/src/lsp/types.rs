//! What language servers report.

use vstd::prelude::*;
use crate::json;
use crate::json::{Json, JsonView};
use crate::json_text;
use crate::json_text::render;
use crate::order;
use crate::order::comes_before;
use crate::paths;
use crate::paths::{path_comes_before, same_path};
use crate::ranking;
use crate::ranking::Ranked;
use crate::text::same;
use crate::text;

verus! {

#[derive(Debug, Clone, Copy, PartialEq, Eq, Structural)]
pub struct Position {
    pub line: u32,
    pub character: u32,
}

#[derive(Debug, Clone, Copy, PartialEq, Eq, Structural)]
pub struct Range {
    pub start: Position,
    pub end: Position,
}

impl Position {
    /// The position comes first, by line and then by character.
    pub open spec fn before(self, other: Position) -> bool {
        self.line < other.line || (self.line == other.line && self.character < other.character)
    }

    pub fn is_before(self, other: Position) -> (yes: bool)
        ensures
            yes == self.before(other),
    {
        self.line < other.line || (self.line == other.line && self.character < other.character)
    }
}

impl Range {
    /// The range comes first, by its start and then by its end.
    pub open spec fn before(self, other: Range) -> bool {
        self.start.before(other.start) || (self.start == other.start && self.end.before(other.end))
    }

    pub fn is_before(self, other: Range) -> (yes: bool)
        ensures
            yes == self.before(other),
    {
        self.start.is_before(other.start) || (self.start == other.start && self.end.is_before(
            other.end,
        ))
    }
}

pub struct CodeDescription {
    pub href: String,
}

pub struct RelatedInformation {
    pub location: Location,
    pub message: String,
}

pub struct Location {
    pub path: String,
    pub range: Range,
}

pub struct Hover {
    pub contents: String,
    pub range: Option<Range>,
}

pub struct Symbol {
    pub name: String,
    pub kind: u8,
    pub container_name: Option<String>,
    pub location: Location,
}

/// One finding of a server. Its identity is its span, severity, code, source and
/// message; the rest enriches it.
pub struct Diagnostic {
    pub range: Range,
    pub severity: Option<u8>,
    pub code: Option<Json>,
    pub code_description: Option<CodeDescription>,
    pub source: Option<String>,
    pub message: String,
    /// 1 for unnecessary code, 2 for deprecated code.
    pub tags: Vec<u8>,
    /// Secondary spans that explain the finding.
    pub related_information: Vec<RelatedInformation>,
    /// Opaque payload of the server.
    pub data: Option<Json>,
}

/// The view of an optional value.
pub open spec fn json_view(v: Option<Json>) -> Option<JsonView> {
    match v {
        Some(j) => Some(j@),
        None => None,
    }
}

/// The text of an optional value.
pub open spec fn json_shown(v: Option<Json>) -> Option<Seq<char>> {
    match v {
        Some(j) => Some(json_text::rendered(j@)),
        None => None,
    }
}

/// Nothing comes before something, and two texts go by their order.
pub open spec fn option_before(a: Option<Seq<char>>, b: Option<Seq<char>>) -> bool {
    match (a, b) {
        (None, Some(_)) => true,
        (Some(x), Some(y)) => order::before(x, y),
        _ => false,
    }
}

proof fn lemma_option_total(a: Option<Seq<char>>, b: Option<Seq<char>>)
    ensures
        a == b ==> !option_before(a, b) && !option_before(b, a),
        a != b ==> option_before(a, b) != option_before(b, a),
{
    if let (Some(x), Some(y)) = (a, b) {
        order::lemma_before_total(x, y);
    }
}

proof fn lemma_option_transitive(
    a: Option<Seq<char>>,
    b: Option<Seq<char>>,
    c: Option<Seq<char>>,
)
    ensures
        option_before(a, b) && option_before(b, c) ==> option_before(a, c),
{
    if let (Some(x), Some(y)) = (a, b) {
        if let Some(z) = c {
            if order::before(x, y) && order::before(y, z) {
                order::lemma_before_transitive(x, y, z);
            }
        }
    }
}

fn text_before(a: &Option<String>, b: &Option<String>) -> (yes: bool)
    ensures
        yes == option_before(text::view_of(*a), text::view_of(*b)),
{
    match (a, b) {
        (None, Some(_)) => true,
        (Some(x), Some(y)) => comes_before(x.as_str(), y.as_str()),
        _ => false,
    }
}

fn text_equal(a: &Option<String>, b: &Option<String>) -> (yes: bool)
    ensures
        yes == (text::view_of(*a) == text::view_of(*b)),
{
    match (a, b) {
        (None, None) => true,
        (Some(x), Some(y)) => same(x.as_str(), y.as_str()),
        _ => false,
    }
}

fn code_equal(a: &Option<Json>, b: &Option<Json>) -> (yes: bool)
    ensures
        yes == same_code(json_view(*a), json_view(*b)),
{
    match (a, b) {
        (None, None) => true,
        (Some(x), Some(y)) => x.matches(y),
        _ => false,
    }
}

fn shown(v: &Option<Json>) -> (out: Option<String>)
    ensures
        text::view_of(out) == json_shown(*v),
{
    match v {
        Some(j) => Some(render(j)),
        None => None,
    }
}

/// A copy of an optional text.
pub fn copy_text(s: &Option<String>) -> (out: Option<String>)
    ensures
        text::view_of(out) == text::view_of(*s),
{
    match s {
        Some(t) => Some(t.clone()),
        None => None,
    }
}

/// A copy of an optional value.
pub fn copy_json(v: &Option<Json>) -> (out: Option<Json>)
    ensures
        json_view(out) == json_view(*v),
{
    match v {
        Some(j) => Some(j.copy()),
        None => None,
    }
}

impl Ranked for Location {
    open spec fn under(&self, other: &Location) -> bool {
        paths::path_before(self.path@, other.path@) || (paths::same_place(self.path@, other.path@)
            && self.range.before(other.range))
    }

    open spec fn alike(&self, other: &Location) -> bool {
        paths::same_place(self.path@, other.path@) && self.range == other.range
    }

    fn is_under(&self, other: &Location) -> (yes: bool) {
        path_comes_before(self.path.as_str(), other.path.as_str()) || (same_path(
            self.path.as_str(),
            other.path.as_str(),
        ) && self.range.is_before(other.range))
    }

    fn is_alike(&self, other: &Location) -> (yes: bool) {
        same_path(self.path.as_str(), other.path.as_str()) && self.range == other.range
    }

    proof fn reflexive(a: Location) {
    }

    proof fn asymmetric(a: Location, b: Location) {
        paths::lemma_path_total(a.path@, b.path@);
    }

    proof fn transitive(a: Location, b: Location, c: Location) {
        paths::lemma_path_total(a.path@, b.path@);
        paths::lemma_path_total(b.path@, c.path@);
        paths::lemma_path_total(a.path@, c.path@);
        paths::lemma_path_transitive(a.path@, b.path@, c.path@);
        paths::lemma_path_transitive(c.path@, b.path@, a.path@);
        lemma_range_order(a.range, b.range, c.range);
    }
}

proof fn lemma_range_order(a: Range, b: Range, c: Range)
    ensures
        a.before(b) && b.before(c) ==> a.before(c),
        !b.before(a) && !c.before(b) ==> !c.before(a),
        a == b ==> !a.before(b),
        a != b ==> a.before(b) != b.before(a),
{
}

/// The order of optional ranges: none first.
pub open spec fn range_before(a: Option<Range>, b: Option<Range>) -> bool {
    match (a, b) {
        (None, Some(_)) => true,
        (Some(x), Some(y)) => x.before(y),
        _ => false,
    }
}

impl Ranked for Hover {
    open spec fn under(&self, other: &Hover) -> bool {
        order::before(self.contents@, other.contents@) || (self.contents@ == other.contents@
            && range_before(self.range, other.range))
    }

    open spec fn alike(&self, other: &Hover) -> bool {
        self.contents@ == other.contents@ && self.range == other.range
    }

    fn is_under(&self, other: &Hover) -> (yes: bool) {
        comes_before(self.contents.as_str(), other.contents.as_str()) || (same(
            self.contents.as_str(),
            other.contents.as_str(),
        ) && match (&self.range, &other.range) {
            (None, Some(_)) => true,
            (Some(x), Some(y)) => x.is_before(*y),
            _ => false,
        })
    }

    fn is_alike(&self, other: &Hover) -> (yes: bool) {
        same(self.contents.as_str(), other.contents.as_str()) && match (
            &self.range,
            &other.range,
        ) {
            (None, None) => true,
            (Some(x), Some(y)) => *x == *y,
            _ => false,
        }
    }

    proof fn reflexive(a: Hover) {
    }

    proof fn asymmetric(a: Hover, b: Hover) {
        order::lemma_before_total(a.contents@, b.contents@);
    }

    proof fn transitive(a: Hover, b: Hover, c: Hover) {
        order::lemma_before_total(a.contents@, b.contents@);
        order::lemma_before_total(b.contents@, c.contents@);
        order::lemma_before_total(a.contents@, c.contents@);
        if order::before(a.contents@, b.contents@) && order::before(b.contents@, c.contents@) {
            order::lemma_before_transitive(a.contents@, b.contents@, c.contents@);
        }
        if order::before(c.contents@, b.contents@) && order::before(b.contents@, a.contents@) {
            order::lemma_before_transitive(c.contents@, b.contents@, a.contents@);
        }
    }
}

impl Ranked for Symbol {
    open spec fn under(&self, other: &Symbol) -> bool {
        ||| order::before(self.name@, other.name@)
        ||| self.name@ == other.name@ && paths::path_before(
            self.location.path@,
            other.location.path@,
        )
        ||| self.name@ == other.name@ && paths::same_place(self.location.path@, other.location.path@)
            && self.location.range.start.before(other.location.range.start)
    }

    open spec fn alike(&self, other: &Symbol) -> bool {
        &&& self.name@ == other.name@
        &&& self.kind == other.kind
        &&& text::view_of(self.container_name) == text::view_of(other.container_name)
        &&& self.location.alike(&other.location)
    }

    fn is_under(&self, other: &Symbol) -> (yes: bool) {
        if comes_before(self.name.as_str(), other.name.as_str()) {
            return true;
        }
        if !same(self.name.as_str(), other.name.as_str()) {
            return false;
        }
        path_comes_before(self.location.path.as_str(), other.location.path.as_str()) || (same_path(
            self.location.path.as_str(),
            other.location.path.as_str(),
        ) && self.location.range.start.is_before(other.location.range.start))
    }

    fn is_alike(&self, other: &Symbol) -> (yes: bool) {
        same(self.name.as_str(), other.name.as_str()) && self.kind == other.kind && text_equal(
            &self.container_name,
            &other.container_name,
        ) && self.location.is_alike(&other.location)
    }

    proof fn reflexive(a: Symbol) {
    }

    proof fn asymmetric(a: Symbol, b: Symbol) {
        order::lemma_before_total(a.name@, b.name@);
        paths::lemma_path_total(a.location.path@, b.location.path@);
    }

    proof fn transitive(a: Symbol, b: Symbol, c: Symbol) {
        order::lemma_before_total(a.name@, b.name@);
        order::lemma_before_total(b.name@, c.name@);
        order::lemma_before_total(a.name@, c.name@);
        if order::before(a.name@, b.name@) && order::before(b.name@, c.name@) {
            order::lemma_before_transitive(a.name@, b.name@, c.name@);
        }
        if order::before(c.name@, b.name@) && order::before(b.name@, a.name@) {
            order::lemma_before_transitive(c.name@, b.name@, a.name@);
        }
        paths::lemma_path_total(a.location.path@, b.location.path@);
        paths::lemma_path_total(b.location.path@, c.location.path@);
        paths::lemma_path_total(a.location.path@, c.location.path@);
        paths::lemma_path_transitive(a.location.path@, b.location.path@, c.location.path@);
        paths::lemma_path_transitive(c.location.path@, b.location.path@, a.location.path@);
    }
}

/// What a [`RelatedInformation`] holds.
#[verifier::ext_equal]
pub ghost struct RelatedView {
    pub path: Seq<char>,
    pub range: Range,
    pub message: Seq<char>,
}

impl View for RelatedInformation {
    type V = RelatedView;

    open spec fn view(&self) -> RelatedView {
        RelatedView {
            path: self.location.path@,
            range: self.location.range,
            message: self.message@,
        }
    }
}

/// What each item holds.
pub open spec fn related(v: Seq<RelatedInformation>) -> Seq<RelatedView> {
    v.map_values(|r: RelatedInformation| r@)
}

/// What a [`Diagnostic`] holds.
#[verifier::ext_equal]
pub ghost struct DiagnosticView {
    pub range: Range,
    pub severity: Option<u8>,
    pub code: Option<JsonView>,
    pub href: Option<Seq<char>>,
    pub source: Option<Seq<char>>,
    pub message: Seq<char>,
    pub tags: Seq<u8>,
    pub related: Seq<RelatedView>,
    pub data: Option<JsonView>,
}

/// The link of an optional description.
pub open spec fn href_view(d: Option<CodeDescription>) -> Option<Seq<char>> {
    match d {
        Some(c) => Some(c.href@),
        None => None,
    }
}

impl View for Diagnostic {
    type V = DiagnosticView;

    open spec fn view(&self) -> DiagnosticView {
        DiagnosticView {
            range: self.range,
            severity: self.severity,
            code: json_view(self.code),
            href: href_view(self.code_description),
            source: text::view_of(self.source),
            message: self.message@,
            tags: self.tags@,
            related: related(self.related_information@),
            data: json_view(self.data),
        }
    }
}

/// What each diagnostic holds.
pub open spec fn found(v: Seq<Diagnostic>) -> Seq<DiagnosticView> {
    v.map_values(|d: Diagnostic| d@)
}

/// The two codes are equal values, or there is none.
pub open spec fn same_code(a: Option<JsonView>, b: Option<JsonView>) -> bool {
    match (a, b) {
        (Some(x), Some(y)) => json::by_value(x) == json::by_value(y),
        (None, None) => true,
        _ => false,
    }
}

impl DiagnosticView {
    /// The same span, severity, code, source and message.
    pub open spec fn same_finding(self, other: DiagnosticView) -> bool {
        &&& self.range == other.range
        &&& self.severity == other.severity
        &&& same_code(self.code, other.code)
        &&& self.source == other.source
        &&& self.message == other.message
    }
}

fn copy_related(v: &Vec<RelatedInformation>) -> (out: Vec<RelatedInformation>)
    ensures
        related(out@) == related(v@),
{
    let mut out: Vec<RelatedInformation> = Vec::new();
    let mut i: usize = 0;
    while i < v.len()
        invariant
            i <= v@.len(),
            out@.len() == i,
            forall|j: int| 0 <= j < i ==> (#[trigger] out@[j])@ == v@[j]@,
        decreases v@.len() - i,
    {
        out.push(
            RelatedInformation {
                location: Location {
                    path: v[i].location.path.clone(),
                    range: v[i].location.range,
                },
                message: v[i].message.clone(),
            },
        );
        i = i + 1;
    }
    assert(related(out@) =~= related(v@));
    out
}

fn copy_bytes(v: &Vec<u8>) -> (out: Vec<u8>)
    ensures
        out@ == v@,
{
    let mut out: Vec<u8> = Vec::new();
    let mut i: usize = 0;
    while i < v.len()
        invariant
            i <= v@.len(),
            out@ == v@.take(i as int),
        decreases v@.len() - i,
    {
        out.push(v[i]);
        i = i + 1;
        assert(out@ =~= v@.take(i as int));
    }
    assert(v@.take(i as int) =~= v@);
    out
}

impl Diagnostic {
    /// A diagnostic that holds the same.
    pub fn copy(&self) -> (out: Diagnostic)
        ensures
            out@ == self@,
    {
        Diagnostic {
            range: self.range,
            severity: self.severity,
            code: copy_json(&self.code),
            code_description: match &self.code_description {
                Some(c) => Some(CodeDescription { href: c.href.clone() }),
                None => None,
            },
            source: copy_text(&self.source),
            message: self.message.clone(),
            tags: copy_bytes(&self.tags),
            related_information: copy_related(&self.related_information),
            data: copy_json(&self.data),
        }
    }

    /// The same span, severity, code, source and message.
    pub open spec fn same_finding(&self, other: &Diagnostic) -> bool {
        &&& self.range == other.range
        &&& self.severity == other.severity
        &&& same_code(json_view(self.code), json_view(other.code))
        &&& text::view_of(self.source) == text::view_of(other.source)
        &&& self.message@ == other.message@
    }
}

impl Ranked for Diagnostic {
    open spec fn under(&self, other: &Diagnostic) -> bool {
        if self.range != other.range {
            self.range.before(other.range)
        } else if self.message@ != other.message@ {
            order::before(self.message@, other.message@)
        } else if text::view_of(self.source) != text::view_of(other.source) {
            option_before(text::view_of(self.source), text::view_of(other.source))
        } else {
            option_before(json_shown(self.code), json_shown(other.code))
        }
    }

    open spec fn alike(&self, other: &Diagnostic) -> bool {
        self.same_finding(other)
    }

    fn is_under(&self, other: &Diagnostic) -> (yes: bool) {
        if self.range != other.range {
            self.range.is_before(other.range)
        } else if !same(self.message.as_str(), other.message.as_str()) {
            comes_before(self.message.as_str(), other.message.as_str())
        } else if !text_equal(&self.source, &other.source) {
            text_before(&self.source, &other.source)
        } else {
            text_before(&shown(&self.code), &shown(&other.code))
        }
    }

    fn is_alike(&self, other: &Diagnostic) -> (yes: bool) {
        self.range == other.range && self.severity == other.severity && code_equal(
            &self.code,
            &other.code,
        ) && text_equal(&self.source, &other.source) && same(
            self.message.as_str(),
            other.message.as_str(),
        )
    }

    proof fn reflexive(a: Diagnostic) {
    }

    proof fn asymmetric(a: Diagnostic, b: Diagnostic) {
        order::lemma_before_total(a.message@, b.message@);
        lemma_option_total(text::view_of(a.source), text::view_of(b.source));
        lemma_option_total(json_shown(a.code), json_shown(b.code));
    }

    proof fn transitive(a: Diagnostic, b: Diagnostic, c: Diagnostic) {
        lemma_range_order(a.range, b.range, c.range);
        lemma_range_order(b.range, c.range, a.range);
        lemma_range_order(c.range, a.range, b.range);
        order::lemma_before_total(a.message@, b.message@);
        order::lemma_before_total(b.message@, c.message@);
        order::lemma_before_total(a.message@, c.message@);
        if order::before(a.message@, b.message@) && order::before(b.message@, c.message@) {
            order::lemma_before_transitive(a.message@, b.message@, c.message@);
        }
        if order::before(c.message@, b.message@) && order::before(b.message@, a.message@) {
            order::lemma_before_transitive(c.message@, b.message@, a.message@);
        }
        lemma_option_total(text::view_of(a.source), text::view_of(b.source));
        lemma_option_total(text::view_of(b.source), text::view_of(c.source));
        lemma_option_total(text::view_of(a.source), text::view_of(c.source));
        lemma_option_transitive(text::view_of(a.source), text::view_of(b.source), text::view_of(c.source));
        lemma_option_transitive(text::view_of(c.source), text::view_of(b.source), text::view_of(a.source));
        lemma_option_total(json_shown(a.code), json_shown(b.code));
        lemma_option_total(json_shown(b.code), json_shown(c.code));
        lemma_option_total(json_shown(a.code), json_shown(c.code));
        lemma_option_transitive(json_shown(a.code), json_shown(b.code), json_shown(c.code));
        lemma_option_transitive(json_shown(c.code), json_shown(b.code), json_shown(a.code));
    }
}

/// One finding is kept once: of sorted diagnostics with each kept where it comes first, no
/// two are the same finding.
pub proof fn law_findings_are_kept_once(s: Seq<Diagnostic>, i: int, j: int)
    requires
        0 <= i < ranking::collected(s).len(),
        0 <= j < ranking::collected(s).len(),
        i != j,
    ensures
        !ranking::collected(s)[i].same_finding(&ranking::collected(s)[j]),
{
    let t = ranking::collected(s);
    ranking::law_collected(s);
    if i < j {
        assert(!t[j].alike(&t[i]));
    } else {
        assert(!t[i].alike(&t[j]));
    }
}

} // verus!

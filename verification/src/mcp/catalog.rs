//! The tools that a server exposes, the arguments they take, and what they give.

use vstd::prelude::*;
use vstd::string::*;
use crate::json;
use crate::json::{Json, JsonView};
use crate::json_text;
use crate::json_text::lay_out;
use crate::mcp::names;
use crate::mcp::names::{qualify, valid_tool_name, ToolFilter};
use crate::order;
use crate::order::comes_before;
use crate::ranking;
use crate::ranking::{sort, Ranked};
use crate::text;
use crate::text::{cat2, chars_of, join, same, text_slice};

verus! {

/// The longest description that is passed on, in characters.
pub const MAX_DESCRIPTION: usize = 1_024;

/// A tool as its server describes it.
pub struct Tool {
    pub name: String,
    pub description: Option<String>,
    pub schema: Json,
}

/// A tool as it is exposed.
pub struct McpToolSpec {
    pub name: String,
    pub description: String,
    pub schema: Json,
}

/// What an [`McpToolSpec`] holds.
#[verifier::ext_equal]
pub ghost struct SpecView {
    pub name: Seq<char>,
    pub description: Seq<char>,
    pub schema: JsonView,
}

impl View for McpToolSpec {
    type V = SpecView;

    open spec fn view(&self) -> SpecView {
        SpecView { name: self.name@, description: self.description@, schema: self.schema@ }
    }
}

/// What each exposed tool holds.
pub open spec fn specs(v: Seq<McpToolSpec>) -> Seq<SpecView> {
    v.map_values(|s: McpToolSpec| s@)
}

impl Ranked for McpToolSpec {
    open spec fn under(&self, other: &McpToolSpec) -> bool {
        order::before(self.name@, other.name@)
    }

    open spec fn alike(&self, other: &McpToolSpec) -> bool {
        self.name@ == other.name@
    }

    fn is_under(&self, other: &McpToolSpec) -> (yes: bool) {
        comes_before(self.name.as_str(), other.name.as_str())
    }

    fn is_alike(&self, other: &McpToolSpec) -> (yes: bool) {
        same(self.name.as_str(), other.name.as_str())
    }

    proof fn reflexive(a: McpToolSpec) {
    }

    proof fn asymmetric(a: McpToolSpec, b: McpToolSpec) {
        order::lemma_before_total(a.name@, b.name@);
    }

    proof fn transitive(a: McpToolSpec, b: McpToolSpec, c: McpToolSpec) {
        order::lemma_before_total(a.name@, b.name@);
        order::lemma_before_total(b.name@, c.name@);
        order::lemma_before_total(a.name@, c.name@);
        if order::before(a.name@, b.name@) && order::before(b.name@, c.name@) {
            order::lemma_before_transitive(a.name@, b.name@, c.name@);
        }
        if order::before(c.name@, b.name@) && order::before(b.name@, a.name@) {
            order::lemma_before_transitive(c.name@, b.name@, a.name@);
        }
    }
}

/// A tool that a server offers, and whether it is exposed.
pub struct ToolSwitch {
    pub name: String,
    pub on: bool,
}

/// The name of each tool, and whether it is exposed.
pub open spec fn switches(v: Seq<ToolSwitch>) -> Seq<(Seq<char>, bool)> {
    v.map_values(|s: ToolSwitch| (s.name@, s.on))
}

impl Ranked for ToolSwitch {
    open spec fn under(&self, other: &ToolSwitch) -> bool {
        order::before(self.name@, other.name@)
    }

    open spec fn alike(&self, other: &ToolSwitch) -> bool {
        self.name@ == other.name@
    }

    fn is_under(&self, other: &ToolSwitch) -> (yes: bool) {
        comes_before(self.name.as_str(), other.name.as_str())
    }

    fn is_alike(&self, other: &ToolSwitch) -> (yes: bool) {
        same(self.name.as_str(), other.name.as_str())
    }

    proof fn reflexive(a: ToolSwitch) {
    }

    proof fn asymmetric(a: ToolSwitch, b: ToolSwitch) {
        order::lemma_before_total(a.name@, b.name@);
    }

    proof fn transitive(a: ToolSwitch, b: ToolSwitch, c: ToolSwitch) {
        order::lemma_before_total(a.name@, b.name@);
        order::lemma_before_total(b.name@, c.name@);
        order::lemma_before_total(a.name@, c.name@);
        if order::before(a.name@, b.name@) && order::before(b.name@, c.name@) {
            order::lemma_before_transitive(a.name@, b.name@, c.name@);
        }
        if order::before(c.name@, b.name@) && order::before(b.name@, a.name@) {
            order::lemma_before_transitive(c.name@, b.name@, a.name@);
        }
    }
}

/// The tools of a server: those that are exposed, by name, how many are not, and all
/// of them, by name.
pub struct Catalog {
    pub exposed: Vec<McpToolSpec>,
    pub hidden: usize,
    pub offered: Vec<ToolSwitch>,
}

/// At most `max` characters of a text, with a mark behind where some were cut.
pub open spec fn shortened(s: Seq<char>, max: nat) -> Seq<char> {
    if s.len() > max {
        s.take(max as int) + "…"@
    } else {
        s
    }
}

/// At most `max` characters of a text, with a mark behind where some were cut.
pub fn truncate(s: &str, max: usize) -> (out: String)
    ensures
        out@ == shortened(s@, max as nat),
{
    let x = chars_of(s);
    if x.len() > max {
        let head = text_slice(&x, 0, max);
        assert(head@ =~= s@.take(max as int));
        cat2(head.as_str(), "…")
    } else {
        s.to_owned()
    }
}

/// The tool may be exposed: its name is well formed, and the filter lets it through.
pub open spec fn shown(tool: Tool, filter: ToolFilter) -> bool {
    names::valid(tool.name@) && filter.exposes(tool.name@)
}

/// A tool as it is exposed.
pub open spec fn exposure(server: Seq<char>, tool: Tool) -> SpecView {
    SpecView {
        name: names::qualified(server, tool.name@),
        description: shortened(
            match tool.description {
                Some(d) => d@,
                None => seq![],
            },
            MAX_DESCRIPTION as nat,
        ),
        schema: tool.schema@,
    }
}

/// The tools that may be exposed, as they are exposed.
pub open spec fn exposures(server: Seq<char>, filter: ToolFilter, tools: Seq<Tool>) -> Seq<SpecView>
    decreases tools.len(),
{
    if tools.len() == 0 {
        seq![]
    } else {
        let head = exposures(server, filter, tools.drop_last());
        if shown(tools.last(), filter) {
            head.push(exposure(server, tools.last()))
        } else {
            head
        }
    }
}

/// The name of each tool, and whether it may be exposed.
pub open spec fn offers(filter: ToolFilter, tools: Seq<Tool>) -> Seq<(Seq<char>, bool)> {
    tools.map_values(|t: Tool| (t.name@, shown(t, filter)))
}

/// The catalog is made of these tools.
pub open spec fn catalogs(
    out: Catalog,
    server: Seq<char>,
    filter: ToolFilter,
    tools: Seq<Tool>,
) -> bool {
    &&& exists|list: Seq<McpToolSpec>|
        specs(list) == exposures(server, filter, tools) && out.exposed@
            == #[trigger] ranking::ranked(list)
    &&& out.hidden == tools.len() - exposures(server, filter, tools).len()
    &&& exists|list: Seq<ToolSwitch>|
        switches(list) == offers(filter, tools) && out.offered@ == #[trigger] ranking::ranked(list)
}

/// The catalog of a server's tools. A name that would not route, or one that the
/// filter withholds, is not exposed.
pub fn build_catalog(server: &str, filter: &ToolFilter, tools: Vec<Tool>) -> (out: Catalog)
    ensures
        catalogs(out, server@, *filter, tools@),
{
    let ghost all = tools@;
    let total: usize = tools.len();
    let mut exposed: Vec<McpToolSpec> = Vec::new();
    let mut offered: Vec<ToolSwitch> = Vec::new();
    let mut i: usize = 0;
    assert(specs(exposed@) =~= exposures(server@, *filter, all.take(0)));
    assert(switches(offered@) =~= offers(*filter, all.take(0)));
    while i < tools.len()
        invariant
            i <= tools@.len(),
            all == tools@,
            exposed@.len() <= i,
            specs(exposed@) == exposures(server@, *filter, all.take(i as int)),
            switches(offered@) == offers(*filter, all.take(i as int)),
        decreases tools@.len() - i,
    {
        let ghost was = exposed@;
        let ghost was_offered = offered@;
        assert(all.take(i + 1).drop_last() =~= all.take(i as int));
        let tool = &tools[i];
        let on = valid_tool_name(tool.name.as_str()) && filter.admits(tool.name.as_str());
        offered.push(ToolSwitch { name: tool.name.clone(), on });
        assert(switches(offered@) =~= switches(was_offered).push((tool.name@, on)));
        assert(offers(*filter, all.take(i + 1)) =~= offers(*filter, all.take(i as int)).push(
            (tool.name@, on),
        ));
        if on {
            let description = match &tool.description {
                Some(d) => truncate(d.as_str(), MAX_DESCRIPTION),
                None => truncate("", MAX_DESCRIPTION),
            };
            proof {
                reveal_strlit("");
                assert(""@ =~= seq![]);
            }
            let spec_item = McpToolSpec {
                name: qualify(server, tool.name.as_str()),
                description,
                schema: tool.schema.copy(),
            };
            let ghost sv = spec_item@;
            assert(sv =~= exposure(server@, all[i as int]));
            exposed.push(spec_item);
            assert(specs(exposed@) =~= specs(was).push(sv));
        }
        i = i + 1;
    }
    assert(all.take(i as int) =~= all);
    assert(specs(exposed@).len() == exposed@.len());
    let hidden: usize = total - exposed.len();
    Catalog { exposed: sort(exposed), hidden, offered: sort(offered) }
}

proof fn lemma_exposures(server: Seq<char>, filter: ToolFilter, tools: Seq<Tool>, i: int)
    requires
        0 <= i < exposures(server, filter, tools).len(),
    ensures
        exists|j: int|
            0 <= j < tools.len() && shown(#[trigger] tools[j], filter) && exposures(
                server,
                filter,
                tools,
            )[i] == exposure(server, tools[j]),
    decreases tools.len(),
{
    if tools.len() > 0 {
        let head = exposures(server, filter, tools.drop_last());
        if i < head.len() {
            lemma_exposures(server, filter, tools.drop_last(), i);
            let j = choose|j: int|
                0 <= j < tools.drop_last().len() && shown(
                    #[trigger] tools.drop_last()[j],
                    filter,
                ) && head[i] == exposure(server, tools.drop_last()[j]);
            assert(tools[j] == tools.drop_last()[j]);
        } else {
            assert(shown(tools[tools.len() - 1], filter));
        }
    }
}

/// No tool is exposed whose name would not route back to its server, or that the
/// filter withholds; and every exposed name stands for its server and tool.
pub proof fn law_only_shown_tools_are_exposed(
    server: Seq<char>,
    filter: ToolFilter,
    tools: Seq<Tool>,
    i: int,
)
    requires
        0 <= i < exposures(server, filter, tools).len(),
        server.len() > 0,
        !text::contains(server, "__"@),
        server.last() != '_',
    ensures
        exists|tool: Seq<char>|
            names::valid(tool) && filter.exposes(tool) && #[trigger] names::qualified(server, tool)
                == exposures(server, filter, tools)[i].name && names::parsed(
                names::qualified(server, tool),
            ) == Some((server, tool)),
{
    lemma_exposures(server, filter, tools, i);
    let j = choose|j: int|
        0 <= j < tools.len() && shown(#[trigger] tools[j], filter) && exposures(
            server,
            filter,
            tools,
        )[i] == exposure(server, tools[j]);
    let tool = tools[j].name@;
    names::law_names_round_trip(server, tool);
    assert(names::qualified(server, tool) == exposures(server, filter, tools)[i].name);
}

/// The argument is given.
pub open spec fn given(args: JsonView, name: Seq<char>) -> bool {
    args.field(name) is Some
}

/// The required arguments that are not given, in the order of the schema.
pub open spec fn missing(required: Seq<JsonView>, args: JsonView) -> Seq<Seq<char>>
    decreases required.len(),
{
    if required.len() == 0 {
        seq![]
    } else {
        let head = missing(required.drop_last(), args);
        match required.last() {
            JsonView::Text(name) => if given(args, name) {
                head
            } else {
                head.push(name)
            },
            _ => head,
        }
    }
}

/// What is wrong with arguments: they are no object, or required ones are missing.
pub open spec fn fault(schema: JsonView, args: JsonView) -> Option<Seq<char>> {
    if !(args is Null || args is Object) {
        Some("arguments must be a JSON object"@)
    } else {
        let m = missing(schema.get("required"@).items(), args);
        if m.len() == 0 {
            None
        } else {
            Some("missing required argument(s): "@ + text::joined(m, ", "@))
        }
    }
}

/// Checks arguments against the schema of a tool, as far as it says what is
/// required.
pub fn validate_arguments(schema: &Json, args: &Json) -> (out: Result<(), String>)
    ensures
        match out {
            Ok(_) => fault(schema@, args@) is None,
            Err(e) => fault(schema@, args@) == Some(e@),
        },
{
    broadcast use json::lemma_object_view, json::lemma_list_view;

    match args {
        Json::Null => {},
        Json::Object(_) => {},
        _ => {
            return Err("arguments must be a JSON object".to_owned());
        },
    }
    let required: Option<&Vec<Json>> = match schema.field("required") {
        Some(r) => r.list(),
        None => None,
    };
    let items = match required {
        Some(items) => items,
        None => {
            return Ok(());
        },
    };
    let ghost all = json::values(items@);
    let mut absent: Vec<String> = Vec::new();
    let mut i: usize = 0;
    assert(text::views(absent@) =~= missing(all.take(0), args@));
    while i < items.len()
        invariant
            i <= items@.len(),
            all == json::values(items@),
            text::views(absent@) == missing(all.take(i as int), args@),
        decreases items@.len() - i,
    {
        let ghost was = absent@;
        assert(all.take(i + 1).drop_last() =~= all.take(i as int));
        assert(all[i as int] == items@[i as int]@);
        match items[i].text() {
            Some(name) => {
                if args.field(name.as_str()).is_none() {
                    absent.push(name.clone());
                    assert(text::views(absent@) =~= text::views(was).push(name@));
                }
            },
            None => {},
        }
        i = i + 1;
    }
    assert(all.take(i as int) =~= all);
    assert(text::views(absent@).len() == absent@.len());
    if absent.len() == 0 {
        Ok(())
    } else {
        Err(cat2("missing required argument(s): ", join(&absent, ", ").as_str()))
    }
}

/// One piece of what a tool gave.
pub enum ContentBlock {
    Text(String),
    /// An embedded resource, and its text where it has one.
    Resource(Option<String>),
    /// A link to a resource.
    ResourceLink(String),
    Image,
    Audio,
    Other,
}

impl ContentBlock {
    /// The text of the piece.
    pub open spec fn part(self) -> Option<Seq<char>> {
        match self {
            ContentBlock::Text(s) => Some(s@),
            ContentBlock::Resource(s) => match s {
                Some(t) => Some(t@),
                None => None,
            },
            ContentBlock::ResourceLink(uri) => Some("[resource] "@ + uri@),
            ContentBlock::Image => Some("[image]"@),
            ContentBlock::Audio => Some("[audio]"@),
            ContentBlock::Other => None,
        }
    }
}

/// The texts of the pieces.
pub open spec fn parts(v: Seq<ContentBlock>) -> Seq<Seq<char>>
    decreases v.len(),
{
    if v.len() == 0 {
        seq![]
    } else {
        let head = parts(v.drop_last());
        match v.last().part() {
            Some(s) => head.push(s),
            None => head,
        }
    }
}

/// What a tool gave, as text: its pieces, a line each; else its structured content.
pub open spec fn flattened(content: Seq<ContentBlock>, structured: Option<JsonView>) -> Seq<char> {
    let joined = text::joined(parts(content), "\n"@);
    if joined.len() > 0 {
        joined
    } else {
        match structured {
            Some(v) => json_text::laid_out(v, ""@),
            None => seq![],
        }
    }
}

/// What a tool gave, as text.
pub fn flatten(content: &Vec<ContentBlock>, structured: Option<&Json>) -> (out: String)
    ensures
        out@ == flattened(
            content@,
            match structured {
                Some(v) => Some(v@),
                None => None,
            },
        ),
{
    let ghost all = content@;
    let mut texts: Vec<String> = Vec::new();
    let mut i: usize = 0;
    assert(text::views(texts@) =~= parts(all.take(0)));
    while i < content.len()
        invariant
            i <= content@.len(),
            all == content@,
            text::views(texts@) == parts(all.take(i as int)),
        decreases content@.len() - i,
    {
        let ghost was = texts@;
        assert(all.take(i + 1).drop_last() =~= all.take(i as int));
        let part = match &content[i] {
            ContentBlock::Text(s) => Some(s.clone()),
            ContentBlock::Resource(s) => match s {
                Some(t) => Some(t.clone()),
                None => None,
            },
            ContentBlock::ResourceLink(uri) => Some(cat2("[resource] ", uri.as_str())),
            ContentBlock::Image => Some("[image]".to_owned()),
            ContentBlock::Audio => Some("[audio]".to_owned()),
            ContentBlock::Other => None,
        };
        match part {
            Some(s) => {
                let ghost sv = s@;
                texts.push(s);
                assert(text::views(texts@) =~= text::views(was).push(sv));
            },
            None => {},
        }
        i = i + 1;
    }
    assert(all.take(i as int) =~= all);
    let joined = join(&texts, "\n");
    if chars_of(joined.as_str()).len() > 0 {
        return joined;
    }
    match structured {
        Some(v) => lay_out(v, ""),
        None => String::new(),
    }
}

/// The arguments are given as an object, or there are none.
pub open spec fn is_record(args: JsonView) -> bool {
    args is Null || args is Object
}

/// The arguments have a value under each name that the schema requires.
pub open spec fn has_required(schema: JsonView, args: JsonView) -> bool {
    let required = schema.get("required"@).items();
    forall|i: int|
        0 <= i < required.len() && (#[trigger] required[i]) is Text ==> args.field(
            required[i]->Text_0,
        ) is Some
}

proof fn lemma_missing(required: Seq<JsonView>, args: JsonView)
    ensures
        forall|i: int|
            0 <= i < required.len() && (#[trigger] required[i]) is Text && args.field(
                required[i]->Text_0,
            ) is None ==> missing(required, args).contains(required[i]->Text_0),
        forall|k: int|
            0 <= k < missing(required, args).len() ==> args.field(
                #[trigger] missing(required, args)[k],
            ) is None && required.contains(JsonView::Text(missing(required, args)[k])),
    decreases required.len(),
{
    if required.len() > 0 {
        let head = required.drop_last();
        let was = missing(head, args);
        let now = missing(required, args);
        lemma_missing(head, args);
        assert forall|i: int|
            0 <= i < required.len() && (#[trigger] required[i]) is Text && args.field(
                required[i]->Text_0,
            ) is None implies now.contains(required[i]->Text_0) by {
            let name = required[i]->Text_0;
            if i < head.len() {
                assert(head[i] == required[i]);
                assert(was.contains(name));
                let k = choose|k: int| 0 <= k < was.len() && was[k] == name;
                assert(now[k] == name);
            } else {
                assert(now[was.len() as int] == name);
            }
        }
        assert forall|k: int| 0 <= k < now.len() implies args.field(#[trigger] now[k]) is None
            && required.contains(JsonView::Text(now[k])) by {
            if k < was.len() {
                assert(now[k] == was[k]);
                let j = choose|j: int| 0 <= j < head.len() && head[j] == JsonView::Text(was[k]);
                assert(required[j] == head[j]);
            } else {
                assert(required[required.len() - 1] == JsonView::Text(now[k]));
            }
        }
    }
}

/// Arguments are accepted exactly where they are an object or none and have a value under
/// each name that the schema requires.
pub proof fn law_required_arguments_are_given(schema: JsonView, args: JsonView)
    ensures
        fault(schema, args) is None <==> is_record(args) && has_required(schema, args),
{
    let required = schema.get("required"@).items();
    lemma_missing(required, args);
    let m = missing(required, args);
    if is_record(args) {
        if m.len() > 0 {
            let name = m[0];
            let j = choose|j: int| 0 <= j < required.len() && required[j] == JsonView::Text(name);
            assert(required[j] is Text);
        } else if !has_required(schema, args) {
            let i = choose|i: int|
                0 <= i < required.len() && (#[trigger] required[i]) is Text && args.field(
                    required[i]->Text_0,
                ) is None;
            assert(m.contains(required[i]->Text_0));
        }
    }
}

/// What is said of an object that lacks arguments names each of them.
pub proof fn law_missing_arguments_are_named(
    schema: JsonView,
    args: JsonView,
    i: int,
    name: Seq<char>,
)
    requires
        is_record(args),
        0 <= i < schema.get("required"@).items().len(),
        schema.get("required"@).items()[i] == JsonView::Text(name),
        args.field(name) is None,
    ensures
        fault(schema, args) is Some,
        text::starts_with(fault(schema, args)->0, "missing required argument(s): "@),
        text::contains(fault(schema, args)->0, name),
{
    let required = schema.get("required"@).items();
    lemma_missing(required, args);
    let m = missing(required, args);
    assert(m.contains(name));
    let k = choose|k: int| 0 <= k < m.len() && m[k] == name;
    let at = text::lemma_joined_holds(m, ", "@, k);
    let head = "missing required argument(s): "@;
    let e = fault(schema, args)->0;
    assert(e == head + text::joined(m, ", "@));
    assert(e.subrange(0, head.len() as int) =~= head);
    assert(e.subrange(head.len() + at, head.len() + at + name.len()) =~= text::joined(
        m,
        ", "@,
    ).subrange(at, at + name.len()));
    assert(text::occurs(e, name, head.len() + at));
}

/// The tool has a name that routes, an allowing pattern fits it where there is one, and no
/// denying pattern fits it.
pub open spec fn may_be_called(filter: ToolFilter, tool: Seq<char>) -> bool {
    &&& 0 < tool.len() <= 128
    &&& !text::contains(tool, "__"@)
    &&& forall|i: int|
        0 <= i < tool.len() ==> ('a' <= #[trigger] tool[i] <= 'z') || ('A' <= tool[i] <= 'Z') || (
        '0' <= tool[i] <= '9') || tool[i] == '_' || tool[i] == '-' || tool[i] == '.'
    &&& filter.allow@.len() == 0 || exists|i: int|
        0 <= i < filter.allow@.len() && admits_by(#[trigger] filter.allow@[i]@, tool)
    &&& forall|i: int|
        0 <= i < filter.deny@.len() ==> !admits_by(#[trigger] filter.deny@[i]@, tool)
}

/// The pattern is the name, or its beginning and an asterisk.
pub open spec fn admits_by(pattern: Seq<char>, name: Seq<char>) -> bool {
    ||| pattern == name && !(pattern.len() > 0 && pattern.last() == '*')
    ||| exists|n: int| 0 <= n <= name.len() && #[trigger] name.take(n).push('*') == pattern
}

proof fn lemma_admits_by(pattern: Seq<char>, name: Seq<char>)
    ensures
        names::fits(pattern, name) == admits_by(pattern, name),
{
    if names::fits(pattern, name) && pattern.len() > 0 && pattern.last() == '*' {
        let n = pattern.len() - 1;
        assert(name.take(n) =~= name.subrange(0, n));
        assert(name.take(n).push('*') =~= pattern);
    }
    if exists|n: int| 0 <= n <= name.len() && #[trigger] name.take(n).push('*') == pattern {
        let n = choose|n: int| 0 <= n <= name.len() && #[trigger] name.take(n).push('*') == pattern;
        assert(pattern.drop_last() =~= name.take(n));
        assert(name.subrange(0, n) =~= pattern.drop_last());
    }
}

proof fn lemma_may_be_called(tool: Tool, filter: ToolFilter)
    ensures
        shown(tool, filter) == may_be_called(filter, tool.name@),
{
    let name = tool.name@;
    let (allow, deny) = (text::views(filter.allow@), text::views(filter.deny@));
    assert forall|i: int| 0 <= i < allow.len() implies names::fits(#[trigger] allow[i], name)
        == admits_by(filter.allow@[i]@, name) by {
        lemma_admits_by(allow[i], name);
    }
    assert forall|i: int| 0 <= i < deny.len() implies names::fits(#[trigger] deny[i], name)
        == admits_by(filter.deny@[i]@, name) by {
        lemma_admits_by(deny[i], name);
    }
    if names::some_fits(allow, name) {
        let i = choose|i: int| 0 <= i < allow.len() && names::fits(#[trigger] allow[i], name);
        assert(admits_by(filter.allow@[i]@, name));
    }
    if exists|i: int| 0 <= i < filter.allow@.len() && admits_by(#[trigger] filter.allow@[i]@, name) {
        let i = choose|i: int|
            0 <= i < filter.allow@.len() && admits_by(#[trigger] filter.allow@[i]@, name);
        assert(names::fits(allow[i], name));
    }
    if names::some_fits(deny, name) {
        let i = choose|i: int| 0 <= i < deny.len() && names::fits(#[trigger] deny[i], name);
        assert(admits_by(filter.deny@[i]@, name));
    }
    if exists|i: int| 0 <= i < filter.deny@.len() && admits_by(#[trigger] filter.deny@[i]@, name) {
        let i = choose|i: int|
            0 <= i < filter.deny@.len() && admits_by(#[trigger] filter.deny@[i]@, name);
        assert(names::fits(deny[i], name));
    }
    assert(names::valid(name) == (0 < name.len() <= 128 && !text::contains(name, "__"@) && forall|
        i: int,
    |
        0 <= i < name.len() ==> names::plain(#[trigger] name[i])));
    if forall|i: int| 0 <= i < name.len() ==> names::plain(#[trigger] name[i]) {
        assert(forall|i: int|
            0 <= i < name.len() ==> ('a' <= #[trigger] name[i] <= 'z') || ('A' <= name[i] <= 'Z') || (
            '0' <= name[i] <= '9') || name[i] == '_' || name[i] == '-' || name[i] == '.');
    }
}

proof fn lemma_exposed(server: Seq<char>, filter: ToolFilter, tools: Seq<Tool>, j: int)
    requires
        0 <= j < tools.len(),
        shown(tools[j], filter),
    ensures
        exposures(server, filter, tools).contains(exposure(server, tools[j])),
    decreases tools.len(),
{
    let head = exposures(server, filter, tools.drop_last());
    let all = exposures(server, filter, tools);
    if j < tools.len() - 1 {
        lemma_exposed(server, filter, tools.drop_last(), j);
        let k = choose|k: int| 0 <= k < head.len() && head[k] == exposure(server, tools[j]);
        assert(all[k] == head[k]);
    } else {
        assert(all[head.len() as int] == exposure(server, tools[j]));
    }
}

/// A tool is in the catalog of its server exactly where it may be called: under the
/// server's name and its own, with its schema, and with its description as far as that is
/// passed on.
pub proof fn law_catalog_holds_what_may_be_called(
    out: Catalog,
    server: Seq<char>,
    filter: ToolFilter,
    tools: Seq<Tool>,
)
    requires
        catalogs(out, server, filter, tools),
    ensures
        forall|j: int|
            0 <= j < tools.len() && may_be_called(filter, (#[trigger] tools[j]).name@) ==> exists|
                k: int,
            |
                {
                    &&& 0 <= k < out.exposed@.len()
                    &&& (#[trigger] out.exposed@[k]).name@ == "mcp__"@ + server + "__"@
                        + tools[j].name@
                    &&& out.exposed@[k].schema@ == tools[j].schema@
                    &&& tools[j].description matches Some(d) ==> d@.len() <= 1024
                        ==> out.exposed@[k].description@ == d@
                },
        forall|k: int|
            0 <= k < out.exposed@.len() ==> exists|j: int|
                {
                    &&& 0 <= j < tools.len()
                    &&& may_be_called(filter, (#[trigger] tools[j]).name@)
                    &&& (#[trigger] out.exposed@[k]).name@ == "mcp__"@ + server + "__"@
                        + tools[j].name@
                    &&& out.exposed@[k].schema@ == tools[j].schema@
                },
        out.hidden + out.exposed@.len() == tools.len(),
{
    broadcast use vstd::seq_lib::group_to_multiset_ensures;

    let all = exposures(server, filter, tools);
    let list = choose|list: Seq<McpToolSpec>|
        specs(list) == exposures(server, filter, tools) && out.exposed@
            == #[trigger] ranking::ranked(list);
    ranking::law_settled(list);
    let ranked = ranking::ranked(list);
    assert(ranked.len() == ranked.to_multiset().len() && list.len() == list.to_multiset().len());
    assert(specs(list).len() == list.len());
    assert forall|j: int|
        0 <= j < tools.len() && may_be_called(filter, (#[trigger] tools[j]).name@) implies exists|
        k: int,
    |
        {
            &&& 0 <= k < out.exposed@.len()
            &&& (#[trigger] out.exposed@[k]).name@ == "mcp__"@ + server + "__"@ + tools[j].name@
            &&& out.exposed@[k].schema@ == tools[j].schema@
            &&& tools[j].description matches Some(d) ==> d@.len() <= 1024
                ==> out.exposed@[k].description@ == d@
        } by {
        lemma_may_be_called(tools[j], filter);
        lemma_exposed(server, filter, tools, j);
        let n = choose|n: int| 0 <= n < all.len() && all[n] == exposure(server, tools[j]);
        assert(list[n]@ == specs(list)[n]);
        assert(list.contains(list[n]));
        assert(list.to_multiset().count(list[n]) > 0);
        assert(ranked.contains(list[n]));
        let k = choose|k: int| 0 <= k < ranked.len() && ranked[k] == list[n];
        assert(out.exposed@[k].name@ == list[n]@.name);
    }
    assert forall|k: int| 0 <= k < out.exposed@.len() implies exists|j: int|
        {
            &&& 0 <= j < tools.len()
            &&& may_be_called(filter, (#[trigger] tools[j]).name@)
            &&& (#[trigger] out.exposed@[k]).name@ == "mcp__"@ + server + "__"@ + tools[j].name@
            &&& out.exposed@[k].schema@ == tools[j].schema@
        } by {
        let x = out.exposed@[k];
        assert(ranked.contains(x));
        assert(ranked.to_multiset().count(x) > 0);
        assert(list.contains(x));
        let n = choose|n: int| 0 <= n < list.len() && list[n] == x;
        assert(specs(list)[n] == x@);
        lemma_exposures(server, filter, tools, n);
        let j = choose|j: int|
            0 <= j < tools.len() && shown(#[trigger] tools[j], filter) && all[n] == exposure(
                server,
                tools[j],
            );
        lemma_may_be_called(tools[j], filter);
        assert(may_be_called(filter, tools[j].name@));
    }
}

proof fn lemma_parts(a: Seq<ContentBlock>, b: Seq<ContentBlock>)
    ensures
        parts(a + b) == parts(a) + parts(b),
    decreases b.len(),
{
    if b.len() == 0 {
        assert(a + b =~= a);
        assert(parts(a) + parts(b) =~= parts(a));
    } else {
        lemma_parts(a, b.drop_last());
        assert((a + b).drop_last() =~= a + b.drop_last());
        assert((a + b).last() == b.last());
        assert(parts(a + b) =~= parts(a) + parts(b));
    }
}

/// What a tool gave is passed on as it is: a text alone is the text itself, and two
/// results that both hold something are a line each, in order.
pub proof fn law_results_are_passed_on(
    s: String,
    a: Seq<ContentBlock>,
    b: Seq<ContentBlock>,
    structured: Option<JsonView>,
)
    ensures
        s@.len() > 0 ==> flattened(seq![ContentBlock::Text(s)], structured) == s@,
        parts(a).len() > 0 && parts(b).len() > 0 ==> text::joined(parts(a + b), "\n"@)
            == text::joined(parts(a), "\n"@) + "\n"@ + text::joined(parts(b), "\n"@),
        a.len() == 0 && structured is Some ==> flattened(a, structured) == json_text::laid_out(
            structured->0,
            ""@,
        ),
{
    let one = seq![ContentBlock::Text(s)];
    assert(one.drop_last() =~= seq![]);
    assert(parts(one.drop_last()) =~= seq![]);
    assert(parts(one) =~= seq![s@]);
    reveal_with_fuel(text::joined, 2);
    assert(text::joined(parts(one), "\n"@) =~= s@);
    lemma_parts(a, b);
    if parts(a).len() > 0 && parts(b).len() > 0 {
        text::lemma_joined_add(parts(a), parts(b), "\n"@);
    }
}

} // verus!

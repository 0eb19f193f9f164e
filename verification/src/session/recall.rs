//! The commands on what the agent remembers, each from its words to what is said and
//! done.

use vstd::prelude::*;
use vstd::string::*;
use crate::agents::recovery;
use crate::agents::recovery::read_ulid;
use crate::number;
use crate::number::show;
use crate::order;
use crate::order::sort_texts;
use crate::paths;
use crate::paths::path_extension;
use crate::session::memory;
use crate::session::memory::{
    edited_claim, found_line, list_line, memory_scope, not_found, search_query, Scope,
};
use crate::text;
use crate::text::{cat2, cat3, cat5, chars_of, copy_texts, same, text_slice};

verus! {

/// The most entries that a search shows.
pub const SEARCH_LIMIT: usize = 20;

/// Something that is remembered.
pub struct MemoryEntry {
    pub name: String,
    pub scope: Scope,
    pub kind: String,
    pub trust: String,
    pub confidence: String,
    pub version: u64,
    pub pinned: bool,
    pub description: String,
    pub claim: String,
    /// The events that it rests on.
    pub provenance: Vec<String>,
    /// The sessions that it was told in.
    pub sessions: Vec<String>,
    /// Whole days since it was last changed.
    pub age: u64,
}

/// What a [`MemoryEntry`] holds.
#[verifier::ext_equal]
pub ghost struct EntryView {
    pub name: Seq<char>,
    pub scope: Scope,
    pub kind: Seq<char>,
    pub trust: Seq<char>,
    pub confidence: Seq<char>,
    pub version: u64,
    pub pinned: bool,
    pub description: Seq<char>,
    pub claim: Seq<char>,
    pub provenance: Seq<Seq<char>>,
    pub sessions: Seq<Seq<char>>,
    pub age: u64,
}

impl View for MemoryEntry {
    type V = EntryView;

    open spec fn view(&self) -> EntryView {
        EntryView {
            name: self.name@,
            scope: self.scope,
            kind: self.kind@,
            trust: self.trust@,
            confidence: self.confidence@,
            version: self.version,
            pinned: self.pinned,
            description: self.description@,
            claim: self.claim@,
            provenance: text::views(self.provenance@),
            sessions: text::views(self.sessions@),
            age: self.age,
        }
    }
}

impl MemoryEntry {
    fn copy(&self) -> (out: MemoryEntry)
        ensures
            out@ == self@,
    {
        MemoryEntry {
            name: self.name.clone(),
            scope: self.scope,
            kind: self.kind.clone(),
            trust: self.trust.clone(),
            confidence: self.confidence.clone(),
            version: self.version,
            pinned: self.pinned,
            description: self.description.clone(),
            claim: self.claim.clone(),
            provenance: copy_texts(&self.provenance),
            sessions: copy_texts(&self.sessions),
            age: self.age,
        }
    }
}

/// What each entry holds.
pub open spec fn entries(v: Seq<MemoryEntry>) -> Seq<EntryView> {
    v.map_values(|e: MemoryEntry| e@)
}

/// An event of the log, by which an entry can be traced.
pub struct TracedEvent {
    pub id: String,
    pub session: String,
    pub kind: String,
}

/// What each event is: its id, session and kind.
pub open spec fn traces(v: Seq<TracedEvent>) -> Seq<(Seq<char>, Seq<char>, Seq<char>)> {
    v.map_values(|e: TracedEvent| (e.id@, e.session@, e.kind@))
}

/// A command on what is remembered.
pub enum MemoryCommand {
    List { scope: Option<String> },
    Show { name: String, scope: Option<String> },
    Search { query: Vec<String> },
    Edit { name: String, scope: Option<String> },
    Forget { name: String, scope: Option<String> },
    Pin { name: String, scope: Option<String>, off: bool },
    Pending,
    Approve { id: String },
}

/// A change of what is remembered.
pub enum MemoryOp {
    Update(MemoryEntry),
    Forget(Scope, String),
    Pin(Scope, String, bool),
}

/// What a [`MemoryOp`] holds.
pub ghost enum OpView {
    Update(EntryView),
    Forget(Scope, Seq<char>),
    Pin(Scope, Seq<char>, bool),
}

impl View for MemoryOp {
    type V = OpView;

    open spec fn view(&self) -> OpView {
        match self {
            MemoryOp::Update(e) => OpView::Update(e@),
            MemoryOp::Forget(s, n) => OpView::Forget(*s, n@),
            MemoryOp::Pin(s, n, p) => OpView::Pin(*s, n@, *p),
        }
    }
}

/// What a command comes to.
pub enum MemoryStep {
    /// These lines are shown.
    Say(Vec<String>),
    /// This is searched for, and at most so many of what is found are shown.
    Search(String, usize),
    /// The user edits the claim of this entry.
    Edit(MemoryEntry),
    /// The change is recorded, and then this line is shown.
    Record(MemoryOp, String),
    /// The change in this file is recorded, the file is removed, and then this line is
    /// shown.
    Approve(String, String),
    Fail(String),
}

/// What a [`MemoryStep`] holds.
pub ghost enum StepView {
    Say(Seq<Seq<char>>),
    Search(Seq<char>, usize),
    Edit(EntryView),
    Record(OpView, Seq<char>),
    Approve(Seq<char>, Seq<char>),
    Fail(Seq<char>),
}

impl View for MemoryStep {
    type V = StepView;

    open spec fn view(&self) -> StepView {
        match self {
            MemoryStep::Say(v) => StepView::Say(text::views(v@)),
            MemoryStep::Search(q, most) => StepView::Search(q@, *most),
            MemoryStep::Edit(e) => StepView::Edit(e@),
            MemoryStep::Record(op, line) => StepView::Record(op@, line@),
            MemoryStep::Approve(f, line) => StepView::Approve(f@, line@),
            MemoryStep::Fail(m) => StepView::Fail(m@),
        }
    }
}

/// The word for a scope.
pub open spec fn scope_word(s: Scope) -> Seq<char> {
    match s {
        Scope::Project => "project"@,
        Scope::User => "user"@,
    }
}

fn scope_name(s: Scope) -> (out: &'static str)
    ensures
        out@ == scope_word(s),
{
    match s {
        Scope::Project => "project",
        Scope::User => "user",
    }
}

/// The position of the entry under a name in a scope, from the `i`-th on.
pub open spec fn entry_at(v: Seq<EntryView>, scope: Scope, name: Seq<char>, i: int) -> Option<int>
    decreases v.len() - i,
{
    if i < 0 || i >= v.len() {
        None
    } else if v[i].scope == scope && v[i].name == name {
        Some(i)
    } else {
        entry_at(v, scope, name, i + 1)
    }
}

fn find_entry(v: &Vec<MemoryEntry>, scope: Scope, name: &str) -> (out: Option<usize>)
    ensures
        match out {
            Some(i) => i < v@.len() && entry_at(entries(v@), scope, name@, 0) == Some(i as int),
            None => entry_at(entries(v@), scope, name@, 0) is None,
        },
{
    let ghost all = entries(v@);
    let mut i: usize = 0;
    while i < v.len()
        invariant
            i <= v@.len(),
            all == entries(v@),
            entry_at(all, scope, name@, 0) == entry_at(all, scope, name@, i as int),
        decreases v@.len() - i,
    {
        assert(all[i as int] == v@[i as int]@);
        if v[i].scope == scope && same(v[i].name.as_str(), name) {
            return Some(i);
        }
        i = i + 1;
    }
    None
}

/// Why a word names no scope.
pub open spec fn bad_scope(word: Seq<char>) -> Seq<char> {
    "unknown memory scope '"@ + word + "' (project|user)"@
}

/// The entry that a name means: the one in the scope, and without a scope the project's
/// before the user's.
pub open spec fn meant(v: Seq<EntryView>, scope: Option<Seq<char>>, name: Seq<char>) -> Option<int> {
    match scope {
        Some(_) => match memory::scope_of(scope) {
            Some(s) => entry_at(v, s, name, 0),
            None => None,
        },
        None => match entry_at(v, Scope::Project, name, 0) {
            Some(i) => Some(i),
            None => entry_at(v, Scope::User, name, 0),
        },
    }
}

/// The entry that a name means.
pub fn find_memory(v: &Vec<MemoryEntry>, scope: &Option<String>, name: &str) -> (out: Result<
    Option<usize>,
    String,
>)
    ensures
        match out {
            Ok(Some(i)) => i < v@.len() && memory::scope_of(text::view_of(*scope)) is Some
                && meant(entries(v@), text::view_of(*scope), name@) == Some(i as int),
            Ok(None) => memory::scope_of(text::view_of(*scope)) is Some && meant(
                entries(v@),
                text::view_of(*scope),
                name@,
            ) is None,
            Err(e) => memory::scope_of(text::view_of(*scope)) is None && (*scope matches Some(w)
                && e@ == bad_scope(w@)),
        },
{
    match scope {
        Some(_) => match memory_scope(scope) {
            Ok(s) => Ok(find_entry(v, s, name)),
            Err(e) => Err(e),
        },
        None => match find_entry(v, Scope::Project, name) {
            Some(i) => Ok(Some(i)),
            None => Ok(find_entry(v, Scope::User, name)),
        },
    }
}

/// The line about an entry in a list.
pub open spec fn entry_line(e: EntryView) -> Seq<char> {
    e.name + "  ["@ + scope_word(e.scope) + " · "@ + e.trust + " · "@ + number::decimal(
        e.age as nat,
    ) + "d"@ + (if e.pinned {
        " · pinned"@
    } else {
        ""@
    }) + "]  "@ + e.description
}

/// The lines about the entries of a scope, or of both.
pub open spec fn entry_lines(v: Seq<EntryView>, scope: Option<Scope>) -> Seq<Seq<char>>
    decreases v.len(),
{
    if v.len() == 0 {
        seq![]
    } else {
        let head = entry_lines(v.drop_last(), scope);
        if scope is None || scope == Some(v.last().scope) {
            head.push(entry_line(v.last()))
        } else {
            head
        }
    }
}

fn list_entries(v: &Vec<MemoryEntry>, scope: Option<Scope>) -> (out: Vec<String>)
    ensures
        text::views(out@) == entry_lines(entries(v@), scope),
{
    let ghost all = entries(v@);
    let mut out: Vec<String> = Vec::new();
    let mut i: usize = 0;
    assert(text::views(out@) =~= entry_lines(all.take(0), scope));
    while i < v.len()
        invariant
            i <= v@.len(),
            all == entries(v@),
            text::views(out@) == entry_lines(all.take(i as int), scope),
        decreases v@.len() - i,
    {
        let e = &v[i];
        let ghost was = out@;
        assert(all.take(i + 1).drop_last() =~= all.take(i as int));
        assert(all[i as int] == e@);
        let shown = match scope {
            None => true,
            Some(s) => s == e.scope,
        };
        if shown {
            out.push(
                list_line(
                    e.name.as_str(),
                    scope_name(e.scope),
                    e.trust.as_str(),
                    e.age,
                    e.pinned,
                    e.description.as_str(),
                ),
            );
            assert(text::views(out@) =~= text::views(was).push(entry_line(e@)));
        }
        i = i + 1;
    }
    assert(all.take(i as int) =~= all);
    out
}

/// The position of an event, from the `i`-th on.
pub open spec fn event_at(v: Seq<(Seq<char>, Seq<char>, Seq<char>)>, id: Seq<char>, i: int) -> Option<
    int,
>
    decreases v.len() - i,
{
    if i < 0 || i >= v.len() {
        None
    } else if v[i].0 == id {
        Some(i)
    } else {
        event_at(v, id, i + 1)
    }
}

/// The line about an event that an entry rests on.
pub open spec fn trace_line(v: Seq<(Seq<char>, Seq<char>, Seq<char>)>, id: Seq<char>) -> Seq<char> {
    match event_at(v, id, 0) {
        Some(i) => "  "@ + v[i].0 + "  session="@ + v[i].1 + "  kind="@ + v[i].2,
        None => "  "@ + id + "  (event not found locally)"@,
    }
}

fn trace(v: &Vec<TracedEvent>, id: &str) -> (out: String)
    ensures
        out@ == trace_line(traces(v@), id@),
{
    let ghost all = traces(v@);
    let mut i: usize = 0;
    while i < v.len()
        invariant
            i <= v@.len(),
            all == traces(v@),
            event_at(all, id@, 0) == event_at(all, id@, i as int),
        decreases v@.len() - i,
    {
        assert(all[i as int] == (v@[i as int].id@, v@[i as int].session@, v@[i as int].kind@));
        if same(v[i].id.as_str(), id) {
            let mut out = cat5(
                "  ",
                v[i].id.as_str(),
                "  session=",
                v[i].session.as_str(),
                "  kind=",
            );
            out.append(v[i].kind.as_str());
            return out;
        }
        i = i + 1;
    }
    cat3("  ", id, "  (event not found locally)")
}

/// The lines about the events that an entry rests on.
pub open spec fn trace_lines(
    v: Seq<(Seq<char>, Seq<char>, Seq<char>)>,
    ids: Seq<Seq<char>>,
) -> Seq<Seq<char>> {
    ids.map_values(|id: Seq<char>| trace_line(v, id))
}

/// Everything about an entry.
pub open spec fn entry_account(e: EntryView, v: Seq<(Seq<char>, Seq<char>, Seq<char>)>) -> Seq<
    Seq<char>,
> {
    seq![
        e.name + " ["@ + scope_word(e.scope) + "]"@,
        "kind: "@ + e.kind,
        "trust: "@ + e.trust,
        "confidence: "@ + e.confidence,
        "version: "@ + number::decimal(e.version as nat),
        "pinned: "@ + if e.pinned {
            "true"@
        } else {
            "false"@
        },
        "description: "@ + e.description,
        "claim:\n"@ + e.claim,
        "provenance:"@,
    ] + trace_lines(v, e.provenance)
}

fn account(e: &MemoryEntry, v: &Vec<TracedEvent>) -> (out: Vec<String>)
    ensures
        text::views(out@) == entry_account(e@, traces(v@)),
{
    let mut out: Vec<String> = Vec::new();
    let mut head = cat3(e.name.as_str(), " [", scope_name(e.scope));
    head.append("]");
    out.push(head);
    out.push(cat2("kind: ", e.kind.as_str()));
    out.push(cat2("trust: ", e.trust.as_str()));
    out.push(cat2("confidence: ", e.confidence.as_str()));
    out.push(cat2("version: ", show(e.version).as_str()));
    out.push(
        cat2(
            "pinned: ",
            if e.pinned {
                "true"
            } else {
                "false"
            },
        ),
    );
    out.push(cat2("description: ", e.description.as_str()));
    out.push(cat2("claim:\n", e.claim.as_str()));
    out.push("provenance:".to_owned());
    let ghost fixed = text::views(out@);
    let ghost ids = e@.provenance;
    let ghost events = traces(v@);
    assert(fixed =~= entry_account(e@, events).take(9));
    let mut i: usize = 0;
    assert(text::views(out@) =~= fixed + trace_lines(events, ids.take(0)));
    while i < e.provenance.len()
        invariant
            i <= e.provenance@.len(),
            ids == text::views(e.provenance@),
            events == traces(v@),
            text::views(out@) == fixed + trace_lines(events, ids.take(i as int)),
        decreases e.provenance@.len() - i,
    {
        let ghost was = out@;
        assert(ids[i as int] == e.provenance@[i as int]@);
        out.push(trace(v, e.provenance[i].as_str()));
        assert(text::views(out@) =~= text::views(was).push(trace_line(events, ids[i as int])));
        assert(trace_lines(events, ids.take(i + 1)) =~= trace_lines(events, ids.take(i as int)).push(
            trace_line(events, ids[i as int]),
        ));
        i = i + 1;
    }
    assert(ids.take(i as int) =~= ids);
    out
}

/// The files that hold a change which waits, by the ids of the changes.
pub open spec fn pending_ids(files: Seq<Seq<char>>) -> Seq<Seq<char>>
    decreases files.len(),
{
    if files.len() == 0 {
        seq![]
    } else {
        let head = pending_ids(files.drop_last());
        let f = files.last();
        if paths::extension(f) == Some("json"@) && f.len() >= 5 {
            head.push(f.take(f.len() - 5))
        } else {
            head
        }
    }
}

fn list_pending(files: &Vec<String>) -> (out: Vec<String>)
    ensures
        text::views(out@) == pending_ids(text::views(files@)),
{
    let ghost all = text::views(files@);
    let mut out: Vec<String> = Vec::new();
    let mut i: usize = 0;
    assert(text::views(out@) =~= pending_ids(all.take(0)));
    while i < files.len()
        invariant
            i <= files@.len(),
            all == text::views(files@),
            text::views(out@) == pending_ids(all.take(i as int)),
        decreases files@.len() - i,
    {
        let ghost was = out@;
        assert(all.take(i + 1).drop_last() =~= all.take(i as int));
        assert(all[i as int] == files@[i as int]@);
        let waits = match path_extension(files[i].as_str()) {
            Some(x) => same(x.as_str(), "json"),
            None => false,
        };
        let x = chars_of(files[i].as_str());
        let n: usize = x.len();
        if waits && n >= 5 {
            out.push(text_slice(&x, 0, n - 5));
            assert(x@.subrange(0, n - 5) =~= all[i as int].take(n - 5));
            assert(text::views(out@) =~= text::views(was).push(all[i as int].take(n - 5)));
        }
        i = i + 1;
    }
    assert(all.take(i as int) =~= all);
    out
}

fn one_line(s: &str) -> (out: Vec<String>)
    ensures
        text::views(out@) == seq![s@],
{
    let mut out: Vec<String> = Vec::new();
    out.push(s.to_owned());
    assert(text::views(out@) =~= seq![s@]);
    out
}

/// A change of one entry of a scope, or why there is none.
pub open spec fn changed_entry(
    v: Seq<EntryView>,
    scope: Option<Seq<char>>,
    name: Seq<char>,
    pin: Option<bool>,
) -> StepView {
    match memory::scope_of(scope) {
        None => StepView::Fail(bad_scope(scope->0)),
        Some(s) => if entry_at(v, s, name, 0) is None {
            StepView::Fail("memory '"@ + name + "' not found in "@ + scope_word(s) + " scope"@)
        } else {
            match pin {
                None => StepView::Record(OpView::Forget(s, name), "Forgot '"@ + name + "'."@),
                Some(pinned) => StepView::Record(
                    OpView::Pin(s, name, pinned),
                    (if pinned {
                        "Pinned"@
                    } else {
                        "Unpinned"@
                    }) + " '"@ + name + "'."@,
                ),
            }
        },
    }
}

/// What the approval of a change comes to, by the id of the change where it has one.
pub open spec fn approval_of(id: Option<Seq<char>>) -> StepView {
    match id {
        Some(shown) => StepView::Approve(
            shown + ".json"@,
            "Approved pending memory "@ + shown + "."@,
        ),
        None => StepView::Fail("pending id must be a ULID"@),
    }
}

/// What the approval of a change comes to, by the id of the change where it has one.
pub fn approval(id: &Option<String>) -> (out: MemoryStep)
    ensures
        out@ == approval_of(text::view_of(*id)),
{
    match id {
        Some(shown) => MemoryStep::Approve(
            cat2(shown.as_str(), ".json"),
            cat3("Approved pending memory ", shown.as_str(), "."),
        ),
        None => MemoryStep::Fail("pending id must be a ULID".to_owned()),
    }
}

/// What a command comes to. `files` are those in the directory of the changes that wait.
pub open spec fn step_of(
    command: MemoryCommand,
    v: Seq<EntryView>,
    events: Seq<(Seq<char>, Seq<char>, Seq<char>)>,
    files: Seq<Seq<char>>,
) -> StepView {
    match command {
        MemoryCommand::List { scope } => match (
            text::view_of(scope),
            memory::scope_of(text::view_of(scope)),
        ) {
            (Some(w), None) => StepView::Fail(bad_scope(w)),
            (given, found) => {
                let lines = entry_lines(
                    v,
                    if given is None {
                        None
                    } else {
                        found
                    },
                );
                StepView::Say(
                    if lines.len() == 0 {
                        seq!["No memories found."@]
                    } else {
                        lines
                    },
                )
            },
        },
        MemoryCommand::Show { name, scope } => match memory::scope_of(text::view_of(scope)) {
            None => StepView::Fail(bad_scope(text::view_of(scope)->0)),
            Some(_) => match meant(v, text::view_of(scope), name@) {
                Some(i) => StepView::Say(entry_account(v[i], events)),
                None => StepView::Fail("memory '"@ + name@ + "' not found"@),
            },
        },
        MemoryCommand::Search { query } => {
            let q = text::joined(text::views(query@), " "@);
            if text::trim(q).len() == 0 {
                StepView::Fail("memory search needs a non-empty query"@)
            } else {
                StepView::Search(q, SEARCH_LIMIT)
            }
        },
        MemoryCommand::Edit { name, scope } => match memory::scope_of(text::view_of(scope)) {
            None => StepView::Fail(bad_scope(text::view_of(scope)->0)),
            Some(_) => match meant(v, text::view_of(scope), name@) {
                Some(i) => StepView::Edit(v[i]),
                None => StepView::Fail("memory '"@ + name@ + "' not found"@),
            },
        },
        MemoryCommand::Forget { name, scope } => changed_entry(
            v,
            text::view_of(scope),
            name@,
            None,
        ),
        MemoryCommand::Pin { name, scope, off } => changed_entry(
            v,
            text::view_of(scope),
            name@,
            Some(!off),
        ),
        MemoryCommand::Pending => StepView::Say(
            if files.len() == 0 {
                seq!["No pending memory writes."@]
            } else {
                pending_ids(order::sorted(files))
            },
        ),
        MemoryCommand::Approve { id } => approval_of(recovery::ulid_shown(id@)),
    }
}

fn list_command(scope: &Option<String>, v: &Vec<MemoryEntry>) -> (out: MemoryStep)
    ensures
        forall|events: Seq<(Seq<char>, Seq<char>, Seq<char>)>, files: Seq<Seq<char>>|
            out@ == #[trigger] step_of(
                MemoryCommand::List { scope: *scope },
                entries(v@),
                events,
                files,
            ),
{
    let chosen: Option<Scope> = match scope {
        None => None,
        Some(_) => match memory_scope(scope) {
            Ok(s) => Some(s),
            Err(e) => {
                return MemoryStep::Fail(e);
            },
        },
    };
    let lines = list_entries(v, chosen);
    assert(text::views(lines@).len() == lines@.len());
    if lines.len() == 0 {
        MemoryStep::Say(one_line("No memories found."))
    } else {
        MemoryStep::Say(lines)
    }
}

fn change_command(
    v: &Vec<MemoryEntry>,
    scope: &Option<String>,
    name: &str,
    pin: Option<bool>,
) -> (out: MemoryStep)
    ensures
        out@ == changed_entry(entries(v@), text::view_of(*scope), name@, pin),
{
    let s = match memory_scope(scope) {
        Ok(s) => s,
        Err(e) => {
            return MemoryStep::Fail(e);
        },
    };
    if find_entry(v, s, name).is_none() {
        return MemoryStep::Fail(not_found(name, Some(scope_name(s))));
    }
    match pin {
        None => MemoryStep::Record(
            MemoryOp::Forget(s, name.to_owned()),
            cat3("Forgot '", name, "'."),
        ),
        Some(pinned) => {
            let word = if pinned {
                "Pinned"
            } else {
                "Unpinned"
            };
            let mut line = cat3(word, " '", name);
            line.append("'.");
            MemoryStep::Record(MemoryOp::Pin(s, name.to_owned(), pinned), line)
        },
    }
}

/// What a command comes to. `remembered` are the entries that there are, `events` those of
/// the log, and `files` those in the directory of the changes that wait.
pub fn memory_command(
    command: &MemoryCommand,
    remembered: &Vec<MemoryEntry>,
    events: &Vec<TracedEvent>,
    files: &Vec<String>,
) -> (out: MemoryStep)
    ensures
        out@ == step_of(*command, entries(remembered@), traces(events@), text::views(files@)),
{
    match command {
        MemoryCommand::List { scope } => list_command(scope, remembered),
        MemoryCommand::Show { name, scope } => match find_memory(
            remembered,
            scope,
            name.as_str(),
        ) {
            Ok(Some(i)) => {
                assert(entries(remembered@)[i as int] == remembered@[i as int]@);
                MemoryStep::Say(account(&remembered[i], events))
            },
            Ok(None) => MemoryStep::Fail(not_found(name.as_str(), None)),
            Err(e) => MemoryStep::Fail(e),
        },
        MemoryCommand::Search { query } => match search_query(query) {
            Ok(q) => MemoryStep::Search(q, SEARCH_LIMIT),
            Err(e) => MemoryStep::Fail(e),
        },
        MemoryCommand::Edit { name, scope } => match find_memory(
            remembered,
            scope,
            name.as_str(),
        ) {
            Ok(Some(i)) => {
                assert(entries(remembered@)[i as int] == remembered@[i as int]@);
                MemoryStep::Edit(remembered[i].copy())
            },
            Ok(None) => MemoryStep::Fail(not_found(name.as_str(), None)),
            Err(e) => MemoryStep::Fail(e),
        },
        MemoryCommand::Forget { name, scope } => change_command(
            remembered,
            scope,
            name.as_str(),
            None,
        ),
        MemoryCommand::Pin { name, scope, off } => change_command(
            remembered,
            scope,
            name.as_str(),
            Some(!*off),
        ),
        MemoryCommand::Pending => {
            assert(text::views(files@).len() == files@.len());
            if files.len() == 0 {
                MemoryStep::Say(one_line("No pending memory writes."))
            } else {
                MemoryStep::Say(list_pending(&sort_texts(files)))
            }
        },
        MemoryCommand::Approve { id } => approval(&read_ulid(id.as_str())),
    }
}

/// The lines about the entries that a search found.
pub open spec fn found_lines(v: Seq<EntryView>) -> Seq<Seq<char>> {
    v.map_values(
        |e: EntryView|
            e.name + "  ["@ + scope_word(e.scope) + " · "@ + e.trust + "]  "@ + e.description
                + "\n  "@ + text::replaced(e.claim, "\n"@, " "@),
    )
}

/// The lines about the entries that a search found.
pub fn show_found(v: &Vec<MemoryEntry>) -> (out: Vec<String>)
    ensures
        text::views(out@) == found_lines(entries(v@)),
{
    let mut out: Vec<String> = Vec::new();
    let mut i: usize = 0;
    while i < v.len()
        invariant
            i <= v@.len(),
            out@.len() == i,
            forall|j: int|
                0 <= j < i ==> (#[trigger] out@[j])@ == found_lines(entries(v@))[j],
        decreases v@.len() - i,
    {
        let e = &v[i];
        assert(entries(v@)[i as int] == e@);
        out.push(
            found_line(
                e.name.as_str(),
                scope_name(e.scope),
                e.trust.as_str(),
                e.description.as_str(),
                e.claim.as_str(),
            ),
        );
        i = i + 1;
    }
    assert(text::views(out@) =~= found_lines(entries(v@)));
    out
}

/// The message that is kept as the reason of an edit.
pub fn edit_evidence(name: &str) -> (out: String)
    ensures
        out@ == "CLI memory edit: "@ + name@,
{
    cat2("CLI memory edit: ", name)
}

/// An entry after the user edited its claim: it is now what the user says, rests on one
/// more event and was told in one more session.
pub open spec fn edited_entry(
    e: EntryView,
    claim: Seq<char>,
    trust: Seq<char>,
    confidence: Seq<char>,
    evidence: Seq<char>,
    session: Seq<char>,
) -> EntryView {
    EntryView {
        claim: text::trim_end(claim),
        trust,
        confidence,
        provenance: e.provenance.push(evidence),
        sessions: e.sessions.push(session),
        version: (e.version + 1) as u64,
        age: 0,
        ..e
    }
}

/// What an edit comes to. `trust` and `confidence` are the words for what the user says.
pub fn finish_edit(
    entry: MemoryEntry,
    claim: &str,
    trust: &str,
    confidence: &str,
    evidence: &str,
    session: &str,
) -> (out: MemoryStep)
    requires
        entry.version < u64::MAX,
    ensures
        out@ == if text::trim(claim@).len() == 0 {
            StepView::Fail("edited memory claim is empty"@)
        } else {
            StepView::Record(
                OpView::Update(
                    edited_entry(
                        entry@,
                        claim@,
                        trust@,
                        confidence@,
                        evidence@,
                        session@,
                    ),
                ),
                "Updated '"@ + entry.name@ + "' through the event log."@,
            )
        },
{
    let text = match edited_claim(claim) {
        Ok(c) => c,
        Err(e) => {
            return MemoryStep::Fail(e);
        },
    };
    let line = cat3("Updated '", entry.name.as_str(), "' through the event log.");
    let ghost was = entry@;
    let mut entry = entry;
    entry.claim = text;
    entry.trust = trust.to_owned();
    entry.confidence = confidence.to_owned();
    entry.provenance.push(evidence.to_owned());
    entry.sessions.push(session.to_owned());
    entry.version = entry.version + 1;
    entry.age = 0;
    proof {
        assert(text::views(entry.provenance@) =~= was.provenance.push(evidence@));
        assert(text::views(entry.sessions@) =~= was.sessions.push(session@));
        assert(entry@ =~= edited_entry(was, claim@, trust@, confidence@, evidence@, session@));
    }
    MemoryStep::Record(MemoryOp::Update(entry), line)
}

/// A command changes at most the entry that it names: whatever is recorded at once is
/// about an entry that there is, in the scope that was asked for.
pub proof fn law_only_known_entries_change(
    command: MemoryCommand,
    v: Seq<EntryView>,
    events: Seq<(Seq<char>, Seq<char>, Seq<char>)>,
    files: Seq<Seq<char>>,
)
    ensures
        step_of(command, v, events, files) matches StepView::Record(op, _) ==> match op {
            OpView::Forget(s, n) => entry_at(v, s, n, 0) is Some,
            OpView::Pin(s, n, _) => entry_at(v, s, n, 0) is Some,
            OpView::Update(_) => false,
        },
{
}

} // verus!

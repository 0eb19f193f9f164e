//! What a session's events tell of its child agents: which are open, which have reported
//! and what of that is still to be handed on.

use vstd::prelude::*;
use vstd::string::*;
use crate::json::{Json, JsonView};
use crate::json_text;
use crate::json_text::render;
use crate::text;
use crate::text::{cat2, cat3, cat5, chars_of, same};

verus! {

#[derive(Debug, Clone, Copy, PartialEq, Eq, Structural)]
pub enum EventKind {
    UserMessage,
    ModelText,
    ModelIntent,
    ToolObs,
    AgentSpawned,
    AgentCompleted,
    AgentFailed,
    AgentCancelled,
    AgentDelivered,
    AgentPatch,
    AgentApplied,
    Other,
}

impl EventKind {
    /// The child has come to an end.
    pub open spec fn terminal(self) -> bool {
        self is AgentCompleted || self is AgentFailed || self is AgentCancelled
    }

    pub fn is_terminal(self) -> (yes: bool)
        ensures
            yes == self.terminal(),
    {
        match self {
            EventKind::AgentCompleted | EventKind::AgentFailed | EventKind::AgentCancelled => true,
            _ => false,
        }
    }
}

/// One event of a session.
pub struct Event {
    pub kind: EventKind,
    pub payload: Json,
}

/// What an [`Event`] holds.
#[verifier::ext_equal]
pub ghost struct EventView {
    pub kind: EventKind,
    pub payload: JsonView,
}

impl View for Event {
    type V = EventView;

    open spec fn view(&self) -> EventView {
        EventView { kind: self.kind, payload: self.payload@ }
    }
}

/// What the events hold.
pub open spec fn listed(v: Seq<Event>) -> Seq<EventView> {
    v.map_values(|e: Event| e@)
}

impl EventView {
    /// A text of the payload that is not empty.
    pub open spec fn field(self, key: Seq<char>) -> Option<Seq<char>> {
        match self.payload.field(key) {
            Some(JsonView::Text(s)) => if s.len() > 0 {
                Some(s)
            } else {
                None
            },
            _ => None,
        }
    }

    /// The handout that an event belongs to: its dispatch, or the child where there is
    /// none.
    pub open spec fn handout(self) -> Seq<char> {
        match self.field("dispatch"@) {
            Some(d) => d,
            None => match self.field("child"@) {
                Some(c) => c,
                None => seq![],
            },
        }
    }

    /// A text of the payload, or another one.
    pub open spec fn text_or(self, key: Seq<char>, other: Seq<char>) -> Seq<char> {
        match self.payload.text_at(key) {
            Some(s) => s,
            None => other,
        }
    }
}

/// A text of the payload that is not empty.
pub fn field(event: &Event, key: &str) -> (out: Option<String>)
    ensures
        text::view_of(out) == event@.field(key@),
{
    match event.payload.field(key) {
        Some(v) => match v.text() {
            Some(s) => if chars_of(s.as_str()).len() > 0 {
                Some(s.clone())
            } else {
                None
            },
            None => None,
        },
        None => None,
    }
}

/// The handout that an event belongs to.
pub fn handout(event: &Event) -> (out: String)
    ensures
        out@ == event@.handout(),
{
    match field(event, "dispatch") {
        Some(d) => d,
        None => match field(event, "child") {
            Some(c) => c,
            None => {
                let nothing = String::new();
                assert(nothing@ =~= seq![]);
                nothing
            },
        },
    }
}

/// A text of the payload, or another one.
pub fn text_or(event: &Event, key: &str, other: &str) -> (out: String)
    ensures
        out@ == event@.text_or(key@, other@),
{
    match event.payload.text_at(key) {
        Some(s) => s.clone(),
        None => other.to_owned(),
    }
}

/// A message of the user is among the events.
pub open spec fn asked(v: Seq<EventView>) -> bool {
    exists|i: int| 0 <= i < v.len() && (#[trigger] v[i]).kind is UserMessage
}

/// The line that an event gives in a transcript. The first message is the objective,
/// later ones are corrections.
pub open spec fn line_of(e: EventView, seen: bool) -> Option<Seq<char>> {
    match e.kind {
        EventKind::UserMessage => Some(
            (if seen {
                "steer"@
            } else {
                "objective"@
            }) + ": "@ + e.text_or("text"@, ""@),
        ),
        EventKind::ModelText => Some("said: "@ + e.text_or("text"@, ""@)),
        EventKind::ModelIntent => Some(
            "called "@ + e.text_or("tool"@, "?"@) + "("@ + json_text::rendered(
                e.payload.get("args"@),
            ) + ")"@,
        ),
        EventKind::ToolObs => Some("  → "@ + e.text_or("status"@, "ok"@)),
        _ => None,
    }
}

/// The lines of a transcript.
pub open spec fn lines_of(v: Seq<EventView>) -> Seq<Seq<char>>
    decreases v.len(),
{
    if v.len() == 0 {
        seq![]
    } else {
        let head = lines_of(v.drop_last());
        match line_of(v.last(), asked(v.drop_last())) {
            Some(l) => head.push(l),
            None => head,
        }
    }
}

fn show_event(event: &Event, seen: bool) -> (out: Option<String>)
    ensures
        text::view_of(out) == line_of(event@, seen),
{
    match event.kind {
        EventKind::UserMessage => {
            let said = text_or(event, "text", "");
            Some(
                cat3(
                    if seen {
                        "steer"
                    } else {
                        "objective"
                    },
                    ": ",
                    said.as_str(),
                ),
            )
        },
        EventKind::ModelText => {
            let said = text_or(event, "text", "");
            Some(cat2("said: ", said.as_str()))
        },
        EventKind::ModelIntent => {
            let tool = text_or(event, "tool", "?");
            let args = match event.payload.field("args") {
                Some(v) => render(v),
                None => render(&Json::Null),
            };
            Some(cat5("called ", tool.as_str(), "(", args.as_str(), ")"))
        },
        EventKind::ToolObs => {
            let status = text_or(event, "status", "ok");
            Some(cat2("  → ", status.as_str()))
        },
        _ => None,
    }
}

/// The transcript of a child.
pub fn transcript(events: &Vec<Event>) -> (out: Vec<String>)
    ensures
        text::views(out@) == lines_of(listed(events@)),
{
    let ghost all = listed(events@);
    let mut out: Vec<String> = Vec::new();
    let mut seen = false;
    let mut i: usize = 0;
    assert(text::views(out@) =~= lines_of(all.take(0)));
    while i < events.len()
        invariant
            i <= events@.len(),
            all == listed(events@),
            seen == asked(all.take(i as int)),
            text::views(out@) == lines_of(all.take(i as int)),
        decreases events@.len() - i,
    {
        assert(all.take(i + 1).drop_last() =~= all.take(i as int));
        assert(all.take(i + 1).last() == events@[i as int]@);
        let ghost was = out@;
        match show_event(&events[i], seen) {
            Some(l) => {
                out.push(l);
                assert(text::views(out@) =~= text::views(was).push(l@));
            },
            None => {},
        }
        proof {
            let (head, whole) = (all.take(i as int), all.take(i + 1));
            if asked(head) {
                let k = choose|k: int| 0 <= k < head.len() && (#[trigger] head[k]).kind is UserMessage;
                assert(whole[k] == head[k]);
            }
            if whole.last().kind is UserMessage {
                assert(whole[i as int].kind is UserMessage);
            }
            if asked(whole) {
                let k = choose|k: int| 0 <= k < whole.len() && (#[trigger] whole[k]).kind is UserMessage;
                if k < i {
                    assert(head[k] == whole[k]);
                }
            }
        }
        match events[i].kind {
            EventKind::UserMessage => {
                seen = true;
            },
            _ => {},
        }
        i = i + 1;
    }
    assert(all.take(i as int) =~= all);
    out
}

/// A patch that waits to be applied.
pub struct Pending {
    pub agent: String,
    pub session: String,
    pub dispatch: String,
    pub patch: Json,
}

/// What a [`Pending`] holds.
#[verifier::ext_equal]
pub ghost struct PendingView {
    pub agent: Seq<char>,
    pub session: Seq<char>,
    pub dispatch: Seq<char>,
    pub patch: JsonView,
}

impl View for Pending {
    type V = PendingView;

    open spec fn view(&self) -> PendingView {
        PendingView {
            agent: self.agent@,
            session: self.session@,
            dispatch: self.dispatch@,
            patch: self.patch@,
        }
    }
}

/// What the patches hold.
pub open spec fn pending(v: Seq<Pending>) -> Seq<PendingView> {
    v.map_values(|p: Pending| p@)
}

/// The handouts of some of the events.
pub open spec fn handouts(v: Seq<EventView>, some: spec_fn(EventView) -> bool) -> Seq<Seq<char>>
    decreases v.len(),
{
    if v.len() == 0 {
        seq![]
    } else {
        let head = handouts(v.drop_last(), some);
        if some(v.last()) {
            head.push(v.last().handout())
        } else {
            head
        }
    }
}

/// The patches of the events, as far as they could be read.
pub open spec fn patches(v: Seq<EventView>, readable: Seq<bool>) -> Seq<PendingView>
    decreases v.len(),
{
    if v.len() == 0 || readable.len() != v.len() {
        seq![]
    } else {
        let head = patches(v.drop_last(), readable.drop_last());
        let e = v.last();
        match (e.kind, e.payload.field("patch"@)) {
            (EventKind::AgentPatch, Some(p)) => if readable.last() {
                head.push(
                    PendingView {
                        agent: match e.field("agent"@) {
                            Some(a) => a,
                            None => "agent"@,
                        },
                        session: match e.field("child"@) {
                            Some(c) => c,
                            None => seq![],
                        },
                        dispatch: e.handout(),
                        patch: p,
                    },
                )
            } else {
                head
            },
            _ => head,
        }
    }
}

/// A patch was applied.
pub open spec fn applies() -> spec_fn(EventView) -> bool {
    |e: EventView| e.kind is AgentApplied
}

/// The patches whose handout is not among these.
pub open spec fn not_among(v: Seq<PendingView>, done: Seq<Seq<char>>) -> Seq<PendingView>
    decreases v.len(),
{
    if v.len() == 0 {
        seq![]
    } else {
        let head = not_among(v.drop_last(), done);
        if done.contains(v.last().dispatch) {
            head
        } else {
            head.push(v.last())
        }
    }
}

/// The patches that were recorded and not yet applied.
pub open spec fn waiting_patches(v: Seq<EventView>, readable: Seq<bool>) -> Seq<PendingView> {
    not_among(patches(v, readable), handouts(v, applies()))
}

/// A text is among these.
pub fn among(v: &Vec<String>, x: &str) -> (yes: bool)
    ensures
        yes == text::views(v@).contains(x@),
{
    let mut i: usize = 0;
    while i < v.len()
        invariant
            i <= v@.len(),
            forall|j: int| 0 <= j < i ==> (#[trigger] text::views(v@)[j]) != x@,
        decreases v@.len() - i,
    {
        assert(text::views(v@)[i as int] == v@[i as int]@);
        if same(v[i].as_str(), x) {
            return true;
        }
        i = i + 1;
    }
    false
}

fn applied_handouts(events: &Vec<Event>) -> (out: Vec<String>)
    ensures
        text::views(out@) == handouts(listed(events@), applies()),
{
    let ghost all = listed(events@);
    let mut out: Vec<String> = Vec::new();
    let mut i: usize = 0;
    assert(text::views(out@) =~= handouts(all.take(0), applies()));
    while i < events.len()
        invariant
            i <= events@.len(),
            all == listed(events@),
            text::views(out@) == handouts(all.take(i as int), applies()),
        decreases events@.len() - i,
    {
        assert(all.take(i + 1).drop_last() =~= all.take(i as int));
        assert(all.take(i + 1).last() == events@[i as int]@);
        match events[i].kind {
            EventKind::AgentApplied => {
                let ghost was = out@;
                let h = handout(&events[i]);
                out.push(h);
                assert(text::views(out@) =~= text::views(was).push(h@));
            },
            _ => {},
        }
        i = i + 1;
    }
    assert(all.take(i as int) =~= all);
    out
}

fn recorded_patches(events: &Vec<Event>, readable: &Vec<bool>) -> (out: Vec<Pending>)
    requires
        readable@.len() == events@.len(),
    ensures
        pending(out@) == patches(listed(events@), readable@),
{
    let ghost all = listed(events@);
    let mut out: Vec<Pending> = Vec::new();
    let mut i: usize = 0;
    assert(pending(out@) =~= patches(all.take(0), readable@.take(0)));
    while i < events.len()
        invariant
            i <= events@.len(),
            readable@.len() == events@.len(),
            all == listed(events@),
            pending(out@) == patches(all.take(i as int), readable@.take(i as int)),
        decreases events@.len() - i,
    {
        assert(all.take(i + 1).drop_last() =~= all.take(i as int));
        assert(readable@.take(i + 1).drop_last() =~= readable@.take(i as int));
        assert(all.take(i + 1).last() == events@[i as int]@);
        let ghost was = out@;
        match (events[i].kind, events[i].payload.field("patch")) {
            (EventKind::AgentPatch, Some(p)) => {
                if readable[i] {
                    let one = Pending {
                        agent: match field(&events[i], "agent") {
                            Some(a) => a,
                            None => "agent".to_owned(),
                        },
                        session: match field(&events[i], "child") {
                            Some(c) => c,
                            None => {
                                let nothing = String::new();
                                assert(nothing@ =~= seq![]);
                                nothing
                            },
                        },
                        dispatch: handout(&events[i]),
                        patch: p.copy(),
                    };
                    out.push(one);
                    assert(pending(out@) =~= pending(was).push(one@));
                }
            },
            _ => {},
        }
        i = i + 1;
    }
    assert(all.take(i as int) =~= all);
    assert(readable@.take(i as int) =~= readable@);
    out
}

/// The patches that were recorded and not yet applied. `readable` tells of each event
/// whether the patch in it could be read.
pub fn unapplied(events: &Vec<Event>, readable: &Vec<bool>) -> (out: Vec<Pending>)
    requires
        readable@.len() == events@.len(),
    ensures
        pending(out@) == waiting_patches(listed(events@), readable@),
{
    let recorded = recorded_patches(events, readable);
    let done = applied_handouts(events);
    let ghost all = pending(recorded@);
    let ghost gone = text::views(done@);
    let mut out: Vec<Pending> = Vec::new();
    let mut i: usize = 0;
    assert(pending(out@) =~= not_among(all.take(0), gone));
    while i < recorded.len()
        invariant
            i <= recorded@.len(),
            all == pending(recorded@),
            gone == text::views(done@),
            pending(out@) == not_among(all.take(i as int), gone),
        decreases recorded@.len() - i,
    {
        assert(all.take(i + 1).drop_last() =~= all.take(i as int));
        assert(all.take(i + 1).last() == recorded@[i as int]@);
        if !among(&done, recorded[i].dispatch.as_str()) {
            let ghost was = out@;
            let one = Pending {
                agent: recorded[i].agent.clone(),
                session: recorded[i].session.clone(),
                dispatch: recorded[i].dispatch.clone(),
                patch: recorded[i].patch.copy(),
            };
            out.push(one);
            assert(one@ =~= recorded@[i as int]@);
            assert(pending(out@) =~= pending(was).push(one@));
        }
        i = i + 1;
    }
    assert(all.take(i as int) =~= all);
    out
}

} // verus!

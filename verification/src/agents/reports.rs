//! The reports of child agents, and which of them are still to be handed on.

use vstd::prelude::*;
use vstd::string::*;
use crate::agents::outbox;
use crate::agents::outbox::{among, handout, Event, EventKind, EventView};
use crate::json;
use crate::json::{Json, JsonView};
use crate::order;
use crate::order::comes_before;
use crate::ranking;
use crate::ranking::{sort, Ranked};
use crate::text;
use crate::text::same;

verus! {

#[derive(Debug, Clone, Copy, PartialEq, Eq, Structural)]
pub enum AgentStatus {
    Completed,
    Exhausted,
    Cancelled,
    Failed,
}

impl AgentStatus {
    /// The event that records an end of this kind.
    pub open spec fn kind(self) -> EventKind {
        match self {
            AgentStatus::Cancelled => EventKind::AgentCancelled,
            AgentStatus::Failed => EventKind::AgentFailed,
            _ => EventKind::AgentCompleted,
        }
    }

    /// The event that records an end of this kind.
    pub fn event_kind(self) -> (out: EventKind)
        ensures
            out == self.kind(),
            out.terminal(),
    {
        match self {
            AgentStatus::Cancelled => EventKind::AgentCancelled,
            AgentStatus::Failed => EventKind::AgentFailed,
            _ => EventKind::AgentCompleted,
        }
    }
}

/// How far what a child says can be trusted.
pub enum TrustLabel {
    Tool,
    Other(String),
}

impl TrustLabel {
    pub open spec fn name(self) -> Option<Seq<char>> {
        match self {
            TrustLabel::Tool => None,
            TrustLabel::Other(s) => Some(s@),
        }
    }

    pub fn copy(&self) -> (out: TrustLabel)
        ensures
            out.name() == self.name(),
    {
        match self {
            TrustLabel::Tool => TrustLabel::Tool,
            TrustLabel::Other(s) => TrustLabel::Other(s.clone()),
        }
    }
}

/// The report of a child.
pub struct AgentResult {
    pub agent: String,
    pub session: String,
    pub dispatch: String,
    pub status: AgentStatus,
    pub summary: String,
    pub artifact: Option<String>,
    pub turns: u32,
    pub tool_calls: u32,
    pub duration_ms: u64,
    pub trust: TrustLabel,
    pub patch: Option<Json>,
}

/// What an [`AgentResult`] holds.
#[verifier::ext_equal]
pub ghost struct ResultView {
    pub agent: Seq<char>,
    pub session: Seq<char>,
    pub dispatch: Seq<char>,
    pub status: AgentStatus,
    pub summary: Seq<char>,
    pub artifact: Option<Seq<char>>,
    pub turns: u32,
    pub tool_calls: u32,
    pub duration_ms: u64,
    pub trust: Option<Seq<char>>,
    pub patch: Option<JsonView>,
}

/// What a patch holds, where there is one.
pub open spec fn patch_view(p: Option<Json>) -> Option<JsonView> {
    match p {
        Some(p) => Some(p@),
        None => None,
    }
}

impl View for AgentResult {
    type V = ResultView;

    open spec fn view(&self) -> ResultView {
        ResultView {
            agent: self.agent@,
            session: self.session@,
            dispatch: self.dispatch@,
            status: self.status,
            summary: self.summary@,
            artifact: text::view_of(self.artifact),
            turns: self.turns,
            tool_calls: self.tool_calls,
            duration_ms: self.duration_ms,
            trust: self.trust.name(),
            patch: patch_view(self.patch),
        }
    }
}

/// What the reports hold.
pub open spec fn listed(v: Seq<AgentResult>) -> Seq<ResultView> {
    v.map_values(|r: AgentResult| r@)
}

impl AgentResult {
    pub fn copy(&self) -> (out: AgentResult)
        ensures
            out@ == self@,
    {
        let out = AgentResult {
            agent: self.agent.clone(),
            session: self.session.clone(),
            dispatch: self.dispatch.clone(),
            status: self.status,
            summary: self.summary.clone(),
            artifact: match &self.artifact {
                Some(a) => Some(a.clone()),
                None => None,
            },
            turns: self.turns,
            tool_calls: self.tool_calls,
            duration_ms: self.duration_ms,
            trust: self.trust.copy(),
            patch: match &self.patch {
                Some(p) => Some(p.copy()),
                None => None,
            },
        };
        assert(out@ =~= self@);
        out
    }
}

/// Reports rank by their handout.
impl Ranked for AgentResult {
    open spec fn under(&self, other: &Self) -> bool {
        order::before(self.dispatch@, other.dispatch@)
    }

    open spec fn alike(&self, other: &Self) -> bool {
        self.dispatch@ == other.dispatch@
    }

    fn is_under(&self, other: &Self) -> (yes: bool) {
        comes_before(self.dispatch.as_str(), other.dispatch.as_str())
    }

    fn is_alike(&self, other: &Self) -> (yes: bool) {
        same(self.dispatch.as_str(), other.dispatch.as_str())
    }

    proof fn reflexive(a: Self) {
    }

    proof fn asymmetric(a: Self, b: Self) {
        order::lemma_before_total(a.dispatch@, b.dispatch@);
    }

    proof fn transitive(a: Self, b: Self, c: Self) {
        let (x, y, z) = (a.dispatch@, b.dispatch@, c.dispatch@);
        order::lemma_before_total(x, y);
        order::lemma_before_total(y, z);
        order::lemma_before_total(x, z);
        if order::before(x, y) && order::before(y, z) {
            order::lemma_before_transitive(x, y, z);
        }
        if order::before(z, x) && order::before(x, y) {
            order::lemma_before_transitive(z, x, y);
        }
    }
}

/// Sorted reports with `x` after those whose handout does not come later.
pub open spec fn placed(s: Seq<ResultView>, x: ResultView) -> Seq<ResultView>
    decreases s.len(),
{
    if s.len() > 0 && order::before(x.dispatch, s.last().dispatch) {
        placed(s.drop_last(), x).push(s.last())
    } else {
        s.push(x)
    }
}

/// The reports by their handouts; those of one handout keep their order.
pub open spec fn by_handout(s: Seq<ResultView>) -> Seq<ResultView>
    decreases s.len(),
{
    if s.len() == 0 {
        seq![]
    } else {
        placed(by_handout(s.drop_last()), s.last())
    }
}

proof fn lemma_placed(s: Seq<AgentResult>, x: AgentResult)
    ensures
        listed(ranking::placed(s, x)) == placed(listed(s), x@),
    decreases s.len(),
{
    if s.len() > 0 && x.under(&s.last()) {
        lemma_placed(s.drop_last(), x);
        assert(listed(s.drop_last()) =~= listed(s).drop_last());
        assert(listed(ranking::placed(s, x)) =~= listed(ranking::placed(s.drop_last(), x)).push(
            s.last()@,
        ));
    } else {
        assert(listed(s.push(x)) =~= listed(s).push(x@));
    }
}

proof fn lemma_by_handout(s: Seq<AgentResult>)
    ensures
        listed(ranking::ranked(s)) == by_handout(listed(s)),
    decreases s.len(),
{
    if s.len() > 0 {
        lemma_by_handout(s.drop_last());
        lemma_placed(ranking::ranked(s.drop_last()), s.last());
        assert(listed(s.drop_last()) =~= listed(s).drop_last());
    } else {
        assert(listed(ranking::ranked(s)) =~= seq![]);
    }
}

/// What each event reads as, where it reads as a report.
pub open spec fn read(v: Seq<Option<AgentResult>>) -> Seq<Option<ResultView>> {
    v.map_values(
        |r: Option<AgentResult>|
            match r {
                Some(x) => Some(x@),
                None => None,
            },
    )
}

/// The reports of the events, each under the handout of its event.
pub open spec fn reported(v: Seq<EventView>, reports: Seq<Option<ResultView>>) -> Seq<ResultView>
    decreases v.len(),
{
    if v.len() == 0 || reports.len() != v.len() {
        seq![]
    } else {
        let head = reported(v.drop_last(), reports.drop_last());
        match reports.last() {
            Some(r) => if v.last().kind.terminal() {
                head.push(ResultView { dispatch: v.last().handout(), ..r })
            } else {
                head
            },
            None => head,
        }
    }
}

/// The texts in a list of values.
pub open spec fn texts_in(v: Seq<JsonView>) -> Seq<Seq<char>>
    decreases v.len(),
{
    if v.len() == 0 {
        seq![]
    } else {
        let head = texts_in(v.drop_last());
        match v.last().text() {
            Some(s) => head.push(s),
            None => head,
        }
    }
}

/// The handouts that an event tells were handed on: its own, or those that an
/// observation acknowledges under `acks`.
pub open spec fn handed_on_by(e: EventView, acks: Seq<char>) -> Seq<Seq<char>> {
    match e.kind {
        EventKind::AgentDelivered => seq![e.handout()],
        EventKind::ToolObs => texts_in(e.payload.get("payload"@).get(acks).items()),
        _ => seq![],
    }
}

/// The handouts that were handed on.
pub open spec fn handed_on(v: Seq<EventView>, acks: Seq<char>) -> Seq<Seq<char>>
    decreases v.len(),
{
    if v.len() == 0 {
        seq![]
    } else {
        handed_on(v.drop_last(), acks) + handed_on_by(v.last(), acks)
    }
}

/// The reports whose handout is not among these.
pub open spec fn not_among(v: Seq<ResultView>, done: Seq<Seq<char>>) -> Seq<ResultView>
    decreases v.len(),
{
    if v.len() == 0 {
        seq![]
    } else {
        let head = not_among(v.drop_last(), done);
        if done.contains(v.last().dispatch) {
            head
        } else {
            head.push(v.last())
        }
    }
}

/// The reports that were not handed on, by their handouts.
pub open spec fn waiting(
    v: Seq<EventView>,
    reports: Seq<Option<ResultView>>,
    acks: Seq<char>,
) -> Seq<ResultView> {
    not_among(by_handout(reported(v, reports)), handed_on(v, acks))
}

fn add_texts(list: &Vec<Json>, out: &mut Vec<String>)
    ensures
        text::views(final(out)@) == text::views(old(out)@) + texts_in(json::values(list@)),
{
    let ghost was = text::views(out@);
    let ghost all = json::values(list@);
    let mut i: usize = 0;
    assert(text::views(out@) =~= was + texts_in(all.take(0)));
    while i < list.len()
        invariant
            i <= list@.len(),
            all == json::values(list@),
            text::views(out@) == was + texts_in(all.take(i as int)),
        decreases list@.len() - i,
    {
        assert(all.take(i + 1).drop_last() =~= all.take(i as int));
        assert(all.take(i + 1).last() == list@[i as int]@);
        match list[i].text() {
            Some(s) => {
                let ghost before = out@;
                out.push(s.clone());
                assert(text::views(out@) =~= text::views(before).push(s@));
            },
            None => {},
        }
        i = i + 1;
        assert(text::views(out@) =~= was + texts_in(all.take(i as int)));
    }
    assert(all.take(i as int) =~= all);
}

fn add_handed_on(event: &Event, acks: &str, out: &mut Vec<String>)
    ensures
        text::views(final(out)@) == text::views(old(out)@) + handed_on_by(event@, acks@),
{
    let ghost was = out@;
    match event.kind {
        EventKind::AgentDelivered => {
            let h = handout(event);
            out.push(h);
            assert(text::views(out@) =~= text::views(was) + seq![h@]);
        },
        EventKind::ToolObs => {
            match event.payload.field("payload") {
                Some(p) => match p.field(acks) {
                    Some(a) => match a.list() {
                        Some(l) => {
                            add_texts(l, out);
                        },
                        None => {},
                    },
                    None => {},
                },
                None => {},
            }
            assert(text::views(out@) =~= text::views(was) + handed_on_by(event@, acks@));
        },
        _ => {
            assert(text::views(out@) =~= text::views(was) + seq![]);
        },
    }
}

fn all_handed_on(events: &Vec<Event>, acks: &str) -> (out: Vec<String>)
    ensures
        text::views(out@) == handed_on(outbox::listed(events@), acks@),
{
    let ghost all = outbox::listed(events@);
    let mut out: Vec<String> = Vec::new();
    let mut i: usize = 0;
    assert(text::views(out@) =~= handed_on(all.take(0), acks@));
    while i < events.len()
        invariant
            i <= events@.len(),
            all == outbox::listed(events@),
            text::views(out@) == handed_on(all.take(i as int), acks@),
        decreases events@.len() - i,
    {
        assert(all.take(i + 1).drop_last() =~= all.take(i as int));
        assert(all.take(i + 1).last() == events@[i as int]@);
        add_handed_on(&events[i], acks, &mut out);
        i = i + 1;
    }
    assert(all.take(i as int) =~= all);
    out
}

fn all_reported(events: &Vec<Event>, reports: &Vec<Option<AgentResult>>) -> (out: Vec<AgentResult>)
    requires
        reports@.len() == events@.len(),
    ensures
        listed(out@) == reported(outbox::listed(events@), read(reports@)),
{
    let ghost all = outbox::listed(events@);
    let ghost r = read(reports@);
    let mut out: Vec<AgentResult> = Vec::new();
    let mut i: usize = 0;
    assert(listed(out@) =~= reported(all.take(0), r.take(0)));
    while i < events.len()
        invariant
            i <= events@.len(),
            reports@.len() == events@.len(),
            all == outbox::listed(events@),
            r == read(reports@),
            listed(out@) == reported(all.take(i as int), r.take(i as int)),
        decreases events@.len() - i,
    {
        assert(all.take(i + 1).drop_last() =~= all.take(i as int));
        assert(r.take(i + 1).drop_last() =~= r.take(i as int));
        assert(all.take(i + 1).last() == events@[i as int]@);
        let ghost was = out@;
        match &reports[i] {
            Some(x) => if events[i].kind.is_terminal() {
                let mut one = x.copy();
                one.dispatch = handout(&events[i]);
                assert(one@ =~= (ResultView { dispatch: events@[i as int]@.handout(), ..x@ }));
                out.push(one);
                assert(listed(out@) =~= listed(was).push(one@));
            },
            None => {},
        }
        i = i + 1;
    }
    assert(all.take(i as int) =~= all);
    assert(r.take(i as int) =~= r);
    out
}

/// The reports that were not handed on, by their handouts. `reports` tells what each event
/// reads as, `acks` where an observation acknowledges reports.
pub fn undelivered(
    events: &Vec<Event>,
    reports: &Vec<Option<AgentResult>>,
    acks: &str,
) -> (out: Vec<AgentResult>)
    requires
        reports@.len() == events@.len(),
    ensures
        listed(out@) == waiting(outbox::listed(events@), read(reports@), acks@),
{
    let ready = all_reported(events, reports);
    let done = all_handed_on(events, acks);
    proof {
        lemma_by_handout(ready@);
    }
    let ready = sort(ready);
    let ghost all = listed(ready@);
    let ghost gone = text::views(done@);
    let mut out: Vec<AgentResult> = Vec::new();
    let mut i: usize = 0;
    assert(listed(out@) =~= not_among(all.take(0), gone));
    while i < ready.len()
        invariant
            i <= ready@.len(),
            all == listed(ready@),
            gone == text::views(done@),
            listed(out@) == not_among(all.take(i as int), gone),
        decreases ready@.len() - i,
    {
        assert(all.take(i + 1).drop_last() =~= all.take(i as int));
        assert(all.take(i + 1).last() == ready@[i as int]@);
        if !among(&done, ready[i].dispatch.as_str()) {
            let ghost was = out@;
            out.push(ready[i].copy());
            assert(listed(out@) =~= listed(was).push(ready@[i as int]@));
        }
        i = i + 1;
    }
    assert(all.take(i as int) =~= all);
    out
}

proof fn lemma_not_among(v: Seq<ResultView>, done: Seq<Seq<char>>)
    ensures
        forall|i: int|
            0 <= i < not_among(v, done).len() ==> !done.contains(
                (#[trigger] not_among(v, done)[i]).dispatch,
            ),
    decreases v.len(),
{
    if v.len() > 0 {
        lemma_not_among(v.drop_last(), done);
    }
}

/// A report that was handed on is not handed on again: once the events tell so, no report
/// of that handout waits.
pub proof fn law_delivered_once(
    v: Seq<EventView>,
    reports: Seq<Option<ResultView>>,
    acks: Seq<char>,
    note: EventView,
)
    requires
        reports.len() == v.len() + 1,
        note.kind is AgentDelivered,
    ensures
        forall|i: int|
            0 <= i < waiting(v.push(note), reports, acks).len() ==> (#[trigger] waiting(
                v.push(note),
                reports,
                acks,
            )[i]).dispatch != note.handout(),
{
    let whole = v.push(note);
    assert(whole.drop_last() =~= v);
    let done = handed_on(whole, acks);
    assert(done =~= handed_on(v, acks) + seq![note.handout()]);
    assert(done.contains(note.handout())) by {
        assert(done[done.len() - 1] == note.handout());
    }
    lemma_not_among(by_handout(reported(whole, reports)), done);
}

} // verus!

//! Child agents that were left behind by a process that is gone.

use vstd::prelude::*;
use vstd::string::*;
use ulid::Ulid;
use crate::agents::outbox;
use crate::agents::outbox::{among, field, handout, text_or, Event, EventKind, EventView};
use crate::agents::reports::{AgentResult, AgentStatus, ResultView, TrustLabel};
use crate::text;
use crate::text::{cat2, cat5, same};

verus! {

/// The text that [`Ulid`] shows for the id that it reads out of a text.
pub uninterp spec fn ulid_shown(s: Seq<char>) -> Option<Seq<char>>;

/// [`Ulid::from_string`], shown by [`Ulid::to_string`]: the id in its own spelling. None
/// where the text is no id.
#[verifier::external_body]
pub(crate) fn read_ulid(s: &str) -> (out: Option<String>)
    ensures
        text::view_of(out) == ulid_shown(s@),
{
    Ulid::from_string(s).ok().map(|id| id.to_string())
}

/// A child that was sent and has not reported.
pub struct OpenChild {
    pub dispatch: String,
    pub child: String,
    pub agent: String,
    pub objective: String,
    /// The process that sent it.
    pub instance: String,
}

/// What an [`OpenChild`] holds.
#[verifier::ext_equal]
pub ghost struct OpenView {
    pub dispatch: Seq<char>,
    pub child: Seq<char>,
    pub agent: Seq<char>,
    pub objective: Seq<char>,
    pub instance: Seq<char>,
}

impl View for OpenChild {
    type V = OpenView;

    open spec fn view(&self) -> OpenView {
        OpenView {
            dispatch: self.dispatch@,
            child: self.child@,
            agent: self.agent@,
            objective: self.objective@,
            instance: self.instance@,
        }
    }
}

/// What the children hold.
pub open spec fn listed(v: Seq<OpenChild>) -> Seq<OpenView> {
    v.map_values(|c: OpenChild| c@)
}

/// A child that another process sent.
pub open spec fn sent_by_another(e: EventView, own: Seq<char>) -> bool {
    e.kind is AgentSpawned && e.field("child"@) is Some && e.text_or("instance"@, ""@) != own
}

/// The children that other processes sent.
pub open spec fn sent(v: Seq<EventView>, own: Seq<char>) -> Seq<OpenView>
    decreases v.len(),
{
    if v.len() == 0 {
        seq![]
    } else {
        let head = sent(v.drop_last(), own);
        let e = v.last();
        if sent_by_another(e, own) {
            head.push(
                OpenView {
                    dispatch: e.handout(),
                    child: e.field("child"@)->0,
                    agent: e.text_or("agent"@, "agent"@),
                    objective: e.text_or("objective"@, ""@),
                    instance: e.text_or("instance"@, ""@),
                },
            )
        } else {
            head
        }
    }
}

/// A child that is named has come to an end.
pub open spec fn ends_named() -> spec_fn(EventView) -> bool {
    |e: EventView| e.kind.terminal() && e.field("child"@) is Some
}

/// The children whose handout is not among these.
pub open spec fn not_among(v: Seq<OpenView>, done: Seq<Seq<char>>) -> Seq<OpenView>
    decreases v.len(),
{
    if v.len() == 0 {
        seq![]
    } else {
        let head = not_among(v.drop_last(), done);
        if done.contains(v.last().dispatch) {
            head
        } else {
            head.push(v.last())
        }
    }
}

/// The children that other processes sent and that have not reported.
pub open spec fn open_children(v: Seq<EventView>, own: Seq<char>) -> Seq<OpenView> {
    not_among(sent(v, own), outbox::handouts(v, ends_named()))
}

fn ended_named(events: &Vec<Event>) -> (out: Vec<String>)
    ensures
        text::views(out@) == outbox::handouts(outbox::listed(events@), ends_named()),
{
    let ghost all = outbox::listed(events@);
    let mut out: Vec<String> = Vec::new();
    let mut i: usize = 0;
    assert(text::views(out@) =~= outbox::handouts(all.take(0), ends_named()));
    while i < events.len()
        invariant
            i <= events@.len(),
            all == outbox::listed(events@),
            text::views(out@) == outbox::handouts(all.take(i as int), ends_named()),
        decreases events@.len() - i,
    {
        assert(all.take(i + 1).drop_last() =~= all.take(i as int));
        assert(all.take(i + 1).last() == events@[i as int]@);
        if events[i].kind.is_terminal() && field(&events[i], "child").is_some() {
            let ghost was = out@;
            let h = handout(&events[i]);
            out.push(h);
            assert(text::views(out@) =~= text::views(was).push(h@));
        }
        i = i + 1;
    }
    assert(all.take(i as int) =~= all);
    out
}

fn sent_children(events: &Vec<Event>, own: &str) -> (out: Vec<OpenChild>)
    ensures
        listed(out@) == sent(outbox::listed(events@), own@),
{
    let ghost all = outbox::listed(events@);
    let mut out: Vec<OpenChild> = Vec::new();
    let mut i: usize = 0;
    assert(listed(out@) =~= sent(all.take(0), own@));
    while i < events.len()
        invariant
            i <= events@.len(),
            all == outbox::listed(events@),
            listed(out@) == sent(all.take(i as int), own@),
        decreases events@.len() - i,
    {
        assert(all.take(i + 1).drop_last() =~= all.take(i as int));
        assert(all.take(i + 1).last() == events@[i as int]@);
        let ghost was = out@;
        match (events[i].kind, field(&events[i], "child")) {
            (EventKind::AgentSpawned, Some(child)) => {
                let instance = text_or(&events[i], "instance", "");
                if !same(instance.as_str(), own) {
                    let one = OpenChild {
                        dispatch: handout(&events[i]),
                        child,
                        agent: text_or(&events[i], "agent", "agent"),
                        objective: text_or(&events[i], "objective", ""),
                        instance,
                    };
                    out.push(one);
                    assert(listed(out@) =~= listed(was).push(one@));
                }
            },
            _ => {},
        }
        i = i + 1;
    }
    assert(all.take(i as int) =~= all);
    out
}

/// The children that other processes sent and that have not reported. Whether they were
/// abandoned is not known before their process is known to be gone.
pub fn abandoned(events: &Vec<Event>, own: &str) -> (out: Vec<OpenChild>)
    ensures
        listed(out@) == open_children(outbox::listed(events@), own@),
{
    let candidates = sent_children(events, own);
    let done = ended_named(events);
    let ghost all = listed(candidates@);
    let ghost gone = text::views(done@);
    let mut out: Vec<OpenChild> = Vec::new();
    let mut i: usize = 0;
    assert(listed(out@) =~= not_among(all.take(0), gone));
    while i < candidates.len()
        invariant
            i <= candidates@.len(),
            all == listed(candidates@),
            gone == text::views(done@),
            listed(out@) == not_among(all.take(i as int), gone),
        decreases candidates@.len() - i,
    {
        assert(all.take(i + 1).drop_last() =~= all.take(i as int));
        assert(all.take(i + 1).last() == candidates@[i as int]@);
        let c = &candidates[i];
        if !among(&done, c.dispatch.as_str()) {
            let ghost was = out@;
            let one = OpenChild {
                dispatch: c.dispatch.clone(),
                child: c.child.clone(),
                agent: c.agent.clone(),
                objective: c.objective.clone(),
                instance: c.instance.clone(),
            };
            out.push(one);
            assert(one@ =~= candidates@[i as int]@);
            assert(listed(out@) =~= listed(was).push(one@));
        }
        i = i + 1;
    }
    assert(all.take(i as int) =~= all);
    out
}

/// The name of the file that a process holds while it lives. None where what stands for
/// the process is no id: then it is not alive.
pub fn lease_file(instance: &str) -> (out: Option<String>)
    ensures
        text::view_of(out) == match ulid_shown(instance@) {
            Some(id) => Some(id + ".live"@),
            None => None,
        },
{
    match read_ulid(instance) {
        Some(id) => Some(cat2(id.as_str(), ".live")),
        None => None,
    }
}

/// The name of the file that is held while a child is recovered.
pub fn recovery_file(dispatch: &str) -> (out: Result<String, String>)
    ensures
        match ulid_shown(dispatch@) {
            Some(id) => out matches Ok(f) && f@ == id + ".recovery"@,
            None => out matches Err(e) && e@ == "invalid dispatch id"@,
        },
{
    match read_ulid(dispatch) {
        Some(id) => Ok(cat2(id.as_str(), ".recovery")),
        None => Err("invalid dispatch id".to_owned()),
    }
}

/// What came of looking for the file of a process.
pub enum Lease {
    /// It could be taken: its owner is gone.
    Taken,
    /// Somebody holds it.
    Held,
    /// There is none.
    Missing,
    Failed,
}

/// The child of a handout has come to an end.
pub open spec fn closed(v: Seq<EventView>, dispatch: Seq<char>) -> bool {
    exists|i: int|
        0 <= i < v.len() && (#[trigger] v[i]).kind.terminal() && v[i].handout() == dispatch
}

/// The child of a handout has come to an end.
pub fn now_closed(events: &Vec<Event>, dispatch: &str) -> (yes: bool)
    ensures
        yes == closed(outbox::listed(events@), dispatch@),
{
    let ghost all = outbox::listed(events@);
    let mut i: usize = 0;
    while i < events.len()
        invariant
            i <= events@.len(),
            all == outbox::listed(events@),
            forall|j: int|
                0 <= j < i ==> !((#[trigger] all[j]).kind.terminal() && all[j].handout()
                    == dispatch@),
        decreases events@.len() - i,
    {
        assert(all[i as int] == events@[i as int]@);
        if events[i].kind.is_terminal() {
            let h = handout(&events[i]);
            if same(h.as_str(), dispatch) {
                return true;
            }
        }
        i = i + 1;
    }
    false
}

/// What is reported of a child of which nothing is known.
pub open spec fn unknown_outcome(c: OpenView) -> ResultView {
    ResultView {
        agent: c.agent,
        session: c.child,
        dispatch: c.dispatch,
        status: AgentStatus::Failed,
        summary: "[outcome unknown — Medha exited while this agent was running, so it never recorded a result. It may have finished its work, or none of it. Its objective was: "@
            + c.objective
            + "]\n\nRead what it actually did with agent.transcript('"@ + c.child
            + "'), or re-run it."@,
        artifact: None,
        turns: 0,
        tool_calls: 0,
        duration_ms: 0,
        trust: None,
        patch: None,
    }
}

/// A child that is recorded as abandoned: under these ids, and with this report.
pub struct Recovery {
    pub child: String,
    pub dispatch: String,
    pub result: AgentResult,
}

/// The report of an abandoned child. None where it has come to an end meanwhile, or where
/// its ids are none.
pub fn recover(open: &OpenChild, events: &Vec<Event>) -> (out: Option<Recovery>)
    ensures
        match out {
            Some(r) => {
                &&& !closed(outbox::listed(events@), open.dispatch@)
                &&& ulid_shown(open.child@) == Some(r.child@)
                &&& ulid_shown(open.dispatch@) == Some(r.dispatch@)
                &&& r.result@ == unknown_outcome(open@)
            },
            None => closed(outbox::listed(events@), open.dispatch@) || ulid_shown(
                open.child@,
            ) is None || ulid_shown(open.dispatch@) is None,
        },
{
    if now_closed(events, open.dispatch.as_str()) {
        return None;
    }
    match (read_ulid(open.child.as_str()), read_ulid(open.dispatch.as_str())) {
        (Some(child), Some(dispatch)) => {
            Some(Recovery { child, dispatch, result: unknown_result(open) })
        },
        _ => None,
    }
}

/// What is reported of a child of which nothing is known. That it failed would be a
/// guess: it may have done its work and not recorded it.
pub fn unknown_result(open: &OpenChild) -> (out: AgentResult)
    ensures
        out@ == unknown_outcome(open@),
{
    let out = AgentResult {
        agent: open.agent.clone(),
        session: open.child.clone(),
        dispatch: open.dispatch.clone(),
        status: AgentStatus::Failed,
        summary: cat5(
            "[outcome unknown — Medha exited while this agent was running, so it never recorded a result. It may have finished its work, or none of it. Its objective was: ",
            open.objective.as_str(),
            "]\n\nRead what it actually did with agent.transcript('",
            open.child.as_str(),
            "'), or re-run it.",
        ),
        artifact: None,
        turns: 0,
        tool_calls: 0,
        duration_ms: 0,
        trust: TrustLabel::Tool,
        patch: None,
    };
    assert(out@ =~= unknown_outcome(open@));
    out
}

/// How far the recovery of one child has come.
#[derive(Debug, Clone, Copy, PartialEq, Eq, Structural)]
pub enum Stage {
    /// Its process is looked for.
    Owner,
    /// The file of its recovery is taken.
    Claim,
    /// The events are read again.
    Recheck,
    /// Its report is recorded.
    Record,
    /// Every child was gone through.
    Done,
}

/// What is to be done next.
pub enum ReapAction {
    /// Try to take this file, which the process of the child holds while it lives.
    ProbeOwner(String),
    /// Take this file, or let another process recover the child.
    ClaimRecovery(String),
    ReadEvents,
    Record(Recovery),
    /// Every child was gone through.
    Finish,
}

/// What came of it.
pub enum ReapEvent {
    Owner(Lease),
    Claim(Lease),
    Events(Vec<Event>),
    /// The report was recorded, or not.
    Recorded(bool),
}

/// What a [`ReapEvent`] holds.
pub ghost enum SeenView {
    Owner(Lease),
    Claim(Lease),
    Events(Seq<EventView>),
    Recorded(bool),
}

impl View for ReapEvent {
    type V = SeenView;

    open spec fn view(&self) -> SeenView {
        match *self {
            ReapEvent::Owner(lease) => SeenView::Owner(lease),
            ReapEvent::Claim(lease) => SeenView::Claim(lease),
            ReapEvent::Events(events) => SeenView::Events(outbox::listed(events@)),
            ReapEvent::Recorded(done) => SeenView::Recorded(done),
        }
    }
}

/// What an action comes to.
pub ghost enum ReapView {
    ProbeOwner(Seq<char>),
    ClaimRecovery(Seq<char>),
    ReadEvents,
    Record(Seq<char>, Seq<char>, ResultView),
    Finish,
}

impl View for ReapAction {
    type V = ReapView;

    open spec fn view(&self) -> ReapView {
        match *self {
            ReapAction::ProbeOwner(f) => ReapView::ProbeOwner(f@),
            ReapAction::ClaimRecovery(f) => ReapView::ClaimRecovery(f@),
            ReapAction::ReadEvents => ReapView::ReadEvents,
            ReapAction::Record(r) => ReapView::Record(r.child@, r.dispatch@, r.result@),
            ReapAction::Finish => ReapView::Finish,
        }
    }
}

/// Going through the children that may have been abandoned.
pub struct Reaper {
    pub open: Vec<OpenChild>,
    pub at: usize,
    pub stage: Stage,
    pub recovered: usize,
}

/// Where a recovery stands, and what is to be done there.
pub ghost struct Standing {
    pub at: int,
    pub stage: Stage,
    pub action: ReapView,
}

/// Taking up the children from `at` on: the process of one that has an id is looked for;
/// one without is gone. A child without a proper handout is passed over.
pub open spec fn take_up(open: Seq<OpenView>, at: int) -> Standing
    decreases open.len() - at,
{
    if at < 0 || at >= open.len() {
        Standing { at, stage: Stage::Done, action: ReapView::Finish }
    } else {
        match ulid_shown(open[at].instance) {
            Some(id) => Standing {
                at,
                stage: Stage::Owner,
                action: ReapView::ProbeOwner(id + ".live"@),
            },
            None => match ulid_shown(open[at].dispatch) {
                Some(id) => Standing {
                    at,
                    stage: Stage::Claim,
                    action: ReapView::ClaimRecovery(id + ".recovery"@),
                },
                None => take_up(open, at + 1),
            },
        }
    }
}

/// Taking the child at `at` after its process is known to be gone.
pub open spec fn claim(open: Seq<OpenView>, at: int) -> Standing {
    match ulid_shown(open[at].dispatch) {
        Some(id) => Standing {
            at,
            stage: Stage::Claim,
            action: ReapView::ClaimRecovery(id + ".recovery"@),
        },
        None => take_up(open, at + 1),
    }
}

/// The event answers what was asked for at this stage.
pub open spec fn answers(stage: Stage, event: ReapEvent) -> bool {
    match event {
        ReapEvent::Owner(_) => stage is Owner,
        ReapEvent::Claim(_) => stage is Claim,
        ReapEvent::Events(_) => stage is Recheck,
        ReapEvent::Recorded(_) => stage is Record,
    }
}

/// What comes after the child at `at` by what was seen. Only a process that is gone, a
/// recovery that nobody else makes and a child that is still open lead to a report.
pub open spec fn next_of(open: Seq<OpenView>, at: int, seen: SeenView) -> Standing {
    match seen {
        SeenView::Owner(lease) => if lease is Taken || lease is Missing {
            claim(open, at)
        } else {
            take_up(open, at + 1)
        },
        SeenView::Claim(lease) => if lease is Taken {
            Standing { at, stage: Stage::Recheck, action: ReapView::ReadEvents }
        } else {
            take_up(open, at + 1)
        },
        SeenView::Events(events) => if !closed(events, open[at].dispatch) && ulid_shown(
            open[at].child,
        ) is Some && ulid_shown(open[at].dispatch) is Some {
            Standing {
                at,
                stage: Stage::Record,
                action: ReapView::Record(
                    ulid_shown(open[at].child)->0,
                    ulid_shown(open[at].dispatch)->0,
                    unknown_outcome(open[at]),
                ),
            }
        } else {
            take_up(open, at + 1)
        },
        SeenView::Recorded(_) => take_up(open, at + 1),
    }
}

impl Reaper {
    pub open spec fn wf(self) -> bool {
        &&& self.at <= self.open@.len()
        &&& self.recovered <= self.at
        &&& !(self.stage is Done) ==> self.at < self.open@.len()
    }

    /// What an event leads to.
    pub open spec fn next(self, event: ReapEvent) -> Standing {
        next_of(listed(self.open@), self.at as int, event@)
    }

    fn move_on(&mut self, from: usize) -> (out: ReapAction)
        requires
            from <= old(self).open@.len(),
            old(self).recovered <= from,
        ensures
            final(self).wf(),
            final(self).open == old(self).open,
            final(self).recovered == old(self).recovered,
            take_up(listed(old(self).open@), from as int) == (Standing {
                at: final(self).at as int,
                stage: final(self).stage,
                action: out@,
            }),
    {
        let ghost open = listed(self.open@);
        let mut at: usize = from;
        while at < self.open.len()
            invariant
                from <= at <= self.open@.len(),
                open == listed(self.open@),
                self.open == old(self).open,
                self.recovered == old(self).recovered,
                self.recovered <= from,
                take_up(open, from as int) == take_up(open, at as int),
            decreases self.open@.len() - at,
        {
            assert(open[at as int] == self.open@[at as int]@);
            match lease_file(self.open[at].instance.as_str()) {
                Some(f) => {
                    self.at = at;
                    self.stage = Stage::Owner;
                    return ReapAction::ProbeOwner(f);
                },
                None => {},
            }
            match recovery_file(self.open[at].dispatch.as_str()) {
                Ok(f) => {
                    self.at = at;
                    self.stage = Stage::Claim;
                    return ReapAction::ClaimRecovery(f);
                },
                Err(_) => {},
            }
            at = at + 1;
        }
        self.at = at;
        self.stage = Stage::Done;
        ReapAction::Finish
    }

    /// Begins with the children that other processes sent and that have not reported.
    pub fn begin(events: &Vec<Event>, own: &str) -> (out: (Reaper, ReapAction))
        ensures
            out.0.wf(),
            listed(out.0.open@) == open_children(outbox::listed(events@), own@),
            out.0.recovered == 0,
            take_up(open_children(outbox::listed(events@), own@), 0) == (Standing {
                at: out.0.at as int,
                stage: out.0.stage,
                action: out.1@,
            }),
    {
        let open = abandoned(events, own);
        let mut reaper = Reaper { open, at: 0, stage: Stage::Done, recovered: 0 };
        let action = reaper.move_on(0);
        (reaper, action)
    }

    /// Takes in what came of an action, and says what is to be done next.
    pub fn reap_abandoned(&mut self, event: ReapEvent) -> (out: ReapAction)
        requires
            old(self).wf(),
            answers(old(self).stage, event),
        ensures
            final(self).wf(),
            final(self).open == old(self).open,
            old(self).next(event) == (Standing {
                at: final(self).at as int,
                stage: final(self).stage,
                action: out@,
            }),
            final(self).recovered == old(self).recovered + (if event == ReapEvent::Recorded(true) {
                1int
            } else {
                0
            }),
    {
        let ghost open = listed(self.open@);
        let at = self.at;
        let n: usize = self.open.len();
        assert(at < n);
        assert(open[at as int] == self.open@[at as int]@);
        match event {
            ReapEvent::Owner(lease) => {
                match lease {
                    Lease::Taken | Lease::Missing => {
                        match recovery_file(self.open[at].dispatch.as_str()) {
                            Ok(f) => {
                                self.stage = Stage::Claim;
                                ReapAction::ClaimRecovery(f)
                            },
                            Err(_) => self.move_on(at + 1),
                        }
                    },
                    _ => self.move_on(at + 1),
                }
            },
            ReapEvent::Claim(lease) => {
                match lease {
                    Lease::Taken => {
                        self.stage = Stage::Recheck;
                        ReapAction::ReadEvents
                    },
                    _ => self.move_on(at + 1),
                }
            },
            ReapEvent::Events(events) => {
                match recover(&self.open[at], &events) {
                    Some(r) => {
                        self.stage = Stage::Record;
                        ReapAction::Record(r)
                    },
                    None => self.move_on(at + 1),
                }
            },
            ReapEvent::Recorded(done) => {
                if done {
                    self.recovered = self.recovered + 1;
                }
                self.move_on(at + 1)
            },
        }
    }
}

/// A report of an abandoned child is recorded only where the events, read while nobody
/// else could recover it, show that it has not come to an end.
pub proof fn law_only_open_children_are_recovered(reaper: Reaper, event: ReapEvent)
    requires
        reaper.wf(),
        answers(reaper.stage, event),
        reaper.next(event).action is Record,
    ensures
        reaper.stage is Recheck,
        event matches ReapEvent::Events(events) && !closed(
            outbox::listed(events@),
            listed(reaper.open@)[reaper.at as int].dispatch,
        ),
{
    lemma_take_up(listed(reaper.open@), reaper.at + 1);
}

proof fn lemma_take_up(open: Seq<OpenView>, at: int)
    ensures
        !(take_up(open, at).action is Record),
    decreases open.len() - at,
{
    if 0 <= at < open.len() {
        lemma_take_up(open, at + 1);
    }
}

pub proof fn lemma_not_among(v: Seq<OpenView>, done: Seq<Seq<char>>)
    ensures
        forall|i: int|
            0 <= i < not_among(v, done).len() ==> !done.contains(
                (#[trigger] not_among(v, done)[i]).dispatch,
            ) && v.contains(not_among(v, done)[i]),
    decreases v.len(),
{
    if v.len() > 0 {
        lemma_not_among(v.drop_last(), done);
        assert forall|i: int| 0 <= i < not_among(v, done).len() implies !done.contains(
            (#[trigger] not_among(v, done)[i]).dispatch,
        ) && v.contains(not_among(v, done)[i]) by {
            let head = not_among(v.drop_last(), done);
            if i < head.len() {
                assert(not_among(v, done)[i] == head[i]);
                let k = choose|k: int| 0 <= k < v.drop_last().len() && v.drop_last()[k] == head[i];
                assert(v[k] == head[i]);
            } else {
                assert(v[v.len() - 1] == not_among(v, done)[i]);
            }
        }
    }
}

proof fn lemma_sent(v: Seq<EventView>, own: Seq<char>)
    ensures
        forall|i: int| 0 <= i < sent(v, own).len() ==> (#[trigger] sent(v, own)[i]).instance != own,
    decreases v.len(),
{
    if v.len() > 0 {
        let head = sent(v.drop_last(), own);
        lemma_sent(v.drop_last(), own);
        assert forall|i: int| 0 <= i < sent(v, own).len() implies (#[trigger] sent(
            v,
            own,
        )[i]).instance != own by {
            if i < head.len() {
                assert(sent(v, own)[i] == head[i]);
            }
        }
    }
}

/// The children that a process sent itself are never taken for abandoned by it.
pub proof fn law_own_children_stay(v: Seq<EventView>, own: Seq<char>)
    ensures
        forall|i: int|
            0 <= i < open_children(v, own).len() ==> (#[trigger] open_children(v, own)[i]).instance
                != own,
{
    lemma_sent(v, own);
    lemma_not_among(sent(v, own), outbox::handouts(v, ends_named()));
    assert forall|i: int| 0 <= i < open_children(v, own).len() implies (#[trigger] open_children(
        v,
        own,
    )[i]).instance != own by {
        let x = open_children(v, own)[i];
        let k = choose|k: int| 0 <= k < sent(v, own).len() && sent(v, own)[k] == x;
        assert(sent(v, own)[k].instance != own);
    }
}

/// A child that has reported is not open, whoever looks: a recovery, which is recorded as
/// a report, is made once.
pub proof fn law_reported_children_are_not_open(
    v: Seq<EventView>,
    own: Seq<char>,
    report: EventView,
    later: Seq<EventView>,
)
    requires
        report.kind.terminal(),
        report.field("child"@) is Some,
    ensures
        forall|i: int|
            0 <= i < open_children(v.push(report) + later, own).len() ==> (
            #[trigger] open_children(v.push(report) + later, own)[i]).dispatch != report.handout(),
        closed(v.push(report) + later, report.handout()),
{
    let whole = v.push(report) + later;
    lemma_handout_stays(v, report, later);
    lemma_not_among(sent(whole, own), outbox::handouts(whole, ends_named()));
    assert(whole[v.len() as int] == report);
}

proof fn lemma_handout_stays(v: Seq<EventView>, report: EventView, later: Seq<EventView>)
    requires
        ends_named()(report),
    ensures
        outbox::handouts(v.push(report) + later, ends_named()).contains(report.handout()),
    decreases later.len(),
{
    let whole = v.push(report) + later;
    if later.len() == 0 {
        assert(whole =~= v.push(report));
        assert(whole.drop_last() =~= v);
        let all = outbox::handouts(whole, ends_named());
        assert(all[all.len() - 1] == report.handout());
    } else {
        lemma_handout_stays(v, report, later.drop_last());
        let less = v.push(report) + later.drop_last();
        assert(whole.drop_last() =~= less);
        let head = outbox::handouts(less, ends_named());
        let k = choose|k: int| 0 <= k < head.len() && head[k] == report.handout();
        assert(outbox::handouts(whole, ends_named())[k] == head[k]);
    }
}

} // verus!

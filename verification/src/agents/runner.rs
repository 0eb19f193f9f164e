//! How the run of a child agent is concluded.

use vstd::prelude::*;
use vstd::string::*;
use crate::agents::outbox::EventKind;
use crate::agents::reports::{AgentStatus, TrustLabel};
use crate::number;
use crate::number::show;
use crate::text;
use crate::text::{cat2, cat5, chars_of, trimmed};

verus! {

#[derive(Debug, Clone, Copy, PartialEq, Eq, Structural)]
pub enum Role {
    System,
    User,
    Assistant,
    Tool,
}

/// A message of a child's conversation.
pub struct Message {
    pub role: Role,
    pub content: String,
    /// How many tools it calls.
    pub tool_calls: u32,
}

/// What a [`Message`] holds.
#[verifier::ext_equal]
pub ghost struct MessageView {
    pub role: Role,
    pub content: Seq<char>,
    pub tool_calls: u32,
}

impl View for Message {
    type V = MessageView;

    open spec fn view(&self) -> MessageView {
        MessageView { role: self.role, content: self.content@, tool_calls: self.tool_calls }
    }
}

/// What the messages hold.
pub open spec fn listed(v: Seq<Message>) -> Seq<MessageView> {
    v.map_values(|m: Message| m@)
}

/// Why a run ended.
#[derive(Debug, Clone, Copy, PartialEq, Eq, Structural)]
pub enum StopReason {
    Finished,
    /// A limit was reached.
    Budget,
    Interrupted,
}

/// The last thing that the child said, where it said something.
pub open spec fn last_said(v: Seq<MessageView>) -> Option<Seq<char>>
    decreases v.len(),
{
    if v.len() == 0 {
        None
    } else if v.last().role is Assistant && text::trim(v.last().content).len() > 0 {
        Some(v.last().content)
    } else {
        last_said(v.drop_last())
    }
}

/// What a child returns. What it had said last is its answer only where it finished.
pub open spec fn summary_of(stop: StopReason, last: Option<Seq<char>>) -> Seq<char> {
    match (stop, last) {
        (StopReason::Finished, Some(t)) => t,
        (StopReason::Finished, None) => "the agent finished without reporting anything"@,
        (_, Some(t)) => "[incomplete — the agent was stopped before it reported. Treat the following as where it had got to, not as an answer. Re-run with a narrower objective or a higher turn budget.]\n\n"@
            + t,
        (_, None) => "the agent was stopped before it produced anything"@,
    }
}

/// How many tools were called.
pub open spec fn calls(v: Seq<MessageView>) -> nat
    decreases v.len(),
{
    if v.len() == 0 {
        0
    } else {
        calls(v.drop_last()) + v.last().tool_calls as nat
    }
}

/// How often the child spoke.
pub open spec fn turns(v: Seq<MessageView>) -> nat
    decreases v.len(),
{
    if v.len() == 0 {
        0
    } else {
        turns(v.drop_last()) + (if v.last().role is Assistant {
            1nat
        } else {
            0
        })
    }
}

/// How a child ended.
pub open spec fn status_of(stop: StopReason) -> AgentStatus {
    match stop {
        StopReason::Finished => AgentStatus::Completed,
        StopReason::Budget => AgentStatus::Exhausted,
        StopReason::Interrupted => AgentStatus::Cancelled,
    }
}

/// What the run of a child comes to.
pub struct ChildOutcome {
    pub status: AgentStatus,
    pub summary: String,
    pub turns: u32,
    pub tool_calls: u32,
    /// What the summary is worth, and the event that records it.
    pub trust: TrustLabel,
    /// The event that records it, and what that says.
    pub event: EventKind,
    pub note: String,
}

/// An event of the child with the trust that it was labelled with.
pub struct LabelledEvent {
    pub kind: EventKind,
    pub trust: TrustLabel,
}

/// The labels of the observations that the tools of a child made, in their order.
pub open spec fn observed(v: Seq<LabelledEvent>) -> Seq<Option<Seq<char>>>
    decreases v.len(),
{
    if v.len() == 0 {
        seq![]
    } else {
        let head = observed(v.drop_last());
        if v.last().kind is ToolObs {
            head.push(v.last().trust.name())
        } else {
            head
        }
    }
}

/// The names of labels.
pub open spec fn label_names(v: Seq<TrustLabel>) -> Seq<Option<Seq<char>>> {
    v.map_values(|t: TrustLabel| t.name())
}

/// The labels that decide what a child's summary is worth: those of the observations that
/// its tools made. The weakest of them is the summary's.
pub fn observed_trust(events: &Vec<LabelledEvent>) -> (out: Vec<TrustLabel>)
    ensures
        label_names(out@) == observed(events@),
{
    let ghost all = events@;
    let mut out: Vec<TrustLabel> = Vec::new();
    let mut i: usize = 0;
    assert(label_names(out@) =~= observed(all.take(0)));
    while i < events.len()
        invariant
            i <= events@.len(),
            all == events@,
            label_names(out@) == observed(all.take(i as int)),
        decreases events@.len() - i,
    {
        assert(all.take(i + 1).drop_last() =~= all.take(i as int));
        if events[i].kind == EventKind::ToolObs {
            let ghost was = out@;
            let label = events[i].trust.copy();
            out.push(label);
            assert(label_names(out@) =~= label_names(was).push(label.name()));
        }
        i = i + 1;
    }
    assert(all.take(i as int) =~= all);
    out
}

proof fn lemma_calls(v: Seq<MessageView>, i: int)
    requires
        0 <= i <= v.len(),
    ensures
        calls(v.take(i)) <= calls(v),
    decreases v.len() - i,
{
    if i < v.len() {
        lemma_calls(v, i + 1);
        assert(v.take(i + 1).drop_last() =~= v.take(i));
    } else {
        assert(v.take(i) =~= v);
    }
}

proof fn lemma_turns(v: Seq<MessageView>)
    ensures
        turns(v) <= v.len(),
    decreases v.len(),
{
    if v.len() > 0 {
        lemma_turns(v.drop_last());
    }
}

fn find_last_said(transcript: &Vec<Message>) -> (out: Option<String>)
    ensures
        text::view_of(out) == last_said(listed(transcript@)),
{
    let ghost all = listed(transcript@);
    let mut i: usize = transcript.len();
    assert(all.take(i as int) =~= all);
    while i > 0
        invariant
            i <= transcript@.len(),
            all == listed(transcript@),
            last_said(all) == last_said(all.take(i as int)),
        decreases i,
    {
        assert(all.take(i as int).drop_last() =~= all.take(i - 1));
        assert(all.take(i as int).last() == transcript@[i - 1]@);
        let m = &transcript[i - 1];
        if m.role == Role::Assistant {
            let plain = trimmed(m.content.as_str());
            if chars_of(plain.as_str()).len() > 0 {
                return Some(m.content.clone());
            }
        }
        i = i - 1;
    }
    None
}

/// Concludes the run of a child. `trust` is the weakest of the labels of
/// [`observed_trust`].
pub fn conclude(transcript: &Vec<Message>, stop: StopReason, trust: TrustLabel) -> (out:
    ChildOutcome)
    requires
        calls(listed(transcript@)) <= u32::MAX,
        transcript@.len() <= u32::MAX,
    ensures
        out.status == status_of(stop),
        out.summary@ == summary_of(stop, last_said(listed(transcript@))),
        out.turns == turns(listed(transcript@)),
        out.tool_calls == calls(listed(transcript@)),
        out.trust == trust,
        out.event == status_of(stop).kind(),
        out.note@ == number::decimal(out.turns as nat) + " turn(s), "@ + number::decimal(
            out.tool_calls as nat,
        ) + " tool call(s)"@,
{
    let ghost all = listed(transcript@);
    let last = find_last_said(transcript);
    let summary = match (stop, last) {
        (StopReason::Finished, Some(t)) => t,
        (StopReason::Finished, None) => "the agent finished without reporting anything".to_owned(),
        (_, Some(t)) => cat2(
            "[incomplete — the agent was stopped before it reported. Treat the following as where it had got to, not as an answer. Re-run with a narrower objective or a higher turn budget.]\n\n",
            t.as_str(),
        ),
        (_, None) => "the agent was stopped before it produced anything".to_owned(),
    };
    let mut spoken: u32 = 0;
    let mut called: u32 = 0;
    let mut i: usize = 0;
    while i < transcript.len()
        invariant
            i <= transcript@.len() <= u32::MAX,
            all == listed(transcript@),
            calls(all) <= u32::MAX,
            spoken == turns(all.take(i as int)),
            called == calls(all.take(i as int)),
        decreases transcript@.len() - i,
    {
        assert(all.take(i + 1).drop_last() =~= all.take(i as int));
        assert(all.take(i + 1).last() == transcript@[i as int]@);
        proof {
            lemma_calls(all, i + 1);
            lemma_turns(all.take(i as int));
        }
        called = called + transcript[i].tool_calls;
        if transcript[i].role == Role::Assistant {
            spoken = spoken + 1;
        }
        i = i + 1;
    }
    assert(all.take(i as int) =~= all);
    let status = match stop {
        StopReason::Finished => AgentStatus::Completed,
        StopReason::Budget => AgentStatus::Exhausted,
        StopReason::Interrupted => AgentStatus::Cancelled,
    };
    let t = show(spoken as u64);
    let c = show(called as u64);
    let note = cat5(t.as_str(), " turn(s), ", c.as_str(), " tool call(s)", "");
    assert(note@ =~= number::decimal(spoken as nat) + " turn(s), "@ + number::decimal(
        called as nat,
    ) + " tool call(s)"@) by {
        reveal_strlit("");
    }
    ChildOutcome {
        status,
        summary,
        turns: spoken,
        tool_calls: called,
        trust,
        event: status.event_kind(),
        note,
    }
}

/// What the check of a child's work came to.
pub struct Verification {
    pub command: String,
    pub passed: bool,
    pub output: String,
}

/// What came of a check that was to run: whether it passed with its output, or why it
/// could not run.
pub enum Checked {
    Ran(bool, String),
    NotRun(String),
}

/// What the check of a child's work came to. One that could not run has failed: to say
/// nothing would read as though there were none.
pub fn verification(command: Option<String>, checked: Checked) -> (out: Option<Verification>)
    ensures
        match command {
            None => out is None,
            Some(c) => out matches Some(v) && v.command@ == c@ && match checked {
                Checked::Ran(passed, output) => v.passed == passed && v.output@ == output@,
                Checked::NotRun(e) => !v.passed && v.output@
                    == "could not run the verify command: "@ + e@,
            },
        },
{
    match command {
        None => None,
        Some(command) => match checked {
            Checked::Ran(passed, output) => Some(Verification { command, passed, output }),
            Checked::NotRun(e) => Some(
                Verification {
                    command,
                    passed: false,
                    output: cat2("could not run the verify command: ", e.as_str()),
                },
            ),
        },
    }
}

/// A child that was stopped never returns what it had said as though it were its answer.
pub proof fn law_stopped_is_not_answered(stop: StopReason, last: Option<Seq<char>>)
    requires
        !(stop is Finished),
    ensures
        !(status_of(stop) is Completed),
        last matches Some(t) ==> summary_of(stop, last) != t,
{
    match last {
        Some(t) => {
            let head = "[incomplete — the agent was stopped before it reported. Treat the following as where it had got to, not as an answer. Re-run with a narrower objective or a higher turn budget.]\n\n"@;
            reveal_strlit(
                "[incomplete — the agent was stopped before it reported. Treat the following as where it had got to, not as an answer. Re-run with a narrower objective or a higher turn budget.]\n\n",
            );
            assert(summary_of(stop, last).len() == head.len() + t.len());
        },
        None => {},
    }
}

} // verus!

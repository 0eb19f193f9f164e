//! Approvals that wait for the editor.

use vstd::prelude::*;
use vstd::string::*;
use crate::acp::frames;
use crate::acp::frames::{approval_frame, request_acp_permission};
use crate::acp::prompt::after;
use crate::json::{Json, JsonView};
use crate::json;
use crate::number;
use crate::number::parse_up_to;
use crate::order;
use crate::text;
use crate::text::same;

verus! {

/// What a human decided about an action.
#[derive(Debug, Clone, Copy, PartialEq, Eq, Structural)]
pub enum Approval {
    Once,
    Always,
    Deny,
}

/// The question that a response id answers, if it is one of ours.
pub open spec fn gate_of(id: JsonView) -> Option<nat> {
    match id.text() {
        Some(s) => if text::starts_with(s, "medha-gate-"@) {
            number::parsed(text::rest(s, 11), u64::MAX as nat)
        } else {
            None
        },
        None => None,
    }
}

/// The question that a response id answers, if it is one of ours.
pub fn acp_gate_id_from(value: &Json) -> (out: Option<u64>)
    ensures
        match out {
            Some(g) => gate_of(value@) == Some(g as nat),
            None => gate_of(value@) is None,
        },
{
    proof {
        reveal_strlit("medha-gate-");
    }
    match value.text() {
        Some(s) => match after(s.as_str(), "medha-gate-") {
            Some(r) => parse_up_to(r.as_str(), u64::MAX),
            None => None,
        },
        None => None,
    }
}

/// The list holds `g`.
pub open spec fn waits(pending: Seq<u64>, g: u64) -> bool {
    pending.contains(g)
}

/// Accepts every gate but `g`.
pub open spec fn other_than(g: u64) -> spec_fn(u64) -> bool {
    |x: u64| x != g
}

/// The list without `g`.
pub open spec fn without(pending: Seq<u64>, g: u64) -> Seq<u64> {
    pending.filter(other_than(g))
}

/// The gates that wait for an answer.
pub struct Pending {
    pub gates: Vec<u64>,
}

impl View for Pending {
    type V = Seq<u64>;

    open spec fn view(&self) -> Seq<u64> {
        self.gates@
    }
}

impl Pending {
    pub fn new() -> (out: Pending)
        ensures
            out@ == Seq::<u64>::empty(),
    {
        Pending { gates: Vec::new() }
    }

    /// Adds a gate that waits.
    pub fn insert(&mut self, gate: u64)
        ensures
            final(self)@ == old(self)@.push(gate),
    {
        self.gates.push(gate);
    }

    /// Removes a gate, and says whether it waited.
    pub fn remove(&mut self, gate: u64) -> (found: bool)
        ensures
            found == waits(old(self)@, gate),
            final(self)@ == without(old(self)@, gate),
    {
        let ghost keep = other_than(gate);
        let ghost all = self.gates@;
        let mut kept: Vec<u64> = Vec::new();
        let mut found = false;
        let mut i: usize = 0;
        proof {
            reveal(Seq::filter);
            assert(kept@ =~= all.take(0).filter(keep));
        }
        while i < self.gates.len()
            invariant
                i <= self.gates@.len(),
                self.gates@ == all,
                keep == other_than(gate),
                kept@ == all.take(i as int).filter(keep),
                found == exists|j: int| 0 <= j < i && all[j] == gate,
            decreases self.gates@.len() - i,
        {
            proof {
                reveal(Seq::filter);
                assert(all.take(i + 1).drop_last() =~= all.take(i as int));
            }
            if self.gates[i] == gate {
                found = true;
            } else {
                kept.push(self.gates[i]);
            }
            i = i + 1;
        }
        assert(all.take(i as int) =~= all);
        self.gates = kept;
        found
    }

    /// Empties the list, and returns the gates that waited.
    pub fn drain(&mut self) -> (out: Vec<u64>)
        ensures
            out@ == old(self)@,
            final(self)@ == Seq::<u64>::empty(),
    {
        let mut out: Vec<u64> = Vec::new();
        let mut i: usize = 0;
        while i < self.gates.len()
            invariant
                i <= self.gates@.len(),
                self.gates@ == old(self)@,
                out@ == self.gates@.take(i as int),
            decreases self.gates@.len() - i,
        {
            out.push(self.gates[i]);
            i = i + 1;
            assert(out@ =~= self.gates@.take(i as int));
        }
        assert(out@ =~= old(self)@);
        self.gates = Vec::new();
        out
    }
}

/// The questions of one live connection: the actions that need no further question,
/// and the number of the next request.
pub struct AcpGate {
    pub next_id: u64,
    /// Actions approved for good, in ascending order.
    pub always: Vec<String>,
}

/// What a confirmation comes to before the editor is asked.
pub enum Confirm {
    /// Settled without asking.
    Settled(Approval),
    /// The frame to send; its question then waits under this number.
    Ask(u64, Json),
}

impl AcpGate {
    /// The remembered actions are in ascending order.
    pub open spec fn wf(&self) -> bool {
        order::ascending(text::views(self.always@))
    }

    /// The action is remembered.
    pub open spec fn remembers(&self, action: Seq<char>) -> bool {
        order::holds(text::views(self.always@), action)
    }

    pub fn new() -> (out: AcpGate)
        ensures
            out.wf(),
            out.next_id == 1,
            forall|a: Seq<char>| !out.remembers(a),
    {
        AcpGate { next_id: 1, always: Vec::new() }
    }

    fn is_remembered(&self, action: &str) -> (yes: bool)
        ensures
            yes == self.remembers(action@),
    {
        let mut i: usize = 0;
        while i < self.always.len()
            invariant
                i <= self.always@.len(),
                forall|j: int| 0 <= j < i ==> #[trigger] text::views(self.always@)[j] != action@,
            decreases self.always@.len() - i,
        {
            assert(text::views(self.always@)[i as int] == self.always@[i as int]@);
            if same(self.always[i].as_str(), action) {
                return true;
            }
            i = i + 1;
        }
        false
    }

    /// Opens a confirmation. A remembered action passes without a question,
    /// unless it is escalated; every other one is asked in the peer's dialect
    /// under a number of its own.
    pub fn confirm(
        &mut self,
        acp: bool,
        session: Option<&String>,
        action: &str,
        detail: Option<&String>,
        escalated: bool,
    ) -> (out: Confirm)
        ensures
            final(self).always@ == old(self).always@,
            if !escalated && old(self).remembers(action@) {
                out == Confirm::Settled(Approval::Always) && final(self).next_id == old(
                    self,
                ).next_id
            } else {
                &&& out matches Confirm::Ask(gate, frame)
                &&& gate == old(self).next_id
                &&& final(self).next_id == if gate == u64::MAX {
                    0
                } else {
                    (gate + 1) as u64
                }
                &&& frame@ == if acp {
                    frames::permission_request(
                        text::ref_view(session),
                        gate as nat,
                        action@,
                        text::ref_view(detail),
                        escalated,
                    )
                } else {
                    frames::notification(
                        "approval"@,
                        JsonView::Object(
                            seq![
                                ("gate_id"@, JsonView::Unsigned(gate)),
                                ("action"@, JsonView::Text(action@)),
                                ("detail"@, json::text_or_null(text::ref_view(detail))),
                                ("escalated"@, JsonView::Bool(escalated)),
                            ],
                        ),
                    )
                }
            },
    {
        if !escalated && self.is_remembered(action) {
            return Confirm::Settled(Approval::Always);
        }
        let gate: u64 = self.next_id;
        self.next_id = if gate == u64::MAX {
            0
        } else {
            gate + 1
        };
        let frame = if acp {
            request_acp_permission(session, gate, action, detail, escalated)
        } else {
            approval_frame(gate, action, detail, escalated)
        };
        Confirm::Ask(gate, frame)
    }

    /// Closes a confirmation with the answer that came: `None` where the frame
    /// was not sent, the peer left or nothing answered, which denies. Consent
    /// for good is remembered for an action that is not escalated.
    pub fn settle(&mut self, action: &str, escalated: bool, answer: Option<Approval>) -> (out:
        Approval)
        requires
            old(self).wf(),
        ensures
            final(self).wf(),
            final(self).next_id == old(self).next_id,
            out == match answer {
                Some(a) => a,
                None => Approval::Deny,
            },
            forall|a: Seq<char>|
                final(self).remembers(a) <==> old(self).remembers(a) || (a == action@ && answer
                    == Some(Approval::Always) && !escalated),
    {
        let approval = match answer {
            Some(a) => a,
            None => Approval::Deny,
        };
        if approval == Approval::Always && !escalated {
            crate::order::insert_ascending(&mut self.always, action.to_owned());
        }
        approval
    }
}

/// The answer to a gate's own request is routed back to that gate: the id that a
/// request is sent under names its question, and no other.
pub proof fn law_gate_id_round_trip(gate: u64)
    ensures
        gate_of(JsonView::Text(frames::gate_request_id(gate as nat))) == Some(gate as nat),
{
    reveal_strlit("medha-gate-");
    let d = number::decimal(gate as nat);
    let id = frames::gate_request_id(gate as nat);
    assert(id.subrange(0, 11) =~= "medha-gate-"@);
    assert(text::rest(id, 11) =~= d);
    number::lemma_decimal_parses(gate as nat);
}

} // verus!

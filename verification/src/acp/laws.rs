//! What holds of every exchange with the editor.

use vstd::prelude::*;
use crate::acp::frames;
use crate::acp::gate;
use crate::acp::rpc;
use crate::acp::turn::TurnDone;
use crate::acp::rpc::{ActionView, EffectView, Outcome, PeerView, Situation};
use crate::acp::gate::Approval;
use crate::attachments::IMAGE_ONLY_PROMPT;
use crate::json;
use crate::json::JsonView;
use crate::number;
use crate::paths;
use crate::text;

verus! {

/// The frame is a response: it carries an id.
pub open spec fn is_reply(frame: JsonView) -> bool {
    frame.field("id"@) is Some
}

/// The frame answers the request `id`, with either a result or an error.
pub open spec fn answers(frame: JsonView, id: JsonView) -> bool {
    &&& frame.field("id"@) == Some(id)
    &&& (frame.field("result"@) is Some) != (frame.field("error"@) is Some)
}

/// Exactly one of the frames is a response, and it answers `id`.
pub open spec fn answered_once(frames: Seq<JsonView>, id: JsonView) -> bool {
    exists|i: int|
        0 <= i < frames.len() && answers(#[trigger] frames[i], id) && forall|j: int|
            0 <= j < frames.len() && is_reply(#[trigger] frames[j]) ==> j == i
}

/// None of the frames is a response.
pub open spec fn silent(frames: Seq<JsonView>) -> bool {
    forall|j: int| 0 <= j < frames.len() ==> !is_reply(#[trigger] frames[j])
}

/// The names of the parts of a frame differ.
pub proof fn lemma_names()
    ensures
        "jsonrpc"@[0] == 'j' && "jsonrpc"@.len() == 7,
        "id"@[0] == 'i' && "id"@.len() == 2,
        "result"@[0] == 'r' && "result"@.len() == 6,
        "error"@[0] == 'e' && "error"@.len() == 5,
        "method"@[0] == 'm' && "method"@.len() == 6,
        "params"@[0] == 'p' && "params"@.len() == 6,
{
    reveal_strlit("jsonrpc");
    reveal_strlit("id");
    reveal_strlit("result");
    reveal_strlit("error");
    reveal_strlit("method");
    reveal_strlit("params");
}

proof fn lemma_response(id: JsonView, result: JsonView)
    ensures
        answers(frames::response(id, result), id),
{
    lemma_names();
    reveal_with_fuel(json::entry_from, 5);
    let rows = frames::response(id, result)->Object_0;
    assert(rows[0].0 == "jsonrpc"@ && rows[1].0 == "id"@ && rows[2].0 == "result"@);
    assert(rows[0].0[0] == 'j' && rows[1].0[0] == 'i' && rows[2].0[0] == 'r');
}

proof fn lemma_failure(id: JsonView, code: int, message: Seq<char>)
    ensures
        answers(frames::failure(id, code, message), id),
{
    lemma_names();
    reveal_with_fuel(json::entry_from, 5);
    let rows = frames::failure(id, code, message)->Object_0;
    assert(rows[0].0 == "jsonrpc"@ && rows[1].0 == "id"@ && rows[2].0 == "error"@);
    assert(rows[0].0[0] == 'j' && rows[1].0[0] == 'i' && rows[2].0[0] == 'e');
}

proof fn lemma_notification(method: Seq<char>, params: JsonView)
    ensures
        !is_reply(frames::notification(method, params)),
{
    lemma_names();
    reveal_with_fuel(json::entry_from, 5);
    let rows = frames::notification(method, params)->Object_0;
    assert(rows[0].0 == "jsonrpc"@ && rows[1].0 == "method"@ && rows[2].0 == "params"@);
    assert(rows[0].0[0] == 'j' && rows[1].0[0] == 'm' && rows[2].0[0] == 'p');
}

proof fn lemma_replied(id: Option<JsonView>, result: JsonView)
    ensures
        match id {
            Some(i) => answered_once(rpc::replied(id, result), i),
            None => silent(rpc::replied(id, result)),
        },
{
    if let Some(i) = id {
        lemma_response(i, result);
        assert(answers(rpc::replied(id, result)[0], i));
    }
}

proof fn lemma_refused(id: Option<JsonView>, code: int, message: Seq<char>)
    ensures
        match id {
            Some(i) => answered_once(rpc::refused(id, code, message), i),
            None => silent(rpc::refused(id, code, message)),
        },
{
    if let Some(i) = id {
        lemma_failure(i, code, message);
        assert(answers(rpc::refused(id, code, message)[0], i));
    }
}

/// The frames are what `id` is owed: one answer to a request, none to a
/// notification.
pub open spec fn owed(frames: Seq<JsonView>, id: Option<JsonView>) -> bool {
    match id {
        Some(i) => answered_once(frames, i),
        None => silent(frames),
    }
}

proof fn lemma_messaged(start: Outcome, id: Option<JsonView>, params: JsonView, at: Situation)
    ensures
        owed(rpc::messaged(start, id, params, at).frames, id),
{
    let out = rpc::messaged(start, id, params, at);
    lemma_refused(id, -32000, "a turn is already running"@);
    lemma_refused(id, -32602, "content must be a non-empty string"@);
    let no = JsonView::Object(
        seq![("accepted"@, JsonView::Bool(true)), ("steered"@, JsonView::Bool(false))],
    );
    lemma_replied(id, no);
    let yes = JsonView::Object(
        seq![("accepted"@, JsonView::Bool(true)), ("steered"@, JsonView::Bool(true))],
    );
    lemma_replied(id, yes);
    let event = frames::event("message.queued"@, JsonView::Object(seq![]));
    lemma_notification("event"@, event->Object_0[2].1);
    let both = seq![event] + rpc::replied(id, yes);
    assert(both[0] == event);
    if let Some(i) = id {
        lemma_response(i, yes);
        assert(both[1] == frames::response(i, yes));
        assert(answers(both[1], i));
    }
    assert(owed(both, id));
}

proof fn lemma_prompted(start: Outcome, id: Option<JsonView>, params: JsonView, at: Situation)
    requires
        start.frames.len() == 0,
        start.action == ActionView::Nothing,
    ensures
        rpc::prompted(start, id, params, at).action == ActionView::Nothing ==> owed(
            rpc::prompted(start, id, params, at).frames,
            id,
        ),
        rpc::prompted(start, id, params, at).action != ActionView::Nothing ==> rpc::prompted(
            start,
            id,
            params,
            at,
        ).frames.len() == 0 && rpc::prompted(start, id, params, at).action->reply_to == id,
{
    lemma_refused(id, -32602, "prompt must contain text or an image"@);
    lemma_refused(id, -32602, "at most 4 images per prompt"@);
    lemma_refused(id, -32000, "images cannot be added to a turn that is already running"@);
    lemma_refused(id, -32000, "a turn is already running"@);
    lemma_replied(id, JsonView::Object(seq![("stopReason"@, JsonView::Text("end_turn"@))]));
}

/// A well-formed call: an object of JSON-RPC 2.0 whose method is a string.
pub open spec fn is_call(message: JsonView) -> bool {
    &&& message is Object
    &&& message.text_at("jsonrpc"@) == Some("2.0"@)
    &&& message.text_at("method"@) is Some
}

/// The answer to the call is the stop reason of the turn that it starts.
pub open spec fn deferred(action: ActionView) -> bool {
    action is StartTurn && action->reply_to is Some
}

/// A request receives exactly one response, with a result or an error, and a
/// notification receives none. The one answer that waits is the one that a
/// started turn owes: the action then carries the id to answer.
pub proof fn law_requests_answered_once(
    message: JsonView,
    at: Situation,
    pending: Seq<u64>,
    peer: PeerView,
)
    requires
        is_call(message),
    ensures
        ({
            let out = rpc::dispatched(message, at, pending, peer);
            if deferred(out.action) {
                out.frames.len() == 0 && out.action->reply_to == message.field("id"@)
            } else {
                owed(out.frames, message.field("id"@))
            }
        }),
{
    let id = message.field("id"@);
    let params = message.get("params"@);
    let method = message.text_at("method"@)->0;
    let start = rpc::idle(pending, peer);
    assert(message.field("method"@) is Some);
    let out = rpc::called(start, method, id, params, at);
    assert(rpc::dispatched(message, at, pending, peer) == out);
    if method == "initialize"@ && params.field("protocolVersion"@) is Some {
        lemma_replied(id, frames::capabilities(at.version@));
    } else if method == "authenticate"@ {
        lemma_replied(id, JsonView::Object(seq![]));
    } else if method == "session/new"@ {
        lemma_refused(id, -32000, "initialize must be called before session/new"@);
        lemma_refused(id, -32602, "session/new cwd must be a string"@);
        if let Some(cwd) = params.text_at("cwd"@) {
            let refusal = peer.session_refusal(cwd, at.opened@, params.field("mcpServers"@));
            if let Some(e) = refusal {
                lemma_refused(id, -32602, e);
            }
            lemma_replied(
                id,
                JsonView::Object(seq![("sessionId"@, JsonView::Text("medha-"@ + at.fresh@))]),
            );
        }
    } else if method == "session/prompt"@ {
        if let Some(e) = peer.stranger(params) {
            lemma_refused(id, -32602, e);
        } else {
            lemma_prompted(start, id, params, at);
        }
    } else if method == "session/cancel"@ {
        if let Some(e) = peer.stranger(params) {
            lemma_refused(id, -32602, e);
        }
        lemma_replied(id, JsonView::Object(seq![]));
    } else if method == "initialize"@ || method == "hello"@ {
        lemma_replied(id, frames::greeting(at.model@));
    } else if method == "message.send"@ {
        lemma_messaged(start, id, params, at);
    } else if method == "approval.respond"@ {
        lemma_replied(id, JsonView::Object(seq![("accepted"@, JsonView::Bool(true))]));
        lemma_refused(id, -32001, "approval is not pending"@);
        lemma_refused(id, -32602, "gate_id and an approve/deny decision are required"@);
    } else if method == "cancel"@ || method == "interrupt"@ {
        lemma_replied(
            id,
            JsonView::Object(
                seq![("cancelled"@, JsonView::Bool(at.steerable || pending.len() > 0))],
            ),
        );
    } else if method == "shutdown"@ || method == "exit"@ {
        lemma_replied(id, JsonView::Object(seq![("shutting_down"@, JsonView::Bool(true))]));
    } else {
        lemma_refused(id, -32601, "unknown method: "@ + method);
    }
}

/// A frame that is no call is answered with one error, under its id or under
/// null, unless it answers a gate; that is answered with nothing.
pub proof fn law_malformed_frames_refused(
    message: JsonView,
    at: Situation,
    pending: Seq<u64>,
    peer: PeerView,
)
    requires
        !is_call(message),
    ensures
        ({
            let out = rpc::dispatched(message, at, pending, peer);
            let id = if message is Object {
                rpc::or_null(message.field("id"@))
            } else {
                JsonView::Null
            };
            &&& out.action == ActionView::Nothing
            &&& out.peer == peer
            &&& if message is Object && message.text_at("jsonrpc"@) == Some("2.0"@)
                && message.field("method"@) is None && message.field("id"@) is Some
                && gate::gate_of(message.field("id"@)->0) is Some {
                out.frames.len() == 0
            } else {
                answered_once(out.frames, id) && out.frames[0].field("error"@) is Some
                    && out.pending == pending
            }
        }),
{
    let id = rpc::or_null(message.field("id"@));
    lemma_names();
    reveal_with_fuel(json::entry_from, 5);
    let out = rpc::dispatched(message, at, pending, peer);
    lemma_failure(JsonView::Null, -32600, "invalid JSON-RPC request"@);
    lemma_failure(id, -32600, "jsonrpc must be \"2.0\""@);
    lemma_failure(id, -32600, "request method must be a string"@);
    if out.frames.len() == 1 {
        let f = out.frames[0];
        assert(answers(f, f.field("id"@)->0));
        let rows = f->Object_0;
        assert(rows[0].0 == "jsonrpc"@ && rows[1].0 == "id"@ && rows[2].0 == "error"@);
        assert(rows[0].0[0] == 'j' && rows[1].0[0] == 'i' && rows[2].0[0] == 'e');
    }
}

/// A gate is answered only while it waits: after a frame has answered it, it
/// waits no more.
pub proof fn law_answered_gates_stop_waiting(
    message: JsonView,
    at: Situation,
    pending: Seq<u64>,
    peer: PeerView,
    gate: u64,
    approval: Approval,
)
    requires
        rpc::dispatched(message, at, pending, peer).effects.contains(
            EffectView::Answer(gate, approval),
        ),
    ensures
        gate::waits(pending, gate),
        !gate::waits(rpc::dispatched(message, at, pending, peer).pending, gate),
{
    let out = rpc::dispatched(message, at, pending, peer);
    let k = choose|k: int|
        0 <= k < out.effects.len() && out.effects[k] == EffectView::Answer(gate, approval);
    let all = rpc::cancelling(at.steerable) + rpc::denials(pending);
    if out.effects == all {
        let n = rpc::cancelling(at.steerable).len();
        assert(k >= n);
        assert(all[k] == rpc::denials(pending)[k - n]);
        assert(pending[k - n] == gate);
    }
    lemma_without(pending, gate);
}

/// However a turn ends, the prompt that it was started by is answered once, and
/// where nothing is owed no response is sent.
pub proof fn law_turn_answers_its_prompt(done: TurnDone, reply: Option<JsonView>)
    ensures
        match reply {
            Some(id) => answers(done.told(reply), id),
            None => !is_reply(done.told(reply)),
        },
{
    match reply {
        Some(id) => {
            if let TurnDone::Stopped(reason) = done {
                lemma_response(
                    id,
                    JsonView::Object(seq![("stopReason"@, JsonView::Text(reason.acp()))]),
                );
            }
            if let TurnDone::Failed(e) = done {
                lemma_failure(id, -32000, e@);
            }
            if let TurnDone::Crashed(e) = done {
                lemma_failure(id, -32000, "turn task failed: "@ + e@);
            }
            lemma_failure(id, -32000, "turn task disappeared"@);
        },
        None => {
            let f = done.told(reply);
            lemma_notification("event"@, f->Object_0[2].1);
        },
    }
}

/// The frame is an editor's reply to the permission request of a gate.
pub open spec fn replies_to(message: JsonView, gate: u64) -> bool {
    &&& message is Object
    &&& message.text_at("jsonrpc"@) == Some("2.0"@)
    &&& message.field("method"@) is None
    &&& message.field("id"@) == Some(
        JsonView::Text("medha-gate-"@ + number::decimal(gate as nat)),
    )
}

/// The reply says that the option was selected.
pub open spec fn selects(message: JsonView, option: Seq<char>) -> bool {
    &&& message.get("result"@).get("outcome"@).text_at("outcome"@) == Some("selected"@)
    &&& message.get("result"@).get("outcome"@).text_at("optionId"@) == Some(option)
}

/// The parameters of `approval.respond` approve: `approve` is true, or it is no truth value
/// and `decision` is `approve`.
pub open spec fn approves(params: JsonView) -> bool {
    ||| params.get("approve"@) == JsonView::Bool(true)
    ||| !(params.get("approve"@) is Bool) && params.text_at("decision"@) == Some("approve"@)
}

/// The parameters of `approval.respond` deny: `approve` is false, or it is no truth value
/// and `decision` is `deny`.
pub open spec fn denies(params: JsonView) -> bool {
    ||| params.get("approve"@) == JsonView::Bool(false)
    ||| !(params.get("approve"@) is Bool) && params.text_at("decision"@) == Some("deny"@)
}

proof fn lemma_option_ids()
    ensures
        "allow-once"@ != "allow-always"@,
        "allow-once"@ != "reject-once"@,
        "allow-always"@ != "reject-once"@,
        "approve"@ != "deny"@,
{
    reveal_strlit("allow-once");
    reveal_strlit("allow-always");
    reveal_strlit("reject-once");
    reveal_strlit("approve");
    reveal_strlit("deny");
    assert("allow-once"@.len() == 10 && "allow-always"@.len() == 12 && "reject-once"@.len() == 11);
    assert("approve"@.len() == 7 && "deny"@.len() == 4);
}

/// A reply to a waiting gate answers that gate and no other, and nothing is sent: once
/// exactly where `allow-once` was selected, for good exactly where `allow-always` was, and
/// with a denial otherwise. A gate that does not wait is not answered.
pub proof fn law_replies_answer_their_gate(
    message: JsonView,
    at: Situation,
    pending: Seq<u64>,
    peer: PeerView,
    gate: u64,
)
    requires
        replies_to(message, gate),
    ensures
        ({
            let out = rpc::dispatched(message, at, pending, peer);
            &&& out.action == ActionView::Nothing
            &&& out.frames.len() == 0
            &&& out.peer == peer
            &&& if pending.contains(gate) {
                &&& out.effects.len() == 1
                &&& out.effects[0] is Answer
                &&& out.effects[0]->Answer_0 == gate
                &&& (out.effects[0]->Answer_1 == Approval::Once) == selects(message, "allow-once"@)
                &&& (out.effects[0]->Answer_1 == Approval::Always) == selects(
                    message,
                    "allow-always"@,
                )
            } else {
                out.effects.len() == 0
            }
        }),
{
    lemma_option_ids();
    gate::law_gate_id_round_trip(gate);
    assert(frames::gate_request_id(gate as nat) == "medha-gate-"@ + number::decimal(gate as nat));
}

proof fn lemma_option(id: Seq<char>, name: Seq<char>, kind: Seq<char>)
    ensures
        frames::option(id, name, kind).text_at("optionId"@) == Some(id),
        frames::option(id, name, kind).text_at("kind"@) == Some(kind),
{
    reveal_strlit("optionId");
    reveal_strlit("name");
    reveal_strlit("kind");
    let rows = frames::option(id, name, kind)->Object_0;
    assert(rows[0].0[0] == 'o' && rows[1].0[0] == 'n' && rows[2].0[0] == 'k');
    reveal_with_fuel(json::entry_from, 4);
}

/// The options that a permission request offers.
pub open spec fn offered(request: JsonView) -> Seq<JsonView> {
    request.get("params"@).get("options"@).items()
}

proof fn lemma_offered(
    session: Option<Seq<char>>,
    gate: u64,
    action: Seq<char>,
    detail: Option<Seq<char>>,
    escalated: bool,
)
    ensures
        offered(frames::permission_request(session, gate as nat, action, detail, escalated))
            == frames::options(escalated),
        frames::permission_request(session, gate as nat, action, detail, escalated).field("id"@)
            == Some(JsonView::Text("medha-gate-"@ + number::decimal(gate as nat))),
{
    let r = frames::permission_request(session, gate as nat, action, detail, escalated);
    lemma_names();
    reveal_strlit("sessionId");
    reveal_strlit("toolCall");
    reveal_strlit("options");
    reveal_with_fuel(json::entry_from, 5);
    let rows = r->Object_0;
    assert(rows[0].0[0] == 'j' && rows[1].0[0] == 'i' && rows[2].0[0] == 'm' && rows[3].0[0]
        == 'p');
    assert(r.get("params"@) == rows[3].1);
    let inner = rows[3].1->Object_0;
    assert(inner[0].0[0] == 's' && inner[1].0[0] == 't' && inner[2].0[0] == 'o');
}

/// What is pressed is what a waiting gate is told. Of the options that a permission request
/// offers, one of the kind `reject_once` denies, one of the kind `allow_once` approves once
/// and one of the kind `allow_always` for good; there are no others. A rejection and an
/// approval are always offered, and consent for good exactly where the action is not
/// escalated.
pub proof fn law_options_mean_what_they_say(
    session: Option<Seq<char>>,
    action: Seq<char>,
    detail: Option<Seq<char>>,
    escalated: bool,
    message: JsonView,
    at: Situation,
    pending: Seq<u64>,
    peer: PeerView,
    gate: u64,
    i: int,
)
    requires
        replies_to(message, gate),
        pending.contains(gate),
    ensures
        ({
            let request = frames::permission_request(session, gate as nat, action, detail, escalated);
            let all = offered(request);
            let kinds = all.map_values(|o: JsonView| o.text_at("kind"@));
            &&& request.field("id"@) == message.field("id"@)
            &&& kinds.contains(Some("reject_once"@)) && kinds.contains(Some("allow_once"@))
            &&& kinds.contains(Some("allow_always"@)) == !escalated
            &&& 0 <= i < all.len() && all[i].text_at("optionId"@) is Some && selects(
                message,
                all[i].text_at("optionId"@)->0,
            ) ==> {
                let effects = rpc::dispatched(message, at, pending, peer).effects;
                let kind = all[i].text_at("kind"@);
                &&& kind == Some("reject_once"@) ==> effects == seq![
                    EffectView::Answer(gate, Approval::Deny),
                ]
                &&& kind == Some("allow_once"@) ==> effects == seq![
                    EffectView::Answer(gate, Approval::Once),
                ]
                &&& kind == Some("allow_always"@) ==> effects == seq![
                    EffectView::Answer(gate, Approval::Always),
                ]
            }
        }),
{
    lemma_option_ids();
    lemma_offered(session, gate, action, detail, escalated);
    law_replies_answer_their_gate(message, at, pending, peer, gate);
    lemma_option("allow-once"@, "Allow once"@, "allow_once"@);
    lemma_option("allow-always"@, "Allow always"@, "allow_always"@);
    lemma_option("reject-once"@, "Reject"@, "reject_once"@);
    reveal_strlit("allow_once");
    reveal_strlit("allow_always");
    reveal_strlit("reject_once");
    assert("allow_once"@.len() == 10 && "allow_always"@.len() == 12 && "reject_once"@.len() == 11);
    let all = frames::options(escalated);
    let kinds = all.map_values(|o: JsonView| o.text_at("kind"@));
    assert(kinds[0] == Some("allow_once"@));
    assert(kinds[all.len() - 1] == Some("reject_once"@));
    if !escalated {
        assert(kinds[1] == Some("allow_always"@));
    }
    let effects = rpc::dispatched(message, at, pending, peer).effects;
    assert(effects =~= seq![EffectView::Answer(gate, effects[0]->Answer_1)]);
}

/// The parameters of `approval.respond`, where the frame calls it.
pub open spec fn responds(message: JsonView) -> bool {
    is_call(message) && message.text_at("method"@) == Some("approval.respond"@)
}

/// The methods differ.
pub proof fn lemma_methods()
    ensures
        "approval.respond"@.len() == 16,
        "session/prompt"@.len() == 14 && "session/prompt"@[8] == 'p',
        "session/cancel"@.len() == 14 && "session/cancel"@[8] == 'c',
        "authenticate"@.len() == 12 && "authenticate"@[0] == 'a',
        "message.send"@.len() == 12 && "message.send"@[0] == 'm',
        "session/new"@.len() == 11,
        "initialize"@.len() == 10,
        "interrupt"@.len() == 9,
        "shutdown"@.len() == 8,
        "cancel"@.len() == 6,
        "hello"@.len() == 5,
        "exit"@.len() == 4,
{
    reveal_strlit("approval.respond");
    reveal_strlit("session/prompt");
    reveal_strlit("session/cancel");
    reveal_strlit("authenticate");
    reveal_strlit("message.send");
    reveal_strlit("session/new");
    reveal_strlit("initialize");
    reveal_strlit("interrupt");
    reveal_strlit("shutdown");
    reveal_strlit("cancel");
    reveal_strlit("hello");
    reveal_strlit("exit");
}

/// `approval.respond` answers a waiting gate that it names: once where it approves and with a
/// denial where it denies. Otherwise no gate is answered.
pub proof fn law_responses_answer_their_gate(
    message: JsonView,
    at: Situation,
    pending: Seq<u64>,
    peer: PeerView,
)
    requires
        responds(message),
    ensures
        ({
            let out = rpc::dispatched(message, at, pending, peer);
            let params = message.get("params"@);
            match params.get("gate_id"@) {
                JsonView::Unsigned(gate) => if pending.contains(gate) && approves(params) {
                    out.effects == seq![EffectView::Answer(gate, Approval::Once)]
                } else if pending.contains(gate) && denies(params) {
                    out.effects == seq![EffectView::Answer(gate, Approval::Deny)]
                } else {
                    out.effects.len() == 0
                },
                _ => out.effects.len() == 0 && out.pending == pending,
            }
        }),
{
    lemma_methods();
    lemma_option_ids();
}

/// No gate is opened but by consent: an approval comes of a reply that selected it or of an
/// `approval.respond` that approves, and each names that gate. Whatever else a frame is, the
/// gates that it answers are denied.
pub proof fn law_only_consent_approves(
    message: JsonView,
    at: Situation,
    pending: Seq<u64>,
    peer: PeerView,
    i: int,
)
    requires
        0 <= i < rpc::dispatched(message, at, pending, peer).effects.len(),
        rpc::dispatched(message, at, pending, peer).effects[i] is Answer,
    ensures
        ({
            let gate = rpc::dispatched(message, at, pending, peer).effects[i]->Answer_0;
            let approval = rpc::dispatched(message, at, pending, peer).effects[i]->Answer_1;
            let id = message.field("id"@);
            &&& pending.contains(gate)
            &&& approval == Approval::Always ==> selects(message, "allow-always"@)
            &&& approval == Approval::Once ==> selects(message, "allow-once"@) || (responds(message)
                && approves(message.get("params"@)) && message.get("params"@).get("gate_id"@)
                == JsonView::Unsigned(gate))
            &&& approval != Approval::Deny && !responds(message) ==> message.field("method"@) is None
                && id is Some && gate::gate_of(id->0) == Some(gate as nat)
        }),
{
    lemma_option_ids();
    let out = rpc::dispatched(message, at, pending, peer);
    let all = rpc::cancelling(at.steerable) + rpc::denials(pending);
    if out.effects == all {
        let n = rpc::cancelling(at.steerable).len();
        assert(i >= n);
        assert(all[i] == rpc::denials(pending)[i - n]);
        assert(pending[i - n] == all[i]->Answer_0);
    }
}

/// The frame calls off what is under way: a cancellation or the end of the process, from
/// the peer whose session it is.
pub open spec fn calls_off(message: JsonView, peer: PeerView) -> bool {
    let method = message.text_at("method"@);
    &&& is_call(message)
    &&& {
        ||| method == Some("cancel"@)
        ||| method == Some("interrupt"@)
        ||| method == Some("shutdown"@)
        ||| method == Some("exit"@)
        ||| method == Some("session/cancel"@) && peer.session is Some && message.get(
            "params"@,
        ).text_at("sessionId"@) == peer.session
    }
}

/// Calling off denies every gate that waits and leaves none waiting; it cancels the turn
/// where one can be cancelled, and ends the process exactly where it says so.
pub proof fn law_calling_off_denies_all(
    message: JsonView,
    at: Situation,
    pending: Seq<u64>,
    peer: PeerView,
)
    requires
        calls_off(message, peer),
    ensures
        ({
            let out = rpc::dispatched(message, at, pending, peer);
            let method = message.text_at("method"@);
            &&& out.pending.len() == 0
            &&& forall|i: int|
                0 <= i < pending.len() ==> out.effects.contains(
                    EffectView::Answer(#[trigger] pending[i], Approval::Deny),
                )
            &&& out.effects.contains(EffectView::CancelTurn) == at.steerable
            &&& (out.action == ActionView::Shutdown) == (method == Some("shutdown"@) || method
                == Some("exit"@))
            &&& !(out.action is StartTurn)
        }),
{
    lemma_methods();
    let out = rpc::dispatched(message, at, pending, peer);
    let all = rpc::cancelling(at.steerable) + rpc::denials(pending);
    assert(out.effects == all);
    let n = rpc::cancelling(at.steerable).len() as int;
    assert forall|i: int| 0 <= i < pending.len() implies out.effects.contains(
        EffectView::Answer(#[trigger] pending[i], Approval::Deny),
    ) by {
        assert(all[n + i] == rpc::denials(pending)[i]);
    }
    if at.steerable {
        assert(all[0] == EffectView::CancelTurn);
    } else {
        assert forall|i: int| 0 <= i < all.len() implies all[i] != EffectView::CancelTurn by {
            assert(all[i] == rpc::denials(pending)[i]);
        }
    }
}

/// The words that stand for an image alone say something.
pub proof fn lemma_image_prompt()
    ensures
        text::trim(IMAGE_ONLY_PROMPT@).len() > 0,
{
    reveal_strlit("Describe the attached image(s).");
    let s = IMAGE_ONLY_PROMPT@;
    assert(s[0] == 'D' && s.last() == '.');
    assert(text::trim_start(s) == s);
    assert(text::trim_end(s) == s);
}

/// A turn starts only where none runs and with text to go by, text joins only a running
/// turn that takes it, and what starts or joins is what was said.
pub proof fn law_one_turn_at_a_time(
    message: JsonView,
    at: Situation,
    pending: Seq<u64>,
    peer: PeerView,
)
    ensures
        ({
            let out = rpc::dispatched(message, at, pending, peer);
            let method = message.text_at("method"@);
            let params = message.get("params"@);
            &&& out.action is StartTurn ==> {
                &&& !at.running
                &&& is_call(message)
                &&& text::trim(out.action->content).len() > 0
                &&& out.effects.len() == 0
                &&& out.pending == pending
                &&& method == Some("session/prompt"@) || method == Some("message.send"@)
                &&& method == Some("session/prompt"@) ==> peer.session is Some && params.text_at(
                    "sessionId"@,
                ) == peer.session && out.action->images.len() <= 4
                &&& method == Some("message.send"@) ==> params.text_at("content"@) == Some(
                    out.action->content,
                ) && out.action->images.len() == 0
            }
            &&& forall|i: int|
                0 <= i < out.effects.len() && (#[trigger] out.effects[i]) is Steer ==> {
                    &&& at.running && at.steerable
                    &&& method == Some("message.send"@) ==> params.text_at("content"@) == Some(
                        out.effects[i]->Steer_0,
                    )
                    &&& method == Some("session/prompt"@) || method == Some("message.send"@)
                }
            &&& out.action == ActionView::Shutdown ==> method == Some("shutdown"@) || method == Some(
                "exit"@,
            )
        }),
{
    lemma_methods();
    lemma_image_prompt();
    let out = rpc::dispatched(message, at, pending, peer);
    let all = rpc::cancelling(at.steerable) + rpc::denials(pending);
    if out.effects == all {
        assert forall|i: int| 0 <= i < all.len() implies !((#[trigger] all[i]) is Steer) by {
            let n = rpc::cancelling(at.steerable).len();
            if i >= n {
                assert(all[i] == rpc::denials(pending)[i - n]);
            }
        }
    }
}

/// The peer is changed by `initialize`, which selects its dialect for good, and by
/// `session/new`, which gives it its one session in the workspace; by nothing else.
pub proof fn law_one_session(
    message: JsonView,
    at: Situation,
    pending: Seq<u64>,
    peer: PeerView,
)
    ensures
        ({
            let out = rpc::dispatched(message, at, pending, peer);
            let method = message.text_at("method"@);
            let params = message.get("params"@);
            &&& out.peer.workspace == peer.workspace
            &&& peer.acp ==> out.peer.acp
            &&& out.peer.acp && !peer.acp ==> method == Some("initialize"@) && params.field(
                "protocolVersion"@,
            ) is Some
            &&& peer.session is Some ==> out.peer.session == peer.session
            &&& out.peer.session != peer.session ==> {
                &&& method == Some("session/new"@)
                &&& peer.acp
                &&& params.text_at("cwd"@) is Some && paths::absolute(params.text_at("cwd"@)->0)
                &&& at.opened@ is At && paths::same_place(at.opened@->At_0, peer.workspace)
                &&& out.peer.session == Some("medha-"@ + at.fresh@)
                &&& params.field("mcpServers"@) matches Some(v) ==> v is List && v->List_0.len()
                    == 0
            }
        }),
{
}

/// A request about a session that is not the peer's own starts nothing, steers nothing and
/// cancels nothing, and is refused.
pub proof fn law_strangers_are_refused(
    message: JsonView,
    at: Situation,
    pending: Seq<u64>,
    peer: PeerView,
)
    requires
        is_call(message),
        message.text_at("method"@) == Some("session/prompt"@) || message.text_at("method"@) == Some(
            "session/cancel"@,
        ),
        peer.session is None || message.get("params"@).text_at("sessionId"@) != peer.session,
    ensures
        ({
            let out = rpc::dispatched(message, at, pending, peer);
            &&& out.action == ActionView::Nothing
            &&& out.effects.len() == 0
            &&& out.pending == pending
            &&& out.peer == peer
            &&& message.field("id"@) is Some ==> out.frames.len() == 1 && out.frames[0].field(
                "error"@,
            ) is Some
        }),
{
    lemma_methods();
    if let Some(id) = message.field("id"@) {
        if let Some(e) = peer.stranger(message.get("params"@)) {
            lemma_failure(id, -32602, e);
            lemma_names();
            reveal_with_fuel(json::entry_from, 5);
            let rows = frames::failure(id, -32602, e)->Object_0;
            assert(rows[0].0[0] == 'j' && rows[1].0[0] == 'i' && rows[2].0[0] == 'e');
        }
    }
}

proof fn lemma_without(pending: Seq<u64>, gate: u64)
    ensures
        !gate::without(pending, gate).contains(gate),
    decreases pending.len(),
{
    reveal(Seq::filter);
    if pending.len() > 0 {
        lemma_without(pending.drop_last(), gate);
        let head = gate::without(pending.drop_last(), gate);
        let now = gate::without(pending, gate);
        assert forall|i: int| 0 <= i < now.len() implies now[i] != gate by {
            if i < head.len() {
                assert(now[i] == head[i]);
                assert(head.contains(head[i]));
            }
        }
    }
}

} // verus!

//! The frames that the bridge sends.

use vstd::prelude::*;
use vstd::string::*;
use crate::json::{
    array, array_of_texts, object0, object1, object2, object3, object4, object5, object6, put_entry, string,
    Json, JsonView,
};
use crate::json;
use crate::json_text;
use crate::json_text::render;
use crate::number;
use crate::number::show;
use crate::text;
use crate::text::same;

verus! {

/// The major version of the Agent Client Protocol that the bridge speaks.
pub const ACP_PROTOCOL_VERSION: u64 = 1;

/// A JSON-RPC notification.
pub open spec fn notification(method: Seq<char>, params: JsonView) -> JsonView {
    JsonView::Object(
        seq![
            ("jsonrpc"@, JsonView::Text("2.0"@)),
            ("method"@, JsonView::Text(method)),
            ("params"@, params),
        ],
    )
}

/// The answer to a request that succeeded.
pub open spec fn response(id: JsonView, result: JsonView) -> JsonView {
    JsonView::Object(
        seq![("jsonrpc"@, JsonView::Text("2.0"@)), ("id"@, id), ("result"@, result)],
    )
}

/// A JSON-RPC error code, which is negative.
pub open spec fn code_value(code: int) -> JsonView {
    JsonView::Negative(code as i64)
}

/// The answer to a request that failed.
pub open spec fn failure(id: JsonView, code: int, message: Seq<char>) -> JsonView {
    JsonView::Object(
        seq![
            ("jsonrpc"@, JsonView::Text("2.0"@)),
            ("id"@, id),
            (
                "error"@,
                JsonView::Object(
                    seq![("code"@, code_value(code)), ("message"@, JsonView::Text(message))],
                ),
            ),
        ],
    )
}

/// A notification of something that happened in the session: its parameters
/// name the kind of event.
pub open spec fn event(kind: Seq<char>, params: JsonView) -> JsonView {
    notification(
        "event"@,
        match params {
            JsonView::Object(rows) => JsonView::Object(
                json::put(rows, "kind"@, JsonView::Text(kind)),
            ),
            other => other,
        },
    )
}

pub fn notification_frame(method: &str, params: Json) -> (out: Json)
    ensures
        out@ == notification(method@, params@),
{
    object3("jsonrpc", string("2.0"), "method", string(method), "params", params)
}

pub fn response_frame(id: Json, result: Json) -> (out: Json)
    ensures
        out@ == response(id@, result@),
{
    object3("jsonrpc", string("2.0"), "id", id, "result", result)
}

pub fn error_frame(id: Json, code: i64, message: &str) -> (out: Json)
    ensures
        out@ == failure(id@, code as int, message@),
{
    object3(
        "jsonrpc",
        string("2.0"),
        "id",
        id,
        "error",
        object2("code", Json::Negative(code), "message", string(message)),
    )
}

pub fn event_frame(kind: &str, params: Json) -> (out: Json)
    ensures
        out@ == event(kind@, params@),
{
    match params {
        Json::Object(rows) => {
            let mut rows = rows;
            proof {
                json::lemma_object_view(rows);
            }
            put_entry(&mut rows, "kind", string(kind));
            proof {
                json::lemma_object_view(rows);
            }
            notification_frame("event", Json::Object(rows))
        },
        other => notification_frame("event", other),
    }
}

/// A `session/update` notification.
pub open spec fn update(session: Seq<char>, body: JsonView) -> JsonView {
    notification(
        "session/update"@,
        JsonView::Object(seq![("sessionId"@, JsonView::Text(session)), ("update"@, body)]),
    )
}

pub fn update_frame(session: &str, body: Json) -> (out: Json)
    ensures
        out@ == update(session@, body@),
{
    notification_frame("session/update", object2("sessionId", string(session), "update", body))
}

/// What the peer of a session is told: an ACP client hears of its session, once
/// it has one; a peer of the plain dialect gets an event.
pub open spec fn told(
    acp: bool,
    session: Option<Seq<char>>,
    body: JsonView,
    kind: Seq<char>,
    params: JsonView,
) -> Option<JsonView> {
    if acp {
        match session {
            Some(s) => Some(update(s, body)),
            None => None,
        }
    } else {
        Some(event(kind, params))
    }
}

/// The view of an optional frame.
pub open spec fn frame_view(v: Option<Json>) -> Option<JsonView> {
    match v {
        Some(j) => Some(j@),
        None => None,
    }
}

fn tell(acp: bool, session: Option<&String>, body: Json, kind: &str, params: Json) -> (out: Option<
    Json,
>)
    ensures
        frame_view(out) == told(acp, text::ref_view(session), body@, kind@, params@),
{
    if acp {
        match session {
            Some(s) => Some(update_frame(s.as_str(), body)),
            None => None,
        }
    } else {
        Some(event_frame(kind, params))
    }
}

/// The text content of a message chunk.
pub open spec fn chunk(kind: Seq<char>, delta: Seq<char>) -> JsonView {
    JsonView::Object(
        seq![
            ("sessionUpdate"@, JsonView::Text(kind)),
            (
                "content"@,
                JsonView::Object(
                    seq![("type"@, JsonView::Text("text"@)), ("text"@, JsonView::Text(delta))],
                ),
            ),
        ],
    )
}

fn chunk_body(kind: &str, delta: &str) -> (out: Json)
    ensures
        out@ == chunk(kind@, delta@),
{
    object2(
        "sessionUpdate",
        string(kind),
        "content",
        object2("type", string("text"), "text", string(delta)),
    )
}

/// The model wrote a piece of its answer.
pub fn text_frame(acp: bool, session: Option<&String>, delta: &str) -> (out: Option<Json>)
    ensures
        frame_view(out) == told(
            acp,
            text::ref_view(session),
            chunk("agent_message_chunk"@, delta@),
            "model.text"@,
            JsonView::Object(seq![("delta"@, JsonView::Text(delta@))]),
        ),
{
    tell(
        acp,
        session,
        chunk_body("agent_message_chunk", delta),
        "model.text",
        object1("delta", string(delta)),
    )
}

/// The model wrote a piece of its reasoning.
pub fn reasoning_frame(acp: bool, session: Option<&String>, delta: &str) -> (out: Option<Json>)
    ensures
        frame_view(out) == told(
            acp,
            text::ref_view(session),
            chunk("agent_thought_chunk"@, delta@),
            "model.reasoning"@,
            JsonView::Object(seq![("delta"@, JsonView::Text(delta@))]),
        ),
{
    tell(
        acp,
        session,
        chunk_body("agent_thought_chunk", delta),
        "model.reasoning",
        object1("delta", string(delta)),
    )
}

/// The ACP kind closest to a tool, by which an editor picks an icon.
pub open spec fn tool_kind(tool: Seq<char>) -> Seq<char> {
    if tool == "read"@ || tool == "ls"@ || tool == "skill"@ {
        "read"@
    } else if tool == "edit"@ {
        "edit"@
    } else if tool == "grep"@ || tool == "glob"@ || tool == "code"@ || tool == "sessions.search"@ {
        "search"@
    } else if tool == "shell.exec"@ || tool == "git"@ || tool == "diagnostics"@ {
        "execute"@
    } else if tool == "web"@ {
        "fetch"@
    } else if tool == "update_plan"@ || tool == "clarify"@ {
        "think"@
    } else {
        "other"@
    }
}

/// The ACP kind closest to a tool.
pub fn acp_tool_kind(tool: &str) -> (out: &'static str)
    ensures
        out@ == tool_kind(tool@),
{
    if same(tool, "read") || same(tool, "ls") || same(tool, "skill") {
        "read"
    } else if same(tool, "edit") {
        "edit"
    } else if same(tool, "grep") || same(tool, "glob") || same(tool, "code") || same(
        tool,
        "sessions.search",
    ) {
        "search"
    } else if same(tool, "shell.exec") || same(tool, "git") || same(tool, "diagnostics") {
        "execute"
    } else if same(tool, "web") {
        "fetch"
    } else if same(tool, "update_plan") || same(tool, "clarify") {
        "think"
    } else {
        "other"
    }
}

/// A tool call as an ACP client sees it.
pub open spec fn call_body(id: Seq<char>, tool: Seq<char>, args: JsonView) -> JsonView {
    JsonView::Object(
        seq![
            ("sessionUpdate"@, JsonView::Text("tool_call"@)),
            ("toolCallId"@, JsonView::Text(id)),
            ("title"@, JsonView::Text(tool)),
            ("kind"@, JsonView::Text(tool_kind(tool))),
            ("status"@, JsonView::Text("in_progress"@)),
            ("rawInput"@, args),
        ],
    )
}

fn call_update(id: &str, tool: &str, args: &Json) -> (out: Json)
    ensures
        out@ == call_body(id@, tool@, args@),
{
    object6(
        "sessionUpdate",
        string("tool_call"),
        "toolCallId",
        string(id),
        "title",
        string(tool),
        "kind",
        string(acp_tool_kind(tool)),
        "status",
        string("in_progress"),
        "rawInput",
        args.copy(),
    )
}

/// A tool was called; without an id of its own, the tool's name is its id.
pub fn tool_call_frame(acp: bool, session: Option<&String>, tool: &str, args: &Json) -> (out:
    Option<Json>)
    ensures
        frame_view(out) == told(
            acp,
            text::ref_view(session),
            call_body(tool@, tool@, args@),
            "tool.call"@,
            JsonView::Object(seq![("tool"@, JsonView::Text(tool@)), ("args"@, args@)]),
        ),
{
    tell(
        acp,
        session,
        call_update(tool, tool, args),
        "tool.call",
        object2("tool", string(tool), "args", args.copy()),
    )
}

/// A tool was called under the provider's call id.
pub fn tool_call_with_id_frame(
    acp: bool,
    session: Option<&String>,
    id: &str,
    tool: &str,
    args: &Json,
) -> (out: Option<Json>)
    ensures
        frame_view(out) == told(
            acp,
            text::ref_view(session),
            call_body(id@, tool@, args@),
            "tool.call"@,
            JsonView::Object(
                seq![
                    ("id"@, JsonView::Text(id@)),
                    ("tool"@, JsonView::Text(tool@)),
                    ("args"@, args@),
                ],
            ),
        ),
{
    tell(
        acp,
        session,
        call_update(id, tool, args),
        "tool.call",
        object3("id", string(id), "tool", string(tool), "args", args.copy()),
    )
}

/// A tool's result as an ACP client sees it: whether it succeeded, and its
/// payload as text.
pub open spec fn result_body(id: Seq<char>, ok: bool, shown: Seq<char>) -> JsonView {
    JsonView::Object(
        seq![
            ("sessionUpdate"@, JsonView::Text("tool_call_update"@)),
            ("toolCallId"@, JsonView::Text(id)),
            (
                "status"@,
                JsonView::Text(
                    if ok {
                        "completed"@
                    } else {
                        "failed"@
                    },
                ),
            ),
            (
                "content"@,
                JsonView::List(
                    seq![
                        JsonView::Object(
                            seq![
                                ("type"@, JsonView::Text("content"@)),
                                (
                                    "content"@,
                                    JsonView::Object(
                                        seq![
                                            ("type"@, JsonView::Text("text"@)),
                                            ("text"@, JsonView::Text(shown)),
                                        ],
                                    ),
                                ),
                            ],
                        ),
                    ],
                ),
            ),
        ],
    )
}

fn result_update(id: &str, ok: bool, shown: &str) -> (out: Json)
    ensures
        out@ == result_body(id@, ok, shown@),
{
    let status = if ok {
        "completed"
    } else {
        "failed"
    };
    let part = object2(
        "type",
        string("content"),
        "content",
        object2("type", string("text"), "text", string(shown)),
    );
    let ghost pv = part@;
    let mut parts: Vec<Json> = Vec::new();
    parts.push(part);
    assert(json::values(parts@) =~= seq![pv]);
    object4(
        "sessionUpdate",
        string("tool_call_update"),
        "toolCallId",
        string(id),
        "status",
        string(status),
        "content",
        array(parts),
    )
}

/// A tool returned; without an id of its own, the tool's name is its id.
pub fn tool_result_frame(
    acp: bool,
    session: Option<&String>,
    tool: &str,
    ok: bool,
    payload: &Json,
) -> (out: Option<Json>)
    ensures
        frame_view(out) == told(
            acp,
            text::ref_view(session),
            result_body(tool@, ok, json_text::rendered(payload@)),
            "tool.observation"@,
            JsonView::Object(
                seq![
                    ("tool"@, JsonView::Text(tool@)),
                    ("ok"@, JsonView::Bool(ok)),
                    ("payload"@, payload@),
                ],
            ),
        ),
{
    tell(
        acp,
        session,
        result_update(tool, ok, render(payload).as_str()),
        "tool.observation",
        object3("tool", string(tool), "ok", Json::Bool(ok), "payload", payload.copy()),
    )
}

/// A tool returned under the provider's call id.
pub fn tool_result_with_id_frame(
    acp: bool,
    session: Option<&String>,
    id: &str,
    tool: &str,
    ok: bool,
    payload: &Json,
) -> (out: Option<Json>)
    ensures
        frame_view(out) == told(
            acp,
            text::ref_view(session),
            result_body(id@, ok, json_text::rendered(payload@)),
            "tool.observation"@,
            JsonView::Object(
                seq![
                    ("id"@, JsonView::Text(id@)),
                    ("tool"@, JsonView::Text(tool@)),
                    ("ok"@, JsonView::Bool(ok)),
                    ("payload"@, payload@),
                ],
            ),
        ),
{
    tell(
        acp,
        session,
        result_update(id, ok, render(payload).as_str()),
        "tool.observation",
        object4(
            "id",
            string(id),
            "tool",
            string(tool),
            "ok",
            Json::Bool(ok),
            "payload",
            payload.copy(),
        ),
    )
}

/// A count, or null where it was not measured.
pub open spec fn count_or_null(n: Option<u64>) -> JsonView {
    match n {
        Some(v) => JsonView::Unsigned(v),
        None => JsonView::Null,
    }
}

fn count_value(n: Option<u64>) -> (out: Json)
    ensures
        out@ == count_or_null(n),
{
    match n {
        Some(v) => Json::Unsigned(v),
        None => Json::Null,
    }
}

/// The provider reported its usage. A cache that was not measured is null, not
/// zero.
pub fn usage_frame(prompt_tokens: u64, total_tokens: u64, cached: Option<u64>) -> (out: Json)
    ensures
        out@ == event(
            "usage"@,
            JsonView::Object(
                seq![
                    ("prompt_tokens"@, JsonView::Unsigned(prompt_tokens)),
                    ("total_tokens"@, JsonView::Unsigned(total_tokens)),
                    ("cached_prompt_tokens"@, count_or_null(cached)),
                ],
            ),
        ),
{
    event_frame(
        "usage",
        object3(
            "prompt_tokens",
            Json::Unsigned(prompt_tokens),
            "total_tokens",
            Json::Unsigned(total_tokens),
            "cached_prompt_tokens",
            count_value(cached),
        ),
    )
}

/// How full the context is. How far the count can be relied on and the share come as
/// the model loop gives them.
pub fn context_pressure_frame(
    input_tokens: u64,
    input_limit: Option<u64>,
    usable_input_tokens: Option<u64>,
    quality: Json,
    percent: Json,
) -> (out: Json)
    ensures
        out@ == event(
            "context_pressure"@,
            JsonView::Object(
                seq![
                    ("input_tokens"@, JsonView::Unsigned(input_tokens)),
                    ("input_limit"@, count_or_null(input_limit)),
                    ("usable_input_tokens"@, count_or_null(usable_input_tokens)),
                    ("quality"@, quality@),
                    ("percent"@, percent@),
                ],
            ),
        ),
{
    event_frame(
        "context_pressure",
        object5(
            "input_tokens",
            Json::Unsigned(input_tokens),
            "input_limit",
            count_value(input_limit),
            "usable_input_tokens",
            count_value(usable_input_tokens),
            "quality",
            quality,
            "percent",
            percent,
        ),
    )
}

/// The context was compacted.
pub fn compaction_frame(before: u32, after: u32, summarized: bool, summary: Option<&String>) -> (out:
    Json)
    ensures
        out@ == event(
            "compaction"@,
            JsonView::Object(
                seq![
                    ("before"@, JsonView::Unsigned(before as u64)),
                    ("after"@, JsonView::Unsigned(after as u64)),
                    ("summarized"@, JsonView::Bool(summarized)),
                    ("summary"@, json::text_or_null(text::ref_view(summary))),
                ],
            ),
        ),
{
    let summary = match summary {
        Some(s) => string(s.as_str()),
        None => Json::Null,
    };
    event_frame(
        "compaction",
        object4(
            "before",
            Json::Unsigned(before as u64),
            "after",
            Json::Unsigned(after as u64),
            "summarized",
            Json::Bool(summarized),
            "summary",
            summary,
        ),
    )
}

/// The verifier ran.
pub fn verify_frame(ok: bool, summary: &str) -> (out: Json)
    ensures
        out@ == event(
            "verify"@,
            JsonView::Object(
                seq![("ok"@, JsonView::Bool(ok)), ("summary"@, JsonView::Text(summary@))],
            ),
        ),
{
    event_frame("verify", object2("ok", Json::Bool(ok), "summary", string(summary)))
}

/// Compaction began or ended.
pub fn compacting_frame(active: bool) -> (out: Json)
    ensures
        out@ == event("compacting"@, JsonView::Object(seq![("active"@, JsonView::Bool(active))])),
{
    event_frame("compacting", object1("active", Json::Bool(active)))
}

/// A message reached the running turn.
pub fn steered_frame(content: &str) -> (out: Json)
    ensures
        out@ == event(
            "message.steered"@,
            JsonView::Object(seq![("content"@, JsonView::Text(content@))]),
        ),
{
    event_frame("message.steered", object1("content", string(content)))
}

/// Messages that no turn took are handed back.
pub fn returned_frame(contents: &Vec<String>) -> (out: Json)
    ensures
        out@ == event(
            "message.returned"@,
            JsonView::Object(
                seq![
                    (
                        "contents"@,
                        JsonView::List(
                            text::views(contents@).map_values(|s: Seq<char>| JsonView::Text(s)),
                        ),
                    ),
                ],
            ),
        ),
{
    event_frame("message.returned", object1("contents", array_of_texts(contents)))
}

/// The model started its answer over.
pub fn restarted_frame() -> (out: Json)
    ensures
        out@ == event("model.restarted"@, JsonView::Object(seq![])),
{
    event_frame("model.restarted", object0())
}

/// The cards that the plain dialect has.
pub open spec fn greeting(model: Seq<char>) -> JsonView {
    JsonView::Object(
        seq![
            ("proto"@, JsonView::Text("1.0"@)),
            ("model"@, JsonView::Text(model)),
            (
                "caps"@,
                JsonView::Object(
                    seq![
                        (
                            "cards"@,
                            JsonView::List(
                                seq![JsonView::Text("approval"@), JsonView::Text("diff"@)],
                            ),
                        ),
                    ],
                ),
            ),
        ],
    )
}

/// What a peer of the plain dialect is greeted with.
pub fn greeting_value(model: &str) -> (out: Json)
    ensures
        out@ == greeting(model@),
{
    let mut cards: Vec<Json> = Vec::new();
    cards.push(string("approval"));
    cards.push(string("diff"));
    assert(json::values(cards@) =~= seq![JsonView::Text("approval"@), JsonView::Text("diff"@)]);
    object3(
        "proto",
        string("1.0"),
        "model",
        string(model),
        "caps",
        object1("cards", array(cards)),
    )
}

/// The frame that opens the connection.
pub fn ready_frame(model: &str) -> (out: Json)
    ensures
        out@ == notification("ready"@, greeting(model@)),
{
    notification_frame("ready", greeting_value(model))
}

/// What an ACP client is told of the agent.
pub open spec fn capabilities(version: Seq<char>) -> JsonView {
    JsonView::Object(
        seq![
            ("protocolVersion"@, JsonView::Unsigned(ACP_PROTOCOL_VERSION)),
            (
                "agentInfo"@,
                JsonView::Object(
                    seq![
                        ("name"@, JsonView::Text("medha"@)),
                        ("version"@, JsonView::Text(version)),
                    ],
                ),
            ),
            (
                "agentCapabilities"@,
                JsonView::Object(
                    seq![
                        ("loadSession"@, JsonView::Bool(false)),
                        (
                            "promptCapabilities"@,
                            JsonView::Object(
                                seq![
                                    ("image"@, JsonView::Bool(true)),
                                    ("audio"@, JsonView::Bool(false)),
                                    ("embeddedContext"@, JsonView::Bool(true)),
                                ],
                            ),
                        ),
                    ],
                ),
            ),
            ("authMethods"@, JsonView::List(seq![])),
        ],
    )
}

/// What an ACP client is told of the agent.
pub fn capabilities_value(version: &str) -> (out: Json)
    ensures
        out@ == capabilities(version@),
{
    let none: Vec<Json> = Vec::new();
    assert(json::values(none@) =~= seq![]);
    object4(
        "protocolVersion",
        Json::Unsigned(ACP_PROTOCOL_VERSION),
        "agentInfo",
        object2("name", string("medha"), "version", string(version)),
        "agentCapabilities",
        object2(
            "loadSession",
            Json::Bool(false),
            "promptCapabilities",
            object3(
                "image",
                Json::Bool(true),
                "audio",
                Json::Bool(false),
                "embeddedContext",
                Json::Bool(true),
            ),
        ),
        "authMethods",
        array(none),
    )
}

/// The id under which an editor answers gate `gate`.
pub open spec fn gate_request_id(gate: nat) -> Seq<char> {
    "medha-gate-"@ + number::decimal(gate)
}

/// The id under which an editor answers a gate.
pub fn acp_gate_request_id(gate: u64) -> (out: String)
    ensures
        out@ == gate_request_id(gate as nat),
{
    let mut out = "medha-gate-".to_owned();
    out.append(show(gate).as_str());
    out
}

/// One choice of a permission request.
pub open spec fn option(id: Seq<char>, name: Seq<char>, kind: Seq<char>) -> JsonView {
    JsonView::Object(
        seq![
            ("optionId"@, JsonView::Text(id)),
            ("name"@, JsonView::Text(name)),
            ("kind"@, JsonView::Text(kind)),
        ],
    )
}

/// The choices of a permission request. An escalated action is never offered a
/// choice that would be remembered.
pub open spec fn options(escalated: bool) -> Seq<JsonView> {
    let once = option("allow-once"@, "Allow once"@, "allow_once"@);
    let always = option("allow-always"@, "Allow always"@, "allow_always"@);
    let reject = option("reject-once"@, "Reject"@, "reject_once"@);
    if escalated {
        seq![once, reject]
    } else {
        seq![once, always, reject]
    }
}

/// A request for permission, which an ACP client answers by option.
pub open spec fn permission_request(
    session: Option<Seq<char>>,
    gate: nat,
    action: Seq<char>,
    detail: Option<Seq<char>>,
    escalated: bool,
) -> JsonView {
    JsonView::Object(
        seq![
            ("jsonrpc"@, JsonView::Text("2.0"@)),
            ("id"@, JsonView::Text(gate_request_id(gate))),
            ("method"@, JsonView::Text("session/request_permission"@)),
            (
                "params"@,
                JsonView::Object(
                    seq![
                        ("sessionId"@, json::text_or_null(session)),
                        (
                            "toolCall"@,
                            JsonView::Object(
                                seq![
                                    ("toolCallId"@, JsonView::Text(gate_request_id(gate))),
                                    ("title"@, JsonView::Text(action)),
                                    ("kind"@, JsonView::Text("other"@)),
                                    ("status"@, JsonView::Text("pending"@)),
                                    (
                                        "rawInput"@,
                                        JsonView::Object(
                                            seq![("detail"@, json::text_or_null(detail))],
                                        ),
                                    ),
                                ],
                            ),
                        ),
                        ("options"@, JsonView::List(options(escalated))),
                    ],
                ),
            ),
        ],
    )
}

fn choice(id: &str, name: &str, kind: &str) -> (out: Json)
    ensures
        out@ == option(id@, name@, kind@),
{
    object3("optionId", string(id), "name", string(name), "kind", string(kind))
}

fn text_value(s: Option<&String>) -> (out: Json)
    ensures
        out@ == json::text_or_null(text::ref_view(s)),
{
    match s {
        Some(t) => string(t.as_str()),
        None => Json::Null,
    }
}

/// A request for permission, which an ACP client answers by option.
pub fn request_acp_permission(
    session: Option<&String>,
    gate: u64,
    action: &str,
    detail: Option<&String>,
    escalated: bool,
) -> (out: Json)
    ensures
        out@ == permission_request(
            text::ref_view(session),
            gate as nat,
            action@,
            text::ref_view(detail),
            escalated,
        ),
{
    let mut choices: Vec<Json> = Vec::new();
    choices.push(choice("allow-once", "Allow once", "allow_once"));
    if !escalated {
        choices.push(choice("allow-always", "Allow always", "allow_always"));
    }
    choices.push(choice("reject-once", "Reject", "reject_once"));
    assert(json::values(choices@) =~= options(escalated));
    let call = object5(
        "toolCallId",
        Json::Text(acp_gate_request_id(gate)),
        "title",
        string(action),
        "kind",
        string("other"),
        "status",
        string("pending"),
        "rawInput",
        object1("detail", text_value(detail)),
    );
    let params = object3(
        "sessionId",
        text_value(session),
        "toolCall",
        call,
        "options",
        array(choices),
    );
    object4(
        "jsonrpc",
        string("2.0"),
        "id",
        Json::Text(acp_gate_request_id(gate)),
        "method",
        string("session/request_permission"),
        "params",
        params,
    )
}

/// An approval request to a peer of the plain dialect.
pub fn approval_frame(gate: u64, action: &str, detail: Option<&String>, escalated: bool) -> (out:
    Json)
    ensures
        out@ == notification(
            "approval"@,
            JsonView::Object(
                seq![
                    ("gate_id"@, JsonView::Unsigned(gate)),
                    ("action"@, JsonView::Text(action@)),
                    ("detail"@, json::text_or_null(text::ref_view(detail))),
                    ("escalated"@, JsonView::Bool(escalated)),
                ],
            ),
        ),
{
    notification_frame(
        "approval",
        object4(
            "gate_id",
            Json::Unsigned(gate),
            "action",
            string(action),
            "detail",
            text_value(detail),
            "escalated",
            Json::Bool(escalated),
        ),
    )
}

/// Whatever is asked, an escalated action is offered no choice whose kind would
/// be remembered.
pub proof fn law_escalated_is_not_remembered()
    ensures
        forall|i: int|
            0 <= i < options(true).len() ==> (#[trigger] options(true)[i]).text_at("kind"@) != Some(
                "allow_always"@,
            ) && options(true)[i].text_at("optionId"@) != Some("allow-always"@),
{
    reveal_strlit("optionId");
    reveal_strlit("name");
    reveal_strlit("kind");
    reveal_strlit("allow_once");
    reveal_strlit("reject_once");
    reveal_strlit("allow_always");
    reveal_strlit("allow-once");
    reveal_strlit("reject-once");
    reveal_strlit("allow-always");
    let o = options(true);
    assert forall|i: int| 0 <= i < o.len() implies (#[trigger] o[i]).text_at("kind"@) != Some(
        "allow_always"@,
    ) && o[i].text_at("optionId"@) != Some("allow-always"@) by {
        let v = o[i];
        let rows = v->Object_0;
        assert(rows[0].0 == "optionId"@ && rows[1].0 == "name"@ && rows[2].0 == "kind"@);
        assert("optionId"@[0] != "kind"@[0] && "name"@[0] != "kind"@[0]);
        reveal_with_fuel(json::entry_from, 4);
        assert(json::entry_from(rows, "kind"@, 0) == Some(rows[2].1));
        assert(json::entry_from(rows, "optionId"@, 0) == Some(rows[0].1));
        assert("allow_once"@.len() == 10 && "reject_once"@.len() == 11 && "allow_always"@.len()
            == 12);
        assert("allow-once"@.len() == 10 && "reject-once"@.len() == 11 && "allow-always"@.len()
            == 12);
    }
}

} // verus!

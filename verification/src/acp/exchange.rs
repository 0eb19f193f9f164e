//! What each request of a peer brings about, and what it is told.

use vstd::prelude::*;
use crate::acp::frames;
use crate::acp::laws;
use crate::acp::laws::is_call;
use crate::acp::prompt;
use crate::acp::prompt::{ImageView, PromptView};
use crate::acp::rpc;
use crate::acp::rpc::{ActionView, EffectView, OpenedView, PeerView, Situation};
use crate::acp::turn::{StopReason, TurnDone, Writer};
use crate::attachments::IMAGE_ONLY_PROMPT;
use crate::config::laws::blank;
use crate::json;
use crate::json::JsonView;
use crate::paths;
use crate::refs;
use crate::text;

verus! {

/// The frame calls a method.
pub open spec fn calls(message: JsonView, method: Seq<char>) -> bool {
    is_call(message) && message.text_at("method"@) == Some(method)
}

proof fn lemma_blank(s: Seq<char>)
    ensures
        blank(s) <==> text::trim(s).len() == 0,
{
    let (a, b) = text::law_trim(s);
    if text::trim(s).len() > 0 {
        assert(s[a] == text::trim(s)[0]);
    }
}

/// A prompt of the peer's session with words or images starts a turn where none runs: with
/// its words and its images, and its answer waits for the end of the turn. While a turn runs
/// that takes text, its words join that turn.
pub proof fn law_prompts_start_turns(
    message: JsonView,
    at: Situation,
    pending: Seq<u64>,
    peer: PeerView,
)
    requires
        calls(message, "session/prompt"@),
        peer.session is Some,
        message.get("params"@).text_at("sessionId"@) == peer.session,
    ensures
        ({
            let out = rpc::dispatched(message, at, pending, peer);
            let p = prompt::prompt_of(
                prompt::blocks_of(message.get("params"@).field("prompt"@)),
            );
            let sound = (!blank(p.text) || p.images.len() > 0) && p.images.len() <= 4;
            &&& sound && !at.running ==> {
                &&& out.action is StartTurn
                &&& out.action->images == p.images
                &&& out.action->reply_to == message.field("id"@)
                &&& !blank(p.text) ==> out.action->content == p.text
                &&& blank(p.text) ==> out.action->content == IMAGE_ONLY_PROMPT@
                &&& out.frames.len() == 0
                &&& out.peer == peer
            }
            &&& sound && at.running && at.steerable && p.images.len() == 0 ==> {
                &&& out.action is Nothing
                &&& out.effects == seq![EffectView::Steer(p.text)]
            }
            &&& !sound ==> out.action is Nothing && out.effects.len() == 0
        }),
{
    laws::lemma_methods();
    let p = prompt::prompt_of(prompt::blocks_of(message.get("params"@).field("prompt"@)));
    lemma_blank(p.text);
}

/// A message that is not blank starts a turn where none runs, and joins the running one
/// where that takes text; a blank one does nothing.
pub proof fn law_messages_start_turns(
    message: JsonView,
    at: Situation,
    pending: Seq<u64>,
    peer: PeerView,
    content: Seq<char>,
)
    requires
        calls(message, "message.send"@),
        message.get("params"@).text_at("content"@) == Some(content),
    ensures
        ({
            let out = rpc::dispatched(message, at, pending, peer);
            &&& !blank(content) && !at.running ==> out.action == (ActionView::StartTurn {
                content,
                images: seq![],
                reply_to: None,
            }) && out.effects.len() == 0
            &&& !blank(content) && at.running && at.steerable ==> out.action is Nothing
                && out.effects == seq![EffectView::Steer(content)]
            &&& blank(content) || at.running && !at.steerable ==> out.action is Nothing
                && out.effects.len() == 0
        }),
{
    laws::lemma_methods();
    lemma_blank(content);
}

proof fn lemma_one(key: Seq<char>, value: JsonView)
    ensures
        JsonView::Object(seq![(key, value)]).field(key) == Some(value),
{
    reveal_with_fuel(json::entry_from, 3);
    assert(seq![(key, value)][0].0 == key);
}

proof fn lemma_result(id: JsonView, result: JsonView)
    ensures
        frames::response(id, result).field("id"@) == Some(id),
        frames::response(id, result).field("result"@) == Some(result),
        frames::response(id, result).field("error"@) is None,
        frames::response(id, result).text_at("jsonrpc"@) == Some("2.0"@),
{
    laws::lemma_names();
    reveal_with_fuel(json::entry_from, 5);
    let rows = frames::response(id, result)->Object_0;
    assert(rows[0].0 == "jsonrpc"@ && rows[1].0 == "id"@ && rows[2].0 == "result"@);
    assert(rows[0].0[0] == 'j' && rows[1].0[0] == 'i' && rows[2].0[0] == 'r');
}

/// A refusal carries the id of what it refuses, its code and its reason; an answer its
/// result; a notification neither.
pub proof fn law_frames_carry_what_they_are_given(
    id: JsonView,
    result: JsonView,
    code: i64,
    reason: Seq<char>,
    method: Seq<char>,
    params: JsonView,
)
    ensures
        ({
            let f = frames::failure(id, code as int, reason);
            &&& f.text_at("jsonrpc"@) == Some("2.0"@)
            &&& f.field("id"@) == Some(id)
            &&& f.get("error"@).field("code"@) == Some(JsonView::Negative(code))
            &&& f.get("error"@).text_at("message"@) == Some(reason)
            &&& f.field("result"@) is None
        }),
        ({
            let f = frames::response(id, result);
            &&& f.text_at("jsonrpc"@) == Some("2.0"@)
            &&& f.field("id"@) == Some(id)
            &&& f.field("result"@) == Some(result)
            &&& f.field("error"@) is None
        }),
        ({
            let f = frames::notification(method, params);
            &&& f.text_at("jsonrpc"@) == Some("2.0"@)
            &&& f.field("id"@) is None
            &&& f.text_at("method"@) == Some(method)
            &&& f.field("params"@) == Some(params)
        }),
{
    lemma_result(id, result);
    laws::lemma_names();
    reveal_with_fuel(json::entry_from, 5);
    reveal_strlit("code");
    reveal_strlit("message");
    let rows = frames::failure(id, code as int, reason)->Object_0;
    assert(rows[0].0 == "jsonrpc"@ && rows[1].0 == "id"@ && rows[2].0 == "error"@);
    assert(rows[0].0[0] == 'j' && rows[1].0[0] == 'i' && rows[2].0[0] == 'e');
    let inner = rows[2].1->Object_0;
    assert(inner[0].0 == "code"@ && inner[1].0 == "message"@);
    assert(inner[0].0.len() == 4 && inner[1].0.len() == 7);
    let more = frames::notification(method, params)->Object_0;
    assert(more[0].0 == "jsonrpc"@ && more[1].0 == "method"@ && more[2].0 == "params"@);
    assert(more[0].0[0] == 'j' && more[1].0[0] == 'm' && more[2].0[0] == 'p');
}

/// `initialize` with a version selects the dialect, and is answered with the version that
/// is spoken and with what the agent takes; a session is then opened in the workspace, under
/// a fresh id that the peer is told.
pub proof fn law_sessions_are_opened(
    message: JsonView,
    at: Situation,
    pending: Seq<u64>,
    peer: PeerView,
    id: JsonView,
    cwd: Seq<char>,
)
    requires
        message.field("id"@) == Some(id),
    ensures
        ({
            let out = rpc::dispatched(message, at, pending, peer);
            let params = message.get("params"@);
            let fits = peer.acp && params.text_at("cwd"@) == Some(cwd) && paths::absolute(cwd) && (
            at.opened@ matches OpenedView::At(p) && paths::same_place(p, peer.workspace)) && (
            match params.field("mcpServers"@) {
                None => true,
                Some(JsonView::List(v)) => v.len() == 0,
                Some(_) => false,
            }) && peer.session is None;
            &&& calls(message, "initialize"@) && params.field("protocolVersion"@) is Some ==> {
                &&& out.peer == PeerView { acp: true, ..peer }
                &&& out.frames.len() == 1
                &&& out.frames[0].field("id"@) == Some(id)
                &&& out.frames[0].field("result"@) == Some(frames::capabilities(at.version@))
            }
            &&& calls(message, "session/new"@) && fits ==> {
                &&& out.peer == PeerView { session: Some("medha-"@ + at.fresh@), ..peer }
                &&& out.frames.len() == 1
                &&& out.frames[0].field("id"@) == Some(id)
                &&& out.frames[0].get("result"@).text_at("sessionId"@) == Some(
                    "medha-"@ + at.fresh@,
                )
            }
        }),
{
    laws::lemma_methods();
    lemma_result(id, frames::capabilities(at.version@));
    let s = "medha-"@ + at.fresh@;
    lemma_one("sessionId"@, JsonView::Text(s));
    lemma_result(id, JsonView::Object(seq![("sessionId"@, JsonView::Text(s))]));
}

/// The agent says which version of the protocol it speaks, that it takes images and embedded
/// texts in a prompt, and that it does not load sessions.
pub proof fn law_capabilities_are_told(version: Seq<char>)
    ensures
        ({
            let c = frames::capabilities(version);
            let p = c.get("agentCapabilities"@).get("promptCapabilities"@);
            &&& c.field("protocolVersion"@) == Some(JsonView::Unsigned(1))
            &&& c.get("agentInfo"@).text_at("name"@) == Some("medha"@)
            &&& c.get("agentInfo"@).text_at("version"@) == Some(version)
            &&& c.get("agentCapabilities"@).field("loadSession"@) == Some(JsonView::Bool(false))
            &&& p.field("image"@) == Some(JsonView::Bool(true))
            &&& p.field("audio"@) == Some(JsonView::Bool(false))
            &&& p.field("embeddedContext"@) == Some(JsonView::Bool(true))
        }),
{
    reveal_strlit("protocolVersion");
    reveal_strlit("agentInfo");
    reveal_strlit("agentCapabilities");
    reveal_strlit("promptCapabilities");
    reveal_strlit("name");
    reveal_strlit("version");
    reveal_strlit("loadSession");
    reveal_strlit("image");
    reveal_strlit("audio");
    reveal_strlit("embeddedContext");
    reveal_with_fuel(json::entry_from, 5);
    let rows = frames::capabilities(version)->Object_0;
    assert(rows[0].0 == "protocolVersion"@ && rows[1].0 == "agentInfo"@ && rows[2].0
        == "agentCapabilities"@);
    assert(rows[0].0.len() == 15 && rows[1].0.len() == 9 && rows[2].0.len() == 17);
    let info = rows[1].1->Object_0;
    assert(info[0].0 == "name"@ && info[1].0 == "version"@);
    assert(info[0].0.len() == 4 && info[1].0.len() == 7);
    let caps = rows[2].1->Object_0;
    assert(caps[0].0 == "loadSession"@ && caps[1].0 == "promptCapabilities"@);
    assert(caps[0].0.len() == 11 && caps[1].0.len() == 18);
    let takes = caps[1].1->Object_0;
    assert(takes[0].0 == "image"@ && takes[1].0 == "audio"@ && takes[2].0 == "embeddedContext"@);
    assert(takes[0].0[0] == 'i' && takes[1].0[0] == 'a' && takes[2].0[0] == 'e');
}

/// The end of a turn that ran is told by its reason: that it is finished, that it was
/// cancelled, that it was refused, or which limit it reached. A turn that failed is told as
/// an error, with what went wrong.
pub proof fn law_ends_of_turns_are_told(done: TurnDone, id: JsonView)
    ensures
        ({
            let f = done.told(Some(id));
            let reason = f.get("result"@).text_at("stopReason"@);
            &&& done matches TurnDone::Stopped(r) ==> f.field("error"@) is None && match r {
                StopReason::Finished => reason == Some("end_turn"@),
                StopReason::Interrupted => reason == Some("cancelled"@),
                StopReason::VerificationFailed => reason == Some("refusal"@),
                StopReason::Blocked => reason == Some("refusal"@),
                StopReason::Budget { tokens, .. } => reason == Some(
                    if tokens {
                        "max_tokens"@
                    } else {
                        "max_turn_requests"@
                    },
                ),
            }
            &&& done matches TurnDone::Failed(e) ==> f.get("error"@).text_at("message"@) == Some(
                e@,
            )
            &&& done matches TurnDone::Crashed(e) ==> f.get("error"@).text_at("message"@) == Some(
                "turn task failed: "@ + e@,
            )
            &&& done is Vanished ==> f.field("error"@) is Some
            &&& !(done is Stopped) ==> f.field("result"@) is None
        }),
{
    if let TurnDone::Stopped(r) = done {
        let result = JsonView::Object(seq![("stopReason"@, JsonView::Text(r.acp()))]);
        lemma_one("stopReason"@, JsonView::Text(r.acp()));
        lemma_result(id, result);
    }
    if let TurnDone::Failed(e) = done {
        law_frames_carry_what_they_are_given(id, id, (-32000) as i64, e@, seq![], id);
    }
    if let TurnDone::Crashed(e) = done {
        law_frames_carry_what_they_are_given(
            id,
            id,
            (-32000) as i64,
            "turn task failed: "@ + e@,
            seq![],
            id,
        );
    }
    law_frames_carry_what_they_are_given(id, id, (-32000) as i64, "turn task disappeared"@, seq![], id);
}

/// A peer that speaks the editors' dialect hears of its session under the session's id, and
/// of nothing before it has one; any other peer hears of everything as an event.
pub proof fn law_peers_hear_in_their_dialect(
    acp: bool,
    session: Option<Seq<char>>,
    body: JsonView,
    kind: Seq<char>,
    params: JsonView,
)
    ensures
        ({
            let out = frames::told(acp, session, body, kind, params);
            &&& acp && session is Some ==> {
                &&& out is Some
                &&& out->0.text_at("method"@) == Some("session/update"@)
                &&& out->0.get("params"@).text_at("sessionId"@) == session
                &&& out->0.get("params"@).field("update"@) == Some(body)
            }
            &&& acp && session is None ==> out is None
            &&& !acp ==> out is Some && out->0.text_at("method"@) == Some("event"@)
        }),
{
    if let Some(s) = session {
        let p = JsonView::Object(seq![("sessionId"@, JsonView::Text(s)), ("update"@, body)]);
        law_frames_carry_what_they_are_given(body, body, 0, seq![], "session/update"@, p);
        reveal_with_fuel(json::entry_from, 4);
        reveal_strlit("sessionId");
        reveal_strlit("update");
        let rows = p->Object_0;
        assert(rows[0].0 == "sessionId"@ && rows[1].0 == "update"@);
        assert(rows[0].0.len() == 9 && rows[1].0.len() == 6);
    }
    let e = match params {
        JsonView::Object(rows) => JsonView::Object(
            json::put(rows, "kind"@, JsonView::Text(kind)),
        ),
        other => other,
    };
    law_frames_carry_what_they_are_given(body, body, 0, seq![], "event"@, e);
}

/// A call and its result name the same call, the call its tool and what it was given; the
/// result says whether it succeeded, and shows what came back.
pub proof fn law_calls_and_results_are_shown(
    id: Seq<char>,
    tool: Seq<char>,
    args: JsonView,
    ok: bool,
    shown: Seq<char>,
)
    ensures
        ({
            let c = frames::call_body(id, tool, args);
            let r = frames::result_body(id, ok, shown);
            &&& c.text_at("sessionUpdate"@) == Some("tool_call"@)
            &&& c.text_at("toolCallId"@) == Some(id)
            &&& c.text_at("title"@) == Some(tool)
            &&& c.text_at("status"@) == Some("in_progress"@)
            &&& c.field("rawInput"@) == Some(args)
            &&& r.text_at("sessionUpdate"@) == Some("tool_call_update"@)
            &&& r.text_at("toolCallId"@) == Some(id)
            &&& ok ==> r.text_at("status"@) == Some("completed"@)
            &&& !ok ==> r.text_at("status"@) == Some("failed"@)
            &&& r.get("content"@).items().len() == 1
            &&& r.get("content"@).items()[0].get("content"@).text_at("text"@) == Some(shown)
        }),
{
    reveal_strlit("sessionUpdate");
    reveal_strlit("toolCallId");
    reveal_strlit("title");
    reveal_strlit("kind");
    reveal_strlit("status");
    reveal_strlit("rawInput");
    reveal_strlit("content");
    reveal_strlit("type");
    reveal_strlit("text");
    reveal_with_fuel(json::entry_from, 7);
    let c = frames::call_body(id, tool, args)->Object_0;
    assert(c[0].0 == "sessionUpdate"@ && c[1].0 == "toolCallId"@ && c[2].0 == "title"@ && c[3].0
        == "kind"@ && c[4].0 == "status"@ && c[5].0 == "rawInput"@);
    assert(c[0].0.len() == 13 && c[1].0.len() == 10 && c[2].0.len() == 5 && c[3].0.len() == 4
        && c[4].0.len() == 6 && c[5].0.len() == 8);
    let r = frames::result_body(id, ok, shown)->Object_0;
    assert(r[0].0 == "sessionUpdate"@ && r[1].0 == "toolCallId"@ && r[2].0 == "status"@ && r[3].0
        == "content"@);
    assert(r[3].0.len() == 7);
    let item = r[3].1->List_0[0]->Object_0;
    assert(item[0].0 == "type"@ && item[1].0 == "content"@);
    assert(item[0].0.len() == 4);
    let inner = item[1].1->Object_0;
    assert(inner[0].0 == "type"@ && inner[1].0 == "text"@);
    assert(inner[0].0[1] == 'y' && inner[1].0[1] == 'e');
}

/// The words of a text block join the prompt on a line of their own, in their order, and the
/// bytes of an image block its images; a linked file that is an image by its type or its
/// name is one of its images, and any other link is named.
pub proof fn law_blocks_make_up_the_prompt(blocks: Seq<JsonView>, block: JsonView, s: Seq<char>)
    ensures
        ({
            let was = prompt::prompt_of(blocks);
            let now = prompt::prompt_of(blocks.push(block));
            let kind = block.text_at("type"@);
            let mime = block.text_at("mimeType"@);
            &&& kind == Some("text"@) && block.text_at("text"@) == Some(s) ==> now.images
                == was.images && now.text == if was.text.len() == 0 {
                s
            } else {
                was.text + seq!['\n'] + s
            }
            &&& kind == Some("image"@) && block.text_at("data"@) == Some(s) && mime is Some
                ==> now.text == was.text && now.images == was.images.push(
                ImageView::Inline(mime->0, s),
            )
            &&& kind == Some("resource_link"@) && block.text_at("uri"@) == Some(s) ==> match prompt::uri_path(
                s,
            ) {
                Some(path) if prompt::image_mime(mime) || refs::names_image(path) => now.text
                    == was.text && now.images == was.images.push(ImageView::Linked(path)),
                _ => now.images == was.images && text::ends_with(
                    now.text,
                    "[attached resource: "@ + s + "]"@,
                ),
            }
            &&& kind == Some("resource"@) && block.get("resource"@).text_at("text"@) == Some(s)
                && block.get("resource"@).text_at("blob"@) is None ==> now.images == was.images
                && text::ends_with(now.text, s)
            &&& kind is None ==> now == was
        }),
{
    let all = blocks.push(block);
    assert(all.drop_last() =~= blocks);
    reveal_strlit("text");
    reveal_strlit("image");
    reveal_strlit("resource_link");
    reveal_strlit("resource");
    assert("text"@.len() == 4 && "image"@.len() == 5 && "resource_link"@.len() == 13
        && "resource"@.len() == 8);
    let was = prompt::prompt_of(blocks);
    assert(was.text.push('\n') + s =~= was.text + seq!['\n'] + s);
    lemma_ends(was, s);
    lemma_ends(was, "[attached resource: "@ + s + "]"@);
}

proof fn lemma_ends(p: PromptView, s: Seq<char>)
    ensures
        text::ends_with(p.with_text(s).text, s),
{
    let t = p.with_text(s).text;
    assert(t.subrange(t.len() - s.len(), t.len() as int) =~= s);
}

/// A `file://` address names a file of this machine: by what follows it where that begins
/// with a slash, with the name of the machine before it or without.
pub proof fn law_file_addresses_name_files(path: Seq<char>)
    requires
        path.len() > 0,
        path[0] == '/',
    ensures
        prompt::file_part("file://"@ + path) == Some(path),
        prompt::file_part("file://localhost"@ + path) == Some(path),
{
    reveal_strlit("file://");
    reveal_strlit("file://localhost");
    reveal_strlit("localhost");
    let a = "file://"@ + path;
    assert(a.subrange(0, 7) =~= "file://"@);
    assert(text::rest(a, 7) =~= path);
    if text::starts_with(path, "localhost"@) {
        assert(path.subrange(0, 9)[0] == path[0]);
    }
    let b = "file://localhost"@ + path;
    assert(b.subrange(0, 7) =~= "file://"@);
    let r = text::rest(b, 7);
    assert(r =~= "localhost"@ + path);
    assert(r.subrange(0, 9) =~= "localhost"@);
    assert(text::rest(r, 9) =~= path);
}

/// The digit stands for the value.
pub open spec fn digit_for(b: u8, v: int) -> bool {
    ||| 0 <= v <= 9 && b == 48 + v
    ||| 10 <= v <= 15 && (b == 87 + v || b == 55 + v)
}

/// A percent sign and two hexadecimal digits stand for one byte, and any other byte for
/// itself.
pub proof fn law_escapes_are_decoded(b: Seq<u8>, i: int, high: int, low: int)
    requires
        0 <= i < b.len(),
    ensures
        b[i] == 37 && i + 2 < b.len() && digit_for(b[i + 1], high) && digit_for(b[i + 2], low)
            ==> prompt::decoded_from(b, i) == seq![(16 * high + low) as u8] + prompt::decoded_from(
            b,
            i + 3,
        ),
        b[i] != 37 ==> prompt::decoded_from(b, i) == seq![b[i]] + prompt::decoded_from(b, i + 1),
{
}

/// A media type names an image where it begins so, in any case and with what follows a
/// semicolon left out.
pub proof fn law_image_types_are_known(kind: Seq<char>, rest: Seq<char>)
    requires
        !kind.contains(';'),
    ensures
        prompt::image_mime(Some(kind + seq![';'] + rest)) == prompt::image_mime(Some(kind)),
        prompt::image_mime(Some(kind)) == text::starts_with(
            text::lowered(text::trim(kind)),
            "image/"@,
        ),
        !prompt::image_mime(None),
{
    let whole = kind + seq![';'] + rest;
    let n = kind.len() as int;
    text::lemma_find_char_from(whole, ';', 0);
    text::lemma_find_char_from(kind, ';', 0);
    assert(whole[n] == ';');
    assert forall|j: int| 0 <= j < n implies whole[j] != ';' by {
        assert(whole[j] == kind[j]);
        assert(kind.contains(kind[j]));
    }
    assert(text::find_char(whole, ';') == Some(n));
    assert(whole.take(n) =~= kind);
    if let Some(i) = text::find_char(kind, ';') {
        assert(kind.contains(kind[i]));
    }
}

/// A frame of up to two mebibytes joins the queue as long as no more than eight wait, and
/// nothing does once the connection is closed.
pub proof fn law_queues_are_bounded(w: Writer, len: usize)
    ensures
        w.cancelled ==> !w.admits(len),
        len > 2 * 1024 * 1024 ==> !w.admits(len),
        w.queued_bytes + len > 8 * 1024 * 1024 ==> !w.admits(len),
        !w.cancelled && len <= 2 * 1024 * 1024 && w.queued_bytes + len <= 8 * 1024 * 1024
            ==> w.admits(len),
{
}

/// A count that was not measured is told as null, and one that was as the number it is, zero
/// too.
pub proof fn law_unmeasured_is_not_zero(n: u64)
    ensures
        frames::count_or_null(None) == JsonView::Null,
        frames::count_or_null(Some(n)) == JsonView::Unsigned(n),
        frames::count_or_null(Some(0)) != frames::count_or_null(None),
{
}

} // verus!

//! The peer's requests and what they come to.

use vstd::prelude::*;
use vstd::string::*;
use crate::acp::frames;
use crate::acp::frames::{
    capabilities_value, error_frame, event_frame, greeting_value, response_frame,
};
use crate::acp::gate;
use crate::acp::gate::{acp_gate_id_from, Approval, Pending};
use crate::acp::prompt;
use crate::acp::prompt::{acp_prompt, AcpImage, ImageView};
use crate::attachments::{IMAGE_ONLY_PROMPT, MAX_PER_MESSAGE};
use crate::json;
use crate::json::{object0, object1, object2, string, Json, JsonView};
use crate::paths;
use crate::paths::{is_absolute, same_path};
use crate::text;
use crate::text::{cat2, same, trimmed};

verus! {

/// The connected peer: the dialect it speaks, chosen once at `initialize`, the
/// workspace it may open, and the session it holds.
pub struct Peer {
    pub acp: bool,
    pub workspace: String,
    pub session: Option<String>,
}

/// What a [`Peer`] holds.
#[verifier::ext_equal]
pub ghost struct PeerView {
    pub acp: bool,
    pub workspace: Seq<char>,
    pub session: Option<Seq<char>>,
}

impl View for Peer {
    type V = PeerView;

    open spec fn view(&self) -> PeerView {
        PeerView {
            acp: self.acp,
            workspace: self.workspace@,
            session: text::view_of(self.session),
        }
    }
}

/// A directory that was opened: its canonical path, or why it could not be.
#[verifier::ext_equal]
pub ghost enum OpenedView {
    At(Seq<char>),
    Failed(Seq<char>),
}

/// A directory that was opened: its canonical path, or why it could not be.
pub enum Opened {
    At(String),
    Failed(String),
}

impl View for Opened {
    type V = OpenedView;

    open spec fn view(&self) -> OpenedView {
        match self {
            Opened::At(p) => OpenedView::At(p@),
            Opened::Failed(e) => OpenedView::Failed(e@),
        }
    }
}

impl PeerView {
    /// Why a session cannot start in `cwd`, if it cannot.
    pub open spec fn session_refusal(
        self,
        cwd: Seq<char>,
        opened: OpenedView,
        servers: Option<JsonView>,
    ) -> Option<Seq<char>> {
        if !paths::absolute(cwd) {
            Some("session/new cwd must be an absolute path"@)
        } else {
            match opened {
                OpenedView::Failed(e) => Some("session/new cwd cannot be opened: "@ + e),
                OpenedView::At(p) => if !paths::same_place(p, self.workspace) {
                    Some(
                        "session/new cwd "@ + p + " does not match Medha workspace "@
                            + self.workspace,
                    )
                } else {
                    match servers {
                        Some(JsonView::List(v)) => if v.len() > 0 {
                            Some(
                                "per-session MCP servers are not supported; configure MCP before starting Medha"@,
                            )
                        } else {
                            self.taken()
                        },
                        Some(_) => Some("session/new mcpServers must be an array"@),
                        None => self.taken(),
                    }
                },
            }
        }
    }

    /// Refuses a second session.
    pub open spec fn taken(self) -> Option<Seq<char>> {
        match self.session {
            Some(_) => Some("this Medha process already owns an ACP session"@),
            None => None,
        }
    }

    /// Why a request does not belong to the session, if it does not.
    pub open spec fn stranger(self, params: JsonView) -> Option<Seq<char>> {
        match params.text_at("sessionId"@) {
            None => Some("sessionId must be a string"@),
            Some(requested) => match self.session {
                None => Some("session/new must be called first"@),
                Some(active) => if requested == active {
                    None
                } else {
                    Some("sessionId does not belong to this Medha process"@)
                },
            },
        }
    }
}

impl Peer {
    /// A peer that has not said which dialect it speaks.
    pub fn for_workspace(workspace: &str) -> (out: Peer)
        ensures
            out@ == (PeerView { acp: false, workspace: workspace@, session: None }),
    {
        Peer { acp: false, workspace: workspace.to_owned(), session: None }
    }

    pub fn select_acp(&mut self)
        ensures
            final(self)@ == (PeerView { acp: true, ..old(self)@ }),
    {
        self.acp = true;
    }

    pub fn is_acp(&self) -> (yes: bool)
        ensures
            yes == self@.acp,
    {
        self.acp
    }

    pub fn session_id(&self) -> (out: Option<String>)
        ensures
            text::view_of(out) == self@.session,
    {
        match &self.session {
            Some(s) => Some(s.clone()),
            None => None,
        }
    }

    fn already_owned(&self) -> (out: Option<String>)
        ensures
            text::view_of(out) == self@.taken(),
    {
        match &self.session {
            Some(_) => Some("this Medha process already owns an ACP session".to_owned()),
            None => None,
        }
    }

    fn refusal(&self, cwd: &str, opened: &Opened, servers: Option<&Json>) -> (out: Option<String>)
        ensures
            text::view_of(out) == self@.session_refusal(
                cwd@,
                opened@,
                prompt::json_view(servers),
            ),
    {
        if !is_absolute(cwd) {
            return Some("session/new cwd must be an absolute path".to_owned());
        }
        let p = match opened {
            Opened::Failed(e) => {
                return Some(cat2("session/new cwd cannot be opened: ", e.as_str()));
            },
            Opened::At(p) => p,
        };
        if !same_path(p.as_str(), self.workspace.as_str()) {
            let mut out = "session/new cwd ".to_owned();
            out.append(p.as_str());
            out.append(" does not match Medha workspace ");
            out.append(self.workspace.as_str());
            return Some(out);
        }
        match servers {
            Some(v) => match v.list() {
                Some(items) => if items.len() > 0 {
                    Some(
                        "per-session MCP servers are not supported; configure MCP before starting Medha".to_owned(),
                    )
                } else {
                    self.already_owned()
                },
                None => Some("session/new mcpServers must be an array".to_owned()),
            },
            None => self.already_owned(),
        }
    }

    /// Starts the one session of this process, under `medha-` and a fresh id,
    /// or says why it cannot start.
    pub fn start_session(
        &mut self,
        cwd: &str,
        opened: &Opened,
        servers: Option<&Json>,
        fresh: &str,
    ) -> (out: Result<String, String>)
        ensures
            match out {
                Ok(id) => {
                    &&& old(self)@.session_refusal(cwd@, opened@, prompt::json_view(servers)) is None
                    &&& id@ == "medha-"@ + fresh@
                    &&& final(self)@ == (PeerView { session: Some(id@), ..old(self)@ })
                },
                Err(e) => {
                    &&& old(self)@.session_refusal(cwd@, opened@, prompt::json_view(servers))
                        == Some(e@)
                    &&& final(self)@ == old(self)@
                },
            },
    {
        match self.refusal(cwd, opened, servers) {
            Some(e) => Err(e),
            None => {
                let id = cat2("medha-", fresh);
                self.session = Some(id.clone());
                Ok(id)
            },
        }
    }

    /// The request names this process's session.
    pub fn validate_session(&self, params: &Json) -> (out: Result<String, String>)
        ensures
            match out {
                Ok(id) => self@.stranger(params@) is None && self@.session == Some(id@),
                Err(e) => self@.stranger(params@) == Some(e@),
            },
    {
        let requested = match params.text_at("sessionId") {
            Some(s) => s,
            None => {
                return Err("sessionId must be a string".to_owned());
            },
        };
        match &self.session {
            None => Err("session/new must be called first".to_owned()),
            Some(active) => if same(requested.as_str(), active.as_str()) {
                Ok(active.clone())
            } else {
                Err("sessionId does not belong to this Medha process".to_owned())
            },
        }
    }

    /// A `session/update` notification, once there is a session.
    pub fn update(&self, body: Json) -> (out: Option<Json>)
        ensures
            frames::frame_view(out) == match self@.session {
                Some(s) => Some(frames::update(s, body@)),
                None => None,
            },
    {
        match &self.session {
            Some(s) => Some(frames::update_frame(s.as_str(), body)),
            None => None,
        }
    }
}

/// What the bridge does to a running turn or to a waiting gate.
pub enum Effect {
    /// A waiting gate is answered.
    Answer(u64, Approval),
    /// Text joins the running turn at its next boundary.
    Steer(String),
    /// The running turn is cancelled.
    CancelTurn,
}

/// What an [`Effect`] holds.
#[verifier::ext_equal]
pub ghost enum EffectView {
    Answer(u64, Approval),
    Steer(Seq<char>),
    CancelTurn,
}

impl View for Effect {
    type V = EffectView;

    open spec fn view(&self) -> EffectView {
        match self {
            Effect::Answer(g, a) => EffectView::Answer(*g, *a),
            Effect::Steer(s) => EffectView::Steer(s@),
            Effect::CancelTurn => EffectView::CancelTurn,
        }
    }
}

/// What each effect holds.
pub open spec fn effects(v: Seq<Effect>) -> Seq<EffectView> {
    v.map_values(|e: Effect| e@)
}

/// What the bridge does next.
pub enum RpcAction {
    Nothing,
    /// `reply_to` is set for `session/prompt`, whose response is the turn's stop
    /// reason and therefore waits until the turn settles.
    StartTurn { content: String, images: Vec<AcpImage>, reply_to: Option<Json> },
    Shutdown,
}

/// What an [`RpcAction`] holds.
#[verifier::ext_equal]
pub ghost enum ActionView {
    Nothing,
    StartTurn { content: Seq<char>, images: Seq<ImageView>, reply_to: Option<JsonView> },
    Shutdown,
}

impl View for RpcAction {
    type V = ActionView;

    open spec fn view(&self) -> ActionView {
        match self {
            RpcAction::Nothing => ActionView::Nothing,
            RpcAction::StartTurn { content, images, reply_to } => ActionView::StartTurn {
                content: content@,
                images: prompt::images(images@),
                reply_to: frames::frame_view(*reply_to),
            },
            RpcAction::Shutdown => ActionView::Shutdown,
        }
    }
}

/// What one frame of the peer comes to.
pub struct Dispatched {
    pub action: RpcAction,
    /// Frames to send, in order.
    pub frames: Vec<Json>,
    pub effects: Vec<Effect>,
}

/// Where the bridge stands when a frame comes in.
pub struct Situation {
    pub model: String,
    /// The agent's own version.
    pub version: String,
    /// A turn is running.
    pub running: bool,
    /// The running turn takes text and cancellation.
    pub steerable: bool,
    /// A fresh id for a session.
    pub fresh: String,
    /// What opening the `cwd` of a `session/new` request gave.
    pub opened: Opened,
}

/// What one frame comes to: the action, the frames and effects in order, and
/// what the peer and the waiting gates are afterwards.
#[verifier::ext_equal]
pub ghost struct Outcome {
    pub action: ActionView,
    pub frames: Seq<JsonView>,
    pub effects: Seq<EffectView>,
    pub pending: Seq<u64>,
    pub peer: PeerView,
}

/// The frames that answer a request: none for a notification.
pub open spec fn replied(id: Option<JsonView>, result: JsonView) -> Seq<JsonView> {
    match id {
        Some(i) => seq![frames::response(i, result)],
        None => seq![],
    }
}

/// The frames that refuse a request: none for a notification.
pub open spec fn refused(id: Option<JsonView>, code: int, message: Seq<char>) -> Seq<JsonView> {
    match id {
        Some(i) => seq![frames::failure(i, code, message)],
        None => seq![],
    }
}

/// The id, or null where there is none.
pub open spec fn or_null(id: Option<JsonView>) -> JsonView {
    match id {
        Some(i) => i,
        None => JsonView::Null,
    }
}

/// Every waiting gate is denied.
pub open spec fn denials(pending: Seq<u64>) -> Seq<EffectView> {
    pending.map_values(|g: u64| EffectView::Answer(g, Approval::Deny))
}

/// The approval that an option stands for; anything else denies.
pub open spec fn chosen(message: JsonView) -> Approval {
    let outcome = message.get("result"@).get("outcome"@);
    if outcome.text_at("outcome"@) == Some("selected"@) {
        match outcome.text_at("optionId"@) {
            Some(o) => if o == "allow-once"@ {
                Approval::Once
            } else if o == "allow-always"@ {
                Approval::Always
            } else {
                Approval::Deny
            },
            None => Approval::Deny,
        }
    } else {
        Approval::Deny
    }
}

/// The decision that `approval.respond` carries, if it carries one.
pub open spec fn decision(params: JsonView) -> Option<Approval> {
    match params.get("approve"@).truth() {
        Some(true) => Some(Approval::Once),
        Some(false) => Some(Approval::Deny),
        None => match params.text_at("decision"@) {
            Some(d) => if d == "approve"@ {
                Some(Approval::Once)
            } else if d == "deny"@ {
                Some(Approval::Deny)
            } else {
                None
            },
            None => None,
        },
    }
}

/// The effect of cancelling a turn, where one can be cancelled.
pub open spec fn cancelling(steerable: bool) -> Seq<EffectView> {
    if steerable {
        seq![EffectView::CancelTurn]
    } else {
        seq![]
    }
}

/// A `session/prompt` of a peer in its session.
pub open spec fn prompted(start: Outcome, id: Option<JsonView>, params: JsonView, at: Situation) -> Outcome {
    let p = prompt::prompt_of(prompt::blocks_of(params.field("prompt"@)));
    if p.empty() {
        Outcome { frames: refused(id, -32602, "prompt must contain text or an image"@), ..start }
    } else if p.images.len() > MAX_PER_MESSAGE {
        Outcome { frames: refused(id, -32602, "at most 4 images per prompt"@), ..start }
    } else if at.running {
        if p.images.len() > 0 {
            Outcome {
                frames: refused(
                    id,
                    -32000,
                    "images cannot be added to a turn that is already running"@,
                ),
                ..start
            }
        } else if at.steerable {
            Outcome {
                frames: replied(
                    id,
                    JsonView::Object(seq![("stopReason"@, JsonView::Text("end_turn"@))]),
                ),
                effects: seq![EffectView::Steer(p.text)],
                ..start
            }
        } else {
            Outcome { frames: refused(id, -32000, "a turn is already running"@), ..start }
        }
    } else {
        Outcome {
            action: ActionView::StartTurn {
                content: if text::trim(p.text).len() == 0 {
                    IMAGE_ONLY_PROMPT@
                } else {
                    p.text
                },
                images: p.images,
                reply_to: id,
            },
            ..start
        }
    }
}

/// A `message.send` of a peer of the plain dialect.
pub open spec fn messaged(start: Outcome, id: Option<JsonView>, params: JsonView, at: Situation) -> Outcome {
    match params.text_at("content"@) {
        Some(content) if text::trim(content).len() > 0 => if at.running {
            if at.steerable {
                Outcome {
                    frames: seq![frames::event("message.queued"@, JsonView::Object(seq![]))]
                        + replied(
                        id,
                        JsonView::Object(
                            seq![
                                ("accepted"@, JsonView::Bool(true)),
                                ("steered"@, JsonView::Bool(true)),
                            ],
                        ),
                    ),
                    effects: seq![EffectView::Steer(content)],
                    ..start
                }
            } else {
                Outcome { frames: refused(id, -32000, "a turn is already running"@), ..start }
            }
        } else {
            Outcome {
                action: ActionView::StartTurn { content, images: seq![], reply_to: None },
                frames: replied(
                    id,
                    JsonView::Object(
                        seq![
                            ("accepted"@, JsonView::Bool(true)),
                            ("steered"@, JsonView::Bool(false)),
                        ],
                    ),
                ),
                ..start
            }
        },
        _ => Outcome {
            frames: refused(id, -32602, "content must be a non-empty string"@),
            ..start
        },
    }
}

/// An `approval.respond` of a peer of the plain dialect.
pub open spec fn approved(start: Outcome, id: Option<JsonView>, params: JsonView) -> Outcome {
    match (params.get("gate_id"@).unsigned(), decision(params)) {
        (Some(g), Some(a)) => if gate::waits(start.pending, g) {
            Outcome {
                frames: replied(id, JsonView::Object(seq![("accepted"@, JsonView::Bool(true))])),
                effects: seq![EffectView::Answer(g, a)],
                pending: gate::without(start.pending, g),
                ..start
            }
        } else {
            Outcome {
                frames: refused(id, -32001, "approval is not pending"@),
                pending: gate::without(start.pending, g),
                ..start
            }
        },
        _ => Outcome {
            frames: refused(id, -32602, "gate_id and an approve/deny decision are required"@),
            ..start
        },
    }
}

/// A `session/new` request.
pub open spec fn opened_session(
    start: Outcome,
    id: Option<JsonView>,
    params: JsonView,
    at: Situation,
) -> Outcome {
    if !start.peer.acp {
        Outcome {
            frames: refused(id, -32000, "initialize must be called before session/new"@),
            ..start
        }
    } else {
        match params.text_at("cwd"@) {
            None => Outcome {
                frames: refused(id, -32602, "session/new cwd must be a string"@),
                ..start
            },
            Some(cwd) => match start.peer.session_refusal(
                cwd,
                at.opened@,
                params.field("mcpServers"@),
            ) {
                Some(e) => Outcome { frames: refused(id, -32602, e), ..start },
                None => {
                    let session = "medha-"@ + at.fresh@;
                    Outcome {
                        frames: replied(
                            id,
                            JsonView::Object(seq![("sessionId"@, JsonView::Text(session))]),
                        ),
                        peer: PeerView { session: Some(session), ..start.peer },
                        ..start
                    }
                },
            },
        }
    }
}

/// A call of a method.
pub open spec fn called(
    start: Outcome,
    method: Seq<char>,
    id: Option<JsonView>,
    params: JsonView,
    at: Situation,
) -> Outcome {
    if method == "initialize"@ && params.field("protocolVersion"@) is Some {
        Outcome {
            frames: replied(id, frames::capabilities(at.version@)),
            peer: PeerView { acp: true, ..start.peer },
            ..start
        }
    } else if method == "authenticate"@ {
        Outcome { frames: replied(id, JsonView::Object(seq![])), ..start }
    } else if method == "session/new"@ {
        opened_session(start, id, params, at)
    } else if method == "session/prompt"@ {
        match start.peer.stranger(params) {
            Some(e) => Outcome { frames: refused(id, -32602, e), ..start },
            None => prompted(start, id, params, at),
        }
    } else if method == "session/cancel"@ {
        match start.peer.stranger(params) {
            Some(e) => Outcome { frames: refused(id, -32602, e), ..start },
            None => Outcome {
                frames: replied(id, JsonView::Object(seq![])),
                effects: cancelling(at.steerable) + denials(start.pending),
                pending: seq![],
                ..start
            },
        }
    } else if method == "initialize"@ || method == "hello"@ {
        Outcome { frames: replied(id, frames::greeting(at.model@)), ..start }
    } else if method == "message.send"@ {
        messaged(start, id, params, at)
    } else if method == "approval.respond"@ {
        approved(start, id, params)
    } else if method == "cancel"@ || method == "interrupt"@ {
        Outcome {
            frames: replied(
                id,
                JsonView::Object(
                    seq![
                        ("cancelled"@, JsonView::Bool(at.steerable || start.pending.len() > 0)),
                    ],
                ),
            ),
            effects: cancelling(at.steerable) + denials(start.pending),
            pending: seq![],
            ..start
        }
    } else if method == "shutdown"@ || method == "exit"@ {
        Outcome {
            action: ActionView::Shutdown,
            frames: replied(
                id,
                JsonView::Object(seq![("shutting_down"@, JsonView::Bool(true))]),
            ),
            effects: cancelling(at.steerable) + denials(start.pending),
            pending: seq![],
            ..start
        }
    } else {
        Outcome { frames: refused(id, -32601, "unknown method: "@ + method), ..start }
    }
}

/// Nothing has happened yet.
pub open spec fn idle(pending: Seq<u64>, peer: PeerView) -> Outcome {
    Outcome { action: ActionView::Nothing, frames: seq![], effects: seq![], pending, peer }
}

/// What a frame of the peer comes to.
pub open spec fn dispatched(
    message: JsonView,
    at: Situation,
    pending: Seq<u64>,
    peer: PeerView,
) -> Outcome {
    let start = idle(pending, peer);
    let id = message.field("id"@);
    if !(message is Object) {
        Outcome {
            frames: seq![frames::failure(JsonView::Null, -32600, "invalid JSON-RPC request"@)],
            ..start
        }
    } else if message.text_at("jsonrpc"@) != Some("2.0"@) {
        Outcome {
            frames: seq![frames::failure(or_null(id), -32600, "jsonrpc must be \"2.0\""@)],
            ..start
        }
    } else if message.field("method"@) is None && id is Some && gate::gate_of(id->0) is Some {
        let g = gate::gate_of(id->0)->0 as u64;
        Outcome {
            effects: if gate::waits(pending, g) {
                seq![EffectView::Answer(g, chosen(message))]
            } else {
                seq![]
            },
            pending: gate::without(pending, g),
            ..start
        }
    } else {
        match message.text_at("method"@) {
            None => Outcome {
                frames: seq![
                    frames::failure(or_null(id), -32600, "request method must be a string"@),
                ],
                ..start
            },
            Some(method) => called(start, method, id, message.get("params"@), at),
        }
    }
}

impl Dispatched {
    /// What this comes to, with the gates that still wait and the peer.
    pub open spec fn outcome(&self, pending: Seq<u64>, peer: PeerView) -> Outcome {
        Outcome {
            action: self.action@,
            frames: json::values(self.frames@),
            effects: effects(self.effects@),
            pending,
            peer,
        }
    }
}

fn send_nothing(pending: &Pending, peer: &Peer) -> (out: Dispatched)
    ensures
        out.outcome(pending@, peer@) == idle(pending@, peer@),
{
    let out = Dispatched { action: RpcAction::Nothing, frames: Vec::new(), effects: Vec::new() };
    assert(json::values(out.frames@) =~= seq![]);
    assert(effects(out.effects@) =~= seq![]);
    out
}

fn send(frame: Json) -> (out: Dispatched)
    ensures
        out.action@ == ActionView::Nothing,
        json::values(out.frames@) == seq![frame@],
        effects(out.effects@) == Seq::<EffectView>::empty(),
{
    let ghost f = frame@;
    let mut v: Vec<Json> = Vec::new();
    v.push(frame);
    assert(json::values(v@) =~= seq![f]);
    let out = Dispatched { action: RpcAction::Nothing, frames: v, effects: Vec::new() };
    assert(effects(out.effects@) =~= seq![]);
    out
}

fn reply(id: Option<&Json>, result: Json) -> (out: Dispatched)
    ensures
        out.action@ == ActionView::Nothing,
        json::values(out.frames@) == replied(prompt::json_view(id), result@),
        effects(out.effects@) == Seq::<EffectView>::empty(),
{
    match id {
        Some(i) => send(response_frame(i.copy(), result)),
        None => {
            let out = Dispatched {
                action: RpcAction::Nothing,
                frames: Vec::new(),
                effects: Vec::new(),
            };
            assert(json::values(out.frames@) =~= seq![]);
            assert(effects(out.effects@) =~= seq![]);
            out
        },
    }
}

fn refuse(id: Option<&Json>, code: i64, message: &str) -> (out: Dispatched)
    ensures
        out.action@ == ActionView::Nothing,
        json::values(out.frames@) == refused(prompt::json_view(id), code as int, message@),
        effects(out.effects@) == Seq::<EffectView>::empty(),
{
    match id {
        Some(i) => send(error_frame(i.copy(), code, message)),
        None => {
            let out = Dispatched {
                action: RpcAction::Nothing,
                frames: Vec::new(),
                effects: Vec::new(),
            };
            assert(json::values(out.frames@) =~= seq![]);
            assert(effects(out.effects@) =~= seq![]);
            out
        },
    }
}

fn copy_id(id: Option<&Json>) -> (out: Option<Json>)
    ensures
        frames::frame_view(out) == prompt::json_view(id),
{
    match id {
        Some(i) => Some(i.copy()),
        None => None,
    }
}

fn id_or_null(id: Option<&Json>) -> (out: Json)
    ensures
        out@ == or_null(prompt::json_view(id)),
{
    match id {
        Some(i) => i.copy(),
        None => Json::Null,
    }
}

fn one_effect(e: Effect) -> (out: Vec<Effect>)
    ensures
        effects(out@) == seq![e@],
{
    let ghost ev = e@;
    let mut v: Vec<Effect> = Vec::new();
    v.push(e);
    assert(effects(v@) =~= seq![ev]);
    v
}

/// Denies every waiting gate, and returns the answers to hand out.
pub fn deny_pending(pending: &mut Pending) -> (out: Vec<Effect>)
    ensures
        effects(out@) == denials(old(pending)@),
        final(pending)@ == Seq::<u64>::empty(),
{
    let gates = pending.drain();
    let mut out: Vec<Effect> = Vec::new();
    let mut i: usize = 0;
    while i < gates.len()
        invariant
            i <= gates@.len(),
            out@.len() == i,
            forall|j: int|
                0 <= j < i ==> (#[trigger] out@[j])@ == EffectView::Answer(
                    gates@[j],
                    Approval::Deny,
                ),
        decreases gates@.len() - i,
    {
        out.push(Effect::Answer(gates[i], Approval::Deny));
        i = i + 1;
    }
    assert(effects(out@) =~= denials(gates@));
    out
}

/// Cancels the running turn, where one can be cancelled, and denies every
/// waiting gate.
pub fn cancel_all(steerable: bool, pending: &mut Pending) -> (out: Vec<Effect>)
    ensures
        effects(out@) == cancelling(steerable) + denials(old(pending)@),
        final(pending)@ == Seq::<u64>::empty(),
{
    let mut out: Vec<Effect> = Vec::new();
    if steerable {
        out.push(Effect::CancelTurn);
    }
    assert(effects(out@) =~= cancelling(steerable));
    let ghost first = out@;
    let mut denied = deny_pending(pending);
    let ghost second = denied@;
    out.append(&mut denied);
    assert(effects(out@) =~= effects(first) + effects(second));
    out
}

fn choose_option(message: &Json) -> (out: Approval)
    ensures
        out == chosen(message@),
{
    let none = Json::Null;
    let result = match message.field("result") {
        Some(r) => r,
        None => &none,
    };
    let outcome = match result.field("outcome") {
        Some(o) => o,
        None => &none,
    };
    let selected = match outcome.text_at("outcome") {
        Some(s) => same(s.as_str(), "selected"),
        None => false,
    };
    if !selected {
        return Approval::Deny;
    }
    match outcome.text_at("optionId") {
        Some(o) => if same(o.as_str(), "allow-once") {
            Approval::Once
        } else if same(o.as_str(), "allow-always") {
            Approval::Always
        } else {
            Approval::Deny
        },
        None => Approval::Deny,
    }
}

fn read_decision(params: &Json) -> (out: Option<Approval>)
    ensures
        out == decision(params@),
{
    let none = Json::Null;
    let approve = match params.field("approve") {
        Some(v) => v,
        None => &none,
    };
    match approve.truth() {
        Some(true) => Some(Approval::Once),
        Some(false) => Some(Approval::Deny),
        None => match params.text_at("decision") {
            Some(d) => if same(d.as_str(), "approve") {
                Some(Approval::Once)
            } else if same(d.as_str(), "deny") {
                Some(Approval::Deny)
            } else {
                None
            },
            None => None,
        },
    }
}

fn on_prompt(
    id: Option<&Json>,
    params: &Json,
    at: &Situation,
    Ghost(start): Ghost<Outcome>,
) -> (out: Dispatched)
    requires
        start == idle(start.pending, start.peer),
    ensures
        out.outcome(start.pending, start.peer) == prompted(
            start,
            prompt::json_view(id),
            params@,
            *at,
        ),
{
    let p = acp_prompt(params.field("prompt"));
    assert(p@ == prompt::prompt_of(prompt::blocks_of(params@.field("prompt"@))));
    if p.is_empty() {
        return refuse(id, -32602, "prompt must contain text or an image");
    }
    if p.images.len() > MAX_PER_MESSAGE {
        return refuse(id, -32602, "at most 4 images per prompt");
    }
    if at.running {
        if p.images.len() > 0 {
            return refuse(id, -32000, "images cannot be added to a turn that is already running");
        }
        if at.steerable {
            let out = reply(id, object1("stopReason", string("end_turn")));
            return Dispatched {
                action: RpcAction::Nothing,
                frames: out.frames,
                effects: one_effect(Effect::Steer(p.text)),
            };
        }
        return refuse(id, -32000, "a turn is already running");
    }
    let words = !trimmed(p.text.as_str()).as_str().is_empty();
    let content = if words {
        p.text
    } else {
        IMAGE_ONLY_PROMPT.to_owned()
    };
    let out = Dispatched {
        action: RpcAction::StartTurn { content, images: p.images, reply_to: copy_id(id) },
        frames: Vec::new(),
        effects: Vec::new(),
    };
    assert(json::values(out.frames@) =~= seq![]);
    assert(effects(out.effects@) =~= seq![]);
    out
}

fn on_message(
    id: Option<&Json>,
    params: &Json,
    at: &Situation,
    Ghost(start): Ghost<Outcome>,
) -> (out: Dispatched)
    requires
        start == idle(start.pending, start.peer),
    ensures
        out.outcome(start.pending, start.peer) == messaged(
            start,
            prompt::json_view(id),
            params@,
            *at,
        ),
{
    let content = match params.text_at("content") {
        Some(c) => c.clone(),
        None => {
            return refuse(id, -32602, "content must be a non-empty string");
        },
    };
    if trimmed(content.as_str()).as_str().is_empty() {
        return refuse(id, -32602, "content must be a non-empty string");
    }
    if at.running {
        if at.steerable {
            let mut first = send(event_frame("message.queued", object0()));
            let mut second = reply(
                id,
                object2("accepted", Json::Bool(true), "steered", Json::Bool(true)),
            );
            let ghost f = first.frames@;
            let ghost s = second.frames@;
            first.frames.append(&mut second.frames);
            assert(json::values(first.frames@) =~= json::values(f) + json::values(s));
            return Dispatched {
                action: RpcAction::Nothing,
                frames: first.frames,
                effects: one_effect(Effect::Steer(content)),
            };
        }
        return refuse(id, -32000, "a turn is already running");
    }
    let out = reply(id, object2("accepted", Json::Bool(true), "steered", Json::Bool(false)));
    let made = Dispatched {
        action: RpcAction::StartTurn { content, images: Vec::new(), reply_to: None },
        frames: out.frames,
        effects: out.effects,
    };
    assert(made.action@->images =~= seq![]);
    made
}

fn on_approval(
    id: Option<&Json>,
    params: &Json,
    pending: &mut Pending,
    Ghost(start): Ghost<Outcome>,
) -> (out: Dispatched)
    requires
        start == idle(old(pending)@, start.peer),
    ensures
        out.outcome(final(pending)@, start.peer) == approved(
            start,
            prompt::json_view(id),
            params@,
        ),
{
    let none = Json::Null;
    let gate = match params.field("gate_id") {
        Some(v) => v,
        None => &none,
    };
    match (gate.unsigned(), read_decision(params)) {
        (Some(g), Some(a)) => if pending.remove(g) {
            let out = reply(id, object1("accepted", Json::Bool(true)));
            Dispatched {
                action: RpcAction::Nothing,
                frames: out.frames,
                effects: one_effect(Effect::Answer(g, a)),
            }
        } else {
            refuse(id, -32001, "approval is not pending")
        },
        _ => refuse(id, -32602, "gate_id and an approve/deny decision are required"),
    }
}

fn on_new_session(
    id: Option<&Json>,
    params: &Json,
    at: &Situation,
    peer: &mut Peer,
    Ghost(start): Ghost<Outcome>,
) -> (out: Dispatched)
    requires
        start == idle(start.pending, old(peer)@),
    ensures
        out.outcome(start.pending, final(peer)@) == opened_session(
            start,
            prompt::json_view(id),
            params@,
            *at,
        ),
{
    if !peer.is_acp() {
        return refuse(id, -32000, "initialize must be called before session/new");
    }
    let cwd = match params.text_at("cwd") {
        Some(c) => c,
        None => {
            return refuse(id, -32602, "session/new cwd must be a string");
        },
    };
    match peer.start_session(
        cwd.as_str(),
        &at.opened,
        params.field("mcpServers"),
        at.fresh.as_str(),
    ) {
        Ok(session) => reply(id, object1("sessionId", Json::Text(session))),
        Err(e) => refuse(id, -32602, e.as_str()),
    }
}

fn on_call(
    method: &str,
    id: Option<&Json>,
    params: &Json,
    at: &Situation,
    pending: &mut Pending,
    peer: &mut Peer,
) -> (out: Dispatched)
    ensures
        out.outcome(final(pending)@, final(peer)@) == called(
            idle(old(pending)@, old(peer)@),
            method@,
            prompt::json_view(id),
            params@,
            *at,
        ),
{
    let ghost start = idle(pending@, peer@);
    if same(method, "initialize") && params.field("protocolVersion").is_some() {
        peer.select_acp();
        return reply(id, capabilities_value(at.version.as_str()));
    }
    if same(method, "authenticate") {
        return reply(id, object0());
    }
    if same(method, "session/new") {
        return on_new_session(id, params, at, peer, Ghost(start));
    }
    if same(method, "session/prompt") {
        return match peer.validate_session(params) {
            Err(e) => refuse(id, -32602, e.as_str()),
            Ok(_) => on_prompt(id, params, at, Ghost(start)),
        };
    }
    if same(method, "session/cancel") {
        return match peer.validate_session(params) {
            Err(e) => refuse(id, -32602, e.as_str()),
            Ok(_) => {
                let mut out = reply(id, object0());
                out.effects = cancel_all(at.steerable, pending);
                out
            },
        };
    }
    if same(method, "initialize") || same(method, "hello") {
        return reply(id, greeting_value(at.model.as_str()));
    }
    if same(method, "message.send") {
        return on_message(id, params, at, Ghost(start));
    }
    if same(method, "approval.respond") {
        return on_approval(id, params, pending, Ghost(start));
    }
    if same(method, "cancel") || same(method, "interrupt") {
        let any = pending.gates.len() > 0;
        let mut out = reply(id, object1("cancelled", Json::Bool(at.steerable || any)));
        out.effects = cancel_all(at.steerable, pending);
        return out;
    }
    if same(method, "shutdown") || same(method, "exit") {
        let mut out = reply(id, object1("shutting_down", Json::Bool(true)));
        out.effects = cancel_all(at.steerable, pending);
        out.action = RpcAction::Shutdown;
        return out;
    }
    refuse(id, -32601, cat2("unknown method: ", method).as_str())
}

/// What one frame of the peer comes to. Requests receive one response and
/// notifications none; a response to a permission request goes to its gate.
pub fn dispatch_rpc(message: &Json, at: &Situation, pending: &mut Pending, peer: &mut Peer) -> (out:
    Dispatched)
    ensures
        out.outcome(final(pending)@, final(peer)@) == dispatched(
            message@,
            *at,
            old(pending)@,
            old(peer)@,
        ),
{
    let is_object = match message {
        Json::Object(_) => true,
        _ => false,
    };
    if !is_object {
        return send(error_frame(Json::Null, -32600, "invalid JSON-RPC request"));
    }
    let id = message.field("id");
    let versioned = match message.text_at("jsonrpc") {
        Some(v) => same(v.as_str(), "2.0"),
        None => false,
    };
    if !versioned {
        return send(error_frame(id_or_null(id), -32600, "jsonrpc must be \"2.0\""));
    }
    let gate = match id {
        Some(i) => acp_gate_id_from(i),
        None => None,
    };
    if message.field("method").is_none() {
        if let Some(g) = gate {
            let approval = choose_option(message);
            let mut out = send_nothing(pending, peer);
            if pending.remove(g) {
                out.effects = one_effect(Effect::Answer(g, approval));
            }
            return out;
        }
    }
    let method = match message.text_at("method") {
        Some(m) => m,
        None => {
            return send(error_frame(id_or_null(id), -32600, "request method must be a string"));
        },
    };
    let none = Json::Null;
    let params = match message.field("params") {
        Some(p) => p,
        None => &none,
    };
    on_call(method.as_str(), id, params, at, pending, peer)
}

/// What a line that is no JSON comes to. A malformed peer message cannot approve
/// safely, so every gate that waits on the peer is denied.
pub fn dispatch_malformed(pending: &mut Pending) -> (out: Dispatched)
    ensures
        final(pending)@ == Seq::<u64>::empty(),
        out.action@ == ActionView::Nothing,
        json::values(out.frames@) == seq![
            frames::failure(JsonView::Null, -32700, "invalid JSON"@),
        ],
        effects(out.effects@) == denials(old(pending)@),
{
    let mut out = send(error_frame(Json::Null, -32700, "invalid JSON"));
    out.effects = deny_pending(pending);
    out
}

/// What a line of the peer comes to: `message` is the value it holds, or `None`
/// where it is no JSON.
pub fn dispatch_line(
    message: Option<&Json>,
    at: &Situation,
    pending: &mut Pending,
    peer: &mut Peer,
) -> (out: Dispatched)
    ensures
        match message {
            Some(m) => out.outcome(final(pending)@, final(peer)@) == dispatched(
                m@,
                *at,
                old(pending)@,
                old(peer)@,
            ),
            None => {
                &&& final(pending)@ == Seq::<u64>::empty()
                &&& final(peer)@ == old(peer)@
                &&& out.action@ == ActionView::Nothing
                &&& json::values(out.frames@) == seq![
                    frames::failure(JsonView::Null, -32700, "invalid JSON"@),
                ]
                &&& effects(out.effects@) == denials(old(pending)@)
            },
        },
{
    match message {
        Some(m) => dispatch_rpc(m, at, pending, peer),
        None => dispatch_malformed(pending),
    }
}

} // verus!

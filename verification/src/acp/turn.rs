//! The life of a turn, and the bounds on what is read and queued.

use vstd::prelude::*;
use vstd::string::*;
use crate::acp::frames;
use crate::acp::frames::{error_frame, event_frame, response_frame};
use crate::acp::gate::Pending;
use crate::acp::rpc;
use crate::acp::rpc::{deny_pending, dispatch_line, Dispatched, Effect, Opened, Peer, PeerView, RpcAction, Situation};
use crate::json;
use crate::json::{object0, object1, string, Json, JsonView};
use crate::text::cat2;

verus! {

/// The frames that wait for a slow peer are at most this many.
pub const OUTBOUND_FRAMES: usize = 256;

/// The longest frame that is sent, in bytes.
pub const MAX_OUTBOUND_FRAME: usize = 2_097_152;

/// The most bytes that wait to be sent.
pub const MAX_QUEUED_BYTES: usize = 8_388_608;

/// The longest frame that is read, in bytes.
pub const MAX_FRAME: u64 = 16_777_216;

/// Byte-bounded output queue; saturation closes the connection.
pub struct Writer {
    pub queued_bytes: usize,
    pub cancelled: bool,
}

impl Writer {
    /// No more waits than may.
    pub open spec fn wf(&self) -> bool {
        self.queued_bytes <= MAX_QUEUED_BYTES
    }

    /// A frame of this length may join the queue.
    pub open spec fn admits(&self, len: usize) -> bool {
        !self.cancelled && len <= MAX_OUTBOUND_FRAME && self.queued_bytes + len <= MAX_QUEUED_BYTES
    }

    pub fn new() -> (out: Writer)
        ensures
            out.wf(),
            out.queued_bytes == 0,
            !out.cancelled,
    {
        Writer { queued_bytes: 0, cancelled: false }
    }

    /// Queues a frame of `len` bytes, its newline among them, where the queue
    /// has a free place and the bytes are within bounds. A frame that does not
    /// fit closes the connection.
    pub fn write_value(&mut self, len: usize, place: bool) -> (sent: bool)
        requires
            old(self).wf(),
        ensures
            final(self).wf(),
            sent == (old(self).admits(len) && place),
            sent ==> final(self).queued_bytes == old(self).queued_bytes + len,
            !sent ==> final(self).queued_bytes == old(self).queued_bytes,
            final(self).cancelled == !sent,
    {
        if self.cancelled {
            return false;
        }
        if len > MAX_OUTBOUND_FRAME || len > MAX_QUEUED_BYTES - self.queued_bytes || !place {
            self.cancelled = true;
            return false;
        }
        self.queued_bytes = self.queued_bytes + len;
        true
    }

    /// A queued frame of `len` bytes left the queue; a failed write closes the
    /// connection.
    pub fn written(&mut self, len: usize, ok: bool)
        requires
            old(self).wf(),
            len <= old(self).queued_bytes,
        ensures
            final(self).wf(),
            final(self).queued_bytes == old(self).queued_bytes - len,
            final(self).cancelled == (old(self).cancelled || !ok),
    {
        self.queued_bytes = self.queued_bytes - len;
        if !ok {
            self.cancelled = true;
        }
    }

    /// A JSON-RPC notification.
    pub fn notify(method: &str, params: Json) -> (out: Json)
        ensures
            out@ == frames::notification(method@, params@),
    {
        frames::notification_frame(method, params)
    }
}

/// What a read of the peer's input came to.
#[derive(Debug, Clone, Copy, PartialEq, Eq, Structural)]
pub enum FrameRead {
    /// The input ended.
    Closed,
    /// The buffer holds a whole line.
    Line,
    /// The line is longer than a frame may be.
    TooLong,
}

/// What a read of `n` bytes came to, where `last` is the last byte that the
/// buffer then holds. The read stops at a newline, at the end of the input or
/// at the frame limit.
pub fn read_frame(n: usize, last: Option<u8>) -> (out: FrameRead)
    ensures
        out == if n == 0 && last is None {
            FrameRead::Closed
        } else if n == 0 || last == Some(10u8) {
            FrameRead::Line
        } else {
            FrameRead::TooLong
        },
{
    match last {
        None => if n == 0 {
            FrameRead::Closed
        } else {
            FrameRead::TooLong
        },
        Some(b) => if n == 0 || b == 10 {
            FrameRead::Line
        } else {
            FrameRead::TooLong
        },
    }
}

/// Why a turn stopped.
pub enum StopReason {
    Finished,
    Interrupted,
    VerificationFailed,
    Blocked,
    /// A budget ran out: whether it was that of tokens, and its name.
    Budget { tokens: bool, label: String },
}

impl StopReason {
    /// The reason in ACP's vocabulary.
    pub open spec fn acp(&self) -> Seq<char> {
        match self {
            StopReason::Finished => "end_turn"@,
            StopReason::Interrupted => "cancelled"@,
            StopReason::VerificationFailed => "refusal"@,
            StopReason::Blocked => "refusal"@,
            StopReason::Budget { tokens, .. } => if *tokens {
                "max_tokens"@
            } else {
                "max_turn_requests"@
            },
        }
    }

    /// The event that a peer of the plain dialect sees.
    pub open spec fn event(&self) -> JsonView {
        match self {
            StopReason::Finished => frames::event(
                "turn.done"@,
                JsonView::Object(seq![("stopped"@, JsonView::Null)]),
            ),
            StopReason::Interrupted => frames::event("turn.cancelled"@, JsonView::Object(seq![])),
            StopReason::VerificationFailed => frames::event(
                "turn.done"@,
                JsonView::Object(seq![("stopped"@, JsonView::Text("verification_failed"@))]),
            ),
            StopReason::Blocked => frames::event(
                "turn.done"@,
                JsonView::Object(seq![("stopped"@, JsonView::Text("blocked_by_hook"@))]),
            ),
            StopReason::Budget { label, .. } => frames::event(
                "turn.done"@,
                JsonView::Object(seq![("stopped"@, JsonView::Text(label@))]),
            ),
        }
    }
}

/// The reason in ACP's vocabulary.
pub fn acp_stop_reason(reason: &StopReason) -> (out: &'static str)
    ensures
        out@ == reason.acp(),
{
    match reason {
        StopReason::Finished => "end_turn",
        StopReason::Interrupted => "cancelled",
        StopReason::VerificationFailed => "refusal",
        StopReason::Blocked => "refusal",
        StopReason::Budget { tokens, .. } => if *tokens {
            "max_tokens"
        } else {
            "max_turn_requests"
        },
    }
}

fn stop_event(reason: &StopReason) -> (out: Json)
    ensures
        out@ == reason.event(),
{
    match reason {
        StopReason::Finished => event_frame("turn.done", object1("stopped", Json::Null)),
        StopReason::Interrupted => event_frame("turn.cancelled", object0()),
        StopReason::VerificationFailed => event_frame(
            "turn.done",
            object1("stopped", string("verification_failed")),
        ),
        StopReason::Blocked => event_frame(
            "turn.done",
            object1("stopped", string("blocked_by_hook")),
        ),
        StopReason::Budget { label, .. } => event_frame(
            "turn.done",
            object1("stopped", string(label.as_str())),
        ),
    }
}

/// How a turn's task ended.
pub enum TurnDone {
    /// It ran to a stop.
    Stopped(StopReason),
    /// The session reported an error.
    Failed(String),
    /// The task itself failed.
    Crashed(String),
    /// There was no task to join.
    Vanished,
}

impl TurnDone {
    /// The frame that tells the peer: the answer to its prompt, or an event.
    pub open spec fn told(&self, reply: Option<JsonView>) -> JsonView {
        match self {
            TurnDone::Stopped(reason) => match reply {
                Some(id) => frames::response(
                    id,
                    JsonView::Object(seq![("stopReason"@, JsonView::Text(reason.acp()))]),
                ),
                None => reason.event(),
            },
            TurnDone::Failed(e) => failed(reply, e@),
            TurnDone::Crashed(e) => failed(reply, "turn task failed: "@ + e@),
            TurnDone::Vanished => failed(reply, "turn task disappeared"@),
        }
    }
}

/// A turn failed: the answer to its prompt, or an event.
pub open spec fn failed(reply: Option<JsonView>, message: Seq<char>) -> JsonView {
    match reply {
        Some(id) => frames::failure(id, -32000, message),
        None => frames::event(
            "turn.error"@,
            JsonView::Object(seq![("message"@, JsonView::Text(message))]),
        ),
    }
}

fn failed_frame(reply: Option<Json>, message: &str) -> (out: Json)
    ensures
        out@ == failed(frames::frame_view(reply), message@),
{
    match reply {
        Some(id) => error_frame(id, -32000, message),
        None => event_frame("turn.error", object1("message", string(message))),
    }
}

/// One connection of the bridge, between frames.
pub struct Connection {
    /// A turn is running; it then takes text and cancellation.
    pub running: bool,
    /// The prompt that the running turn answers.
    pub reply: Option<Json>,
    pub pending: Pending,
    pub peer: Peer,
}

impl Connection {
    pub fn new(workspace: &str) -> (out: Connection)
        ensures
            !out.running,
            out.reply is None,
            out.pending@ == Seq::<u64>::empty(),
            out.peer@ == (PeerView { acp: false, workspace: workspace@, session: None }),
    {
        Connection {
            running: false,
            reply: None,
            pending: Pending::new(),
            peer: Peer::for_workspace(workspace),
        }
    }

    /// Where the bridge stands.
    pub open spec fn at(
        &self,
        model: Seq<char>,
        version: Seq<char>,
        fresh: Seq<char>,
        opened: rpc::OpenedView,
        at: Situation,
    ) -> bool {
        &&& at.model@ == model
        &&& at.version@ == version
        &&& at.running == self.running
        &&& at.steerable == self.running
        &&& at.fresh@ == fresh
        &&& at.opened@ == opened
    }

    /// Takes one line of the peer. `message` is the value it holds, `None` where
    /// it is no JSON. A turn that it starts will answer its prompt.
    pub fn receive(
        &mut self,
        message: Option<&Json>,
        model: &str,
        version: &str,
        fresh: &str,
        opened: Opened,
    ) -> (out: Dispatched)
        ensures
            final(self).running == old(self).running,
            match message {
                Some(m) => exists|at: Situation|
                    {
                        &&& old(self).at(model@, version@, fresh@, opened@, at)
                        &&& out.outcome(final(self).pending@, final(self).peer@)
                            == #[trigger] rpc::dispatched(
                            m@,
                            at,
                            old(self).pending@,
                            old(self).peer@,
                        )
                    },
                None => {
                    &&& final(self).pending@ == Seq::<u64>::empty()
                    &&& final(self).peer@ == old(self).peer@
                    &&& out.action@ == rpc::ActionView::Nothing
                    &&& json::values(out.frames@) == seq![
                        frames::failure(JsonView::Null, -32700, "invalid JSON"@),
                    ]
                    &&& rpc::effects(out.effects@) == rpc::denials(old(self).pending@)
                },
            },
            match out.action@ {
                rpc::ActionView::StartTurn { reply_to, .. } => frames::frame_view(final(self).reply)
                    == reply_to,
                _ => final(self).reply == old(self).reply,
            },
    {
        let at = Situation {
            model: model.to_owned(),
            version: version.to_owned(),
            running: self.running,
            steerable: self.running,
            fresh: fresh.to_owned(),
            opened,
        };
        let out = dispatch_line(message, &at, &mut self.pending, &mut self.peer);
        if let RpcAction::StartTurn { reply_to, .. } = &out.action {
            self.reply = match reply_to {
                Some(id) => Some(id.copy()),
                None => None,
            };
        }
        out
    }

    /// The images of a prompt could not be read, so its turn does not start.
    /// The frame to send, where the prompt is owed an answer.
    pub fn images_refused(&mut self, error: &str) -> (out: Option<Json>)
        ensures
            final(self).running == old(self).running,
            final(self).pending@ == old(self).pending@,
            final(self).peer@ == old(self).peer@,
            final(self).reply is None,
            frames::frame_view(out) == match frames::frame_view(old(self).reply) {
                Some(id) => Some(frames::failure(id, -32602, error@)),
                None => None,
            },
    {
        let reply = self.reply.take();
        match reply {
            Some(id) => Some(error_frame(id, -32602, error)),
            None => None,
        }
    }

    /// The turn runs.
    pub fn turn_started(&mut self)
        ensures
            final(self).running,
            final(self).reply == old(self).reply,
            final(self).pending == old(self).pending,
            final(self).peer == old(self).peer,
    {
        self.running = true;
    }

    /// The turn ended. Its prompt is answered, or the peer hears of it, by
    /// exactly one frame; no approval belongs past the turn that asked for it,
    /// so every gate that waits is denied.
    pub fn turn_ended(&mut self, done: &TurnDone) -> (out: (Json, Vec<Effect>))
        ensures
            !final(self).running,
            final(self).reply is None,
            final(self).pending@ == Seq::<u64>::empty(),
            final(self).peer@ == old(self).peer@,
            out.0@ == done.told(frames::frame_view(old(self).reply)),
            rpc::effects(out.1@) == rpc::denials(old(self).pending@),
    {
        self.running = false;
        let answers = deny_pending(&mut self.pending);
        let reply = self.reply.take();
        let frame = match done {
            TurnDone::Stopped(reason) => match reply {
                Some(id) => response_frame(
                    id,
                    object1("stopReason", string(acp_stop_reason(reason))),
                ),
                None => stop_event(reason),
            },
            TurnDone::Failed(e) => failed_frame(reply, e.as_str()),
            TurnDone::Crashed(e) => failed_frame(
                reply,
                cat2("turn task failed: ", e.as_str()).as_str(),
            ),
            TurnDone::Vanished => failed_frame(reply, "turn task disappeared"),
        };
        (frame, answers)
    }

    /// The connection closes: the running turn is cancelled and every gate that
    /// waits is denied.
    pub fn settle(&mut self) -> (out: Vec<Effect>)
        ensures
            final(self).pending@ == Seq::<u64>::empty(),
            final(self).peer@ == old(self).peer@,
            rpc::effects(out@) == rpc::cancelling(old(self).running) + rpc::denials(
                old(self).pending@,
            ),
    {
        rpc::cancel_all(self.running, &mut self.pending)
    }
}

/// The transcript of a session that resumes: the current system prompt, then
/// what was said before, unchanged.
pub fn session_transcript<M>(system: M, resumed: Vec<M>) -> (out: Vec<M>)
    ensures
        out@ == seq![system] + resumed@,
{
    let ghost s = system;
    let ghost r = resumed@;
    let mut resumed = resumed;
    let mut out: Vec<M> = Vec::new();
    out.push(system);
    out.append(&mut resumed);
    assert(out@ =~= seq![s] + r);
    out
}

} // verus!

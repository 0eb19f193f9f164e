//! The commands of an interactive session.

use vstd::prelude::*;
use vstd::string::*;
use crate::config::providers::ReasoningSupport;
use crate::text;
use crate::text::{cat2, cat3, chars_of, same, text_slice, text_starts, trimmed};

verus! {

/// How much the model reasons.
#[derive(Debug, Clone, Copy, PartialEq, Eq, Structural)]
pub enum Effort {
    Minimal,
    Low,
    Medium,
    High,
}

/// What is asked of the model's reasoning; what is not set is left to the provider.
#[derive(Debug, Clone, Copy, PartialEq, Eq)]
pub struct Reasoning {
    pub enabled: Option<bool>,
    pub effort: Option<Effort>,
}

pub open spec fn effort_name(e: Option<Effort>) -> Seq<char> {
    match e {
        Some(Effort::Minimal) => "minimal"@,
        Some(Effort::Low) => "low"@,
        Some(Effort::Medium) => "medium"@,
        Some(Effort::High) => "high"@,
        None => "default"@,
    }
}

pub fn effort_label(e: Option<Effort>) -> (out: &'static str)
    ensures
        out@ == effort_name(e),
{
    match e {
        Some(Effort::Minimal) => "minimal",
        Some(Effort::Low) => "low",
        Some(Effort::Medium) => "medium",
        Some(Effort::High) => "high",
        None => "default",
    }
}

/// How the model reasons, in words.
pub open spec fn status_line(r: Reasoning) -> Seq<char> {
    "thinking: "@ + (match r.enabled {
        Some(true) => "on"@,
        Some(false) => "off"@,
        None => "server default"@,
    }) + "  |  effort: "@ + effort_name(r.effort)
}

/// How the model reasons, in words.
pub fn think_status(r: Reasoning) -> (out: String)
    ensures
        out@ == status_line(r),
{
    let head = cat3(
        "thinking: ",
        match r.enabled {
            Some(true) => "on",
            Some(false) => "off",
            None => "server default",
        },
        "  |  effort: ",
    );
    cat2(head.as_str(), effort_label(r.effort))
}

/// What a command asks for.
pub enum ReasoningCommand {
    /// To tell how the model reasons.
    Show,
    /// To change it.
    Change(Reasoning),
    /// It was not understood.
    Usage(String),
}

/// What `/think` with these words asks for. Switching on keeps the effort, switching off
/// drops it.
pub fn think_command(args: &str, now: Reasoning) -> (out: ReasoningCommand)
    ensures
        ({
            let w = text::trim(args@);
            if w == ""@ || w == "status"@ {
                out is Show
            } else if w == "on"@ {
                out == ReasoningCommand::Change(
                    (Reasoning { enabled: Some(true), effort: now.effort }),
                )
            } else if w == "off"@ {
                out == ReasoningCommand::Change((Reasoning { enabled: Some(false), effort: None }))
            } else {
                out matches ReasoningCommand::Usage(m) && m@
                    == "usage: /think [on|off|status]  (got '"@ + w
                    + "') — use /effort for reasoning level"@
            }
        }),
{
    let w = trimmed(args);
    let word = w.as_str();
    if same(word, "") || same(word, "status") {
        ReasoningCommand::Show
    } else if same(word, "on") {
        ReasoningCommand::Change(Reasoning { enabled: Some(true), effort: now.effort })
    } else if same(word, "off") {
        ReasoningCommand::Change(Reasoning { enabled: Some(false), effort: None })
    } else {
        ReasoningCommand::Usage(
            cat3(
                "usage: /think [on|off|status]  (got '",
                word,
                "') — use /effort for reasoning level",
            ),
        )
    }
}

/// What is said after a change of `/think`: how the model reasons now, or why it does not.
pub fn think_changed(now: Reasoning, error: &Option<String>) -> (out: String)
    ensures
        out@ == match error {
            Some(e) => "thinking unchanged: "@ + e@,
            None => status_line(now),
        },
{
    match error {
        Some(e) => cat2("thinking unchanged: ", e.as_str()),
        None => think_status(now),
    }
}

/// The effort that a word names.
pub open spec fn effort_of(w: Seq<char>) -> Option<Effort> {
    if w == "minimal"@ {
        Some(Effort::Minimal)
    } else if w == "low"@ {
        Some(Effort::Low)
    } else if w == "medium"@ {
        Some(Effort::Medium)
    } else if w == "high"@ {
        Some(Effort::High)
    } else {
        None
    }
}

/// What `/effort` with these words asks for. An effort switches reasoning on.
pub fn effort_command(args: &str) -> (out: ReasoningCommand)
    ensures
        ({
            let w = text::trim(args@);
            match effort_of(w) {
                Some(e) => out == ReasoningCommand::Change(
                    (Reasoning { enabled: Some(true), effort: Some(e) }),
                ),
                None => out matches ReasoningCommand::Usage(m) && m@ == (if w == ""@ {
                    "usage: /effort [minimal|low|medium|high]"@
                } else {
                    "usage: /effort [minimal|low|medium|high]  (got '"@ + w + "')"@
                }),
            }
        }),
{
    let w = trimmed(args);
    let word = w.as_str();
    let effort = if same(word, "minimal") {
        Some(Effort::Minimal)
    } else if same(word, "low") {
        Some(Effort::Low)
    } else if same(word, "medium") {
        Some(Effort::Medium)
    } else if same(word, "high") {
        Some(Effort::High)
    } else {
        None
    };
    match effort {
        Some(e) => ReasoningCommand::Change(Reasoning { enabled: Some(true), effort: Some(e) }),
        None => if same(word, "") {
            ReasoningCommand::Usage("usage: /effort [minimal|low|medium|high]".to_owned())
        } else {
            ReasoningCommand::Usage(
                cat3("usage: /effort [minimal|low|medium|high]  (got '", word, "')"),
            )
        },
    }
}

/// What is said after a change of `/effort`. Where nothing is known of what the model can
/// do, that is said too.
pub fn effort_changed(effort: Effort, support: ReasoningSupport, error: &Option<String>) -> (out:
    String)
    ensures
        out@ == match error {
            Some(e) => "effort unchanged: "@ + e@,
            None => if support is Unknown {
                "effort: "@ + effort_name(Some(effort))
                    + " — requested; profile support is unverified"@
            } else {
                "effort: "@ + effort_name(Some(effort))
            },
        },
{
    let label = effort_label(Some(effort));
    match error {
        Some(e) => cat2("effort unchanged: ", e.as_str()),
        None => match support {
            ReasoningSupport::Unknown => cat3(
                "effort: ",
                label,
                " — requested; profile support is unverified",
            ),
            _ => cat2("effort: ", label),
        },
    }
}

/// The efforts are found again by their names.
pub proof fn law_efforts_round_trip(e: Effort)
    ensures
        effort_of(effort_name(Some(e))) == Some(e),
{
    reveal_strlit("minimal");
    reveal_strlit("low");
    reveal_strlit("medium");
    reveal_strlit("high");
    assert("minimal"@.len() == 7 && "low"@.len() == 3 && "medium"@.len() == 6 && "high"@.len()
        == 4);
}

/// What a line asks for.
pub enum Line {
    Nothing,
    Think(String),
    Effort(String),
    Exit,
    Help,
    Clear,
    Status,
    /// A command that there is not.
    Unknown(String),
    /// A message to the agent.
    Message(String),
}

/// What a line comes to.
#[verifier::ext_equal]
pub ghost enum LineView {
    Nothing,
    Think(Seq<char>),
    Effort(Seq<char>),
    Exit,
    Help,
    Clear,
    Status,
    Unknown(Seq<char>),
    Message(Seq<char>),
}

impl View for Line {
    type V = LineView;

    open spec fn view(&self) -> LineView {
        match *self {
            Line::Nothing => LineView::Nothing,
            Line::Think(s) => LineView::Think(s@),
            Line::Effort(s) => LineView::Effort(s@),
            Line::Exit => LineView::Exit,
            Line::Help => LineView::Help,
            Line::Clear => LineView::Clear,
            Line::Status => LineView::Status,
            Line::Unknown(s) => LineView::Unknown(s@),
            Line::Message(s) => LineView::Message(s@),
        }
    }
}

/// What a command asks for.
pub open spec fn command_of(c: Seq<char>) -> LineView {
    if text::starts_with(c, "think"@) {
        LineView::Think(c.skip(5))
    } else if text::starts_with(c, "effort"@) {
        LineView::Effort(c.skip(6))
    } else if c == "exit"@ || c == "quit"@ {
        LineView::Exit
    } else if c == "help"@ {
        LineView::Help
    } else if c == "clear"@ {
        LineView::Clear
    } else if c == "status"@ {
        LineView::Status
    } else {
        LineView::Unknown("unknown command: /"@ + c + "   (try /help)"@)
    }
}

/// What a line asks for.
pub open spec fn line_of(raw: Seq<char>) -> LineView {
    let l = text::trim(raw);
    if l.len() == 0 {
        LineView::Nothing
    } else if l[0] == '/' {
        command_of(text::trim(l.skip(1)))
    } else {
        LineView::Message(l)
    }
}

fn read_command(c: &str) -> (out: Line)
    ensures
        out@ == command_of(c@),
{
    proof {
        reveal_strlit("think");
        reveal_strlit("effort");
    }
    let x = chars_of(c);
    if text_starts(c, "think") {
        let rest = text_slice(&x, 5, x.len());
        assert(rest@ =~= c@.skip(5));
        return Line::Think(rest);
    }
    if text_starts(c, "effort") {
        let rest = text_slice(&x, 6, x.len());
        assert(rest@ =~= c@.skip(6));
        return Line::Effort(rest);
    }
    if same(c, "exit") || same(c, "quit") {
        Line::Exit
    } else if same(c, "help") {
        Line::Help
    } else if same(c, "clear") {
        Line::Clear
    } else if same(c, "status") {
        Line::Status
    } else {
        Line::Unknown(cat3("unknown command: /", c, "   (try /help)"))
    }
}

/// What a line asks for.
pub fn read_line(raw: &str) -> (out: Line)
    ensures
        out@ == line_of(raw@),
{
    let l = trimmed(raw);
    let x = chars_of(l.as_str());
    if x.len() == 0 {
        return Line::Nothing;
    }
    if x[0] == '/' {
        let rest = text_slice(&x, 1, x.len());
        assert(rest@ =~= l@.skip(1));
        let c = trimmed(rest.as_str());
        return read_command(c.as_str());
    }
    Line::Message(l)
}

} // verus!

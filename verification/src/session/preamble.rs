//! What the model is told before the first message, and which conversation goes on.

use vstd::prelude::*;
use vstd::string::*;
use crate::agents::recovery;
use crate::agents::recovery::read_ulid;
use crate::text;
use crate::text::{cat3, chars_of, trimmed};

verus! {

/// A file that says who the agent is. One that was blocked says why instead.
pub struct Persona {
    pub content: String,
    pub blocked: bool,
}

/// Who the agent is: as the file says unless that was blocked, else as configured.
pub fn persona(file: &Option<Persona>, configured: &Option<String>) -> (out: Option<String>)
    ensures
        text::view_of(out) == match file {
            Some(f) => if f.blocked {
                text::view_of(*configured)
            } else {
                Some(f.content@)
            },
            None => text::view_of(*configured),
        },
{
    match file {
        Some(f) => {
            if !f.blocked {
                return Some(f.content.clone());
            }
        },
        None => {},
    }
    match configured {
        Some(c) => Some(c.clone()),
        None => None,
    }
}

/// What the model is told of the day and the workspace.
pub open spec fn surroundings(today: Seq<char>, workspace: Seq<char>) -> Seq<char> {
    "\n\nEnvironment:\n- Today's date: "@ + today + "\n- Workspace: "@ + workspace
        + "\n\nFor anything time-sensitive (news, prices, \"latest\"/\"recent\"/\"today\"), use the current date above — do not assume an older year in your searches or answers."@
}

/// A section, where it is not empty.
pub open spec fn section(s: Seq<char>) -> Seq<char> {
    if s.len() > 0 {
        "\n\n"@ + s
    } else {
        seq![]
    }
}

fn add_section(out: &mut String, s: &str)
    ensures
        final(out)@ == old(out)@ + section(s@),
{
    if chars_of(s).len() > 0 {
        out.append("\n\n");
        out.append(s);
    }
    assert(out@ =~= old(out)@ + section(s@));
}

/// What the model is told before the first message: who it is, the day and the workspace,
/// and then the project's notes and the skills, where there are any.
pub fn system_prompt(
    identity: &str,
    today: &str,
    workspace: &str,
    project: &str,
    skills: &str,
) -> (out: String)
    ensures
        out@ == identity@ + surroundings(today@, workspace@) + section(project@) + section(
            skills@,
        ),
{
    let mut out = identity.to_owned();
    out.append("\n\nEnvironment:\n- Today's date: ");
    out.append(today);
    out.append("\n- Workspace: ");
    out.append(workspace);
    out.append(
        "\n\nFor anything time-sensitive (news, prices, \"latest\"/\"recent\"/\"today\"), use the current date above — do not assume an older year in your searches or answers.",
    );
    assert(out@ =~= identity@ + surroundings(today@, workspace@));
    add_section(&mut out, project);
    add_section(&mut out, skills);
    out
}

/// Which conversation is to go on.
pub enum Resume {
    /// None: a new one begins.
    Fresh,
    /// None, though the last one was asked for: there is none.
    NoneYet,
    /// This one.
    Session(String),
    /// What was asked for is no session.
    Invalid(String),
}

/// Which conversation is to go on. `sessions` are the ids of the sessions, the latest
/// first.
pub fn resume_target(
    resume: &Option<String>,
    go_on: bool,
    sessions: &Vec<String>,
) -> (out: Resume)
    ensures
        match resume {
            Some(id) => match recovery::ulid_shown(text::trim(id@)) {
                Some(shown) => out matches Resume::Session(s) && s@ == shown,
                None => out matches Resume::Invalid(m) && m@ == "invalid session id '"@ + id@
                    + "'"@,
            },
            None => if !go_on {
                out is Fresh
            } else if sessions@.len() == 0 {
                out is NoneYet
            } else {
                out matches Resume::Session(s) && s@ == sessions@[0]@
            },
        },
{
    match resume {
        Some(id) => {
            let plain = trimmed(id.as_str());
            match read_ulid(plain.as_str()) {
                Some(shown) => Resume::Session(shown),
                None => Resume::Invalid(cat3("invalid session id '", id.as_str(), "'")),
            }
        },
        None => if !go_on {
            Resume::Fresh
        } else if sessions.len() == 0 {
            Resume::NoneYet
        } else {
            Resume::Session(sessions[0].clone())
        },
    }
}

/// Why a session cannot go on: it has no events.
pub fn missing_session(id: &str, events: usize) -> (out: Option<String>)
    ensures
        text::view_of(out) == if events == 0 {
            Some("session "@ + id@ + " has no events (not found)"@)
        } else {
            None
        },
{
    if events == 0 {
        Some(cat3("session ", id, " has no events (not found)"))
    } else {
        None
    }
}

/// Why nothing more is done: a limit was reached. `how` tells how to go on.
pub fn stopped(limit: &str, how: &str) -> (out: String)
    ensures
        out@ == "\n(stopped: "@ + limit@ + " reached — "@ + how@ + ")"@,
{
    let head = cat3("\n(stopped: ", limit, " reached — ");
    cat3(head.as_str(), how, ")")
}

} // verus!

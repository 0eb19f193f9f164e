//! What a child agent is told.

use vstd::prelude::*;
use vstd::string::*;
use crate::number;
use crate::number::show;
use crate::text;
use crate::text::{cat2, cat3, same};

verus! {

/// What every child is told before its task.
pub const TASK: &'static str = "You are a focused sub-agent. You have been delegated one task and you cannot see the conversation that produced it, so work only from what is written here.\n\nTask:\n";

/// What a child with a checkout of its own is told.
pub const WRITER: &'static str = "\nYou can modify code. You are working in a private checkout of the repository that nobody else can see: your edits affect nothing outside it, so make them directly rather than describing them. Do not commit, and do not use git to branch, stash or reset — your changes are collected as a diff exactly as you leave them in the working tree.\n\nBuild or test what you changed before you finish, and say what you ran. Your patch is reviewed by a human alongside that evidence, so an honest \"this compiles but I could not run the tests\" is worth far more than a confident claim that does not hold.\n";

/// What a child that may only read is told.
pub const READER: &'static str = "\nYou are read-only: you cannot modify anything. Investigate, then finish with your findings as your final message.\n\nIf the task above asks you to CHANGE anything — write, edit, add, fix, rename, create a file — you cannot do it, and you must say so as the first line of your answer: state plainly that you were sent read-only and the task needs write access. Do not describe the changes you would have made and leave it at that: a plan written out in full reads like completed work, and whoever sent you will believe the job is done and find the files untouched. Reporting the refusal is the useful outcome; describing the work instead of doing it is the harmful one.\n";

/// What a child that may delegate is told.
pub const DELEGATES: &'static str = "\nYou may delegate a bounded piece of this to your own sub-agent, which reports back to you. Do that only for work that is genuinely separable — you are already a delegate, and a chain of agents each passing the task on costs more at every link.\n";

/// What a child that may not delegate is told.
pub const WORKS_ALONE: &'static str = "\nYou cannot delegate: do this work yourself.\n";

/// What a child that may send messages is told.
pub const MESSAGES: &'static str = "\nYou can send a message to the agent that sent you here, or to another running agent, when you find something it needs and cannot see. That is for passing on findings, not for asking questions — nobody is waiting to answer you.\n";

/// What every child is told of questions, approvals and later messages.
pub const CONDUCT: &'static str = "\nYou cannot ask a question and wait for an answer. Where the task is ambiguous, choose the most reasonable reading, say which you chose, and continue.\n\nActions that touch anything outside your own reasoning may stop for the user's approval, and the request will name you. That is normal — wait for it rather than looking for a way around it.\n\nA further message may arrive from whoever sent you here — a correction, a constraint, a narrowing of scope. Treat it as authoritative and current: it supersedes the task above where the two conflict, and it was sent because something you were doing was wrong or unnecessary. Adjust and carry on with what you have already found; do not start over.\n";

/// What every child is told after the number of its turns.
pub const TURNS: &'static str = " turns. That is a hard stop — when it runs out you are cut off wherever you are, and whatever you had said last is what gets returned. So do not save the answer for the end: once you are around two thirds through, stop exploring and write what you have, marking anything you could not confirm. A partial answer delivered is worth more than a complete one you never reached.\n\nYour final message is the only thing returned, and it lands in the parent's context window — so keep it tight. Lead with the answer, use bullets over paragraphs, cite concrete file paths and line numbers, and do not replay how you got there. If you could not answer, say so plainly and say what you ruled out.";

/// The child has a tool.
pub open spec fn holds(tools: Seq<Seq<char>>, name: Seq<char>) -> bool {
    tools.contains(name)
}

fn has_tool(tools: &Vec<String>, name: &str) -> (yes: bool)
    ensures
        yes == holds(text::views(tools@), name@),
{
    let mut i: usize = 0;
    while i < tools.len()
        invariant
            i <= tools@.len(),
            forall|j: int| 0 <= j < i ==> (#[trigger] text::views(tools@)[j]) != name@,
        decreases tools@.len() - i,
    {
        assert(text::views(tools@)[i as int] == tools@[i as int]@);
        if same(tools[i].as_str(), name) {
            return true;
        }
        i = i + 1;
    }
    false
}

/// What a child is told: its task, the form of its answer, whether it may write, delegate
/// and send messages, how to conduct itself, and how many turns it has.
pub open spec fn told(
    objective: Seq<char>,
    contract: Option<Seq<char>>,
    writes: bool,
    tools: Seq<Seq<char>>,
    max_turns: Option<u32>,
) -> Seq<char> {
    let turns: nat = match max_turns {
        Some(n) => n as nat,
        None => 1,
    };
    TASK@ + objective + "\n"@ + (match contract {
        Some(c) => "\nYour answer must be: "@ + c + "\n"@,
        None => seq![],
    }) + (if writes {
        WRITER@
    } else {
        READER@
    }) + (if holds(tools, "agent.spawn"@) {
        DELEGATES@
    } else {
        WORKS_ALONE@
    }) + (if holds(tools, "agent.message"@) {
        MESSAGES@
    } else {
        seq![]
    }) + CONDUCT@ + "\nYou have "@ + number::decimal(turns) + TURNS@
}

/// What a child is told.
pub fn child_prompt(
    objective: &str,
    contract: &Option<String>,
    writes: bool,
    tools: &Vec<String>,
    max_turns: Option<u32>,
) -> (out: String)
    ensures
        out@ == told(
            objective@,
            text::view_of(*contract),
            writes,
            text::views(tools@),
            max_turns,
        ),
{
    let mut out = TASK.to_owned();
    out.append(objective);
    out.append("\n");
    let ghost was = out@;
    match contract {
        Some(c) => {
            out.append("\nYour answer must be: ");
            out.append(c.as_str());
            out.append("\n");
        },
        None => {},
    }
    assert(out@ =~= was + (match text::view_of(*contract) {
        Some(c) => "\nYour answer must be: "@ + c + "\n"@,
        None => seq![],
    }));
    if writes {
        out.append(WRITER);
    } else {
        out.append(READER);
    }
    if has_tool(tools, "agent.spawn") {
        out.append(DELEGATES);
    } else {
        out.append(WORKS_ALONE);
    }
    let ghost was = out@;
    if has_tool(tools, "agent.message") {
        out.append(MESSAGES);
    }
    assert(out@ =~= was + (if holds(text::views(tools@), "agent.message"@) {
        MESSAGES@
    } else {
        seq![]
    }));
    out.append(CONDUCT);
    out.append("\nYou have ");
    let turns: u64 = match max_turns {
        Some(n) => n as u64,
        None => 1,
    };
    let turns = show(turns);
    out.append(turns.as_str());
    out.append(TURNS);
    out
}

/// How an approval names the child that asks for it, so that what is granted to one child
/// is not granted to another.
pub open spec fn attributed(agent: Seq<char>, action: Seq<char>) -> Seq<char> {
    "agent '"@ + agent + "' · "@ + action
}

/// How an approval names the child that asks for it.
pub fn attribute(agent: &str, action: &str) -> (out: String)
    ensures
        out@ == attributed(agent@, action@),
{
    let head = cat3("agent '", agent, "' · ");
    cat2(head.as_str(), action)
}

/// Two children are never named alike for the same action: an approval of one is none of
/// the other.
pub proof fn law_approvals_are_not_shared(a: Seq<char>, b: Seq<char>, action: Seq<char>)
    requires
        attributed(a, action) == attributed(b, action),
    ensures
        a == b,
{
    let (x, y) = (attributed(a, action), attributed(b, action));
    let n = "agent '"@.len() as int;
    assert(x.len() == n + a.len() + "' · "@.len() + action.len());
    assert(y.len() == n + b.len() + "' · "@.len() + action.len());
    assert(a =~= x.subrange(n, n + a.len()));
    assert(b =~= y.subrange(n, n + b.len()));
}

/// How the words begin that a child is told.
pub proof fn lemma_words()
    ensures
        text::contains(WRITER@, "You can modify code."@),
        text::contains(READER@, "You are read-only: you cannot modify anything."@),
        text::contains(WORKS_ALONE@, "You cannot delegate: do this work yourself."@),
        text::starts_with(TURNS@, " turns."@),
{
    reveal_strlit(
        "\nYou can modify code. You are working in a private checkout of the repository that nobody else can see: your edits affect nothing outside it, so make them directly rather than describing them. Do not commit, and do not use git to branch, stash or reset — your changes are collected as a diff exactly as you leave them in the working tree.\n\nBuild or test what you changed before you finish, and say what you ran. Your patch is reviewed by a human alongside that evidence, so an honest \"this compiles but I could not run the tests\" is worth far more than a confident claim that does not hold.\n",
    );
    reveal_strlit("You can modify code.");
    assert(WRITER@.subrange(1, 21) =~= "You can modify code."@);
    assert(text::occurs(WRITER@, "You can modify code."@, 1));
    reveal_strlit(
        "\nYou are read-only: you cannot modify anything. Investigate, then finish with your findings as your final message.\n\nIf the task above asks you to CHANGE anything — write, edit, add, fix, rename, create a file — you cannot do it, and you must say so as the first line of your answer: state plainly that you were sent read-only and the task needs write access. Do not describe the changes you would have made and leave it at that: a plan written out in full reads like completed work, and whoever sent you will believe the job is done and find the files untouched. Reporting the refusal is the useful outcome; describing the work instead of doing it is the harmful one.\n",
    );
    reveal_strlit("You are read-only: you cannot modify anything.");
    assert(READER@.subrange(1, 47) =~= "You are read-only: you cannot modify anything."@);
    assert(text::occurs(READER@, "You are read-only: you cannot modify anything."@, 1));
    reveal_strlit("\nYou cannot delegate: do this work yourself.\n");
    reveal_strlit("You cannot delegate: do this work yourself.");
    assert(WORKS_ALONE@.subrange(1, 44) =~= "You cannot delegate: do this work yourself."@);
    assert(text::occurs(WORKS_ALONE@, "You cannot delegate: do this work yourself."@, 1));
    reveal_strlit(
        " turns. That is a hard stop — when it runs out you are cut off wherever you are, and whatever you had said last is what gets returned. So do not save the answer for the end: once you are around two thirds through, stop exploring and write what you have, marking anything you could not confirm. A partial answer delivered is worth more than a complete one you never reached.\n\nYour final message is the only thing returned, and it lands in the parent's context window — so keep it tight. Lead with the answer, use bullets over paragraphs, cite concrete file paths and line numbers, and do not replay how you got there. If you could not answer, say so plainly and say what you ruled out.",
    );
    reveal_strlit(" turns.");
    assert(TURNS@.subrange(0, 7) =~= " turns."@);
}

} // verus!

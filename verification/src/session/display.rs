//! How calls, results and approvals are shown in a terminal.

use vstd::prelude::*;
use vstd::string::*;
use crate::digest::bytes_of;
use crate::json;
use crate::json::{Json, JsonView};
use crate::number;
use crate::number::{show, show_signed};
use crate::text;
use crate::text::{
    cat2, cat3, cat5, chars_of, first_chars, lines_of, lower_text, same, text_starts, trimmed,
};

verus! {

/// The argument of a tool that tells most.
pub open spec fn salient_key(tool: Seq<char>) -> Seq<char> {
    if text::starts_with(tool, "fs."@) {
        "path"@
    } else if tool == "shell.exec"@ {
        "command"@
    } else if tool == "web.search"@ {
        "query"@
    } else if tool == "web.fetch"@ {
        "url"@
    } else if tool == "read_artifact"@ {
        "hash"@
    } else if tool == "grep"@ {
        "pattern"@
    } else if text::starts_with(tool, "skill."@) {
        "name"@
    } else {
        ""@
    }
}

/// The first text among the values of an object.
pub open spec fn first_text(rows: Seq<(Seq<char>, JsonView)>, i: int) -> Option<Seq<char>>
    decreases rows.len() - i,
{
    if i < 0 || i >= rows.len() {
        None
    } else {
        match rows[i].1 {
            JsonView::Text(s) => Some(s),
            _ => first_text(rows, i + 1),
        }
    }
}

/// What is shown of the arguments: the one that tells most, else the first text.
pub open spec fn salient(tool: Seq<char>, args: JsonView) -> Option<Seq<char>> {
    match args.text_at(salient_key(tool)) {
        Some(s) => Some(s),
        None => match args {
            JsonView::Object(rows) => first_text(rows, 0),
            _ => None,
        },
    }
}

/// A text in brackets, cut to what fits in a line.
pub open spec fn bracketed(s: Seq<char>) -> Seq<char> {
    "("@ + text::at_most(s, 60) + (if s.len() > 60 {
        "…"@
    } else {
        ""@
    }) + ")"@
}

fn key_of(tool: &str) -> (out: &'static str)
    ensures
        out@ == salient_key(tool@),
{
    if text_starts(tool, "fs.") {
        "path"
    } else if same(tool, "shell.exec") {
        "command"
    } else if same(tool, "web.search") {
        "query"
    } else if same(tool, "web.fetch") {
        "url"
    } else if same(tool, "read_artifact") {
        "hash"
    } else if same(tool, "grep") {
        "pattern"
    } else if text_starts(tool, "skill.") {
        "name"
    } else {
        ""
    }
}

fn find_text(rows: &Vec<(String, Json)>) -> (out: Option<String>)
    ensures
        text::view_of(out) == first_text(json::rows(rows@), 0),
{
    let ghost all = json::rows(rows@);
    let mut i: usize = 0;
    while i < rows.len()
        invariant
            i <= rows@.len(),
            all == json::rows(rows@),
            first_text(all, 0) == first_text(all, i as int),
        decreases rows@.len() - i,
    {
        assert(all[i as int].1 == rows@[i as int].1@);
        match rows[i].1.text() {
            Some(s) => {
                return Some(s.clone());
            },
            None => {},
        }
        i = i + 1;
    }
    None
}

/// The one argument of a call that is worth showing.
pub fn salient_arg(tool: &str, args: &Json) -> (out: String)
    ensures
        out@ == match salient(tool@, args@) {
            Some(s) => bracketed(s),
            None => seq![],
        },
{
    broadcast use {json::lemma_list_view, json::lemma_object_view};

    let found = match args.text_at(key_of(tool)) {
        Some(s) => Some(s.clone()),
        None => match args {
            Json::Object(rows) => find_text(rows),
            _ => None,
        },
    };
    match found {
        Some(s) => {
            let short = first_chars(s.as_str(), 60);
            let long = chars_of(s.as_str()).len() > 60;
            let head = cat2("(", short.as_str());
            cat3(
                head.as_str(),
                if long {
                    "…"
                } else {
                    ""
                },
                ")",
            )
        },
        None => {
            let nothing = String::new();
            assert(nothing@ =~= seq![]);
            nothing
        },
    }
}

/// A number in a result, or zero.
pub open spec fn count_in(p: JsonView, key: Seq<char>) -> nat {
    match p.get(key).unsigned() {
        Some(n) => n as nat,
        None => 0,
    }
}

/// A text in a result, or the empty one.
pub open spec fn text_in(p: JsonView, key: Seq<char>) -> Seq<char> {
    match p.text_at(key) {
        Some(s) => s,
        None => ""@,
    }
}

/// How many bytes a text in a result takes.
pub open spec fn size_in(p: JsonView, key: Seq<char>) -> nat {
    match p.text_at(key) {
        Some(s) => vstd::utf8::encode_utf8(s).len(),
        None => 0,
    }
}

/// The first line that is not blank.
pub open spec fn first_line(v: Seq<Seq<char>>, i: int) -> Seq<char>
    decreases v.len() - i,
{
    if i < 0 || i >= v.len() {
        ""@
    } else if text::trim(v[i]).len() > 0 {
        v[i]
    } else {
        first_line(v, i + 1)
    }
}

/// One line about the result of a tool.
pub open spec fn result_line(tool: Seq<char>, p: JsonView) -> Seq<char> {
    if tool == "web.search"@ {
        number::decimal(count_in(p, "count"@)) + " results"@
    } else if tool == "grep"@ {
        number::decimal(count_in(p, "count"@)) + " matches"@ + (if p.get("truncated"@).truth()
            == Some(true) {
            " (truncated)"@
        } else {
            ""@
        })
    } else if tool == "fs.read"@ {
        number::decimal(size_in(p, "content"@)) + " chars"@
    } else if tool == "fs.list"@ {
        number::decimal(p.get("entries"@).items().len()) + " entries"@
    } else if tool == "fs.write"@ {
        "wrote "@ + text_in(p, "path"@)
    } else if tool == "web.fetch"@ {
        if text_in(p, "title"@).len() == 0 {
            number::decimal(size_in(p, "content"@)) + " chars"@
        } else {
            text_in(p, "title"@) + " ("@ + number::decimal(size_in(p, "content"@)) + " chars)"@
        }
    } else if tool == "shell.exec"@ {
        let peek = text::at_most(first_line(text::lines(text_in(p, "stdout"@)), 0), 80);
        match p.get("exit_code"@).integer() {
            Some(c) => if peek.len() == 0 {
                "exit "@ + number::signed_decimal(c)
            } else {
                "exit "@ + number::signed_decimal(c) + " · "@ + peek
            },
            None => "ran"@,
        }
    } else if tool == "read_artifact"@ {
        number::decimal(count_in(p, "length"@)) + " of "@ + number::decimal(
            count_in(p, "total_size"@),
        ) + " bytes"@
    } else {
        "ok"@
    }
}

fn count(p: &Json, key: &str) -> (out: String)
    ensures
        out@ == number::decimal(count_in(p@, key@)),
{
    match p.field(key) {
        Some(v) => match v.unsigned() {
            Some(n) => show(n),
            None => show(0),
        },
        None => show(0),
    }
}

fn text_at_key(p: &Json, key: &str) -> (out: String)
    ensures
        out@ == text_in(p@, key@),
{
    match p.text_at(key) {
        Some(s) => s.clone(),
        None => "".to_owned(),
    }
}

fn size(p: &Json, key: &str) -> (out: String)
    ensures
        out@ == number::decimal(size_in(p@, key@)),
{
    match p.text_at(key) {
        Some(s) => show(bytes_of(s.as_str()).len() as u64),
        None => show(0),
    }
}

fn first_said(v: &Vec<String>) -> (out: String)
    ensures
        out@ == first_line(text::views(v@), 0),
{
    let ghost all = text::views(v@);
    let mut i: usize = 0;
    while i < v.len()
        invariant
            i <= v@.len(),
            all == text::views(v@),
            first_line(all, 0) == first_line(all, i as int),
        decreases v@.len() - i,
    {
        assert(all[i as int] == v@[i as int]@);
        let plain = trimmed(v[i].as_str());
        if chars_of(plain.as_str()).len() > 0 {
            return v[i].clone();
        }
        i = i + 1;
    }
    "".to_owned()
}

fn shell_line(p: &Json) -> (out: String)
    ensures
        out@ == result_line("shell.exec"@, p@),
{
    proof {
        lemma_tools();
    }
    let stdout = text_at_key(p, "stdout");
    let first = first_said(&lines_of(stdout.as_str()));
    let peek = first_chars(first.as_str(), 80);
    let code = match p.field("exit_code") {
        Some(v) => v.integer(),
        None => None,
    };
    match code {
        Some(c) => {
            let c = show_signed(c);
            if chars_of(peek.as_str()).len() == 0 {
                cat2("exit ", c.as_str())
            } else {
                let head = cat2("exit ", c.as_str());
                cat3(head.as_str(), " · ", peek.as_str())
            }
        },
        None => "ran".to_owned(),
    }
}

/// The names of the tools differ.
proof fn lemma_tools()
    ensures
        "shell.exec"@ != "web.search"@,
        "shell.exec"@ != "grep"@,
        "shell.exec"@ != "fs.read"@,
        "shell.exec"@ != "fs.list"@,
        "shell.exec"@ != "fs.write"@,
        "shell.exec"@ != "web.fetch"@,
{
    reveal_strlit("shell.exec");
    reveal_strlit("web.search");
    reveal_strlit("grep");
    reveal_strlit("fs.read");
    reveal_strlit("fs.list");
    reveal_strlit("fs.write");
    reveal_strlit("web.fetch");
    assert("shell.exec"@[0] == 's' && "web.search"@[0] == 'w' && "grep"@[0] == 'g' && "fs.read"@[0]
        == 'f' && "fs.list"@[0] == 'f' && "fs.write"@[0] == 'f' && "web.fetch"@[0] == 'w');
}

/// One line about the result of a tool.
pub fn result_summary(tool: &str, p: &Json) -> (out: String)
    ensures
        out@ == result_line(tool@, p@),
{
    if same(tool, "web.search") {
        let n = count(p, "count");
        return cat2(n.as_str(), " results");
    }
    if same(tool, "grep") {
        let n = count(p, "count");
        let cut = match p.field("truncated") {
            Some(v) => match v.truth() {
                Some(b) => b,
                None => false,
            },
            None => false,
        };
        return cat3(
            n.as_str(),
            " matches",
            if cut {
                " (truncated)"
            } else {
                ""
            },
        );
    }
    if same(tool, "fs.read") {
        let n = size(p, "content");
        return cat2(n.as_str(), " chars");
    }
    if same(tool, "fs.list") {
        let n = match p.field("entries") {
            Some(v) => match v.list() {
                Some(l) => show(l.len() as u64),
                None => show(0),
            },
            None => show(0),
        };
        return cat2(n.as_str(), " entries");
    }
    if same(tool, "fs.write") {
        let path = text_at_key(p, "path");
        return cat2("wrote ", path.as_str());
    }
    if same(tool, "web.fetch") {
        let title = text_at_key(p, "title");
        let n = size(p, "content");
        return if chars_of(title.as_str()).len() == 0 {
            cat2(n.as_str(), " chars")
        } else {
            let head = cat3(title.as_str(), " (", n.as_str());
            cat2(head.as_str(), " chars)")
        };
    }
    if same(tool, "shell.exec") {
        return shell_line(p);
    }
    if same(tool, "read_artifact") {
        let n = count(p, "length");
        let m = count(p, "total_size");
        let head = cat3(n.as_str(), " of ", m.as_str());
        return cat2(head.as_str(), " bytes");
    }
    "ok".to_owned()
}

/// A line of a change: what was added in green, what was taken out in red.
pub open spec fn coloured(l: Seq<char>) -> Seq<char> {
    if text::starts_with(l, "+"@) && !text::starts_with(l, "+++"@) {
        "\x1b[32m"@ + l + "\x1b[0m"@
    } else if text::starts_with(l, "-"@) && !text::starts_with(l, "---"@) {
        "\x1b[31m"@ + l + "\x1b[0m"@
    } else {
        l
    }
}

/// A line of a change: what was added in green, what was taken out in red.
pub fn colour_line(l: &str) -> (out: String)
    ensures
        out@ == coloured(l@),
{
    if text_starts(l, "+") && !text_starts(l, "+++") {
        cat3("\x1b[32m", l, "\x1b[0m")
    } else if text_starts(l, "-") && !text_starts(l, "---") {
        cat3("\x1b[31m", l, "\x1b[0m")
    } else {
        l.to_owned()
    }
}

/// The lines of a change.
pub fn diff_lines(diff: &str) -> (out: Vec<String>)
    ensures
        text::views(out@) == text::lines(diff@).map_values(|l: Seq<char>| coloured(l)),
{
    let v = lines_of(diff);
    let ghost all = text::lines(diff@);
    let mut out: Vec<String> = Vec::new();
    let mut i: usize = 0;
    while i < v.len()
        invariant
            i <= v@.len(),
            all == text::views(v@),
            out@.len() == i,
            forall|j: int| 0 <= j < i ==> (#[trigger] out@[j])@ == coloured(all[j]),
        decreases v@.len() - i,
    {
        assert(all[i as int] == v@[i as int]@);
        out.push(colour_line(v[i].as_str()));
        i = i + 1;
    }
    assert(text::views(out@) =~= all.map_values(|l: Seq<char>| coloured(l)));
    out
}

/// What is shown of a result: the change, what went wrong, or one line.
pub open spec fn result_lines(tool: Seq<char>, ok: bool, p: JsonView) -> Seq<Seq<char>> {
    match p.text_at("diff"@) {
        Some(d) => text::lines(d).map_values(|l: Seq<char>| coloured(l)),
        None => if !ok {
            seq![
                "  ⎿ \x1b[31m✗ "@ + (match p.text_at("error"@) {
                    Some(e) => e,
                    None => "error"@,
                }) + "\x1b[0m"@,
            ]
        } else {
            seq!["  ⎿ "@ + result_line(tool, p)]
        },
    }
}

/// What is shown of a result.
pub fn tool_result(tool: &str, ok: bool, p: &Json) -> (out: Vec<String>)
    ensures
        text::views(out@) == result_lines(tool@, ok, p@),
{
    match p.text_at("diff") {
        Some(d) => {
            return diff_lines(d.as_str());
        },
        None => {},
    }
    let mut out: Vec<String> = Vec::new();
    let one = if !ok {
        let e = match p.text_at("error") {
            Some(e) => e.clone(),
            None => "error".to_owned(),
        };
        cat3("  ⎿ \x1b[31m✗ ", e.as_str(), "\x1b[0m")
    } else {
        let s = result_summary(tool, p);
        cat2("  ⎿ ", s.as_str())
    };
    out.push(one);
    assert(text::views(out@) =~= seq![one@]);
    out
}

/// The line about a call.
pub fn tool_call(tool: &str, args: &Json) -> (out: String)
    ensures
        out@ == "\n⏺ "@ + tool@ + (match salient(tool@, args@) {
            Some(s) => bracketed(s),
            None => seq![],
        }),
{
    let arg = salient_arg(tool, args);
    cat3("\n⏺ ", tool, arg.as_str())
}

/// The line about a compaction.
pub fn compaction(before: u32, after: u32, summarized: bool) -> (out: String)
    ensures
        out@ == "\n↯ "@ + (if summarized {
            "summarized"@
        } else {
            "pruned"@
        }) + " context "@ + number::decimal(before as nat) + "→"@ + number::decimal(after as nat)
            + " tokens"@,
{
    let b = show(before as u64);
    let a = show(after as u64);
    let head = cat3(
        "\n↯ ",
        if summarized {
            "summarized"
        } else {
            "pruned"
        },
        " context ",
    );
    cat5(head.as_str(), b.as_str(), "→", a.as_str(), " tokens")
}

/// The line about a check.
pub fn verify_line(ok: bool, summary: &str) -> (out: String)
    ensures
        out@ == (if ok {
            "\n\x1b[32m✔ verify: "@
        } else {
            "\n\x1b[31m✗ verify: "@
        }) + summary@ + "\x1b[0m"@,
{
    cat3(
        if ok {
            "\n\x1b[32m✔ verify: "
        } else {
            "\n\x1b[31m✗ verify: "
        },
        summary,
        "\x1b[0m",
    )
}

/// What the user may answer.
#[derive(Debug, Clone, Copy, PartialEq, Eq, Structural)]
pub enum Approval {
    Once,
    Always,
    Deny,
}

/// The question about an action, before the preview: an escalated one is asked about every
/// time.
pub fn approval_question(action: &str, escalated: bool) -> (out: Vec<String>)
    ensures
        text::views(out@) == (if escalated {
            seq![
                "\n\x1b[33m⚠ approve "@ + action@ + "?\x1b[0m"@,
                "\x1b[31m  ⚠ web-tainted action — reviewed every time; 'always' is not offered\x1b[0m"@,
            ]
        } else {
            seq!["\n\x1b[33m⚠ approve "@ + action@ + "?\x1b[0m"@]
        }),
{
    let mut out: Vec<String> = Vec::new();
    let head = cat3("\n\x1b[33m⚠ approve ", action, "?\x1b[0m");
    out.push(head);
    if escalated {
        let note = "\x1b[31m  ⚠ web-tainted action — reviewed every time; 'always' is not offered\x1b[0m".to_owned();
        out.push(note);
        assert(text::views(out@) =~= seq![head@, note@]);
    } else {
        assert(text::views(out@) =~= seq![head@]);
    }
    out
}

/// The choices that are offered.
pub fn approval_choices(escalated: bool) -> (out: &'static str)
    ensures
        out@ == (if escalated {
            "  [1] once  [3] no (default): "@
        } else {
            "  [1] once  [2] always  [3] no (default): "@
        }),
{
    if escalated {
        "  [1] once  [3] no (default): "
    } else {
        "  [1] once  [2] always  [3] no (default): "
    }
}

/// What an answer means. An escalated action is never remembered, whatever is answered.
pub open spec fn approval_of(answer: Seq<char>, escalated: bool) -> Approval {
    let w = text::lowered(text::trim(answer));
    if w == "1"@ || w == "y"@ || w == "yes"@ || w == "once"@ {
        Approval::Once
    } else if !escalated && (w == "2"@ || w == "a"@ || w == "always"@) {
        Approval::Always
    } else {
        Approval::Deny
    }
}

/// What an answer means.
pub fn read_approval(answer: &str, escalated: bool) -> (out: Approval)
    ensures
        out == approval_of(answer@, escalated),
{
    let plain = trimmed(answer);
    let w = lower_text(plain.as_str());
    let w = w.as_str();
    if same(w, "1") || same(w, "y") || same(w, "yes") || same(w, "once") {
        Approval::Once
    } else if !escalated && (same(w, "2") || same(w, "a") || same(w, "always")) {
        Approval::Always
    } else {
        Approval::Deny
    }
}

/// An escalated action is allowed once or not at all.
pub proof fn law_escalated_answers_are_not_remembered(answer: Seq<char>)
    ensures
        !(approval_of(answer, true) is Always),
{
}

} // verus!

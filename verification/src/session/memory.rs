//! The words of the commands on what the agent remembers.

use vstd::prelude::*;
use vstd::string::*;
use crate::number;
use crate::number::show;
use crate::text;
use crate::text::{cat3, cat5, chars_of, join, replace_all, same, text_slice, trimmed, words_of};

verus! {

/// Where something is remembered.
#[derive(Debug, Clone, Copy, PartialEq, Eq, Structural)]
pub enum Scope {
    Project,
    User,
}

/// The scope that a word names; the project's where there is none.
pub open spec fn scope_of(raw: Option<Seq<char>>) -> Option<Scope> {
    match raw {
        None => Some(Scope::Project),
        Some(w) => if w == "project"@ {
            Some(Scope::Project)
        } else if w == "user"@ {
            Some(Scope::User)
        } else {
            None
        },
    }
}

/// The scope that a word names.
pub fn memory_scope(raw: &Option<String>) -> (out: Result<Scope, String>)
    ensures
        match out {
            Ok(s) => scope_of(text::view_of(*raw)) == Some(s),
            Err(e) => scope_of(text::view_of(*raw)) is None && (*raw matches Some(w) && e@
                == "unknown memory scope '"@ + w@ + "' (project|user)"@),
        },
{
    match raw {
        None => Ok(Scope::Project),
        Some(w) => if same(w.as_str(), "project") {
            Ok(Scope::Project)
        } else if same(w.as_str(), "user") {
            Ok(Scope::User)
        } else {
            Err(cat3("unknown memory scope '", w.as_str(), "' (project|user)"))
        },
    }
}

/// The line about an entry in a list. `age` is in days.
pub fn list_line(
    name: &str,
    scope: &str,
    trust: &str,
    age: u64,
    pinned: bool,
    description: &str,
) -> (out: String)
    ensures
        out@ == name@ + "  ["@ + scope@ + " · "@ + trust@ + " · "@ + number::decimal(age as nat)
            + "d"@ + (if pinned {
            " · pinned"@
        } else {
            ""@
        }) + "]  "@ + description@,
{
    let age = show(age);
    let a = cat5(name, "  [", scope, " · ", trust);
    let b = cat5(
        a.as_str(),
        " · ",
        age.as_str(),
        "d",
        if pinned {
            " · pinned"
        } else {
            ""
        },
    );
    cat3(b.as_str(), "]  ", description)
}

/// What is searched for: the words with spaces between them. A blank search is refused.
pub fn search_query(words: &Vec<String>) -> (out: Result<String, String>)
    ensures
        ({
            let q = text::joined(text::views(words@), " "@);
            if text::trim(q).len() == 0 {
                out matches Err(e) && e@ == "memory search needs a non-empty query"@
            } else {
                out matches Ok(s) && s@ == q
            }
        }),
{
    let q = join(words, " ");
    let plain = trimmed(q.as_str());
    if chars_of(plain.as_str()).len() == 0 {
        Err("memory search needs a non-empty query".to_owned())
    } else {
        Ok(q)
    }
}

/// The lines about an entry that was found: its claim stands in one line.
pub fn found_line(name: &str, scope: &str, trust: &str, description: &str, claim: &str) -> (out:
    String)
    ensures
        out@ == name@ + "  ["@ + scope@ + " · "@ + trust@ + "]  "@ + description@ + "\n  "@
            + text::replaced(claim@, "\n"@, " "@),
{
    proof {
        reveal_strlit("\n");
    }
    let flat = replace_all(claim, "\n", " ");
    let a = cat5(name, "  [", scope, " · ", trust);
    cat5(a.as_str(), "]  ", description, "\n  ", flat.as_str())
}

/// The program of an editor and the words before the file. Refused where none is named.
pub fn editor_command(editor: &Option<String>) -> (out: Result<Vec<String>, String>)
    ensures
        match editor {
            None => out matches Err(e) && e@ == "$EDITOR is not set"@,
            Some(v) => if text::words(v@).len() == 0 {
                out matches Err(e) && e@ == "$EDITOR is empty"@
            } else {
                out matches Ok(w) && text::views(w@) == text::words(v@)
            },
        },
{
    match editor {
        None => Err("$EDITOR is not set".to_owned()),
        Some(v) => {
            let w = words_of(&chars_of(v.as_str()));
            assert(text::views(w@).len() == w@.len());
            if w.len() == 0 {
                Err("$EDITOR is empty".to_owned())
            } else {
                Ok(w)
            }
        },
    }
}

/// A claim after it was edited: without the white space at its end. A blank one is
/// refused.
pub fn edited_claim(text: &str) -> (out: Result<String, String>)
    ensures
        if text::trim(text@).len() == 0 {
            out matches Err(e) && e@ == "edited memory claim is empty"@
        } else {
            out matches Ok(c) && c@ == text::trim_end(text@)
        },
{
    let plain = trimmed(text);
    if chars_of(plain.as_str()).len() == 0 {
        return Err("edited memory claim is empty".to_owned());
    }
    let x = chars_of(text);
    let mut n: usize = x.len();
    assert(x@.take(n as int) =~= text@);
    while n > 0 && text::white(x[n - 1])
        invariant
            n <= x@.len(),
            x@ == text@,
            text::trim_end(text@) == text::trim_end(x@.take(n as int)),
        decreases n,
    {
        assert(x@.take(n as int).drop_last() =~= x@.take(n - 1));
        n = n - 1;
    }
    let out = text_slice(&x, 0, n);
    assert(out@ =~= x@.take(n as int));
    Ok(out)
}

/// Why an entry cannot be forgotten or pinned.
pub fn not_found(name: &str, scope: Option<&str>) -> (out: String)
    ensures
        out@ == match scope {
            Some(s) => "memory '"@ + name@ + "' not found in "@ + s@ + " scope"@,
            None => "memory '"@ + name@ + "' not found"@,
        },
{
    match scope {
        Some(s) => cat5("memory '", name, "' not found in ", s, " scope"),
        None => cat3("memory '", name, "' not found"),
    }
}

} // verus!

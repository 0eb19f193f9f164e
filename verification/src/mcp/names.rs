//! The names under which tools are exposed.

use vstd::prelude::*;
use vstd::string::*;
use crate::mcp::errors::Error;
use crate::text;
use crate::text::{cat3, chars_of, position_from, same, text_contains, text_slice, text_starts};

verus! {

/// What marks a tool as one of a server, ahead of the server's name.
pub const TOOL_PREFIX: &'static str = "mcp__";

/// The name of a server's tool.
pub open spec fn qualified(server: Seq<char>, tool: Seq<char>) -> Seq<char> {
    "mcp__"@ + server + "__"@ + tool
}

/// The name of a server's tool.
pub fn qualify(server: &str, tool: &str) -> (out: String)
    ensures
        out@ == qualified(server@, tool@),
{
    let mut out = cat3("mcp__", server, "__");
    out.append(tool);
    out
}

/// The server and the tool that a name stands for: the prefix, the server up to the
/// first separator, and the tool behind it, neither of them empty.
pub open spec fn parsed(name: Seq<char>) -> Option<(Seq<char>, Seq<char>)> {
    if !text::starts_with(name, "mcp__"@) {
        None
    } else {
        let rest = text::rest(name, 5);
        match text::find(rest, "__"@) {
            Some(i) => {
                let server = text::prefix(rest, i);
                let tool = text::rest(rest, i + 2);
                if server.len() == 0 || tool.len() == 0 {
                    None
                } else {
                    Some((server, tool))
                }
            },
            None => None,
        }
    }
}

/// The server and the tool that a name stands for.
pub fn parse_qualified(name: &str) -> (out: Result<(String, String), Error>)
    ensures
        match out {
            Ok((server, tool)) => parsed(name@) == Some((server@, tool@)),
            Err(e) => parsed(name@) is None && (e matches Error::BadToolName(n) && n@ == name@),
        },
{
    proof {
        reveal_strlit("mcp__");
        reveal_strlit("__");
        assert("mcp__"@.len() == 5);
        assert("__"@.len() == 2);
    }
    if !text_starts(name, "mcp__") {
        return Err(Error::BadToolName(name.to_owned()));
    }
    let x = chars_of(name);
    let rest = chars_of(text_slice(&x, 5, x.len()).as_str());
    let n: usize = rest.len();
    assert(rest@ =~= text::rest(name@, 5));
    match position_from(&rest, &chars_of("__"), 0) {
        Some(i) => {
            proof {
                text::lemma_find_from(rest@, "__"@, 0);
            }
            if i == 0 || i + 2 >= n {
                return Err(Error::BadToolName(name.to_owned()));
            }
            Ok((text_slice(&rest, 0, i), text_slice(&rest, i + 2, n)))
        },
        None => Err(Error::BadToolName(name.to_owned())),
    }
}

/// Whether a tool belongs to a server.
pub fn is_mcp_tool(name: &str) -> (yes: bool)
    ensures
        yes == text::starts_with(name@, "mcp__"@),
{
    text_starts(name, "mcp__")
}

/// A letter, a digit, or one of three marks.
pub open spec fn plain(c: char) -> bool {
    ('a' <= c <= 'z') || ('A' <= c <= 'Z') || ('0' <= c <= '9') || c == '_' || c == '-' || c == '.'
}

/// A tool may have the name: not empty, not long, only plain characters, and no
/// separator in it.
pub open spec fn valid(name: Seq<char>) -> bool {
    &&& 0 < name.len() <= 128
    &&& !text::contains(name, "__"@)
    &&& forall|i: int| 0 <= i < name.len() ==> plain(#[trigger] name[i])
}

/// Whether a tool may have the name.
pub fn valid_tool_name(name: &str) -> (yes: bool)
    ensures
        yes == valid(name@),
{
    let x = chars_of(name);
    if x.len() == 0 || x.len() > 128 || text_contains(name, "__") {
        return false;
    }
    let mut i: usize = 0;
    while i < x.len()
        invariant
            i <= x@.len(),
            x@ == name@,
            forall|j: int| 0 <= j < i ==> plain(#[trigger] x@[j]),
        decreases x@.len() - i,
    {
        let c = x[i];
        let good = ('a' <= c && c <= 'z') || ('A' <= c && c <= 'Z') || ('0' <= c && c <= '9') || c
            == '_' || c == '-' || c == '.';
        if !good {
            assert(!plain(name@[i as int]));
            return false;
        }
        i = i + 1;
    }
    true
}

/// The pattern fits the name: they are the same, or the pattern ends in an asterisk
/// and the name begins with the rest of it.
pub open spec fn fits(pattern: Seq<char>, name: Seq<char>) -> bool {
    if pattern.len() > 0 && pattern.last() == '*' {
        text::starts_with(name, pattern.drop_last())
    } else {
        pattern == name
    }
}

/// Whether the pattern fits the name.
pub fn glob(pattern: &str, name: &str) -> (yes: bool)
    ensures
        yes == fits(pattern@, name@),
{
    let p = chars_of(pattern);
    if p.len() > 0 && p[p.len() - 1] == '*' {
        let head = text_slice(&p, 0, p.len() - 1);
        assert(head@ =~= pattern@.drop_last());
        text_starts(name, head.as_str())
    } else {
        same(pattern, name)
    }
}

/// Which tools of a server are exposed: those that `allow` names, where it names
/// any, but for those that `deny` names.
pub struct ToolFilter {
    pub allow: Vec<String>,
    pub deny: Vec<String>,
}

/// Some pattern fits the name.
pub open spec fn some_fits(patterns: Seq<Seq<char>>, name: Seq<char>) -> bool {
    exists|i: int| 0 <= i < patterns.len() && fits(#[trigger] patterns[i], name)
}

fn any_fits(patterns: &Vec<String>, name: &str) -> (yes: bool)
    ensures
        yes == some_fits(text::views(patterns@), name@),
{
    let mut i: usize = 0;
    while i < patterns.len()
        invariant
            i <= patterns@.len(),
            forall|j: int| 0 <= j < i ==> !fits(#[trigger] text::views(patterns@)[j], name@),
        decreases patterns@.len() - i,
    {
        assert(text::views(patterns@)[i as int] == patterns@[i as int]@);
        if glob(patterns[i].as_str(), name) {
            return true;
        }
        i = i + 1;
    }
    false
}

impl ToolFilter {
    /// The filter exposes the tool.
    pub open spec fn exposes(self, tool: Seq<char>) -> bool {
        &&& self.allow@.len() > 0 ==> some_fits(text::views(self.allow@), tool)
        &&& !some_fits(text::views(self.deny@), tool)
    }

    /// Whether the filter exposes the tool.
    pub fn admits(&self, tool: &str) -> (yes: bool)
        ensures
            yes == self.exposes(tool@),
    {
        if self.allow.len() > 0 && !any_fits(&self.allow, tool) {
            return false;
        }
        !any_fits(&self.deny, tool)
    }
}

impl Default for ToolFilter {
    fn default() -> (out: ToolFilter)
        ensures
            out.allow@.len() == 0,
            out.deny@.len() == 0,
    {
        ToolFilter { allow: Vec::new(), deny: Vec::new() }
    }
}

proof fn lemma_no_separator(a: Seq<char>, sep: Seq<char>, b: Seq<char>, j: int)
    requires
        sep == seq!['_', '_'],
        !text::contains(a, sep),
        a.last() != '_',
        0 <= j < a.len(),
    ensures
        !text::occurs(a + sep + b, sep, j),
{
    let s = a + sep + b;
    if text::occurs(s, sep, j) {
        let part = s.subrange(j, j + 2);
        assert(part[0] == '_' && part[1] == '_');
        assert(s[j] == '_' && s[j + 1] == '_');
        if j == a.len() - 1 {
            assert(a[j] == '_');
        } else {
            assert(a[j] == '_' && a[j + 1] == '_');
            assert(a.subrange(j, j + 2) =~= sep);
            assert(text::occurs(a, sep, j));
        }
    }
}

proof fn lemma_first_separator(a: Seq<char>, sep: Seq<char>, b: Seq<char>)
    requires
        sep == seq!['_', '_'],
        a.len() > 0,
        !text::contains(a, sep),
        a.last() != '_',
    ensures
        text::find(a + sep + b, sep) == Some(a.len() as int),
{
    let s = a + sep + b;
    let n = a.len() as int;
    assert(text::occurs(s, sep, n)) by {
        assert(s.subrange(n, n + 2) =~= sep);
    }
    text::lemma_find_from(s, sep, 0);
    match text::find(s, sep) {
        Some(at) => {
            if at < n {
                lemma_no_separator(a, sep, b, at);
            }
        },
        None => {},
    }
}

/// The name of a server's tool stands for that server and tool, where the server's
/// name holds no separator and does not end in half of one.
pub proof fn law_names_round_trip(server: Seq<char>, tool: Seq<char>)
    requires
        server.len() > 0,
        tool.len() > 0,
        !text::contains(server, "__"@),
        server.last() != '_',
    ensures
        parsed(qualified(server, tool)) == Some((server, tool)),
{
    let p = "mcp__"@;
    let sep = "__"@;
    assert(p.len() == 5) by {
        reveal_strlit("mcp__");
    }
    assert(sep == seq!['_', '_']) by {
        reveal_strlit("__");
        assert(sep =~= seq!['_', '_']);
    }
    let name = qualified(server, tool);
    assert(name =~= p + (server + sep + tool));
    assert(name.subrange(0, 5) =~= p);
    let rest = text::rest(name, 5);
    assert(rest =~= server + sep + tool);
    lemma_first_separator(server, sep, tool);
    let n = server.len() as int;
    assert(text::prefix(rest, n) =~= server);
    assert(text::rest(rest, n + 2) =~= tool);
}

/// A filter without patterns exposes every tool, and what it denies it never
/// exposes, allowed or not.
pub proof fn law_deny_wins(filter: ToolFilter, tool: Seq<char>)
    ensures
        filter.allow@.len() == 0 && filter.deny@.len() == 0 ==> filter.exposes(tool),
        some_fits(text::views(filter.deny@), tool) ==> !filter.exposes(tool),
{
}

} // verus!

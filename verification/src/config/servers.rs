//! Tool servers as the user configures them.

use vstd::prelude::*;
use vstd::string::*;
use crate::mcp::errors::Error;
use crate::mcp::launch::{ServerConfig, Transport};
use crate::mcp::names::ToolFilter;
use crate::mcp::policy;
use crate::mcp::policy::{id_from_url, is_url, validate_remote_url, RemoteAuth};
use crate::table::Table;
use crate::text;
use crate::text::{
    cat2, cat3, char_position_from, chars_of, copy_texts, join, same, text_contains, text_slice,
    text_starts,
};
use crate::urls;

verus! {

/// A tool server, without secrets: `${key}` in a variable stands for its key.
pub struct McpServer {
    /// A local server; then there is no address.
    pub command: Vec<String>,
    /// A remote server; then there is no command.
    pub url: String,
    /// What credentials a remote server takes: nothing, `bearer` or `oauth`.
    pub auth: String,
    pub env: Table<String>,
    /// `trusted` connects by itself; anything else takes an approval.
    pub trust: String,
    pub disabled: bool,
    pub allow_tools: Vec<String>,
    pub deny_tools: Vec<String>,
    pub network: Option<bool>,
    pub parallel_calls: bool,
}

/// The texts that a table holds under its keys.
pub open spec fn texts(t: Map<Seq<char>, String>) -> Map<Seq<char>, Seq<char>> {
    t.map_values(|s: String| s@)
}

impl McpServer {
    /// The address, or the command line.
    pub fn target(&self) -> (out: String)
        ensures
            out@ == (if self.url@.len() == 0 {
                text::joined(text::views(self.command@), " "@)
            } else {
                self.url@
            }),
    {
        if chars_of(self.url.as_str()).len() == 0 {
            join(&self.command, " ")
        } else {
            self.url.clone()
        }
    }
}

pub struct ParsedMcpAdd {
    pub id: String,
    pub server: McpServer,
    pub key: Option<String>,
}

/// What the words of a command say so far.
pub struct AddState {
    pub id: Option<String>,
    pub trust: String,
    pub key: Option<String>,
    pub url: String,
    pub auth: String,
    pub env: Table<String>,
    pub allow_tools: Vec<String>,
    pub deny_tools: Vec<String>,
    pub network: Option<bool>,
    pub parallel_calls: bool,
    pub command: Vec<String>,
}

/// What an [`AddState`] holds.
#[verifier::ext_equal]
pub ghost struct AddView {
    pub id: Option<Seq<char>>,
    pub trust: Seq<char>,
    pub key: Option<Seq<char>>,
    pub url: Seq<char>,
    pub auth: Seq<char>,
    pub env: Map<Seq<char>, Seq<char>>,
    pub allow_tools: Seq<Seq<char>>,
    pub deny_tools: Seq<Seq<char>>,
    pub network: Option<bool>,
    pub parallel_calls: bool,
    pub command: Seq<Seq<char>>,
}

impl View for AddState {
    type V = AddView;

    open spec fn view(&self) -> AddView {
        AddView {
            id: text::view_of(self.id),
            trust: self.trust@,
            key: text::view_of(self.key),
            url: self.url@,
            auth: self.auth@,
            env: texts(self.env@),
            allow_tools: text::views(self.allow_tools@),
            deny_tools: text::views(self.deny_tools@),
            network: self.network,
            parallel_calls: self.parallel_calls,
            command: text::views(self.command@),
        }
    }
}

/// Before the first word.
pub open spec fn nothing_yet() -> AddView {
    AddView {
        id: None,
        trust: "workspace"@,
        key: None,
        url: seq![],
        auth: seq![],
        env: Map::empty(),
        allow_tools: seq![],
        deny_tools: seq![],
        network: None,
        parallel_calls: false,
        command: seq![],
    }
}

/// An option, and the value joined to it by an equals sign. A word that is no option is
/// taken whole.
pub open spec fn option_of(word: Seq<char>) -> (Seq<char>, Option<Seq<char>>) {
    match text::find_char(word, '=') {
        Some(i) => if text::starts_with(word.take(i), "--"@) {
            (word.take(i), Some(word.skip(i + 1)))
        } else {
            (word, None)
        },
        None => (word, None),
    }
}

/// The option takes a value.
pub open spec fn takes_value(flag: Seq<char>) -> bool {
    ||| flag == "--key"@
    ||| flag == "--url"@
    ||| flag == "--bearer"@
    ||| flag == "--trust"@
    ||| flag == "--env"@
    ||| flag == "--allow-tool"@
    ||| flag == "--deny-tool"@
}

/// The option stands alone.
pub open spec fn stands_alone(flag: Seq<char>) -> bool {
    flag == "--oauth"@ || flag == "--no-network"@ || flag == "--parallel"@
}

/// The value of an option at `i`, and the last word it took: joined to the option, or the
/// next word, which is no option.
pub open spec fn value_of(args: Seq<Seq<char>>, i: int, flag: Seq<char>, joined: Option<Seq<char>>) -> Result<
    (Seq<char>, int),
    Seq<char>,
> {
    let v = match joined {
        Some(v) => Some((v, i)),
        None => if i + 1 < args.len() && !text::starts_with(args[i + 1], "--"@) {
            Some((args[i + 1], i + 1))
        } else {
            None
        },
    };
    match v {
        None => Err(flag + " needs a value"@),
        Some((s, at)) => if s.len() == 0 {
            Err(flag + " needs a non-empty value"@)
        } else {
            Ok((s, at))
        },
    }
}

/// A variable from `NAME=VALUE`.
pub open spec fn variable_in(pair: Seq<char>) -> Option<(Seq<char>, Seq<char>)> {
    match text::find_char(pair, '=') {
        Some(i) => if i > 0 {
            Some((pair.take(i), pair.skip(i + 1)))
        } else {
            None
        },
        None => None,
    }
}

/// What an option with a value says.
pub open spec fn with_value(st: AddView, flag: Seq<char>, v: Seq<char>) -> Result<AddView, Seq<char>> {
    if flag == "--key"@ {
        Ok(AddView { key: Some(v), ..st })
    } else if flag == "--url"@ {
        Ok(AddView { url: v, ..st })
    } else if flag == "--bearer"@ {
        Ok(AddView { auth: "bearer"@, key: Some(v), ..st })
    } else if flag == "--trust"@ {
        Ok(AddView { trust: v, ..st })
    } else if flag == "--env"@ {
        match variable_in(v) {
            Some((name, value)) => Ok(AddView { env: st.env.insert(name, value), ..st }),
            None => Err("--env needs NAME=VALUE"@),
        }
    } else if flag == "--allow-tool"@ {
        Ok(AddView { allow_tools: st.allow_tools.push(v), ..st })
    } else {
        Ok(AddView { deny_tools: st.deny_tools.push(v), ..st })
    }
}

/// What an option without a value says.
pub open spec fn switched(st: AddView, flag: Seq<char>) -> AddView {
    if flag == "--oauth"@ {
        AddView { auth: "oauth"@, ..st }
    } else if flag == "--no-network"@ {
        AddView { network: Some(false), ..st }
    } else {
        AddView { parallel_calls: true, ..st }
    }
}

/// What a word that is no option says: an address, else the id, else the command.
pub open spec fn with_word(st: AddView, word: Seq<char>) -> AddView {
    if text::starts_with(word, "https://"@) || text::starts_with(word, "http://"@) {
        AddView { url: word, ..st }
    } else if st.id is None {
        AddView { id: Some(word), ..st }
    } else {
        AddView { command: st.command.push(word), ..st }
    }
}

/// What the words say, from the `i`-th on. Behind a double dash everything is the
/// command.
pub open spec fn scanned(args: Seq<Seq<char>>, i: int, st: AddView) -> Result<AddView, Seq<char>>
    decreases args.len() - i,
{
    if i < 0 || i >= args.len() {
        Ok(st)
    } else {
        let word = args[i];
        let (flag, joined) = option_of(word);
        if word == "--"@ {
            Ok(AddView { command: st.command + args.skip(i + 1), ..st })
        } else if takes_value(flag) {
            match value_of(args, i, flag, joined) {
                Ok((v, at)) => match with_value(st, flag, v) {
                    Ok(next) => if at == i {
                        scanned(args, i + 1, next)
                    } else {
                        scanned(args, i + 2, next)
                    },
                    Err(e) => Err(e),
                },
                Err(e) => Err(e),
            }
        } else if stands_alone(flag) {
            if joined is Some {
                Err(flag + " does not take a value"@)
            } else {
                scanned(args, i + 1, switched(st, flag))
            }
        } else if text::starts_with(flag, "--"@) {
            Err(
                "unknown MCP option '"@ + flag
                    + "' (put server arguments after --)"@,
            )
        } else {
            scanned(args, i + 1, with_word(st, word))
        }
    }
}

/// Some word of a command stands for the key.
pub open spec fn key_in_command(command: Seq<Seq<char>>) -> bool {
    exists|i: int| 0 <= i < command.len() && text::contains(#[trigger] command[i], "${key}"@)
}

/// The id of the server: the one given, else one taken from the address.
pub open spec fn chosen_id(st: AddView, url_id: Option<Seq<char>>) -> Option<Seq<char>> {
    match st.id {
        Some(id) => Some(id),
        None => url_id,
    }
}

/// What is wrong with the whole. `url_fault` says why the address must not be used.
pub open spec fn add_fault(
    st: AddView,
    url_id: Option<Seq<char>>,
    url_fault: Option<Seq<char>>,
) -> Option<Seq<char>> {
    match chosen_id(st, url_id) {
        None => Some("MCP server needs an id or URL"@),
        Some(id) => if (st.url.len() == 0) == (st.command.len() == 0) {
            Some(
                "server '"@ + id
                    + "' needs exactly one of --url <https://…> or -- <command>"@,
            )
        } else if st.url.len() > 0 && url_fault is Some {
            Some("invalid MCP server URL: "@ + url_fault->0)
        } else if key_in_command(st.command) {
            Some(
                "server '"@ + id
                    + "' puts `${key}` in argv; use --env NAME=${key} instead"@,
            )
        } else {
            None
        },
    }
}

/// The server holds what the words said.
pub open spec fn made_of(out: ParsedMcpAdd, st: AddView, id: Seq<char>) -> bool {
    &&& out.id@ == id
    &&& text::view_of(out.key) == st.key
    &&& text::views(out.server.command@) == st.command
    &&& out.server.url@ == st.url
    &&& out.server.auth@ == st.auth
    &&& texts(out.server.env@) == st.env
    &&& out.server.env.wf()
    &&& out.server.trust@ == st.trust
    &&& !out.server.disabled
    &&& text::views(out.server.allow_tools@) == st.allow_tools
    &&& text::views(out.server.deny_tools@) == st.deny_tools
    &&& out.server.network == st.network
    &&& out.server.parallel_calls == st.parallel_calls
}

fn is_value_flag(flag: &str) -> (yes: bool)
    ensures
        yes == takes_value(flag@),
{
    same(flag, "--key") || same(flag, "--url") || same(flag, "--bearer") || same(flag, "--trust")
        || same(flag, "--env") || same(flag, "--allow-tool") || same(flag, "--deny-tool")
}

fn is_switch(flag: &str) -> (yes: bool)
    ensures
        yes == stands_alone(flag@),
{
    same(flag, "--oauth") || same(flag, "--no-network") || same(flag, "--parallel")
}

fn split_option(word: &str) -> (out: (String, Option<String>))
    ensures
        option_of(word@) == (out.0@, text::view_of(out.1)),
{
    let x = chars_of(word);
    let n: usize = x.len();
    match char_position_from(&x, '=', 0) {
        Some(i) => {
            let head = text_slice(&x, 0, i);
            assert(head@ =~= word@.take(i as int));
            if text_starts(head.as_str(), "--") {
                let tail = text_slice(&x, i + 1, n);
                assert(tail@ =~= word@.skip(i + 1));
                return (head, Some(tail));
            }
            (word.to_owned(), None)
        },
        None => (word.to_owned(), None),
    }
}

fn split_variable(pair: &str) -> (out: Option<(String, String)>)
    ensures
        match out {
            Some(p) => variable_in(pair@) == Some((p.0@, p.1@)),
            None => variable_in(pair@) is None,
        },
{
    let x = chars_of(pair);
    let n: usize = x.len();
    match char_position_from(&x, '=', 0) {
        Some(i) => {
            if i > 0 {
                let name = text_slice(&x, 0, i);
                let value = text_slice(&x, i + 1, n);
                assert(name@ =~= pair@.take(i as int));
                assert(value@ =~= pair@.skip(i + 1));
                Some((name, value))
            } else {
                None
            }
        },
        None => None,
    }
}

fn take_value(args: &Vec<String>, i: usize, flag: &str, joined: Option<String>) -> (out: Result<
    (String, usize),
    String,
>)
    requires
        i < args@.len(),
    ensures
        match out {
            Ok((v, at)) => value_of(text::views(args@), i as int, flag@, text::view_of(joined)) == Ok::<
                (Seq<char>, int),
                Seq<char>,
            >((v@, at as int)) && (at == i || at == i + 1) && at < args@.len(),
            Err(e) => value_of(text::views(args@), i as int, flag@, text::view_of(joined)) == Err::<
                (Seq<char>, int),
                Seq<char>,
            >(e@),
        },
{
    let n: usize = args.len();
    let (v, at) = match joined {
        Some(v) => (v, i),
        None => {
            if i + 1 < n && !text_starts(args[i + 1].as_str(), "--") {
                assert(text::views(args@)[i + 1] == args@[i + 1]@);
                (args[i + 1].clone(), i + 1)
            } else {
                return Err(cat2(flag, " needs a value"));
            }
        },
    };
    if chars_of(v.as_str()).len() == 0 {
        return Err(cat2(flag, " needs a non-empty value"));
    }
    Ok((v, at))
}

fn push_word(v: &mut Vec<String>, word: String)
    ensures
        text::views(final(v)@) == text::views(old(v)@).push(word@),
{
    let ghost was = text::views(v@);
    let ghost w = word@;
    v.push(word);
    assert(text::views(v@) =~= was.push(w));
}

fn apply_value(st: &mut AddState, flag: &str, v: String) -> (out: Result<(), String>)
    requires
        old(st).env.wf(),
        takes_value(flag@),
    ensures
        final(st).env.wf(),
        match out {
            Ok(_) => with_value(old(st)@, flag@, v@) == Ok::<AddView, Seq<char>>(final(st)@),
            Err(e) => with_value(old(st)@, flag@, v@) == Err::<AddView, Seq<char>>(e@),
        },
{
    proof {
        reveal_strlit("--key");
        reveal_strlit("--url");
        reveal_strlit("--bearer");
        reveal_strlit("--trust");
        reveal_strlit("--env");
        reveal_strlit("--allow-tool");
        reveal_strlit("--deny-tool");
        assert("--key"@[2] == 'k' && "--url"@[2] == 'u' && "--bearer"@[2] == 'b' && "--trust"@[2]
            == 't' && "--env"@[2] == 'e' && "--allow-tool"@[2] == 'a' && "--deny-tool"@[2] == 'd');
    }
    let ghost start = st@;
    let ghost vv = v@;
    if same(flag, "--key") {
        st.key = Some(v);
        assert(st@ =~= AddView { key: Some(vv), ..start });
    } else if same(flag, "--url") {
        st.url = v;
        assert(st@ =~= AddView { url: vv, ..start });
    } else if same(flag, "--bearer") {
        st.auth = "bearer".to_owned();
        st.key = Some(v);
        assert(st@ =~= AddView { auth: "bearer"@, key: Some(vv), ..start });
    } else if same(flag, "--trust") {
        st.trust = v;
        assert(st@ =~= AddView { trust: vv, ..start });
    } else if same(flag, "--env") {
        match split_variable(v.as_str()) {
            Some((name, value)) => {
                let ghost nv = name@;
                let ghost xv = value@;
                let ghost before = st.env@;
                st.env.insert(name, value);
                assert(texts(st.env@) =~= texts(before).insert(nv, xv));
                assert(st@ =~= AddView { env: start.env.insert(nv, xv), ..start });
            },
            None => {
                return Err("--env needs NAME=VALUE".to_owned());
            },
        }
    } else if same(flag, "--allow-tool") {
        push_word(&mut st.allow_tools, v);
        assert(st@ =~= AddView { allow_tools: start.allow_tools.push(vv), ..start });
    } else {
        push_word(&mut st.deny_tools, v);
        assert(st@ =~= AddView { deny_tools: start.deny_tools.push(vv), ..start });
    }
    Ok(())
}

fn apply_switch(st: &mut AddState, flag: &str)
    requires
        old(st).env.wf(),
        stands_alone(flag@),
    ensures
        final(st).env.wf(),
        final(st)@ == switched(old(st)@, flag@),
{
    let ghost start = st@;
    if same(flag, "--oauth") {
        st.auth = "oauth".to_owned();
        assert(st@ =~= AddView { auth: "oauth"@, ..start });
    } else if same(flag, "--no-network") {
        st.network = Some(false);
        assert(st@ =~= AddView { network: Some(false), ..start });
    } else {
        st.parallel_calls = true;
        assert(st@ =~= AddView { parallel_calls: true, ..start });
    }
}

fn apply_word(st: &mut AddState, word: &String)
    requires
        old(st).env.wf(),
    ensures
        final(st).env.wf(),
        final(st)@ == with_word(old(st)@, word@),
{
    let ghost start = st@;
    if is_url(word.as_str()) {
        st.url = word.clone();
        assert(st@ =~= AddView { url: word@, ..start });
    } else if st.id.is_none() {
        st.id = Some(word.clone());
        assert(st@ =~= AddView { id: Some(word@), ..start });
    } else {
        push_word(&mut st.command, word.clone());
        assert(st@ =~= AddView { command: start.command.push(word@), ..start });
    }
}

/// What the words of a command say, before the whole is looked at.
pub fn scan_mcp_add_args(args: &Vec<String>) -> (out: Result<AddState, String>)
    ensures
        match out {
            Ok(st) => scanned(text::views(args@), 0, nothing_yet()) == Ok::<AddView, Seq<char>>(st@)
                && st.env.wf(),
            Err(e) => scanned(text::views(args@), 0, nothing_yet()) == Err::<AddView, Seq<char>>(
                e@,
            ),
        },
{
    let ghost all = text::views(args@);
    let ghost goal = scanned(all, 0, nothing_yet());
    let mut st = AddState {
        id: None,
        trust: "workspace".to_owned(),
        key: None,
        url: String::new(),
        auth: String::new(),
        env: Table::new(),
        allow_tools: Vec::new(),
        deny_tools: Vec::new(),
        network: None,
        parallel_calls: false,
        command: Vec::new(),
    };
    assert(texts(st.env@) =~= Map::empty());
    assert(st@ =~= nothing_yet());
    let n: usize = args.len();
    let mut i: usize = 0;
    while i < n
        invariant
            i <= n,
            n == args@.len(),
            all == text::views(args@),
            st.env.wf(),
            goal == scanned(all, 0, nothing_yet()),
            goal == scanned(all, i as int, st@),
        decreases n - i,
    {
        let word = &args[i];
        assert(all[i as int] == word@);
        if same(word.as_str(), "--") {
            let ghost start = st@;
            let mut j: usize = i + 1;
            assert(start.command + all.subrange(i + 1, j as int) =~= start.command);
            while j < n
                invariant
                    i < j <= n,
                    n == args@.len(),
                    all == text::views(args@),
                    st.env.wf(),
                    st@ == (AddView {
                        command: start.command + all.subrange(i + 1, j as int),
                        ..start
                    }),
                decreases n - j,
            {
                push_word(&mut st.command, args[j].clone());
                j = j + 1;
                assert(st@ =~= (AddView {
                    command: start.command + all.subrange(i + 1, j as int),
                    ..start
                }));
            }
            assert(all.subrange(i + 1, j as int) =~= all.skip(i + 1));
            return Ok(st);
        }
        let (flag, joined) = split_option(word.as_str());
        let f = flag.as_str();
        if is_value_flag(f) {
            match take_value(args, i, f, joined) {
                Ok((v, at)) => {
                    match apply_value(&mut st, f, v) {
                        Ok(_) => {},
                        Err(e) => {
                            return Err(e);
                        },
                    }
                    i = at + 1;
                },
                Err(e) => {
                    return Err(e);
                },
            }
        } else if is_switch(f) {
            if joined.is_some() {
                return Err(cat2(f, " does not take a value"));
            }
            apply_switch(&mut st, f);
            i = i + 1;
        } else if text_starts(f, "--") {
            return Err(
                cat3("unknown MCP option '", f, "' (put server arguments after --)"),
            );
        } else {
            apply_word(&mut st, word);
            i = i + 1;
        }
    }
    Ok(st)
}

fn names_key(command: &Vec<String>) -> (yes: bool)
    ensures
        yes == key_in_command(text::views(command@)),
{
    let mut i: usize = 0;
    while i < command.len()
        invariant
            i <= command@.len(),
            forall|j: int|
                0 <= j < i ==> !text::contains(
                    #[trigger] text::views(command@)[j],
                    "${key}"@,
                ),
        decreases command@.len() - i,
    {
        assert(text::views(command@)[i as int] == command@[i as int]@);
        if text_contains(command[i].as_str(), "${key}") {
            return true;
        }
        i = i + 1;
    }
    false
}

/// The server that the words describe, given what its address says of its name and why
/// the address must not be used.
pub fn finish_mcp_add(st: AddState, url_id: Option<String>, url_fault: Option<String>) -> (out:
    Result<ParsedMcpAdd, String>)
    requires
        st.env.wf(),
    ensures
        match out {
            Ok(p) => {
                &&& add_fault(st@, text::view_of(url_id), text::view_of(url_fault)) is None
                &&& made_of(p, st@, chosen_id(st@, text::view_of(url_id))->0)
            },
            Err(e) => add_fault(st@, text::view_of(url_id), text::view_of(url_fault)) == Some(e@),
        },
{
    let id = match &st.id {
        Some(id) => id.clone(),
        None => match url_id {
            Some(id) => id,
            None => {
                return Err("MCP server needs an id or URL".to_owned());
            },
        },
    };
    assert(text::views(st.command@).len() == st.command@.len());
    let no_url = chars_of(st.url.as_str()).len() == 0;
    if no_url == (st.command.len() == 0) {
        return Err(
            cat3(
                "server '",
                id.as_str(),
                "' needs exactly one of --url <https://…> or -- <command>",
            ),
        );
    }
    if !no_url {
        match url_fault {
            Some(f) => {
                return Err(cat2("invalid MCP server URL: ", f.as_str()));
            },
            None => {},
        }
    }
    if names_key(&st.command) {
        return Err(
            cat3(
                "server '",
                id.as_str(),
                "' puts `${key}` in argv; use --env NAME=${key} instead",
            ),
        );
    }
    Ok(
        ParsedMcpAdd {
            id,
            server: McpServer {
                command: st.command,
                url: st.url,
                auth: st.auth,
                env: st.env,
                trust: st.trust,
                disabled: false,
                allow_tools: st.allow_tools,
                deny_tools: st.deny_tools,
                network: st.network,
                parallel_calls: st.parallel_calls,
            },
            key: st.key,
        },
    )
}

/// What an address says of the name of its server.
pub open spec fn id_in(url: Seq<char>) -> Option<Seq<char>> {
    match urls::url_host(url) {
        Some(h) => policy::host_id(h),
        None => None,
    }
}

/// The server that the words of a command describe.
pub fn parse_mcp_add_args(args: &Vec<String>) -> (out: Result<ParsedMcpAdd, String>)
    ensures
        match scanned(text::views(args@), 0, nothing_yet()) {
            Err(m) => out matches Err(e) && e@ == m,
            Ok(st) => match add_fault(st, id_in(st.url), policy::refusal(st.url)) {
                Some(m) => out matches Err(e) && e@ == m,
                None => out matches Ok(p) && made_of(p, st, chosen_id(st, id_in(st.url))->0),
            },
        },
{
    let st = match scan_mcp_add_args(args) {
        Ok(st) => st,
        Err(e) => {
            return Err(e);
        },
    };
    let url_id = id_from_url(st.url.as_str());
    let url_fault = match validate_remote_url(st.url.as_str()) {
        Ok(_) => None,
        Err(e) => match e {
            Error::BadUrl(m) => Some(m),
            _ => None,
        },
    };
    finish_mcp_add(st, url_id, url_fault)
}

/// A server that is taken has an address or a command, never both, and its key never
/// shows on its command line.
pub proof fn law_added_servers_are_sound(
    st: AddView,
    url_id: Option<Seq<char>>,
    url_fault: Option<Seq<char>>,
)
    requires
        add_fault(st, url_id, url_fault) is None,
    ensures
        (st.url.len() == 0) != (st.command.len() == 0),
        !key_in_command(st.command),
        st.url.len() > 0 ==> url_fault is None,
        chosen_id(st, url_id) is Some,
{
}

/// The credentials of a remote server, by their name in the configuration.
pub open spec fn auth_named(auth: Seq<char>, key: Option<Seq<char>>, out: RemoteAuth) -> bool {
    if auth == "oauth"@ {
        out is OAuth
    } else if auth == "bearer"@ {
        out matches RemoteAuth::Bearer(t) && t@ == match key {
            Some(k) => k,
            None => seq![],
        }
    } else if auth == "none"@ {
        out is Anonymous
    } else {
        out is Auto
    }
}

fn named_auth(auth: &str, key: &Option<String>) -> (out: RemoteAuth)
    ensures
        auth_named(auth@, text::view_of(*key), out),
{
    proof {
        reveal_strlit("oauth");
        reveal_strlit("bearer");
        reveal_strlit("none");
        assert("oauth"@.len() == 5 && "bearer"@.len() == 6 && "none"@.len() == 4);
    }
    if same(auth, "oauth") {
        RemoteAuth::OAuth
    } else if same(auth, "bearer") {
        match key {
            Some(k) => RemoteAuth::Bearer(k.clone()),
            None => {
                let nothing = String::new();
                assert(nothing@ =~= seq![]);
                RemoteAuth::Bearer(nothing)
            },
        }
    } else if same(auth, "none") {
        RemoteAuth::Anonymous
    } else {
        RemoteAuth::Auto
    }
}

/// The variables of a server, in the order of their names.
pub open spec fn listed(v: Seq<(String, String)>) -> Seq<(Seq<char>, Seq<char>)> {
    v.map_values(|p: (String, String)| (p.0@, p.1@))
}

/// The server as it is run. `key` is the one stored for it; it stays out of the command
/// and of the variables until the server is started.
pub fn resolve_mcp_server(id: &str, server: &McpServer, key: Option<String>) -> (out: ServerConfig)
    ensures
        out.id@ == id@,
        match out.transport {
            Transport::Stdio { command, env } => {
                &&& server.url@.len() == 0
                &&& text::views(command@) == text::views(server.command@)
                &&& listed(env@) == listed(server.env.rows@)
            },
            Transport::Remote { url, auth } => {
                &&& server.url@.len() > 0
                &&& url@ == server.url@
                &&& auth_named(server.auth@, text::view_of(key), auth)
            },
        },
        out.requires_approval == (server.trust@ != "trusted"@),
        out.disabled == server.disabled,
        out.allow_network == server.network,
        text::views(out.tools.allow@) == text::views(server.allow_tools@),
        text::views(out.tools.deny@) == text::views(server.deny_tools@),
        out.parallel_calls == server.parallel_calls,
        text::view_of(out.secret) == text::view_of(key),
{
    let transport = if chars_of(server.url.as_str()).len() == 0 {
        let mut env: Vec<(String, String)> = Vec::new();
        let mut i: usize = 0;
        while i < server.env.rows.len()
            invariant
                i <= server.env.rows@.len(),
                env@.len() == i,
                forall|j: int|
                    0 <= j < i ==> (#[trigger] env@[j]).0@ == server.env.rows@[j].0@ && env@[j].1@
                        == server.env.rows@[j].1@,
            decreases server.env.rows@.len() - i,
        {
            env.push((server.env.rows[i].0.clone(), server.env.rows[i].1.clone()));
            i = i + 1;
        }
        assert(listed(env@) =~= listed(server.env.rows@));
        Transport::Stdio { command: copy_texts(&server.command), env }
    } else {
        Transport::Remote {
            url: server.url.clone(),
            auth: named_auth(server.auth.as_str(), &key),
        }
    };
    ServerConfig {
        id: id.to_owned(),
        transport,
        requires_approval: !same(server.trust.as_str(), "trusted"),
        disabled: server.disabled,
        allow_network: server.network,
        tools: ToolFilter {
            allow: copy_texts(&server.allow_tools),
            deny: copy_texts(&server.deny_tools),
        },
        parallel_calls: server.parallel_calls,
        secret: key,
    }
}

} // verus!

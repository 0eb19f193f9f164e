//! How servers are configured, and how a local one is run.

use vstd::prelude::*;
use vstd::string::*;
use crate::lsp::environment;
use crate::lsp::environment::{choose_variables, value_of};
use crate::mcp::errors::Error;
use crate::mcp::names::ToolFilter;
use crate::mcp::policy::RemoteAuth;
use crate::paths;
use crate::paths::join_path;
use crate::text;
use crate::text::{cat3, copy_texts, join, replace_all, same, texts};

verus! {

/// How a server is reached.
pub enum Transport {
    /// As a child process, with these variables besides those that it always sees.
    Stdio { command: Vec<String>, env: Vec<(String, String)> },
    /// Over the network.
    Remote { url: String, auth: RemoteAuth },
}

impl Default for Transport {
    fn default() -> (out: Transport)
        ensures
            out matches Transport::Stdio { command, env } && command@.len() == 0 && env@.len() == 0,
    {
        Transport::Stdio { command: Vec::new(), env: Vec::new() }
    }
}

impl Transport {
    /// The command line, or the address.
    pub fn target(&self) -> (out: String)
        ensures
            out@ == match *self {
                Transport::Stdio { command, .. } => text::joined(text::views(command@), " "@),
                Transport::Remote { url, .. } => url@,
            },
    {
        match self {
            Transport::Stdio { command, .. } => join(command, " "),
            Transport::Remote { url, .. } => url.clone(),
        }
    }

    pub fn label(&self) -> (out: &'static str)
        ensures
            out@ == match *self {
                Transport::Stdio { .. } => "stdio"@,
                Transport::Remote { .. } => "http"@,
            },
    {
        match self {
            Transport::Stdio { .. } => "stdio",
            Transport::Remote { .. } => "http",
        }
    }
}

pub struct ServerConfig {
    pub id: String,
    pub transport: Transport,
    pub requires_approval: bool,
    /// Configured, but not to be connected.
    pub disabled: bool,
    /// Whether it may use the network; none leaves it to the host.
    pub allow_network: Option<bool>,
    pub tools: ToolFilter,
    /// Whether it takes calls at the same time.
    pub parallel_calls: bool,
    /// What `${key}` stands for in its variables.
    pub secret: Option<String>,
}

impl Default for ServerConfig {
    fn default() -> (out: ServerConfig)
        ensures
            out.id@ == Seq::<char>::empty(),
            out.transport matches Transport::Stdio { command, env } && command@.len() == 0
                && env@.len() == 0,
            !out.requires_approval,
            !out.disabled,
            out.allow_network is None,
            out.tools.allow@.len() == 0 && out.tools.deny@.len() == 0,
            !out.parallel_calls,
            out.secret is None,
    {
        ServerConfig {
            id: String::new(),
            transport: Transport::default(),
            requires_approval: false,
            disabled: false,
            allow_network: None,
            tools: ToolFilter::default(),
            parallel_calls: false,
            secret: None,
        }
    }
}

/// The settings of the manager of tool servers. Times are in milliseconds.
pub struct Config {
    pub enabled: bool,
    pub servers: Vec<ServerConfig>,
    pub startup_timeout: u64,
    pub request_timeout: u64,
    pub max_text_chars: usize,
    pub allow_network: bool,
    pub health_interval: u64,
    /// Failed attempts in a row after which a server is parked.
    pub max_reconnects: u32,
    /// How long a parked server rests before it is tried again.
    pub park_probe: u64,
    pub auth_timeout: u64,
}

impl Default for Config {
    fn default() -> (out: Config)
        ensures
            !out.enabled,
            out.servers@.len() == 0,
            out.startup_timeout == 10_000,
            out.request_timeout == 60_000,
            out.max_text_chars == 16_000,
            out.allow_network,
            out.health_interval == 5_000,
            out.max_reconnects == 5,
            out.park_probe == 300_000,
            out.auth_timeout == 300_000,
    {
        Config {
            enabled: false,
            servers: Vec::new(),
            startup_timeout: 10_000,
            request_timeout: 60_000,
            max_text_chars: 16_000,
            allow_network: true,
            health_interval: 5_000,
            max_reconnects: 5,
            park_probe: 300_000,
            auth_timeout: 300_000,
        }
    }
}

/// The one directory that servers may write to besides the workspace: `mcp-cache` in
/// the program's own directory.
pub open spec fn cache_dir(vars: Seq<(Seq<char>, Seq<char>)>) -> Option<Seq<char>> {
    match environment::variable(vars, "MEDHA_HOME"@, 0) {
        Some(base) => Some(paths::joined_path(base, "mcp-cache"@)),
        None => match environment::variable(vars, "HOME"@, 0) {
            Some(home) => Some(
                paths::joined_path(paths::joined_path(home, ".medha"@), "mcp-cache"@),
            ),
            None => None,
        },
    }
}

/// The one directory that servers may write to besides the workspace.
pub fn mcp_cache_dir(vars: &Vec<(String, String)>) -> (out: Option<String>)
    ensures
        match out {
            Some(d) => cache_dir(environment::variables(vars@)) == Some(d@),
            None => cache_dir(environment::variables(vars@)) is None,
        },
{
    match value_of(vars, "MEDHA_HOME") {
        Some(base) => Some(join_path(base.as_str(), "mcp-cache")),
        None => match value_of(vars, "HOME") {
            Some(home) => Some(
                join_path(join_path(home.as_str(), ".medha").as_str(), "mcp-cache"),
            ),
            None => None,
        },
    }
}

/// The names of the variables that a server sees.
pub open spec fn allowed() -> Seq<Seq<char>> {
    seq![
        "PATH"@,
        "HOME"@,
        "USER"@,
        "LOGNAME"@,
        "TMPDIR"@,
        "TMP"@,
        "TEMP"@,
        "LANG"@,
        "LC_ALL"@,
        "XDG_CONFIG_HOME"@,
        "XDG_CACHE_HOME"@,
        "SystemRoot"@,
        "PATHEXT"@,
    ]
}

/// What a server sees of the environment: what finding tools takes, and nothing that
/// could carry a secret.
pub fn sanitized_environment(vars: &Vec<(String, String)>) -> (out: Vec<(String, String)>)
    ensures
        environment::variables(out@) == environment::chosen(
            allowed(),
            environment::variables(vars@),
        ),
{
    let names: &[&str] = &[
        "PATH",
        "HOME",
        "USER",
        "LOGNAME",
        "TMPDIR",
        "TMP",
        "TEMP",
        "LANG",
        "LC_ALL",
        "XDG_CONFIG_HOME",
        "XDG_CACHE_HOME",
        "SystemRoot",
        "PATHEXT",
    ];
    let list = texts(names);
    assert(text::views(list@) =~= allowed());
    choose_variables(&list, vars)
}

/// A variable that says where package managers keep their files.
pub open spec fn is_cache_variable(name: Seq<char>) -> bool {
    name == "XDG_CACHE_HOME"@ || name == "XDG_DATA_HOME"@ || name == "UV_CACHE_DIR"@ || name
        == "npm_config_cache"@
}

/// Accepts the other variables.
pub open spec fn not_cache() -> spec_fn((Seq<char>, Seq<char>)) -> bool {
    |p: (Seq<char>, Seq<char>)| !is_cache_variable(p.0)
}

/// The variables that keep package managers within a directory.
pub open spec fn cache_variables(dir: Seq<char>) -> Seq<(Seq<char>, Seq<char>)> {
    seq![
        ("XDG_CACHE_HOME"@, paths::joined_path(dir, "cache"@)),
        ("XDG_DATA_HOME"@, paths::joined_path(dir, "data"@)),
        ("UV_CACHE_DIR"@, paths::joined_path(dir, "cache/uv"@)),
        ("npm_config_cache"@, paths::joined_path(dir, "npm"@)),
    ]
}

/// The whole environment of a server: what it always sees, with package managers kept
/// within the one directory, and then its own variables.
pub open spec fn server_environment(
    vars: Seq<(Seq<char>, Seq<char>)>,
    own: Seq<(Seq<char>, Seq<char>)>,
) -> Seq<(Seq<char>, Seq<char>)> {
    let base = environment::chosen(allowed(), vars);
    match cache_dir(vars) {
        Some(dir) => base.filter(not_cache()) + cache_variables(dir) + own,
        None => base + own,
    }
}

fn without_cache(vars: &Vec<(String, String)>) -> (out: Vec<(String, String)>)
    ensures
        environment::variables(out@) == environment::variables(vars@).filter(not_cache()),
{
    let ghost all = environment::variables(vars@);
    let mut out: Vec<(String, String)> = Vec::new();
    let mut i: usize = 0;
    proof {
        reveal(Seq::filter);
        assert(environment::variables(out@) =~= all.take(0).filter(not_cache()));
    }
    while i < vars.len()
        invariant
            i <= vars@.len(),
            all == environment::variables(vars@),
            environment::variables(out@) == all.take(i as int).filter(not_cache()),
        decreases vars@.len() - i,
    {
        let ghost was = out@;
        proof {
            reveal(Seq::filter);
            assert(all.take(i + 1).drop_last() =~= all.take(i as int));
        }
        let name = vars[i].0.as_str();
        if !(same(name, "XDG_CACHE_HOME") || same(name, "XDG_DATA_HOME") || same(
            name,
            "UV_CACHE_DIR",
        ) || same(name, "npm_config_cache")) {
            out.push((vars[i].0.clone(), vars[i].1.clone()));
            assert(environment::variables(out@) =~= environment::variables(was).push(
                all[i as int],
            ));
        }
        i = i + 1;
    }
    assert(all.take(i as int) =~= all);
    out
}

fn push_variable(v: &mut Vec<(String, String)>, name: &str, value: String)
    ensures
        environment::variables(final(v)@) == environment::variables(old(v)@).push((name@, value@)),
{
    let ghost was = environment::variables(v@);
    let ghost vv = value@;
    v.push((name.to_owned(), value));
    assert(environment::variables(v@) =~= was.push((name@, vv)));
}

/// The whole environment of a server.
pub fn build_environment(vars: &Vec<(String, String)>, own: &Vec<(String, String)>) -> (out: Vec<
    (String, String),
>)
    ensures
        environment::variables(out@) == server_environment(
            environment::variables(vars@),
            environment::variables(own@),
        ),
{
    let base = sanitized_environment(vars);
    let mut out = match mcp_cache_dir(vars) {
        Some(dir) => {
            let mut v = without_cache(&base);
            let ghost kept = environment::variables(v@);
            push_variable(&mut v, "XDG_CACHE_HOME", join_path(dir.as_str(), "cache"));
            push_variable(&mut v, "XDG_DATA_HOME", join_path(dir.as_str(), "data"));
            push_variable(&mut v, "UV_CACHE_DIR", join_path(dir.as_str(), "cache/uv"));
            push_variable(&mut v, "npm_config_cache", join_path(dir.as_str(), "npm"));
            assert(environment::variables(v@) =~= kept + cache_variables(dir@));
            v
        },
        None => base,
    };
    let ghost start = environment::variables(out@);
    let ghost mine = environment::variables(own@);
    let mut i: usize = 0;
    assert(start + mine.take(0) =~= start);
    while i < own.len()
        invariant
            i <= own@.len(),
            mine == environment::variables(own@),
            environment::variables(out@) == start + mine.take(i as int),
        decreases own@.len() - i,
    {
        push_variable(&mut out, own[i].0.as_str(), own[i].1.clone());
        i = i + 1;
        assert(environment::variables(out@) =~= start + mine.take(i as int));
    }
    assert(mine.take(i as int) =~= mine);
    out
}

/// The variables with the key in place of `${key}`, where there is a key.
pub open spec fn keyed(
    own: Seq<(Seq<char>, Seq<char>)>,
    secret: Option<Seq<char>>,
) -> Seq<(Seq<char>, Seq<char>)> {
    match secret {
        Some(k) => own.map_values(
            |p: (Seq<char>, Seq<char>)| (p.0, text::replaced(p.1, "${key}"@, k)),
        ),
        None => own,
    }
}

/// The variables of a server, with its key in place of `${key}`. Without a key they stay
/// as they are.
pub fn resolve_variables(own: &Vec<(String, String)>, secret: Option<&str>) -> (out: Vec<
    (String, String),
>)
    ensures
        environment::variables(out@) == keyed(
            environment::variables(own@),
            match secret {
                Some(k) => Some(k@),
                None => None,
            },
        ),
{
    let mut out: Vec<(String, String)> = Vec::new();
    let ghost sv = match secret {
        Some(k) => Some(k@),
        None => None,
    };
    let mut i: usize = 0;
    while i < own.len()
        invariant
            i <= own@.len(),
            out@.len() == i,
            sv == match secret {
                Some(k) => Some(k@),
                None => None,
            },
            forall|j: int|
                0 <= j < i ==> (#[trigger] out@[j]).0@ == own@[j].0@ && out@[j].1@ == match sv {
                    Some(k) => text::replaced(own@[j].1@, "${key}"@, k),
                    None => own@[j].1@,
                },
        decreases own@.len() - i,
    {
        let value = match secret {
            Some(k) => {
                proof {
                    reveal_strlit("${key}");
                }
                replace_all(own[i].1.as_str(), "${key}", k)
            },
            None => own[i].1.clone(),
        };
        out.push((own[i].0.clone(), value));
        i = i + 1;
    }
    assert(environment::variables(out@) =~= keyed(environment::variables(own@), sv));
    out
}

/// A local server as it is to be run.
pub struct Launch {
    pub program: String,
    pub args: Vec<String>,
    pub cwd: String,
    pub env: Vec<(String, String)>,
    pub allow_network: bool,
}

/// How to run a local server, or why not: it has no command, its program is not found,
/// or the network is denied and nothing can deny it. `found` is about the first word
/// of the command, `isolated` about the sandbox at hand.
pub fn launch(
    server: &str,
    command: &Vec<String>,
    own: &Vec<(String, String)>,
    secret: Option<&str>,
    vars: &Vec<(String, String)>,
    workspace: &str,
    server_network: Option<bool>,
    host_network: bool,
    found: bool,
    isolated: bool,
) -> (out: Result<Launch, Error>)
    ensures
        ({
            let network = match server_network {
                Some(b) => b,
                None => host_network,
            };
            match out {
                Ok(l) => {
                    &&& command@.len() > 0
                    &&& found
                    &&& network || isolated
                    &&& l.program@ == command@[0]@
                    &&& text::views(l.args@) == text::views(command@).skip(1)
                    &&& l.cwd@ == workspace@
                    &&& environment::variables(l.env@) == server_environment(
                        environment::variables(vars@),
                        keyed(
                            environment::variables(own@),
                            match secret {
                                Some(k) => Some(k@),
                                None => None,
                            },
                        ),
                    )
                    &&& l.allow_network == network
                },
                Err(e) => if command@.len() == 0 {
                    e == Error::EmptyCommand
                } else if !found {
                    e matches Error::Unavailable { server: s, command: c, hint } && s@ == server@
                        && c@ == command@[0]@ && hint@
                        == "install the configured MCP server executable"@
                } else {
                    &&& !network && !isolated
                    &&& e matches Error::Sandbox(m) && m@
                        == "network-denied isolation is unavailable for '"@ + server@
                        + "'; allow network for it or the host"@
                },
            }
        }),
{
    if command.len() == 0 {
        return Err(Error::EmptyCommand);
    }
    if !found {
        return Err(
            Error::Unavailable {
                server: server.to_owned(),
                command: command[0].clone(),
                hint: "install the configured MCP server executable".to_owned(),
            },
        );
    }
    let network = match server_network {
        Some(b) => b,
        None => host_network,
    };
    if !network && !isolated {
        return Err(
            Error::Sandbox(
                cat3(
                    "network-denied isolation is unavailable for '",
                    server,
                    "'; allow network for it or the host",
                ),
            ),
        );
    }
    let mut args = copy_texts(command);
    let ghost whole = args@;
    assert(text::views(whole).len() == whole.len());
    assert(text::views(command@).len() == command@.len());
    args.remove(0);
    assert(text::views(args@) =~= text::views(whole).skip(1));
    Ok(
        Launch {
            program: command[0].clone(),
            args,
            cwd: workspace.to_owned(),
            env: build_environment(vars, &resolve_variables(own, secret)),
            allow_network: network,
        },
    )
}

} // verus!

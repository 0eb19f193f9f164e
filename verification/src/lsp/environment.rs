//! Where language servers are found, and what of the environment they see.

use vstd::prelude::*;
use vstd::string::*;
use crate::lsp::adapters::ServerAdapter;
use crate::lsp::errors::Error;
use crate::paths;
use crate::paths::{is_absolute, is_below, join_path, path_steps, path_text_of, same_path};
use crate::text;
use crate::text::{chars_of, copy_texts, join, same};

verus! {

/// The variable of that name, from the `i`-th on.
pub open spec fn variable(
    vars: Seq<(Seq<char>, Seq<char>)>,
    name: Seq<char>,
    i: int,
) -> Option<Seq<char>>
    decreases vars.len() - i,
{
    if i < 0 || i >= vars.len() {
        None
    } else if vars[i].0 == name {
        Some(vars[i].1)
    } else {
        variable(vars, name, i + 1)
    }
}

/// What each variable holds.
pub open spec fn variables(v: Seq<(String, String)>) -> Seq<(Seq<char>, Seq<char>)> {
    v.map_values(|p: (String, String)| (p.0@, p.1@))
}

/// The value of a variable.
pub fn value_of<'a>(vars: &'a Vec<(String, String)>, name: &str) -> (out: Option<&'a String>)
    ensures
        match out {
            Some(v) => variable(variables(vars@), name@, 0) == Some(v@),
            None => variable(variables(vars@), name@, 0) is None,
        },
{
    let mut i: usize = 0;
    while i < vars.len()
        invariant
            i <= vars@.len(),
            variable(variables(vars@), name@, 0) == variable(variables(vars@), name@, i as int),
        decreases vars@.len() - i,
    {
        assert(variables(vars@)[i as int] == (vars@[i as int].0@, vars@[i as int].1@));
        if same(vars[i].0.as_str(), name) {
            return Some(&vars[i].1);
        }
        i = i + 1;
    }
    None
}

/// The directory of the servers that the program installed: `lsp` in its own
/// directory, which is `MEDHA_HOME` or `.medha` in the home directory.
pub open spec fn install_dir(vars: Seq<(Seq<char>, Seq<char>)>) -> Option<Seq<char>> {
    match variable(vars, "MEDHA_HOME"@, 0) {
        Some(base) => Some(paths::joined_path(base, "lsp"@)),
        None => match variable(vars, "HOME"@, 0) {
            Some(home) => Some(
                paths::joined_path(paths::joined_path(home, ".medha"@), "lsp"@),
            ),
            None => None,
        },
    }
}

/// The directory of the servers that the program installed.
pub fn server_install_dir(vars: &Vec<(String, String)>) -> (out: Option<String>)
    ensures
        match out {
            Some(d) => install_dir(variables(vars@)) == Some(d@),
            None => install_dir(variables(vars@)) is None,
        },
{
    match value_of(vars, "MEDHA_HOME") {
        Some(base) => Some(join_path(base.as_str(), "lsp")),
        None => match value_of(vars, "HOME") {
            Some(home) => Some(join_path(join_path(home.as_str(), ".medha").as_str(), "lsp")),
            None => None,
        },
    }
}

/// The directories of installed servers, in the order in which they are searched.
pub open spec fn bin_dirs(vars: Seq<(Seq<char>, Seq<char>)>) -> Seq<Seq<char>> {
    match install_dir(vars) {
        Some(d) => seq![
            paths::joined_path(d, "bin"@),
            paths::joined_path(d, "node_modules/.bin"@),
        ],
        None => seq![],
    }
}

/// The directories of installed servers, in the order in which they are searched.
pub fn server_bin_dirs(vars: &Vec<(String, String)>) -> (out: Vec<String>)
    ensures
        text::views(out@) == bin_dirs(variables(vars@)),
{
    let mut out: Vec<String> = Vec::new();
    match server_install_dir(vars) {
        Some(d) => {
            out.push(join_path(d.as_str(), "bin"));
            out.push(join_path(d.as_str(), "node_modules/.bin"));
        },
        None => {},
    }
    assert(text::views(out@) =~= bin_dirs(variables(vars@)));
    out
}

/// The places of a program among the installed servers.
pub fn installed_candidates(program: &str, vars: &Vec<(String, String)>) -> (out: Vec<String>)
    ensures
        text::views(out@) == bin_dirs(variables(vars@)).map_values(
            |d: Seq<char>| paths::joined_path(d, program@),
        ),
{
    let dirs = server_bin_dirs(vars);
    let mut out: Vec<String> = Vec::new();
    let mut i: usize = 0;
    while i < dirs.len()
        invariant
            i <= dirs@.len(),
            out@.len() == i,
            forall|j: int|
                0 <= j < i ==> (#[trigger] out@[j])@ == paths::joined_path(dirs@[j]@, program@),
        decreases dirs@.len() - i,
    {
        out.push(join_path(dirs[i].as_str(), program));
        i = i + 1;
    }
    assert(text::views(out@) =~= text::views(dirs@).map_values(
        |d: Seq<char>| paths::joined_path(d, program@),
    ));
    out
}

/// The names of the variables that a language server sees.
pub open spec fn allowed() -> Seq<Seq<char>> {
    seq![
        "PATH"@,
        "HOME"@,
        "USER"@,
        "LOGNAME"@,
        "TMPDIR"@,
        "TMP"@,
        "TEMP"@,
        "LANG"@,
        "LC_ALL"@,
        "XDG_CONFIG_HOME"@,
        "XDG_CACHE_HOME"@,
        "CARGO_HOME"@,
        "RUSTUP_HOME"@,
        "GOPATH"@,
        "GOROOT"@,
        "VIRTUAL_ENV"@,
        "NODE_PATH"@,
        "SystemRoot"@,
        "PATHEXT"@,
    ]
}

/// The variables of these names, in the order of the names.
pub open spec fn chosen(names: Seq<Seq<char>>, vars: Seq<(Seq<char>, Seq<char>)>) -> Seq<
    (Seq<char>, Seq<char>),
>
    decreases names.len(),
{
    if names.len() == 0 {
        seq![]
    } else {
        let head = chosen(names.drop_last(), vars);
        match variable(vars, names.last(), 0) {
            Some(v) => head.push((names.last(), v)),
            None => head,
        }
    }
}

/// Accepts every variable but the search path.
pub open spec fn not_path() -> spec_fn((Seq<char>, Seq<char>)) -> bool {
    |p: (Seq<char>, Seq<char>)| p.0 != "PATH"@
}

/// Accepts what is not empty.
pub open spec fn nonempty() -> spec_fn(Seq<char>) -> bool {
    |s: Seq<char>| s.len() > 0
}

/// The search path of a language server: the installed servers first, then the
/// inherited search path.
pub open spec fn search_path(vars: Seq<(Seq<char>, Seq<char>)>) -> Seq<char> {
    let inherited = match variable(vars, "PATH"@, 0) {
        Some(p) => p,
        None => seq![],
    };
    text::joined(bin_dirs(vars).push(inherited).filter(nonempty()), ":"@)
}

/// What a language server sees of the environment: the variables that finding a
/// tool takes, and none that could carry a secret.
pub open spec fn server_environment(vars: Seq<(Seq<char>, Seq<char>)>) -> Seq<
    (Seq<char>, Seq<char>),
> {
    let found = chosen(allowed(), vars);
    if bin_dirs(vars).len() == 0 {
        found
    } else {
        found.filter(not_path()).push(("PATH"@, search_path(vars)))
    }
}

fn allowed_names() -> (out: Vec<String>)
    ensures
        text::views(out@) == allowed(),
{
    let names: &[&str] = &[
        "PATH",
        "HOME",
        "USER",
        "LOGNAME",
        "TMPDIR",
        "TMP",
        "TEMP",
        "LANG",
        "LC_ALL",
        "XDG_CONFIG_HOME",
        "XDG_CACHE_HOME",
        "CARGO_HOME",
        "RUSTUP_HOME",
        "GOPATH",
        "GOROOT",
        "VIRTUAL_ENV",
        "NODE_PATH",
        "SystemRoot",
        "PATHEXT",
    ];
    let out = text::texts(names);
    assert(text::views(out@) =~= allowed());
    out
}

/// The variables of these names, in the order of the names.
pub fn choose_variables(names: &Vec<String>, vars: &Vec<(String, String)>) -> (out: Vec<
    (String, String),
>)
    ensures
        variables(out@) == chosen(text::views(names@), variables(vars@)),
{
    let ghost all = text::views(names@);
    let mut out: Vec<(String, String)> = Vec::new();
    let mut i: usize = 0;
    assert(variables(out@) =~= chosen(all.take(0), variables(vars@)));
    while i < names.len()
        invariant
            i <= names@.len(),
            all == text::views(names@),
            variables(out@) == chosen(all.take(i as int), variables(vars@)),
        decreases names@.len() - i,
    {
        let ghost was = out@;
        assert(all.take(i + 1).drop_last() =~= all.take(i as int));
        match value_of(vars, names[i].as_str()) {
            Some(v) => {
                out.push((names[i].clone(), v.clone()));
                assert(variables(out@) =~= variables(was).push((names@[i as int]@, v@)));
            },
            None => {},
        }
        i = i + 1;
    }
    assert(all.take(i as int) =~= all);
    out
}

fn nonempty_texts(v: Vec<String>) -> (out: Vec<String>)
    ensures
        text::views(out@) == text::views(v@).filter(nonempty()),
{
    let ghost all = text::views(v@);
    let mut out: Vec<String> = Vec::new();
    let mut i: usize = 0;
    proof {
        reveal(Seq::filter);
        assert(text::views(out@) =~= all.take(0).filter(nonempty()));
    }
    while i < v.len()
        invariant
            i <= v@.len(),
            all == text::views(v@),
            text::views(out@) == all.take(i as int).filter(nonempty()),
        decreases v@.len() - i,
    {
        let ghost was = out@;
        proof {
            reveal(Seq::filter);
            assert(all.take(i + 1).drop_last() =~= all.take(i as int));
        }
        if chars_of(v[i].as_str()).len() > 0 {
            out.push(v[i].clone());
            assert(text::views(out@) =~= text::views(was).push(all[i as int]));
        }
        i = i + 1;
    }
    assert(all.take(i as int) =~= all);
    out
}

fn without_path(vars: &Vec<(String, String)>) -> (out: Vec<(String, String)>)
    ensures
        variables(out@) == variables(vars@).filter(not_path()),
{
    let ghost all = variables(vars@);
    let mut out: Vec<(String, String)> = Vec::new();
    let mut i: usize = 0;
    proof {
        reveal(Seq::filter);
        assert(variables(out@) =~= all.take(0).filter(not_path()));
    }
    while i < vars.len()
        invariant
            i <= vars@.len(),
            all == variables(vars@),
            variables(out@) == all.take(i as int).filter(not_path()),
        decreases vars@.len() - i,
    {
        let ghost was = out@;
        proof {
            reveal(Seq::filter);
            assert(all.take(i + 1).drop_last() =~= all.take(i as int));
        }
        if !same(vars[i].0.as_str(), "PATH") {
            out.push((vars[i].0.clone(), vars[i].1.clone()));
            assert(variables(out@) =~= variables(was).push(all[i as int]));
        }
        i = i + 1;
    }
    assert(all.take(i as int) =~= all);
    out
}

/// What a language server sees of the environment.
pub fn language_server_environment(vars: &Vec<(String, String)>) -> (out: Vec<(String, String)>)
    ensures
        variables(out@) == server_environment(variables(vars@)),
{
    let found = choose_variables(&allowed_names(), vars);
    let mut dirs = server_bin_dirs(vars);
    assert(text::views(dirs@).len() == dirs@.len());
    if dirs.len() == 0 {
        return found;
    }
    let inherited = match value_of(vars, "PATH") {
        Some(p) => p.clone(),
        None => String::new(),
    };
    let ghost known = dirs@;
    dirs.push(inherited);
    assert(text::views(dirs@) =~= text::views(known).push(inherited@));
    let parts = nonempty_texts(dirs);
    let path = join(&parts, ":");
    assert(path@ == search_path(variables(vars@)));
    let mut out = without_path(&found);
    let ghost kept = out@;
    out.push(("PATH".to_owned(), path));
    assert(variables(out@) =~= variables(kept).push(("PATH"@, path@)));
    out
}

proof fn lemma_chosen(names: Seq<Seq<char>>, vars: Seq<(Seq<char>, Seq<char>)>, i: int)
    requires
        0 <= i < chosen(names, vars).len(),
    ensures
        names.contains(chosen(names, vars)[i].0),
    decreases names.len(),
{
    if names.len() > 0 {
        let head = chosen(names.drop_last(), vars);
        if i < head.len() {
            lemma_chosen(names.drop_last(), vars, i);
            let j = names.drop_last().index_of(head[i].0);
            assert(names[j] == head[i].0);
        } else {
            assert(names[names.len() - 1] == chosen(names, vars)[i].0);
        }
    }
}

pub proof fn lemma_filter_part<T>(s: Seq<T>, keep: spec_fn(T) -> bool, i: int)
    requires
        0 <= i < s.filter(keep).len(),
    ensures
        s.contains(s.filter(keep)[i]),
    decreases s.len(),
{
    reveal(Seq::filter);
    if s.len() > 0 {
        let head = s.drop_last();
        if i < head.filter(keep).len() {
            lemma_filter_part(head, keep, i);
            let j = head.index_of(head.filter(keep)[i]);
            assert(s[j] == s.filter(keep)[i]);
        } else {
            assert(s[s.len() - 1] == s.filter(keep)[i]);
        }
    }
}

/// A language server sees no variable beyond the names that are allowed, whatever
/// the environment holds.
pub proof fn law_only_allowed_variables(vars: Seq<(Seq<char>, Seq<char>)>, i: int)
    requires
        0 <= i < server_environment(vars).len(),
    ensures
        allowed().contains(server_environment(vars)[i].0),
{
    let found = chosen(allowed(), vars);
    if bin_dirs(vars).len() == 0 {
        lemma_chosen(allowed(), vars, i);
    } else {
        let kept = found.filter(not_path());
        if i < kept.len() {
            lemma_filter_part(found, not_path(), i);
            let j = found.index_of(kept[i]);
            lemma_chosen(allowed(), vars, j);
        } else {
            assert(allowed()[0] == "PATH"@);
        }
    }
}

/// How a server that is missing can be had.
pub open spec fn install_hint(server: Seq<char>) -> Seq<char> {
    if server == "rust-analyzer"@ {
        "install rust-analyzer with rustup or your system package manager"@
    } else if server == "typescript-language-server"@ {
        "install typescript-language-server and typescript (for example with npm)"@
    } else if server == "pyright"@ {
        "install pyright-langserver (for example with npm or pip)"@
    } else if server == "gopls"@ {
        "install gopls with the Go toolchain"@
    } else if server == "clangd"@ {
        "install clangd with LLVM or your system package manager"@
    } else {
        "install the configured language-server executable"@
    }
}

/// How a server that is missing can be had.
pub fn server_install_hint(server: &str) -> (out: &'static str)
    ensures
        out@ == install_hint(server@),
{
    if same(server, "rust-analyzer") {
        "install rust-analyzer with rustup or your system package manager"
    } else if same(server, "typescript-language-server") {
        "install typescript-language-server and typescript (for example with npm)"
    } else if same(server, "pyright") {
        "install pyright-langserver (for example with npm or pip)"
    } else if same(server, "gopls") {
        "install gopls with the Go toolchain"
    } else if same(server, "clangd") {
        "install clangd with LLVM or your system package manager"
    } else {
        "install the configured language-server executable"
    }
}

/// A server as it is to be run.
pub struct Launch {
    pub program: String,
    pub args: Vec<String>,
    pub cwd: String,
    pub env: Vec<(String, String)>,
}

/// The program that a command names: one with several steps is sought from the
/// root, a single name on the search path.
pub open spec fn program_of(command: Seq<char>, root: Seq<char>) -> Seq<char> {
    if !paths::absolute(command) && paths::steps(command).len() > 1 {
        paths::joined_path(root, command)
    } else {
        command
    }
}

/// The program that a command names.
pub fn resolve_program(command: &str, root: &str) -> (out: String)
    ensures
        out@ == program_of(command@, root@),
{
    let steps = path_steps(command);
    assert(text::views(steps@).len() == steps@.len());
    if !is_absolute(command) && steps.len() > 1 {
        join_path(root, command)
    } else {
        command.to_owned()
    }
}

/// How to run a server, or why not: it has no command, its program is not found, or
/// the network is denied and nothing can deny it. `found` and `isolated` are about
/// the program of [`resolve_program`] and about the sandbox at hand.
pub fn launch(
    adapter: &ServerAdapter,
    root: &str,
    vars: &Vec<(String, String)>,
    found: bool,
    allow_network: bool,
    isolated: bool,
) -> (out: Result<Launch, Error>)
    ensures
        match out {
            Ok(l) => {
                &&& adapter.command@.len() > 0
                &&& found
                &&& allow_network || isolated
                &&& l.program@ == program_of(adapter@.command[0], root@)
                &&& text::views(l.args@) == adapter@.command.skip(1)
                &&& l.cwd@ == root@
                &&& variables(l.env@) == server_environment(variables(vars@))
            },
            Err(e) => if adapter.command@.len() == 0 {
                e == Error::EmptyCommand
            } else if !found {
                e matches Error::ServerUnavailable { server, command, hint } && server@
                    == adapter@.id && command@ == adapter@.command[0] && hint@ == install_hint(
                    adapter@.id,
                )
            } else {
                &&& !allow_network && !isolated
                &&& e matches Error::Sandbox(m) && m@
                    == "network-denied native isolation is unavailable; explicitly set lsp.allow_network = true to run without it"@
            },
        },
{
    if adapter.command.len() == 0 {
        return Err(Error::EmptyCommand);
    }
    assert(adapter@.command[0] == adapter.command@[0]@);
    if !found {
        return Err(
            Error::ServerUnavailable {
                server: adapter.id.clone(),
                command: adapter.command[0].clone(),
                hint: server_install_hint(adapter.id.as_str()).to_owned(),
            },
        );
    }
    if !allow_network && !isolated {
        return Err(
            Error::Sandbox(
                "network-denied native isolation is unavailable; explicitly set lsp.allow_network = true to run without it".to_owned(),
            ),
        );
    }
    let mut args = copy_texts(&adapter.command);
    let ghost whole = args@;
    assert(text::views(whole).len() == whole.len());
    args.remove(0);
    assert(text::views(args@) =~= text::views(whole).skip(1));
    Ok(
        Launch {
            program: resolve_program(adapter.command[0].as_str(), root),
            args,
            cwd: root.to_owned(),
            env: language_server_environment(vars),
        },
    )
}

/// One of the markers lies in a directory.
pub open spec fn marked(dir: Seq<char>, markers: Seq<Seq<char>>, files: Seq<Seq<char>>) -> bool {
    exists|i: int|
        0 <= i < markers.len() && files.contains(#[trigger] paths::joined_path(dir, markers[i]))
}

/// The root of a project, sought from a directory upwards: the first marked
/// directory within the workspace, or the workspace.
pub open spec fn root_from(
    absolute: bool,
    dir: Seq<Seq<char>>,
    workspace: Seq<char>,
    markers: Seq<Seq<char>>,
    files: Seq<Seq<char>>,
) -> Seq<char>
    decreases dir.len(),
{
    let d = paths::path_text(absolute, dir);
    if !paths::below(d, workspace) || paths::same_place(d, workspace) {
        workspace
    } else if marked(d, markers, files) {
        d
    } else if dir.len() == 0 {
        workspace
    } else {
        root_from(absolute, dir.drop_last(), workspace, markers, files)
    }
}

/// The directory from which the root of a path is sought: the path where it is a
/// directory, else its parent.
pub open spec fn start_dir(path: Seq<char>, is_dir: bool) -> Seq<Seq<char>> {
    if is_dir || paths::steps(path).len() == 0 {
        paths::steps(path)
    } else {
        paths::steps(path).drop_last()
    }
}

/// The root of the project that a path belongs to.
pub open spec fn root_of(
    path: Seq<char>,
    is_dir: bool,
    workspace: Seq<char>,
    markers: Seq<Seq<char>>,
    files: Seq<Seq<char>>,
) -> Seq<char> {
    root_from(paths::absolute(path), start_dir(path, is_dir), workspace, markers, files)
}

fn holds_text(v: &Vec<String>, s: &str) -> (yes: bool)
    ensures
        yes == text::views(v@).contains(s@),
{
    let mut i: usize = 0;
    while i < v.len()
        invariant
            i <= v@.len(),
            forall|j: int| 0 <= j < i ==> (#[trigger] text::views(v@)[j]) != s@,
        decreases v@.len() - i,
    {
        assert(text::views(v@)[i as int] == v@[i as int]@);
        if same(v[i].as_str(), s) {
            return true;
        }
        i = i + 1;
    }
    false
}

fn is_marked(dir: &str, markers: &Vec<String>, files: &Vec<String>) -> (yes: bool)
    ensures
        yes == marked(dir@, text::views(markers@), text::views(files@)),
{
    let ghost all = text::views(markers@);
    let mut i: usize = 0;
    while i < markers.len()
        invariant
            i <= markers@.len(),
            all == text::views(markers@),
            forall|j: int|
                0 <= j < i ==> !text::views(files@).contains(
                    #[trigger] paths::joined_path(dir@, all[j]),
                ),
        decreases markers@.len() - i,
    {
        let p = join_path(dir, markers[i].as_str());
        assert(p@ == paths::joined_path(dir@, all[i as int]));
        if holds_text(files, p.as_str()) {
            return true;
        }
        i = i + 1;
    }
    false
}

fn parents(path: &str, is_dir: bool) -> (out: Vec<String>)
    ensures
        text::views(out@) == start_dir(path@, is_dir),
{
    let mut steps = path_steps(path);
    assert(text::views(steps@).len() == steps@.len());
    if !is_dir && steps.len() > 0 {
        let ghost whole = steps@;
        steps.pop();
        assert(text::views(steps@) =~= text::views(whole).drop_last());
    }
    steps
}

/// The root of the project that a path belongs to. `files` are those of
/// [`root_probes`] that exist.
pub fn detect_root(
    path: &str,
    is_dir: bool,
    workspace: &str,
    markers: &Vec<String>,
    files: &Vec<String>,
) -> (out: String)
    ensures
        out@ == root_of(path@, is_dir, workspace@, text::views(markers@), text::views(files@)),
{
    let absolute = is_absolute(path);
    let mut dir = parents(path, is_dir);
    loop
        invariant
            absolute == paths::absolute(path@),
            root_of(path@, is_dir, workspace@, text::views(markers@), text::views(files@))
                == root_from(
                absolute,
                text::views(dir@),
                workspace@,
                text::views(markers@),
                text::views(files@),
            ),
        decreases dir@.len(),
    {
        let d = path_text_of(absolute, &dir);
        if !is_below(d.as_str(), workspace) || same_path(d.as_str(), workspace) {
            return workspace.to_owned();
        }
        if is_marked(d.as_str(), markers, files) {
            return d;
        }
        assert(text::views(dir@).len() == dir@.len());
        if dir.len() == 0 {
            return workspace.to_owned();
        }
        let ghost whole = dir@;
        dir.pop();
        assert(text::views(dir@) =~= text::views(whole).drop_last());
    }
}

/// The root of a project is the workspace, or a marked directory within it.
pub proof fn law_root_within_workspace(
    path: Seq<char>,
    is_dir: bool,
    workspace: Seq<char>,
    markers: Seq<Seq<char>>,
    files: Seq<Seq<char>>,
)
    ensures
        ({
            let root = root_of(path, is_dir, workspace, markers, files);
            root == workspace || (paths::below(root, workspace) && marked(root, markers, files))
        }),
{
    lemma_root_from(
        paths::absolute(path),
        start_dir(path, is_dir),
        workspace,
        markers,
        files,
    );
}

proof fn lemma_root_from(
    absolute: bool,
    dir: Seq<Seq<char>>,
    workspace: Seq<char>,
    markers: Seq<Seq<char>>,
    files: Seq<Seq<char>>,
)
    ensures
        ({
            let root = root_from(absolute, dir, workspace, markers, files);
            root == workspace || (paths::below(root, workspace) && marked(root, markers, files))
        }),
    decreases dir.len(),
{
    if dir.len() > 0 {
        lemma_root_from(absolute, dir.drop_last(), workspace, markers, files);
    }
}

/// The places where a marker of the path's project could lie.
pub open spec fn probes(
    absolute: bool,
    dir: Seq<Seq<char>>,
    workspace: Seq<char>,
    markers: Seq<Seq<char>>,
) -> Seq<Seq<char>>
    decreases dir.len(),
{
    let d = paths::path_text(absolute, dir);
    if !paths::below(d, workspace) || paths::same_place(d, workspace) {
        seq![]
    } else {
        let here = markers.map_values(|m: Seq<char>| paths::joined_path(d, m));
        if dir.len() == 0 {
            here
        } else {
            here + probes(absolute, dir.drop_last(), workspace, markers)
        }
    }
}

/// The places where a marker of the path's project could lie, nearest first.
pub fn root_probes(path: &str, is_dir: bool, workspace: &str, markers: &Vec<String>) -> (out: Vec<
    String,
>)
    ensures
        text::views(out@) == probes(
            paths::absolute(path@),
            start_dir(path@, is_dir),
            workspace@,
            text::views(markers@),
        ),
{
    let absolute = is_absolute(path);
    let mut dir = parents(path, is_dir);
    let ghost all = probes(absolute, text::views(dir@), workspace@, text::views(markers@));
    let mut out: Vec<String> = Vec::new();
    assert(all =~= text::views(out@) + all);
    loop
        invariant
            all == text::views(out@) + probes(
                absolute,
                text::views(dir@),
                workspace@,
                text::views(markers@),
            ),
            all == probes(
                paths::absolute(path@),
                start_dir(path@, is_dir),
                workspace@,
                text::views(markers@),
            ),
        decreases dir@.len(),
    {
        let d = path_text_of(absolute, &dir);
        assert(text::views(dir@).len() == dir@.len());
        let ghost was = text::views(out@);
        if !is_below(d.as_str(), workspace) || same_path(d.as_str(), workspace) {
            assert(all =~= was);
            return out;
        }
        let ghost here = text::views(markers@).map_values(
            |m: Seq<char>| paths::joined_path(d@, m),
        );
        let mut i: usize = 0;
        while i < markers.len()
            invariant
                i <= markers@.len(),
                here == text::views(markers@).map_values(
                    |m: Seq<char>| paths::joined_path(d@, m),
                ),
                text::views(out@) =~= was + here.take(i as int),
            decreases markers@.len() - i,
        {
            let ghost so_far = out@;
            let p = join_path(d.as_str(), markers[i].as_str());
            assert(p@ == here[i as int]);
            out.push(p);
            assert(text::views(out@) =~= text::views(so_far).push(p@));
            i = i + 1;
        }
        assert(here.take(i as int) =~= here);
        if dir.len() == 0 {
            assert(all =~= text::views(out@));
            return out;
        }
        let ghost whole = dir@;
        dir.pop();
        assert(text::views(dir@) =~= text::views(whole).drop_last());
        assert(all =~= text::views(out@) + probes(
            absolute,
            text::views(dir@),
            workspace@,
            text::views(markers@),
        ));
    }
}

} // verus!

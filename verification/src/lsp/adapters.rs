//! Which language server serves which files, and how it is started.

use vstd::prelude::*;
use vstd::string::*;
use crate::json::{Json, JsonView};
use crate::paths;
use crate::paths::path_extension;
use crate::text;
use crate::text::{chars_of, copy_texts, lower_text, same, trimmed};

verus! {

pub struct Language {
    pub extension: String,
    pub language_id: String,
}

pub struct ServerAdapter {
    pub id: String,
    pub command: Vec<String>,
    pub languages: Vec<Language>,
    pub root_markers: Vec<String>,
    /// A command that the project provides does not run until it is approved for
    /// its server and root.
    pub requires_approval: bool,
    /// The settings that the server is given and may ask for. Null leaves it to its
    /// own defaults.
    pub settings: Json,
}

/// The extension and the language of each mapping.
pub open spec fn mappings(v: Seq<Language>) -> Seq<(Seq<char>, Seq<char>)> {
    v.map_values(|l: Language| (l.extension@, l.language_id@))
}

/// What a [`ServerAdapter`] holds.
#[verifier::ext_equal]
pub ghost struct AdapterView {
    pub id: Seq<char>,
    pub command: Seq<Seq<char>>,
    pub languages: Seq<(Seq<char>, Seq<char>)>,
    pub root_markers: Seq<Seq<char>>,
    pub requires_approval: bool,
    pub settings: JsonView,
}

impl View for ServerAdapter {
    type V = AdapterView;

    open spec fn view(&self) -> AdapterView {
        AdapterView {
            id: self.id@,
            command: text::views(self.command@),
            languages: mappings(self.languages@),
            root_markers: text::views(self.root_markers@),
            requires_approval: self.requires_approval,
            settings: self.settings@,
        }
    }
}

/// What each pair of texts holds.
pub open spec fn pairs(v: Seq<(&str, &str)>) -> Seq<(Seq<char>, Seq<char>)> {
    v.map_values(|p: (&str, &str)| (p.0@, p.1@))
}

/// A server that comes with the program: it needs no approval and has no settings,
/// and a repository marks its root too.
pub open spec fn built_in(
    id: Seq<char>,
    command: Seq<Seq<char>>,
    languages: Seq<(Seq<char>, Seq<char>)>,
    markers: Seq<Seq<char>>,
) -> AdapterView {
    AdapterView {
        id,
        command,
        languages,
        root_markers: markers.push(".git"@),
        requires_approval: false,
        settings: JsonView::Null,
    }
}

pub open spec fn rust_analyzer_adapter() -> AdapterView {
    built_in(
        "rust-analyzer"@,
        seq!["rust-analyzer"@],
        seq![("rs"@, "rust"@)],
        seq!["Cargo.toml"@, "rust-project.json"@],
    )
}

pub open spec fn typescript_adapter() -> AdapterView {
    built_in(
        "typescript-language-server"@,
        seq!["typescript-language-server"@, "--stdio"@],
        seq![("ts"@, "typescript"@), ("tsx"@, "typescriptreact"@), ("js"@, "javascript"@), ("jsx"@, "javascriptreact"@), ("mjs"@, "javascript"@), ("cjs"@, "javascript"@)],
        seq!["tsconfig.json"@, "jsconfig.json"@, "package.json"@],
    )
}

pub open spec fn python_adapter() -> AdapterView {
    built_in(
        "pyright"@,
        seq!["pyright-langserver"@, "--stdio"@],
        seq![("py"@, "python"@)],
        seq!["pyproject.toml"@, "setup.py"@, "requirements.txt"@],
    )
}

pub open spec fn go_adapter() -> AdapterView {
    built_in(
        "gopls"@,
        seq!["gopls"@],
        seq![("go"@, "go"@)],
        seq!["go.work"@, "go.mod"@],
    )
}

pub open spec fn clangd_adapter() -> AdapterView {
    built_in(
        "clangd"@,
        seq!["clangd"@],
        seq![("c"@, "c"@), ("h"@, "c"@), ("cc"@, "cpp"@), ("cpp"@, "cpp"@), ("cxx"@, "cpp"@), ("hpp"@, "cpp"@), ("hh"@, "cpp"@)],
        seq!["compile_commands.json"@, "compile_flags.txt"@, "CMakeLists.txt"@],
    )
}

pub open spec fn ruby_adapter() -> AdapterView {
    built_in(
        "ruby-lsp"@,
        seq!["ruby-lsp"@],
        seq![("rb"@, "ruby"@), ("rake"@, "ruby"@), ("gemspec"@, "ruby"@)],
        seq!["Gemfile"@, ".ruby-version"@],
    )
}

pub open spec fn java_adapter() -> AdapterView {
    built_in(
        "jdtls"@,
        seq!["jdtls"@],
        seq![("java"@, "java"@)],
        seq!["pom.xml"@, "build.gradle"@, "build.gradle.kts"@, ".classpath"@],
    )
}

pub open spec fn csharp_adapter() -> AdapterView {
    built_in(
        "omnisharp"@,
        seq!["omnisharp"@, "-lsp"@],
        seq![("cs"@, "csharp"@)],
        seq!["omnisharp.json"@, "global.json"@, "NuGet.config"@],
    )
}

pub open spec fn php_adapter() -> AdapterView {
    built_in(
        "intelephense"@,
        seq!["intelephense"@, "--stdio"@],
        seq![("php"@, "php"@)],
        seq!["composer.json"@],
    )
}

pub open spec fn lua_adapter() -> AdapterView {
    built_in(
        "lua-language-server"@,
        seq!["lua-language-server"@],
        seq![("lua"@, "lua"@)],
        seq![".luarc.json"@, "stylua.toml"@],
    )
}

pub open spec fn bash_adapter() -> AdapterView {
    built_in(
        "bash-language-server"@,
        seq!["bash-language-server"@, "start"@],
        seq![("sh"@, "shellscript"@), ("bash"@, "shellscript"@)],
        seq![],
    )
}

pub open spec fn zig_adapter() -> AdapterView {
    built_in(
        "zls"@,
        seq!["zls"@],
        seq![("zig"@, "zig"@), ("zon"@, "zig"@)],
        seq!["build.zig"@],
    )
}

pub open spec fn swift_adapter() -> AdapterView {
    built_in(
        "sourcekit-lsp"@,
        seq!["sourcekit-lsp"@],
        seq![("swift"@, "swift"@)],
        seq!["Package.swift"@],
    )
}

pub open spec fn yaml_adapter() -> AdapterView {
    built_in(
        "yaml-language-server"@,
        seq!["yaml-language-server"@, "--stdio"@],
        seq![("yaml"@, "yaml"@), ("yml"@, "yaml"@)],
        seq![],
    )
}

fn languages_of(v: &[(&str, &str)]) -> (out: Vec<Language>)
    ensures
        mappings(out@) == pairs(v@),
{
    let mut out: Vec<Language> = Vec::new();
    let mut i: usize = 0;
    while i < v.len()
        invariant
            i <= v@.len(),
            out@.len() == i,
            forall|j: int|
                0 <= j < i ==> (#[trigger] out@[j]).extension@ == v@[j].0@ && out@[j].language_id@
                    == v@[j].1@,
        decreases v@.len() - i,
    {
        let p = v[i];
        out.push(Language { extension: p.0.to_owned(), language_id: p.1.to_owned() });
        i = i + 1;
    }
    assert(mappings(out@) =~= pairs(v@));
    out
}

impl ServerAdapter {
    fn simple(id: &str, command: &[&str], languages: &[(&str, &str)], root_markers: &[&str]) -> (out:
        ServerAdapter)
        ensures
            out@ == built_in(id@, text::strs(command@), pairs(languages@), text::strs(root_markers@)),
    {
        let mut markers = text::texts(root_markers);
        let ghost named = markers@;
        markers.push(".git".to_owned());
        assert(text::views(markers@) =~= text::views(named).push(".git"@));
        ServerAdapter {
            id: id.to_owned(),
            command: text::texts(command),
            languages: languages_of(languages),
            root_markers: markers,
            requires_approval: false,
            settings: Json::Null,
        }
    }

    pub fn rust_analyzer() -> (out: ServerAdapter)
        ensures
            out@ == rust_analyzer_adapter(),
    {
        let out = ServerAdapter::simple(
            "rust-analyzer",
            &["rust-analyzer"],
            &[("rs", "rust")],
            &["Cargo.toml", "rust-project.json"],
        );
        assert(out@ =~= rust_analyzer_adapter());
        out
    }

    pub fn typescript() -> (out: ServerAdapter)
        ensures
            out@ == typescript_adapter(),
    {
        let out = ServerAdapter::simple(
            "typescript-language-server",
            &["typescript-language-server", "--stdio"],
            &[("ts", "typescript"), ("tsx", "typescriptreact"), ("js", "javascript"), ("jsx", "javascriptreact"), ("mjs", "javascript"), ("cjs", "javascript")],
            &["tsconfig.json", "jsconfig.json", "package.json"],
        );
        assert(out@ =~= typescript_adapter());
        out
    }

    pub fn python() -> (out: ServerAdapter)
        ensures
            out@ == python_adapter(),
    {
        let out = ServerAdapter::simple(
            "pyright",
            &["pyright-langserver", "--stdio"],
            &[("py", "python")],
            &["pyproject.toml", "setup.py", "requirements.txt"],
        );
        assert(out@ =~= python_adapter());
        out
    }

    pub fn go() -> (out: ServerAdapter)
        ensures
            out@ == go_adapter(),
    {
        let out = ServerAdapter::simple(
            "gopls",
            &["gopls"],
            &[("go", "go")],
            &["go.work", "go.mod"],
        );
        assert(out@ =~= go_adapter());
        out
    }

    pub fn clangd() -> (out: ServerAdapter)
        ensures
            out@ == clangd_adapter(),
    {
        let out = ServerAdapter::simple(
            "clangd",
            &["clangd"],
            &[("c", "c"), ("h", "c"), ("cc", "cpp"), ("cpp", "cpp"), ("cxx", "cpp"), ("hpp", "cpp"), ("hh", "cpp")],
            &["compile_commands.json", "compile_flags.txt", "CMakeLists.txt"],
        );
        assert(out@ =~= clangd_adapter());
        out
    }

    pub fn ruby() -> (out: ServerAdapter)
        ensures
            out@ == ruby_adapter(),
    {
        let out = ServerAdapter::simple(
            "ruby-lsp",
            &["ruby-lsp"],
            &[("rb", "ruby"), ("rake", "ruby"), ("gemspec", "ruby")],
            &["Gemfile", ".ruby-version"],
        );
        assert(out@ =~= ruby_adapter());
        out
    }

    pub fn java() -> (out: ServerAdapter)
        ensures
            out@ == java_adapter(),
    {
        let out = ServerAdapter::simple(
            "jdtls",
            &["jdtls"],
            &[("java", "java")],
            &["pom.xml", "build.gradle", "build.gradle.kts", ".classpath"],
        );
        assert(out@ =~= java_adapter());
        out
    }

    pub fn csharp() -> (out: ServerAdapter)
        ensures
            out@ == csharp_adapter(),
    {
        let out = ServerAdapter::simple(
            "omnisharp",
            &["omnisharp", "-lsp"],
            &[("cs", "csharp")],
            &["omnisharp.json", "global.json", "NuGet.config"],
        );
        assert(out@ =~= csharp_adapter());
        out
    }

    pub fn php() -> (out: ServerAdapter)
        ensures
            out@ == php_adapter(),
    {
        let out = ServerAdapter::simple(
            "intelephense",
            &["intelephense", "--stdio"],
            &[("php", "php")],
            &["composer.json"],
        );
        assert(out@ =~= php_adapter());
        out
    }

    pub fn lua() -> (out: ServerAdapter)
        ensures
            out@ == lua_adapter(),
    {
        let out = ServerAdapter::simple(
            "lua-language-server",
            &["lua-language-server"],
            &[("lua", "lua")],
            &[".luarc.json", "stylua.toml"],
        );
        assert(out@ =~= lua_adapter());
        out
    }

    pub fn bash() -> (out: ServerAdapter)
        ensures
            out@ == bash_adapter(),
    {
        let out = ServerAdapter::simple(
            "bash-language-server",
            &["bash-language-server", "start"],
            &[("sh", "shellscript"), ("bash", "shellscript")],
            &[],
        );
        assert(out@ =~= bash_adapter());
        out
    }

    pub fn zig() -> (out: ServerAdapter)
        ensures
            out@ == zig_adapter(),
    {
        let out = ServerAdapter::simple(
            "zls",
            &["zls"],
            &[("zig", "zig"), ("zon", "zig")],
            &["build.zig"],
        );
        assert(out@ =~= zig_adapter());
        out
    }

    pub fn swift() -> (out: ServerAdapter)
        ensures
            out@ == swift_adapter(),
    {
        let out = ServerAdapter::simple(
            "sourcekit-lsp",
            &["sourcekit-lsp"],
            &[("swift", "swift")],
            &["Package.swift"],
        );
        assert(out@ =~= swift_adapter());
        out
    }

    pub fn yaml() -> (out: ServerAdapter)
        ensures
            out@ == yaml_adapter(),
    {
        let out = ServerAdapter::simple(
            "yaml-language-server",
            &["yaml-language-server", "--stdio"],
            &[("yaml", "yaml"), ("yml", "yaml")],
            &[],
        );
        assert(out@ =~= yaml_adapter());
        out
    }
}

/// The servers that come with the program.
pub open spec fn built_ins() -> Seq<AdapterView> {
    seq![
        rust_analyzer_adapter(),
        typescript_adapter(),
        python_adapter(),
        go_adapter(),
        clangd_adapter(),
        ruby_adapter(),
        java_adapter(),
        csharp_adapter(),
        php_adapter(),
        lua_adapter(),
        bash_adapter(),
        zig_adapter(),
        swift_adapter(),
        yaml_adapter(),
    ]
}

/// What each adapter holds.
pub open spec fn adapters(v: Seq<ServerAdapter>) -> Seq<AdapterView> {
    v.map_values(|a: ServerAdapter| a@)
}

/// The settings of the language-server manager. Times are in milliseconds.
pub struct Config {
    pub enabled: bool,
    pub servers: Vec<ServerAdapter>,
    pub startup_timeout: u64,
    pub request_timeout: u64,
    pub diagnostics_timeout: u64,
    pub diagnostic_settle: u64,
    pub idle_timeout: u64,
    pub restart_backoff: u64,
    /// Failed starts in a row after which a server is parked.
    pub max_restart_attempts: u32,
    pub max_servers: usize,
    pub max_results: usize,
    pub max_text_chars: usize,
    /// Documents that a server keeps open at most.
    pub max_open_documents: usize,
    pub allow_network: bool,
}

impl Default for Config {
    fn default() -> (out: Config)
        ensures
            out.enabled,
            adapters(out.servers@) == built_ins(),
            out.startup_timeout == 10_000,
            out.request_timeout == 8_000,
            out.diagnostics_timeout == 4_000,
            out.diagnostic_settle == 1_000,
            out.idle_timeout == 600_000,
            out.restart_backoff == 5_000,
            out.max_restart_attempts == 5,
            out.max_servers == 16,
            out.max_results == 200,
            out.max_text_chars == 16_000,
            out.max_open_documents == 64,
            !out.allow_network,
    {
        let mut servers: Vec<ServerAdapter> = Vec::new();
        servers.push(ServerAdapter::rust_analyzer());
        servers.push(ServerAdapter::typescript());
        servers.push(ServerAdapter::python());
        servers.push(ServerAdapter::go());
        servers.push(ServerAdapter::clangd());
        servers.push(ServerAdapter::ruby());
        servers.push(ServerAdapter::java());
        servers.push(ServerAdapter::csharp());
        servers.push(ServerAdapter::php());
        servers.push(ServerAdapter::lua());
        servers.push(ServerAdapter::bash());
        servers.push(ServerAdapter::zig());
        servers.push(ServerAdapter::swift());
        servers.push(ServerAdapter::yaml());
        assert(adapters(servers@) =~= built_ins());
        Config {
            enabled: true,
            servers,
            startup_timeout: 10_000,
            request_timeout: 8_000,
            diagnostics_timeout: 4_000,
            diagnostic_settle: 1_000,
            idle_timeout: 600_000,
            restart_backoff: 5_000,
            max_restart_attempts: 5,
            max_servers: 16,
            max_results: 200,
            max_text_chars: 16_000,
            max_open_documents: 64,
            allow_network: false,
        }
    }
}

/// The extensions and languages behind the common name of a language.
pub open spec fn common_language(name: Seq<char>) -> Seq<(Seq<char>, Seq<char>)> {
    if name == "rust"@ {
        seq![("rs"@, "rust"@)]
    } else if name == "typescript"@ {
        seq![("ts"@, "typescript"@), ("tsx"@, "typescriptreact"@)]
    } else if name == "javascript"@ {
        seq![
            ("js"@, "javascript"@),
            ("jsx"@, "javascriptreact"@),
            ("mjs"@, "javascript"@),
            ("cjs"@, "javascript"@),
        ]
    } else if name == "python"@ {
        seq![("py"@, "python"@)]
    } else if name == "go"@ {
        seq![("go"@, "go"@)]
    } else if name == "c"@ {
        seq![("c"@, "c"@), ("h"@, "c"@)]
    } else if name == "cpp"@ || name == "c++"@ {
        seq![
            ("cc"@, "cpp"@),
            ("cpp"@, "cpp"@),
            ("cxx"@, "cpp"@),
            ("hpp"@, "cpp"@),
            ("hh"@, "cpp"@),
        ]
    } else if name.len() > 0 {
        seq![(name, name)]
    } else {
        seq![]
    }
}

/// The mappings of several languages, one after another. A name that is not common
/// is its own extension and language.
pub open spec fn mapped(names: Seq<Seq<char>>) -> Seq<(Seq<char>, Seq<char>)>
    decreases names.len(),
{
    if names.len() == 0 {
        seq![]
    } else {
        mapped(names.drop_last()) + common_language(text::lowered(text::trim(names.last())))
    }
}

fn mapping_of(name: &str) -> (out: Vec<Language>)
    ensures
        mappings(out@) == common_language(name@),
{
    let out = if same(name, "rust") {
        languages_of(&[("rs", "rust")])
    } else if same(name, "typescript") {
        languages_of(&[("ts", "typescript"), ("tsx", "typescriptreact")])
    } else if same(name, "javascript") {
        languages_of(
            &[
                ("js", "javascript"),
                ("jsx", "javascriptreact"),
                ("mjs", "javascript"),
                ("cjs", "javascript"),
            ],
        )
    } else if same(name, "python") {
        languages_of(&[("py", "python")])
    } else if same(name, "go") {
        languages_of(&[("go", "go")])
    } else if same(name, "c") {
        languages_of(&[("c", "c"), ("h", "c")])
    } else if same(name, "cpp") || same(name, "c++") {
        languages_of(
            &[("cc", "cpp"), ("cpp", "cpp"), ("cxx", "cpp"), ("hpp", "cpp"), ("hh", "cpp")],
        )
    } else if chars_of(name).len() > 0 {
        languages_of(&[(name, name)])
    } else {
        Vec::new()
    };
    assert(mappings(out@) =~= common_language(name@));
    out
}

/// The mappings of several languages, by their names.
pub fn language_mappings(names: &Vec<String>) -> (out: Vec<Language>)
    ensures
        mappings(out@) == mapped(text::views(names@)),
{
    let ghost all = text::views(names@);
    let mut out: Vec<Language> = Vec::new();
    let mut i: usize = 0;
    assert(mappings(out@) =~= mapped(all.take(0)));
    while i < names.len()
        invariant
            i <= names@.len(),
            all == text::views(names@),
            mappings(out@) == mapped(all.take(i as int)),
        decreases names@.len() - i,
    {
        assert(all.take(i + 1).drop_last() =~= all.take(i as int));
        let mut more = mapping_of(lower_text(trimmed(names[i].as_str()).as_str()).as_str());
        let ghost was = out@;
        let ghost added = more@;
        out.append(&mut more);
        assert(mappings(out@) =~= mappings(was) + mappings(added));
        i = i + 1;
    }
    assert(all.take(i as int) =~= all);
    out
}

/// The language of the first mapping for an extension, from the `i`-th on.
pub open spec fn language_from(v: Seq<(Seq<char>, Seq<char>)>, extension: Seq<char>, i: int) -> Option<
    Seq<char>,
>
    decreases v.len() - i,
{
    if i < 0 || i >= v.len() {
        None
    } else if v[i].0 == extension {
        Some(v[i].1)
    } else {
        language_from(v, extension, i + 1)
    }
}

/// The language in which an adapter serves a file.
pub open spec fn language_for(adapter: AdapterView, path: Seq<char>) -> Option<Seq<char>> {
    match paths::extension(path) {
        Some(e) => language_from(adapter.languages, e, 0),
        None => None,
    }
}

/// The language in which an adapter serves a file.
pub fn adapter_language_id(adapter: &ServerAdapter, path: &str) -> (out: Option<String>)
    ensures
        match out {
            Some(l) => language_for(adapter@, path@) == Some(l@),
            None => language_for(adapter@, path@) is None,
        },
{
    let extension = match path_extension(path) {
        Some(e) => e,
        None => {
            return None;
        },
    };
    let mut i: usize = 0;
    while i < adapter.languages.len()
        invariant
            i <= adapter.languages@.len(),
            language_for(adapter@, path@) == language_from(
                adapter@.languages,
                extension@,
                i as int,
            ),
        decreases adapter.languages@.len() - i,
    {
        assert(adapter@.languages[i as int] == (
            adapter.languages@[i as int].extension@,
            adapter.languages@[i as int].language_id@,
        ));
        if same(adapter.languages[i].extension.as_str(), extension.as_str()) {
            return Some(adapter.languages[i].language_id.clone());
        }
        i = i + 1;
    }
    None
}

impl ServerAdapter {
    /// An adapter that holds the same.
    pub fn copy(&self) -> (out: ServerAdapter)
        ensures
            out@ == self@,
    {
        let mut languages: Vec<Language> = Vec::new();
        let mut i: usize = 0;
        while i < self.languages.len()
            invariant
                i <= self.languages@.len(),
                languages@.len() == i,
                forall|j: int|
                    0 <= j < i ==> (#[trigger] languages@[j]).extension@
                        == self.languages@[j].extension@ && languages@[j].language_id@
                        == self.languages@[j].language_id@,
            decreases self.languages@.len() - i,
        {
            languages.push(
                Language {
                    extension: self.languages[i].extension.clone(),
                    language_id: self.languages[i].language_id.clone(),
                },
            );
            i = i + 1;
        }
        assert(mappings(languages@) =~= mappings(self.languages@));
        ServerAdapter {
            id: self.id.clone(),
            command: copy_texts(&self.command),
            languages,
            root_markers: copy_texts(&self.root_markers),
            requires_approval: self.requires_approval,
            settings: self.settings.copy(),
        }
    }
}

} // verus!

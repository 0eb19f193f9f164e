//! How a session starts: what is asked for, which surface it has, what it may do and what
//! the model is told.

use vstd::prelude::*;
use vstd::string::*;
use crate::agents::outbox::among;
use crate::config::providers::Protocol;
use crate::lsp::environment;
use crate::lsp::environment::value_of;
use crate::number;
use crate::number::{parse_up_to, show, show_signed};
use crate::order;
use crate::order::sorted_distinct;
use crate::text;
use crate::text::{cat2, cat3, cat5, chars_of, join, same, split_on, trimmed};

verus! {

/// The number in a variable, where it is one.
pub open spec fn number_in(vars: Seq<(Seq<char>, Seq<char>)>, name: Seq<char>, max: nat) -> Option<
    nat,
> {
    match environment::variable(vars, name, 0) {
        Some(v) => number::parsed(v, max),
        None => None,
    }
}

fn env_number(vars: &Vec<(String, String)>, name: &str, max: u64) -> (out: Option<u64>)
    ensures
        match out {
            Some(n) => number_in(environment::variables(vars@), name@, max as nat) == Some(
                n as nat,
            ) && n <= max,
            None => number_in(environment::variables(vars@), name@, max as nat) is None,
        },
{
    match value_of(vars, name) {
        Some(v) => parse_up_to(v.as_str(), max),
        None => None,
    }
}

/// How much a task may take. The cost is not held here.
#[derive(Debug, Clone, Copy, PartialEq, Eq)]
pub struct Budget {
    pub max_turns: Option<u32>,
    pub max_tokens: Option<u64>,
    pub max_wall_s: Option<u64>,
}

/// The budget with what the environment sets. What it does not set, or sets to no number,
/// stays.
pub fn apply_budget_env(vars: &Vec<(String, String)>, base: Budget) -> (out: Budget)
    ensures
        ({
            let v = environment::variables(vars@);
            &&& out.max_turns == match number_in(v, "MEDHA_MAX_TURNS"@, u32::MAX as nat) {
                Some(n) => Some(n as u32),
                None => base.max_turns,
            }
            &&& out.max_tokens == match number_in(v, "MEDHA_MAX_TOKENS"@, u64::MAX as nat) {
                Some(n) => Some(n as u64),
                None => base.max_tokens,
            }
            &&& out.max_wall_s == match number_in(v, "MEDHA_MAX_WALL"@, u64::MAX as nat) {
                Some(n) => Some(n as u64),
                None => base.max_wall_s,
            }
        }),
{
    Budget {
        max_turns: match env_number(vars, "MEDHA_MAX_TURNS", 0xffff_ffff) {
            Some(n) => Some(n as u32),
            None => base.max_turns,
        },
        max_tokens: match env_number(vars, "MEDHA_MAX_TOKENS", u64::MAX) {
            Some(n) => Some(n),
            None => base.max_tokens,
        },
        max_wall_s: match env_number(vars, "MEDHA_MAX_WALL", u64::MAX) {
            Some(n) => Some(n),
            None => base.max_wall_s,
        },
    }
}

/// How many tools run at a time: as the environment says, else the lock file, else as
/// usual.
pub fn max_parallel_tools(vars: &Vec<(String, String)>, lock: Option<u64>, usual: u64) -> (out: u64)
    ensures
        out == match number_in(
            environment::variables(vars@),
            "MEDHA_MAX_PARALLEL_TOOLS"@,
            u64::MAX as nat,
        ) {
            Some(n) => n as u64,
            None => match lock {
                Some(n) => n,
                None => usual,
            },
        },
{
    match env_number(vars, "MEDHA_MAX_PARALLEL_TOOLS", u64::MAX) {
        Some(n) => n,
        None => match lock {
            Some(n) => n,
            None => usual,
        },
    }
}

/// What a command line asks for.
#[derive(Debug, Clone, Copy, PartialEq, Eq, Structural)]
pub enum Subcommand {
    Gate,
    Undo,
    Memory,
    Pulse,
    /// A session.
    Session,
}

/// What the first word of a command line asks for.
pub open spec fn subcommand_of(args: Seq<Seq<char>>) -> Subcommand {
    if args.len() < 2 {
        Subcommand::Session
    } else if args[1] == "gate"@ {
        Subcommand::Gate
    } else if args[1] == "undo"@ {
        Subcommand::Undo
    } else if args[1] == "memory"@ {
        Subcommand::Memory
    } else if args[1] == "pulse"@ {
        Subcommand::Pulse
    } else {
        Subcommand::Session
    }
}

/// What the first word of a command line asks for. `args` begins with the program.
pub fn subcommand(args: &Vec<String>) -> (out: Subcommand)
    ensures
        out == subcommand_of(text::views(args@)),
{
    assert(text::views(args@).len() == args@.len());
    if args.len() < 2 {
        return Subcommand::Session;
    }
    assert(text::views(args@)[1] == args@[1]@);
    let word = args[1].as_str();
    if same(word, "gate") {
        Subcommand::Gate
    } else if same(word, "undo") {
        Subcommand::Undo
    } else if same(word, "memory") {
        Subcommand::Memory
    } else if same(word, "pulse") {
        Subcommand::Pulse
    } else {
        Subcommand::Session
    }
}

/// The words of a health check ask for repairs.
pub fn wants_fix(args: &Vec<String>) -> (yes: bool)
    ensures
        yes == (text::views(args@).contains("--fix"@) || text::views(args@).contains("fix"@)),
{
    let mut i: usize = 0;
    while i < args.len()
        invariant
            i <= args@.len(),
            forall|j: int|
                0 <= j < i ==> (#[trigger] text::views(args@)[j]) != "--fix"@ && text::views(
                    args@,
                )[j] != "fix"@,
        decreases args@.len() - i,
    {
        assert(text::views(args@)[i as int] == args@[i as int]@);
        if same(args[i].as_str(), "--fix") || same(args[i].as_str(), "fix") {
            return true;
        }
        i = i + 1;
    }
    false
}

/// The options of a session.
pub struct Options {
    pub setup: bool,
    pub plain: bool,
    pub acp: bool,
    pub no_sandbox: bool,
    pub prompt: Vec<String>,
}

impl Options {
    /// The task on the command line.
    pub open spec fn task(self) -> Seq<char> {
        text::joined(text::views(self.prompt@), " "@)
    }

    /// There is a task to run.
    pub open spec fn has_task(self) -> bool {
        !self.setup && text::trim(self.task()).len() > 0
    }

    /// The task on the command line.
    pub fn prompt_text(&self) -> (out: String)
        ensures
            out@ == self.task(),
    {
        join(&self.prompt, " ")
    }

    /// The session can have a screen of its own.
    pub open spec fn screen_possible(self, terminal: bool) -> bool {
        !self.acp && !self.plain && text::trim(self.task()).len() == 0 && terminal
    }
}

/// Where a session takes place.
#[derive(Debug, Clone, Copy, PartialEq, Eq, Structural)]
pub enum Surface {
    /// An editor.
    Acp,
    /// The whole terminal.
    Tui,
    /// One task, and then the end.
    Headless,
    /// Line by line.
    Repl,
    /// There is nothing to do and nobody to ask.
    Usage,
}

/// Where a session takes place. Setting up comes before a task, and needs the screen.
pub open spec fn surface_of(o: Options, terminal: bool) -> Surface {
    if o.acp {
        Surface::Acp
    } else if o.setup || (terminal && !o.has_task() && !o.plain) {
        Surface::Tui
    } else if o.has_task() {
        Surface::Headless
    } else if terminal {
        Surface::Repl
    } else {
        Surface::Usage
    }
}

/// Where a session takes place.
pub fn surface(o: &Options, terminal: bool) -> (out: Surface)
    ensures
        out == surface_of(*o, terminal),
{
    let task = o.prompt_text();
    let plain = trimmed(task.as_str());
    let has_task = !o.setup && chars_of(plain.as_str()).len() > 0;
    if o.acp {
        Surface::Acp
    } else if o.setup || (terminal && !has_task && !o.plain) {
        Surface::Tui
    } else if has_task {
        Surface::Headless
    } else if terminal {
        Surface::Repl
    } else {
        Surface::Usage
    }
}

/// Who is asked for approvals.
#[derive(Debug, Clone, Copy, PartialEq, Eq, Structural)]
pub enum Asked {
    Editor,
    Screen,
    Terminal,
    /// Nobody: everything is denied.
    Nobody,
}

/// Who is asked for approvals.
pub open spec fn asked_of(o: Options, terminal: bool) -> Asked {
    if o.acp {
        Asked::Editor
    } else if o.setup || (terminal && !o.has_task() && !o.plain) {
        Asked::Screen
    } else if terminal {
        Asked::Terminal
    } else {
        Asked::Nobody
    }
}

/// Who is asked for approvals. Where nobody can be asked, everything is denied.
pub fn asked(o: &Options, terminal: bool) -> (out: Asked)
    ensures
        out == asked_of(*o, terminal),
{
    let task = o.prompt_text();
    let plain = trimmed(task.as_str());
    let has_task = !o.setup && chars_of(plain.as_str()).len() > 0;
    if o.acp {
        Asked::Editor
    } else if o.setup || (terminal && !has_task && !o.plain) {
        Asked::Screen
    } else if terminal {
        Asked::Terminal
    } else {
        Asked::Nobody
    }
}

/// Without an editor and without a terminal nothing is approved.
pub proof fn law_nobody_to_ask_denies(o: Options, terminal: bool)
    requires
        !o.acp,
        !terminal,
        o.setup ==> terminal,
    ensures
        asked_of(o, terminal) is Nobody,
        surface_of(o, terminal) is Headless || surface_of(o, terminal) is Usage,
{
}

/// Why a session cannot start as it was asked to.
pub fn start_fault(o: &Options, terminal: bool, configured: bool) -> (out: Option<String>)
    ensures
        text::view_of(out) == if o.setup && !terminal {
            Some("--setup opens the interactive TUI and needs a terminal"@)
        } else if !configured && !o.screen_possible(terminal) && !o.setup {
            Some(
                "no model configured. Run `medha` to add one in the TUI, or set MEDHA_BASE_URL / MEDHA_MODEL / MEDHA_API_KEY."@,
            )
        } else {
            None
        },
{
    if o.setup && !terminal {
        return Some("--setup opens the interactive TUI and needs a terminal".to_owned());
    }
    let task = o.prompt_text();
    let plain = trimmed(task.as_str());
    let possible = !o.acp && !o.plain && chars_of(plain.as_str()).len() == 0 && terminal;
    if !configured && !possible && !o.setup {
        return Some(
            "no model configured. Run `medha` to add one in the TUI, or set MEDHA_BASE_URL / MEDHA_MODEL / MEDHA_API_KEY.".to_owned(),
        );
    }
    None
}

/// Why a protocol cannot be used.
pub fn protocol_fault(base_url: &str, protocol: &Protocol) -> (out: Option<String>)
    ensures
        text::view_of(out) == if base_url@.len() > 0 && protocol is Other {
            Some(
                "protocol '"@ + protocol.name()
                    + "' is configured but its native adapter is not implemented yet"@,
            )
        } else {
            None
        },
{
    if chars_of(base_url).len() == 0 {
        return None;
    }
    match protocol {
        Protocol::Other(_) => Some(
            cat3(
                "protocol '",
                protocol.as_str(),
                "' is configured but its native adapter is not implemented yet",
            ),
        ),
        _ => None,
    }
}

/// Where the size of the context is known from.
#[derive(Debug, Clone, Copy, PartialEq, Eq, Structural)]
pub enum ContextSource {
    Configured,
    Endpoint,
    ModelsDev,
}

/// The size of the context and where it is known from: as configured, else as the endpoint
/// reports it, else as the public list of models has it.
pub fn context_window(configured: Option<u32>, endpoint: Option<u32>, listed: Option<u32>) -> (out:
    Option<(u32, ContextSource)>)
    ensures
        out == match (configured, endpoint, listed) {
            (Some(n), _, _) => Some((n, ContextSource::Configured)),
            (None, Some(n), _) => Some((n, ContextSource::Endpoint)),
            (None, None, Some(n)) => Some((n, ContextSource::ModelsDev)),
            _ => None,
        },
{
    match (configured, endpoint, listed) {
        (Some(n), _, _) => Some((n, ContextSource::Configured)),
        (None, Some(n), _) => Some((n, ContextSource::Endpoint)),
        (None, None, Some(n)) => Some((n, ContextSource::ModelsDev)),
        _ => None,
    }
}

/// What is said of the size of the context.
pub open spec fn context_lines(model: Seq<char>, window: Option<(u32, ContextSource)>) -> Seq<
    Seq<char>,
> {
    if model.len() == 0 {
        seq![]
    } else {
        match window {
            Some((n, source)) => {
                let first = "context window: "@ + number::decimal(n as nat) + " tokens ("@ + (
                match source {
                    ContextSource::Configured => "config/env"@,
                    ContextSource::Endpoint => "discovered from /v1/models"@,
                    ContextSource::ModelsDev => "models.dev"@,
                }) + ") — compaction enabled"@;
                if source is ModelsDev {
                    seq![
                        first,
                        "  note: that's "@ + model
                            + "'s spec maximum from models.dev — your deployment may serve less (e.g. a reduced KV-cache limit). If requests get rejected for context length, set MEDHA_MAX_CTX to the real value your endpoint serves."@,
                    ]
                } else {
                    seq![first]
                }
            },
            None => seq![
                "note: context window unknown for '"@ + model
                    + "' (not reported by the server or found on models.dev) — compaction disabled. Set MEDHA_MAX_CTX=<tokens> to enable it."@,
            ],
        }
    }
}

/// What is said of the size of the context.
pub fn context_notice(model: &str, window: Option<(u32, ContextSource)>) -> (out: Vec<String>)
    ensures
        text::views(out@) == context_lines(model@, window),
{
    let mut out: Vec<String> = Vec::new();
    if chars_of(model).len() == 0 {
        assert(text::views(out@) =~= seq![]);
        return out;
    }
    match window {
        Some((n, source)) => {
            let n = show(n as u64);
            let from = match source {
                ContextSource::Configured => "config/env",
                ContextSource::Endpoint => "discovered from /v1/models",
                ContextSource::ModelsDev => "models.dev",
            };
            let first = cat5(
                "context window: ",
                n.as_str(),
                " tokens (",
                from,
                ") — compaction enabled",
            );
            out.push(first);
            match source {
                ContextSource::ModelsDev => {
                    let second = cat3(
                        "  note: that's ",
                        model,
                        "'s spec maximum from models.dev — your deployment may serve less (e.g. a reduced KV-cache limit). If requests get rejected for context length, set MEDHA_MAX_CTX to the real value your endpoint serves.",
                    );
                    out.push(second);
                    assert(text::views(out@) =~= seq![first@, second@]);
                },
                _ => {
                    assert(text::views(out@) =~= seq![first@]);
                },
            }
        },
        None => {
            let only = cat3(
                "note: context window unknown for '",
                model,
                "' (not reported by the server or found on models.dev) — compaction disabled. Set MEDHA_MAX_CTX=<tokens> to enable it.",
            );
            out.push(only);
            assert(text::views(out@) =~= seq![only@]);
        },
    }
    out
}

/// The parts of a list with commas, without the blank ones.
pub open spec fn parts_of(raw: Seq<char>) -> Seq<Seq<char>> {
    kept(text::split(raw, ','))
}

/// Texts without the white space around them, those that are not blank.
pub open spec fn kept(v: Seq<Seq<char>>) -> Seq<Seq<char>>
    decreases v.len(),
{
    if v.len() == 0 {
        seq![]
    } else {
        let head = kept(v.drop_last());
        if text::trim(v.last()).len() > 0 {
            head.push(text::trim(v.last()))
        } else {
            head
        }
    }
}

/// The tools that a word stands for.
pub open spec fn tools_of(word: Seq<char>) -> Seq<Seq<char>> {
    if word == "all"@ {
        seq!["fs.write"@, "fs.edit"@, "shell.exec"@]
    } else if word == "writes"@ {
        seq!["fs.write"@, "fs.edit"@]
    } else if word == "shell"@ {
        seq!["shell.exec"@]
    } else {
        seq![word]
    }
}

/// The tools that words stand for.
pub open spec fn all_tools(words: Seq<Seq<char>>) -> Seq<Seq<char>>
    decreases words.len(),
{
    if words.len() == 0 {
        seq![]
    } else {
        all_tools(words.drop_last()) + tools_of(words.last())
    }
}

/// The tools that take an approval: those of the lock file, the shell and what the
/// environment adds; none where it says so.
pub open spec fn gated(base: Seq<Seq<char>>, raw: Seq<char>) -> Seq<Seq<char>> {
    if parts_of(raw).contains("none"@) {
        seq![]
    } else {
        order::distinct(base.push("shell.exec"@) + all_tools(parts_of(raw)))
    }
}

fn read_parts(raw: &str) -> (out: Vec<String>)
    ensures
        text::views(out@) == parts_of(raw@),
{
    let parts = split_on(&chars_of(raw), ',');
    let ghost all = text::split(raw@, ',');
    let mut out: Vec<String> = Vec::new();
    let mut i: usize = 0;
    assert(text::views(out@) =~= kept(all.take(0)));
    while i < parts.len()
        invariant
            i <= parts@.len(),
            text::views(parts@) == all,
            text::views(out@) == kept(all.take(i as int)),
        decreases parts@.len() - i,
    {
        assert(all.take(i + 1).drop_last() =~= all.take(i as int));
        assert(all.take(i + 1).last() == parts@[i as int]@);
        let plain = trimmed(parts[i].as_str());
        if chars_of(plain.as_str()).len() > 0 {
            let ghost was = out@;
            out.push(plain);
            assert(text::views(out@) =~= text::views(was).push(plain@));
        }
        i = i + 1;
    }
    assert(all.take(i as int) =~= all);
    out
}

fn add_tools(word: &String, out: &mut Vec<String>)
    ensures
        text::views(final(out)@) == text::views(old(out)@) + tools_of(word@),
{
    let ghost was = out@;
    if same(word.as_str(), "all") {
        out.push("fs.write".to_owned());
        out.push("fs.edit".to_owned());
        out.push("shell.exec".to_owned());
        assert(text::views(out@) =~= text::views(was) + seq![
            "fs.write"@,
            "fs.edit"@,
            "shell.exec"@,
        ]);
    } else if same(word.as_str(), "writes") {
        out.push("fs.write".to_owned());
        out.push("fs.edit".to_owned());
        assert(text::views(out@) =~= text::views(was) + seq!["fs.write"@, "fs.edit"@]);
    } else if same(word.as_str(), "shell") {
        out.push("shell.exec".to_owned());
        assert(text::views(out@) =~= text::views(was) + seq!["shell.exec"@]);
    } else {
        out.push(word.clone());
        assert(text::views(out@) =~= text::views(was) + seq![word@]);
    }
}

/// The tools that take an approval, in order, each once. `raw` is what the environment
/// says.
pub fn approve_list(base: Vec<String>, raw: &str) -> (out: Vec<String>)
    ensures
        text::views(out@) == gated(text::views(base@), raw@),
{
    let parts = read_parts(raw);
    if among(&parts, "none") {
        let none: Vec<String> = Vec::new();
        assert(text::views(none@) =~= seq![]);
        return none;
    }
    let ghost words = text::views(parts@);
    let mut all = base;
    let ghost was = all@;
    all.push("shell.exec".to_owned());
    let ghost start = text::views(all@);
    assert(start =~= text::views(was).push("shell.exec"@));
    let mut i: usize = 0;
    assert(text::views(all@) =~= start + all_tools(words.take(0)));
    while i < parts.len()
        invariant
            i <= parts@.len(),
            words == text::views(parts@),
            text::views(all@) == start + all_tools(words.take(i as int)),
        decreases parts@.len() - i,
    {
        assert(words.take(i + 1).drop_last() =~= words.take(i as int));
        assert(words.take(i + 1).last() == parts@[i as int]@);
        add_tools(&parts[i], &mut all);
        i = i + 1;
        assert(text::views(all@) =~= start + all_tools(words.take(i as int)));
    }
    assert(words.take(i as int) =~= words);
    sorted_distinct(&all)
}

/// The shell takes an approval unless the environment says that nothing does.
pub proof fn law_shell_is_gated(base: Seq<Seq<char>>, raw: Seq<char>)
    requires
        !parts_of(raw).contains("none"@),
    ensures
        order::holds(gated(base, raw), "shell.exec"@),
        forall|i: int| 0 <= i < base.len() ==> order::holds(gated(base, raw), #[trigger] base[i]),
{
    let all = base.push("shell.exec"@) + all_tools(parts_of(raw));
    order::lemma_distinct(all);
    assert(all[base.len() as int] == "shell.exec"@);
    assert(order::holds(all, "shell.exec"@));
    assert forall|i: int| 0 <= i < base.len() implies order::holds(
        gated(base, raw),
        #[trigger] base[i],
    ) by {
        assert(all[i] == base[i]);
        assert(order::holds(all, base[i]));
    }
}

/// The check that runs after a change: what the environment says where that is not blank,
/// else what the lock file says.
pub fn verify_command(vars: &Vec<(String, String)>, lock: &Option<String>) -> (out: Option<String>)
    ensures
        text::view_of(out) == match environment::variable(
            environment::variables(vars@),
            "MEDHA_VERIFY"@,
            0,
        ) {
            Some(v) => if text::trim(v).len() > 0 {
                Some(v)
            } else {
                text::view_of(*lock)
            },
            None => text::view_of(*lock),
        },
{
    match value_of(vars, "MEDHA_VERIFY") {
        Some(v) => {
            let plain = trimmed(v.as_str());
            if chars_of(plain.as_str()).len() > 0 {
                return Some(v.clone());
            }
        },
        None => {},
    }
    match lock {
        Some(c) => Some(c.clone()),
        None => None,
    }
}

/// What is reported of a check: the command and its exit code, or -1 where it has none.
pub fn verify_summary(command: &str, code: Option<i32>) -> (out: String)
    ensures
        out@ == "`"@ + command@ + "` exit "@ + number::signed_decimal(
            match code {
                Some(c) => c as int,
                None => -1,
            },
        ),
{
    let code: i64 = match code {
        Some(c) => c as i64,
        None => -1,
    };
    let code = show_signed(code);
    let head = cat3("`", command, "` exit ");
    cat2(head.as_str(), code.as_str())
}

} // verus!

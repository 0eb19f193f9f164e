use medha::agents::outbox::EventKind;
use medha::config::providers::{Protocol, ReasoningSupport};
use medha::json::{array_of_texts, object0, object1, object2, string, Json};
use medha::session::commands::{
    effort_changed, effort_command, effort_label, read_line, think_changed, think_command, Effort,
    Line, Reasoning, ReasoningCommand,
};
use medha::session::display::{
    approval_choices, approval_question, compaction, read_approval, result_summary, salient_arg,
    tool_call, tool_result, verify_line, Approval,
};
use medha::session::jail::{choose_backend, extra_writable, Backend, Jail, Machine};
use medha::session::legacy::{migrate_legacy_state, move_failed, own_ignore_file};
use medha::session::memory::{
    edited_claim, editor_command, found_line, list_line, memory_scope, not_found, search_query,
    Scope,
};
use medha::session::preamble::{
    missing_session, persona, resume_target, stopped, system_prompt, Persona, Resume,
};
use medha::session::recall::{
    approval, edit_evidence, find_memory, finish_edit, memory_command, show_found, MemoryCommand,
    MemoryEntry, MemoryOp, MemoryStep, TracedEvent,
};
use medha::session::startup::{
    apply_budget_env, approve_list, asked, context_notice, context_window, max_parallel_tools,
    protocol_fault, start_fault, subcommand, surface, verify_command, verify_summary, wants_fix,
    Asked, Budget, ContextSource, Options, Subcommand, Surface,
};
use medha::session::undo::{
    recent_writes, session_of, show_plan, show_writes, undo_named, undo_target, Logged,
    LoggedSession, Restored, Undo,
};

fn words(list: &[&str]) -> Vec<String> {
    list.iter().map(|w| w.to_string()).collect()
}

fn vars(list: &[(&str, &str)]) -> Vec<(String, String)> {
    list.iter().map(|(k, v)| (k.to_string(), v.to_string())).collect()
}

fn options(prompt: &[&str]) -> Options {
    Options { setup: false, plain: false, acp: false, no_sandbox: false, prompt: words(prompt) }
}

#[test]
fn a_call_shows_its_salient_argument() {
    let args = object2("a", string("first"), "path", string("src/lib.rs"));
    assert_eq!(salient_arg("fs.read", &args), "(src/lib.rs)");
    assert_eq!(salient_arg("other", &args), "(first)");
    assert_eq!(salient_arg("other", &object0()), "");
    let long = "x".repeat(61);
    assert_eq!(
        salient_arg("shell.exec", &object1("command", string(&long))),
        format!("({}…)", "x".repeat(60))
    );
    assert_eq!(tool_call("grep", &object1("pattern", string("p"))), "\n⏺ grep(p)");
}

#[test]
fn a_result_is_summed_up_in_a_line() {
    assert_eq!(result_summary("web.search", &object1("count", Json::Unsigned(3))), "3 results");
    assert_eq!(
        result_summary(
            "grep",
            &object2("count", Json::Unsigned(2), "truncated", Json::Bool(true))
        ),
        "2 matches (truncated)"
    );
    assert_eq!(result_summary("fs.read", &object1("content", string("é"))), "2 chars");
    assert_eq!(
        result_summary("fs.list", &object1("entries", array_of_texts(&words(&["a", "b"])))),
        "2 entries"
    );
    assert_eq!(result_summary("fs.write", &object1("path", string("x"))), "wrote x");
    assert_eq!(
        result_summary("web.fetch", &object2("title", string("T"), "content", string("abc"))),
        "T (3 chars)"
    );
    assert_eq!(
        result_summary(
            "shell.exec",
            &object2("exit_code", Json::Negative(-1), "stdout", string("\n \r\nhello\r\nworld"))
        ),
        "exit -1 · hello"
    );
    assert_eq!(
        result_summary("shell.exec", &object1("exit_code", Json::Unsigned(0))),
        "exit 0"
    );
    assert_eq!(result_summary("shell.exec", &object0()), "ran");
    assert_eq!(
        result_summary(
            "read_artifact",
            &object2("length", Json::Unsigned(5), "total_size", Json::Unsigned(9))
        ),
        "5 of 9 bytes"
    );
    assert_eq!(result_summary("anything", &object0()), "ok");
    assert_eq!(
        tool_result("fs.edit", true, &object1("diff", string("+++ b\n+a\n-b\n c"))),
        ["+++ b", "\x1b[32m+a\x1b[0m", "\x1b[31m-b\x1b[0m", " c"]
    );
    assert_eq!(
        tool_result("x", false, &object0()),
        ["  ⎿ \x1b[31m✗ error\x1b[0m"]
    );
    assert_eq!(tool_result("x", true, &object0()), ["  ⎿ ok"]);
    assert_eq!(compaction(9, 4, false), "\n↯ pruned context 9→4 tokens");
    assert_eq!(verify_line(true, "fine"), "\n\x1b[32m✔ verify: fine\x1b[0m");
}

#[test]
fn an_escalated_action_is_never_remembered() {
    assert_eq!(read_approval(" ALWAYS \n", false), Approval::Always);
    assert_eq!(read_approval("always", true), Approval::Deny);
    assert_eq!(read_approval("2", true), Approval::Deny);
    assert_eq!(read_approval("y", true), Approval::Once);
    assert_eq!(read_approval("", false), Approval::Deny);
    assert_eq!(approval_question("rm", true).len(), 2);
    assert_eq!(approval_question("rm", false), ["\n\x1b[33m⚠ approve rm?\x1b[0m"]);
    assert!(!approval_choices(true).contains("always"));
}

#[test]
fn the_surface_follows_the_options() {
    assert_eq!(surface(&options(&[]), true), Surface::Tui);
    assert_eq!(surface(&options(&["do", "it"]), true), Surface::Headless);
    assert_eq!(surface(&options(&[]), false), Surface::Usage);
    let plain = Options { plain: true, ..options(&[]) };
    assert_eq!(surface(&plain, true), Surface::Repl);
    let acp = Options { acp: true, ..options(&["x"]) };
    assert_eq!(surface(&acp, true), Surface::Acp);
    let setup = Options { setup: true, ..options(&["x"]) };
    assert_eq!(surface(&setup, true), Surface::Tui);
    assert_eq!(asked(&options(&["x"]), false), Asked::Nobody);
    assert_eq!(asked(&options(&["x"]), true), Asked::Terminal);
    assert_eq!(asked(&acp, false), Asked::Editor);
    assert_eq!(asked(&options(&[]), true), Asked::Screen);
    assert_eq!(
        start_fault(&setup, false, true).as_deref(),
        Some("--setup opens the interactive TUI and needs a terminal")
    );
    assert!(start_fault(&options(&["x"]), true, false).unwrap().starts_with("no model configured"));
    assert_eq!(start_fault(&options(&[]), true, false), None);
    assert!(protocol_fault("http://u", &Protocol::Other("odd".into())).is_some());
    assert!(protocol_fault("", &Protocol::Other("odd".into())).is_none());
    assert!(protocol_fault("http://u", &Protocol::OpenAiChat).is_none());
}

#[test]
fn the_first_word_names_a_command() {
    assert_eq!(subcommand(&words(&["medha", "pulse", "--fix"])), Subcommand::Pulse);
    assert_eq!(subcommand(&words(&["medha", "gate"])), Subcommand::Gate);
    assert_eq!(subcommand(&words(&["medha", "undo"])), Subcommand::Undo);
    assert_eq!(subcommand(&words(&["medha", "memory"])), Subcommand::Memory);
    assert_eq!(subcommand(&words(&["medha", "please", "gate"])), Subcommand::Session);
    assert_eq!(subcommand(&words(&["medha"])), Subcommand::Session);
    assert!(wants_fix(&words(&["x", "fix"])));
    assert!(!wants_fix(&words(&["fixed"])));
}

#[test]
fn a_budget_is_overridden_by_numbers_alone() {
    let base = Budget { max_turns: Some(5), max_tokens: None, max_wall_s: Some(60) };
    let b = apply_budget_env(
        &vars(&[("MEDHA_MAX_TURNS", "many"), ("MEDHA_MAX_TOKENS", "+9"), ("MEDHA_MAX_WALL", "7")]),
        base,
    );
    assert_eq!((b.max_turns, b.max_tokens, b.max_wall_s), (Some(5), Some(9), Some(7)));
    assert_eq!(max_parallel_tools(&vars(&[]), None, 4), 4);
    assert_eq!(max_parallel_tools(&vars(&[("MEDHA_MAX_PARALLEL_TOOLS", "2")]), Some(3), 4), 2);
}

#[test]
fn the_shell_takes_an_approval_unless_nothing_does() {
    assert_eq!(approve_list(words(&[]), ""), ["shell.exec"]);
    assert_eq!(
        approve_list(words(&["web.fetch", "fs.edit"]), " writes, ,custom,shell"),
        ["custom", "fs.edit", "fs.write", "shell.exec", "web.fetch"]
    );
    assert_eq!(approve_list(words(&[]), "all"), ["fs.edit", "fs.write", "shell.exec"]);
    assert!(approve_list(words(&["fs.edit"]), "writes,none").is_empty());
}

#[test]
fn the_context_window_is_told() {
    assert_eq!(
        context_window(None, Some(8), Some(9)),
        Some((8, ContextSource::Endpoint))
    );
    assert_eq!(context_window(None, None, None), None);
    assert_eq!(
        context_notice("m", Some((100, ContextSource::Configured))),
        ["context window: 100 tokens (config/env) — compaction enabled"]
    );
    assert_eq!(context_notice("m", Some((100, ContextSource::ModelsDev))).len(), 2);
    assert!(context_notice("", None).is_empty());
    assert!(context_notice("m", None)[0].contains("unknown for 'm'"));
    assert_eq!(
        verify_command(&vars(&[("MEDHA_VERIFY", " ")]), &Some("make".into())).as_deref(),
        Some("make")
    );
    assert_eq!(
        verify_command(&vars(&[("MEDHA_VERIFY", "cargo check")]), &Some("make".into())).as_deref(),
        Some("cargo check")
    );
    assert_eq!(verify_summary("make", Some(2)), "`make` exit 2");
    assert_eq!(verify_summary("make", None), "`make` exit -1");
}

#[test]
fn a_missing_jail_falls_back_to_the_native_one() {
    let jail = Jail { backend: Backend::Container, runtime: None, image: None, host: None };
    let all = Machine { runtime_found: true, ssh_found: true, native_available: true };
    let (backend, said) = choose_backend(&jail, &vars(&[]), false, all);
    assert_eq!(backend, Backend::Native);
    assert_eq!(said.len(), 1);
    assert_eq!(choose_backend(&jail, &vars(&[]), true, all).0, Backend::Host);
    assert_eq!(
        choose_backend(&jail, &vars(&[("MEDHA_SANDBOX", " off ")]), false, all).0,
        Backend::Host
    );
    let ready = Jail { image: Some("i".into()), ..jail };
    assert_eq!(choose_backend(&ready, &vars(&[]), false, all).0, Backend::Container);
    let bare = Machine { runtime_found: false, ssh_found: false, native_available: false };
    let (backend, said) = choose_backend(&ready, &vars(&[]), false, bare);
    assert_eq!(backend, Backend::Native);
    assert!(said[0].contains("'docker' not found"));
    assert!(said[1].contains("OS-native sandbox unavailable"));
    let ssh = Jail { backend: Backend::Ssh, runtime: None, image: None, host: Some("h".into()) };
    assert!(choose_backend(&ssh, &vars(&[]), false, bare).1[0].contains("`ssh` not found"));
    let paths = extra_writable(words(&["/x"]), Some("/home/u"));
    assert_eq!(paths[0], "/x");
    assert_eq!(paths[1], "/home/u/.cargo");
    assert_eq!(paths.len(), 9);
    assert_eq!(extra_writable(words(&["/x"]), None).len(), 1);
}

#[test]
fn the_model_is_told_who_and_where_it_is() {
    let text = system_prompt("I am.", "Monday", "/w", "notes", "");
    assert!(text.starts_with("I am.\n\nEnvironment:\n- Today's date: Monday\n- Workspace: /w\n\n"));
    assert!(text.ends_with("\n\nnotes"));
    let blocked = Some(Persona { content: "bad".into(), blocked: true });
    assert_eq!(persona(&blocked, &Some("mine".into())).as_deref(), Some("mine"));
    let fine = Some(Persona { content: "good".into(), blocked: false });
    assert_eq!(persona(&fine, &Some("mine".into())).as_deref(), Some("good"));
    assert_eq!(stopped("turn limit", "go on"), "\n(stopped: turn limit reached — go on)");
}

#[test]
fn a_session_is_resumed_by_id_or_as_the_last() {
    let sessions = words(&["01D39ZY06FGSCTVN4T2V9PKHFZ"]);
    let id = Some(" 01d39zy06fgsctvn4t2v9pkhf0 ".to_string());
    match resume_target(&id, false, &sessions) {
        Resume::Session(s) => assert_eq!(s, "01D39ZY06FGSCTVN4T2V9PKHF0"),
        _ => panic!("no session"),
    }
    match resume_target(&Some("x".into()), true, &sessions) {
        Resume::Invalid(m) => assert_eq!(m, "invalid session id 'x'"),
        _ => panic!("not refused"),
    }
    match resume_target(&None, true, &sessions) {
        Resume::Session(s) => assert_eq!(s, sessions[0]),
        _ => panic!("no session"),
    }
    assert!(matches!(resume_target(&None, true, &words(&[])), Resume::NoneYet));
    assert!(matches!(resume_target(&None, false, &sessions), Resume::Fresh));
    assert_eq!(
        missing_session("s", 0).as_deref(),
        Some("session s has no events (not found)")
    );
    assert_eq!(missing_session("s", 1), None);
}

#[test]
fn migrates_state_out_of_workspace_and_keeps_committed_config() {
    let old = words(&["events.db", "events.db-wal", "logs", "skills"]);
    let moves = migrate_legacy_state("/w", "/state", &old, &words(&[]));
    let names: Vec<(&str, &str)> =
        moves.iter().map(|m| (m.from.as_str(), m.to.as_str())).collect();
    assert_eq!(
        names,
        [
            ("/w/.medha/events.db", "/state/events.db"),
            ("/w/.medha/events.db-wal", "/state/events.db-wal"),
            ("/w/.medha/logs", "/state/logs"),
        ]
    );
    assert!(move_failed(&moves[0], "denied").contains("/w/.medha/events.db → /state/events.db"));
    assert!(own_ignore_file("# MEDHA local state\n*\n"));
    assert!(!own_ignore_file("*\n"));
}

#[test]
fn does_not_clobber_existing_state() {
    let old = words(&["events.db", "logs"]);
    let moves = migrate_legacy_state("/w", "/state", &old, &words(&["events.db"]));
    assert_eq!(moves.len(), 1);
    assert_eq!(moves[0].to, "/state/logs");
}

#[test]
fn commands_are_read_from_a_line() {
    assert!(matches!(read_line("   "), Line::Nothing));
    match read_line(" hello ") {
        Line::Message(m) => assert_eq!(m, "hello"),
        _ => panic!("not a message"),
    }
    match read_line("/ think on") {
        Line::Think(rest) => assert_eq!(rest, " on"),
        _ => panic!("not a command"),
    }
    assert!(matches!(read_line("/effort high"), Line::Effort(_)));
    assert!(matches!(read_line("/quit"), Line::Exit));
    assert!(matches!(read_line("/help"), Line::Help));
    assert!(matches!(read_line("/clear"), Line::Clear));
    assert!(matches!(read_line("/status"), Line::Status));
    match read_line("/odd") {
        Line::Unknown(m) => assert_eq!(m, "unknown command: /odd   (try /help)"),
        _ => panic!("known"),
    }
}

#[test]
fn reasoning_is_switched() {
    let now = Reasoning { enabled: None, effort: Some(Effort::Low) };
    assert!(matches!(think_command("", now), ReasoningCommand::Show));
    match think_command(" on", now) {
        ReasoningCommand::Change(r) => {
            assert_eq!((r.enabled, r.effort), (Some(true), Some(Effort::Low)))
        }
        _ => panic!("not a change"),
    }
    match think_command("off", now) {
        ReasoningCommand::Change(r) => assert_eq!((r.enabled, r.effort), (Some(false), None)),
        _ => panic!("not a change"),
    }
    assert!(matches!(think_command("maybe", now), ReasoningCommand::Usage(_)));
    assert_eq!(think_changed(now, &None), "thinking: server default  |  effort: low");
    assert_eq!(think_changed(now, &Some("no".into())), "thinking unchanged: no");
    match effort_command(" high ") {
        ReasoningCommand::Change(r) => {
            assert_eq!((r.enabled, r.effort), (Some(true), Some(Effort::High)))
        }
        _ => panic!("not a change"),
    }
    match effort_command("") {
        ReasoningCommand::Usage(m) => assert_eq!(m, "usage: /effort [minimal|low|medium|high]"),
        _ => panic!("not refused"),
    }
    assert_eq!(
        effort_changed(Effort::High, ReasoningSupport::Unknown, &None),
        "effort: high — requested; profile support is unverified"
    );
    assert_eq!(effort_changed(Effort::High, ReasoningSupport::Effort, &None), "effort: high");
    assert_eq!(effort_label(None), "default");
}

#[test]
fn memories_are_found_by_scope() {
    assert!(matches!(memory_scope(&None), Ok(Scope::Project)));
    assert!(matches!(memory_scope(&Some("user".into())), Ok(Scope::User)));
    assert_eq!(
        memory_scope(&Some("x".into())).err().unwrap(),
        "unknown memory scope 'x' (project|user)"
    );
    assert_eq!(
        list_line("n", "project", "user", 3, true, "about"),
        "n  [project · user · 3d · pinned]  about"
    );
    assert_eq!(
        found_line("n", "user", "tool", "about", "a\nb"),
        "n  [user · tool]  about\n  a b"
    );
    assert_eq!(search_query(&words(&["a", "b"])).unwrap(), "a b");
    assert!(search_query(&words(&[" "])).is_err());
    assert_eq!(editor_command(&Some("code  -w".into())).unwrap(), ["code", "-w"]);
    assert_eq!(editor_command(&Some(" ".into())).unwrap_err(), "$EDITOR is empty");
    assert_eq!(editor_command(&None).unwrap_err(), "$EDITOR is not set");
    assert_eq!(edited_claim(" a \n\n").unwrap(), " a");
    assert_eq!(edited_claim(" \n").unwrap_err(), "edited memory claim is empty");
    assert_eq!(not_found("n", Some("user")), "memory 'n' not found in user scope");
    assert_eq!(not_found("n", None), "memory 'n' not found");
}

fn entry(name: &str, scope: Scope) -> MemoryEntry {
    MemoryEntry {
        name: name.into(),
        scope,
        kind: "fact".into(),
        trust: "tool".into(),
        confidence: "observed".into(),
        version: 4,
        pinned: false,
        description: "about".into(),
        claim: "a\nb".into(),
        provenance: words(&["E1", "E2"]),
        sessions: words(&["S1"]),
        age: 2,
    }
}

fn recall(command: MemoryCommand, files: &[&str]) -> MemoryStep {
    let entries =
        vec![entry("both", Scope::User), entry("both", Scope::Project), entry("mine", Scope::User)];
    let events =
        vec![TracedEvent { id: "E1".into(), session: "S1".into(), kind: "user_message".into() }];
    memory_command(&command, &entries, &events, &words(files))
}

fn said(step: MemoryStep) -> Vec<String> {
    match step {
        MemoryStep::Say(lines) => lines,
        MemoryStep::Fail(m) => vec![format!("failed: {m}")],
        _ => panic!("neither said nor failed"),
    }
}

#[test]
fn memories_are_listed_and_shown() {
    assert_eq!(
        said(recall(MemoryCommand::List { scope: Some("project".into()) }, &[])),
        ["both  [project · tool · 2d]  about"]
    );
    assert_eq!(said(recall(MemoryCommand::List { scope: None }, &[])).len(), 3);
    assert_eq!(
        said(recall(MemoryCommand::List { scope: Some("x".into()) }, &[])),
        ["failed: unknown memory scope 'x' (project|user)"]
    );
    assert_eq!(
        said(memory_command(&MemoryCommand::List { scope: None }, &vec![], &vec![], &vec![])),
        ["No memories found."]
    );
    assert_eq!(
        said(recall(MemoryCommand::Show { name: "both".into(), scope: None }, &[])),
        [
            "both [project]",
            "kind: fact",
            "trust: tool",
            "confidence: observed",
            "version: 4",
            "pinned: false",
            "description: about",
            "claim:\na\nb",
            "provenance:",
            "  E1  session=S1  kind=user_message",
            "  E2  (event not found locally)",
        ]
    );
    assert_eq!(
        said(recall(MemoryCommand::Show { name: "mine".into(), scope: Some("project".into()) }, &[])),
        ["failed: memory 'mine' not found"]
    );
    let both = vec![entry("a", Scope::User), entry("a", Scope::Project), entry("b", Scope::User)];
    assert_eq!(find_memory(&both, &None, "a").unwrap(), Some(1));
    assert_eq!(find_memory(&both, &None, "b").unwrap(), Some(2));
    assert_eq!(find_memory(&both, &Some("user".into()), "a").unwrap(), Some(0));
    assert_eq!(find_memory(&both, &Some("project".into()), "b").unwrap(), None);
    assert!(find_memory(&both, &Some("x".into()), "a").is_err());
}

#[test]
fn memories_are_searched() {
    match recall(MemoryCommand::Search { query: words(&["two", "words"]) }, &[]) {
        MemoryStep::Search(q, most) => assert_eq!((q.as_str(), most), ("two words", 20)),
        _ => panic!("no search"),
    }
    assert_eq!(
        said(recall(MemoryCommand::Search { query: words(&[" "]) }, &[])),
        ["failed: memory search needs a non-empty query"]
    );
    assert_eq!(
        show_found(&vec![entry("n", Scope::User)]),
        ["n  [user · tool]  about\n  a b"]
    );
}

#[test]
fn memories_are_edited() {
    let found = match recall(MemoryCommand::Edit { name: "mine".into(), scope: None }, &[]) {
        MemoryStep::Edit(e) => e,
        _ => panic!("no edit"),
    };
    assert_eq!(edit_evidence("mine"), "CLI memory edit: mine");
    match finish_edit(found, "new \n", "user", "user_stated", "E9", "S9") {
        MemoryStep::Record(MemoryOp::Update(e), line) => {
            assert_eq!(line, "Updated 'mine' through the event log.");
            assert_eq!((e.claim.as_str(), e.version, e.age), ("new", 5, 0));
            assert_eq!((e.trust.as_str(), e.confidence.as_str()), ("user", "user_stated"));
            assert_eq!(e.provenance, ["E1", "E2", "E9"]);
            assert_eq!(e.sessions, ["S1", "S9"]);
            assert_eq!(e.description, "about");
        }
        _ => panic!("no update"),
    }
    assert_eq!(
        said(finish_edit(entry("n", Scope::User), " \n", "user", "user_stated", "E", "S")),
        ["failed: edited memory claim is empty"]
    );
}

#[test]
fn only_known_memories_change() {
    match recall(MemoryCommand::Forget { name: "both".into(), scope: None }, &[]) {
        MemoryStep::Record(MemoryOp::Forget(scope, name), line) => {
            assert_eq!((scope, name.as_str()), (Scope::Project, "both"));
            assert_eq!(line, "Forgot 'both'.");
        }
        _ => panic!("not forgotten"),
    }
    assert_eq!(
        said(recall(MemoryCommand::Forget { name: "mine".into(), scope: None }, &[])),
        ["failed: memory 'mine' not found in project scope"]
    );
    let pin = |off: bool| MemoryCommand::Pin { name: "mine".into(), scope: Some("user".into()), off };
    match recall(pin(false), &[]) {
        MemoryStep::Record(MemoryOp::Pin(scope, _, pinned), line) => {
            assert_eq!((scope, pinned), (Scope::User, true));
            assert_eq!(line, "Pinned 'mine'.");
        }
        _ => panic!("not pinned"),
    }
    match recall(pin(true), &[]) {
        MemoryStep::Record(MemoryOp::Pin(_, _, pinned), line) => {
            assert!(!pinned);
            assert_eq!(line, "Unpinned 'mine'.");
        }
        _ => panic!("not unpinned"),
    }
}

#[test]
fn pending_memories_are_listed_and_approved() {
    assert_eq!(
        said(recall(MemoryCommand::Pending, &["b.json", "note.txt", "a.json"])),
        ["a", "b"]
    );
    assert_eq!(said(recall(MemoryCommand::Pending, &[])), ["No pending memory writes."]);
    let id = "01d39zy06fgsctvn4t2v9pkhf0";
    match recall(MemoryCommand::Approve { id: id.into() }, &[]) {
        MemoryStep::Approve(file, line) => {
            assert_eq!(file, "01D39ZY06FGSCTVN4T2V9PKHF0.json");
            assert_eq!(line, "Approved pending memory 01D39ZY06FGSCTVN4T2V9PKHF0.");
        }
        _ => panic!("not approved"),
    }
    assert_eq!(
        said(recall(MemoryCommand::Approve { id: "x".into() }, &[])),
        ["failed: pending id must be a ULID"]
    );
    assert!(matches!(approval(&Some("I".into())), MemoryStep::Approve(f, _) if f == "I.json"));
    assert_eq!(said(approval(&None)), ["failed: pending id must be a ULID"]);
}

fn write(id: &str, path: &str) -> Logged {
    Logged {
        id: id.into(),
        kind: EventKind::ToolObs,
        payload: object1(
            "payload",
            object2("snapshot", Json::Null, "path", string(path)),
        ),
    }
}

#[test]
fn recent_writes_come_newest_first() {
    let read = Logged {
        id: "r".into(),
        kind: EventKind::ToolObs,
        payload: object1("payload", object1("path", string("x"))),
    };
    let log = vec![
        LoggedSession { id: "new".into(), events: vec![write("1", "a"), read, write("2", "b")] },
        LoggedSession { id: "old".into(), events: vec![write("3", "c")] },
    ];
    let ids = |n: usize| -> Vec<String> {
        recent_writes(&log, n).iter().map(|w| w.id.clone()).collect()
    };
    assert_eq!(ids(10), ["2", "1", "3"]);
    assert_eq!(ids(1), ["2"]);
    assert_eq!(session_of(&log, "3").as_deref(), Some("old"));
    assert_eq!(session_of(&log, "9"), None);
}

fn undone(undo: Undo) -> String {
    match undo {
        Undo::At(session, event) => format!("{session} {event}"),
        Undo::Nothing(line) => line,
        Undo::Fail(m) => format!("failed: {m}"),
    }
}

#[test]
fn the_latest_write_is_undone() {
    let id = "01D39ZY06FGSCTVN4T2V9PKHF0";
    let log = vec![
        LoggedSession { id: "new".into(), events: vec![write("1", "a"), write("2", "b")] },
        LoggedSession { id: "old".into(), events: vec![write(id, "c")] },
    ];
    assert_eq!(undone(undo_target(&None, &log)), "new 2");
    assert_eq!(
        undone(undo_target(&None, &vec![])),
        "Nothing to undo — no file writes recorded in this workspace yet."
    );
    assert_eq!(
        undone(undo_target(&Some(" 01d39zy06fgsctvn4t2v9pkhf0 ".into()), &log)),
        format!("old {id}")
    );
    assert_eq!(undone(undo_target(&Some("x y".into()), &log)), "failed: invalid event id 'x y'");
    assert_eq!(
        undone(undo_named("9", &Some("9".into()), &log)),
        "failed: event 9 not found in this workspace's log"
    );
    assert_eq!(
        show_plan("E", &vec![]),
        ["Nothing to undo at event E (not a write, or already at the workspace's HEAD state)."]
    );
    let plan = vec![
        Restored { path: "a".into(), snapshot: Some("s".into()) },
        Restored { path: "b".into(), snapshot: None },
    ];
    assert_eq!(
        show_plan("E", &plan),
        [
            "Restoring 2 file(s) to their state at event E:",
            "  a — reverted to the snapshot before that write",
            "  b — removed (it was created at/after this point)",
        ]
    );
    let latest = recent_writes(&log, 10);
    let shown = show_writes(&latest, &words(&["t1", "t2", "t3"]));
    assert_eq!(shown[0], "Recent writes in this workspace (newest first):\n");
    assert_eq!(shown[1], "  2  t1  b");
    assert_eq!(shown[4], "\nUndo one:  medha undo --event <id>");
    assert_eq!(
        show_writes(&vec![], &vec![]),
        ["No file writes recorded in this workspace yet."]
    );
}

use medha::json::Json;
use medha::json_text::render;
use medha::lsp::adapters::{adapter_language_id, language_mappings, Config};
use medha::lsp::client::{
    calls_method, conclude, diagnostic_baseline, initial_sync_kind, initialize_params,
    location_report, prepared_item, references_params, save_message, Documents, Sync, Waiting,
};
use medha::lsp::delta::{
    apply_diagnostic_delta, DiagnosticBaseline, DiagnosticBaselineEntry,
};
use medha::lsp::edits::incremental_content_change;
use medha::lsp::environment::{
    detect_root, installed_candidates, language_server_environment, launch, resolve_program,
    server_bin_dirs, server_install_hint,
};
use medha::lsp::errors::Error;
use medha::lsp::manager::{
    restart_backoff, Admission, ClientState, LspManager, ServerState,
};
use medha::lsp::parse::{
    parse_call_hierarchy, parse_diagnostics, parse_document_symbols, parse_hover, parse_locations,
    registered_sync_kind, resolve_configuration_section, truncate_chars,
};
use medha::lsp::reports::{
    merge_diagnostic_reports, merge_hover_reports, merge_location_reports, merge_symbol_reports,
    DiagnosticReport, QueryReport,
};
use medha::lsp::types::{Diagnostic, Hover, Location, Position, Range, Symbol};
use medha::ranking::collect;
use medha::lsp::wire::{
    answer, cancel_message, frame_header, notification_message, publication, read_header,
    response_result, HeaderStep, Published, Requests,
};

fn words(list: &[&str]) -> Vec<String> {
    list.iter().map(|w| w.to_string()).collect()
}

fn vars(list: &[(&str, &str)]) -> Vec<(String, String)> {
    list.iter().map(|(k, v)| (k.to_string(), v.to_string())).collect()
}

fn value(v: serde_json::Value) -> Json {
    match v {
        serde_json::Value::Null => Json::Null,
        serde_json::Value::Bool(b) => Json::Bool(b),
        serde_json::Value::Number(n) => match (n.as_u64(), n.as_i64()) {
            (Some(u), _) => Json::Unsigned(u),
            (_, Some(i)) => Json::Negative(i),
            _ => Json::Decimal(n.to_string()),
        },
        serde_json::Value::String(s) => Json::Text(s),
        serde_json::Value::Array(a) => Json::List(a.into_iter().map(value).collect()),
        serde_json::Value::Object(o) => {
            Json::Object(o.into_iter().map(|(k, v)| (k, value(v))).collect())
        }
    }
}

fn json(text: &str) -> Json {
    value(serde_json::from_str(text).unwrap())
}

fn same_json(a: &Json, b: &str) {
    let a: serde_json::Value = serde_json::from_str(&render(a)).unwrap();
    let b: serde_json::Value = serde_json::from_str(b).unwrap();
    assert_eq!(a, b);
}

fn range(line: u32, from: u32, to: u32) -> Range {
    Range {
        start: Position { line, character: from },
        end: Position { line, character: to },
    }
}

fn finding(line: u32, from: u32, to: u32, message: &str) -> Diagnostic {
    Diagnostic {
        range: range(line, from, to),
        severity: Some(2),
        code: None,
        code_description: None,
        source: Some("fake".into()),
        message: message.into(),
        tags: Vec::new(),
        related_information: Vec::new(),
        data: None,
    }
}

fn place(path: &str, line: u32) -> Location {
    Location { path: path.into(), range: range(line, 0, 1) }
}

#[test]
fn every_built_in_adapter_is_well_formed() {
    let servers = Config::default().servers;
    let mut extensions: std::collections::HashMap<String, String> =
        std::collections::HashMap::new();
    for adapter in &servers {
        assert!(!adapter.command.is_empty(), "{} has no command", adapter.id);
        assert!(
            !adapter.languages.is_empty(),
            "{} claims no extensions",
            adapter.id
        );
        for marker in &adapter.root_markers {
            assert!(
                !marker.contains('*'),
                "{}: root marker {marker:?} is a glob and will never match",
                adapter.id
            );
        }
        for language in &adapter.languages {
            if let Some(previous) =
                extensions.insert(language.extension.clone(), adapter.id.clone())
            {
                panic!(
                    "extension {:?} is claimed by both {previous} and {}",
                    language.extension, adapter.id
                );
            }
        }
    }
}

#[test]
fn diagnostic_delta_shifts_unchanged_ranges_and_reports_real_changes() {
    let mut existing = finding(1, 4, 7, "existing");
    existing.severity = Some(1);
    existing.code = Some(Json::Text("E1".into()));
    let mut shifted = existing.copy();
    shifted.range.start.line = 2;
    shifted.range.end.line = 2;
    let introduced_diagnostic = finding(3, 0, 3, "introduced");
    let baseline = DiagnosticBaseline {
        entries: vec![DiagnosticBaselineEntry {
            server: "fake".into(),
            text: "fn first() {}\nbad();\n".into(),
            diagnostics: vec![existing],
        }],
    };
    let report = DiagnosticReport::Fresh {
        server: "fake".into(),
        root: ".".into(),
        sources: vec!["fake".into()],
        warnings: Vec::new(),
        path: "main.rs".into(),
        version: 2,
        diagnostics: vec![shifted, introduced_diagnostic.copy()],
        overflow: Vec::new(),
        total: 2,
        truncated: false,
        introduced: None,
        resolved: None,
    };
    let report = apply_diagnostic_delta(
        report,
        Some(&baseline),
        "// inserted\nfn first() {}\nbad();\nnew();\n",
    );
    let DiagnosticReport::Fresh {
        introduced,
        resolved,
        ..
    } = report
    else {
        panic!("expected fresh diagnostics");
    };
    let introduced = introduced.unwrap();
    assert_eq!(introduced.len(), 1);
    assert_eq!(introduced[0].message, "introduced");
    assert_eq!(introduced[0].range, introduced_diagnostic.range);
    assert_eq!(introduced[0].severity, Some(2));
    assert_eq!(introduced[0].source.as_deref(), Some("fake"));
    assert!(resolved.unwrap().is_empty());
}

#[test]
fn a_finding_that_is_gone_is_resolved() {
    let baseline = DiagnosticBaseline {
        entries: vec![DiagnosticBaselineEntry {
            server: "fake".into(),
            text: "a\nb\n".into(),
            diagnostics: vec![finding(0, 0, 1, "gone")],
        }],
    };
    let report = conclude("fake", "/r", "/r/x", 2, Some(Vec::new()), None, 5, 10);
    match apply_diagnostic_delta(report, Some(&baseline), "a\nc\n") {
        DiagnosticReport::Fresh { introduced, resolved, .. } => {
            assert!(introduced.unwrap().is_empty());
            assert_eq!(resolved.unwrap()[0].message, "gone");
        }
        _ => panic!("expected fresh diagnostics"),
    }
}

#[test]
fn document_symbols_accept_both_result_shapes() {
    let path = "/tmp/x.rs";
    let hierarchical = json(
        r#"[{
        "name": "Parent", "kind": 5,
        "range": { "start": { "line": 0, "character": 0 }, "end": { "line": 9, "character": 0 } },
        "selectionRange": { "start": { "line": 0, "character": 6 }, "end": { "line": 0, "character": 12 } },
        "children": [{
            "name": "child", "kind": 6,
            "range": { "start": { "line": 1, "character": 0 }, "end": { "line": 2, "character": 0 } },
            "selectionRange": { "start": { "line": 1, "character": 4 }, "end": { "line": 1, "character": 9 } }
        }]
    }]"#,
    );
    let symbols = parse_document_symbols(&hierarchical, path);
    assert_eq!(symbols.len(), 2);
    assert_eq!(symbols[1].name, "child");
    assert_eq!(symbols[1].container_name.as_deref(), Some("Parent"));

    let flat = json(
        r#"[{
        "name": "Flat", "kind": 12,
        "location": {
            "uri": "file:///tmp/x.rs",
            "range": { "start": { "line": 3, "character": 0 }, "end": { "line": 3, "character": 4 } }
        }
    }]"#,
    );
    let symbols = parse_document_symbols(&flat, path);
    assert_eq!(symbols.len(), 1);
    assert_eq!(symbols[0].name, "Flat");
    assert_eq!(symbols[0].location.path, "/tmp/x.rs");
}

#[test]
fn call_hierarchy_maps_incoming_and_outgoing() {
    let incoming = json(
        r#"[{
        "from": {
            "name": "caller", "kind": 12, "uri": "file:///tmp/x.rs",
            "range": { "start": { "line": 0, "character": 0 }, "end": { "line": 0, "character": 5 } },
            "selectionRange": { "start": { "line": 0, "character": 0 }, "end": { "line": 0, "character": 6 } }
        },
        "fromRanges": []
    }]"#,
    );
    assert_eq!(parse_call_hierarchy(&incoming, false)[0].name, "caller");
    let outgoing = json(
        r#"[{ "to": {
        "name": "callee", "kind": 12, "uri": "file:///tmp/x.rs",
        "range": { "start": { "line": 1, "character": 0 }, "end": { "line": 1, "character": 5 } }
    } }]"#,
    );
    assert_eq!(parse_call_hierarchy(&outgoing, true)[0].name, "callee");
    assert_eq!(calls_method(true), "callHierarchy/outgoingCalls");
}

#[test]
fn configuration_section_resolves_dotted_paths() {
    let settings = json(r#"{ "rust-analyzer": { "check": { "command": "clippy" } } }"#);
    same_json(
        &resolve_configuration_section(&settings, Some("rust-analyzer.check.command")),
        r#""clippy""#,
    );
    same_json(&resolve_configuration_section(&settings, Some("nope")), "null");
    assert_eq!(
        render(&resolve_configuration_section(&settings, None)),
        render(&settings)
    );
}

#[test]
fn default_adapters_cover_the_v1_language_matrix() {
    let manager = LspManager::new(".".into(), Config::default());
    for path in [
        "src/lib.rs",
        "web/app.ts",
        "web/view.tsx",
        "web/index.js",
        "service/main.py",
        "cmd/server.go",
        "native/main.c",
        "native/lib.cpp",
    ] {
        assert!(manager.supports(path), "missing adapter for {path}");
    }
    assert!(!manager.supports("README.md"));
    assert_eq!(
        server_install_hint("typescript-language-server"),
        "install typescript-language-server and typescript (for example with npm)"
    );
}

#[test]
fn incremental_change_uses_utf16_positions() {
    let change = incremental_content_change("a😀b\nz", "a😀xy\nz");
    let range = change.field("range").unwrap();
    same_json(range.field("start").unwrap(), r#"{ "line": 0, "character": 3 }"#);
    same_json(range.field("end").unwrap(), r#"{ "line": 0, "character": 4 }"#);
    same_json(change.field("text").unwrap(), r#""xy""#);
}

#[test]
fn languages_are_named_by_extension() {
    let list = language_mappings(&words(&["rust"]));
    assert_eq!(list.len(), 1);
    assert_eq!(list[0].extension, "rs");
    let adapter = &Config::default().servers[0];
    assert_eq!(adapter_language_id(adapter, "/w/a.rs").as_deref(), Some("rust"));
    assert_eq!(adapter_language_id(adapter, "/w/a.txt"), None);
}

#[test]
fn frames_carry_their_length() {
    assert_eq!(frame_header(12), "Content-Length: 12\r\n\r\n");
    assert!(matches!(read_header(None, "Content-Length: 12\r\n"), HeaderStep::More(Some(12))));
    assert!(matches!(read_header(Some(12), "\r\n"), HeaderStep::Payload(12)));
    assert!(matches!(read_header(None, "\r\n"), HeaderStep::NoLength));
    assert!(matches!(read_header(None, "Content-Length: x\r\n"), HeaderStep::BadLength));
}

#[test]
fn requests_are_settled_once() {
    let mut r = Requests::new();
    let (id, message) = r.begin("initialize", Json::Null);
    assert_eq!(message.text_at("method").map(String::as_str), Some("initialize"));
    let reply = json(&format!(r#"{{"jsonrpc":"2.0","id":{id},"result":7}}"#));
    assert_eq!(r.settle(&reply), Some(id));
    assert_eq!(r.settle(&reply), None);
    same_json(&response_result(&reply).unwrap_or(Json::Null), "7");
    let failed = json(r#"{"id":1,"error":{"code":-1,"message":"no"}}"#);
    assert!(response_result(&failed).is_err());
    let (id, _) = r.begin("x", Json::Null);
    assert!(r.forget(id));
    assert!(!r.forget(id));
    same_json(
        &cancel_message(3),
        r#"{"jsonrpc":"2.0","method":"$/cancelRequest","params":{"id":3}}"#,
    );
    same_json(
        &notification_message("exit", Json::Null),
        r#"{"jsonrpc":"2.0","method":"exit","params":null}"#,
    );
}

#[test]
fn a_servers_own_request_is_answered() {
    let settings = json(r#"{"a":{"b":1}}"#);
    let ask = json(
        r#"{"jsonrpc":"2.0","id":9,"method":"workspace/configuration","params":{"items":[{"section":"a.b"}]}}"#,
    );
    let (reply, kind) = answer(&ask, "/w", &settings, 1);
    same_json(&reply.unwrap(), r#"{"jsonrpc":"2.0","id":9,"result":[1]}"#);
    assert_eq!(kind, 1);
    let odd = json(r#"{"jsonrpc":"2.0","id":9,"method":"some/thing"}"#);
    assert!(answer(&odd, "/w", &settings, 1).0.unwrap().field("error").is_some());
}

#[test]
fn published_findings_are_kept_by_file() {
    let message = json(
        r#"{"method":"textDocument/publishDiagnostics","params":{"uri":"file:///w/a.rs","version":2,
        "diagnostics":[{"range":{"start":{"line":1,"character":0},"end":{"line":1,"character":2}},"message":"m"}]}}"#,
    );
    let p = publication(&message).unwrap();
    assert_eq!(p.path, "/w/a.rs");
    assert_eq!(p.version, Some(2));
    assert_eq!(p.diagnostics.len(), 1);
    let mut published = Published::new();
    published.record(p.path, p.version, p.diagnostics);
    assert!(published.snapshot_after("/w/a.rs", 0, 2).is_some());
    assert!(published.snapshot_after("/w/a.rs", 0, 3).is_none(), "an older version is stale");
    assert!(published.snapshot_after("/w/b.rs", 0, 0).is_none());
    published.remove("/w/a.rs");
    assert!(published.snapshot_after("/w/a.rs", 0, 2).is_none());
    assert_eq!(parse_diagnostics(&json("[{}]")).len(), 0);
}

#[test]
fn fresh_empty_diagnostics_are_distinct_from_no_fresh_data() {
    let fresh = conclude("s", "/r", "/r/x", 1, Some(Vec::new()), None, 3, 10);
    assert!(matches!(fresh, DiagnosticReport::Fresh { total: 0, .. }));
    let none = conclude("s", "/r", "/r/x", 1, None, None, 3, 10);
    assert!(matches!(none, DiagnosticReport::NoFreshData { waited_ms: 3, .. }));
    let pulled = conclude("s", "/r", "/r/x", 1, None, Some(vec![finding(0, 0, 1, "m")]), 3, 10);
    assert!(matches!(pulled, DiagnosticReport::Fresh { total: 1, .. }));
}

#[test]
fn findings_settle_before_they_are_believed() {
    let mut published = Published::new();
    let mut waiting = Waiting::new(0, 1, 1_000, 100);
    waiting.observe(&published, "/w/a.rs", 0);
    assert!(!waiting.settled(10_000), "silence is not clean");
    published.record("/w/a.rs".into(), Some(1), vec![finding(0, 0, 1, "m")]);
    waiting.observe(&published, "/w/a.rs", 0);
    assert!(!waiting.settled(1));
    assert!(waiting.settled(10_000));
    let snapshot = published.snapshot_after("/w/a.rs", 0, 1);
    let base = diagnostic_baseline("s", "text", Some(1), snapshot, 10).unwrap();
    assert_eq!(base.entries[0].diagnostics.len(), 1);
}

#[test]
fn documents_are_opened_and_changed() {
    let mut docs = Documents::new(language_mappings(&words(&["rust"])), 1);
    match docs.sync_document("/w/a.rs", "one", 2) {
        Ok(Sync::Open { .. }) => {}
        _ => panic!("a new file is opened"),
    }
    assert!(docs.opened("/w/a.rs", "one", 1).is_empty());
    assert_eq!(docs.version_of("/w/a.rs", "one"), Some(1));
    assert!(matches!(
        docs.sync_document("/w/a.rs", "one", 2),
        Ok(Sync::Current { version: 1 })
    ));
    match docs.sync_document("/w/a.rs", "two", 2) {
        Ok(Sync::Changed { version, message }) => {
            assert_eq!(version, 2);
            assert!(message.is_some());
        }
        _ => panic!("a changed file is changed"),
    }
    let closed = docs.opened("/w/b.rs", "x", 2);
    assert_eq!(closed.len(), 1);
    assert_eq!(closed[0].path, "/w/a.rs", "the least recently used is closed");
}

#[test]
fn the_root_is_the_nearest_marker() {
    let markers = words(&["Cargo.toml"]);
    assert_eq!(
        detect_root("/w/a/src/lib.rs", false, "/w", &markers, &words(&["/w/a/Cargo.toml"])),
        "/w/a"
    );
    assert_eq!(detect_root("/w/a/src/lib.rs", false, "/w", &markers, &words(&[])), "/w");
    assert_eq!(resolve_program("./bin/x", "/w"), "/w/./bin/x");
    assert_eq!(resolve_program("clangd", "/w"), "clangd");
}

#[test]
fn a_language_server_sees_chosen_variables() {
    let env = language_server_environment(&vars(&[
        ("PATH", "/bin"),
        ("MEDHA_API_KEY", "secret"),
        ("HOME", "/home/u"),
    ]));
    assert!(env.iter().any(|(k, _)| k == "PATH"));
    assert!(env.iter().all(|(k, _)| k != "MEDHA_API_KEY"));
    assert!(!server_bin_dirs(&vars(&[("HOME", "/home/u")])).is_empty());
    assert!(!installed_candidates("gopls", &vars(&[("HOME", "/home/u")])).is_empty());
    let adapter = &Config::default().servers[0];
    assert!(launch(adapter, "/w", &vars(&[]), true, false, true).is_ok());
    assert!(matches!(
        launch(adapter, "/w", &vars(&[]), false, false, true),
        Err(Error::ServerUnavailable { .. })
    ));
}

#[test]
fn project_defined_server_is_inert_until_explicit_approval() {
    let mut m = LspManager::new("/w".into(), Config { enabled: true, ..Config::default() });
    assert!(matches!(
        m.client_for_resolved("own", "/w", true, 0),
        Admission::ApprovalRequired
    ));
    assert!(m.approve("own", "/w").is_none());
    assert!(matches!(
        m.client_for_resolved("own", "/w", true, 0),
        Admission::Granted { fresh: true, .. }
    ));
    m.record("own", "/w", ClientState::Ready);
    assert!(matches!(
        m.client_for_resolved("own", "/w", true, 1),
        Admission::Granted { fresh: false, .. }
    ));
    let (status, idle) = m.status(1);
    assert_eq!(status.len(), 1);
    assert!(idle.is_empty());
    assert!(matches!(status[0].state, ServerState::Ready));
    assert_eq!(m.shutdown_all().len(), 1);
    assert!(m.status(1).0.is_empty());
}

#[test]
fn idle_clients_are_reaped_and_removed_from_status() {
    let mut m = LspManager::new("/w".into(), Config { enabled: true, ..Config::default() });
    assert!(matches!(
        m.client_for_resolved("s", "/w", false, 0),
        Admission::Granted { .. }
    ));
    m.record("s", "/w", ClientState::Ready);
    assert!(m.reap_idle(1).is_empty());
    assert_eq!(m.survey(u64::MAX).len(), 1);
    let (status, idle) = m.status(u64::MAX);
    assert!(status.is_empty());
    assert_eq!(idle.len(), 1);
    assert!(m.status(0).0.is_empty());
    assert!(restart_backoff(100, 3) >= restart_backoff(100, 2));
}

#[test]
fn servers_are_resolved_for_a_file() {
    let m = LspManager::new("/w".into(), Config { enabled: true, ..Config::default() });
    let found = m.resolve_servers("/w/a.rs", false, &words(&["/w/Cargo.toml"])).ok().unwrap();
    assert_eq!(found.len(), 1);
    assert_eq!(found[0].root, "/w");
    assert!(matches!(
        m.resolve_servers("/w/a.unknown", false, &words(&[])),
        Err(Error::UnsupportedFile(_))
    ));
    let preview = m.start_preview("/w/a.rs", false, &words(&[])).ok().unwrap();
    assert_eq!(preview.server, "rust-analyzer");
}

#[test]
fn navigation_is_typed_sorted_deduplicated_and_bounded() {
    let items = vec![place("/w/b", 1), place("/w/a", 2), place("/w/a", 2), place("/w/a", 1)];
    match location_report(items, "s", "/w", 2) {
        QueryReport::Ready { items, overflow, total, truncated, .. } => {
            assert_eq!(total, 3);
            assert!(truncated);
            assert_eq!(items.len(), 2);
            assert_eq!((items[0].path.as_str(), items[0].range.start.line), ("/w/a", 1));
            assert_eq!((items[1].path.as_str(), items[1].range.start.line), ("/w/a", 2));
            assert_eq!(overflow.len(), 1);
        }
        _ => panic!("expected locations"),
    }
}

fn answered<T>(server: &str, items: Vec<T>) -> QueryReport<T> {
    let total = items.len();
    QueryReport::Ready {
        server: server.into(),
        root: "/w".into(),
        sources: vec![server.into()],
        warnings: Vec::new(),
        items,
        overflow: Vec::new(),
        total,
        truncated: false,
    }
}

#[test]
fn matching_servers_are_all_started_and_failures_are_merged() {
    let merged = merge_location_reports(
        vec![
            answered("a", vec![place("/w/x", 1)]),
            answered("b", vec![place("/w/x", 1), place("/w/x", 0)]),
            QueryReport::Unavailable { reason: "c is down".into() },
        ],
        "/w",
        10,
    );
    match merged {
        QueryReport::Ready { sources, warnings, items, total, .. } => {
            assert_eq!(sources, ["a", "b"]);
            assert_eq!(warnings, ["c is down"]);
            assert_eq!(items.len(), 2);
            assert_eq!(total, 3, "what the servers reported");
        }
        _ => panic!("expected locations"),
    }
    let hovers = merge_hover_reports(
        vec![answered("a", vec![Hover { contents: "h".into(), range: None }])],
        "/w",
        10,
    );
    assert!(matches!(hovers, QueryReport::Ready { total: 1, .. }));
    let symbol = Symbol {
        name: "n".into(),
        kind: 12,
        container_name: None,
        location: place("/w/x", 0),
    };
    let symbols = merge_symbol_reports(vec![answered("a", vec![symbol])], "/w", 10);
    assert!(matches!(symbols, QueryReport::Ready { total: 1, .. }));
    let findings = merge_diagnostic_reports(
        vec![
            conclude("a", "/w", "/w/x", 1, Some(vec![finding(1, 0, 1, "m")]), None, 0, 10),
            DiagnosticReport::Unavailable { path: "/w/x".into(), reason: "b is down".into() },
        ],
        "/w/x",
        "/w",
        10,
    );
    match findings {
        DiagnosticReport::Fresh { diagnostics, warnings, .. } => {
            assert_eq!(diagnostics.len(), 1);
            assert!(warnings.iter().any(|w| w.contains("b is down")));
        }
        _ => panic!("expected findings"),
    }
}

#[test]
fn messages_to_a_server_are_built() {
    let params = references_params("/w/a.rs", Position { line: 1, character: 2 }, true).ok().unwrap();
    same_json(
        &params,
        r#"{"textDocument":{"uri":"file:///w/a.rs"},"position":{"line":1,"character":2},"context":{"includeDeclaration":true}}"#,
    );
    assert!(references_params("relative", Position { line: 0, character: 0 }, true).is_err());
    assert!(save_message("/w/a.rs").is_ok());
    let init = initialize_params(7, "1.0", "/w", &Json::Null).ok().unwrap();
    assert_eq!(init.text_at("rootUri").map(String::as_str), Some("file:///w"));
    assert_eq!(initial_sync_kind(&json(r#"{"capabilities":{"textDocumentSync":2}}"#)), 2);
    assert!(prepared_item(&json("[]")).is_none());
    assert_eq!(parse_locations(&json("null")).len(), 0);
    assert_eq!(
        registered_sync_kind(&json(
            r#"{"params":{"registrations":[{"method":"textDocument/didChange","registerOptions":{"syncKind":1}}]}}"#
        )),
        Some(1)
    );
    assert_eq!(truncate_chars("abc", 2), "ab\n… [truncated]");
    let hover = parse_hover(&json(r#"{"contents":"text"}"#), 10).unwrap();
    assert_eq!(hover.contents, "text");
}

#[test]
fn a_finding_is_kept_once() {
    let of = |severity: u8| Diagnostic { severity: Some(severity), ..finding(1, 0, 4, "same") };
    let severities = |found: Vec<Diagnostic>| -> Vec<u8> {
        collect(found).iter().map(|d| d.severity.unwrap()).collect()
    };
    assert_eq!(severities(vec![of(1), of(2), of(1)]), [1, 2]);
    assert_eq!(severities(vec![of(2), of(1)]), [2, 1], "as they were reported");

    let coded = |code: &str| Diagnostic {
        code: Some(Json::Decimal(code.into())),
        ..finding(1, 0, 4, "same")
    };
    assert_eq!(collect(vec![coded("0.0"), coded("-0.0"), coded("0.5")]).len(), 2);
    assert!(Json::List(vec![Json::Decimal("-0.0".into())])
        .matches(&Json::List(vec![Json::Decimal("0.0".into())])));
}

#[test]
fn a_change_names_its_place_by_line_and_unit() {
    let change = render(&incremental_content_change("a\n😀b\n", "a\n😀x\n"));
    let change: serde_json::Value = serde_json::from_str(&change).unwrap();
    assert_eq!(change["range"]["start"]["line"], 1);
    assert_eq!(change["range"]["start"]["character"], 2);
    assert_eq!(change["range"]["end"]["line"], 1);
    assert_eq!(change["range"]["end"]["character"], 3);
    assert_eq!(change["text"], "x");
}

#[test]
fn the_last_mapping_of_an_extension_counts() {
    let mut documents = Documents::new(language_mappings(&words(&["typescript", "ts"])), 4);
    let last = documents.languages.iter().rev().find(|l| l.extension == "ts").unwrap();
    let language = last.language_id.clone();
    match documents.sync_document("/w/a.ts", "x", 1) {
        Ok(Sync::Open { message }) => {
            let text: serde_json::Value = serde_json::from_str(&render(&message)).unwrap();
            assert_eq!(text["params"]["textDocument"]["languageId"], language.as_str());
        }
        _ => panic!("not opened"),
    }
}

#[test]
fn a_document_is_found_however_its_path_is_written() {
    let mut documents = Documents::new(language_mappings(&words(&["rust"])), 4);
    assert!(!documents.is_open("/w/a.rs"));
    assert!(documents.opened("/w/a.rs", "x", 0).is_empty());
    assert!(documents.is_open("/w//./a.rs"));
    assert!(matches!(
        documents.sync_document("/w//a.rs", "x", 1),
        Ok(Sync::Current { version: 1 })
    ));
    let mut m = LspManager::new("/w".into(), Config { enabled: true, ..Config::default() });
    assert!(matches!(m.client_for_resolved("s", "/w", false, 0), Admission::Granted { fresh: true, .. }));
    assert!(matches!(m.client_for_resolved("s", "/w/", false, 1), Admission::Granted { fresh: false, .. }));
}

#[test]
fn the_change_is_the_smallest() {
    let change = incremental_content_change("aXb", "aXXb");
    same_json(
        &change,
        r#"{"range": {"start": {"line": 0, "character": 2}, "end": {"line": 0, "character": 2}}, "text": "X"}"#,
    );
}

use medha::acp::frames::{
    compacting_frame, context_pressure_frame, reasoning_frame, restarted_frame, returned_frame, steered_frame,
    tool_call_frame, tool_result_frame, verify_frame,
};
use medha::acp::images::{image_source, inline_source, refused_image, unreadable_image, ImageSource};
use medha::acp::prompt::AcpImage;
use medha::acp::turn::{Connection, Writer};
use medha::attachments::{clipboard_outcome, clipboard_script, NO_IMAGE};
use medha::config::models::{derive_profile_name, Config as ModelConfig};
use medha::config::providers::{
    AuthKind, Protocol, ProviderConfig, ReasoningSupport, TokenAccountingMode, TokenCounter,
};
use medha::config::workspace::credentials_path;
use medha::json::Json;
use medha::json_text::render;
use medha::lsp::adapters::Config;
use medha::lsp::client::hover_report;
use medha::lsp::delta::{shift_diagnostic, DiagnosticBaseline, DiagnosticBaselineEntry};
use medha::lsp::errors::Error;
use medha::lsp::manager::{ClientState, LspManager};
use medha::lsp::queries::{
    calls_report, matches_report, outline_report, places_report, prepared_calls,
    pulled_diagnostics, Asked, Edited, Prepared, Query,
};
use medha::lsp::reader::{Ending, Reader};
use medha::lsp::reports::{DiagnosticReport, QueryReport};
use medha::lsp::types::{Diagnostic, Location, Position, Range};
use medha::mcp::errors::{Error as McpError, ServerState};
use medha::mcp::launch::{Config as McpConfig, ServerConfig, Transport};
use medha::mcp::manager::McpManager;
use medha::mcp::policy::RemoteAuth;
use medha::mcp::signin::{callback_response, redirect_address, Attempt};
use medha::table::Table;

fn value(v: serde_json::Value) -> Json {
    match v {
        serde_json::Value::Null => Json::Null,
        serde_json::Value::Bool(b) => Json::Bool(b),
        serde_json::Value::Number(n) => match (n.as_u64(), n.as_i64()) {
            (Some(u), _) => Json::Unsigned(u),
            (_, Some(i)) => Json::Negative(i),
            _ => Json::Decimal(n.to_string()),
        },
        serde_json::Value::String(s) => Json::Text(s),
        serde_json::Value::Array(a) => Json::List(a.into_iter().map(value).collect()),
        serde_json::Value::Object(o) => {
            Json::Object(o.into_iter().map(|(k, v)| (k, value(v))).collect())
        }
    }
}

fn json(text: &str) -> Json {
    value(serde_json::from_str(text).unwrap())
}

fn read(v: &Json) -> serde_json::Value {
    serde_json::from_str(&render(v)).unwrap()
}

fn at(line: u32, character: u32) -> Position {
    Position { line, character }
}

fn finding(line: u32, message: &str) -> Diagnostic {
    Diagnostic {
        range: Range { start: at(line, 0), end: at(line, 1) },
        severity: Some(1),
        code: None,
        code_description: None,
        source: None,
        message: message.into(),
        tags: Vec::new(),
        related_information: Vec::new(),
        data: None,
    }
}

fn fresh(server: &str, diagnostics: Vec<Diagnostic>) -> DiagnosticReport {
    let total = diagnostics.len();
    DiagnosticReport::Fresh {
        server: server.into(),
        root: "/w".into(),
        sources: vec![server.into()],
        warnings: Vec::new(),
        path: "/w/a.rs".into(),
        version: 1,
        diagnostics,
        overflow: Vec::new(),
        total,
        truncated: false,
        introduced: None,
        resolved: None,
    }
}

fn manager() -> LspManager {
    LspManager::new("/w".into(), Config { enabled: true, ..Config::default() })
}

#[test]
fn requests_name_their_method_and_place() {
    let (method, params) = Query::Definition(at(3, 4)).request("/w/a.rs").ok().unwrap();
    assert_eq!(method, "textDocument/definition");
    assert_eq!(read(&params)["textDocument"]["uri"], "file:///w/a.rs");
    assert_eq!(read(&params)["position"]["line"], 3);
    let (_, params) = Query::References(at(0, 0), true).request("/w/a.rs").ok().unwrap();
    assert_eq!(read(&params)["context"]["includeDeclaration"], true);
    let (method, params) = Query::WorkspaceSymbols("x".into()).request("a.rs").ok().unwrap();
    assert_eq!(method, "workspace/symbol");
    assert_eq!(read(&params)["query"], "x");
    assert!(matches!(
        Query::DocumentSymbols.request("a.rs"),
        Err(Error::InvalidFileUri(p)) if p == "a.rs"
    ));
    assert!(!Query::WorkspaceSymbols("x".into()).needs_document());
    assert!(Query::Hover(at(0, 0)).needs_document());
}

const SPAN: &str = r#"{"start": {"line": 1, "character": 0}, "end": {"line": 1, "character": 2}}"#;

#[test]
fn answers_become_reports() {
    let place = format!(r#"{{"uri": "file:///w/b.rs", "range": {SPAN}}}"#);
    let two = json(&format!("[{place}, {place}]"));
    match places_report(&two, "ra", "/w", 10) {
        QueryReport::Ready { items, total, .. } => {
            assert_eq!(total, 1);
            assert_eq!(items[0].path, "/w/b.rs");
        }
        _ => panic!("no report"),
    }
    let symbol = format!(r#"{{"name": "f", "kind": 12, "range": {SPAN}, "selectionRange": {SPAN}}}"#);
    match outline_report(&json(&format!("[{symbol}]")), "/w/a.rs", "ra", "/w", 10) {
        QueryReport::Ready { items, .. } => {
            assert_eq!(items[0].name, "f");
            assert_eq!(items[0].location.path, "/w/a.rs");
        }
        _ => panic!("no report"),
    }
    let found = |name: &str| {
        format!(r#"{{"name": "{name}", "kind": 12, "location": {place}}}"#)
    };
    let unsorted = json(&format!("[{}, {}, {}]", found("b"), found("a"), found("b")));
    match matches_report(&unsorted, "ra", "/w", 1) {
        QueryReport::Ready { items, overflow, total, truncated, .. } => {
            assert_eq!(total, 2);
            assert!(truncated);
            assert_eq!(items[0].name, "a");
            assert_eq!(overflow[0].name, "b");
        }
        _ => panic!("no report"),
    }
    let item = format!(
        r#"{{"name": "g", "kind": 12, "uri": "file:///w/b.rs", "range": {SPAN}, "selectionRange": {SPAN}}}"#
    );
    match prepared_calls(&json(&format!("[{item}]")), true, "ra", "/w", 10) {
        Prepared::Ask(method, params) => {
            assert_eq!(method, "callHierarchy/outgoingCalls");
            assert_eq!(read(&params)["item"]["name"], "g");
        }
        Prepared::Empty(_) => panic!("nothing asked"),
    }
    assert!(matches!(
        prepared_calls(&json("null"), true, "ra", "/w", 10),
        Prepared::Empty(QueryReport::Ready { total: 0, .. })
    ));
    let calls = json(&format!(r#"[{{"to": {item}}}]"#));
    assert!(matches!(
        calls_report(&calls, true, "ra", "/w", 10),
        QueryReport::Ready { total: 1, .. }
    ));
    assert!(pulled_diagnostics(&json("{}")).is_none());
    let pulled = json(&format!(r#"{{"items": [{{"range": {SPAN}, "message": "m"}}]}}"#));
    assert_eq!(pulled_diagnostics(&pulled).unwrap()[0].message, "m");
}

#[test]
fn a_query_reports_every_server_and_names_the_missing_ones() {
    let m = manager();
    let place = Location { path: "/w/b.rs".into(), range: Range { start: at(0, 0), end: at(0, 1) } };
    let ready = QueryReport::Ready {
        server: "ra".into(),
        root: "/w".into(),
        sources: vec!["ra".into()],
        warnings: Vec::new(),
        items: vec![place],
        overflow: Vec::new(),
        total: 1,
        truncated: false,
    };
    let out = m.definition(
        "/w/a.rs",
        vec![
            Asked::Answered(ready),
            Asked::Failed(Error::Timeout("textDocument/definition".into())),
            Asked::Absent(Error::Disconnected),
        ],
    );
    match out {
        QueryReport::Ready { items, warnings, sources, .. } => {
            assert_eq!(items.len(), 1);
            assert_eq!(sources, ["ra"]);
            assert_eq!(
                warnings,
                [
                    "language server disconnected",
                    "language server request timed out: textDocument/definition"
                ]
            );
        }
        _ => panic!("no report"),
    }
    assert!(matches!(
        m.hover("/w/a.unknown", Vec::new()),
        QueryReport::Unsupported { path } if path == "/w/a.unknown"
    ));
    assert!(matches!(
        m.references("/w/a.rs", Vec::new()),
        QueryReport::Unavailable { reason } if reason == "no matching language server was available"
    ));
    let off = LspManager::new("/w".into(), Config { enabled: false, ..Config::default() });
    assert!(matches!(
        off.document_symbols("/w/a.rs", Vec::new()),
        QueryReport::Unavailable { reason } if reason == "LSP is disabled"
    ));
}

#[test]
fn a_cold_server_never_stalls_an_edit() {
    let m = manager();
    let cold = || Asked::Answered(Edited::Cold { server: "ra".into(), root: "/w".into(), version: 4 });
    match m.diagnostics_after_edit("/w/a.rs", "x\n", None, vec![cold()]) {
        DiagnosticReport::NoFreshData { server, version, waited_ms, .. } => {
            assert_eq!(server, "ra");
            assert_eq!(version, 4);
            assert_eq!(waited_ms, 0);
        }
        _ => panic!("a cold server is not fresh"),
    }
    let baseline = m
        .diagnostic_baseline(
            "/w/a.rs",
            vec![
                None,
                Some(DiagnosticBaseline {
                    entries: vec![DiagnosticBaselineEntry {
                        server: "ra".into(),
                        text: "a\n".into(),
                        diagnostics: vec![finding(0, "old")],
                    }],
                }),
            ],
        )
        .unwrap();
    let warm = Asked::Answered(Edited::Warm(fresh("ra", vec![finding(1, "old"), finding(0, "new")])));
    match m.diagnostics_after_edit("/w/a.rs", "b\na\n", Some(&baseline), vec![warm]) {
        DiagnosticReport::Fresh { introduced, resolved, .. } => {
            let introduced = introduced.unwrap();
            assert_eq!(introduced.len(), 1);
            assert_eq!(introduced[0].message, "new");
            assert!(resolved.unwrap().is_empty());
        }
        _ => panic!("no report"),
    }
    assert!(m.diagnostic_baseline("/w/a.rs", vec![None]).is_none());
    assert!(matches!(
        m.diagnostics("/w/a.rs", vec![Asked::Absent(Error::Disconnected)]),
        DiagnosticReport::Unavailable { reason, .. } if reason == "language server disconnected"
    ));
}

#[test]
fn an_explicit_start_resets_the_restart_budget() {
    let mut m = manager();
    let files = vec!["/w/Cargo.toml".to_string()];
    let start = m.approve_and_start("/w/a.rs", false, &files, 1_000).ok().unwrap();
    assert!(start.fresh);
    assert!(start.parked.is_none());
    let server = start.chosen.adapter.id.clone();
    m.record(&server, "/w", ClientState::Broken("boom".into()));
    m.clients[0].failures = 9;
    let start = m
        .approve_and_start_for("/w/a.rs", false, &files, Some(&server), 2_000)
        .ok()
        .unwrap();
    assert_eq!(start.parked.unwrap().failures, 9);
    assert!(start.fresh);
    assert_eq!(m.clients[0].failures, 0);
    assert!(matches!(
        m.approve_and_start_for("/w/a.rs", false, &files, Some("nobody"), 3_000),
        Err(Error::UnsupportedFile(p)) if p == "/w/a.rs"
    ));
}

fn hosted() -> McpManager {
    McpManager::new(
        McpConfig { enabled: true, ..McpConfig::default() },
        vec![
            ServerConfig {
                id: "hosted".into(),
                transport: Transport::Remote {
                    url: "https://mcp.example.com/mcp".into(),
                    auth: RemoteAuth::Auto,
                },
                ..ServerConfig::default()
            },
            ServerConfig {
                id: "local".into(),
                transport: Transport::Stdio { command: vec!["true".into()], env: Vec::new() },
                ..ServerConfig::default()
            },
        ],
    )
}

#[test]
fn a_server_that_wants_a_sign_in_is_signed_in_to_only_where_somebody_watches() {
    let mut m = hosted();
    assert!(matches!(m.approve_and_connect("hosted"), Ok(false)));
    assert!(matches!(m.approve_and_connect("nobody"), Err(McpError::UnknownServer(_))));
    let wants = || Err(McpError::NeedsAuth("hosted".into()));
    assert!(matches!(m.after_connect("hosted", wants(), true), Attempt::SignIn));
    assert!(matches!(
        m.after_connect("hosted", wants(), false),
        Attempt::Failed(McpError::NeedsAuth(_))
    ));
    assert!(matches!(m.after_connect("hosted", Ok(()), true), Attempt::Done(_)));

    assert!(matches!(m.authorize("hosted", false), Err(McpError::Auth(_))));
    assert!(matches!(m.authorize("local", true), Err(McpError::Auth(_))));
    assert_eq!(m.authorize("hosted", true).ok().unwrap(), "https://mcp.example.com/mcp");
    let status = m.server_status("hosted").ok().unwrap();
    assert!(matches!(status.state, ServerState::Connecting));
    assert_eq!(status.detail.as_deref(), Some("signing in…"));
    m.sign_in_failed("hosted", &McpError::Auth("denied".into()));
    assert!(m.needs_sign_in("hosted"));
}

#[test]
fn the_browser_is_answered_with_a_length_in_bytes() {
    assert_eq!(redirect_address(8123), "http://127.0.0.1:8123/callback");
    assert_eq!(
        callback_response("é"),
        "HTTP/1.1 200 OK\r\nContent-Type: text/html; charset=utf-8\r\nContent-Length: 2\r\nConnection: close\r\n\r\né"
    );
}

#[test]
fn inline_images_are_decoded() {
    let image = AcpImage::Inline("image/png".into(), "QUJD".into());
    assert!(matches!(image_source(&image, 1), ImageSource::Bytes(b) if b == b"ABC"));
    let image = AcpImage::Inline("image/png".into(), "!".into());
    assert!(matches!(
        image_source(&image, 2),
        ImageSource::Damaged(m) if m.starts_with("image 2 is not valid base64: ")
    ));
    assert!(matches!(
        inline_source(3, Err("bad".into())),
        ImageSource::Damaged(m) if m == "image 3 is not valid base64: bad"
    ));
    let image = AcpImage::Linked("/tmp/a.png".into());
    assert!(matches!(image_source(&image, 1), ImageSource::Read(p) if p == "/tmp/a.png"));
    assert_eq!(unreadable_image("/a", "gone"), "cannot read /a: gone");
    assert_eq!(refused_image(1, "too large"), "image 1: too large");
}

#[test]
fn the_clipboard_script_keeps_its_path_quoted() {
    let script = clipboard_script("C:\\it's\\a.png\r\n");
    assert!(script.ends_with(
        "$image.Save('C:\\it''s\\a.png', [System.Drawing.Imaging.ImageFormat]::Png)"
    ));
    assert!(clipboard_outcome(Some(0)).is_ok());
    assert_eq!(clipboard_outcome(Some(3)).err().unwrap(), NO_IMAGE);
    assert_eq!(
        clipboard_outcome(None).err().unwrap(),
        "PowerShell could not read the clipboard"
    );
}

#[test]
fn a_servers_messages_are_taken_one_by_one() {
    let mut reader = Reader::new("/w/project".into(), json(r#"{"a": {"b": 1}}"#));
    let (id, _) = reader.requests.begin("textDocument/hover", Json::Null);
    let received = reader.receive(&json(&format!(r#"{{"id": {id}, "result": 1}}"#)));
    assert_eq!(received.settled, Some(id));
    assert!(received.reply.is_none());
    let again = reader.receive(&json(&format!(r#"{{"id": {id}, "result": 1}}"#)));
    assert_eq!(again.settled, None);

    let asked = reader.receive(&json(
        r#"{"id": "x", "method": "workspace/configuration", "params": {"items": [{"section": "a.b"}]}}"#,
    ));
    assert_eq!(read(&asked.reply.unwrap())["result"], serde_json::Value::from(vec![1]));
    let refused = reader.receive(&json(r#"{"id": 9, "method": "no/such"}"#));
    assert_eq!(read(&refused.reply.unwrap())["error"]["code"], -32601);

    assert!(!reader.is_published());
    let published = reader.receive(&json(&format!(
        r#"{{"method": "textDocument/publishDiagnostics",
            "params": {{"uri": "file:///w/a.rs", "version": 2,
                       "diagnostics": [{{"range": {SPAN}, "message": "m"}}]}}}}"#
    )));
    let publication = published.publication.unwrap();
    assert_eq!(publication.path, "/w/a.rs");
    reader.record("/w/a.rs".into(), publication);
    assert!(reader.is_published());
    let kept = reader.published.snapshot_after("/w/a.rs", 0, 2).unwrap();
    assert_eq!(kept.diagnostics[0].message, "m");
}

#[test]
fn requests_end_in_one_of_four_ways() {
    let mut reader = Reader::new("/w".into(), Json::Null);
    let (id, _) = reader.requests.begin("a/b", Json::Null);
    let (outcome, cancel) = reader.conclude(id, "a/b", Ending::TimedOut);
    assert!(matches!(outcome, Err(Error::Timeout(m)) if m == "a/b"));
    assert_eq!(read(&cancel.unwrap())["method"], "$/cancelRequest");
    assert!(reader.requests.pending.is_empty());

    let (id, _) = reader.requests.begin("a/b", Json::Null);
    let (outcome, cancel) = reader.conclude(id, "a/b", Ending::NotSent(Error::Disconnected));
    assert!(matches!(outcome, Err(Error::Disconnected)));
    assert!(cancel.is_none());
    let (outcome, _) = reader.conclude(id, "a/b", Ending::Gone);
    assert!(matches!(outcome, Err(Error::Disconnected)));
    let (outcome, _) = reader.conclude(id, "a/b", Ending::Response(json(r#"{"result": 7}"#)));
    assert_eq!(read(&outcome.ok().unwrap()), 7);
    let refused = json(r#"{"error": {"code": 1}}"#);
    let (outcome, _) = reader.conclude(id, "a/b", Ending::Response(refused));
    assert!(matches!(outcome, Err(Error::Protocol(m)) if m == r#"{"code":1}"#));
    reader.close();
    assert!(!reader.alive);
}

#[test]
fn hover_text_is_cut_and_kept_whole_beside() {
    let answer = json(r#"{"contents": {"kind": "markdown", "value": "abcdef"}}"#);
    match hover_report(&answer, "ra", "/w", 4) {
        QueryReport::Ready { items, overflow, truncated, .. } => {
            assert!(truncated);
            assert!(items[0].contents.starts_with("abc"));
            assert_eq!(overflow[0].contents, "abcdef");
        }
        _ => panic!("no report"),
    }
}

#[test]
fn symbols_and_implementations_are_merged_alike() {
    let m = manager();
    let down = || vec![Asked::Failed(Error::Disconnected)];
    assert!(matches!(
        m.implementations("/w/a.rs", vec![Asked::Failed(Error::Disconnected)]),
        QueryReport::Unavailable { reason } if reason == "language server disconnected"
    ));
    assert!(matches!(m.workspace_symbols("/w/a.rs", down()), QueryReport::Unavailable { .. }));
    assert!(matches!(m.call_hierarchy("/w/a.rs", down()), QueryReport::Unavailable { .. }));
}

#[test]
fn a_finding_moves_with_its_line() {
    let moved = shift_diagnostic(&finding(0, "m"), "a\n", "new\na\n").unwrap();
    assert_eq!(moved.range.start.line, 1);
    assert!(shift_diagnostic(&finding(0, "m"), "a\n", "b\n").is_none());
}

#[test]
fn idle_servers_are_looked_for_twice_in_their_time() {
    let mut m = manager();
    m.config.idle_timeout = 10_000;
    assert_eq!(m.reaper_tick(), 5_000);
    m.config.idle_timeout = 10;
    assert_eq!(m.reaper_tick(), 1_000);
    let probes = m.marker_probes("/w/src/a.rs", false);
    assert_eq!(probes.len(), m.config.servers.len());
    assert!(probes.iter().flatten().any(|p| p == "/w/src/Cargo.toml"));
}

#[test]
fn servers_are_added_while_tools_are_on() {
    let mut m = hosted();
    let local = || ServerConfig { id: "third".into(), parallel_calls: true, ..ServerConfig::default() };
    assert!(matches!(m.add_server(local()), Ok(false)));
    let third = m.servers.iter().find(|s| s.config.id == "third").unwrap();
    assert_eq!(third.permits(), 8);
    assert!(m.server_tools("third").is_empty());
    m.config.enabled = false;
    assert!(matches!(m.add_server(local()), Err(McpError::Disabled)));
}

#[test]
fn events_are_told_under_their_names() {
    let told = [
        (verify_frame(true, "ok"), "verify"),
        (compacting_frame(true), "compacting"),
        (steered_frame("x"), "message.steered"),
        (returned_frame(&vec!["x".into()]), "message.returned"),
        (restarted_frame(), "model.restarted"),
    ];
    for (frame, name) in &told {
        assert!(render(frame).contains(&format!("\"{name}\"")), "{name}");
    }
    let full = context_pressure_frame(10, Some(100), None, Json::Null, Json::Unsigned(10));
    assert_eq!(read(&full)["params"]["usable_input_tokens"], serde_json::Value::Null);
    assert_eq!(read(&full)["params"]["kind"], "context_pressure");
    let session = "medha-1".to_string();
    let thought = reasoning_frame(true, Some(&session), "hm").unwrap();
    assert_eq!(read(&thought)["params"]["update"]["sessionUpdate"], "agent_thought_chunk");
    let call = tool_call_frame(true, Some(&session), "ls", &Json::Null).unwrap();
    assert_eq!(read(&call)["params"]["update"]["toolCallId"], "ls");
    let result = tool_result_frame(true, Some(&session), "ls", false, &json("{}")).unwrap();
    assert_eq!(read(&result)["params"]["update"]["status"], "failed");
    assert!(Connection::new("/w").images_refused("too many").is_none());
    assert_eq!(read(&Writer::notify("a", Json::Null))["method"], "a");
}

#[test]
fn a_model_gets_a_free_name() {
    let mut config = ModelConfig::default();
    let first = derive_profile_name(&config, "org/some-model");
    config.models.insert(first.clone(), provider());
    let second = derive_profile_name(&config, "org/some-model");
    assert_ne!(first, second);
    assert!(second.starts_with(&first));
    assert_eq!(
        credentials_path(&Some("/h".into()), &None).ok().unwrap(),
        "/h/credentials.toml"
    );
}

fn provider() -> ProviderConfig {
    ProviderConfig {
        protocol: Protocol::OpenAiChat,
        base_url: "https://x/v1".into(),
        model: "m".into(),
        auth: AuthKind::Bearer,
        headers: Table::new(),
        max_ctx: None,
        max_output_tokens: None,
        token_counter: TokenCounter::Uncounted,
        token_accounting: TokenAccountingMode::Adaptive,
        reasoning: ReasoningSupport::Unknown,
        reasoning_efforts: None,
        chat_token_limit: 0,
    }
}

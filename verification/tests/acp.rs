use medha::acp::frames::{
    acp_gate_request_id, acp_tool_kind, approval_frame, compaction_frame, ready_frame,
    request_acp_permission, text_frame, tool_call_with_id_frame, tool_result_with_id_frame,
    usage_frame,
};
use medha::acp::gate::{acp_gate_id_from, AcpGate, Approval, Confirm, Pending};
use medha::acp::prompt::{acp_file_path, acp_prompt, percent_decode, AcpImage, AcpPrompt};
use medha::acp::rpc::{
    deny_pending, dispatch_line, dispatch_rpc, Dispatched, Effect, Opened, Peer, RpcAction,
    Situation,
};
use medha::acp::turn::{
    acp_stop_reason, read_frame, session_transcript, Connection, FrameRead, StopReason, TurnDone,
    Writer,
};
use medha::attachments::IMAGE_ONLY_PROMPT;
use medha::json::Json;
use medha::json_text::render;

const WORKSPACE: &str = "/work/project";
const FRESH: &str = "01D39ZY06FGSCTVN4T2V9PKHFZ";

fn value(v: serde_json::Value) -> Json {
    match v {
        serde_json::Value::Null => Json::Null,
        serde_json::Value::Bool(b) => Json::Bool(b),
        serde_json::Value::Number(n) => match (n.as_u64(), n.as_i64()) {
            (Some(u), _) => Json::Unsigned(u),
            (_, Some(i)) => Json::Negative(i),
            _ => Json::Decimal(n.to_string()),
        },
        serde_json::Value::String(s) => Json::Text(s),
        serde_json::Value::Array(a) => Json::List(a.into_iter().map(value).collect()),
        serde_json::Value::Object(o) => {
            Json::Object(o.into_iter().map(|(k, v)| (k, value(v))).collect())
        }
    }
}

fn json(text: &str) -> Json {
    value(serde_json::from_str(text).unwrap())
}

fn read(v: &Json) -> serde_json::Value {
    serde_json::from_str(&render(v)).unwrap()
}

fn frames(d: &Dispatched) -> Vec<serde_json::Value> {
    d.frames.iter().map(read).collect()
}

fn situation(running: bool, steerable: bool) -> Situation {
    Situation {
        model: "test-model".into(),
        version: "1.0".into(),
        running,
        steerable,
        fresh: FRESH.into(),
        opened: Opened::At(WORKSPACE.into()),
    }
}

fn request(message: &str, running: bool, steerable: bool, pending: &mut Pending) -> Dispatched {
    let mut peer = Peer::for_workspace(WORKSPACE);
    dispatch_rpc(&json(message), &situation(running, steerable), pending, &mut peer)
}

fn assert_exactly_one_response(d: &Dispatched, id: serde_json::Value) {
    let values = frames(d);
    let responses: Vec<&serde_json::Value> =
        values.iter().filter(|v| v.get("id").is_some()).collect();
    assert_eq!(responses.len(), 1, "expected exactly one response, got {values:?}");
    assert_eq!(responses[0].get("id"), Some(&id), "{values:?}");
    assert_ne!(
        responses[0].get("result").is_some(),
        responses[0].get("error").is_some(),
        "response must contain exactly one of result/error: {values:?}"
    );
}

fn waiting(gates: &[u64]) -> Pending {
    let mut p = Pending::new();
    for g in gates {
        p.insert(*g);
    }
    p
}

fn denied(effects: &[Effect], gate: u64) -> bool {
    effects.iter().any(|e| matches!(e, Effect::Answer(g, Approval::Deny) if *g == gate))
}

#[test]
fn an_acp_client_completes_the_standard_session_handshake() {
    let mut peer = Peer::for_workspace(WORKSPACE);
    let mut pending = Pending::new();
    let at = situation(false, false);

    let d = dispatch_rpc(
        &json(
            r#"{"jsonrpc": "2.0", "id": 1, "method": "initialize",
               "params": {"protocolVersion": 1, "clientCapabilities": {}}}"#,
        ),
        &at,
        &mut pending,
        &mut peer,
    );
    assert!(peer.is_acp(), "protocolVersion selects the standard dialect");
    let initialized = frames(&d);
    assert_eq!(initialized[0]["result"]["protocolVersion"], 1);
    assert_eq!(initialized[0]["result"]["agentCapabilities"]["loadSession"], false);

    let d = dispatch_rpc(
        &json(&format!(
            r#"{{"jsonrpc": "2.0", "id": 2, "method": "session/new",
               "params": {{"cwd": "{WORKSPACE}", "mcpServers": []}}}}"#
        )),
        &at,
        &mut pending,
        &mut peer,
    );
    let created = frames(&d);
    let session_id = created[0]["result"]["sessionId"].as_str().unwrap().to_string();
    assert_eq!(Some(session_id.clone()), peer.session_id());

    let d = dispatch_rpc(
        &json(&format!(
            r#"{{"jsonrpc": "2.0", "id": 3, "method": "session/prompt",
               "params": {{"sessionId": "{session_id}",
                          "prompt": [{{"type": "text", "text": "fix the test"}}]}}}}"#
        )),
        &at,
        &mut pending,
        &mut peer,
    );
    // The response is the turn's stopReason, so it must be deferred.
    match &d.action {
        RpcAction::StartTurn { content, images, reply_to } => {
            assert_eq!(content, "fix the test");
            assert!(images.is_empty());
            assert_eq!(read(reply_to.as_ref().unwrap()), 3);
        }
        _ => panic!("no turn was started"),
    }
    assert!(
        d.frames.is_empty(),
        "session/prompt must not answer before the turn ends"
    );
}

#[test]
fn acp_rejects_duplicate_foreign_and_unimplemented_session_inputs() {
    let initialize = json(
        r#"{"jsonrpc": "2.0", "id": 1, "method": "initialize", "params": {"protocolVersion": 1}}"#,
    );
    let open = |id: u64, servers: &str| {
        json(&format!(
            r#"{{"jsonrpc": "2.0", "id": {id}, "method": "session/new",
               "params": {{"cwd": "{WORKSPACE}", "mcpServers": {servers}}}}}"#
        ))
    };
    let at = situation(false, false);
    let mut pending = Pending::new();
    let mut peer = Peer::for_workspace(WORKSPACE);
    dispatch_rpc(&initialize, &at, &mut pending, &mut peer);
    let created = frames(&dispatch_rpc(&open(2, "[]"), &at, &mut pending, &mut peer));
    let session_id = created[0]["result"]["sessionId"].as_str().map(str::to_string);

    let again = frames(&dispatch_rpc(&open(3, "[]"), &at, &mut pending, &mut peer));
    assert!(again[0].get("error").is_some());

    let foreign = json(
        r#"{"jsonrpc": "2.0", "id": 4, "method": "session/prompt",
           "params": {"sessionId": "foreign", "prompt": [{"type": "text", "text": "x"}]}}"#,
    );
    let foreign = frames(&dispatch_rpc(&foreign, &at, &mut pending, &mut peer));
    assert!(foreign[0].get("error").is_some());

    let mut second = Peer::for_workspace(WORKSPACE);
    dispatch_rpc(&initialize, &at, &mut pending, &mut second);
    let refused = dispatch_rpc(
        &open(5, r#"[{"name": "repo-server"}]"#),
        &at,
        &mut pending,
        &mut second,
    );
    assert!(frames(&refused)[0].get("error").is_some());
    assert_eq!(peer.session_id(), session_id);
}

#[test]
fn an_acp_permission_response_reaches_the_waiting_gate() {
    let mut peer = Peer::for_workspace(WORKSPACE);
    peer.select_acp();
    let mut pending = waiting(&[7]);
    let answer = |gate: u64, outcome: &str| {
        json(&format!(
            r#"{{"jsonrpc": "2.0", "id": "{}", "result": {{"outcome": {outcome}}}}}"#,
            acp_gate_request_id(gate)
        ))
    };
    let d = dispatch_rpc(
        &answer(7, r#"{"outcome": "selected", "optionId": "allow-once"}"#),
        &situation(true, false),
        &mut pending,
        &mut peer,
    );
    assert!(matches!(d.effects[..], [Effect::Answer(7, Approval::Once)]));
    assert!(pending.gates.is_empty());

    pending.insert(8);
    let d = dispatch_rpc(
        &answer(8, r#"{"outcome": "cancelled"}"#),
        &situation(true, false),
        &mut pending,
        &mut peer,
    );
    assert!(
        matches!(d.effects[..], [Effect::Answer(8, Approval::Deny)]),
        "cancelled is not consent"
    );
}

#[test]
fn escalated_permission_options_omit_the_remembering_tier() {
    let detail = "cargo test".to_string();
    let escalated = read(&request_acp_permission(None, 1, "shell.exec", Some(&detail), true));
    assert_eq!(escalated["params"]["toolCall"]["rawInput"]["detail"], "cargo test");
    let kinds: Vec<&str> = escalated["params"]["options"]
        .as_array()
        .expect("options array")
        .iter()
        .filter_map(|option| option["kind"].as_str())
        .collect();
    assert_eq!(kinds, ["allow_once", "reject_once"]);

    let plain = read(&request_acp_permission(None, 2, "shell.exec", None, false));
    assert!(plain["params"]["options"]
        .as_array()
        .expect("options array")
        .iter()
        .any(|option| option["kind"] == "allow_always"));
}

#[test]
fn acp_always_is_remembered_for_the_live_non_escalated_action() {
    let mut gate = AcpGate::new();
    let session = FRESH.to_string();
    let detail = "a.rs".to_string();
    match gate.confirm(true, Some(&session), "edit", Some(&detail), false) {
        Confirm::Ask(id, frame) => {
            assert_eq!(acp_gate_id_from(frame.field("id").unwrap()), Some(id));
        }
        Confirm::Settled(_) => panic!("nothing was asked"),
    }
    assert_eq!(gate.settle("edit", false, Some(Approval::Always)), Approval::Always);
    assert!(
        matches!(
            gate.confirm(true, Some(&session), "edit", None, false),
            Confirm::Settled(Approval::Always)
        ),
        "remembered approval prompted again"
    );
    assert!(matches!(
        gate.confirm(true, Some(&session), "edit", None, true),
        Confirm::Ask(_, _)
    ));
    assert_eq!(gate.settle("other", false, None), Approval::Deny);
}

#[test]
fn acp_tool_updates_keep_the_provider_call_id() {
    let session = FRESH.to_string();
    let call = tool_call_with_id_frame(
        true,
        Some(&session),
        "call-17",
        "read",
        &json(r#"{"path": "a.rs"}"#),
    );
    let result = tool_result_with_id_frame(
        true,
        Some(&session),
        "call-17",
        "read",
        true,
        &json(r#"{"content": "x"}"#),
    );
    assert_eq!(read(&call.unwrap())["params"]["update"]["toolCallId"], "call-17");
    assert_eq!(read(&result.unwrap())["params"]["update"]["toolCallId"], "call-17");
}

#[test]
fn medha_stop_reasons_map_onto_the_acp_vocabulary() {
    assert_eq!(acp_stop_reason(&StopReason::Finished), "end_turn");
    assert_eq!(acp_stop_reason(&StopReason::Interrupted), "cancelled");
    assert_eq!(acp_stop_reason(&StopReason::VerificationFailed), "refusal");
    assert_eq!(
        acp_stop_reason(&StopReason::Budget { tokens: true, label: "tokens".into() }),
        "max_tokens"
    );
}

fn inline(image: &AcpImage, mime: &str, data: &str) -> bool {
    matches!(image, AcpImage::Inline(m, d) if m == mime && d == data)
}

fn linked(image: &AcpImage, path: &str) -> bool {
    matches!(image, AcpImage::Linked(p) if p == path)
}

fn prompt(text: &str) -> AcpPrompt {
    acp_prompt(Some(&json(text)))
}

#[test]
fn acp_prompt_blocks_keep_text_resources_and_images() {
    let parsed = prompt(
        r#"[
        {"type": "text", "text": "explain"},
        {"type": "resource", "resource": {"uri": "file:///a.rs", "text": "fn main() {}"}},
        {"type": "image", "mimeType": "image/jpeg", "data": "QUJD"},
        {"type": "audio", "data": "not supported"}
    ]"#,
    );
    assert_eq!(parsed.text, "explain\nfn main() {}");
    assert_eq!(parsed.images.len(), 1);
    assert!(inline(&parsed.images[0], "image/jpeg", "QUJD"));
    assert!(acp_prompt(None).text.is_empty());
    assert!(acp_prompt(None).is_empty());
}

#[test]
fn a_linked_image_file_is_an_attachment() {
    let by_mime = prompt(
        r#"[{"type": "resource_link", "uri": "file:///tmp/a%20shot.png",
         "name": "a shot.png", "mimeType": "image/png"}]"#,
    );
    assert_eq!(by_mime.images.len(), 1);
    assert!(
        linked(&by_mime.images[0], "/tmp/a shot.png"),
        "a percent-encoded file URI names a real path"
    );

    // Editors do not always send a mimeType; the extension decides then.
    let by_extension =
        prompt(r#"[{"type": "resource_link", "uri": "file:///tmp/diagram.JPEG"}]"#);
    assert_eq!(by_extension.images.len(), 1);
    assert!(linked(&by_extension.images[0], "/tmp/diagram.JPEG"));
}

#[test]
fn a_linked_non_image_is_named_rather_than_dropped() {
    let parsed = prompt(
        r#"[
        {"type": "resource_link", "uri": "file:///tmp/report.pdf", "mimeType": "application/pdf"},
        {"type": "resource_link", "uri": "https://example.com/remote.png", "mimeType": "image/png"}
    ]"#,
    );
    assert!(parsed.images.is_empty(), "no bytes to attach");
    assert_eq!(
        parsed.text,
        "[attached resource: file:///tmp/report.pdf]\n\
         [attached resource: https://example.com/remote.png]"
    );
}

#[test]
fn an_embedded_blob_resource_is_an_image_and_text_resources_still_are_not() {
    let parsed = prompt(
        r#"[
        {"type": "resource", "resource": {"uri": "file:///a.png", "mimeType": "image/png", "blob": "QUJD"}},
        {"type": "resource", "resource": {"uri": "file:///a.rs", "mimeType": "text/rust", "text": "fn main() {}"}}
    ]"#,
    );
    assert_eq!(parsed.images.len(), 1);
    assert!(inline(&parsed.images[0], "image/png", "QUJD"));
    assert_eq!(parsed.text, "fn main() {}");
}

#[test]
fn an_image_only_prompt_is_a_prompt() {
    let parsed = prompt(r#"[{"type": "image", "data": "QUJD"}]"#);
    assert!(!parsed.is_empty(), "an image alone is enough to answer");
    assert_eq!(parsed.images.len(), 1);
    assert!(inline(&parsed.images[0], "image/png", "QUJD"));
}

#[test]
fn escapes_in_a_path_are_decoded() {
    assert_eq!(percent_decode("a%20b%C3%A9"), "a bé");
    assert_eq!(percent_decode("100%"), "100%");
    assert_eq!(percent_decode("%+5"), "%+5");
    assert_eq!(percent_decode("/a%20b%zz%4"), "/a b%zz%4");
    assert_eq!(acp_file_path("file:///%aé").as_deref(), Some("/%aé"));
    assert_eq!(percent_decode("%ff"), "\u{fffd}");
    assert_eq!(acp_file_path("file:///a%20b").as_deref(), Some("/a b"));
    assert_eq!(acp_file_path("https://a/b"), None);
}

fn in_session() -> Peer {
    let mut peer = Peer::for_workspace(WORKSPACE);
    let opened = Opened::At(WORKSPACE.into());
    assert!(peer
        .start_session(WORKSPACE, &opened, Some(&json("[]")), FRESH)
        .is_ok());
    peer
}

#[test]
fn an_image_only_prompt_carries_the_shared_default_text() {
    let mut peer = in_session();
    let message = json(&format!(
        r#"{{"jsonrpc": "2.0", "id": 4, "method": "session/prompt",
           "params": {{"sessionId": "medha-{FRESH}",
                      "prompt": [{{"type": "image", "mimeType": "image/png", "data": "QUJD"}}]}}}}"#
    ));
    let mut pending = Pending::new();
    let d = dispatch_line(Some(&message), &situation(false, false), &mut pending, &mut peer);
    match &d.action {
        RpcAction::StartTurn { content, images, reply_to } => {
            assert_eq!(content, IMAGE_ONLY_PROMPT);
            assert!(inline(&images[0], "image/png", "QUJD"));
            assert_eq!(read(reply_to.as_ref().unwrap()), 4);
        }
        _ => panic!("no turn was started"),
    }
}

#[test]
fn an_image_cannot_join_a_running_turn() {
    let mut peer = in_session();
    let message = json(&format!(
        r#"{{"jsonrpc": "2.0", "id": 5, "method": "session/prompt",
           "params": {{"sessionId": "medha-{FRESH}",
                      "prompt": [{{"type": "text", "text": "and this"}},
                                 {{"type": "image", "data": "QUJD"}}]}}}}"#
    ));
    let mut pending = Pending::new();
    let d = dispatch_line(Some(&message), &situation(true, true), &mut pending, &mut peer);
    assert!(matches!(d.action, RpcAction::Nothing));
    let replies = frames(&d);
    assert!(replies[0]["error"]["message"].as_str().unwrap().contains("already running"));
}

#[test]
fn editors_are_told_images_are_accepted() {
    let mut peer = Peer::for_workspace(WORKSPACE);
    let mut pending = Pending::new();
    let d = dispatch_line(
        Some(&json(
            r#"{"jsonrpc": "2.0", "id": 1, "method": "initialize", "params": {"protocolVersion": 1}}"#,
        )),
        &situation(false, false),
        &mut pending,
        &mut peer,
    );
    assert_eq!(
        frames(&d)[0].pointer("/result/agentCapabilities/promptCapabilities/image"),
        Some(&serde_json::Value::Bool(true))
    );
}

#[test]
fn a_legacy_initialize_does_not_switch_dialects() {
    let mut peer = Peer::for_workspace(WORKSPACE);
    let mut pending = Pending::new();
    let d = dispatch_rpc(
        &json(r#"{"jsonrpc": "2.0", "id": 1, "method": "initialize"}"#),
        &situation(false, false),
        &mut pending,
        &mut peer,
    );
    assert!(!peer.is_acp());
    assert_eq!(frames(&d)[0]["result"]["proto"], "1.0");
}

#[test]
fn json_rpc_requests_receive_exactly_one_result_or_error() {
    for (id, method) in [(1, "initialize"), (2, "hello")] {
        let d = request(
            &format!(r#"{{"jsonrpc": "2.0", "id": {id}, "method": "{method}"}}"#),
            false,
            false,
            &mut Pending::new(),
        );
        assert_exactly_one_response(&d, id.into());
    }

    let d = request(
        r#"{"jsonrpc": "2.0", "id": 3, "method": "message.send", "params": {"content": "hello"}}"#,
        false,
        false,
        &mut Pending::new(),
    );
    match &d.action {
        RpcAction::StartTurn { content, images, reply_to } => {
            assert_eq!(content, "hello");
            assert!(images.is_empty());
            assert!(reply_to.is_none());
        }
        _ => panic!("no turn was started"),
    }
    assert_exactly_one_response(&d, 3.into());

    let d = request(
        r#"{"jsonrpc": "2.0", "id": 4, "method": "message.send", "params": {"content": "change course"}}"#,
        true,
        true,
        &mut Pending::new(),
    );
    assert_exactly_one_response(&d, 4.into());
    assert!(matches!(&d.effects[..], [Effect::Steer(s)] if s == "change course"));

    let mut pending = waiting(&[41]);
    let d = request(
        r#"{"jsonrpc": "2.0", "id": 5, "method": "approval.respond", "params": {"gate_id": 41, "approve": true}}"#,
        true,
        false,
        &mut pending,
    );
    assert!(matches!(d.effects[..], [Effect::Answer(41, Approval::Once)]));
    assert_exactly_one_response(&d, 5.into());

    for (id, method) in [(6, "cancel"), (7, "interrupt")] {
        let mut pending = waiting(&[id]);
        let d = request(
            &format!(r#"{{"jsonrpc": "2.0", "id": {id}, "method": "{method}"}}"#),
            true,
            true,
            &mut pending,
        );
        assert!(d.effects.iter().any(|e| matches!(e, Effect::CancelTurn)));
        assert!(denied(&d.effects, id));
        assert!(pending.gates.is_empty());
        assert_exactly_one_response(&d, id.into());
    }

    for (id, method) in [(8, "shutdown"), (9, "exit")] {
        let mut pending = waiting(&[id]);
        let d = request(
            &format!(r#"{{"jsonrpc": "2.0", "id": {id}, "method": "{method}"}}"#),
            true,
            true,
            &mut pending,
        );
        assert!(matches!(d.action, RpcAction::Shutdown));
        assert!(d.effects.iter().any(|e| matches!(e, Effect::CancelTurn)));
        assert!(denied(&d.effects, id));
        assert_exactly_one_response(&d, id.into());
    }
}

#[test]
fn invalid_busy_and_unknown_requests_receive_one_error() {
    let cases = [
        (10, r#"{"jsonrpc": "1.0", "id": 10, "method": "hello"}"#),
        (11, r#"{"jsonrpc": "2.0", "id": 11}"#),
        (12, r#"{"jsonrpc": "2.0", "id": 12, "method": "message.send", "params": {"content": ""}}"#),
        (13, r#"{"jsonrpc": "2.0", "id": 13, "method": "approval.respond", "params": {"gate_id": 1}}"#),
        (
            14,
            r#"{"jsonrpc": "2.0", "id": 14, "method": "approval.respond", "params": {"gate_id": 999, "approve": true}}"#,
        ),
        (15, r#"{"jsonrpc": "2.0", "id": 15, "method": "does.not.exist"}"#),
    ];
    for (id, message) in cases {
        let d = request(message, false, false, &mut Pending::new());
        assert_exactly_one_response(&d, id.into());
        assert!(frames(&d)[0].get("error").is_some());
    }

    let d = request(
        r#"{"jsonrpc": "2.0", "id": 16, "method": "message.send", "params": {"content": "busy"}}"#,
        true,
        false,
        &mut Pending::new(),
    );
    assert_exactly_one_response(&d, 16.into());
    assert!(frames(&d)[0].get("error").is_some());

    let mut peer = Peer::for_workspace(WORKSPACE);
    let d = dispatch_line(None, &situation(false, false), &mut Pending::new(), &mut peer);
    assert!(matches!(d.action, RpcAction::Nothing));
    assert_exactly_one_response(&d, serde_json::Value::Null);

    let d = request(r#"["not", "an", "object"]"#, false, false, &mut Pending::new());
    assert_exactly_one_response(&d, serde_json::Value::Null);
}

#[test]
fn valid_notifications_never_receive_a_response() {
    let mut pending = waiting(&[7]);
    let mut effects = Vec::new();
    for (message, running) in [
        (r#"{"jsonrpc": "2.0", "method": "initialize"}"#, false),
        (r#"{"jsonrpc": "2.0", "method": "message.send", "params": {"content": "hello"}}"#, false),
        (r#"{"jsonrpc": "2.0", "method": "message.send", "params": {"content": "steer"}}"#, true),
        (
            r#"{"jsonrpc": "2.0", "method": "approval.respond", "params": {"gate_id": 7, "decision": "deny"}}"#,
            false,
        ),
        (r#"{"jsonrpc": "2.0", "method": "cancel"}"#, false),
        (r#"{"jsonrpc": "2.0", "method": "shutdown"}"#, false),
        (r#"{"jsonrpc": "2.0", "method": "unknown"}"#, false),
    ] {
        let d = request(message, running, running, &mut pending);
        let values = frames(&d);
        assert!(
            values.iter().all(|value| value.get("id").is_none()),
            "notifications produced a response: {values:?}"
        );
        effects.extend(d.effects);
    }
    assert!(denied(&effects, 7));
}

#[test]
fn resumed_transcript_is_preserved_exactly_after_the_current_system_prompt() {
    let resumed = vec!["prior user", "prior answer", r#"{"ok":true}"#];
    let actual = session_transcript("current system", resumed.clone());
    assert_eq!(actual.len(), resumed.len() + 1);
    assert_eq!(actual[0], "current system");
    assert_eq!(actual[1..], resumed[..]);
}

#[test]
fn protocol_error_and_shutdown_drain_pending_approvals() {
    let mut pending = waiting(&[1]);
    let mut peer = Peer::for_workspace(WORKSPACE);
    let d = dispatch_line(None, &situation(true, false), &mut pending, &mut peer);
    assert!(denied(&d.effects, 1));
    assert!(pending.gates.is_empty());

    pending.insert(2);
    let d = request(
        r#"{"jsonrpc": "2.0", "id": 20, "method": "shutdown"}"#,
        true,
        true,
        &mut pending,
    );
    assert!(matches!(d.action, RpcAction::Shutdown));
    assert!(d.effects.iter().any(|e| matches!(e, Effect::CancelTurn)));
    assert!(denied(&d.effects, 2));
    assert!(pending.gates.is_empty());
}

#[test]
fn turn_completion_denies_and_clears_pending_approvals() {
    let mut pending = waiting(&[1, 2]);
    let effects = deny_pending(&mut pending);
    assert_eq!(effects.len(), 2);
    assert!(denied(&effects, 1));
    assert!(denied(&effects, 2));
    assert!(pending.gates.is_empty());
}

#[test]
fn a_turn_answers_the_prompt_that_started_it() {
    let mut c = Connection::new(WORKSPACE);
    let open = |text: &str| json(text);
    let receive = |c: &mut Connection, text: &str| {
        c.receive(Some(&open(text)), "m", "1.0", FRESH, Opened::At(WORKSPACE.into()))
    };
    receive(
        &mut c,
        r#"{"jsonrpc": "2.0", "id": 1, "method": "initialize", "params": {"protocolVersion": 1}}"#,
    );
    receive(
        &mut c,
        &format!(
            r#"{{"jsonrpc": "2.0", "id": 2, "method": "session/new", "params": {{"cwd": "{WORKSPACE}", "mcpServers": []}}}}"#
        ),
    );
    let d = receive(
        &mut c,
        &format!(
            r#"{{"jsonrpc": "2.0", "id": 3, "method": "session/prompt",
               "params": {{"sessionId": "medha-{FRESH}", "prompt": [{{"type": "text", "text": "x"}}]}}}}"#
        ),
    );
    assert!(matches!(d.action, RpcAction::StartTurn { .. }));
    c.turn_started();
    c.pending.insert(9);
    let (frame, effects) = c.turn_ended(&TurnDone::Stopped(StopReason::Finished));
    let frame = read(&frame);
    assert_eq!(frame["id"], 3);
    assert_eq!(frame["result"]["stopReason"], "end_turn");
    assert!(denied(&effects, 9));
    assert!(!c.running);
}

#[test]
fn a_writer_that_falls_behind_is_given_up() {
    let mut w = Writer::new();
    assert!(w.write_value(10, true));
    assert!(!w.write_value(10, false));
    assert!(w.cancelled);
    let mut w = Writer::new();
    assert!(w.write_value(10, true));
    w.written(10, true);
    assert_eq!(w.queued_bytes, 0);
    w.written(0, false);
    assert!(w.cancelled);
    assert!(matches!(read_frame(0, None), FrameRead::Closed));
    assert!(matches!(read_frame(3, Some(b'\n')), FrameRead::Line));
}

#[test]
fn frames_tell_what_happens() {
    let session = FRESH.to_string();
    assert!(text_frame(true, None, "x").is_none());
    let chunk = read(&text_frame(true, Some(&session), "x").unwrap());
    assert_eq!(chunk["params"]["sessionId"], FRESH);
    assert_eq!(acp_tool_kind("ls"), "read");
    assert_eq!(read(&ready_frame("m"))["jsonrpc"], "2.0");
    assert!(render(&usage_frame(1, 2, None)).contains("null"));
    assert!(render(&compaction_frame(9, 4, true, None)).contains('9'));
    assert!(render(&approval_frame(3, "edit", None, false)).contains("edit"));
}

#[test]
fn cancelling_the_own_session_is_answered() {
    let mut peer = in_session();
    let session = peer.session_id().unwrap();
    let mut pending = waiting(&[7]);
    let message = json(&format!(
        r#"{{"jsonrpc": "2.0", "id": 9, "method": "session/cancel", "params": {{"sessionId": "{session}"}}}}"#
    ));
    let d = dispatch_rpc(&message, &situation(true, true), &mut pending, &mut peer);
    assert_exactly_one_response(&d, 9.into());
    assert_eq!(frames(&d)[0]["result"], serde_json::Value::Object(Default::default()));
    assert!(denied(&d.effects, 7));
    let message = json(&format!(
        r#"{{"jsonrpc": "2.0", "method": "session/cancel", "params": {{"sessionId": "{session}"}}}}"#
    ));
    let d = dispatch_rpc(&message, &situation(true, true), &mut pending, &mut peer);
    assert!(frames(&d).is_empty());
}

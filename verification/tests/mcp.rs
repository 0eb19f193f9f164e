use medha::json::{array_of_texts, object0, object1, object2, string, Json};
use medha::mcp::catalog::{build_catalog, flatten, truncate, validate_arguments, ContentBlock, Tool};
use medha::mcp::errors::{show_time, Error, ServerState};
use medha::mcp::launch::{
    build_environment, mcp_cache_dir, resolve_variables, sanitized_environment, Config,
    ServerConfig, Transport,
};
use medha::mcp::manager::{backoff, McpManager};
use medha::mcp::names::{
    glob, is_mcp_tool, parse_qualified, qualify, valid_tool_name, ToolFilter,
};
use medha::mcp::ipv6::{parse_ipv6, read_host};
use medha::mcp::policy::{
    callback_page, challenge_of, connect_remote, disallowed_host, disallowed_ipv4, disallowed_ipv6,
    grant_in, id_from_url, is_url, parse_ipv4, query_pairs, request_target, require_secure,
    takes_chunk, url_parts, validate_remote_url, Challenge, EndpointPolicy, RemoteAuth, RemoteStep,
};

fn words(list: &[&str]) -> Vec<String> {
    list.iter().map(|w| w.to_string()).collect()
}

fn vars(list: &[(&str, &str)]) -> Vec<(String, String)> {
    list.iter().map(|(k, v)| (k.to_string(), v.to_string())).collect()
}

fn stdio(command: &[&str]) -> Transport {
    Transport::Stdio { command: words(command), env: Vec::new() }
}

fn tool(name: &str) -> Tool {
    Tool { name: name.to_string(), description: Some("a tool".to_string()), schema: object0() }
}

fn server(id: &str) -> ServerConfig {
    ServerConfig { id: id.to_string(), transport: stdio(&["true"]), ..ServerConfig::default() }
}

fn manager(servers: Vec<ServerConfig>) -> McpManager {
    McpManager::new(Config { enabled: true, ..Config::default() }, servers)
}

fn ready(id: &str, tools: Vec<Tool>) -> McpManager {
    let mut m = manager(vec![server(id)]);
    assert!(m.begin_connect(id).is_ok());
    let catalog = build_catalog(id, &ToolFilter::default(), tools);
    m.set_tools(id, catalog);
    assert!(m.connected(id).is_ok());
    m
}

#[test]
fn qualified_names_round_trip() {
    let name = qualify("github", "search_code");
    assert_eq!(name, "mcp__github__search_code");
    assert_eq!(
        parse_qualified(&name).ok().unwrap(),
        ("github".to_string(), "search_code".to_string())
    );
    assert!(is_mcp_tool(&name));
    assert!(!is_mcp_tool("fs.read"));
}

#[test]
fn bad_tool_names_are_rejected() {
    assert!(parse_qualified("fs.read").is_err());
    assert!(parse_qualified("mcp__only").is_err());
    assert!(parse_qualified("mcp____tool").is_err());
    assert!(parse_qualified("mcp__server__").is_err());
}

#[test]
fn suspicious_tool_names_never_reach_the_model() {
    assert!(valid_tool_name("search_code"));
    assert!(!valid_tool_name(""));
    assert!(!valid_tool_name("evil__name")); // would break qualified parsing
    assert!(!valid_tool_name("drop\ntable")); // control characters
    assert!(!valid_tool_name(&"x".repeat(129)));
}

#[test]
fn filter_allows_then_denies() {
    let filter = ToolFilter {
        allow: vec!["get_*".into(), "quote".into()],
        deny: vec!["get_secret".into()],
    };
    assert!(filter.admits("get_price"));
    assert!(filter.admits("quote"));
    assert!(!filter.admits("get_secret"));
    assert!(!filter.admits("delete_all"));
    assert!(ToolFilter::default().admits("anything"));
    assert!(glob("*", "x"));
    assert!(!glob("x", "xy"));
}

#[test]
fn catalog_hides_filtered_and_malformed_tools() {
    let filter = ToolFilter {
        allow: Vec::new(),
        deny: vec!["hidden".into()],
    };
    let catalog = build_catalog(
        "srv",
        &filter,
        vec![tool("visible"), tool("hidden"), tool("bad__name")],
    );
    assert_eq!(catalog.exposed.len(), 1);
    assert_eq!(catalog.exposed[0].name, "mcp__srv__visible");
    assert_eq!(catalog.hidden, 2);
}

#[test]
fn required_arguments_are_checked() {
    let schema = object2(
        "type",
        string("object"),
        "required",
        array_of_texts(&words(&["symbol"])),
    );
    assert!(validate_arguments(&schema, &object1("symbol", string("AAPL"))).is_ok());
    assert!(validate_arguments(&schema, &object0()).is_err());
    assert!(validate_arguments(&schema, &Json::Null).is_err());
    assert!(validate_arguments(&schema, &string("oops")).is_err());
    assert!(validate_arguments(&object0(), &object0()).is_ok());
}

#[test]
fn backoff_grows_then_caps() {
    assert_eq!(backoff(1), 1_000);
    assert_eq!(backoff(2), 2_000);
    assert_eq!(backoff(64), 30_000);
}

#[test]
fn sanitized_environment_excludes_secrets() {
    let env = sanitized_environment(&vars(&[
        ("MEDHA_SECRET_TOKEN", "shh"),
        ("PATH", "/usr/bin"),
    ]));
    assert!(env.iter().any(|(k, _)| k == "PATH"));
    assert!(env.iter().all(|(k, _)| k != "MEDHA_SECRET_TOKEN"));
}

#[test]
fn a_server_sees_its_own_variables_and_its_key() {
    let own = resolve_variables(&vars(&[("TOKEN", "Bearer ${key}"), ("MODE", "x")]), Some("k"));
    assert_eq!(own, vars(&[("TOKEN", "Bearer k"), ("MODE", "x")]));
    let env = build_environment(&vars(&[("PATH", "/bin"), ("AWS_SECRET", "s")]), &own);
    assert!(env.contains(&("TOKEN".to_string(), "Bearer k".to_string())));
    assert!(env.iter().all(|(k, _)| k != "AWS_SECRET"));
    assert_eq!(
        mcp_cache_dir(&vars(&[("HOME", "/home/u")])).as_deref(),
        Some("/home/u/.medha/mcp-cache")
    );
    assert_eq!(mcp_cache_dir(&vars(&[])), None);
}

#[test]
fn disabled_manager_rejects_calls() {
    let manager = McpManager::new(Config::default(), Vec::new());
    assert!(!manager.enabled());
    assert!(matches!(
        manager.call("mcp__x__y", &object0()),
        Err(Error::Disabled)
    ));
}

#[test]
fn unready_server_reports_its_state_not_a_missing_server() {
    let manager = manager(vec![ServerConfig { requires_approval: true, ..server("gated") }]);
    let error = manager.call("mcp__gated__thing", &object0()).err().unwrap();
    assert_eq!(error.server_state(), Some(ServerState::NeedsApproval));
    assert_eq!(error.text(), "MCP server 'gated' is awaiting approval");
    assert!(matches!(
        manager.call("mcp__absent__thing", &object0()),
        Err(Error::UnknownServer(_))
    ));
}

#[test]
fn terminal_failures_do_not_schedule_retries() {
    let mut manager = manager(vec![server("missing")]);
    assert_eq!(manager.connect_startup(), ["missing"]);
    let error = Error::Unavailable {
        server: "missing".into(),
        command: "medha-no-such-binary".into(),
        hint: "install it".into(),
    };
    manager.record_failure("missing", &error, 0);
    let status = &manager.status()[0];
    assert_eq!(status.state, ServerState::Failed);
    assert!(status.detail.as_deref().unwrap_or("").contains("unavailable"));
    assert!(manager.health_sweep(&words(&[]), 1_000_000).due.is_empty());
}

#[test]
fn a_lost_server_is_tried_again_after_a_wait() {
    let mut m = ready("srv", vec![tool("echo")]);
    let sweep = m.health_sweep(&words(&["srv"]), 10_000);
    assert_eq!(sweep.lost, ["srv"]);
    m.record_failure("srv", &Error::Protocol("gone".into()), 10_000);
    assert!(m.health_sweep(&words(&[]), 10_001).due.is_empty());
    assert_eq!(m.tool_specs().len(), 1);
    assert_eq!(m.health_sweep(&words(&[]), 60_000).due, ["srv"]);
    assert!(m.tool_specs().is_empty());
}

#[test]
fn a_call_goes_to_an_exposed_tool_alone() {
    let mut m = ready("srv", vec![tool("echo"), tool("bad__name")]);
    assert_eq!(m.tool_specs().len(), 1);
    let route = m.call("mcp__srv__echo", &object0()).ok().unwrap();
    assert_eq!((route.server.as_str(), route.tool.as_str()), ("srv", "echo"));
    let out = m.finish_call(route, "hello".into(), None);
    assert_eq!(out.text, "hello");
    assert!(!out.is_error);
    assert!(matches!(
        m.call("mcp__srv__other", &object0()),
        Err(Error::UnknownTool { .. })
    ));
    assert!(matches!(m.call("echo", &object0()), Err(Error::BadToolName(_))));
    assert!(matches!(m.remove_server("srv"), Ok(true)));
    assert!(m.server_status("srv").is_err());
}

#[test]
fn a_disabled_server_is_never_connected() {
    let m = manager(vec![ServerConfig { disabled: true, ..server("off") }, server("on")]);
    assert_eq!(m.connect_startup(), ["on"]);
    assert_eq!(m.server_status("off").ok().unwrap().state, ServerState::Disabled);
    assert!(m.tool_specs().is_empty());
}

#[test]
fn a_server_that_is_switched_off_stays_off() {
    let mut m = manager(vec![ServerConfig { disabled: true, ..server("off") }]);
    let error = m.begin_connect("off").err().unwrap();
    assert_eq!(error.text(), "MCP server 'off' is disabled");
    assert!(m.approve_and_connect("off").is_err());
    assert!(m.authorize("off", true).is_err());
    assert!(m.is_off("off"));
    assert!(matches!(m.add_server(ServerConfig { disabled: true, ..server("new") }), Ok(false)));
    assert_eq!(m.server_status("new").ok().unwrap().state, ServerState::Disabled);
}

#[test]
fn an_announced_change_refreshes_the_tools() {
    let mut m = ready("srv", vec![tool("echo")]);
    assert!(m.wants_listing("srv"));
    assert!(!m.wants_listing("other"));
    m.refresh_tools("srv", None);
    assert_eq!(m.tool_specs().len(), 1);
    m.refresh_tools("srv", Some(vec![tool("a"), tool("b")]));
    let names: Vec<String> = m.tool_specs().into_iter().map(|t| t.name).collect();
    assert_eq!(names, ["mcp__srv__a", "mcp__srv__b"]);
    assert!(m.servers[0].proven);
    m.refresh_tools("other", Some(vec![tool("c")]));
    assert_eq!(m.tool_specs().len(), 2);
}

#[test]
fn this_machine_is_exempt_from_secure_addresses() {
    for own in ["http://localhost/mcp", "http://127.0.0.1:8080/mcp", "http://[::1]:8080/mcp"] {
        assert!(require_secure(own).is_ok(), "{own}");
        assert!(validate_remote_url(own).is_ok(), "{own}");
    }
    for other in ["http://[::2]/mcp", "http://10.0.0.1/mcp", "http://example.com/mcp"] {
        assert!(require_secure(other).is_err(), "{other}");
    }
}

#[test]
fn addresses_of_eight_groups_are_read() {
    assert_eq!(parse_ipv6("::1"), Some(vec![0, 0, 0, 0, 0, 0, 0, 1]));
    assert_eq!(parse_ipv6("::"), Some(vec![0; 8]));
    assert_eq!(parse_ipv6("1:2:3:4:5:6:7:8"), Some(vec![1, 2, 3, 4, 5, 6, 7, 8]));
    assert_eq!(parse_ipv6("fe80::A:b"), Some(vec![0xfe80, 0, 0, 0, 0, 0, 0xa, 0xb]));
    assert_eq!(parse_ipv6("::ffff:1.2.3.4"), Some(vec![0, 0, 0, 0, 0, 0xffff, 0x102, 0x304]));
    for bad in ["", ":", ":::", "1::2::3", "1:2:3:4:5:6:7", "12345::", "g::", "1.2.3.4::", "1:2:3:4:5:6:7:8::"] {
        assert_eq!(parse_ipv6(bad), None, "{bad}");
    }
    assert_eq!(read_host("[::1]"), parse_ipv6("::1"));
}

#[test]
fn an_approved_server_is_connected() {
    let mut m = manager(vec![ServerConfig { requires_approval: true, ..server("gated") }]);
    assert!(m.connect_startup().is_empty());
    let preview = m.start_preview("gated").ok().unwrap();
    assert!(preview.approval_required);
    assert_eq!(preview.target, "true");
    assert_eq!(preview.transport, "stdio");
    assert!(m.approve("gated").is_ok());
    assert!(m.begin_connect("gated").is_ok());
    assert!(m.approve("other").is_err());
}

#[test]
fn results_are_flattened_to_text() {
    let text = flatten(
        &vec![ContentBlock::Text("a".into()), ContentBlock::Text("b".into())],
        None,
    );
    assert_eq!(text, "a\nb");
    assert_eq!(truncate("abcdef", 3), "abc…");
    assert_eq!(truncate("abc", 3), "abc");
    assert_eq!(show_time(1_500), "1.5s");
    assert_eq!(show_time(20), "20ms");
}

#[test]
fn plaintext_remote_urls_are_refused() {
    assert!(require_secure("https://mcp.linear.app/mcp").is_ok());
    assert!(require_secure("http://127.0.0.1:8080/mcp").is_ok());
    assert!(require_secure("http://localhost:8080/mcp").is_ok());
    assert!(require_secure("http://mcp.example.com/mcp").is_err());
    assert!(require_secure("ftp://example.com").is_err());
    assert!(require_secure("not a url").is_err());
    assert!(validate_remote_url("http://mcp.example.com/mcp").is_err());
}

#[test]
fn callback_query_is_decoded() {
    let pairs = query_pairs("/callback?code=a%2Fb&state=xyz&iss=https%3A%2F%2Fissuer");
    assert_eq!(pairs[0], ("code".into(), "a/b".into()));
    assert_eq!(pairs[1], ("state".into(), "xyz".into()));
    assert_eq!(pairs[2], ("iss".into(), "https://issuer".into()));
    assert!(query_pairs("/favicon.ico").is_empty());
}

#[test]
fn a_callback_grants_or_denies() {
    let target = request_target("GET /callback?code=a&state=s HTTP/1.1\r\n\r\n");
    assert_eq!(target, "/callback?code=a&state=s");
    let granted = grant_in(&query_pairs(&target));
    match &granted {
        Some(Ok(c)) => assert_eq!((c.code.as_str(), c.state.as_str()), ("a", "s")),
        _ => panic!("no grant"),
    }
    assert!(callback_page(&granted).contains("<title>Medha</title>"));
    assert!(matches!(
        grant_in(&query_pairs("/callback?error=access_denied")),
        Some(Err(Error::Auth(_)))
    ));
    assert!(grant_in(&query_pairs("/favicon.ico")).is_none());
}

#[test]
fn a_pasted_url_is_enough_to_name_a_server() {
    assert_eq!(
        id_from_url("https://mcp.linear.app/mcp").as_deref(),
        Some("linear")
    );
    assert_eq!(
        id_from_url("https://mcp.alphavantage.co/mcp").as_deref(),
        Some("alphavantage")
    );
    assert_eq!(
        id_from_url("https://api.github.com/mcp").as_deref(),
        Some("github")
    );
    assert!(is_url("https://x.dev"));
    assert!(!is_url("npx"));
    assert_eq!(id_from_url("not a url"), None);
}

#[test]
fn an_address_has_its_parts() {
    let p = url_parts("HTTPS://user:pw@Example.com:8443/x").ok().unwrap();
    assert_eq!(p.text, "https://user:pw@example.com:8443/x");
    assert_eq!(p.scheme, "https");
    assert_eq!(p.host.as_deref(), Some("example.com"));
    assert_eq!(p.port, Some(8443));
    assert_eq!(p.username, "user");
    assert!(p.has_password);
}

#[test]
fn sign_in_stays_on_the_public_network() {
    let policy = EndpointPolicy::new("https://mcp.example.com/mcp").ok().unwrap();
    assert!(policy.validate("https://auth.example.com/authorize").is_ok());
    assert!(policy.validate("http://auth.example.com/authorize").is_err());
    assert!(policy.validate("https://10.0.0.1/authorize").is_err());
    assert!(policy.validate("https://u:p@auth.example.com/").is_err());
    assert!(policy.follows(0, "https://auth.example.com/next"));
    assert!(!policy.follows(100, "https://auth.example.com/next"));
    assert!(disallowed_ipv4(192, 168, 1, 1));
    assert!(!disallowed_ipv4(8, 8, 8, 8));
    assert!(disallowed_ipv6(&vec![0, 0, 0, 0, 0, 0, 0, 1]));
    assert!(!disallowed_ipv6(&vec![0x2606, 0x4700, 0, 0, 0, 0, 0, 0x1111]));
    assert!(disallowed_host("localhost"));
    assert!(disallowed_host("::1"));
    assert!(disallowed_host("[FE80::1]"));
    assert!(disallowed_host("[::ffff:10.0.0.1]"));
    assert!(!disallowed_host("[2606:4700::1111]"));
    assert!(policy.validate("https://[::1]/authorize").is_err());
    assert!(policy.validate("https://[fd00::1]/authorize").is_err());
    assert!(policy.validate("https://[2606:4700::1111]/authorize").is_ok());
    assert_eq!(parse_ipv4("127.0.0.1"), Some((127, 0, 0, 1)));
    assert_eq!(parse_ipv4("127.0.0"), None);
    assert!(takes_chunk(0, 10));
    assert!(!takes_chunk(usize::MAX, 1));
}

#[test]
fn an_oauth_challenge_routes_to_sign_in() {
    let metadata = words(&["Bearer resource_metadata=\"https://x/.well-known\""]);
    assert!(matches!(challenge_of(Some(401), &metadata), Challenge::OAuth));
    assert!(matches!(challenge_of(Some(401), &words(&[])), Challenge::Token));
    assert!(matches!(challenge_of(Some(200), &words(&[])), Challenge::Open));
    let url = "https://mcp.example.com/mcp";
    assert!(matches!(
        connect_remote("s", url, &RemoteAuth::Auto, false, Some(Challenge::OAuth)),
        RemoteStep::Refused(Error::NeedsAuth(_))
    ));
    assert!(matches!(
        connect_remote("s", url, &RemoteAuth::Auto, false, Some(Challenge::Token)),
        RemoteStep::Refused(Error::NeedsToken(_))
    ));
    assert!(matches!(
        connect_remote("s", url, &RemoteAuth::Auto, false, None),
        RemoteStep::Probe
    ));
    assert!(matches!(
        connect_remote("s", url, &RemoteAuth::Anonymous, false, None),
        RemoteStep::Plain
    ));
    assert!(matches!(
        connect_remote("s", "http://mcp.example.com", &RemoteAuth::Auto, false, None),
        RemoteStep::Refused(Error::BadUrl(_))
    ));
}

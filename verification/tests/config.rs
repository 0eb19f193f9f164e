use medha::config::credentials::{
    credentials_text, delete_mcp_key, fingerprint, mcp_key_id, mcp_key_present, mcp_oauth_id,
    prefer_keychain, store_failure, store_mcp_key, target_fingerprint, McpTokens, Vault,
};
use medha::config::models::{migrate_legacy_provider, Config};
use medha::config::providers::{
    normalize_api_key, parse_auth, parse_positive_u32, parse_positive_u64, parse_protocol,
    parse_reasoning_support, parse_token_accounting, parse_token_counter, provider_presets,
    AuthKind, Protocol, ProviderConfig, ReasoningSupport, TokenAccountingMode, TokenCounter,
};
use medha::config::pulse::{apply_safe_fixes, diagnose_checks, pulse, Health};
use medha::config::resolve::{
    assemble, child_environment, endpoint, parse_headers, resolve, resolve_model,
    resolve_model_with_key, CredSource, Keys, OtherProtocols, Source,
};
use medha::config::search::{
    auto_detect_search_provider, resolve_search, search_cred_id, SearchProvider,
};
use medha::config::servers::{parse_mcp_add_args, resolve_mcp_server, McpServer};
use medha::config::workspace::{
    config_path, encode_workspace, legacy_notice, medha_home, readable_workspace_slug,
    skills_lock_path, state_dir_in, tightened, user_skills_dir, user_skills_dir_in, user_taps_path,
    workspace_path_identity, StateAction, StateChoice, StateEvent,
};
use medha::table::Table;

fn bytes(path: &str) -> Vec<u8> {
    path.as_bytes().to_vec()
}

fn encoded(path: &str) -> String {
    encode_workspace(path, &bytes(path))
}

fn state(home: &str, path: &str) -> String {
    state_dir_in(home, path, &bytes(path))
}

fn words(list: &[&str]) -> Vec<String> {
    list.iter().map(|w| w.to_string()).collect()
}

fn vars(list: &[(&str, &str)]) -> Vec<(String, String)> {
    list.iter().map(|(k, v)| (k.to_string(), v.to_string())).collect()
}

#[test]
fn encodes_workspace_path_with_readable_prefix_and_hash() {
    let name = encoded("/Users/x/proj");
    assert!(name.starts_with("-Users-x-proj--"));
    assert_eq!(
        name.rsplit_once("--").unwrap().1.len(),
        32,
        "workspace identity uses 128 bits of SHA-256"
    );
    assert!(
        encoded("/a/my-repo").starts_with("-a-my-repo--"),
        "existing hyphens remain readable"
    );
}

#[test]
fn the_digest_in_a_state_name_is_sha256() {
    assert_eq!(
        encode_workspace("/abc", &b"abc".to_vec()),
        "-abc--ba7816bf8f01cfea414140de5dae2223"
    );
    assert_eq!(
        workspace_path_identity(&b"abc".to_vec()),
        "medha-workspace-v2\nsha256=ba7816bf8f01cfea414140de5dae2223b00361a396177a9cb410ff61f20015ad\n"
    );
}

#[test]
fn a_long_path_is_cut_to_whole_characters() {
    let long = format!("/{}", "é".repeat(200));
    let name = encoded(&long);
    let prefix = name.rsplit_once("--").unwrap().0;
    assert_eq!(prefix.len(), 95);
    assert!(prefix.ends_with('é'));
    assert!(name.len() <= 130);
}

#[test]
fn formerly_colliding_workspace_paths_have_distinct_state_identity() {
    let flat = "/w/a-b";
    let nested = "/w/a/b";
    assert_eq!(
        readable_workspace_slug(flat),
        readable_workspace_slug(nested),
        "documents the old ambiguous mapping"
    );
    assert_ne!(encoded(flat), encoded(nested));
    assert_ne!(
        state("/home/u/.medha", flat),
        state("/home/u/.medha", nested),
        "different workspaces must never share event state or trust.lock"
    );
}

#[test]
fn state_directory_is_bound_to_the_full_workspace_identity() {
    let workspace = "/workspace/marker-test";
    let mut first = StateChoice::new("/home", workspace, &bytes(workspace));
    assert!(matches!(first.select_state_dir(StateEvent::Created), StateAction::WriteMarker));
    let marker = first.identity.clone();
    assert_eq!(marker, workspace_path_identity(&bytes(workspace)));
    assert!(first.marker.ends_with("/.medha-workspace-id-v2"));
    assert!(matches!(first.select_state_dir(StateEvent::Written), StateAction::Accept));

    let mut again = StateChoice::new("/home", workspace, &bytes(workspace));
    assert_eq!(again.candidate, first.candidate);
    assert!(matches!(again.select_state_dir(StateEvent::Present), StateAction::ReadMarker));
    assert!(
        matches!(again.select_state_dir(StateEvent::Read(marker)), StateAction::Accept),
        "a directory is reused only after its exact identity marker matches"
    );
}

#[test]
fn unmarked_hash_looking_legacy_directory_is_never_adopted() {
    let workspace = "/workspace/unmarked-test";
    let mut choice = StateChoice::new("/home", workspace, &bytes(workspace));
    assert!(matches!(choice.select_state_dir(StateEvent::Present), StateAction::ReadMarker));
    let mut waits = 0;
    loop {
        match choice.select_state_dir(StateEvent::Missing) {
            StateAction::Wait(ms) => {
                assert_eq!(ms, 20);
                waits += 1;
            }
            StateAction::Fail(message) => {
                assert!(message.contains("refusing unbound or mismatched"), "{message}");
                break;
            }
            _ => panic!("an unmarked directory was taken"),
        }
    }
    assert_eq!(waits, 49);
    let mut other = StateChoice::new("/home", workspace, &bytes(workspace));
    assert!(matches!(
        other.select_state_dir(StateEvent::Read("someone else".to_string())),
        StateAction::Fail(_)
    ));
    assert!(matches!(other.select_state_dir(StateEvent::ReadFailed), StateAction::Fail(_)));
    match other.select_state_dir(StateEvent::WriteFailed) {
        StateAction::Withdraw(m) => assert!(m.starts_with("writing ")),
        _ => panic!("a directory without a marker was kept"),
    }
    match other.select_state_dir(StateEvent::CreateFailed) {
        StateAction::Fail(m) => assert_eq!(m, format!("creating {}", other.candidate)),
        _ => panic!("a directory that is not there was taken"),
    }
}

#[test]
fn colliding_legacy_workspace_cannot_inherit_machine_local_trust() {
    let legitimate_state = state("/home", "/w/a-b");
    let other_state = state("/home", "/w/a/b");
    assert_ne!(legitimate_state, other_state);
    let notice = legacy_notice("/home", "/w/a/b", &bytes("/w/a/b"), true, false).unwrap();
    assert!(notice.contains("/home/projects/-w-a-b has an ambiguous path identity"));
    assert!(legacy_notice("/home", "/w/a/b", &bytes("/w/a/b"), true, true).is_none());
    assert!(legacy_notice("/home", "/w/a/b", &bytes("/w/a/b"), false, false).is_none());
}

#[test]
fn encodes_a_windows_verbatim_path_without_illegal_characters() {
    let enc = readable_workspace_slug(r"\\?\C:\Users\ASUS");
    assert_eq!(enc, "C--Users-ASUS");

    assert_eq!(readable_workspace_slug(r"C:\Users\ASUS"), enc);

    assert_eq!(
        readable_workspace_slug(r"\\?\UNC\server\share\proj"),
        "server-share-proj"
    );

    for p in [
        r"\\?\C:\Users\ASUS",
        r"\\?\UNC\server\share",
        r"C:\a\b",
        "/Users/x/proj",
    ] {
        let enc = readable_workspace_slug(p);
        for bad in ['<', '>', ':', '"', '/', '\\', '|', '?', '*'] {
            assert!(
                !enc.contains(bad),
                "{p} encoded to {enc}, which keeps {bad}"
            );
        }
    }
}

#[test]
fn unix_paths_are_untouched_by_the_verbatim_strip() {
    assert_eq!(readable_workspace_slug("/home/u/proj"), "-home-u-proj");
    assert_eq!(
        readable_workspace_slug("/home/u/odd?name"),
        "-home-u-odd?name",
        "a legal Linux filename must not be rewritten"
    );
}

#[test]
fn state_dir_is_per_workspace_under_home_projects() {
    let home = "/home/u/.medha";
    let a = state(home, "/w/one");
    let b = state(home, "/w/two");
    let (parent, workspace_dir) = a.rsplit_once('/').unwrap();
    assert_eq!(
        parent, "/home/u/.medha/projects",
        "workspace state is directly under MEDHA_HOME/projects"
    );
    assert!(
        workspace_dir.starts_with("-w-one--"),
        "workspace state keeps its readable slug prefix: {a}"
    );
    assert_ne!(a, b, "different workspaces get different state dirs");
    assert!(
        a.starts_with(home),
        "state stays under MEDHA home, not the workspace"
    );
}

#[test]
fn user_skills_share_the_medha_home_root() {
    assert_eq!(
        user_skills_dir_in("/home/u/custom-medha"),
        "/home/u/custom-medha/skills"
    );
}

#[test]
fn the_home_comes_from_the_environment_or_the_user() {
    let user = Some("/home/u".to_string());
    let var = Some("/elsewhere".to_string());
    assert_eq!(medha_home(&None, &user).unwrap(), "/home/u/.medha");
    assert_eq!(medha_home(&var, &user).unwrap(), "/elsewhere");
    assert_eq!(config_path(&None, &user).unwrap(), "/home/u/.medha/config.toml");
    assert_eq!(user_skills_dir(&var, &None).unwrap(), "/elsewhere/skills");
    assert_eq!(user_taps_path(&var, &None).unwrap(), "/elsewhere/skills/taps.toml");
    assert_eq!(skills_lock_path("/w"), "/w/medha-skills.lock");
    assert_eq!(
        config_path(&None, &None).unwrap_err(),
        "could not determine home directory"
    );
}

#[test]
fn rights_of_others_are_taken_away() {
    assert_eq!(tightened(0o100644), Some(0o600));
    assert_eq!(tightened(0o600), None);
    assert_eq!(tightened(0o700), None);
}

fn provider(model: &str) -> ProviderConfig {
    ProviderConfig {
        protocol: Protocol::OpenAiChat,
        base_url: format!("http://{model}.example/v1"),
        model: model.into(),
        auth: AuthKind::Unauthenticated,
        headers: Table::new(),
        max_ctx: Some(16_384),
        max_output_tokens: None,
        token_counter: TokenCounter::Uncounted,
        token_accounting: TokenAccountingMode::Adaptive,
        reasoning: ReasoningSupport::Unknown,
        reasoning_efforts: None,
        chat_token_limit: Default::default(),
    }
}

#[test]
fn first_saved_model_becomes_default_and_default_can_move() {
    let mut cfg = Config::default();
    assert!(
        cfg.selected_model().is_none(),
        "no models → first-run setup"
    );

    cfg.add_model("fast-local".into(), provider("fast"), false, None)
        .unwrap();
    assert_eq!(cfg.selected_model().unwrap().0, "fast-local");

    cfg.add_model("big".into(), provider("big"), false, None).unwrap();
    assert_eq!(cfg.selected_model().unwrap().0, "fast-local");

    cfg.set_default_model("big").unwrap();
    assert_eq!(cfg.selected_model().unwrap().0, "big");
    assert!(cfg
        .model_profiles()
        .iter()
        .any(|p| p.name == "big" && p.is_default));
    assert_eq!(cfg.model_profiles().len(), 2);
}

#[test]
fn profile_names_are_safe_and_unambiguous() {
    let mut cfg = Config::default();
    assert!(cfg
        .add_model("my-model-2".into(), provider("m"), false, None)
        .is_ok());
    assert!(cfg
        .add_model("My Model".into(), provider("m"), false, None)
        .is_err());
    assert!(cfg
        .add_model("bad--name".into(), provider("m"), false, None)
        .is_err());
    assert!(cfg
        .add_model("my-model-2".into(), provider("m"), false, None)
        .is_err());
    assert_eq!(
        cfg.add_model("other".into(), provider("m"), false, Some("no such port".into()))
            .unwrap_err(),
        "no such port"
    );
}

#[test]
fn removing_the_default_promotes_the_next_saved_model() {
    let mut cfg = Config::default();
    cfg.add_model("keeper".into(), provider("keep"), false, None)
        .unwrap();
    cfg.add_model("temporary".into(), provider("tmp"), true, None)
        .unwrap();
    assert_eq!(cfg.selected_model().unwrap().0, "temporary");

    assert_eq!(cfg.remove_model("temporary").ok().unwrap().model, "tmp");
    assert_eq!(cfg.selected_model().unwrap().0, "keeper");

    assert!(cfg.remove_model("keeper").is_ok());
    assert!(cfg.selected_model().is_none(), "empty again → setup");
    assert!(cfg.remove_model("keeper").is_err(), "already gone");
}

#[test]
fn a_stale_default_falls_back_to_the_first_saved_model() {
    let mut cfg = Config::default();
    cfg.add_model("real".into(), provider("real"), false, None)
        .unwrap();
    cfg.default_model = Some("deleted-by-hand".into());
    assert_eq!(cfg.selected_model().unwrap().0, "real");
}

fn gateway(model: &str) -> ProviderConfig {
    let mut p = provider("gw");
    p.base_url = "https://gw.example/v1".into();
    p.model = model.into();
    p.auth = AuthKind::Bearer;
    p
}

#[test]
fn wizard_era_provider_block_migrates_to_a_named_removable_profile() {
    let mut legacy = gateway("Qwen/Qwen3.5-397B-A17B");
    legacy.max_ctx = Some(250000);
    let mut cfg = Config::default();
    cfg.provider = Some(legacy);
    assert!(migrate_legacy_provider(&mut cfg), "migration must trigger");

    {
        let (name, p) = cfg.selected_model().expect("migrated profile selected");
        assert_eq!(name, "qwen3-5-397b-a17b");
        assert_eq!(p.model, "Qwen/Qwen3.5-397B-A17B");
        assert_eq!(p.auth, AuthKind::Bearer);
    }
    assert_eq!(cfg.default_model.as_deref(), Some("qwen3-5-397b-a17b"));
    assert!(cfg.remove_model("qwen3-5-397b-a17b").is_ok());
    assert!(cfg.provider.is_none());
    assert!(!migrate_legacy_provider(&mut cfg));
}

#[test]
fn migration_keeps_an_existing_startup_default_and_dedupes() {
    let mut cfg = Config::default();
    cfg.default_model = Some("nemotron".into());
    cfg.provider = Some(gateway("Qwen/Qwen3.5-397B-A17B"));
    cfg.models.insert("nemotron".into(), gateway("nvidia/Nemotron"));
    assert!(migrate_legacy_provider(&mut cfg));
    assert_eq!(cfg.default_model.as_deref(), Some("nemotron"));
    assert_eq!(cfg.selected_model().unwrap().0, "nemotron");
    assert!(cfg.models.contains_key("qwen3-5-397b-a17b"));

    let mut cfg = Config::default();
    cfg.provider = Some(provider("same"));
    cfg.models.insert("mine".into(), provider("same"));
    assert!(migrate_legacy_provider(&mut cfg));
    assert_eq!(cfg.models.rows.len(), 1, "duplicate connection not re-added");
}

#[test]
fn api_key_normalization_accepts_token_or_full_bearer_value() {
    assert_eq!(normalize_api_key("secret"), "secret");
    assert_eq!(normalize_api_key("  Bearer secret  "), "secret");
    assert_eq!(normalize_api_key("bearer secret"), "secret");
    assert_eq!(normalize_api_key("Bearer   "), "");
}

#[test]
fn provider_environment_values_are_validated_instead_of_silently_ignored() {
    let others = words(&[]);
    assert!(matches!(
        parse_protocol("open-ai-chat", &others),
        Ok(Protocol::OpenAiChat)
    ));
    assert!(parse_protocol("made-up-protocol", &others).is_err());
    assert_eq!(parse_auth("x-api-key").unwrap(), AuthKind::XApiKey);
    assert!(parse_auth("magic-auth").is_err());
    assert_eq!(
        parse_headers(r#"{"X-Provider-Version":"2026-01-01"}"#)
            .ok()
            .unwrap()
            .get("X-Provider-Version")
            .map(String::as_str),
        Some("2026-01-01")
    );
    assert!(parse_headers("not-json").is_err());
    assert_eq!(parse_token_counter("vllm").unwrap(), TokenCounter::Vllm);
    assert!(parse_token_counter("guess").is_err());
    assert_eq!(
        parse_token_accounting("strict").unwrap(),
        TokenAccountingMode::Strict
    );
    assert!(parse_token_accounting("exact-ish").is_err());
    assert_eq!(
        parse_reasoning_support("effort").unwrap(),
        ReasoningSupport::Effort
    );
    assert!(parse_reasoning_support("all-controls").is_err());
    assert!(parse_positive_u32("MEDHA_MAX_CTX", "0").is_err());
    assert!(parse_positive_u64("MEDHA_MAX_OUTPUT_TOKENS", "0").is_err());
}

#[test]
fn set_search_records_provider_and_scopes_searxng_url() {
    let mut cfg = Config::default();
    assert_eq!(cfg.search_provider(), SearchProvider::DuckDuckGo);

    cfg.set_search(
        SearchProvider::Searxng,
        Some("https://searx.example".into()),
    );
    assert_eq!(cfg.search_provider(), SearchProvider::Searxng);
    assert_eq!(
        cfg.search.searxng_url.as_deref(),
        Some("https://searx.example")
    );

    cfg.set_search(SearchProvider::Tavily, Some("https://leftover".into()));
    assert_eq!(cfg.search_provider(), SearchProvider::Tavily);
    assert_eq!(cfg.search.searxng_url, None);
}

#[test]
fn search_provider_id_round_trips_for_config_serialization() {
    for p in [
        SearchProvider::DuckDuckGo,
        SearchProvider::Tavily,
        SearchProvider::Brave,
        SearchProvider::Searxng,
    ] {
        assert_eq!(SearchProvider::from_id(p.as_str()), p);
    }
    assert_eq!(
        SearchProvider::from_id("nonsense"),
        SearchProvider::DuckDuckGo
    );
}

#[test]
fn search_is_detected_from_the_environment() {
    assert_eq!(
        auto_detect_search_provider(&vars(&[("TAVILY_API_KEY", "  "), ("BRAVE_API_KEY", "k")])),
        SearchProvider::Brave
    );
    assert_eq!(
        auto_detect_search_provider(&vars(&[("MEDHA_SEARXNG_URL", "http://s")])),
        SearchProvider::Searxng
    );
    assert_eq!(auto_detect_search_provider(&vars(&[])), SearchProvider::DuckDuckGo);
    assert_eq!(search_cred_id(SearchProvider::Tavily), Some("search://tavily"));
    assert_eq!(search_cred_id(SearchProvider::Searxng), None);

    let mut keys = vault(false, true);
    keys.store_key("search://brave", "brave-key").unwrap();
    let settings = resolve_search(
        &Config::default(),
        &vars(&[("BRAVE_API_KEY", "k")]),
        &mut keys,
    );
    assert_eq!(settings.provider, SearchProvider::Brave);
    assert_eq!(settings.brave_key.as_deref(), Some("brave-key"));
    assert_eq!(settings.tavily_key, None);
}

fn no_keys() -> Keys {
    Keys { file: None, keychain: None }
}

fn others() -> OtherProtocols {
    OtherProtocols { names: words(&["anthropic"]), auth: AuthKind::XApiKey }
}

#[test]
fn flags_win_over_the_environment_and_that_over_what_is_saved() {
    let mut cfg = Config::default();
    cfg.add_model("saved".into(), provider("saved"), false, None).unwrap();

    let plain = assemble(Some(&cfg), None, None, &vars(&[]), &no_keys(), &others());
    let plain = plain.ok().unwrap().unwrap();
    assert_eq!(plain.name, "saved");
    assert_eq!(plain.provider.base_url, "http://saved.example/v1");
    assert_eq!(plain.model_source, Source::Config);
    assert_eq!(plain.credential_source, CredSource::KeychainOrNone);

    let env = vars(&[("MEDHA_MODEL", "env-model"), ("MEDHA_API_KEY", "Bearer k")]);
    let other = assemble(
        Some(&cfg),
        Some("http://flag/v1".into()),
        None,
        &env,
        &no_keys(),
        &others(),
    );
    let other = other.ok().unwrap().unwrap();
    assert_eq!(other.name, "override");
    assert_eq!(other.provider.base_url, "http://flag/v1");
    assert_eq!(other.base_url_source, Source::Flag);
    assert_eq!(other.provider.model, "env-model");
    assert_eq!(other.model_source, Source::Env);
    assert_eq!(other.credential, "k");
    assert_eq!(other.credential_source, CredSource::Env);
    assert_eq!(other.provider.auth, AuthKind::Bearer, "a key implies the usual scheme");
    assert_eq!(
        endpoint(Some(&cfg), Some("http://flag/v1"), None, &env).as_deref(),
        Some("http://flag/v1")
    );

    let none = assemble(None, None, None, &vars(&[]), &no_keys(), &others());
    assert!(matches!(none, Ok(None)));
    assert!(endpoint(None, None, None, &vars(&[])).is_none());
}

#[test]
fn filed_keys_come_before_the_keychain() {
    let mut cfg = Config::default();
    cfg.add_model("saved".into(), provider("saved"), false, None).unwrap();
    let keys = Keys { file: Some("filed".into()), keychain: Some("chained".into()) };
    let r = assemble(Some(&cfg), None, None, &vars(&[]), &keys, &others());
    let r = r.ok().unwrap().unwrap();
    assert_eq!(r.credential, "filed");
    assert_eq!(r.credential_source, CredSource::CredentialsFile);
    assert_eq!(r.credential_source.label(), "~/.medha/credentials.toml");
    let keys = Keys { file: None, keychain: Some("chained".into()) };
    let r = assemble(Some(&cfg), None, None, &vars(&[]), &keys, &others());
    assert_eq!(r.ok().unwrap().unwrap().credential, "chained");
}

#[test]
fn a_bad_variable_is_told_in_order() {
    let base = [("MEDHA_BASE_URL", "http://u"), ("MEDHA_MODEL", "m")];
    let told = |extra: &[(&str, &str)]| {
        let mut v = base.to_vec();
        v.extend_from_slice(extra);
        assemble(None, None, None, &vars(&v), &no_keys(), &others())
            .err()
            .unwrap()
    };
    assert_eq!(
        told(&[("MEDHA_AUTH", "magic"), ("MEDHA_MAX_CTX", "many")]),
        "invalid MEDHA_MAX_CTX 'many'; expected a positive integer"
    );
    assert_eq!(
        told(&[("MEDHA_AUTH", "Magic_Word")]),
        "invalid MEDHA_AUTH 'magic-word'; expected 'none', 'bearer', 'x-api-key', or 'x-goog-api-key'"
    );
    assert_eq!(
        told(&[("MEDHA_HEADERS_JSON", "[]")]),
        "invalid MEDHA_HEADERS_JSON; expected a JSON object of non-secret header strings"
    );
    assert_eq!(
        told(&[("MEDHA_TOKEN_COUNTER", "guess")]),
        "invalid MEDHA_TOKEN_COUNTER 'guess'; expected 'none' or 'vllm'"
    );
    assert_eq!(
        told(&[("MEDHA_MAX_OUTPUT_TOKENS", "0")]),
        "invalid MEDHA_MAX_OUTPUT_TOKENS '0'; expected a positive integer"
    );
    assert_eq!(
        told(&[("MEDHA_TOKEN_ACCOUNTING", "some")]),
        "invalid MEDHA_TOKEN_ACCOUNTING 'some'; expected 'adaptive' or 'strict'"
    );
    assert_eq!(
        told(&[("MEDHA_REASONING_SUPPORT", "some")]),
        "invalid MEDHA_REASONING_SUPPORT 'some'; expected 'unknown', 'unsupported', or 'effort'"
    );
    assert!(told(&[("MEDHA_PROTOCOL", "odd")]).starts_with("invalid MEDHA_PROTOCOL"));
}

#[test]
fn a_model_without_its_key_is_not_used() {
    let mut cfg = Config::default();
    cfg.add_model("gw".into(), gateway("m"), false, None).unwrap();
    let r = assemble(Some(&cfg), None, None, &vars(&[]), &no_keys(), &others());
    let r = r.ok().unwrap().unwrap();
    assert_eq!(
        resolve(r, None).err().unwrap(),
        "model profile requires a credential for 'bearer' authentication"
    );
    assert_eq!(
        resolve_model(&cfg, "gw", &vars(&[]), None, false, None).err().unwrap(),
        "model profile 'gw' requires a credential; choose 'Add or update an API key' in /model"
    );
    assert_eq!(
        resolve_model(&cfg, "other", &vars(&[]), None, false, None).err().unwrap(),
        "no saved model named 'other'"
    );
    let r = resolve_model(&cfg, "gw", &vars(&[]), Some("k".into()), true, None);
    let r = r.ok().unwrap();
    assert_eq!(r.credential, "k");
    assert_eq!(r.credential_source, CredSource::CredentialsFile);
    let r = resolve_model_with_key(&cfg, "gw", "k", Some("bad url".into()), CredSource::Env);
    assert_eq!(r.err().unwrap(), "bad url");
}

#[test]
fn a_child_program_gets_the_same_model() {
    let mut p = gateway("m");
    p.headers.insert("X-One".into(), "a\"b".into());
    let mut cfg = Config::default();
    cfg.add_model("gw".into(), p, false, None).unwrap();
    let r = resolve_model(&cfg, "gw", &vars(&[]), Some("k".into()), true, None).ok().unwrap();
    let env = child_environment(&r);
    let again = assemble(None, None, None, &env, &no_keys(), &others()).ok().unwrap().unwrap();
    assert_eq!(again.provider.base_url, "https://gw.example/v1");
    assert_eq!(again.provider.auth, AuthKind::Bearer);
    assert_eq!(again.provider.headers.get("X-One").map(String::as_str), Some("a\"b"));
    assert_eq!(again.credential, "k");
    assert_eq!(env[6].1, r#"{"X-One":"a\"b"}"#);
}

#[test]
fn presets_are_offered_by_name() {
    let presets = provider_presets();
    assert_eq!(presets[0], ("Ollama (local)", "http://localhost:11434/v1"));
    assert_eq!(presets.len(), 8);
}

#[test]
fn a_health_check_tells_the_worst_first() {
    let mut cfg = Config::default();
    let mut p = gateway("m");
    p.max_ctx = None;
    p.base_url = "https://generativelanguage.googleapis.com/v1beta".into();
    cfg.add_model("gw".into(), p, false, None).unwrap();
    cfg.default_model = Some("gone".into());
    let r = resolve_model(&cfg, "gw", &vars(&[]), Some("k".into()), true, None).ok().unwrap();
    let checks = diagnose_checks(Some(&cfg), &Ok(Some(r)), &words(&["OPENAI_API_KEY"]));
    let titles: Vec<&str> = checks.iter().map(|c| c.title.as_str()).collect();
    assert_eq!(
        titles,
        [
            "Endpoint/protocol mismatch",
            "Context window unknown",
            "Stale default model",
            "Credential resolves",
            "Foreign LLM env ignored",
        ]
    );
    assert!(checks[2].auto_fixable);
    assert_eq!(checks[0].health, Health::Warn);
    assert_eq!(checks[3].detail, "bearer auth, key present");
    assert_eq!(
        apply_safe_fixes(&mut cfg),
        ["stale default model 'gone' → promoted 'gw'"]
    );
    assert!(apply_safe_fixes(&mut cfg).is_empty());
}

#[test]
fn a_health_check_is_shown() {
    let report = pulse(
        None,
        Ok(None),
        &vars(&[("OPENAI_API_KEY", "x"), ("MEDHA_B", "1"), ("MEDHA_A", "2"), ("PATH", "/")]),
        Ok("/home/u/.medha".into()),
        Err("no home".into()),
        false,
        Some("/w/medha.lock".into()),
        None,
    );
    assert!(!report.has_fixes());
    assert_eq!(
        report.render(),
        "medha pulse — ✗ needs attention\n\n\
         checks\n  ✗ No model configured\n      run `medha` and add one in /model, or set MEDHA_MODEL + MEDHA_BASE_URL.\n\
         \x20 ✔ Foreign LLM env ignored\n      OPENAI_API_KEY present but not read by medha (they belong to this directory's app).\n\
         \npaths\n  MEDHA_HOME   /home/u/.medha\n  config.toml  <unresolved: no home> (absent — first-run setup will open)\n\
         \nactive model\n  none configured yet — run `medha` and add one in /model\n\
         \nenvironment\n  MEDHA_* set   MEDHA_A, MEDHA_B\n\
         \x20 ignored      OPENAI_API_KEY  ← present but NOT read by medha (they belong to the\n               app that owns this directory, not medha)\n\
         \x20 .env         never read by medha (a project's .env cannot change medha's model/key)\n\
         \nproject medha.lock\n  /w/medha.lock (no [routing] executor set)\n"
    );
}

fn vault(prefer_keychain: bool, keychain_works: bool) -> Vault {
    Vault { file: Table::new(), keychain: Table::new(), keychain_works, prefer_keychain }
}

fn local_server(command: &[&str]) -> McpServer {
    McpServer {
        command: words(command),
        url: String::new(),
        auth: String::new(),
        env: Table::new(),
        trust: String::new(),
        disabled: false,
        allow_tools: words(&[]),
        deny_tools: words(&[]),
        network: None,
        parallel_calls: false,
    }
}

#[test]
fn keys_are_stored_loaded_and_purged() {
    let mut v = vault(false, true);
    assert_eq!(v.store_key("http://u", "  ").unwrap_err(), "API key cannot be empty");
    v.store_key("http://u", "Bearer abc").unwrap();
    assert_eq!(v.load_key("http://u").as_deref(), Some("abc"));
    assert_eq!(v.load_key("http://other"), None);
    assert!(v.purge_credential("http://u"));
    assert!(!v.purge_credential("http://u"));
    assert_eq!(v.load_key("http://u"), None);

    let mut v = vault(true, true);
    v.store_key("id", "chained").unwrap();
    assert_eq!(v.keychain_load_key("id").as_deref(), Some("chained"));
    assert_eq!(v.file_load_key("id"), None);

    let mut v = vault(true, false);
    v.store_key("id", "filed").unwrap();
    assert_eq!(v.file_load_key("id").as_deref(), Some("filed"));

    let mut v = vault(false, true);
    v.keychain.insert("old".into(), "legacy".into());
    assert_eq!(v.load_key("old").as_deref(), Some("legacy"));
    assert_eq!(v.file_load_key("old").as_deref(), Some("legacy"), "taken into the file");
    assert_eq!(
        store_failure("locked", "full"),
        "could not store the key in the OS keychain (locked) or ~/.medha/credentials.toml (full); set MEDHA_API_KEY instead"
    );
}

#[test]
fn the_key_store_follows_the_environment() {
    assert!(prefer_keychain(&vars(&[("MEDHA_CRED_STORE", "KeyChain")]), &None));
    assert!(!prefer_keychain(&vars(&[]), &None));
    assert!(prefer_keychain(&vars(&[("MEDHA_CRED_STORE", "")]), &Some("keychain".into())));
    assert!(credentials_text("[keys]\n").ends_with("instead.\n[keys]\n"));
}

#[test]
fn a_server_key_is_bound_to_its_destination() {
    let one = local_server(&["npx", "server"]);
    let other = local_server(&["npx", "evil"]);
    assert_ne!(mcp_key_id("s", &one), mcp_key_id("s", &other));
    assert!(mcp_key_id("s", &one).starts_with("mcp://s#"));
    assert_eq!(fingerprint(&b"abc".to_vec()), "ba7816bf8f01cfea");
    assert_eq!(mcp_oauth_id("s", "abc"), "mcp-oauth://s#ba7816bf8f01cfea");
    let mut remote = local_server(&[]);
    remote.url = "https://x".into();
    assert_eq!(
        target_fingerprint(&remote),
        fingerprint(&b"[\"remote\",\"https://x\"]".to_vec())
    );
    assert_eq!(
        target_fingerprint(&one),
        fingerprint(&b"[\"stdio\",[\"npx\",\"server\"],{}]".to_vec())
    );
    let mut set = local_server(&["npx"]);
    set.env.insert("B".into(), "2".into());
    set.env.insert("A".into(), "\"".into());
    assert_eq!(
        target_fingerprint(&set),
        fingerprint(&br#"["stdio",["npx"],{"A":"\"","B":"2"}]"#.to_vec())
    );

    let mut v = vault(false, true);
    store_mcp_key(&mut v, "s", &one, "  ").unwrap();
    assert!(!mcp_key_present(&mut v, "s", &one));
    store_mcp_key(&mut v, "s", &one, "token").unwrap();
    assert!(mcp_key_present(&mut v, "s", &one));
    assert!(!mcp_key_present(&mut v, "s", &other));
    delete_mcp_key(&mut v, "s", &one);
    assert!(!mcp_key_present(&mut v, "s", &one));
    assert!(store_mcp_key(&mut v, "s", &one, "Bearer").is_err());

    let mut tokens = McpTokens { vault: v };
    tokens.save("s", "https://x", "{}").unwrap();
    assert_eq!(tokens.load("s", "https://x").as_deref(), Some("{}"));
    assert_eq!(tokens.load("s", "https://y"), None);
    tokens.clear("s", "https://x");
    assert_eq!(tokens.load("s", "https://x"), None);
}

#[test]
fn a_server_is_read_from_a_command_line() {
    let added = parse_mcp_add_args(&words(&["files", "--", "npx", "-y", "fs"])).ok().unwrap();
    assert_eq!(added.id, "files");
    assert_eq!(added.server.command, ["npx", "-y", "fs"]);
    assert_eq!(added.server.target(), "npx -y fs");
    let run = resolve_mcp_server(&added.id, &added.server, Some("k".into()));
    assert!(run.requires_approval);
    assert_eq!(run.secret.as_deref(), Some("k"));
}

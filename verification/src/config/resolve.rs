//! Which model a session uses: by flags, by the environment, or as saved.

use vstd::prelude::*;
use vstd::string::*;
use std::collections::BTreeMap;
use crate::config::models::Config;
use crate::config::providers;
use crate::config::providers::{
    copy_rows, normalize_api_key, parse_auth, parse_positive_u32, parse_positive_u64,
    parse_protocol, parse_reasoning_support, parse_token_accounting, parse_token_counter, AuthKind,
    Protocol, ProviderConfig, ProviderView, ReasoningSupport, TokenAccountingMode, TokenCounter,
};
use crate::config::servers;
use crate::json;
use crate::json_text;
use crate::lsp::environment;
use crate::lsp::environment::value_of;
use crate::number;
use crate::order;
use crate::table;
use crate::table::Table;
use crate::text;
use crate::text::{cat3, chars_of, copy_texts, same};

verus! {

/// Where a setting comes from.
#[derive(Debug, Clone, Copy, PartialEq, Eq, Structural)]
pub enum Source {
    Flag,
    Env,
    Config,
}

impl Source {
    pub open spec fn name(self) -> Seq<char> {
        match self {
            Source::Flag => "CLI flag"@,
            Source::Env => "MEDHA_* env"@,
            Source::Config => "~/.medha/config.toml"@,
        }
    }

    pub fn label(self) -> (out: &'static str)
        ensures
            out@ == self.name(),
    {
        match self {
            Source::Flag => "CLI flag",
            Source::Env => "MEDHA_* env",
            Source::Config => "~/.medha/config.toml",
        }
    }
}

/// Where a credential comes from.
#[derive(Debug, Clone, Copy, PartialEq, Eq, Structural)]
pub enum CredSource {
    Env,
    CredentialsFile,
    KeychainOrNone,
}

impl CredSource {
    pub open spec fn name(self) -> Seq<char> {
        match self {
            CredSource::Env => "MEDHA_API_KEY env"@,
            CredSource::CredentialsFile => "~/.medha/credentials.toml"@,
            CredSource::KeychainOrNone => "OS keychain (or unset)"@,
        }
    }

    pub fn label(self) -> (out: &'static str)
        ensures
            out@ == self.name(),
    {
        match self {
            CredSource::Env => "MEDHA_API_KEY env",
            CredSource::CredentialsFile => "~/.medha/credentials.toml",
            CredSource::KeychainOrNone => "OS keychain (or unset)",
        }
    }
}

/// A model that is ready to be used, with its credential.
pub struct Resolved {
    pub name: String,
    pub provider: ProviderConfig,
    pub credential: String,
    pub model_source: Source,
    pub base_url_source: Source,
    pub credential_source: CredSource,
}

/// What a [`Resolved`] holds.
#[verifier::ext_equal]
pub ghost struct ResolvedView {
    pub name: Seq<char>,
    pub provider: ProviderView,
    pub credential: Seq<char>,
    pub model_source: Source,
    pub base_url_source: Source,
    pub credential_source: CredSource,
}

impl View for Resolved {
    type V = ResolvedView;

    open spec fn view(&self) -> ResolvedView {
        ResolvedView {
            name: self.name@,
            provider: self.provider@,
            credential: self.credential@,
            model_source: self.model_source,
            base_url_source: self.base_url_source,
            credential_source: self.credential_source,
        }
    }
}

/// What [`serde_json::from_str`] reads as headers: the entries of an object whose values
/// are all texts, in the order of their names.
pub uninterp spec fn headers_json(s: Seq<char>) -> Option<Seq<(Seq<char>, Seq<char>)>>;

/// [`serde_json::from_str`] into a map from names to texts. None where the text is no
/// object of texts. The rows are in the order of their names, each of them once, as the
/// map hands them out.
#[verifier::external_body]
fn read_headers(s: &str) -> (out: Option<Vec<(String, String)>>)
    ensures
        match out {
            Some(rows) => headers_json(s@) == Some(servers::listed(rows@)) && order::ascending(
                table::keys(rows@),
            ),
            None => headers_json(s@) is None,
        },
{
    serde_json::from_str::<BTreeMap<String, String>>(s).ok().map(|m| m.into_iter().collect())
}

/// Why a text is no set of headers.
pub open spec fn bad_headers() -> Seq<char> {
    "invalid MEDHA_HEADERS_JSON; expected a JSON object of non-secret header strings"@
}

/// The headers in a variable.
pub fn parse_headers(value: &str) -> (out: Result<Table<String>, String>)
    ensures
        match out {
            Ok(t) => t.wf() && headers_json(value@) == Some(servers::listed(t.rows@)),
            Err(e) => headers_json(value@) is None && e@ == bad_headers(),
        },
{
    match read_headers(value) {
        Some(rows) => Ok(Table { rows }),
        None => Err(
            "invalid MEDHA_HEADERS_JSON; expected a JSON object of non-secret header strings".to_owned(),
        ),
    }
}

/// A variable that is set and not empty.
#[verifier::opaque]
pub open spec fn setting(vars: Seq<(Seq<char>, Seq<char>)>, name: Seq<char>) -> Option<Seq<char>> {
    match environment::variable(vars, name, 0) {
        Some(v) => if v.len() > 0 {
            Some(v)
        } else {
            None
        },
        None => None,
    }
}

/// A variable that is set and not empty.
pub fn first_env(vars: &Vec<(String, String)>, name: &str) -> (out: Option<String>)
    ensures
        text::view_of(out) == setting(environment::variables(vars@), name@),
{
    proof {
        reveal(setting);
    }
    match value_of(vars, name) {
        Some(v) => if chars_of(v.as_str()).len() > 0 {
            Some(v.clone())
        } else {
            None
        },
        None => None,
    }
}

/// A setting and where it comes from: a flag, else the environment, else as saved.
pub open spec fn picked(
    flag: Option<Seq<char>>,
    env: Option<Seq<char>>,
    saved: Option<Seq<char>>,
) -> Option<(Seq<char>, Source)> {
    match flag {
        Some(v) => Some((v, Source::Flag)),
        None => match env {
            Some(v) => Some((v, Source::Env)),
            None => match saved {
                Some(v) => Some((v, Source::Config)),
                None => None,
            },
        },
    }
}

/// A setting and where it comes from.
pub fn pick_source(flag: Option<String>, env: Option<String>, saved: Option<String>) -> (out: Option<
    (String, Source),
>)
    ensures
        match out {
            Some((v, s)) => picked(
                text::view_of(flag),
                text::view_of(env),
                text::view_of(saved),
            ) == Some((v@, s)),
            None => picked(text::view_of(flag), text::view_of(env), text::view_of(saved)) is None,
        },
{
    match flag {
        Some(v) => Some((v, Source::Flag)),
        None => match env {
            Some(v) => Some((v, Source::Env)),
            None => match saved {
                Some(v) => Some((v, Source::Config)),
                None => None,
            },
        },
    }
}

/// What a resolution goes by, besides the flags.
#[verifier::ext_equal]
pub ghost struct Given {
    pub vars: Seq<(Seq<char>, Seq<char>)>,
    /// The name and the provider of the model that a session starts with.
    pub saved: Option<(Seq<char>, ProviderView)>,
    /// The key that is filed for the provider, and the one that the keychain has.
    pub file_key: Option<Seq<char>>,
    pub keychain_key: Option<Seq<char>>,
    /// The protocols that are not built in, and their usual scheme.
    pub other_protocols: Seq<Seq<char>>,
    pub other_auth: AuthKind,
}

/// The saved provider.
pub open spec fn saved_provider(g: Given) -> Option<ProviderView> {
    match g.saved {
        Some((_, p)) => Some(p),
        None => None,
    }
}

/// The address of the provider and where it comes from.
pub open spec fn base_url_of(g: Given, flag: Option<Seq<char>>) -> Option<(Seq<char>, Source)> {
    picked(
        flag,
        setting(g.vars, "MEDHA_BASE_URL"@),
        match saved_provider(g) {
            Some(p) => Some(p.base_url),
            None => None,
        },
    )
}

/// The model and where it comes from.
pub open spec fn model_of(g: Given, flag: Option<Seq<char>>) -> Option<(Seq<char>, Source)> {
    picked(
        flag,
        setting(g.vars, "MEDHA_MODEL"@),
        match saved_provider(g) {
            Some(p) => Some(p.model),
            None => None,
        },
    )
}

/// The key: from the environment, else filed, else in the keychain.
pub open spec fn raw_key(g: Given) -> Seq<char> {
    match setting(g.vars, "MEDHA_API_KEY"@) {
        Some(k) => k,
        None => match g.file_key {
            Some(k) => k,
            None => match g.keychain_key {
                Some(k) => k,
                None => seq![],
            },
        },
    }
}

/// Where the key comes from.
pub open spec fn key_source(g: Given) -> CredSource {
    if setting(g.vars, "MEDHA_API_KEY"@) is Some {
        CredSource::Env
    } else if g.file_key is Some {
        CredSource::CredentialsFile
    } else {
        CredSource::KeychainOrNone
    }
}

/// The scheme that is usual with a protocol.
pub open spec fn usual_auth(protocol: Seq<char>, other: AuthKind) -> AuthKind {
    if protocol == "open-ai-chat"@ {
        AuthKind::Bearer
    } else if protocol == "gemini-interactions"@ {
        AuthKind::XGoogApiKey
    } else {
        other
    }
}

/// The scheme that is usual with a protocol.
pub fn default_auth(protocol: &Protocol, other: AuthKind) -> (out: AuthKind)
    ensures
        out == usual_auth(protocol.name(), other),
{
    proof {
        reveal_strlit("open-ai-chat");
        reveal_strlit("gemini-interactions");
        assert("open-ai-chat"@.len() == 12 && "gemini-interactions"@.len() == 19);
    }
    let name = protocol.as_str();
    if same(name, "open-ai-chat") {
        AuthKind::Bearer
    } else if same(name, "gemini-interactions") {
        AuthKind::XGoogApiKey
    } else {
        other
    }
}

/// The protocol is known.
pub open spec fn known_protocol(g: Given, name: Seq<char>) -> bool {
    name == "open-ai-chat"@ || name == "gemini-interactions"@ || g.other_protocols.contains(name)
}

/// The protocol that is used: the one that the environment names, else the saved one.
#[verifier::opaque]
pub open spec fn protocol_of(g: Given) -> Result<Seq<char>, Seq<char>> {
    match setting(g.vars, "MEDHA_PROTOCOL"@) {
        Some(v) => if known_protocol(g, v) {
            Ok(v)
        } else {
            Err("invalid MEDHA_PROTOCOL: unknown protocol '"@ + v + "'"@)
        },
        None => match saved_provider(g) {
            Some(p) => Ok(p.protocol),
            None => Ok("open-ai-chat"@),
        },
    }
}

/// The scheme that is used with a protocol: the one that the environment names, else the
/// saved one; but where that needs no key and there is one, the usual one of the protocol.
#[verifier::opaque]
pub open spec fn auth_used(g: Given, protocol: Seq<char>) -> Result<AuthKind, Seq<char>> {
    match setting(g.vars, "MEDHA_AUTH"@) {
        Some(v) => match providers::auth_of(v) {
            Some(a) => Ok(a),
            None => Err(
                "invalid MEDHA_AUTH '"@ + text::replaced(providers::plain_word(v), "_"@, "-"@)
                    + "'; expected 'none', 'bearer', 'x-api-key', or 'x-goog-api-key'"@,
            ),
        },
        None => {
            let saved = match saved_provider(g) {
                Some(p) => p.auth,
                None => AuthKind::Unauthenticated,
            };
            if !(saved is Unauthenticated) || providers::normalized(raw_key(g)).len() == 0 {
                Ok(saved)
            } else {
                Ok(usual_auth(protocol, g.other_auth))
            }
        },
    }
}

/// The headers: those in the environment, else the saved ones.
#[verifier::opaque]
pub open spec fn headers_of(g: Given) -> Result<Seq<(Seq<char>, Seq<char>)>, Seq<char>> {
    match setting(g.vars, "MEDHA_HEADERS_JSON"@) {
        Some(v) => match headers_json(v) {
            Some(rows) => Ok(rows),
            None => Err(bad_headers()),
        },
        None => match saved_provider(g) {
            Some(p) => Ok(p.headers),
            None => Ok(seq![]),
        },
    }
}

/// The size of the context.
#[verifier::opaque]
pub open spec fn max_ctx_of(g: Given) -> Result<Option<u32>, Seq<char>> {
    match setting(g.vars, "MEDHA_MAX_CTX"@) {
        Some(v) => match providers::positive(v, u32::MAX as nat) {
            Some(n) => Ok(Some(n as u32)),
            None => Err(providers::not_positive("MEDHA_MAX_CTX"@, v, u32::MAX as nat)),
        },
        None => match saved_provider(g) {
            Some(p) => Ok(p.max_ctx),
            None => Ok(None),
        },
    }
}

/// How long an answer may get.
#[verifier::opaque]
pub open spec fn max_output_of(g: Given) -> Result<Option<u64>, Seq<char>> {
    match setting(g.vars, "MEDHA_MAX_OUTPUT_TOKENS"@) {
        Some(v) => match providers::positive(v, u64::MAX as nat) {
            Some(n) => Ok(Some(n as u64)),
            None => Err(providers::not_positive("MEDHA_MAX_OUTPUT_TOKENS"@, v, u64::MAX as nat)),
        },
        None => match saved_provider(g) {
            Some(p) => Ok(p.max_output_tokens),
            None => Ok(None),
        },
    }
}

/// How tokens are counted.
#[verifier::opaque]
pub open spec fn counter_used(g: Given) -> Result<TokenCounter, Seq<char>> {
    match setting(g.vars, "MEDHA_TOKEN_COUNTER"@) {
        Some(v) => match providers::counter_of(v) {
            Some(c) => Ok(c),
            None => Err(
                "invalid MEDHA_TOKEN_COUNTER '"@ + providers::plain_word(v)
                    + "'; expected 'none' or 'vllm'"@,
            ),
        },
        None => match saved_provider(g) {
            Some(p) => Ok(p.token_counter),
            None => Ok(TokenCounter::Uncounted),
        },
    }
}

/// How tokens are accounted for.
#[verifier::opaque]
pub open spec fn accounting_used(g: Given) -> Result<TokenAccountingMode, Seq<char>> {
    match setting(g.vars, "MEDHA_TOKEN_ACCOUNTING"@) {
        Some(v) => match providers::accounting_of(v) {
            Some(m) => Ok(m),
            None => Err(
                "invalid MEDHA_TOKEN_ACCOUNTING '"@ + providers::plain_word(v)
                    + "'; expected 'adaptive' or 'strict'"@,
            ),
        },
        None => match saved_provider(g) {
            Some(p) => Ok(p.token_accounting),
            None => Ok(TokenAccountingMode::Adaptive),
        },
    }
}

/// What the model can do in the way of reasoning.
#[verifier::opaque]
pub open spec fn reasoning_used(g: Given) -> Result<ReasoningSupport, Seq<char>> {
    match setting(g.vars, "MEDHA_REASONING_SUPPORT"@) {
        Some(v) => match providers::reasoning_of(v) {
            Some(r) => Ok(r),
            None => Err(
                "invalid MEDHA_REASONING_SUPPORT '"@ + providers::plain_word(v)
                    + "'; expected 'unknown', 'unsupported', or 'effort'"@,
            ),
        },
        None => match saved_provider(g) {
            Some(p) => Ok(p.reasoning),
            None => Ok(ReasoningSupport::Unknown),
        },
    }
}

/// What is wrong with the variables, the first of them in this order.
pub open spec fn variable_fault(g: Given) -> Option<Seq<char>> {
    match max_ctx_of(g) {
        Err(e) => Some(e),
        Ok(_) => match protocol_of(g) {
            Err(e) => Some(e),
            Ok(protocol) => match auth_used(g, protocol) {
                Err(e) => Some(e),
                Ok(_) => match headers_of(g) {
                    Err(e) => Some(e),
                    Ok(_) => match max_output_of(g) {
                        Err(e) => Some(e),
                        Ok(_) => match counter_used(g) {
                            Err(e) => Some(e),
                            Ok(_) => match accounting_used(g) {
                                Err(e) => Some(e),
                                Ok(_) => match reasoning_used(g) {
                                    Err(e) => Some(e),
                                    Ok(_) => None,
                                },
                            },
                        },
                    },
                },
            },
        },
    }
}

/// The provider that is used: each setting from the environment, else as saved.
pub open spec fn provider_used(g: Given, base_url: Seq<char>, model: Seq<char>) -> ProviderView {
    ProviderView {
        protocol: protocol_of(g)->Ok_0,
        base_url,
        model,
        auth: auth_used(g, protocol_of(g)->Ok_0)->Ok_0,
        headers: headers_of(g)->Ok_0,
        max_ctx: max_ctx_of(g)->Ok_0,
        max_output_tokens: max_output_of(g)->Ok_0,
        token_counter: counter_used(g)->Ok_0,
        token_accounting: accounting_used(g)->Ok_0,
        reasoning: reasoning_used(g)->Ok_0,
        reasoning_efforts: match saved_provider(g) {
            Some(p) => p.reasoning_efforts,
            None => None,
        },
        chat_token_limit: match saved_provider(g) {
            Some(p) => p.chat_token_limit,
            None => 0,
        },
    }
}

/// The name under which the model is used: the saved one, unless something overrides it.
pub open spec fn name_used(g: Given, flag_url: Option<Seq<char>>, flag_model: Option<Seq<char>>) -> Seq<
    char,
> {
    if flag_url is Some || flag_model is Some || setting(g.vars, "MEDHA_BASE_URL"@) is Some
        || setting(g.vars, "MEDHA_MODEL"@) is Some {
        "override"@
    } else {
        match g.saved {
            Some((n, _)) => n,
            None => "override"@,
        }
    }
}

/// The outcome of a resolution, before the provider's own check: nothing where there is
/// no address or no model, what is wrong, or the model.
pub open spec fn resolution(
    g: Given,
    flag_url: Option<Seq<char>>,
    flag_model: Option<Seq<char>>,
) -> Result<Option<ResolvedView>, Seq<char>> {
    match (base_url_of(g, flag_url), model_of(g, flag_model)) {
        (Some((url, url_source)), Some((model, model_source))) => match variable_fault(g) {
            Some(e) => Err(e),
            None => Ok(
                Some(
                    ResolvedView {
                        name: name_used(g, flag_url, flag_model),
                        provider: provider_used(g, url, model),
                        credential: providers::normalized(raw_key(g)),
                        model_source,
                        base_url_source: url_source,
                        credential_source: key_source(g),
                    },
                ),
            ),
        },
        _ => Ok(None),
    }
}

/// What the settings of a provider come to, in exec form.
pub struct Keys {
    /// The key that is filed for the provider.
    pub file: Option<String>,
    /// The key that the keychain has, where it may be asked.
    pub keychain: Option<String>,
}

/// The protocols that are not built in, and their usual scheme.
pub struct OtherProtocols {
    pub names: Vec<String>,
    pub auth: AuthKind,
}

/// What a resolution goes by.
pub open spec fn given(
    cfg: Option<&Config>,
    vars: Seq<(String, String)>,
    keys: Keys,
    others: OtherProtocols,
) -> Given {
    Given {
        vars: environment::variables(vars),
        saved: match cfg {
            Some(c) => match c.startup() {
                Some(n) => Some((n, c.models@[n]@)),
                None => None,
            },
            None => None,
        },
        file_key: text::view_of(keys.file),
        keychain_key: text::view_of(keys.keychain),
        other_protocols: text::views(others.names@),
        other_auth: others.auth,
    }
}

/// `g` holds these variables and this saved provider.
spec fn describes(
    g: Given,
    vars: Seq<(String, String)>,
    saved: Option<&ProviderConfig>,
) -> bool {
    &&& g.vars == environment::variables(vars)
    &&& saved_provider(g) == match saved {
        Some(p) => Some(p@),
        None => None,
    }
}

fn pick_protocol(
    vars: &Vec<(String, String)>,
    saved: Option<&ProviderConfig>,
    others: &OtherProtocols,
    Ghost(g): Ghost<Given>,
) -> (out: Result<Protocol, String>)
    requires
        describes(g, vars@, saved),
        g.other_protocols == text::views(others.names@),
    ensures
        match out {
            Ok(x) => protocol_of(g) matches Ok(y) && y == x.name(),
            Err(e) => protocol_of(g) matches Err(m) && m == e@,
        },
{
    proof {
        reveal(protocol_of);
    }
    match first_env(vars, "MEDHA_PROTOCOL") {
        Some(v) => parse_protocol(v.as_str(), &others.names),
        None => Ok(
            match saved {
                Some(p) => p.protocol.copy(),
                None => Protocol::OpenAiChat,
            },
        ),
    }
}

fn pick_auth(
    vars: &Vec<(String, String)>,
    saved: Option<&ProviderConfig>,
    protocol: &Protocol,
    has_key: bool,
    other: AuthKind,
    Ghost(g): Ghost<Given>,
) -> (out: Result<AuthKind, String>)
    requires
        describes(g, vars@, saved),
        g.other_auth == other,
        has_key == (providers::normalized(raw_key(g)).len() > 0),
    ensures
        match out {
            Ok(x) => auth_used(g, protocol.name()) matches Ok(y) && y == x,
            Err(e) => auth_used(g, protocol.name()) matches Err(m) && m == e@,
        },
{
    proof {
        reveal(auth_used);
    }
    match first_env(vars, "MEDHA_AUTH") {
        Some(v) => parse_auth(v.as_str()),
        None => {
            let saved_auth = match saved {
                Some(p) => p.auth,
                None => AuthKind::Unauthenticated,
            };
            if saved_auth.requires_credential() || !has_key {
                Ok(saved_auth)
            } else {
                Ok(default_auth(protocol, other))
            }
        },
    }
}

fn pick_headers(
    vars: &Vec<(String, String)>,
    saved: Option<&ProviderConfig>,
    Ghost(g): Ghost<Given>,
) -> (out: Result<Table<String>, String>)
    requires
        describes(g, vars@, saved),
    ensures
        match out {
            Ok(t) => headers_of(g) matches Ok(y) && y == servers::listed(t.rows@),
            Err(e) => headers_of(g) matches Err(m) && m == e@,
        },
{
    proof {
        reveal(headers_of);
    }
    match first_env(vars, "MEDHA_HEADERS_JSON") {
        Some(v) => parse_headers(v.as_str()),
        None => match saved {
            Some(p) => Ok(Table { rows: copy_rows(&p.headers.rows) }),
            None => {
                let t: Table<String> = Table::new();
                assert(servers::listed(t.rows@) =~= seq![]);
                Ok(t)
            },
        },
    }
}

fn pick_max_ctx(
    vars: &Vec<(String, String)>,
    saved: Option<&ProviderConfig>,
    Ghost(g): Ghost<Given>,
) -> (out: Result<Option<u32>, String>)
    requires
        describes(g, vars@, saved),
    ensures
        match out {
            Ok(x) => max_ctx_of(g) matches Ok(y) && y == x,
            Err(e) => max_ctx_of(g) matches Err(m) && m == e@,
        },
{
    proof {
        reveal(max_ctx_of);
    }
    match first_env(vars, "MEDHA_MAX_CTX") {
        Some(v) => match parse_positive_u32("MEDHA_MAX_CTX", v.as_str()) {
            Ok(n) => Ok(Some(n)),
            Err(e) => Err(e),
        },
        None => Ok(
            match saved {
                Some(p) => p.max_ctx,
                None => None,
            },
        ),
    }
}

fn pick_max_output(
    vars: &Vec<(String, String)>,
    saved: Option<&ProviderConfig>,
    Ghost(g): Ghost<Given>,
) -> (out: Result<Option<u64>, String>)
    requires
        describes(g, vars@, saved),
    ensures
        match out {
            Ok(x) => max_output_of(g) matches Ok(y) && y == x,
            Err(e) => max_output_of(g) matches Err(m) && m == e@,
        },
{
    proof {
        reveal(max_output_of);
    }
    match first_env(vars, "MEDHA_MAX_OUTPUT_TOKENS") {
        Some(v) => match parse_positive_u64("MEDHA_MAX_OUTPUT_TOKENS", v.as_str()) {
            Ok(n) => Ok(Some(n)),
            Err(e) => Err(e),
        },
        None => Ok(
            match saved {
                Some(p) => p.max_output_tokens,
                None => None,
            },
        ),
    }
}

fn pick_counter(
    vars: &Vec<(String, String)>,
    saved: Option<&ProviderConfig>,
    Ghost(g): Ghost<Given>,
) -> (out: Result<TokenCounter, String>)
    requires
        describes(g, vars@, saved),
    ensures
        match out {
            Ok(x) => counter_used(g) matches Ok(y) && y == x,
            Err(e) => counter_used(g) matches Err(m) && m == e@,
        },
{
    proof {
        reveal(counter_used);
    }
    match first_env(vars, "MEDHA_TOKEN_COUNTER") {
        Some(v) => parse_token_counter(v.as_str()),
        None => Ok(
            match saved {
                Some(p) => p.token_counter,
                None => TokenCounter::Uncounted,
            },
        ),
    }
}

fn pick_accounting(
    vars: &Vec<(String, String)>,
    saved: Option<&ProviderConfig>,
    Ghost(g): Ghost<Given>,
) -> (out: Result<TokenAccountingMode, String>)
    requires
        describes(g, vars@, saved),
    ensures
        match out {
            Ok(x) => accounting_used(g) matches Ok(y) && y == x,
            Err(e) => accounting_used(g) matches Err(m) && m == e@,
        },
{
    proof {
        reveal(accounting_used);
    }
    match first_env(vars, "MEDHA_TOKEN_ACCOUNTING") {
        Some(v) => parse_token_accounting(v.as_str()),
        None => Ok(
            match saved {
                Some(p) => p.token_accounting,
                None => TokenAccountingMode::Adaptive,
            },
        ),
    }
}

fn pick_reasoning(
    vars: &Vec<(String, String)>,
    saved: Option<&ProviderConfig>,
    Ghost(g): Ghost<Given>,
) -> (out: Result<ReasoningSupport, String>)
    requires
        describes(g, vars@, saved),
    ensures
        match out {
            Ok(x) => reasoning_used(g) matches Ok(y) && y == x,
            Err(e) => reasoning_used(g) matches Err(m) && m == e@,
        },
{
    proof {
        reveal(reasoning_used);
    }
    match first_env(vars, "MEDHA_REASONING_SUPPORT") {
        Some(v) => parse_reasoning_support(v.as_str()),
        None => Ok(
            match saved {
                Some(p) => p.reasoning,
                None => ReasoningSupport::Unknown,
            },
        ),
    }
}

/// The address of the provider that a resolution is about, for which its key is to be
/// looked up; none where no model can be resolved.
pub fn endpoint(
    cfg: Option<&Config>,
    flag_base_url: Option<&str>,
    flag_model: Option<&str>,
    vars: &Vec<(String, String)>,
) -> (out: Option<String>)
    requires
        cfg matches Some(c) ==> c.wf(),
    ensures
        ({
            let saved = match cfg {
                Some(c) => match c.startup() {
                    Some(n) => Some((n, c.models@[n]@)),
                    None => None,
                },
                None => None,
            };
            let v = environment::variables(vars@);
            let url = picked(
                match flag_base_url {
                    Some(s) => Some(s@),
                    None => None,
                },
                setting(v, "MEDHA_BASE_URL"@),
                match saved {
                    Some((_, p)) => Some(p.base_url),
                    None => None,
                },
            );
            let model = picked(
                match flag_model {
                    Some(s) => Some(s@),
                    None => None,
                },
                setting(v, "MEDHA_MODEL"@),
                match saved {
                    Some((_, p)) => Some(p.model),
                    None => None,
                },
            );
            text::view_of(out) == match (url, model) {
                (Some((u, _)), Some(_)) => Some(u),
                _ => None,
            }
        }),
{
    let selected = match cfg {
        Some(c) => c.selected_model(),
        None => None,
    };
    let saved: Option<&ProviderConfig> = match &selected {
        Some((_, p)) => Some(*p),
        None => None,
    };
    let url = pick_source(
        match flag_base_url {
            Some(s) => Some(s.to_owned()),
            None => None,
        },
        first_env(vars, "MEDHA_BASE_URL"),
        match saved {
            Some(p) => Some(p.base_url.clone()),
            None => None,
        },
    );
    let model = pick_source(
        match flag_model {
            Some(s) => Some(s.to_owned()),
            None => None,
        },
        first_env(vars, "MEDHA_MODEL"),
        match saved {
            Some(p) => Some(p.model.clone()),
            None => None,
        },
    );
    match (url, model) {
        (Some((u, _)), Some(_)) => Some(u),
        _ => None,
    }
}

/// Resolves the model of a session, before its provider's own check.
pub fn assemble(
    cfg: Option<&Config>,
    flag_base_url: Option<String>,
    flag_model: Option<String>,
    vars: &Vec<(String, String)>,
    keys: &Keys,
    others: &OtherProtocols,
) -> (out: Result<Option<Resolved>, String>)
    requires
        cfg matches Some(c) ==> c.wf(),
    ensures
        match resolution(
            given(cfg, vars@, *keys, *others),
            text::view_of(flag_base_url),
            text::view_of(flag_model),
        ) {
            Ok(Some(r)) => out matches Ok(Some(x)) && x@ == r,
            Ok(None) => out matches Ok(None),
            Err(m) => out matches Err(e) && e@ == m,
        },
{
    let ghost g = given(cfg, vars@, *keys, *others);
    let ghost fu = text::view_of(flag_base_url);
    let ghost fm = text::view_of(flag_model);
    let selected = match cfg {
        Some(c) => c.selected_model(),
        None => None,
    };
    let saved: Option<&ProviderConfig> = match &selected {
        Some((_, p)) => Some(*p),
        None => None,
    };
    let env_url = first_env(vars, "MEDHA_BASE_URL");
    let env_model = first_env(vars, "MEDHA_MODEL");
    let overridden = flag_base_url.is_some() || flag_model.is_some() || env_url.is_some()
        || env_model.is_some();
    let url = pick_source(
        flag_base_url,
        env_url,
        match saved {
            Some(p) => Some(p.base_url.clone()),
            None => None,
        },
    );
    let model = pick_source(
        flag_model,
        env_model,
        match saved {
            Some(p) => Some(p.model.clone()),
            None => None,
        },
    );
    assert(describes(g, vars@, saved));
    let (base_url, base_url_source, model, model_source) = match (url, model) {
        (Some((u, us)), Some((m, ms))) => (u, us, m, ms),
        _ => {
            return Ok(None);
        },
    };
    let env_key = first_env(vars, "MEDHA_API_KEY");
    let credential_source = if env_key.is_some() {
        CredSource::Env
    } else if keys.file.is_some() {
        CredSource::CredentialsFile
    } else {
        CredSource::KeychainOrNone
    };
    let raw = match env_key {
        Some(k) => k,
        None => match &keys.file {
            Some(k) => k.clone(),
            None => match &keys.keychain {
                Some(k) => k.clone(),
                None => String::new(),
            },
        },
    };
    assert(raw@ =~= raw_key(g));
    let credential = normalize_api_key(raw.as_str());
    let max_ctx = match pick_max_ctx(vars, saved, Ghost(g)) {
        Ok(x) => x,
        Err(e) => {
            return Err(e);
        },
    };
    let protocol = match pick_protocol(vars, saved, others, Ghost(g)) {
        Ok(x) => x,
        Err(e) => {
            return Err(e);
        },
    };
    let has_key = chars_of(credential.as_str()).len() > 0;
    let auth = match pick_auth(vars, saved, &protocol, has_key, others.auth, Ghost(g)) {
        Ok(x) => x,
        Err(e) => {
            return Err(e);
        },
    };
    let headers = match pick_headers(vars, saved, Ghost(g)) {
        Ok(x) => x,
        Err(e) => {
            return Err(e);
        },
    };
    let max_output_tokens = match pick_max_output(vars, saved, Ghost(g)) {
        Ok(x) => x,
        Err(e) => {
            return Err(e);
        },
    };
    let token_counter = match pick_counter(vars, saved, Ghost(g)) {
        Ok(x) => x,
        Err(e) => {
            return Err(e);
        },
    };
    let token_accounting = match pick_accounting(vars, saved, Ghost(g)) {
        Ok(x) => x,
        Err(e) => {
            return Err(e);
        },
    };
    let reasoning = match pick_reasoning(vars, saved, Ghost(g)) {
        Ok(x) => x,
        Err(e) => {
            return Err(e);
        },
    };
    let reasoning_efforts = match saved {
        Some(p) => match &p.reasoning_efforts {
            Some(l) => Some(copy_texts(l)),
            None => None,
        },
        None => None,
    };
    let chat_token_limit: u64 = match saved {
        Some(p) => p.chat_token_limit,
        None => 0,
    };
    let provider = ProviderConfig {
        protocol,
        base_url,
        model,
        auth,
        headers,
        max_ctx,
        max_output_tokens,
        token_counter,
        token_accounting,
        reasoning,
        reasoning_efforts,
        chat_token_limit,
    };
    let name = if overridden {
        "override".to_owned()
    } else {
        match &selected {
            Some((n, _)) => n.clone(),
            None => "override".to_owned(),
        }
    };
    assert(variable_fault(g) is None);
    assert(provider@ =~= provider_used(g, provider.base_url@, provider.model@));
    assert(name@ == name_used(g, fu, fm));
    Ok(
        Some(
            Resolved {
                name,
                provider,
                credential,
                model_source,
                base_url_source,
                credential_source,
            },
        ),
    )
}

/// Why a resolved model cannot be used: what its provider's own check finds, or that it
/// needs a credential and has none.
pub open spec fn use_fault(r: ResolvedView, fault: Option<Seq<char>>) -> Option<Seq<char>> {
    match fault {
        Some(m) => Some(m),
        None => if !(r.provider.auth is Unauthenticated) && r.credential.len() == 0 {
            Some(
                "model profile requires a credential for '"@ + r.provider.auth.name()
                    + "' authentication"@,
            )
        } else {
            None
        },
    }
}

/// The resolved model, where it can be used. `fault` is what its provider's own check
/// finds wrong.
pub fn resolve(resolved: Resolved, fault: Option<String>) -> (out: Result<Resolved, String>)
    ensures
        match use_fault(resolved@, text::view_of(fault)) {
            None => out matches Ok(r) && r == resolved,
            Some(m) => out matches Err(e) && e@ == m,
        },
{
    match fault {
        Some(m) => {
            return Err(m);
        },
        None => {},
    }
    if resolved.provider.auth.requires_credential() && chars_of(
        resolved.credential.as_str(),
    ).len() == 0 {
        return Err(
            cat3(
                "model profile requires a credential for '",
                resolved.provider.auth.as_str(),
                "' authentication",
            ),
        );
    }
    Ok(resolved)
}

/// Resolves a saved model with a key. `fault` is what its provider's own check finds
/// wrong, `source` where the key was found.
pub fn resolve_model_with_key(
    cfg: &Config,
    name: &str,
    api_key: &str,
    fault: Option<String>,
    source: CredSource,
) -> (out: Result<Resolved, String>)
    ensures
        if !cfg.models@.dom().contains(name@) {
            out matches Err(e) && e@ == "no saved model named '"@ + name@ + "'"@
        } else if fault is Some {
            out matches Err(e) && Some(e@) == text::view_of(fault)
        } else if !(cfg.models@[name@].auth is Unauthenticated) && providers::normalized(
            api_key@,
        ).len() == 0 {
            out matches Err(e) && e@ == "model profile '"@ + name@
                + "' requires a credential; choose 'Add or update an API key' in /model"@
        } else {
            out matches Ok(r) && r@ == (ResolvedView {
                name: name@,
                provider: cfg.models@[name@]@,
                credential: providers::normalized(api_key@),
                model_source: Source::Config,
                base_url_source: Source::Config,
                credential_source: source,
            })
        },
{
    let provider = match cfg.model_profile(name) {
        Some(p) => p,
        None => {
            return Err(cat3("no saved model named '", name, "'"));
        },
    };
    let credential = normalize_api_key(api_key);
    match fault {
        Some(m) => {
            return Err(m);
        },
        None => {},
    }
    if provider.auth.requires_credential() && chars_of(credential.as_str()).len() == 0 {
        return Err(
            cat3(
                "model profile '",
                name,
                "' requires a credential; choose 'Add or update an API key' in /model",
            ),
        );
    }
    Ok(
        Resolved {
            name: name.to_owned(),
            provider: provider.copy(),
            credential,
            model_source: Source::Config,
            base_url_source: Source::Config,
            credential_source: source,
        },
    )
}

/// Resolves a saved model with the key of the environment, else the one that is stored
/// for its provider.
pub fn resolve_model(
    cfg: &Config,
    name: &str,
    vars: &Vec<(String, String)>,
    stored: Option<String>,
    filed: bool,
    fault: Option<String>,
) -> (out: Result<Resolved, String>)
    ensures
        ({
            let env = setting(environment::variables(vars@), "MEDHA_API_KEY"@);
            let key = providers::normalized(
                providers::normalized(
                    match env {
                        Some(k) => k,
                        None => match stored {
                            Some(k) => k@,
                            None => seq![],
                        },
                    },
                ),
            );
            if !cfg.models@.dom().contains(name@) {
                out matches Err(e) && e@ == "no saved model named '"@ + name@ + "'"@
            } else if fault is Some {
                out matches Err(e) && Some(e@) == text::view_of(fault)
            } else if !(cfg.models@[name@].auth is Unauthenticated) && key.len() == 0 {
                out matches Err(e) && e@ == "model profile '"@ + name@
                    + "' requires a credential; choose 'Add or update an API key' in /model"@
            } else {
                out matches Ok(r) && r@ == (ResolvedView {
                    name: name@,
                    provider: cfg.models@[name@]@,
                    credential: key,
                    model_source: Source::Config,
                    base_url_source: Source::Config,
                    credential_source: if env is Some {
                        CredSource::Env
                    } else if filed {
                        CredSource::CredentialsFile
                    } else {
                        CredSource::KeychainOrNone
                    },
                })
            }
        }),
{
    let env = first_env(vars, "MEDHA_API_KEY");
    let source = if env.is_some() {
        CredSource::Env
    } else if filed {
        CredSource::CredentialsFile
    } else {
        CredSource::KeychainOrNone
    };
    let raw = match env {
        Some(k) => k,
        None => match stored {
            Some(k) => k,
            None => {
                let nothing = String::new();
                assert(nothing@ =~= seq![]);
                nothing
            },
        },
    };
    let key = normalize_api_key(raw.as_str());
    resolve_model_with_key(cfg, name, key.as_str(), fault, source)
}

/// The headers as JSON text.
pub open spec fn headers_text(rows: Seq<(Seq<char>, Seq<char>)>) -> Seq<char> {
    json_text::rendered(json::text_object(table::entered(rows)))
}

/// [`serde_json::to_string`] of a map that the rows were put into: an object with its keys
/// in order. It does not fail for texts. What it writes is read as the same rows again.
#[verifier::external_body]
fn write_headers(rows: &Vec<(String, String)>) -> (out: String)
    ensures
        out@ == headers_text(servers::listed(rows@)),
        headers_json(out@) == Some(table::entered(servers::listed(rows@))),
{
    let map: BTreeMap<&String, &String> = rows.iter().map(|row| (&row.0, &row.1)).collect();
    serde_json::to_string(&map).unwrap_or_default()
}

/// The word for what a model can do in the way of reasoning.
pub open spec fn reasoning_name(r: ReasoningSupport) -> Seq<char> {
    match r {
        ReasoningSupport::Unknown => "unknown"@,
        ReasoningSupport::Unsupported => "unsupported"@,
        ReasoningSupport::Effort => "effort"@,
    }
}

fn reasoning_word(r: ReasoningSupport) -> (out: &'static str)
    ensures
        out@ == reasoning_name(r),
{
    match r {
        ReasoningSupport::Unknown => "unknown",
        ReasoningSupport::Unsupported => "unsupported",
        ReasoningSupport::Effort => "effort",
    }
}

/// The variables by which a child program reaches the same model.
pub open spec fn handed_down(r: ResolvedView) -> Seq<(Seq<char>, Seq<char>)> {
    let first = seq![
        ("MEDHA_BASE_URL"@, r.provider.base_url),
        ("MEDHA_MODEL"@, r.provider.model),
        ("MEDHA_API_KEY"@, r.credential),
        ("MEDHA_PROTOCOL"@, r.provider.protocol),
        ("MEDHA_AUTH"@, r.provider.auth.name()),
        ("MEDHA_REASONING_SUPPORT"@, reasoning_name(r.provider.reasoning)),
    ];
    if r.provider.headers.len() > 0 {
        first.push(("MEDHA_HEADERS_JSON"@, headers_text(r.provider.headers)))
    } else {
        first
    }
}

/// The variables by which a child program reaches the same model. It reads the same headers
/// out of them.
pub fn child_environment(r: &Resolved) -> (out: Vec<(String, String)>)
    ensures
        environment::variables(out@) == handed_down(r@),
        r@.provider.headers.len() > 0 ==> headers_json(headers_text(r@.provider.headers)) == Some(
            table::entered(r@.provider.headers),
        ),
{
    let mut out: Vec<(String, String)> = Vec::new();
    out.push(("MEDHA_BASE_URL".to_owned(), r.provider.base_url.clone()));
    out.push(("MEDHA_MODEL".to_owned(), r.provider.model.clone()));
    out.push(("MEDHA_API_KEY".to_owned(), r.credential.clone()));
    out.push(("MEDHA_PROTOCOL".to_owned(), r.provider.protocol.as_str().to_owned()));
    out.push(("MEDHA_AUTH".to_owned(), r.provider.auth.as_str().to_owned()));
    out.push(
        ("MEDHA_REASONING_SUPPORT".to_owned(), reasoning_word(r.provider.reasoning).to_owned()),
    );
    assert(servers::listed(r.provider.headers.rows@).len() == r.provider.headers.rows@.len());
    if r.provider.headers.rows.len() > 0 {
        out.push(("MEDHA_HEADERS_JSON".to_owned(), write_headers(&r.provider.headers.rows)));
    }
    assert(environment::variables(out@) =~= handed_down(r@));
    out
}

/// A flag wins over the environment, and the environment over what is saved.
pub proof fn law_precedence(
    flag: Option<Seq<char>>,
    env: Option<Seq<char>>,
    saved: Option<Seq<char>>,
)
    ensures
        picked(flag, env, saved) is None <==> flag is None && env is None && saved is None,
        flag matches Some(v) ==> picked(flag, env, saved) == Some((v, Source::Flag)),
        flag is None ==> (env matches Some(v) ==> picked(flag, env, saved) == Some(
            (v, Source::Env),
        )),
{
}

/// Variables that begin with other names change nothing: a resolution depends on the
/// program's own variables alone.
pub proof fn law_only_own_variables_count(
    g: Given,
    vars: Seq<(Seq<char>, Seq<char>)>,
    flag_url: Option<Seq<char>>,
    flag_model: Option<Seq<char>>,
)
    requires
        setting(vars, "MEDHA_BASE_URL"@) == setting(g.vars, "MEDHA_BASE_URL"@),
        setting(vars, "MEDHA_MODEL"@) == setting(g.vars, "MEDHA_MODEL"@),
        setting(vars, "MEDHA_API_KEY"@) == setting(g.vars, "MEDHA_API_KEY"@),
        setting(vars, "MEDHA_MAX_CTX"@) == setting(g.vars, "MEDHA_MAX_CTX"@),
        setting(vars, "MEDHA_PROTOCOL"@) == setting(g.vars, "MEDHA_PROTOCOL"@),
        setting(vars, "MEDHA_AUTH"@) == setting(g.vars, "MEDHA_AUTH"@),
        setting(vars, "MEDHA_HEADERS_JSON"@) == setting(g.vars, "MEDHA_HEADERS_JSON"@),
        setting(vars, "MEDHA_MAX_OUTPUT_TOKENS"@) == setting(g.vars, "MEDHA_MAX_OUTPUT_TOKENS"@),
        setting(vars, "MEDHA_TOKEN_COUNTER"@) == setting(g.vars, "MEDHA_TOKEN_COUNTER"@),
        setting(vars, "MEDHA_TOKEN_ACCOUNTING"@) == setting(g.vars, "MEDHA_TOKEN_ACCOUNTING"@),
        setting(vars, "MEDHA_REASONING_SUPPORT"@) == setting(g.vars, "MEDHA_REASONING_SUPPORT"@),
    ensures
        resolution(Given { vars, ..g }, flag_url, flag_model) == resolution(
            g,
            flag_url,
            flag_model,
        ),
{
    let h = Given { vars, ..g };
    assert(raw_key(h) == raw_key(g));
    assert(protocol_of(h) == protocol_of(g)) by {
        reveal(protocol_of);
    }
    assert forall|p: Seq<char>| auth_used(h, p) == auth_used(g, p) by {
        reveal(auth_used);
    }
    assert(headers_of(h) == headers_of(g)) by {
        reveal(headers_of);
    }
    assert(max_ctx_of(h) == max_ctx_of(g)) by {
        reveal(max_ctx_of);
    }
    assert(max_output_of(h) == max_output_of(g)) by {
        reveal(max_output_of);
    }
    assert(counter_used(h) == counter_used(g)) by {
        reveal(counter_used);
    }
    assert(accounting_used(h) == accounting_used(g)) by {
        reveal(accounting_used);
    }
    assert(reasoning_used(h) == reasoning_used(g)) by {
        reveal(reasoning_used);
    }
}

/// The `i`-th variable is the first of that name.
pub open spec fn first_named(vars: Seq<(String, String)>, name: Seq<char>, i: int) -> bool {
    &&& 0 <= i < vars.len()
    &&& vars[i].0@ == name
    &&& forall|j: int| 0 <= j < i ==> (#[trigger] vars[j]).0@ != name
}

/// The variable is set to `value`, which is not empty.
pub open spec fn exported(vars: Seq<(String, String)>, name: Seq<char>, value: Seq<char>) -> bool {
    &&& value.len() > 0
    &&& exists|i: int| #[trigger] first_named(vars, name, i) && vars[i].1@ == value
}

/// The variable is not set, or it is empty.
pub open spec fn not_exported(vars: Seq<(String, String)>, name: Seq<char>) -> bool {
    forall|value: Seq<char>| !exported(vars, name, value)
}

/// What is found of a variable is what its first row says.
pub proof fn lemma_variable(vars: Seq<(String, String)>, name: Seq<char>, i: int)
    requires
        0 <= i <= vars.len(),
        forall|j: int| 0 <= j < i ==> (#[trigger] vars[j]).0@ != name,
    ensures
        match environment::variable(environment::variables(vars), name, i) {
            Some(v) => exists|k: int| #[trigger] first_named(vars, name, k) && vars[k].1@ == v,
            None => forall|k: int| !first_named(vars, name, k),
        },
    decreases vars.len() - i,
{
    if i < vars.len() {
        assert(environment::variables(vars)[i] == (vars[i].0@, vars[i].1@));
        if vars[i].0@ != name {
            lemma_variable(vars, name, i + 1);
        } else {
            assert(first_named(vars, name, i));
        }
    }
}

proof fn lemma_setting(vars: Seq<(String, String)>, name: Seq<char>)
    ensures
        match setting(environment::variables(vars), name) {
            Some(v) => exported(vars, name, v) && forall|w: Seq<char>|
                exported(vars, name, w) ==> w == v,
            None => not_exported(vars, name),
        },
{
    reveal(setting);
    lemma_variable(vars, name, 0);
    assert forall|a: int, b: int| first_named(vars, name, a) && first_named(vars, name, b) implies a
        == b by {
        if a < b {
            assert(vars[a].0@ != name);
        } else if b < a {
            assert(vars[b].0@ != name);
        }
    }
}

/// The model that a session starts with under this name and with this provider: the default
/// where it is saved, else the first of the saved ones.
pub open spec fn starts_with(cfg: Option<&Config>, name: Seq<char>, provider: ProviderView) -> bool {
    &&& cfg is Some
    &&& cfg->0.models@.dom().contains(name)
    &&& cfg->0.models@[name]@ == provider
    &&& if cfg->0.default_model is Some && cfg->0.models@.dom().contains(cfg->0.default_model->0@) {
        name == cfg->0.default_model->0@
    } else {
        cfg->0.models.rows@.len() > 0 && name == cfg->0.models.rows@[0].0@
    }
}

proof fn lemma_starts_with(cfg: Option<&Config>, keys: Keys, vars: Seq<(String, String)>, others: OtherProtocols)
    requires
        cfg matches Some(c) ==> c.wf(),
    ensures
        match given(cfg, vars, keys, others).saved {
            Some((n, p)) => starts_with(cfg, n, p),
            None => cfg is None || cfg->0.models.rows@.len() == 0,
        },
{
    if let Some(c) = cfg {
        if c.models.rows@.len() > 0 {
            table::lemma_found(c.models.rows@, 0);
        }
        if c.default_model is Some && c.models@.dom().contains(c.default_model->0@) {
        }
        if c.models.rows@.len() == 0 {
            assert(c.startup() is None) by {
                if c.default_model is Some {
                    table::lemma_find(c.models.rows@, c.default_model->0@, 0);
                }
            }
        }
    }
}

/// The key of the environment counts before the one that is filed, and that before the one
/// of the keychain; the source says which it was. The token of the key is what is used.
pub proof fn law_key_precedence(
    cfg: Option<&Config>,
    flag_url: Option<Seq<char>>,
    flag_model: Option<Seq<char>>,
    vars: Seq<(String, String)>,
    keys: Keys,
    others: OtherProtocols,
    r: ResolvedView,
)
    requires
        resolution(given(cfg, vars, keys, others), flag_url, flag_model) == Ok::<
            Option<ResolvedView>,
            Seq<char>,
        >(Some(r)),
    ensures
        forall|k: Seq<char>| #[trigger]
            exported(vars, "MEDHA_API_KEY"@, k) ==> r.credential == providers::normalized(k)
                && r.credential_source == CredSource::Env,
        not_exported(vars, "MEDHA_API_KEY"@) && keys.file is Some ==> r.credential
            == providers::normalized(keys.file->0@) && r.credential_source
            == CredSource::CredentialsFile,
        not_exported(vars, "MEDHA_API_KEY"@) && keys.file is None ==> r.credential_source
            == CredSource::KeychainOrNone,
        not_exported(vars, "MEDHA_API_KEY"@) && keys.file is None && keys.keychain is Some
            ==> r.credential == providers::normalized(keys.keychain->0@),
        not_exported(vars, "MEDHA_API_KEY"@) && keys.file is None && keys.keychain is None
            ==> r.credential.len() == 0,
{
    lemma_setting(vars, "MEDHA_API_KEY"@);
    let nothing: Seq<char> = seq![];
    assert(text::trim_start(nothing) =~= nothing);
    assert(text::trim_end(nothing) =~= nothing);
    assert(providers::normalized(nothing).len() == 0);
}

/// The address and the model come from the flag, else from the environment, else from the
/// saved model, each on its own, and the source says from where. A session has a model
/// exactly where it has both.
pub proof fn law_flags_then_environment_then_saved(
    cfg: Option<&Config>,
    flag_url: Option<Seq<char>>,
    flag_model: Option<Seq<char>>,
    vars: Seq<(String, String)>,
    keys: Keys,
    others: OtherProtocols,
)
    requires
        cfg matches Some(c) ==> c.wf(),
    ensures
        ({
            let out = resolution(given(cfg, vars, keys, others), flag_url, flag_model);
            let saved = cfg is Some && cfg->0.models.rows@.len() > 0;
            let url = flag_url is Some || !not_exported(vars, "MEDHA_BASE_URL"@) || saved;
            let model = flag_model is Some || !not_exported(vars, "MEDHA_MODEL"@) || saved;
            &&& (out matches Ok(r) && r is None) == !(url && model)
            &&& forall|r: ResolvedView|
                #![trigger r.name]
                out == Ok::<Option<ResolvedView>, Seq<char>>(Some(r)) ==> {
                    &&& flag_url is Some ==> r.provider.base_url == flag_url->0 && r.base_url_source
                        == Source::Flag
                    &&& flag_model is Some ==> r.provider.model == flag_model->0 && r.model_source
                        == Source::Flag
                    &&& flag_url is None ==> forall|v: Seq<char>| #[trigger]
                        exported(vars, "MEDHA_BASE_URL"@, v) ==> r.provider.base_url == v
                            && r.base_url_source == Source::Env
                    &&& flag_model is None ==> forall|v: Seq<char>| #[trigger]
                        exported(vars, "MEDHA_MODEL"@, v) ==> r.provider.model == v && r.model_source
                            == Source::Env
                    &&& flag_url is None && not_exported(vars, "MEDHA_BASE_URL"@) ==> exists|
                        n: Seq<char>,
                        p: ProviderView,
                    | #[trigger]
                        starts_with(cfg, n, p) && r.provider.base_url == p.base_url
                            && r.base_url_source == Source::Config
                    &&& flag_model is None && not_exported(vars, "MEDHA_MODEL"@) ==> exists|
                        n: Seq<char>,
                        p: ProviderView,
                    | #[trigger]
                        starts_with(cfg, n, p) && r.provider.model == p.model && r.model_source
                            == Source::Config
                }
        }),
{
    lemma_setting(vars, "MEDHA_BASE_URL"@);
    lemma_setting(vars, "MEDHA_MODEL"@);
    lemma_starts_with(cfg, keys, vars, others);
}

/// Without flags and without variables, what is saved is what is used, under its name.
pub proof fn law_saved_model_is_used(
    cfg: Option<&Config>,
    vars: Seq<(String, String)>,
    keys: Keys,
    others: OtherProtocols,
    n: Seq<char>,
    p: ProviderView,
)
    requires
        cfg matches Some(c) ==> c.wf(),
        starts_with(cfg, n, p),
        not_exported(vars, "MEDHA_BASE_URL"@),
        not_exported(vars, "MEDHA_MODEL"@),
        not_exported(vars, "MEDHA_MAX_CTX"@),
        not_exported(vars, "MEDHA_PROTOCOL"@),
        not_exported(vars, "MEDHA_AUTH"@),
        not_exported(vars, "MEDHA_HEADERS_JSON"@),
        not_exported(vars, "MEDHA_MAX_OUTPUT_TOKENS"@),
        not_exported(vars, "MEDHA_TOKEN_COUNTER"@),
        not_exported(vars, "MEDHA_TOKEN_ACCOUNTING"@),
        not_exported(vars, "MEDHA_REASONING_SUPPORT"@),
    ensures
        ({
            let out = resolution(given(cfg, vars, keys, others), None, None);
            &&& out is Ok && out->Ok_0 is Some
            &&& out->Ok_0->0.name == n
            &&& !(p.auth is Unauthenticated) ==> out->Ok_0->0.provider == p
            &&& out->Ok_0->0.credential.len() == 0 ==> out->Ok_0->0.provider == p
            &&& out->Ok_0->0.provider == (ProviderView { auth: out->Ok_0->0.provider.auth, ..p })
            &&& out->Ok_0->0.model_source == Source::Config
            &&& out->Ok_0->0.base_url_source == Source::Config
        }),
{
    lemma_setting(vars, "MEDHA_BASE_URL"@);
    lemma_setting(vars, "MEDHA_MODEL"@);
    lemma_setting(vars, "MEDHA_MAX_CTX"@);
    lemma_setting(vars, "MEDHA_PROTOCOL"@);
    lemma_setting(vars, "MEDHA_AUTH"@);
    lemma_setting(vars, "MEDHA_HEADERS_JSON"@);
    lemma_setting(vars, "MEDHA_MAX_OUTPUT_TOKENS"@);
    lemma_setting(vars, "MEDHA_TOKEN_COUNTER"@);
    lemma_setting(vars, "MEDHA_TOKEN_ACCOUNTING"@);
    lemma_setting(vars, "MEDHA_REASONING_SUPPORT"@);
    lemma_starts_with(cfg, keys, vars, others);
    let g = given(cfg, vars, keys, others);
    assert(g.saved == Some((n, p)));
    reveal(protocol_of);
    reveal(auth_used);
    reveal(headers_of);
    reveal(max_ctx_of);
    reveal(max_output_of);
    reveal(counter_used);
    reveal(accounting_used);
    reveal(reasoning_used);
}

/// What the environment says of the provider counts before what is saved, and what it says
/// wrongly is refused.
pub proof fn law_environment_overrides_saved(
    cfg: Option<&Config>,
    flag_url: Option<Seq<char>>,
    flag_model: Option<Seq<char>>,
    vars: Seq<(String, String)>,
    keys: Keys,
    others: OtherProtocols,
    r: ResolvedView,
)
    requires
        resolution(given(cfg, vars, keys, others), flag_url, flag_model) == Ok::<
            Option<ResolvedView>,
            Seq<char>,
        >(Some(r)),
    ensures
        forall|v: Seq<char>| #[trigger]
            exported(vars, "MEDHA_PROTOCOL"@, v) ==> r.provider.protocol == v && (v
                == "open-ai-chat"@ || v == "gemini-interactions"@ || text::views(
                others.names@,
            ).contains(v)),
        forall|v: Seq<char>| #[trigger]
            exported(vars, "MEDHA_AUTH"@, v) ==> providers::auth_of(v) == Some(r.provider.auth),
        forall|v: Seq<char>| #[trigger]
            exported(vars, "MEDHA_HEADERS_JSON"@, v) ==> headers_json(v) == Some(
                r.provider.headers,
            ),
        forall|v: Seq<char>| #[trigger]
            exported(vars, "MEDHA_MAX_CTX"@, v) ==> r.provider.max_ctx is Some && number::parsed(
                text::trim(v),
                u32::MAX as nat,
            ) == Some(r.provider.max_ctx->0 as nat) && r.provider.max_ctx->0 > 0,
        forall|v: Seq<char>| #[trigger]
            exported(vars, "MEDHA_MAX_OUTPUT_TOKENS"@, v) ==> r.provider.max_output_tokens is Some
                && number::parsed(text::trim(v), u64::MAX as nat) == Some(
                r.provider.max_output_tokens->0 as nat,
            ) && r.provider.max_output_tokens->0 > 0,
        forall|v: Seq<char>| #[trigger]
            exported(vars, "MEDHA_TOKEN_COUNTER"@, v) ==> providers::counter_of(v) == Some(
                r.provider.token_counter,
            ),
        forall|v: Seq<char>| #[trigger]
            exported(vars, "MEDHA_TOKEN_ACCOUNTING"@, v) ==> providers::accounting_of(v) == Some(
                r.provider.token_accounting,
            ),
        forall|v: Seq<char>| #[trigger]
            exported(vars, "MEDHA_REASONING_SUPPORT"@, v) ==> providers::reasoning_of(v) == Some(
                r.provider.reasoning,
            ),
{
    lemma_setting(vars, "MEDHA_MAX_CTX"@);
    lemma_setting(vars, "MEDHA_PROTOCOL"@);
    lemma_setting(vars, "MEDHA_AUTH"@);
    lemma_setting(vars, "MEDHA_HEADERS_JSON"@);
    lemma_setting(vars, "MEDHA_MAX_OUTPUT_TOKENS"@);
    lemma_setting(vars, "MEDHA_TOKEN_COUNTER"@);
    lemma_setting(vars, "MEDHA_TOKEN_ACCOUNTING"@);
    lemma_setting(vars, "MEDHA_REASONING_SUPPORT"@);
    reveal(protocol_of);
    reveal(auth_used);
    reveal(headers_of);
    reveal(max_ctx_of);
    reveal(max_output_of);
    reveal(counter_used);
    reveal(accounting_used);
    reveal(reasoning_used);
}

/// A key is not left unsent: where there is one and the saved scheme sends none, the usual
/// scheme of the protocol is used, and a scheme that needs a key is never used without one.
pub proof fn law_keys_are_sent(
    cfg: Option<&Config>,
    flag_url: Option<Seq<char>>,
    flag_model: Option<Seq<char>>,
    vars: Seq<(String, String)>,
    keys: Keys,
    others: OtherProtocols,
    r: ResolvedView,
    fault: Option<Seq<char>>,
)
    requires
        resolution(given(cfg, vars, keys, others), flag_url, flag_model) == Ok::<
            Option<ResolvedView>,
            Seq<char>,
        >(Some(r)),
    ensures
        not_exported(vars, "MEDHA_AUTH"@) && r.credential.len() > 0 && r.provider.protocol
            == "open-ai-chat"@ ==> !(r.provider.auth is Unauthenticated),
        not_exported(vars, "MEDHA_AUTH"@) && r.credential.len() > 0 && r.provider.protocol
            == "gemini-interactions"@ ==> !(r.provider.auth is Unauthenticated),
        use_fault(r, fault) is None ==> r.provider.auth is Unauthenticated || r.credential.len()
            > 0,
        use_fault(r, fault) is None <==> fault is None && (r.provider.auth is Unauthenticated
            || r.credential.len() > 0),
{
    lemma_setting(vars, "MEDHA_AUTH"@);
    reveal(auth_used);
    reveal_strlit("open-ai-chat");
    reveal_strlit("gemini-interactions");
    assert("open-ai-chat"@.len() == 12 && "gemini-interactions"@.len() == 19);
}

/// A child program that is handed these variables resolves the same model: the same
/// address, model and key.
pub proof fn law_handed_down_is_resolved_again(r: ResolvedView, g: Given)
    requires
        g.vars == handed_down(r),
        r.provider.base_url.len() > 0,
        r.provider.model.len() > 0,
        r.credential.len() > 0,
        r.provider.protocol.len() > 0,
    ensures
        base_url_of(g, None) == Some((r.provider.base_url, Source::Env)),
        model_of(g, None) == Some((r.provider.model, Source::Env)),
        raw_key(g) == r.credential,
        key_source(g) == CredSource::Env,
        setting(g.vars, "MEDHA_PROTOCOL"@) == Some(r.provider.protocol),
        setting(g.vars, "MEDHA_AUTH"@) == Some(r.provider.auth.name()),
{
    reveal(setting);
    reveal_strlit("MEDHA_BASE_URL");
    reveal_strlit("MEDHA_MODEL");
    reveal_strlit("MEDHA_API_KEY");
    reveal_strlit("MEDHA_PROTOCOL");
    reveal_strlit("MEDHA_AUTH");
    reveal_strlit("none");
    reveal_strlit("bearer");
    reveal_strlit("x-api-key");
    reveal_strlit("x-goog-api-key");
    assert("MEDHA_BASE_URL"@.len() == 14 && "MEDHA_BASE_URL"@[6] == 'B');
    assert("MEDHA_MODEL"@.len() == 11);
    assert("MEDHA_API_KEY"@.len() == 13);
    assert("MEDHA_PROTOCOL"@.len() == 14 && "MEDHA_PROTOCOL"@[6] == 'P');
    assert("MEDHA_AUTH"@.len() == 10);
    assert(r.provider.auth.name().len() > 0);
    let v = handed_down(r);
    assert(v[0] == ("MEDHA_BASE_URL"@, r.provider.base_url));
    assert(v[1] == ("MEDHA_MODEL"@, r.provider.model));
    assert(v[2] == ("MEDHA_API_KEY"@, r.credential));
    assert(v[3] == ("MEDHA_PROTOCOL"@, r.provider.protocol));
    assert(v[4] == ("MEDHA_AUTH"@, r.provider.auth.name()));
    reveal_with_fuel(environment::variable, 6);
}

} // verus!

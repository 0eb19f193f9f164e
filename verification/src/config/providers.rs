//! Model providers: how they are spoken to, and what is known of their models.

use vstd::prelude::*;
use vstd::string::*;
use crate::config::servers;
use crate::number;
use crate::number::parse_up_to;
use crate::table;
use crate::table::Table;
use crate::text;
use crate::text::{
    cat3, cat5, chars_of, copy_texts, lower_text, replace_all, same, trimmed,
};

verus! {

/// The protocol of a provider.
pub enum Protocol {
    OpenAiChat,
    GeminiInteractions,
    /// One that is known by its name alone.
    Other(String),
}

impl Protocol {
    pub open spec fn name(self) -> Seq<char> {
        match self {
            Protocol::OpenAiChat => "open-ai-chat"@,
            Protocol::GeminiInteractions => "gemini-interactions"@,
            Protocol::Other(s) => s@,
        }
    }

    pub fn as_str(&self) -> (out: &str)
        ensures
            out@ == self.name(),
    {
        match self {
            Protocol::OpenAiChat => "open-ai-chat",
            Protocol::GeminiInteractions => "gemini-interactions",
            Protocol::Other(s) => s.as_str(),
        }
    }

    pub fn copy(&self) -> (out: Protocol)
        ensures
            out.name() == self.name(),
            out is OpenAiChat == self is OpenAiChat,
            out is GeminiInteractions == self is GeminiInteractions,
    {
        match self {
            Protocol::OpenAiChat => Protocol::OpenAiChat,
            Protocol::GeminiInteractions => Protocol::GeminiInteractions,
            Protocol::Other(s) => Protocol::Other(s.clone()),
        }
    }
}

/// How a request carries its credential.
#[derive(Debug, Clone, Copy, PartialEq, Eq, Structural)]
pub enum AuthKind {
    Unauthenticated,
    Bearer,
    XApiKey,
    XGoogApiKey,
}

impl AuthKind {
    pub open spec fn name(self) -> Seq<char> {
        match self {
            AuthKind::Unauthenticated => "none"@,
            AuthKind::Bearer => "bearer"@,
            AuthKind::XApiKey => "x-api-key"@,
            AuthKind::XGoogApiKey => "x-goog-api-key"@,
        }
    }

    pub fn as_str(&self) -> (out: &'static str)
        ensures
            out@ == self.name(),
    {
        match self {
            AuthKind::Unauthenticated => "none",
            AuthKind::Bearer => "bearer",
            AuthKind::XApiKey => "x-api-key",
            AuthKind::XGoogApiKey => "x-goog-api-key",
        }
    }

    /// Whether a request needs a credential.
    pub fn requires_credential(&self) -> (yes: bool)
        ensures
            yes == !(*self is Unauthenticated),
    {
        match self {
            AuthKind::Unauthenticated => false,
            _ => true,
        }
    }
}

/// How the tokens of a request are counted by the provider.
#[derive(Debug, Clone, Copy, PartialEq, Eq, Structural)]
pub enum TokenCounter {
    Uncounted,
    Vllm,
}

#[derive(Debug, Clone, Copy, PartialEq, Eq, Structural)]
pub enum TokenAccountingMode {
    Adaptive,
    Strict,
}

#[derive(Debug, Clone, Copy, PartialEq, Eq, Structural)]
pub enum ReasoningSupport {
    Unknown,
    Unsupported,
    Effort,
}

/// A model, and how its provider is reached.
pub struct ProviderConfig {
    pub protocol: Protocol,
    pub base_url: String,
    pub model: String,
    pub auth: AuthKind,
    pub headers: Table<String>,
    pub max_ctx: Option<u32>,
    pub max_output_tokens: Option<u64>,
    pub token_counter: TokenCounter,
    pub token_accounting: TokenAccountingMode,
    pub reasoning: ReasoningSupport,
    pub reasoning_efforts: Option<Vec<String>>,
    /// Passed on to the provider as it is.
    pub chat_token_limit: u64,
}

/// What a [`ProviderConfig`] holds.
#[verifier::ext_equal]
pub ghost struct ProviderView {
    pub protocol: Seq<char>,
    pub base_url: Seq<char>,
    pub model: Seq<char>,
    pub auth: AuthKind,
    pub headers: Seq<(Seq<char>, Seq<char>)>,
    pub max_ctx: Option<u32>,
    pub max_output_tokens: Option<u64>,
    pub token_counter: TokenCounter,
    pub token_accounting: TokenAccountingMode,
    pub reasoning: ReasoningSupport,
    pub reasoning_efforts: Option<Seq<Seq<char>>>,
    pub chat_token_limit: u64,
}

/// The view of an optional list of texts.
pub open spec fn list_view(v: Option<Vec<String>>) -> Option<Seq<Seq<char>>> {
    match v {
        Some(l) => Some(text::views(l@)),
        None => None,
    }
}

impl View for ProviderConfig {
    type V = ProviderView;

    open spec fn view(&self) -> ProviderView {
        ProviderView {
            protocol: self.protocol.name(),
            base_url: self.base_url@,
            model: self.model@,
            auth: self.auth,
            headers: servers::listed(self.headers.rows@),
            max_ctx: self.max_ctx,
            max_output_tokens: self.max_output_tokens,
            token_counter: self.token_counter,
            token_accounting: self.token_accounting,
            reasoning: self.reasoning,
            reasoning_efforts: list_view(self.reasoning_efforts),
            chat_token_limit: self.chat_token_limit,
        }
    }
}

fn same_list(a: &Vec<String>, b: &Vec<String>) -> (yes: bool)
    ensures
        yes == (text::views(a@) == text::views(b@)),
{
    assert(text::views(a@).len() == a@.len());
    assert(text::views(b@).len() == b@.len());
    if a.len() != b.len() {
        return false;
    }
    let mut i: usize = 0;
    while i < a.len()
        invariant
            i <= a@.len(),
            a@.len() == b@.len(),
            forall|j: int| 0 <= j < i ==> (#[trigger] a@[j])@ == b@[j]@,
        decreases a@.len() - i,
    {
        if !same(a[i].as_str(), b[i].as_str()) {
            assert(text::views(a@)[i as int] != text::views(b@)[i as int]);
            return false;
        }
        i = i + 1;
    }
    assert(text::views(a@) =~= text::views(b@));
    true
}

fn same_rows(a: &Vec<(String, String)>, b: &Vec<(String, String)>) -> (yes: bool)
    ensures
        yes == (servers::listed(a@) == servers::listed(b@)),
{
    assert(servers::listed(a@).len() == a@.len());
    assert(servers::listed(b@).len() == b@.len());
    if a.len() != b.len() {
        return false;
    }
    let mut i: usize = 0;
    while i < a.len()
        invariant
            i <= a@.len(),
            a@.len() == b@.len(),
            forall|j: int|
                0 <= j < i ==> (#[trigger] a@[j]).0@ == b@[j].0@ && a@[j].1@ == b@[j].1@,
        decreases a@.len() - i,
    {
        if !same(a[i].0.as_str(), b[i].0.as_str()) || !same(a[i].1.as_str(), b[i].1.as_str()) {
            assert(servers::listed(a@)[i as int] != servers::listed(b@)[i as int]);
            return false;
        }
        i = i + 1;
    }
    assert(servers::listed(a@) =~= servers::listed(b@));
    true
}

/// Rows that hold the same.
pub fn copy_rows(v: &Vec<(String, String)>) -> (out: Vec<(String, String)>)
    ensures
        servers::listed(out@) == servers::listed(v@),
        table::keys(out@) == table::keys(v@),
{
    let mut out: Vec<(String, String)> = Vec::new();
    let mut i: usize = 0;
    while i < v.len()
        invariant
            i <= v@.len(),
            out@.len() == i,
            forall|j: int|
                0 <= j < i ==> (#[trigger] out@[j]).0@ == v@[j].0@ && out@[j].1@ == v@[j].1@,
        decreases v@.len() - i,
    {
        out.push((v[i].0.clone(), v[i].1.clone()));
        i = i + 1;
    }
    assert(servers::listed(out@) =~= servers::listed(v@));
    assert(table::keys(out@) =~= table::keys(v@));
    out
}

impl ProviderConfig {
    /// The headers are in order.
    pub open spec fn wf(self) -> bool {
        self.headers.wf()
    }

    /// The two hold the same.
    pub fn matches(&self, other: &ProviderConfig) -> (yes: bool)
        ensures
            yes == (self@ == other@),
    {
        let efforts = match (&self.reasoning_efforts, &other.reasoning_efforts) {
            (None, None) => true,
            (Some(a), Some(b)) => same_list(a, b),
            _ => false,
        };
        let ctx = match (self.max_ctx, other.max_ctx) {
            (None, None) => true,
            (Some(a), Some(b)) => a == b,
            _ => false,
        };
        let output = match (self.max_output_tokens, other.max_output_tokens) {
            (None, None) => true,
            (Some(a), Some(b)) => a == b,
            _ => false,
        };
        let yes = same(self.protocol.as_str(), other.protocol.as_str()) && same(
            self.base_url.as_str(),
            other.base_url.as_str(),
        ) && same(self.model.as_str(), other.model.as_str()) && self.auth == other.auth
            && same_rows(&self.headers.rows, &other.headers.rows) && ctx && output
            && self.token_counter == other.token_counter && self.token_accounting
            == other.token_accounting && self.reasoning == other.reasoning && efforts
            && self.chat_token_limit == other.chat_token_limit;
        if yes {
            assert(self@ =~= other@);
        }
        yes
    }

    /// A provider that holds the same.
    pub fn copy(&self) -> (out: ProviderConfig)
        ensures
            out@ == self@,
            self.wf() ==> out.wf(),
    {
        ProviderConfig {
            protocol: self.protocol.copy(),
            base_url: self.base_url.clone(),
            model: self.model.clone(),
            auth: self.auth,
            headers: Table { rows: copy_rows(&self.headers.rows) },
            max_ctx: self.max_ctx,
            max_output_tokens: self.max_output_tokens,
            token_counter: self.token_counter,
            token_accounting: self.token_accounting,
            reasoning: self.reasoning,
            reasoning_efforts: match &self.reasoning_efforts {
                Some(l) => Some(copy_texts(l)),
                None => None,
            },
            chat_token_limit: self.chat_token_limit,
        }
    }
}

/// A positive number of at most `max`, as it stands in a variable.
pub open spec fn positive(value: Seq<char>, max: nat) -> Option<nat> {
    match number::parsed(text::trim(value), max) {
        Some(n) => if n > 0 {
            Some(n)
        } else {
            None
        },
        None => None,
    }
}

/// What is wrong with a number in a variable.
pub open spec fn not_positive(name: Seq<char>, value: Seq<char>, max: nat) -> Seq<char> {
    match number::parsed(text::trim(value), max) {
        Some(_) => "invalid "@ + name + " '0'; expected a positive integer"@,
        None => "invalid "@ + name + " '"@ + value + "'; expected a positive integer"@,
    }
}

fn parse_positive(name: &str, value: &str, max: u64) -> (out: Result<u64, String>)
    ensures
        match out {
            Ok(n) => positive(value@, max as nat) == Some(n as nat),
            Err(e) => positive(value@, max as nat) is None && e@ == not_positive(
                name@,
                value@,
                max as nat,
            ),
        },
{
    match parse_up_to(trimmed(value).as_str(), max) {
        Some(n) => if n > 0 {
            Ok(n)
        } else {
            Err(cat3("invalid ", name, " '0'; expected a positive integer"))
        },
        None => Err(cat5("invalid ", name, " '", value, "'; expected a positive integer")),
    }
}

/// A positive number from a variable.
pub fn parse_positive_u32(name: &str, value: &str) -> (out: Result<u32, String>)
    ensures
        match out {
            Ok(n) => positive(value@, u32::MAX as nat) == Some(n as nat),
            Err(e) => positive(value@, u32::MAX as nat) is None && e@ == not_positive(
                name@,
                value@,
                u32::MAX as nat,
            ),
        },
{
    match parse_positive(name, value, 0xffff_ffff) {
        Ok(n) => Ok(n as u32),
        Err(e) => Err(e),
    }
}

/// A positive number from a variable.
pub fn parse_positive_u64(name: &str, value: &str) -> (out: Result<u64, String>)
    ensures
        match out {
            Ok(n) => positive(value@, u64::MAX as nat) == Some(n as nat),
            Err(e) => positive(value@, u64::MAX as nat) is None && e@ == not_positive(
                name@,
                value@,
                u64::MAX as nat,
            ),
        },
{
    parse_positive(name, value, u64::MAX)
}

/// The protocol of a name. `others` are the names of those that are not built in.
pub fn parse_protocol(value: &str, others: &Vec<String>) -> (out: Result<Protocol, String>)
    ensures
        match out {
            Ok(p) => p.name() == value@ && (value@ == "open-ai-chat"@ || value@
                == "gemini-interactions"@ || text::views(others@).contains(value@)),
            Err(e) => {
                &&& value@ != "open-ai-chat"@
                &&& value@ != "gemini-interactions"@
                &&& !text::views(others@).contains(value@)
                &&& e@ == "invalid MEDHA_PROTOCOL: unknown protocol '"@ + value@ + "'"@
            },
        },
{
    if same(value, "open-ai-chat") {
        return Ok(Protocol::OpenAiChat);
    }
    if same(value, "gemini-interactions") {
        return Ok(Protocol::GeminiInteractions);
    }
    let mut i: usize = 0;
    while i < others.len()
        invariant
            i <= others@.len(),
            value@ != "open-ai-chat"@,
            value@ != "gemini-interactions"@,
            forall|j: int| 0 <= j < i ==> (#[trigger] text::views(others@)[j]) != value@,
        decreases others@.len() - i,
    {
        assert(text::views(others@)[i as int] == others@[i as int]@);
        if same(others[i].as_str(), value) {
            return Ok(Protocol::Other(value.to_owned()));
        }
        i = i + 1;
    }
    Err(cat3("invalid MEDHA_PROTOCOL: unknown protocol '", value, "'"))
}

/// A word of a variable, without regard to case and to the white space around it.
pub open spec fn plain_word(value: Seq<char>) -> Seq<char> {
    text::lowered(text::trim(value))
}

/// The scheme that a word names.
pub open spec fn auth_of(value: Seq<char>) -> Option<AuthKind> {
    let w = text::replaced(plain_word(value), "_"@, "-"@);
    if w == "none"@ || w == "off"@ {
        Some(AuthKind::Unauthenticated)
    } else if w == "bearer"@ {
        Some(AuthKind::Bearer)
    } else if w == "x-api-key"@ || w == "anthropic"@ {
        Some(AuthKind::XApiKey)
    } else if w == "x-goog-api-key"@ || w == "google"@ || w == "gemini"@ {
        Some(AuthKind::XGoogApiKey)
    } else {
        None
    }
}

/// The scheme that a word names; underscores count as hyphens.
pub fn parse_auth(value: &str) -> (out: Result<AuthKind, String>)
    ensures
        match out {
            Ok(a) => auth_of(value@) == Some(a),
            Err(e) => auth_of(value@) is None && e@ == "invalid MEDHA_AUTH '"@ + text::replaced(
                plain_word(value@),
                "_"@,
                "-"@,
            ) + "'; expected 'none', 'bearer', 'x-api-key', or 'x-goog-api-key'"@,
        },
{
    proof {
        reveal_strlit("_");
        reveal_strlit("none");
        reveal_strlit("off");
        reveal_strlit("bearer");
        reveal_strlit("x-api-key");
        reveal_strlit("anthropic");
        reveal_strlit("x-goog-api-key");
        reveal_strlit("google");
        reveal_strlit("gemini");
        assert("none"@.len() == 4 && "off"@.len() == 3 && "bearer"@.len() == 6 && "x-api-key"@.len()
            == 9 && "anthropic"@.len() == 9 && "x-goog-api-key"@.len() == 14 && "google"@.len() == 6
            && "gemini"@.len() == 6);
        assert("bearer"@[0] == 'b' && "google"@[1] == 'o' && "gemini"@[1] == 'e' && "google"@[0]
            == 'g' && "gemini"@[0] == 'g');
    }
    let w = replace_all(lower_text(trimmed(value).as_str()).as_str(), "_", "-");
    let s = w.as_str();
    if same(s, "none") || same(s, "off") {
        Ok(AuthKind::Unauthenticated)
    } else if same(s, "bearer") {
        Ok(AuthKind::Bearer)
    } else if same(s, "x-api-key") || same(s, "anthropic") {
        Ok(AuthKind::XApiKey)
    } else if same(s, "x-goog-api-key") || same(s, "google") || same(s, "gemini") {
        Ok(AuthKind::XGoogApiKey)
    } else {
        Err(
            cat3(
                "invalid MEDHA_AUTH '",
                s,
                "'; expected 'none', 'bearer', 'x-api-key', or 'x-goog-api-key'",
            ),
        )
    }
}

/// How the tokens are counted, by a word.
pub open spec fn counter_of(value: Seq<char>) -> Option<TokenCounter> {
    let w = plain_word(value);
    if w == "vllm"@ {
        Some(TokenCounter::Vllm)
    } else if w == "none"@ || w == "off"@ {
        Some(TokenCounter::Uncounted)
    } else {
        None
    }
}

pub fn parse_token_counter(value: &str) -> (out: Result<TokenCounter, String>)
    ensures
        match out {
            Ok(c) => counter_of(value@) == Some(c),
            Err(e) => counter_of(value@) is None && e@ == "invalid MEDHA_TOKEN_COUNTER '"@
                + plain_word(value@) + "'; expected 'none' or 'vllm'"@,
        },
{
    proof {
        reveal_strlit("vllm");
        reveal_strlit("none");
        reveal_strlit("off");
        assert("vllm"@[0] == 'v' && "none"@[0] == 'n' && "off"@[0] == 'o');
    }
    let w = lower_text(trimmed(value).as_str());
    if same(w.as_str(), "vllm") {
        Ok(TokenCounter::Vllm)
    } else if same(w.as_str(), "none") || same(w.as_str(), "off") {
        Ok(TokenCounter::Uncounted)
    } else {
        Err(
            cat3(
                "invalid MEDHA_TOKEN_COUNTER '",
                w.as_str(),
                "'; expected 'none' or 'vllm'",
            ),
        )
    }
}

/// How tokens are accounted for, by a word.
pub open spec fn accounting_of(value: Seq<char>) -> Option<TokenAccountingMode> {
    let w = plain_word(value);
    if w == "strict"@ {
        Some(TokenAccountingMode::Strict)
    } else if w == "adaptive"@ {
        Some(TokenAccountingMode::Adaptive)
    } else {
        None
    }
}

pub fn parse_token_accounting(value: &str) -> (out: Result<TokenAccountingMode, String>)
    ensures
        match out {
            Ok(m) => accounting_of(value@) == Some(m),
            Err(e) => accounting_of(value@) is None && e@ == "invalid MEDHA_TOKEN_ACCOUNTING '"@
                + plain_word(value@) + "'; expected 'adaptive' or 'strict'"@,
        },
{
    proof {
        reveal_strlit("strict");
        reveal_strlit("adaptive");
        assert("strict"@.len() == 6 && "adaptive"@.len() == 8);
    }
    let w = lower_text(trimmed(value).as_str());
    if same(w.as_str(), "strict") {
        Ok(TokenAccountingMode::Strict)
    } else if same(w.as_str(), "adaptive") {
        Ok(TokenAccountingMode::Adaptive)
    } else {
        Err(
            cat3(
                "invalid MEDHA_TOKEN_ACCOUNTING '",
                w.as_str(),
                "'; expected 'adaptive' or 'strict'",
            ),
        )
    }
}

/// What is known of a model's reasoning, by a word.
pub open spec fn reasoning_of(value: Seq<char>) -> Option<ReasoningSupport> {
    let w = plain_word(value);
    if w == "unknown"@ || w == "unverified"@ {
        Some(ReasoningSupport::Unknown)
    } else if w == "unsupported"@ || w == "none"@ || w == "off"@ {
        Some(ReasoningSupport::Unsupported)
    } else if w == "effort"@ {
        Some(ReasoningSupport::Effort)
    } else {
        None
    }
}

pub fn parse_reasoning_support(value: &str) -> (out: Result<ReasoningSupport, String>)
    ensures
        match out {
            Ok(r) => reasoning_of(value@) == Some(r),
            Err(e) => reasoning_of(value@) is None && e@ == "invalid MEDHA_REASONING_SUPPORT '"@
                + plain_word(value@) + "'; expected 'unknown', 'unsupported', or 'effort'"@,
        },
{
    proof {
        reveal_strlit("unknown");
        reveal_strlit("unverified");
        reveal_strlit("unsupported");
        reveal_strlit("none");
        reveal_strlit("off");
        reveal_strlit("effort");
        assert("unknown"@.len() == 7 && "unverified"@.len() == 10 && "unsupported"@.len() == 11
            && "none"@.len() == 4 && "off"@.len() == 3 && "effort"@.len() == 6);
    }
    let w = lower_text(trimmed(value).as_str());
    if same(w.as_str(), "unknown") || same(w.as_str(), "unverified") {
        Ok(ReasoningSupport::Unknown)
    } else if same(w.as_str(), "unsupported") || same(w.as_str(), "none") || same(
        w.as_str(),
        "off",
    ) {
        Ok(ReasoningSupport::Unsupported)
    } else if same(w.as_str(), "effort") {
        Ok(ReasoningSupport::Effort)
    } else {
        Err(
            cat3(
                "invalid MEDHA_REASONING_SUPPORT '",
                w.as_str(),
                "'; expected 'unknown', 'unsupported', or 'effort'",
            ),
        )
    }
}

/// Accepts the white space around a scheme.
pub open spec fn white_from(s: Seq<char>, i: int) -> Option<int>
    decreases s.len() - i,
{
    if i < 0 || i >= s.len() {
        None
    } else if text::is_white(s[i]) {
        Some(i)
    } else {
        white_from(s, i + 1)
    }
}

/// The token of a pasted key: what follows the word `Bearer`, where it begins with that.
pub open spec fn normalized(value: Seq<char>) -> Seq<char> {
    let s = text::trim(value);
    if text::lowered(s) == "bearer"@ {
        seq![]
    } else {
        match white_from(s, 0) {
            Some(i) => if text::lowered(s.take(i)) == "bearer"@ {
                text::trim(s.skip(i + 1))
            } else {
                s
            },
            None => s,
        }
    }
}

/// The token of a pasted key.
pub fn normalize_api_key(value: &str) -> (out: String)
    ensures
        out@ == normalized(value@),
{
    let s = trimmed(value);
    if same(lower_text(s.as_str()).as_str(), "bearer") {
        let out = String::new();
        assert(out@ =~= seq![]);
        return out;
    }
    let x = chars_of(s.as_str());
    let n: usize = x.len();
    let mut i: usize = 0;
    while i < n
        invariant
            i <= n,
            n == x@.len(),
            x@ == s@,
            s@ == text::trim(value@),
            text::lowered(s@) != "bearer"@,
            white_from(s@, 0) == white_from(s@, i as int),
        decreases n - i,
    {
        if text::white(x[i]) {
            let scheme = text::text_slice(&x, 0, i);
            assert(scheme@ =~= s@.take(i as int));
            if same(lower_text(scheme.as_str()).as_str(), "bearer") {
                let rest = text::text_slice(&x, i + 1, n);
                assert(rest@ =~= s@.skip(i + 1));
                return trimmed(rest.as_str());
            }
            return s;
        }
        i = i + 1;
    }
    s
}

/// Providers that are offered by name, with their addresses.
pub fn provider_presets() -> (out: [(&'static str, &'static str); 8])
    ensures
        out@ == seq![
            ("Ollama (local)", "http://localhost:11434/v1"),
            ("LM Studio (local)", "http://localhost:1234/v1"),
            ("llama.cpp server (local)", "http://localhost:8080/v1"),
            ("vLLM / SGLang (local)", "http://localhost:8000/v1"),
            ("OpenRouter", "https://openrouter.ai/api/v1"),
            ("Together", "https://api.together.xyz/v1"),
            ("Groq", "https://api.groq.com/openai/v1"),
            ("OpenAI", "https://api.openai.com/v1"),
        ],
{
    [
        ("Ollama (local)", "http://localhost:11434/v1"),
        ("LM Studio (local)", "http://localhost:1234/v1"),
        ("llama.cpp server (local)", "http://localhost:8080/v1"),
        ("vLLM / SGLang (local)", "http://localhost:8000/v1"),
        ("OpenRouter", "https://openrouter.ai/api/v1"),
        ("Together", "https://api.together.xyz/v1"),
        ("Groq", "https://api.groq.com/openai/v1"),
        ("OpenAI", "https://api.openai.com/v1"),
    ]
}

} // verus!

//! Which search engine the web search asks.

use vstd::prelude::*;
use vstd::string::*;
use crate::config::credentials;
use crate::config::credentials::Vault;
use crate::config::models::Config;
use crate::lsp::environment;
use crate::lsp::environment::value_of;
use crate::text;
use crate::text::{chars_of, same, trimmed};

verus! {

#[derive(Debug, Clone, Copy, PartialEq, Eq, Structural)]
pub enum SearchProvider {
    DuckDuckGo,
    Tavily,
    Brave,
    Searxng,
}

/// The engine with an id. An id that no engine has stands for the one that needs no key.
pub open spec fn provider_of(id: Seq<char>) -> SearchProvider {
    if id == "tavily"@ {
        SearchProvider::Tavily
    } else if id == "brave"@ {
        SearchProvider::Brave
    } else if id == "searxng"@ {
        SearchProvider::Searxng
    } else {
        SearchProvider::DuckDuckGo
    }
}

impl SearchProvider {
    pub open spec fn id(self) -> Seq<char> {
        match self {
            SearchProvider::DuckDuckGo => "duckduckgo"@,
            SearchProvider::Tavily => "tavily"@,
            SearchProvider::Brave => "brave"@,
            SearchProvider::Searxng => "searxng"@,
        }
    }

    pub fn as_str(self) -> (out: &'static str)
        ensures
            out@ == self.id(),
    {
        match self {
            SearchProvider::DuckDuckGo => "duckduckgo",
            SearchProvider::Tavily => "tavily",
            SearchProvider::Brave => "brave",
            SearchProvider::Searxng => "searxng",
        }
    }

    pub fn from_id(id: &str) -> (out: SearchProvider)
        ensures
            out == provider_of(id@),
    {
        if same(id, "tavily") {
            SearchProvider::Tavily
        } else if same(id, "brave") {
            SearchProvider::Brave
        } else if same(id, "searxng") {
            SearchProvider::Searxng
        } else {
            SearchProvider::DuckDuckGo
        }
    }
}

impl Config {
    /// The engine that is configured, or the one that needs no key.
    pub open spec fn engine(self) -> SearchProvider {
        match self.search.provider {
            Some(id) => provider_of(id@),
            None => SearchProvider::DuckDuckGo,
        }
    }

    pub fn search_provider(&self) -> (out: SearchProvider)
        ensures
            out == self.engine(),
    {
        match &self.search.provider {
            Some(id) => SearchProvider::from_id(id.as_str()),
            None => SearchProvider::DuckDuckGo,
        }
    }

    /// Configures an engine. An address is kept for the one alone that has one.
    pub fn set_search(&mut self, provider: SearchProvider, searxng_url: Option<String>)
        ensures
            text::view_of(final(self).search.provider) == Some(provider.id()),
            final(self).search.searxng_url == if provider is Searxng {
                searxng_url
            } else {
                None
            },
            final(self).engine() == provider,
            final(self).models == old(self).models,
            final(self).default_model == old(self).default_model,
            final(self).provider == old(self).provider,
            final(self).agent == old(self).agent,
            final(self).mcp == old(self).mcp,
    {
        self.search.provider = Some(provider.as_str().to_owned());
        self.search.searxng_url = match provider {
            SearchProvider::Searxng => searxng_url,
            _ => None,
        };
        proof {
            law_engine_ids_round_trip(provider);
        }
    }
}

/// The id under which the key of an engine is stored.
pub open spec fn cred_id(provider: SearchProvider) -> Option<Seq<char>> {
    match provider {
        SearchProvider::Tavily => Some("search://tavily"@),
        SearchProvider::Brave => Some("search://brave"@),
        _ => None,
    }
}

/// The id under which the key of an engine is stored, where it takes one.
pub fn search_cred_id(provider: SearchProvider) -> (out: Option<&'static str>)
    ensures
        match out {
            Some(s) => cred_id(provider) == Some(s@),
            None => cred_id(provider) is None,
        },
{
    match provider {
        SearchProvider::Tavily => Some("search://tavily"),
        SearchProvider::Brave => Some("search://brave"),
        SearchProvider::DuckDuckGo | SearchProvider::Searxng => None,
    }
}

/// A variable that says something.
pub open spec fn says_something(vars: Seq<(Seq<char>, Seq<char>)>, name: Seq<char>) -> bool {
    environment::variable(vars, name, 0) matches Some(v) && text::trim(v).len() > 0
}

fn has(vars: &Vec<(String, String)>, name: &str) -> (yes: bool)
    ensures
        yes == says_something(environment::variables(vars@), name@),
{
    match value_of(vars, name) {
        Some(v) => {
            let plain = trimmed(v.as_str());
            chars_of(plain.as_str()).len() > 0
        },
        None => false,
    }
}

/// The engine that the environment has a key or an address for.
pub open spec fn detected(vars: Seq<(Seq<char>, Seq<char>)>) -> SearchProvider {
    if says_something(vars, "TAVILY_API_KEY"@) {
        SearchProvider::Tavily
    } else if says_something(vars, "BRAVE_API_KEY"@) {
        SearchProvider::Brave
    } else if says_something(vars, "MEDHA_SEARXNG_URL"@) {
        SearchProvider::Searxng
    } else {
        SearchProvider::DuckDuckGo
    }
}

/// The engine that the environment has a key or an address for.
pub fn auto_detect_search_provider(vars: &Vec<(String, String)>) -> (out: SearchProvider)
    ensures
        out == detected(environment::variables(vars@)),
{
    if has(vars, "TAVILY_API_KEY") {
        SearchProvider::Tavily
    } else if has(vars, "BRAVE_API_KEY") {
        SearchProvider::Brave
    } else if has(vars, "MEDHA_SEARXNG_URL") {
        SearchProvider::Searxng
    } else {
        SearchProvider::DuckDuckGo
    }
}

pub struct SearchSettings {
    pub provider: SearchProvider,
    pub tavily_key: Option<String>,
    pub brave_key: Option<String>,
    pub searxng_url: Option<String>,
}

/// What a search goes by: the configured engine, else the detected one, with the stored
/// keys.
pub fn resolve_search(cfg: &Config, vars: &Vec<(String, String)>, vault: &mut Vault) -> (out:
    SearchSettings)
    requires
        old(vault).wf(),
    ensures
        final(vault).wf(),
        out.provider == match cfg.search.provider {
            Some(id) => provider_of(id@),
            None => detected(environment::variables(vars@)),
        },
        text::view_of(out.tavily_key) == credentials::loaded(old(vault)@, "search://tavily"@),
        text::view_of(out.brave_key) == credentials::loaded(old(vault)@, "search://brave"@),
        text::view_of(out.searxng_url) == text::view_of(cfg.search.searxng_url),
        final(vault)@ == credentials::after_load(
            credentials::after_load(old(vault)@, "search://tavily"@),
            "search://brave"@,
        ),
{
    let provider = match &cfg.search.provider {
        Some(id) => SearchProvider::from_id(id.as_str()),
        None => auto_detect_search_provider(vars),
    };
    proof {
        credentials::law_loading_changes_no_key(vault@, "search://tavily"@, "search://brave"@);
    }
    let tavily_key = vault.load_key("search://tavily");
    let brave_key = vault.load_key("search://brave");
    SearchSettings {
        provider,
        tavily_key,
        brave_key,
        searxng_url: match &cfg.search.searxng_url {
            Some(u) => Some(u.clone()),
            None => None,
        },
    }
}

/// Every engine is found again by its id.
pub proof fn law_engine_ids_round_trip(provider: SearchProvider)
    ensures
        provider_of(provider.id()) == provider,
{
    reveal_strlit("duckduckgo");
    reveal_strlit("tavily");
    reveal_strlit("brave");
    reveal_strlit("searxng");
    assert("duckduckgo"@[0] == 'd' && "tavily"@[0] == 't' && "brave"@[0] == 'b' && "searxng"@[0]
        == 's');
}

} // verus!

//! The models that the user has saved, and the one that a session starts with.

use vstd::prelude::*;
use vstd::string::*;
use crate::config::providers::{ProviderConfig, ProviderView};
use crate::config::servers::McpServer;
use crate::number;
use crate::number::show;
use crate::paths;
use crate::paths::last_position;
use crate::table;
use crate::table::Table;
use crate::text;
use crate::text::{cat3, chars_of, lower_char, same, text_contains, text_of};

verus! {

pub struct SearchConfig {
    /// None leaves it to what the environment offers.
    pub provider: Option<String>,
    pub searxng_url: Option<String>,
}

pub struct AgentConfig {
    pub identity: Option<String>,
}

pub struct Config {
    /// The single connection of older configurations.
    pub provider: Option<ProviderConfig>,
    pub models: Table<ProviderConfig>,
    pub default_model: Option<String>,
    pub agent: AgentConfig,
    pub search: SearchConfig,
    pub mcp: Table<McpServer>,
}

impl Default for Config {
    fn default() -> (out: Config)
        ensures
            out.wf(),
            out.provider is None,
            out.models.rows@.len() == 0,
            out.default_model is None,
            out.agent.identity is None,
            out.search.provider is None,
            out.search.searxng_url is None,
            out.mcp.rows@.len() == 0,
    {
        Config {
            provider: None,
            models: Table::new(),
            default_model: None,
            agent: AgentConfig { identity: None },
            search: SearchConfig { provider: None, searxng_url: None },
            mcp: Table::new(),
        }
    }
}

pub struct ModelProfile {
    pub name: String,
    pub provider: ProviderConfig,
    pub is_default: bool,
}

/// The names and what is saved under them.
pub open spec fn profiles(rows: Seq<(String, ProviderConfig)>) -> Seq<(Seq<char>, ProviderView)> {
    rows.map_values(|r: (String, ProviderConfig)| (r.0@, r.1@))
}

/// A lower-case letter or a digit.
pub open spec fn word_char(c: char) -> bool {
    ('a' <= c <= 'z') || ('0' <= c <= '9')
}

/// The name is made of lower-case words with single hyphens between them.
pub open spec fn kebab(name: Seq<char>) -> bool {
    &&& name.len() > 0
    &&& forall|i: int| 0 <= i < name.len() ==> word_char(#[trigger] name[i]) || name[i] == '-'
    &&& name[0] != '-'
    &&& name.last() != '-'
    &&& !text::contains(name, "--"@)
}

/// Why a name is refused.
pub open spec fn name_rule() -> Seq<char> {
    "model name must be kebab-case (lowercase letters, digits, single hyphens)"@
}

fn is_word_char(c: char) -> (yes: bool)
    ensures
        yes == word_char(c),
{
    ('a' <= c && c <= 'z') || ('0' <= c && c <= '9')
}

/// Refuses a name that is not made of lower-case words with single hyphens.
pub fn validate_model_name(name: &str) -> (out: Result<(), String>)
    ensures
        match out {
            Ok(_) => kebab(name@),
            Err(e) => !kebab(name@) && e@ == name_rule(),
        },
{
    let x = chars_of(name);
    let n: usize = x.len();
    if n == 0 || x[0] == '-' || x[n - 1] == '-' || text_contains(name, "--") {
        return Err(
            "model name must be kebab-case (lowercase letters, digits, single hyphens)".to_owned(),
        );
    }
    let mut i: usize = 0;
    while i < n
        invariant
            i <= n,
            n == x@.len(),
            x@ == name@,
            forall|j: int| 0 <= j < i ==> word_char(#[trigger] name@[j]) || name@[j] == '-',
        decreases n - i,
    {
        if !is_word_char(x[i]) && x[i] != '-' {
            assert(!(word_char(name@[i as int]) || name@[i as int] == '-'));
            return Err(
                "model name must be kebab-case (lowercase letters, digits, single hyphens)".to_owned(),
            );
        }
        i = i + 1;
    }
    Ok(())
}

/// The lower-case words of a text, with single hyphens between and maybe one behind.
pub open spec fn slug(s: Seq<char>) -> Seq<char>
    decreases s.len(),
{
    if s.len() == 0 {
        seq![]
    } else {
        let head = slug(s.drop_last());
        let c = text::lower(s.last());
        if word_char(c) {
            head.push(c)
        } else if head.len() > 0 && head.last() != '-' {
            head.push('-')
        } else {
            head
        }
    }
}

/// The last step of a model's id.
pub open spec fn last_step(model: Seq<char>) -> Seq<char> {
    match paths::last_char(model, '/') {
        Some(i) => model.skip(i + 1),
        None => model,
    }
}

/// A text without one hyphen at its end.
pub open spec fn unhyphened(s: Seq<char>) -> Seq<char> {
    if s.len() > 0 && s.last() == '-' {
        s.drop_last()
    } else {
        s
    }
}

/// The name that a model's id suggests.
pub open spec fn suggested(model: Seq<char>) -> Seq<char> {
    let s = unhyphened(slug(last_step(model)));
    if s.len() == 0 {
        "imported"@
    } else {
        s
    }
}

/// The name that a model's id suggests: the words of its last step.
pub fn profile_name_from_model(model: &str) -> (out: String)
    ensures
        out@ == suggested(model@),
{
    let x = chars_of(model);
    let n: usize = x.len();
    let from: usize = match last_position(&x, '/') {
        Some(i) => {
            proof {
                paths::lemma_last_char(model@, '/');
            }
            i + 1
        },
        None => 0,
    };
    let ghost tail = last_step(model@);
    assert(tail =~= x@.skip(from as int));
    let mut out: Vec<char> = Vec::new();
    let mut i: usize = from;
    assert(out@ =~= slug(tail.take(0)));
    while i < n
        invariant
            from <= i <= n,
            n == x@.len(),
            tail == x@.skip(from as int),
            out@ == slug(tail.take(i - from)),
        decreases n - i,
    {
        assert(tail.take(i + 1 - from).drop_last() =~= tail.take(i - from));
        assert(tail.take(i + 1 - from).last() == x@[i as int]);
        let c = lower_char(x[i]);
        if is_word_char(c) {
            out.push(c);
        } else if out.len() > 0 && out[out.len() - 1] != '-' {
            out.push('-');
        }
        i = i + 1;
    }
    assert(tail.take(i - from) =~= tail);
    if out.len() > 0 && out[out.len() - 1] == '-' {
        let ghost was = out@;
        out.pop();
        assert(out@ =~= was.drop_last());
    }
    if out.len() == 0 {
        "imported".to_owned()
    } else {
        text_of(&out)
    }
}

proof fn lemma_slug(s: Seq<char>)
    ensures
        forall|i: int| 0 <= i < slug(s).len() ==> word_char(#[trigger] slug(s)[i]) || slug(s)[i] == '-',
        slug(s).len() > 0 ==> slug(s)[0] != '-',
        forall|i: int|
            0 <= i < slug(s).len() - 1 ==> !((#[trigger] slug(s)[i]) == '-' && slug(s)[i + 1] == '-'),
    decreases s.len(),
{
    if s.len() > 0 {
        let head = slug(s.drop_last());
        lemma_slug(s.drop_last());
        let now = slug(s);
        assert forall|i: int| 0 <= i < now.len() implies word_char(#[trigger] now[i]) || now[i]
            == '-' by {
            if i < head.len() {
                assert(now[i] == head[i]);
            }
        }
        assert forall|i: int| 0 <= i < now.len() - 1 implies !((#[trigger] now[i]) == '-' && now[i
            + 1] == '-') by {
            if i < head.len() {
                assert(now[i] == head[i]);
            }
            if i + 1 < head.len() {
                assert(now[i + 1] == head[i + 1]);
            }
        }
    }
}

proof fn lemma_no_double(s: Seq<char>)
    requires
        forall|i: int| 0 <= i < s.len() - 1 ==> !((#[trigger] s[i]) == '-' && s[i + 1] == '-'),
    ensures
        !text::contains(s, "--"@),
{
    reveal_strlit("--");
    let p = "--"@;
    assert forall|i: int| !text::occurs(s, p, i) by {
        if text::occurs(s, p, i) {
            let part = s.subrange(i, i + 2);
            assert(part[0] == '-' && part[1] == '-');
            assert(s[i] == '-' && s[i + 1] == '-');
        }
    }
}

/// The name that a model's id suggests may always be used.
pub proof fn law_suggested_names_are_valid(model: Seq<char>)
    ensures
        kebab(suggested(model)),
{
    let whole = slug(last_step(model));
    lemma_slug(last_step(model));
    let s = unhyphened(whole);
    if s.len() == 0 {
        reveal_strlit("imported");
        lemma_no_double("imported"@);
    } else {
        assert forall|i: int| 0 <= i < s.len() implies word_char(#[trigger] s[i]) || s[i]
            == '-' by {
            assert(s[i] == whole[i]);
        }
        assert(s[0] == whole[0]);
        assert forall|i: int| 0 <= i < s.len() - 1 implies !((#[trigger] s[i]) == '-' && s[i + 1]
            == '-') by {
            assert(s[i] == whole[i] && s[i + 1] == whole[i + 1]);
        }
        lemma_no_double(s);
        if s.last() == '-' {
            assert(whole.last() == '-');
            assert(whole[whole.len() - 2] == '-');
            assert(whole[whole.len() - 2 + 1] == '-');
        }
    }
}

/// The name with a number behind it.
pub open spec fn numbered(base: Seq<char>, i: nat) -> Seq<char> {
    base + "-"@ + number::decimal(i)
}

/// The first name that is free: the base, or the base with the least number from two on.
pub open spec fn first_free<V>(taken: Map<Seq<char>, V>, base: Seq<char>, out: Seq<char>) -> bool {
    if !taken.dom().contains(base) {
        out == base
    } else {
        exists|i: nat|
            2 <= i && out == #[trigger] numbered(base, i) && !taken.dom().contains(out)
                && forall|k: nat|
                2 <= k < i ==> taken.dom().contains(#[trigger] numbered(base, k))
    }
}

proof fn lemma_numbered(base: Seq<char>, i: nat, j: nat)
    ensures
        numbered(base, i) == numbered(base, j) ==> i == j,
        numbered(base, i) != base,
{
    reveal_strlit("-");
    number::lemma_decimal_parses(i);
    number::lemma_decimal_parses(j);
    let a = numbered(base, i);
    let b = numbered(base, j);
    let n = base.len() as int;
    assert(a.skip(n + 1) =~= number::decimal(i));
    assert(b.skip(n + 1) =~= number::decimal(j));
    if a == b {
        assert(number::value(number::decimal(i)) == i);
        assert(number::value(number::decimal(j)) == j);
    }
    assert(a.len() > base.len());
}

/// As many numbered names as there are rows cannot all be taken beside the base.
proof fn lemma_some_free<V>(rows: Seq<(String, V)>, base: Seq<char>)
    requires
        table::held(rows).dom().contains(base),
    ensures
        exists|k: nat|
            2 <= k <= rows.len() + 1 && !table::held(rows).dom().contains(
                #[trigger] numbered(base, k),
            ),
{
    if forall|k: nat|
        2 <= k <= rows.len() + 1 ==> table::held(rows).dom().contains(
            #[trigger] numbered(base, k),
        ) {
        lemma_too_many(rows, base);
    }
}

proof fn lemma_too_many<V>(rows: Seq<(String, V)>, base: Seq<char>)
    requires
        table::held(rows).dom().contains(base),
        forall|k: nat|
            2 <= k <= rows.len() + 1 ==> table::held(rows).dom().contains(
                #[trigger] numbered(base, k),
            ),
    ensures
        rows.len() + 1 <= rows.len(),
{
    let n = rows.len();
    let keys = table::keys(rows);
    let s = Seq::new(
        n + 1,
        |i: int|
            if i == 0 {
                base
            } else {
                numbered(base, (i + 1) as nat)
            },
    );
    assert forall|i: int, j: int| 0 <= i < s.len() && 0 <= j < s.len() && i != j implies s[i]
        != s[j] by {
        lemma_numbered(base, (i + 1) as nat, (j + 1) as nat);
        lemma_numbered(base, (j + 1) as nat, (i + 1) as nat);
    }
    assert(s.no_duplicates());
    s.unique_seq_to_set();
    keys.lemma_cardinality_of_set();
    assert forall|x: Seq<char>| s.to_set().contains(x) implies keys.to_set().contains(x) by {
        let i = s.index_of(x);
        assert(s[i] == x);
        if i > 0 {
            assert(table::held(rows).dom().contains(numbered(base, (i + 1) as nat)));
        }
        table::lemma_find(rows, x, 0);
        let j = table::find(rows, x, 0)->0;
        assert(keys[j] == x);
    }
    vstd::set_lib::lemma_len_subset(s.to_set(), keys.to_set());
}

/// The first name that is free: the base, or the base with the least number from two on.
pub fn unique_profile_name(models: &Table<ProviderConfig>, base: &str) -> (out: String)
    requires
        models.rows@.len() < usize::MAX,
    ensures
        first_free(models@, base@, out@),
        !models@.dom().contains(out@),
{
    if !models.contains_key(base) {
        return base.to_owned();
    }
    let n: usize = models.rows.len();
    proof {
        table::lemma_find(models.rows@, base@, 0);
    }
    let mut i: u64 = 2;
    loop
        invariant
            2 <= i,
            n == models.rows@.len(),
            n < usize::MAX,
            i <= n + 1,
            models@.dom().contains(base@),
            forall|k: nat| 2 <= k < i ==> models@.dom().contains(#[trigger] numbered(base@, k)),
        decreases n + 1 - i,
    {
        let candidate = cat3(base, "-", show(i).as_str());
        assert(candidate@ == numbered(base@, i as nat));
        if !models.contains_key(candidate.as_str()) {
            return candidate;
        }
        proof {
            lemma_some_free(models.rows@, base@);
        }
        i = i + 1;
    }
}

/// The name under which a model can be saved without a clash.
pub fn derive_profile_name(cfg: &Config, model_id: &str) -> (out: String)
    requires
        cfg.models.rows@.len() < usize::MAX,
    ensures
        first_free(cfg.models@, suggested(model_id@), out@),
        !cfg.models@.dom().contains(out@),
{
    unique_profile_name(&cfg.models, profile_name_from_model(model_id).as_str())
}

impl Config {
    /// The tables are in order.
    pub open spec fn wf(self) -> bool {
        self.models.wf() && self.mcp.wf()
    }

    /// The model that a session starts with: the default where it is saved, else the
    /// first.
    pub open spec fn startup(self) -> Option<Seq<char>> {
        match self.default_model {
            Some(d) => if self.models@.dom().contains(d@) {
                Some(d@)
            } else {
                self.first()
            },
            None => self.first(),
        }
    }

    /// The first saved model.
    pub open spec fn first(self) -> Option<Seq<char>> {
        if self.models.rows@.len() == 0 {
            None
        } else {
            Some(self.models.rows@[0].0@)
        }
    }

    /// The model that a session starts with.
    pub fn startup_model(&self) -> (out: Option<String>)
        requires
            self.wf(),
        ensures
            text::view_of(out) == self.startup(),
            out matches Some(n) ==> self.models@.dom().contains(n@),
    {
        match &self.default_model {
            Some(d) => {
                if self.models.contains_key(d.as_str()) {
                    return Some(d.clone());
                }
            },
            None => {},
        }
        self.models.first_key()
    }

    /// The model that a session starts with, and its provider.
    pub fn selected_model(&self) -> (out: Option<(String, &ProviderConfig)>)
        requires
            self.wf(),
        ensures
            match out {
                Some((n, p)) => self.startup() == Some(n@) && self.models@.dom().contains(n@) && *p
                    == self.models@[n@],
                None => self.startup() is None,
            },
    {
        match self.startup_model() {
            Some(n) => match self.models.get(n.as_str()) {
                Some(p) => Some((n, p)),
                None => None,
            },
            None => None,
        }
    }

    /// Every saved model, in the order of their names.
    pub fn model_profiles(&self) -> (out: Vec<ModelProfile>)
        requires
            self.wf(),
        ensures
            out@.len() == self.models.rows@.len(),
            forall|i: int|
                0 <= i < out@.len() ==> {
                    &&& (#[trigger] out@[i]).name@ == self.models.rows@[i].0@
                    &&& out@[i].provider@ == self.models.rows@[i].1@
                    &&& out@[i].is_default == (self.startup() == Some(self.models.rows@[i].0@))
                },
    {
        let active = self.startup_model();
        let mut out: Vec<ModelProfile> = Vec::new();
        let mut i: usize = 0;
        while i < self.models.rows.len()
            invariant
                i <= self.models.rows@.len(),
                out@.len() == i,
                text::view_of(active) == self.startup(),
                forall|j: int|
                    0 <= j < i ==> {
                        &&& (#[trigger] out@[j]).name@ == self.models.rows@[j].0@
                        &&& out@[j].provider@ == self.models.rows@[j].1@
                        &&& out@[j].is_default == (self.startup() == Some(self.models.rows@[j].0@))
                    },
            decreases self.models.rows@.len() - i,
        {
            let row = &self.models.rows[i];
            let is_default = match &active {
                Some(a) => same(a.as_str(), row.0.as_str()),
                None => false,
            };
            out.push(ModelProfile { name: row.0.clone(), provider: row.1.copy(), is_default });
            i = i + 1;
        }
        out
    }

    /// The provider of a saved model.
    pub fn model_profile(&self, name: &str) -> (out: Option<&ProviderConfig>)
        ensures
            match out {
                Some(p) => self.models@.dom().contains(name@) && *p == self.models@[name@],
                None => !self.models@.dom().contains(name@),
            },
    {
        self.models.get(name)
    }

    /// Why a model cannot be saved under a name.
    pub open spec fn name_fault(self, name: Seq<char>) -> Option<Seq<char>> {
        if !kebab(name) {
            Some(name_rule())
        } else if self.models@.dom().contains(name) {
            Some(
                "a model profile named '"@ + name
                    + "' already exists; choose a different name"@,
            )
        } else {
            None
        }
    }

    /// Refuses a name that is malformed or taken.
    pub fn validate_new_model_name(&self, name: &str) -> (out: Result<(), String>)
        ensures
            match out {
                Ok(_) => self.name_fault(name@) is None,
                Err(e) => self.name_fault(name@) == Some(e@),
            },
    {
        match validate_model_name(name) {
            Ok(_) => {},
            Err(e) => {
                return Err(e);
            },
        }
        if self.models.contains_key(name) {
            return Err(
                cat3(
                    "a model profile named '",
                    name,
                    "' already exists; choose a different name",
                ),
            );
        }
        Ok(())
    }

    /// Saves a model. The first one is the default, and so is one that is to be. `fault`
    /// says what the provider's own check finds wrong with it.
    pub fn add_model(
        &mut self,
        name: String,
        provider: ProviderConfig,
        make_default: bool,
        fault: Option<String>,
    ) -> (out: Result<(), String>)
        requires
            old(self).wf(),
        ensures
            final(self).wf(),
            final(self).provider == old(self).provider,
            final(self).agent == old(self).agent,
            final(self).search == old(self).search,
            final(self).mcp == old(self).mcp,
            match out {
                Ok(_) => {
                    &&& old(self).name_fault(name@) is None
                    &&& fault is None
                    &&& final(self).models@ == old(self).models@.insert(name@, provider)
                    &&& text::view_of(final(self).default_model) == (if make_default || old(
                        self,
                    ).models.rows@.len() == 0 {
                        Some(name@)
                    } else {
                        text::view_of(old(self).default_model)
                    })
                },
                Err(e) => {
                    &&& final(self).models == old(self).models
                    &&& final(self).default_model == old(self).default_model
                    &&& Some(e@) == match old(self).name_fault(name@) {
                        Some(m) => Some(m),
                        None => text::view_of(fault),
                    }
                },
            },
    {
        match self.validate_new_model_name(name.as_str()) {
            Ok(_) => {},
            Err(e) => {
                return Err(e);
            },
        }
        match fault {
            Some(e) => {
                return Err(e);
            },
            None => {},
        }
        if make_default || self.models.rows.len() == 0 {
            self.default_model = Some(name.clone());
        }
        self.models.insert(name, provider);
        Ok(())
    }

    /// Makes a saved model the default.
    pub fn set_default_model(&mut self, name: &str) -> (out: Result<(), String>)
        requires
            old(self).wf(),
        ensures
            final(self).wf(),
            final(self).provider == old(self).provider,
            final(self).models == old(self).models,
            final(self).agent == old(self).agent,
            final(self).search == old(self).search,
            final(self).mcp == old(self).mcp,
            if old(self).models@.dom().contains(name@) {
                out is Ok && text::view_of(final(self).default_model) == Some(name@)
            } else {
                &&& out matches Err(e) && e@ == "no saved model named '"@ + name@ + "'"@
                &&& final(self).default_model == old(self).default_model
            },
    {
        if !self.models.contains_key(name) {
            return Err(cat3("no saved model named '", name, "'"));
        }
        self.default_model = Some(name.to_owned());
        Ok(())
    }

    /// Removes a saved model. Where it was the default, the first of the others is.
    pub fn remove_model(&mut self, name: &str) -> (out: Result<ProviderConfig, String>)
        requires
            old(self).wf(),
        ensures
            final(self).wf(),
            final(self).provider == old(self).provider,
            final(self).agent == old(self).agent,
            final(self).search == old(self).search,
            final(self).mcp == old(self).mcp,
            final(self).models@ == old(self).models@.remove(name@),
            match out {
                Ok(p) => {
                    &&& old(self).models@.dom().contains(name@)
                    &&& p == old(self).models@[name@]
                    &&& text::view_of(final(self).default_model) == (if text::view_of(
                        old(self).default_model,
                    ) == Some(name@) {
                        final(self).first()
                    } else {
                        text::view_of(old(self).default_model)
                    })
                },
                Err(e) => {
                    &&& !old(self).models@.dom().contains(name@)
                    &&& e@ == "no saved model named '"@ + name@ + "'"@
                    &&& final(self).default_model == old(self).default_model
                },
            },
    {
        match self.models.remove(name) {
            Some(p) => {
                let was_default = match &self.default_model {
                    Some(d) => same(d.as_str(), name),
                    None => false,
                };
                if was_default {
                    self.default_model = self.models.first_key();
                }
                Ok(p)
            },
            None => Err(cat3("no saved model named '", name, "'")),
        }
    }
}

/// What has become of the single connection of an older configuration.
pub open spec fn migrated(before: Config, after: Config, legacy: ProviderView) -> bool {
    if legacy.base_url.len() == 0 || legacy.model.len() == 0 || (exists|i: int|
        0 <= i < before.models.rows@.len() && (#[trigger] before.models.rows@[i]).1@ == legacy) {
        after.models == before.models && after.default_model == before.default_model
    } else {
        exists|name: Seq<char>| {
            &&& #[trigger] first_free(before.models@, suggested(legacy.model), name)
            &&& after.models@.dom() == before.models@.dom().insert(name)
            &&& after.models@[name]@ == legacy
            &&& forall|k: Seq<char>|
                #[trigger] before.models@.dom().contains(k) && k != name ==> after.models@[k]
                    == before.models@[k]
            &&& text::view_of(after.default_model) == match before.default_model {
                Some(d) => Some(d@),
                None => Some(name),
            }
        }
    }
}

/// Turns the single connection of an older configuration into a saved model, unless it is
/// empty or saved already. Whether there was one.
pub fn migrate_legacy_provider(cfg: &mut Config) -> (changed: bool)
    requires
        old(cfg).wf(),
        old(cfg).models.rows@.len() < usize::MAX,
    ensures
        final(cfg).wf(),
        final(cfg).provider is None,
        final(cfg).agent == old(cfg).agent,
        final(cfg).search == old(cfg).search,
        final(cfg).mcp == old(cfg).mcp,
        changed == (old(cfg).provider is Some),
        match old(cfg).provider {
            Some(legacy) => migrated(*old(cfg), *final(cfg), legacy@),
            None => final(cfg).models == old(cfg).models && final(cfg).default_model == old(
                cfg,
            ).default_model,
        },
{
    let legacy = match cfg.provider.take() {
        Some(p) => p,
        None => {
            return false;
        },
    };
    if chars_of(legacy.base_url.as_str()).len() == 0 || chars_of(legacy.model.as_str()).len() == 0 {
        return true;
    }
    let mut i: usize = 0;
    while i < cfg.models.rows.len()
        invariant
            i <= cfg.models.rows@.len(),
            cfg.wf(),
            cfg.provider is None,
            cfg.models == old(cfg).models,
            cfg.default_model == old(cfg).default_model,
            cfg.agent == old(cfg).agent,
            cfg.search == old(cfg).search,
            cfg.mcp == old(cfg).mcp,
            old(cfg).provider == Some(legacy),
            forall|j: int|
                0 <= j < i ==> (#[trigger] cfg.models.rows@[j]).1@ != legacy@,
        decreases cfg.models.rows@.len() - i,
    {
        if cfg.models.rows[i].1.matches(&legacy) {
            assert(old(cfg).models.rows@[i as int].1@ == legacy@);
            return true;
        }
        i = i + 1;
    }
    let name = unique_profile_name(
        &cfg.models,
        profile_name_from_model(legacy.model.as_str()).as_str(),
    );
    let ghost nv = name@;
    let ghost lv = legacy@;
    if cfg.default_model.is_none() {
        cfg.default_model = Some(name.clone());
    }
    let ghost before = cfg.models@;
    cfg.models.insert(name, legacy);
    proof {
        assert(cfg.models@.dom() =~= before.dom().insert(nv));
        assert(first_free(old(cfg).models@, suggested(lv.model), nv));
    }
    true
}

/// A name that is free may be used, where the base may.
pub proof fn law_free_names_are_valid<V>(taken: Map<Seq<char>, V>, base: Seq<char>, out: Seq<char>)
    requires
        kebab(base),
        first_free(taken, base, out),
    ensures
        kebab(out),
        !taken.dom().contains(out),
{
    if taken.dom().contains(base) {
        let i = choose|i: nat|
            2 <= i && out == #[trigger] numbered(base, i) && !taken.dom().contains(out)
                && forall|k: nat|
                2 <= k < i ==> taken.dom().contains(#[trigger] numbered(base, k));
        let d = number::decimal(i);
        number::lemma_decimal_parses(i);
        reveal_strlit("-");
        let n = base.len() as int;
        assert(out =~= base + seq!['-'] + d);
        assert forall|k: int| 0 <= k < out.len() implies word_char(#[trigger] out[k]) || out[k]
            == '-' by {
            if k < n {
                assert(out[k] == base[k]);
            } else if k > n {
                assert(out[k] == d[k - n - 1]);
            }
        }
        assert(out[0] == base[0]);
        assert(out.last() == d.last());
        assert('0' <= d[d.len() - 1] <= '9');
        lemma_single_hyphens(base);
        assert forall|k: int| 0 <= k < out.len() - 1 implies !((#[trigger] out[k]) == '-' && out[k
            + 1] == '-') by {
            if k + 1 < n {
                assert(out[k] == base[k] && out[k + 1] == base[k + 1]);
            } else if k + 1 == n {
                assert(out[k] == base.last());
            } else {
                assert(out[k + 1] == d[k + 1 - n - 1]);
                assert('0' <= d[k + 1 - n - 1] <= '9');
            }
        }
        lemma_no_double(out);
    }
}

proof fn lemma_single_hyphens(s: Seq<char>)
    requires
        !text::contains(s, "--"@),
    ensures
        forall|i: int| 0 <= i < s.len() - 1 ==> !((#[trigger] s[i]) == '-' && s[i + 1] == '-'),
{
    reveal_strlit("--");
    assert forall|i: int| 0 <= i < s.len() - 1 implies !((#[trigger] s[i]) == '-' && s[i + 1]
        == '-') by {
        if s[i] == '-' && s[i + 1] == '-' {
            assert(s.subrange(i, i + 2) =~= "--"@);
            assert(text::occurs(s, "--"@, i));
        }
    }
}

} // verus!

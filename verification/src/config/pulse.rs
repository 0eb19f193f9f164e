//! What the configuration comes to, and what is wrong with it.

use vstd::prelude::*;
use vstd::string::*;
use crate::config::models::Config;
use crate::config::resolve::{Resolved, ResolvedView};
use crate::lsp::environment;
use crate::order;
use crate::order::sort_texts;
use crate::text;
use crate::text::{
    cat2, cat3, cat5, chars_of, join, lower_text, same, text_contains, text_starts,
};

verus! {

#[derive(Debug, Clone, Copy, PartialEq, Eq, Structural)]
pub enum Health {
    Good,
    Warn,
    Error,
}

impl Health {
    pub open spec fn mark(self) -> Seq<char> {
        match self {
            Health::Good => "✔"@,
            Health::Warn => "⚠"@,
            Health::Error => "✗"@,
        }
    }

    pub fn icon(self) -> (out: &'static str)
        ensures
            out@ == self.mark(),
    {
        match self {
            Health::Good => "✔",
            Health::Warn => "⚠",
            Health::Error => "✗",
        }
    }
}

pub struct Check {
    pub health: Health,
    pub title: String,
    pub detail: String,
    pub auto_fixable: bool,
}

/// What a [`Check`] holds.
#[verifier::ext_equal]
pub ghost struct CheckView {
    pub health: Health,
    pub title: Seq<char>,
    pub detail: Seq<char>,
    pub auto_fixable: bool,
}

impl View for Check {
    type V = CheckView;

    open spec fn view(&self) -> CheckView {
        CheckView {
            health: self.health,
            title: self.title@,
            detail: self.detail@,
            auto_fixable: self.auto_fixable,
        }
    }
}

/// What the checks hold.
pub open spec fn listed(v: Seq<Check>) -> Seq<CheckView> {
    v.map_values(|c: Check| c@)
}

/// A check that nothing can repair by itself.
pub open spec fn plain(health: Health, title: Seq<char>, detail: Seq<char>) -> CheckView {
    CheckView { health, title, detail, auto_fixable: false }
}

fn check(health: Health, title: &str, detail: String) -> (out: Check)
    ensures
        out@ == plain(health, title@, detail@),
{
    Check { health, title: title.to_owned(), detail, auto_fixable: false }
}

/// The key that a model needs is there.
pub open spec fn credential_check(r: ResolvedView) -> CheckView {
    if !(r.provider.auth is Unauthenticated) && r.credential.len() == 0 {
        plain(
            Health::Error,
            "Credential missing"@,
            "'"@ + r.provider.model + "' uses "@ + r.provider.auth.name()
                + " auth but no key was found (env MEDHA_API_KEY or credentials file). Add one via /model, or export MEDHA_API_KEY."@,
        )
    } else {
        plain(
            Health::Good,
            "Credential resolves"@,
            r.provider.auth.name() + " auth, key "@ + (if r.credential.len() == 0 {
                "not required"@
            } else {
                "present"@
            }),
        )
    }
}

/// The address and the protocol fit each other, as far as their names tell.
pub open spec fn endpoint_checks(r: ResolvedView) -> Seq<CheckView> {
    let url = text::lowered(r.provider.base_url);
    let gemini_protocol = text::contains(r.provider.protocol, "gemini"@);
    let gemini_url = text::contains(url, "generativelanguage.googleapis.com"@);
    if gemini_url && !gemini_protocol {
        seq![
            plain(
                Health::Warn,
                "Endpoint/protocol mismatch"@,
                "base_url looks like Google Gemini but protocol is '"@ + r.provider.protocol
                    + "'. Requests will likely 404 or reject the key. Expected a gemini protocol."@,
            ),
        ]
    } else if !gemini_url && gemini_protocol && text::contains(url, "/v1"@) {
        seq![
            plain(
                Health::Warn,
                "Endpoint/protocol mismatch"@,
                "protocol is '"@ + r.provider.protocol
                    + "' (Gemini-style) but base_url looks OpenAI-compatible. Consider an open-ai-chat protocol for this endpoint."@,
            ),
        ]
    } else {
        seq![]
    }
}

/// The size of the context is known.
pub open spec fn context_checks(r: ResolvedView) -> Seq<CheckView> {
    if r.provider.max_ctx is None {
        seq![
            plain(
                Health::Warn,
                "Context window unknown"@,
                "no max_ctx for '"@ + r.provider.model
                    + "'. Compaction stays off until it's found on models.dev or you set MEDHA_MAX_CTX=<tokens>."@,
            ),
        ]
    } else {
        seq![]
    }
}

/// How a resolution went.
pub open spec fn outcome(r: Result<Option<Resolved>, String>) -> Result<
    Option<ResolvedView>,
    Seq<char>,
> {
    match r {
        Ok(Some(x)) => Ok(Some(x@)),
        Ok(None) => Ok(None),
        Err(e) => Err(e@),
    }
}

/// What is found of the model.
pub open spec fn model_checks(resolved: Result<Option<ResolvedView>, Seq<char>>) -> Seq<CheckView> {
    match resolved {
        Ok(Some(r)) => seq![credential_check(r)] + endpoint_checks(r) + context_checks(r),
        Ok(None) => seq![
            plain(
                Health::Error,
                "No model configured"@,
                "run `medha` and add one in /model, or set MEDHA_MODEL + MEDHA_BASE_URL."@,
            ),
        ],
        Err(e) => seq![plain(Health::Error, "Resolution error"@, e)],
    }
}

/// The default is a saved model.
pub open spec fn default_checks(cfg: Option<&Config>) -> Seq<CheckView> {
    match cfg {
        Some(c) => match c.default_model {
            Some(d) => if c.models@.dom().contains(d@) {
                seq![]
            } else {
                let others = c.models.rows@.len() > 0;
                seq![
                    CheckView {
                        health: Health::Warn,
                        title: "Stale default model"@,
                        detail: "default_model = '"@ + d@ + "' but no such profile exists."@ + (
                        if others {
                            " `pulse --fix` will promote the first saved profile."@
                        } else {
                            " Add a model to fix."@
                        }),
                        auto_fixable: others,
                    },
                ]
            },
            None => seq![],
        },
        None => seq![],
    }
}

/// The variables of other programs that are not read.
pub open spec fn foreign_checks(ignored: Seq<Seq<char>>) -> Seq<CheckView> {
    if ignored.len() > 0 {
        seq![
            plain(
                Health::Good,
                "Foreign LLM env ignored"@,
                text::joined(ignored, ", "@)
                    + " present but not read by medha (they belong to this directory's app)."@,
            ),
        ]
    } else {
        seq![]
    }
}

/// The checks of one kind, in their order.
pub open spec fn of_health(v: Seq<CheckView>, h: Health) -> Seq<CheckView>
    decreases v.len(),
{
    if v.len() == 0 {
        seq![]
    } else if v.last().health == h {
        of_health(v.drop_last(), h).push(v.last())
    } else {
        of_health(v.drop_last(), h)
    }
}

/// The checks with the worst first, otherwise in their order.
pub open spec fn worst_first(v: Seq<CheckView>) -> Seq<CheckView> {
    of_health(v, Health::Error) + of_health(v, Health::Warn) + of_health(v, Health::Good)
}

/// Every check, the worst first.
pub open spec fn diagnosis(
    cfg: Option<&Config>,
    resolved: Result<Option<ResolvedView>, Seq<char>>,
    ignored: Seq<Seq<char>>,
) -> Seq<CheckView> {
    worst_first(model_checks(resolved) + default_checks(cfg) + foreign_checks(ignored))
}

fn add_of_health(from: &Vec<Check>, h: Health, out: &mut Vec<Check>)
    ensures
        listed(final(out)@) == listed(old(out)@) + of_health(listed(from@), h),
{
    let ghost was = listed(out@);
    let ghost all = listed(from@);
    let mut i: usize = 0;
    assert(listed(out@) =~= was + of_health(all.take(0), h));
    while i < from.len()
        invariant
            i <= from@.len(),
            all == listed(from@),
            listed(out@) == was + of_health(all.take(i as int), h),
        decreases from@.len() - i,
    {
        assert(all.take(i + 1).drop_last() =~= all.take(i as int));
        assert(all.take(i + 1).last() == from@[i as int]@);
        if from[i].health == h {
            let ghost before = out@;
            out.push(
                Check {
                    health: h,
                    title: from[i].title.clone(),
                    detail: from[i].detail.clone(),
                    auto_fixable: from[i].auto_fixable,
                },
            );
            assert(out@.last()@ == from@[i as int]@);
            assert(listed(out@) =~= listed(before).push(from@[i as int]@));
        }
        i = i + 1;
        assert(listed(out@) =~= was + of_health(all.take(i as int), h));
    }
    assert(all.take(i as int) =~= all);
}

fn check_model(r: &Resolved) -> (out: Vec<Check>)
    ensures
        listed(out@) == model_checks(Ok(Some(r@))),
{
    let mut out: Vec<Check> = Vec::new();
    let keyless = chars_of(r.credential.as_str()).len() == 0;
    let auth = r.provider.auth.as_str();
    let first = if r.provider.auth.requires_credential() && keyless {
        check(
            Health::Error,
            "Credential missing",
            cat5(
                "'",
                r.provider.model.as_str(),
                "' uses ",
                auth,
                " auth but no key was found (env MEDHA_API_KEY or credentials file). Add one via /model, or export MEDHA_API_KEY.",
            ),
        )
    } else {
        check(
            Health::Good,
            "Credential resolves",
            cat3(
                auth,
                " auth, key ",
                if keyless {
                    "not required"
                } else {
                    "present"
                },
            ),
        )
    };
    assert(first@ =~= credential_check(r@));
    out.push(first);
    assert(listed(out@) =~= seq![credential_check(r@)]);
    let url = lower_text(r.provider.base_url.as_str());
    let protocol = r.provider.protocol.as_str();
    let gemini_protocol = text_contains(protocol, "gemini");
    let gemini_url = text_contains(url.as_str(), "generativelanguage.googleapis.com");
    let ghost was = out@;
    if gemini_url && !gemini_protocol {
        out.push(
            check(
                Health::Warn,
                "Endpoint/protocol mismatch",
                cat3(
                    "base_url looks like Google Gemini but protocol is '",
                    protocol,
                    "'. Requests will likely 404 or reject the key. Expected a gemini protocol.",
                ),
            ),
        );
    } else if !gemini_url && gemini_protocol && text_contains(url.as_str(), "/v1") {
        out.push(
            check(
                Health::Warn,
                "Endpoint/protocol mismatch",
                cat3(
                    "protocol is '",
                    protocol,
                    "' (Gemini-style) but base_url looks OpenAI-compatible. Consider an open-ai-chat protocol for this endpoint.",
                ),
            ),
        );
    }
    assert(listed(out@) =~= listed(was) + endpoint_checks(r@));
    let ghost was = out@;
    if r.provider.max_ctx.is_none() {
        out.push(
            check(
                Health::Warn,
                "Context window unknown",
                cat3(
                    "no max_ctx for '",
                    r.provider.model.as_str(),
                    "'. Compaction stays off until it's found on models.dev or you set MEDHA_MAX_CTX=<tokens>.",
                ),
            ),
        );
    }
    assert(listed(out@) =~= listed(was) + context_checks(r@));
    out
}

/// Checks what a configuration came to, the worst finding first.
pub fn diagnose_checks(
    cfg: Option<&Config>,
    resolved: &Result<Option<Resolved>, String>,
    ignored_env: &Vec<String>,
) -> (out: Vec<Check>)
    ensures
        listed(out@) == diagnosis(cfg, outcome(*resolved), text::views(ignored_env@)),
{
    let mut found: Vec<Check> = match resolved {
        Ok(Some(r)) => check_model(r),
        Ok(None) => {
            let mut v: Vec<Check> = Vec::new();
            v.push(
                check(
                    Health::Error,
                    "No model configured",
                    "run `medha` and add one in /model, or set MEDHA_MODEL + MEDHA_BASE_URL.".to_owned(),
                ),
            );
            v
        },
        Err(e) => {
            let mut v: Vec<Check> = Vec::new();
            v.push(check(Health::Error, "Resolution error", e.clone()));
            v
        },
    };
    assert(listed(found@) =~= model_checks(outcome(*resolved)));
    let ghost was = found@;
    match cfg {
        Some(c) => match &c.default_model {
            Some(d) => if !c.models.contains_key(d.as_str()) {
                let others = c.models.rows.len() > 0;
                let detail = cat3(
                    "default_model = '",
                    d.as_str(),
                    "' but no such profile exists.",
                );
                let stale = Check {
                    health: Health::Warn,
                    title: "Stale default model".to_owned(),
                    detail: cat2(
                        detail.as_str(),
                        if others {
                            " `pulse --fix` will promote the first saved profile."
                        } else {
                            " Add a model to fix."
                        },
                    ),
                    auto_fixable: others,
                };
                assert(stale@ =~= default_checks(cfg)[0]);
                found.push(stale);
            },
            None => {},
        },
        None => {},
    }
    assert(listed(found@) =~= listed(was) + default_checks(cfg));
    let ghost was = found@;
    if ignored_env.len() > 0 {
        let names = join(ignored_env, ", ");
        found.push(
            check(
                Health::Good,
                "Foreign LLM env ignored",
                cat2(
                    names.as_str(),
                    " present but not read by medha (they belong to this directory's app).",
                ),
            ),
        );
    }
    assert(listed(found@) =~= listed(was) + foreign_checks(text::views(ignored_env@)));
    let mut out: Vec<Check> = Vec::new();
    add_of_health(&found, Health::Error, &mut out);
    add_of_health(&found, Health::Warn, &mut out);
    add_of_health(&found, Health::Good, &mut out);
    assert(listed(out@) =~= worst_first(listed(found@)));
    out
}

/// Repairs what can be repaired without asking: a default that is no saved model gives
/// way to the first one, or to none. Tells what was done.
pub fn apply_safe_fixes(cfg: &mut Config) -> (out: Vec<String>)
    requires
        old(cfg).wf(),
    ensures
        final(cfg).wf(),
        final(cfg).models == old(cfg).models,
        final(cfg).mcp == old(cfg).mcp,
        final(cfg).provider == old(cfg).provider,
        final(cfg).agent == old(cfg).agent,
        final(cfg).search == old(cfg).search,
        match old(cfg).default_model {
            Some(d) => if old(cfg).models@.dom().contains(d@) {
                final(cfg).default_model == old(cfg).default_model && out@.len() == 0
            } else {
                &&& text::view_of(final(cfg).default_model) == old(cfg).first()
                &&& text::views(out@) == seq![
                    match old(cfg).first() {
                        Some(f) => "stale default model '"@ + d@ + "' → promoted '"@ + f + "'"@,
                        None => "stale default model '"@ + d@ + "' cleared (no saved profiles)"@,
                    },
                ]
            },
            None => final(cfg).default_model is None && out@.len() == 0,
        },
{
    let mut out: Vec<String> = Vec::new();
    let stale = match &cfg.default_model {
        Some(d) => if cfg.models.contains_key(d.as_str()) {
            None
        } else {
            Some(d.clone())
        },
        None => None,
    };
    match stale {
        Some(d) => {
            let first = cfg.models.first_key();
            let told = match &first {
                Some(f) => cat5("stale default model '", d.as_str(), "' → promoted '", f.as_str(), "'"),
                None => cat3("stale default model '", d.as_str(), "' cleared (no saved profiles)"),
            };
            cfg.default_model = first;
            out.push(told);
            assert(text::views(out@) =~= seq![told@]);
        },
        None => {},
    }
    out
}

/// After the repairs there is no stale default any more, and a second round does nothing.
pub proof fn law_repairs_are_enough(before: Config, after: Config)
    requires
        before.wf(),
        after.wf(),
        after.models == before.models,
        before.default_model matches Some(d) && !before.models@.dom().contains(d@),
        text::view_of(after.default_model) == before.first(),
    ensures
        default_checks(Some(&after)).len() == 0,
        after.default_model matches Some(d) ==> after.models@.dom().contains(d@),
        after.startup() == before.startup(),
{
    if before.models.rows@.len() > 0 {
        crate::table::lemma_found(before.models.rows@, 0);
    }
}

/// The names of the variables that begin with one of the prefixes.
pub open spec fn named(vars: Seq<(Seq<char>, Seq<char>)>, prefixes: Seq<Seq<char>>) -> Seq<Seq<char>>
    decreases vars.len(),
{
    if vars.len() == 0 {
        seq![]
    } else {
        let head = named(vars.drop_last(), prefixes);
        if begins_with_one(vars.last().0, prefixes) {
            head.push(vars.last().0)
        } else {
            head
        }
    }
}

pub open spec fn begins_with_one(name: Seq<char>, prefixes: Seq<Seq<char>>) -> bool {
    exists|i: int| 0 <= i < prefixes.len() && text::starts_with(name, #[trigger] prefixes[i])
}

fn has_prefix(name: &str, prefixes: &[&str]) -> (yes: bool)
    ensures
        yes == begins_with_one(name@, text::strs(prefixes@)),
{
    let mut i: usize = 0;
    while i < prefixes.len()
        invariant
            i <= prefixes@.len(),
            forall|j: int|
                0 <= j < i ==> !text::starts_with(name@, #[trigger] text::strs(prefixes@)[j]),
        decreases prefixes@.len() - i,
    {
        assert(text::strs(prefixes@)[i as int] == prefixes@[i as int]@);
        if text_starts(name, prefixes[i]) {
            return true;
        }
        i = i + 1;
    }
    false
}

/// The names of the variables that begin with one of the prefixes, in order.
pub fn scan_prefixed(vars: &Vec<(String, String)>, prefixes: &[&str]) -> (out: Vec<String>)
    ensures
        text::views(out@) == order::sorted(
            named(environment::variables(vars@), text::strs(prefixes@)),
        ),
{
    let mut names: Vec<String> = Vec::new();
    let ghost all = environment::variables(vars@);
    let ghost p = text::strs(prefixes@);
    let mut i: usize = 0;
    assert(text::views(names@) =~= named(all.take(0), p));
    while i < vars.len()
        invariant
            i <= vars@.len(),
            all == environment::variables(vars@),
            p == text::strs(prefixes@),
            text::views(names@) == named(all.take(i as int), p),
        decreases vars@.len() - i,
    {
        assert(all.take(i + 1).drop_last() =~= all.take(i as int));
        assert(all.take(i + 1).last() == (vars@[i as int].0@, vars@[i as int].1@));
        if has_prefix(vars[i].0.as_str(), prefixes) {
            let ghost was = names@;
            names.push(vars[i].0.clone());
            assert(text::views(names@) =~= text::views(was).push(vars@[i as int].0@));
        }
        i = i + 1;
    }
    assert(all.take(i as int) =~= all);
    sort_texts(&names)
}

/// What the configuration comes to.
pub struct Pulse {
    pub medha_home: String,
    pub config_path: String,
    pub config_exists: bool,
    /// The model, nothing where none is configured, or why there is none.
    pub resolved: Result<Option<Resolved>, String>,
    /// The names of the program's own variables, never their values.
    pub medha_env: Vec<String>,
    /// The names of the variables of other programs that are not read.
    pub ignored_env: Vec<String>,
    pub project_lock: Option<String>,
    pub lock_executor: Option<String>,
    pub checks: Vec<Check>,
}

/// The beginnings of the names of variables that belong to other programs.
pub open spec fn foreign_prefixes() -> Seq<Seq<char>> {
    seq!["OPENAI_"@, "GOOGLE_"@, "GEMINI_"@, "ANTHROPIC_"@, "AZURE_OPENAI_"@]
}

/// How a place that may be unknown is shown.
pub open spec fn place_text(place: Result<String, String>) -> Seq<char> {
    match place {
        Ok(p) => p@,
        Err(e) => "<unresolved: "@ + e@ + ">"@,
    }
}

fn show_place(place: Result<String, String>) -> (out: String)
    ensures
        out@ == place_text(place),
{
    match place {
        Ok(p) => p,
        Err(e) => cat3("<unresolved: ", e.as_str(), ">"),
    }
}

/// Puts together what the configuration comes to. The places and the lock file are as
/// they were found.
pub fn pulse(
    cfg: Option<&Config>,
    resolved: Result<Option<Resolved>, String>,
    vars: &Vec<(String, String)>,
    home: Result<String, String>,
    config_path: Result<String, String>,
    config_exists: bool,
    project_lock: Option<String>,
    lock_executor: Option<String>,
) -> (out: Pulse)
    ensures
        out.medha_home@ == place_text(home),
        out.config_path@ == place_text(config_path),
        out.config_exists == config_exists,
        out.resolved == resolved,
        text::views(out.medha_env@) == order::sorted(
            named(environment::variables(vars@), seq!["MEDHA_"@]),
        ),
        text::views(out.ignored_env@) == order::sorted(
            named(environment::variables(vars@), foreign_prefixes()),
        ),
        out.project_lock == project_lock,
        out.lock_executor == lock_executor,
        listed(out.checks@) == diagnosis(cfg, outcome(resolved), text::views(out.ignored_env@)),
{
    let own = ["MEDHA_"];
    let foreign = ["OPENAI_", "GOOGLE_", "GEMINI_", "ANTHROPIC_", "AZURE_OPENAI_"];
    assert(text::strs(own@) =~= seq!["MEDHA_"@]);
    assert(text::strs(foreign@) =~= foreign_prefixes());
    let medha_env = scan_prefixed(vars, &own);
    let ignored_env = scan_prefixed(vars, &foreign);
    let checks = diagnose_checks(cfg, &resolved, &ignored_env);
    Pulse {
        medha_home: show_place(home),
        config_path: show_place(config_path),
        config_exists,
        resolved,
        medha_env,
        ignored_env,
        project_lock,
        lock_executor,
        checks,
    }
}

/// One of the checks is of this kind.
pub open spec fn any_health(v: Seq<CheckView>, h: Health) -> bool {
    exists|i: int| 0 <= i < v.len() && (#[trigger] v[i]).health == h
}

/// One of the checks can be repaired.
pub open spec fn any_fix(v: Seq<CheckView>) -> bool {
    exists|i: int| 0 <= i < v.len() && (#[trigger] v[i]).auto_fixable
}

/// The mark and the words for all checks together.
pub open spec fn overall(v: Seq<CheckView>) -> (Seq<char>, Seq<char>) {
    if any_health(v, Health::Error) {
        ("✗"@, "needs attention"@)
    } else if any_health(v, Health::Warn) {
        ("⚠"@, "ok with warnings"@)
    } else {
        ("✔"@, "healthy"@)
    }
}

/// A line.
pub open spec fn line(s: Seq<char>) -> Seq<char> {
    s + "\n"@
}

/// The lines of the checks.
pub open spec fn check_lines(v: Seq<CheckView>) -> Seq<char>
    decreases v.len(),
{
    if v.len() == 0 {
        seq![]
    } else {
        check_lines(v.drop_last()) + line("  "@ + v.last().health.mark() + " "@ + v.last().title) + line(
            "      "@ + v.last().detail,
        )
    }
}

/// The lines about the model.
pub open spec fn model_lines(resolved: Result<Option<ResolvedView>, Seq<char>>) -> Seq<char> {
    match resolved {
        Ok(Some(r)) => {
            let profile = if r.name == "override"@ {
                "(one-session override)"@
            } else {
                "'"@ + r.name + "'"@
            };
            let credential = if r.credential.len() == 0 {
                "none found"@
            } else {
                "present [source: "@ + r.credential_source.name() + "]"@
            };
            line("  profile      "@ + profile) + line(
                "  model        "@ + r.provider.model + "   [source: "@ + r.model_source.name()
                    + "]"@,
            ) + line(
                "  base_url     "@ + r.provider.base_url + "   [source: "@
                    + r.base_url_source.name() + "]"@,
            ) + line("  protocol     "@ + r.provider.protocol) + line(
                "  auth         "@ + r.provider.auth.name(),
            ) + line("  credential   "@ + credential)
        },
        Ok(None) => line("  none configured yet — run `medha` and add one in /model"@),
        Err(e) => line("  resolution error: "@ + e),
    }
}

/// The lines about the variables.
pub open spec fn env_lines(own: Seq<Seq<char>>, ignored: Seq<Seq<char>>) -> Seq<char> {
    let first = if own.len() == 0 {
        line("  MEDHA_* set   (none)"@)
    } else {
        line("  MEDHA_* set   "@ + text::joined(own, ", "@))
    };
    let second = if ignored.len() > 0 {
        line(
            "  ignored      "@ + text::joined(ignored, ", "@)
                + "  ← present but NOT read by medha (they belong to the"@,
        ) + line("               app that owns this directory, not medha)"@)
    } else {
        seq![]
    };
    first + second + line(
        "  .env         never read by medha (a project's .env cannot change medha's model/key)"@,
    )
}

/// The lines about the lock file.
pub open spec fn lock_lines(lock: Option<Seq<char>>, executor: Option<Seq<char>>) -> Seq<char> {
    match (lock, executor) {
        (Some(path), Some(exec)) => line("  "@ + path) + line("  [routing] executor = "@ + exec),
        (Some(path), None) => line("  "@ + path + " (no [routing] executor set)"@),
        _ => line("  (none in this directory)"@),
    }
}

fn add_line(out: &mut String, s: &str)
    ensures
        final(out)@ == old(out)@ + line(s@),
{
    out.append(s);
    out.append("\n");
    assert(out@ =~= old(out)@ + line(s@));
}

fn show_checks(checks: &Vec<Check>, out: &mut String)
    ensures
        final(out)@ == old(out)@ + check_lines(listed(checks@)),
{
    let ghost was = out@;
    let ghost all = listed(checks@);
    let mut i: usize = 0;
    assert(out@ =~= was + check_lines(all.take(0)));
    while i < checks.len()
        invariant
            i <= checks@.len(),
            all == listed(checks@),
            out@ == was + check_lines(all.take(i as int)),
        decreases checks@.len() - i,
    {
        assert(all.take(i + 1).drop_last() =~= all.take(i as int));
        assert(all.take(i + 1).last() == checks@[i as int]@);
        let head = cat2("  ", checks[i].health.icon());
        let head = cat3(head.as_str(), " ", checks[i].title.as_str());
        add_line(out, head.as_str());
        let tail = cat2("      ", checks[i].detail.as_str());
        add_line(out, tail.as_str());
        i = i + 1;
        assert(out@ =~= was + check_lines(all.take(i as int)));
    }
    assert(all.take(i as int) =~= all);
}

fn show_model(resolved: &Result<Option<Resolved>, String>, out: &mut String)
    ensures
        final(out)@ == old(out)@ + model_lines(outcome(*resolved)),
{
    let ghost was = out@;
    match resolved {
        Ok(Some(r)) => {
            let profile = if same(r.name.as_str(), "override") {
                "(one-session override)".to_owned()
            } else {
                cat3("'", r.name.as_str(), "'")
            };
            let l1 = cat2("  profile      ", profile.as_str());
            add_line(out, l1.as_str());
            let l2 = cat5(
                "  model        ",
                r.provider.model.as_str(),
                "   [source: ",
                r.model_source.label(),
                "]",
            );
            add_line(out, l2.as_str());
            let l3 = cat5(
                "  base_url     ",
                r.provider.base_url.as_str(),
                "   [source: ",
                r.base_url_source.label(),
                "]",
            );
            add_line(out, l3.as_str());
            let l4 = cat2("  protocol     ", r.provider.protocol.as_str());
            add_line(out, l4.as_str());
            let l5 = cat2("  auth         ", r.provider.auth.as_str());
            add_line(out, l5.as_str());
            let credential = if chars_of(r.credential.as_str()).len() == 0 {
                "none found".to_owned()
            } else {
                cat3("present [source: ", r.credential_source.label(), "]")
            };
            let l6 = cat2("  credential   ", credential.as_str());
            add_line(out, l6.as_str());
            assert(out@ =~= was + (line(l1@) + line(l2@) + line(l3@) + line(l4@) + line(l5@) + line(
                l6@,
            )));
        },
        Ok(None) => {
            add_line(out, "  none configured yet — run `medha` and add one in /model");
        },
        Err(e) => {
            let l = cat2("  resolution error: ", e.as_str());
            add_line(out, l.as_str());
        },
    }
}

fn show_env(own: &Vec<String>, ignored: &Vec<String>, out: &mut String)
    ensures
        final(out)@ == old(out)@ + env_lines(text::views(own@), text::views(ignored@)),
{
    let ghost was = out@;
    if own.len() == 0 {
        add_line(out, "  MEDHA_* set   (none)");
    } else {
        let names = join(own, ", ");
        let l = cat2("  MEDHA_* set   ", names.as_str());
        add_line(out, l.as_str());
    }
    if ignored.len() > 0 {
        let names = join(ignored, ", ");
        let l = cat3(
            "  ignored      ",
            names.as_str(),
            "  ← present but NOT read by medha (they belong to the",
        );
        add_line(out, l.as_str());
        add_line(out, "               app that owns this directory, not medha)");
    }
    add_line(
        out,
        "  .env         never read by medha (a project's .env cannot change medha's model/key)",
    );
    assert(out@ =~= was + env_lines(text::views(own@), text::views(ignored@)));
}

fn show_lock(lock: &Option<String>, executor: &Option<String>, out: &mut String)
    ensures
        final(out)@ == old(out)@ + lock_lines(text::view_of(*lock), text::view_of(*executor)),
{
    let ghost was = out@;
    match (lock, executor) {
        (Some(path), Some(exec)) => {
            let l1 = cat2("  ", path.as_str());
            add_line(out, l1.as_str());
            let l2 = cat2("  [routing] executor = ", exec.as_str());
            add_line(out, l2.as_str());
            assert(out@ =~= was + (line(l1@) + line(l2@)));
        },
        (Some(path), None) => {
            let l = cat3("  ", path.as_str(), " (no [routing] executor set)");
            add_line(out, l.as_str());
        },
        _ => {
            add_line(out, "  (none in this directory)");
        },
    }
}

impl Pulse {
    /// One of the checks can be repaired.
    pub fn has_fixes(&self) -> (yes: bool)
        ensures
            yes == any_fix(listed(self.checks@)),
    {
        let mut i: usize = 0;
        while i < self.checks.len()
            invariant
                i <= self.checks@.len(),
                forall|j: int| 0 <= j < i ==> !(#[trigger] listed(self.checks@)[j]).auto_fixable,
            decreases self.checks@.len() - i,
        {
            assert(listed(self.checks@)[i as int] == self.checks@[i as int]@);
            if self.checks[i].auto_fixable {
                return true;
            }
            i = i + 1;
        }
        false
    }

    fn has_health(&self, h: Health) -> (yes: bool)
        ensures
            yes == any_health(listed(self.checks@), h),
    {
        let mut i: usize = 0;
        while i < self.checks.len()
            invariant
                i <= self.checks@.len(),
                forall|j: int| 0 <= j < i ==> (#[trigger] listed(self.checks@)[j]).health != h,
            decreases self.checks@.len() - i,
        {
            assert(listed(self.checks@)[i as int] == self.checks@[i as int]@);
            if self.checks[i].health == h {
                return true;
            }
            i = i + 1;
        }
        false
    }

    /// The mark and the words for all checks together.
    pub fn verdict(&self) -> (out: (&'static str, &'static str))
        ensures
            (out.0@, out.1@) == overall(listed(self.checks@)),
    {
        if self.has_health(Health::Error) {
            ("✗", "needs attention")
        } else if self.has_health(Health::Warn) {
            ("⚠", "ok with warnings")
        } else {
            ("✔", "healthy")
        }
    }

    /// How it is shown.
    pub open spec fn shown(self) -> Seq<char> {
        let checks = listed(self.checks@);
        let (icon, word) = overall(checks);
        line("medha pulse — "@ + icon + " "@ + word + "\n"@) + line("checks"@) + check_lines(
            checks,
        ) + (if any_fix(checks) {
            line(
                "\n  → run `medha pulse --fix` (or `/pulse fix`) to auto-repair the fixable items."@,
            )
        } else {
            seq![]
        }) + line("\npaths"@) + line("  MEDHA_HOME   "@ + self.medha_home@) + line(
            "  config.toml  "@ + self.config_path@ + " "@ + (if self.config_exists {
                "(present)"@
            } else {
                "(absent — first-run setup will open)"@
            }),
        ) + line("\nactive model"@) + model_lines(outcome(self.resolved)) + line(
            "\nenvironment"@,
        ) + env_lines(text::views(self.medha_env@), text::views(self.ignored_env@)) + line(
            "\nproject medha.lock"@,
        ) + lock_lines(text::view_of(self.project_lock), text::view_of(self.lock_executor))
    }

    /// Shows it.
    pub fn render(&self) -> (out: String)
        ensures
            out@ == self.shown(),
    {
        let mut out = String::new();
        let (icon, word) = self.verdict();
        let head = cat5("medha pulse — ", icon, " ", word, "\n");
        add_line(&mut out, head.as_str());
        assert(out@ =~= line(head@));
        add_line(&mut out, "checks");
        show_checks(&self.checks, &mut out);
        let ghost was = out@;
        if self.has_fixes() {
            add_line(
                &mut out,
                "\n  → run `medha pulse --fix` (or `/pulse fix`) to auto-repair the fixable items.",
            );
        }
        assert(out@ =~= was + (if any_fix(listed(self.checks@)) {
            line(
                "\n  → run `medha pulse --fix` (or `/pulse fix`) to auto-repair the fixable items."@,
            )
        } else {
            seq![]
        }));
        add_line(&mut out, "\npaths");
        let home = cat2("  MEDHA_HOME   ", self.medha_home.as_str());
        add_line(&mut out, home.as_str());
        let config = cat2("  config.toml  ", self.config_path.as_str());
        let config = cat3(
            config.as_str(),
            " ",
            if self.config_exists {
                "(present)"
            } else {
                "(absent — first-run setup will open)"
            },
        );
        add_line(&mut out, config.as_str());
        add_line(&mut out, "\nactive model");
        show_model(&self.resolved, &mut out);
        add_line(&mut out, "\nenvironment");
        show_env(&self.medha_env, &self.ignored_env, &mut out);
        add_line(&mut out, "\nproject medha.lock");
        show_lock(&self.project_lock, &self.lock_executor, &mut out);
        out
    }
}

/// How bad a finding is, the worst with the least number.
pub open spec fn rank(h: Health) -> int {
    match h {
        Health::Error => 0,
        Health::Warn => 1,
        Health::Good => 2,
    }
}

proof fn lemma_of_health(v: Seq<CheckView>, h: Health)
    ensures
        forall|i: int| 0 <= i < of_health(v, h).len() ==> (#[trigger] of_health(v, h)[i]).health == h,
    decreases v.len(),
{
    if v.len() > 0 {
        lemma_of_health(v.drop_last(), h);
    }
}

proof fn lemma_kinds(v: Seq<CheckView>)
    ensures
        of_health(v, Health::Error).to_multiset().add(
            of_health(v, Health::Warn).to_multiset(),
        ).add(of_health(v, Health::Good).to_multiset()) =~= v.to_multiset(),
    decreases v.len(),
{
    broadcast use vstd::seq_lib::group_to_multiset_ensures;

    if v.len() == 0 {
        assert(v.to_multiset() =~= vstd::multiset::Multiset::empty());
    } else {
        lemma_kinds(v.drop_last());
        assert(v =~= v.drop_last().push(v.last()));
    }
}

/// Every finding is listed as often as it was made, none before a worse one.
pub proof fn law_worst_first(v: Seq<CheckView>)
    ensures
        forall|i: int, j: int|
            #![trigger worst_first(v)[i], worst_first(v)[j]]
            0 <= i <= j < worst_first(v).len() ==> rank(worst_first(v)[i].health) <= rank(
                worst_first(v)[j].health,
            ),
        worst_first(v).to_multiset() =~= v.to_multiset(),
{
    lemma_of_health(v, Health::Error);
    lemma_of_health(v, Health::Warn);
    lemma_of_health(v, Health::Good);
    lemma_kinds(v);
    let e = of_health(v, Health::Error);
    let w = of_health(v, Health::Warn);
    let g = of_health(v, Health::Good);
    vstd::seq_lib::lemma_multiset_commutative(e, w);
    vstd::seq_lib::lemma_multiset_commutative(e + w, g);
}

} // verus!

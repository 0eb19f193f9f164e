//! What the configuration keeps to, whatever is written in it.

use vstd::prelude::*;
use crate::config::credentials;
use crate::config::credentials::VaultView;
use crate::config::models;
use crate::config::models::Config;
use crate::config::providers;
use crate::config::providers::{AuthKind, ReasoningSupport, TokenAccountingMode, TokenCounter};
use crate::config::pulse;
use crate::config::pulse::{CheckView, Health};
use crate::config::resolve;
use crate::config::resolve::ResolvedView;
use crate::config::search;
use crate::config::search::SearchProvider;
use crate::config::servers;
use crate::config::servers::AddView;
use crate::config::workspace;
use crate::config::workspace::{ActionView, StateChoice, StateEvent};
use crate::lsp::environment;
use crate::mcp::policy::RemoteAuth;
use crate::number;
use crate::order;
use crate::paths;
use crate::table;
use crate::text;

verus! {

/// There is nothing but white space.
pub open spec fn blank(s: Seq<char>) -> bool {
    forall|i: int| 0 <= i < s.len() ==> text::is_white(#[trigger] s[i])
}

/// There is something, and no white space at its ends.
pub open spec fn tidy(s: Seq<char>) -> bool {
    s.len() > 0 && !text::is_white(s[0]) && !text::is_white(s.last())
}

/// What stands between white space is what is left without it.
pub proof fn lemma_trimmed(front: Seq<char>, s: Seq<char>, back: Seq<char>)
    requires
        blank(front),
        blank(back),
        tidy(s),
    ensures
        text::trim(front + s + back) == s,
{
    let whole = front + s + back;
    let (a, b) = text::law_trim(whole);
    let n = front.len() as int;
    let m = n + s.len();
    assert(whole[n] == s[0] && whole[m - 1] == s.last());
    if a < n {
        assert(whole[a] == front[a]);
        if a < b {
            assert(text::trim(whole)[0] == whole[a]);
        }
    }
    if b > m {
        assert(whole[b - 1] == back[b - 1 - m]);
        if a < b {
            assert(text::trim(whole).last() == whole[b - 1]);
        }
    }
    assert(a == n && b == m);
    assert(whole.subrange(n, m) =~= s);
}

proof fn lemma_white_from(s: Seq<char>, i: int)
    requires
        0 <= i,
    ensures
        match providers::white_from(s, i) {
            Some(k) => i <= k < s.len() && text::is_white(s[k]) && forall|j: int|
                i <= j < k ==> !text::is_white(#[trigger] s[j]),
            None => forall|j: int| i <= j < s.len() ==> !text::is_white(#[trigger] s[j]),
        },
    decreases s.len() - i,
{
    if i < s.len() && !text::is_white(s[i]) {
        lemma_white_from(s, i + 1);
    }
}

/// The text is the word `Bearer`, in any case.
pub open spec fn is_scheme(s: Seq<char>) -> bool {
    text::lowered(s) == "bearer"@
}

proof fn lemma_scheme(s: Seq<char>)
    requires
        is_scheme(s),
    ensures
        s.len() == 6,
        forall|i: int| 0 <= i < s.len() ==> !text::is_white(#[trigger] s[i]),
{
    reveal_strlit("bearer");
    assert(text::lowered(s).len() == s.len());
    assert forall|i: int| 0 <= i < s.len() implies !text::is_white(#[trigger] s[i]) by {
        text::law_lowered(s, i);
        assert('a' <= "bearer"@[i] <= 'z');
    }
}

/// A key that was pasted with the word before it is taken without the word, and without the
/// white space around it.
pub proof fn law_scheme_is_left_out(
    front: Seq<char>,
    word: Seq<char>,
    gap: Seq<char>,
    key: Seq<char>,
    back: Seq<char>,
)
    requires
        blank(front),
        is_scheme(word),
        blank(gap),
        gap.len() > 0,
        tidy(key),
        blank(back),
    ensures
        providers::normalized(front + word + gap + key + back) == key,
        providers::normalized(front + word + back) == Seq::<char>::empty(),
{
    lemma_scheme(word);
    let s = word + gap + key;
    assert(front + word + gap + key + back =~= front + s + back);
    assert(s[0] == word[0] && s.last() == key.last());
    lemma_trimmed(front, s, back);
    lemma_white_from(s, 0);
    assert(s[6] == gap[0]);
    assert forall|j: int| 0 <= j < 6 implies !text::is_white(#[trigger] s[j]) by {
        assert(s[j] == word[j]);
    }
    assert(providers::white_from(s, 0) == Some(6int));
    assert(s.take(6) =~= word);
    let rest = gap.drop_first();
    assert(s.skip(7) =~= rest + key + Seq::<char>::empty());
    assert(blank(rest)) by {
        assert forall|i: int| 0 <= i < rest.len() implies text::is_white(#[trigger] rest[i]) by {
            assert(rest[i] == gap[i + 1]);
        }
    }
    lemma_trimmed(rest, key, seq![]);
    reveal_strlit("bearer");
    assert(text::lowered(s).len() == s.len());
    lemma_trimmed(front, word, back);
}

/// A key that does not begin with that word is taken as it is, without the white space
/// around it.
pub proof fn law_plain_keys_are_kept(front: Seq<char>, key: Seq<char>, back: Seq<char>)
    requires
        blank(front),
        blank(back),
        tidy(key),
        !is_scheme(key),
        key.len() > 6 ==> !(is_scheme(key.take(6)) && text::is_white(key[6])),
    ensures
        providers::normalized(front + key + back) == key,
{
    lemma_trimmed(front, key, back);
    lemma_white_from(key, 0);
    if let Some(i) = providers::white_from(key, 0) {
        if is_scheme(key.take(i)) {
            lemma_scheme(key.take(i));
            assert(i == 6);
        }
    }
}

/// A number is read as it is written, with or without white space around it, where it is
/// positive and not too large; nothing else is.
pub proof fn law_positive_numbers(value: Seq<char>, front: Seq<char>, n: nat, back: Seq<char>, max: nat)
    requires
        blank(front),
        blank(back),
    ensures
        providers::positive(front + number::decimal(n) + back, max) == if 0 < n <= max {
            Some(n)
        } else {
            None
        },
        providers::positive(value, max) matches Some(m) ==> {
            let d = number::unsigned_digits(text::trim(value));
            0 < m <= max && d.len() > 0 && number::all_digits(d) && number::value(d) == m
        },
        number::parsed(number::decimal(n), max) == if n <= max {
            Some(n)
        } else {
            None
        },
{
    number::lemma_decimal_parses(n);
    let d = number::decimal(n);
    assert(tidy(d));
    lemma_trimmed(front, d, back);
}

proof fn lemma_hyphened(s: Seq<char>)
    ensures
        text::replaced(s, "_"@, "-"@).len() == s.len(),
        forall|i: int|
            0 <= i < s.len() ==> #[trigger] text::replaced(s, "_"@, "-"@)[i] == (if s[i] == '_' {
                '-'
            } else {
                s[i]
            }),
    decreases s.len(),
{
    reveal_strlit("_");
    reveal_strlit("-");
    let p = "_"@;
    let out = text::replaced(s, p, "-"@);
    text::lemma_find_from(s, p, 0);
    match text::find(s, p) {
        Some(i) => {
            let after = text::rest(s, i + 1);
            lemma_hyphened(after);
            assert(text::occurs(s, p, i));
            assert(s.subrange(i, i + 1)[0] == p[0]);
            assert(s[i] == '_');
            assert(out == text::prefix(s, i) + "-"@ + text::replaced(after, p, "-"@));
            assert forall|k: int| 0 <= k < s.len() implies #[trigger] out[k] == (if s[k] == '_' {
                '-'
            } else {
                s[k]
            }) by {
                if k < i {
                    if s[k] == '_' {
                        assert(s.subrange(k, k + 1) =~= p);
                        assert(text::occurs(s, p, k));
                    }
                } else if k > i {
                    assert(after[k - i - 1] == s[k]);
                    assert(text::replaced(after, p, "-"@)[k - i - 1] == out[k]);
                }
            }
        },
        None => {
            assert forall|k: int| 0 <= k < s.len() implies s[k] != '_' by {
                if s[k] == '_' {
                    assert(s.subrange(k, k + 1) =~= p);
                    assert(text::occurs(s, p, k));
                }
            }
        },
    }
}

/// The text says the word, in any case and with white space around it.
pub open spec fn says(value: Seq<char>, word: Seq<char>) -> bool {
    text::lowered(text::trim(value)) == word
}

/// The text says the word, in any case, with white space around it, and with underscores or
/// hyphens in it.
pub open spec fn says_hyphened(value: Seq<char>, word: Seq<char>) -> bool {
    let w = text::lowered(text::trim(value));
    w.len() == word.len() && forall|i: int|
        0 <= i < w.len() ==> #[trigger] word[i] == (if w[i] == '_' {
            '-'
        } else {
            w[i]
        })
}

proof fn lemma_says_hyphened(value: Seq<char>, word: Seq<char>)
    ensures
        says_hyphened(value, word) == (text::replaced(providers::plain_word(value), "_"@, "-"@)
            == word),
{
    let w = providers::plain_word(value);
    lemma_hyphened(w);
    let r = text::replaced(w, "_"@, "-"@);
    if says_hyphened(value, word) {
        assert(r =~= word);
    }
}

proof fn lemma_word_lengths()
    ensures
        "none"@.len() == 4,
        "off"@.len() == 3,
        "bearer"@.len() == 6,
        "x-api-key"@.len() == 9,
        "anthropic"@.len() == 9,
        "x-goog-api-key"@.len() == 14,
        "google"@.len() == 6,
        "gemini"@.len() == 6,
        "bearer"@[0] == 'b',
        "google"@[0] == 'g',
        "google"@[1] == 'o',
        "gemini"@[0] == 'g',
        "gemini"@[1] == 'e',
        "x-api-key"@[0] == 'x',
        "anthropic"@[0] == 'a',
        "vllm"@.len() == 4,
        "vllm"@[0] == 'v',
        "none"@[0] == 'n',
        "strict"@.len() == 6,
        "adaptive"@.len() == 8,
        "unknown"@.len() == 7,
        "unverified"@.len() == 10,
        "unsupported"@.len() == 11,
        "effort"@.len() == 6,
{
    reveal_strlit("none");
    reveal_strlit("off");
    reveal_strlit("bearer");
    reveal_strlit("x-api-key");
    reveal_strlit("anthropic");
    reveal_strlit("x-goog-api-key");
    reveal_strlit("google");
    reveal_strlit("gemini");
    reveal_strlit("vllm");
    reveal_strlit("strict");
    reveal_strlit("adaptive");
    reveal_strlit("unknown");
    reveal_strlit("unverified");
    reveal_strlit("unsupported");
    reveal_strlit("effort");
}

/// The scheme of a word: each is named by its own name, and by those of the providers that
/// use it; what names none is refused.
pub proof fn law_schemes_are_named(value: Seq<char>)
    ensures
        providers::auth_of(value) == Some(AuthKind::Unauthenticated) <==> says_hyphened(
            value,
            "none"@,
        ) || says_hyphened(value, "off"@),
        providers::auth_of(value) == Some(AuthKind::Bearer) <==> says_hyphened(value, "bearer"@),
        providers::auth_of(value) == Some(AuthKind::XApiKey) <==> says_hyphened(value, "x-api-key"@)
            || says_hyphened(value, "anthropic"@),
        providers::auth_of(value) == Some(AuthKind::XGoogApiKey) <==> says_hyphened(
            value,
            "x-goog-api-key"@,
        ) || says_hyphened(value, "google"@) || says_hyphened(value, "gemini"@),
        forall|kind: AuthKind| #[trigger]
            says_hyphened(value, kind.name()) ==> providers::auth_of(value) == Some(kind),
{
    lemma_word_lengths();
    lemma_says_hyphened(value, "none"@);
    lemma_says_hyphened(value, "off"@);
    lemma_says_hyphened(value, "bearer"@);
    lemma_says_hyphened(value, "x-api-key"@);
    lemma_says_hyphened(value, "anthropic"@);
    lemma_says_hyphened(value, "x-goog-api-key"@);
    lemma_says_hyphened(value, "google"@);
    lemma_says_hyphened(value, "gemini"@);
}

/// How tokens are counted and accounted for, and what is known of a model's reasoning, by a
/// word.
pub proof fn law_modes_are_named(value: Seq<char>)
    ensures
        providers::counter_of(value) == Some(TokenCounter::Vllm) <==> says(value, "vllm"@),
        providers::counter_of(value) == Some(TokenCounter::Uncounted) <==> says(value, "none"@)
            || says(value, "off"@),
        providers::accounting_of(value) == Some(TokenAccountingMode::Strict) <==> says(
            value,
            "strict"@,
        ),
        providers::accounting_of(value) == Some(TokenAccountingMode::Adaptive) <==> says(
            value,
            "adaptive"@,
        ),
        providers::reasoning_of(value) == Some(ReasoningSupport::Unknown) <==> says(
            value,
            "unknown"@,
        ) || says(value, "unverified"@),
        providers::reasoning_of(value) == Some(ReasoningSupport::Unsupported) <==> says(
            value,
            "unsupported"@,
        ) || says(value, "none"@) || says(value, "off"@),
        providers::reasoning_of(value) == Some(ReasoningSupport::Effort) <==> says(
            value,
            "effort"@,
        ),
{
    lemma_word_lengths();
}

/// A session starts with a saved model wherever there is one: with the default where that is
/// saved, else with the first in the order of the names.
pub proof fn law_session_starts_with_a_saved_model(cfg: Config)
    requires
        cfg.wf(),
    ensures
        cfg.startup() is Some <==> cfg.models.rows@.len() > 0,
        cfg.startup() matches Some(n) ==> cfg.models@.dom().contains(n),
        match cfg.default_model {
            Some(d) => cfg.models@.dom().contains(d@) ==> cfg.startup() == Some(d@),
            None => true,
        },
        (match cfg.default_model {
            Some(d) => !cfg.models@.dom().contains(d@),
            None => true,
        }) ==> forall|i: int|
            1 <= i < cfg.models.rows@.len() ==> order::before(
                cfg.startup()->0,
                (#[trigger] cfg.models.rows@[i]).0@,
            ),
{
    let rows = cfg.models.rows@;
    if rows.len() > 0 {
        table::lemma_found(rows, 0);
        assert(cfg.models@.dom().contains(rows[0].0@));
        assert forall|i: int| 1 <= i < rows.len() implies order::before(
            rows[0].0@,
            (#[trigger] rows[i]).0@,
        ) by {
            assert(table::keys(rows)[0] == rows[0].0@ && table::keys(rows)[i] == rows[i].0@);
        }
    } else if let Some(d) = cfg.default_model {
        table::lemma_find(rows, d@, 0);
    }
}

/// The letters and digits of a text, in lower case.
pub open spec fn letters(s: Seq<char>) -> Seq<char>
    decreases s.len(),
{
    if s.len() == 0 {
        seq![]
    } else {
        let c = text::lower(s.last());
        if 'a' <= c <= 'z' || '0' <= c <= '9' {
            letters(s.drop_last()).push(c)
        } else {
            letters(s.drop_last())
        }
    }
}

proof fn lemma_slug_letters(s: Seq<char>)
    ensures
        letters(models::slug(s)) == letters(s),
        forall|i: int|
            0 <= i < models::slug(s).len() ==> models::word_char(#[trigger] models::slug(s)[i])
                || models::slug(s)[i] == '-',
    decreases s.len(),
{
    if s.len() > 0 {
        let head = models::slug(s.drop_last());
        lemma_slug_letters(s.drop_last());
        let c = text::lower(s.last());
        let out = models::slug(s);
        if models::word_char(c) {
            assert(out.drop_last() =~= head);
            assert(text::lower(c) == c);
        } else if head.len() > 0 && head.last() != '-' {
            assert(out.drop_last() =~= head);
        }
    }
}

/// The name that a model's id suggests is made of the letters and digits of the last step of
/// that id, all of them and in their order, wherever it has any.
pub proof fn law_suggested_names_keep_the_letters(front: Seq<char>, step: Seq<char>)
    requires
        !step.contains('/'),
    ensures
        letters(step).len() > 0 ==> letters(models::suggested(front + seq!['/'] + step)) == letters(
            step,
        ) && letters(models::suggested(step)) == letters(step),
        letters(step).len() == 0 ==> models::suggested(step) == "imported"@,
        models::suggested(front + seq!['/'] + step) == models::suggested(step),
{
    let whole = front + seq!['/'] + step;
    let n = front.len() as int;
    paths::lemma_last_char(whole, '/');
    paths::lemma_last_char(step, '/');
    if let Some(i) = paths::last_char(step, '/') {
        assert(step.contains(step[i]));
    }
    assert(whole[n] == '/');
    assert forall|j: int| n < j < whole.len() implies whole[j] != '/' by {
        assert(whole[j] == step[j - n - 1]);
        assert(step.contains(step[j - n - 1]));
    }
    assert(whole.skip(n + 1) =~= step);
    assert(paths::last_char(whole, '/') == Some(n));
    assert(models::last_step(whole) == step && models::last_step(step) == step);
    let s = models::slug(step);
    lemma_slug_letters(step);
    let u = models::unhyphened(s);
    assert(letters(u) == letters(s));
    if letters(step).len() == 0 && u.len() > 0 {
        models::law_suggested_names_are_valid(step);
        assert(u == models::suggested(step));
        assert(u[0] != '-');
        assert(models::word_char(u[0]) || u[0] == '-');
        lemma_letter_counts(u, 0);
    }
}

proof fn lemma_letter_counts(s: Seq<char>, i: int)
    requires
        0 <= i < s.len(),
        models::word_char(s[i]),
    ensures
        letters(s).len() > 0,
    decreases s.len(),
{
    if i < s.len() - 1 {
        lemma_letter_counts(s.drop_last(), i);
    }
}

/// A store holds a key under an id.
pub open spec fn holds(keys: Map<Seq<char>, Seq<char>>, id: Seq<char>) -> bool {
    keys.dom().contains(id) && keys[id].len() > 0
}

/// A key is taken from the preferred store where that holds it, else from the other. It is
/// stored in the preferred one where that takes it, and the keychain is never written to
/// unless it is preferred.
pub proof fn law_preferred_store_comes_first(v: VaultView, id: Seq<char>, key: Seq<char>)
    ensures
        !v.prefer_keychain && holds(v.file, id) ==> credentials::loaded(v, id) == Some(v.file[id]),
        v.prefer_keychain && holds(v.keychain, id) ==> credentials::loaded(v, id) == Some(
            v.keychain[id],
        ),
        holds(v.file, id) && !holds(v.keychain, id) ==> credentials::loaded(v, id) == Some(
            v.file[id],
        ),
        holds(v.keychain, id) && !holds(v.file, id) ==> credentials::loaded(v, id) == Some(
            v.keychain[id],
        ),
        !holds(v.keychain, id) && !holds(v.file, id) ==> credentials::loaded(v, id) is None,
        v.prefer_keychain && v.keychain_works ==> credentials::with_key(v, id, key).file == v.file
            && credentials::with_key(v, id, key).keychain == v.keychain.insert(id, key),
        !v.prefer_keychain || !v.keychain_works ==> credentials::with_key(v, id, key).keychain
            == v.keychain && credentials::with_key(v, id, key).file == v.file.insert(id, key),
        credentials::after_load(v, id).keychain == v.keychain,
        v.prefer_keychain ==> credentials::after_load(v, id) == v,
        !v.prefer_keychain && credentials::loaded(v, id) is Some ==> holds(
            credentials::after_load(v, id).file,
            id,
        ),
{
}

/// The variable is set, to something that is not blank.
pub open spec fn given(vars: Seq<(String, String)>, name: Seq<char>) -> bool {
    exists|i: int| #[trigger] resolve::first_named(vars, name, i) && !blank(vars[i].1@)
}

proof fn lemma_given(vars: Seq<(String, String)>, name: Seq<char>)
    ensures
        search::says_something(environment::variables(vars), name) == given(vars, name),
{
    resolve::lemma_variable(vars, name, 0);
    assert forall|k: int, l: int|
        #[trigger] resolve::first_named(vars, name, k) && #[trigger] resolve::first_named(
            vars,
            name,
            l,
        ) implies k == l by {}
    if let Some(v) = environment::variable(environment::variables(vars), name, 0) {
        let k = choose|k: int| #[trigger] resolve::first_named(vars, name, k) && vars[k].1@ == v;
        let (a, b) = text::law_trim(v);
        if text::trim(v).len() == 0 {
            assert(blank(v));
        } else {
            assert(v[a] == text::trim(v)[0]);
        }
    }
}

/// The environment picks an engine by the key or the address that it has for it: the first
/// of the three that it has, and the one that needs none where it has none.
pub proof fn law_environment_picks_the_engine(vars: Seq<(String, String)>)
    ensures
        ({
            let out = search::detected(environment::variables(vars));
            let tavily = given(vars, "TAVILY_API_KEY"@);
            let brave = given(vars, "BRAVE_API_KEY"@);
            let searxng = given(vars, "MEDHA_SEARXNG_URL"@);
            &&& out is Tavily <==> tavily
            &&& out is Brave <==> brave && !tavily
            &&& out is Searxng <==> searxng && !brave && !tavily
            &&& out is DuckDuckGo <==> !searxng && !brave && !tavily
        }),
        forall|a: SearchProvider, b: SearchProvider|
            #![trigger search::cred_id(a), search::cred_id(b)]
            search::cred_id(a) is Some && search::cred_id(a) == search::cred_id(b) ==> a == b,
        forall|a: SearchProvider|
            #![trigger search::cred_id(a)]
            search::cred_id(a) is Some <==> a is Tavily || a is Brave,
{
    lemma_given(vars, "TAVILY_API_KEY"@);
    lemma_given(vars, "BRAVE_API_KEY"@);
    lemma_given(vars, "MEDHA_SEARXNG_URL"@);
    reveal_strlit("search://tavily");
    reveal_strlit("search://brave");
    assert("search://tavily"@.len() == 15 && "search://brave"@.len() == 14);
}

proof fn lemma_same_findings(v: Seq<CheckView>, c: CheckView)
    ensures
        pulse::worst_first(v).contains(c) == v.contains(c),
{
    broadcast use vstd::seq_lib::group_to_multiset_ensures;

    pulse::law_worst_first(v);
    let w = pulse::worst_first(v);
    assert(w.contains(c) == (w.to_multiset().count(c) > 0));
    assert(v.contains(c) == (v.to_multiset().count(c) > 0));
}

proof fn lemma_same_healths(v: Seq<CheckView>, h: Health)
    ensures
        pulse::any_health(pulse::worst_first(v), h) == pulse::any_health(v, h),
        pulse::any_fix(pulse::worst_first(v)) == pulse::any_fix(v),
{
    let w = pulse::worst_first(v);
    assert forall|i: int| 0 <= i < w.len() implies v.contains(#[trigger] w[i]) by {
        lemma_same_findings(v, w[i]);
    }
    assert forall|i: int| 0 <= i < v.len() implies w.contains(#[trigger] v[i]) by {
        lemma_same_findings(v, v[i]);
    }
}

/// The model needs a key that is not there.
pub open spec fn lacks_key(r: ResolvedView) -> bool {
    !(r.provider.auth is Unauthenticated) && r.credential.len() == 0
}

/// The default names no saved model.
pub open spec fn stale_default(cfg: Option<&Config>) -> bool {
    cfg matches Some(c) && c.default_model matches Some(d) && !c.models@.dom().contains(d@)
}

/// A configuration needs attention where there is no model, or one whose key is missing; it
/// is never called healthy where the size of the context is unknown or the default is stale.
/// It can be repaired where a stale default can give way to a saved model.
pub proof fn law_faults_are_reported(
    cfg: Option<&Config>,
    resolved: Result<Option<ResolvedView>, Seq<char>>,
    ignored: Seq<Seq<char>>,
)
    ensures
        ({
            let found = pulse::diagnosis(cfg, resolved, ignored);
            let bad = match resolved {
                Ok(Some(r)) => lacks_key(r),
                _ => true,
            };
            let doubtful = stale_default(cfg) || (resolved matches Ok(Some(r))
                && r.provider.max_ctx is None);
            &&& pulse::overall(found) == ("✗"@, "needs attention"@) <==> bad
            &&& bad <==> exists|i: int|
                0 <= i < found.len() && (#[trigger] found[i]).health is Error
            &&& doubtful ==> exists|i: int|
                0 <= i < found.len() && (#[trigger] found[i]).health is Warn
            &&& pulse::overall(found) == ("✔"@, "healthy"@) ==> !bad && !doubtful
            &&& pulse::any_fix(found) <==> stale_default(cfg) && cfg->0.models.rows@.len() > 0
        }),
{
    let v = pulse::model_checks(resolved) + pulse::default_checks(cfg) + pulse::foreign_checks(
        ignored,
    );
    lemma_same_healths(v, Health::Error);
    lemma_same_healths(v, Health::Warn);
    let m = pulse::model_checks(resolved);
    let d = pulse::default_checks(cfg);
    assert(v[0] == m[0]);
    if let Ok(Some(r)) = resolved {
        let e = pulse::endpoint_checks(r);
        let c = pulse::context_checks(r);
        assert(forall|i: int| 0 <= i < e.len() ==> (#[trigger] e[i]).health is Warn);
        if r.provider.max_ctx is None {
            assert(v[1int + e.len()] == c[0]);
        }
    }
    if stale_default(cfg) {
        assert(v[m.len() as int] == d[0]);
    }
    reveal_strlit("needs attention");
    reveal_strlit("ok with warnings");
    reveal_strlit("healthy");
    assert("needs attention"@.len() == 15 && "ok with warnings"@.len() == 16 && "healthy"@.len()
        == 7);
    let found = pulse::diagnosis(cfg, resolved, ignored);
    assert(pulse::any_health(found, Health::Error) == bad_somewhere(found));
}

spec fn bad_somewhere(v: Seq<CheckView>) -> bool {
    exists|i: int| 0 <= i < v.len() && (#[trigger] v[i]).health is Error
}

/// A key is never shown: what is found and shown of a model is the same whatever its key is.
pub proof fn law_keys_are_never_shown(p: ResolvedView, key: Seq<char>)
    requires
        p.credential.len() > 0,
        key.len() > 0,
    ensures
        ({
            let q = ResolvedView { credential: key, ..p };
            &&& pulse::model_lines(Ok(Some(q))) == pulse::model_lines(Ok(Some(p)))
            &&& pulse::model_checks(Ok(Some(q))) == pulse::model_checks(Ok(Some(p)))
        }),
{
}

proof fn lemma_options()
    ensures
        "--key"@.len() == 5,
        "--url"@.len() == 5,
        "--bearer"@.len() == 8,
        "--trust"@.len() == 7,
        "--env"@.len() == 5,
        "--allow-tool"@.len() == 12,
        "--deny-tool"@.len() == 11,
        "--oauth"@.len() == 7,
        "--no-network"@.len() == 12,
        "--parallel"@.len() == 10,
        "--"@.len() == 2,
        "--"@[0] == '-',
        "--"@[1] == '-',
        "--key"@[2] == 'k',
        "--url"@[2] == 'u',
        "--env"@[2] == 'e',
        "--trust"@[2] == 't',
        "--oauth"@[2] == 'o',
        "--allow-tool"@[2] == 'a',
        "--no-network"@[2] == 'n',
        servers::option_of("--key"@) == ("--key"@, None::<Seq<char>>),
        servers::option_of("--url"@) == ("--url"@, None::<Seq<char>>),
        servers::option_of("--bearer"@) == ("--bearer"@, None::<Seq<char>>),
        servers::option_of("--trust"@) == ("--trust"@, None::<Seq<char>>),
        servers::option_of("--env"@) == ("--env"@, None::<Seq<char>>),
        servers::option_of("--allow-tool"@) == ("--allow-tool"@, None::<Seq<char>>),
        servers::option_of("--deny-tool"@) == ("--deny-tool"@, None::<Seq<char>>),
        servers::option_of("--oauth"@) == ("--oauth"@, None::<Seq<char>>),
        servers::option_of("--no-network"@) == ("--no-network"@, None::<Seq<char>>),
        servers::option_of("--parallel"@) == ("--parallel"@, None::<Seq<char>>),
{
    reveal_strlit("--key");
    reveal_strlit("--url");
    reveal_strlit("--bearer");
    reveal_strlit("--trust");
    reveal_strlit("--env");
    reveal_strlit("--allow-tool");
    reveal_strlit("--deny-tool");
    reveal_strlit("--oauth");
    reveal_strlit("--no-network");
    reveal_strlit("--parallel");
    reveal_strlit("--");
    text::lemma_find_char_from("--key"@, '=', 0);
    text::lemma_find_char_from("--url"@, '=', 0);
    text::lemma_find_char_from("--bearer"@, '=', 0);
    text::lemma_find_char_from("--trust"@, '=', 0);
    text::lemma_find_char_from("--env"@, '=', 0);
    text::lemma_find_char_from("--allow-tool"@, '=', 0);
    text::lemma_find_char_from("--deny-tool"@, '=', 0);
    text::lemma_find_char_from("--oauth"@, '=', 0);
    text::lemma_find_char_from("--no-network"@, '=', 0);
    text::lemma_find_char_from("--parallel"@, '=', 0);
}

/// The word may be the value of the option before it.
pub open spec fn is_value(word: Seq<char>) -> bool {
    word.len() > 0 && !text::starts_with(word, "--"@)
}

/// What each option that takes a value does with the word behind it.
pub proof fn law_options_take_the_next_word(args: Seq<Seq<char>>, i: int, st: AddView)
    requires
        0 <= i,
        i + 1 < args.len(),
        is_value(args[i + 1]),
    ensures
        ({
            let out = servers::scanned(args, i, st);
            let v = args[i + 1];
            &&& args[i] == "--key"@ ==> out == servers::scanned(
                args,
                i + 2,
                AddView { key: Some(v), ..st },
            )
            &&& args[i] == "--url"@ ==> out == servers::scanned(
                args,
                i + 2,
                AddView { url: v, ..st },
            )
            &&& args[i] == "--bearer"@ ==> out == servers::scanned(
                args,
                i + 2,
                AddView { auth: "bearer"@, key: Some(v), ..st },
            )
            &&& args[i] == "--trust"@ ==> out == servers::scanned(
                args,
                i + 2,
                AddView { trust: v, ..st },
            )
            &&& args[i] == "--allow-tool"@ ==> out == servers::scanned(
                args,
                i + 2,
                AddView { allow_tools: st.allow_tools.push(v), ..st },
            )
            &&& args[i] == "--deny-tool"@ ==> out == servers::scanned(
                args,
                i + 2,
                AddView { deny_tools: st.deny_tools.push(v), ..st },
            )
            &&& args[i] == "--env"@ ==> forall|name: Seq<char>, value: Seq<char>|
                name.len() > 0 && !name.contains('=') && v == #[trigger] (name + seq!['=']
                    + value) ==> out == servers::scanned(
                    args,
                    i + 2,
                    AddView { env: st.env.insert(name, value), ..st },
                )
        }),
{
    lemma_options();
    let v = args[i + 1];
    assert forall|name: Seq<char>, value: Seq<char>|
        name.len() > 0 && !name.contains('=') && v == #[trigger] (name + seq!['='] + value)
        implies servers::variable_in(v) == Some((name, value)) by {
        lemma_variable_in(name, value);
    }
}

/// A variable is given by its name, an equals sign, and its value, which may hold more of
/// them.
proof fn lemma_variable_in(name: Seq<char>, value: Seq<char>)
    requires
        name.len() > 0,
        !name.contains('='),
    ensures
        servers::variable_in(name + seq!['='] + value) == Some((name, value)),
{
    let pair = name + seq!['='] + value;
    text::lemma_find_char_from(pair, '=', 0);
    let n = name.len() as int;
    assert(pair[n] == '=');
    assert forall|j: int| 0 <= j < n implies pair[j] != '=' by {
        assert(pair[j] == name[j]);
        assert(name.contains(name[j]));
    }
    assert(text::find_char(pair, '=') == Some(n));
    assert(pair.take(n) =~= name);
    assert(pair.skip(n + 1) =~= value);
}

/// What each option does that stands alone, and what a word does that is no option.
pub proof fn law_switches_and_words(args: Seq<Seq<char>>, i: int, st: AddView)
    requires
        0 <= i < args.len(),
    ensures
        ({
            let out = servers::scanned(args, i, st);
            let word = args[i];
            let plain = !text::starts_with(word, "--"@);
            let address = text::starts_with(word, "https://"@) || text::starts_with(
                word,
                "http://"@,
            );
            &&& word == "--oauth"@ ==> out == servers::scanned(
                args,
                i + 1,
                AddView { auth: "oauth"@, ..st },
            )
            &&& word == "--no-network"@ ==> out == servers::scanned(
                args,
                i + 1,
                AddView { network: Some(false), ..st },
            )
            &&& word == "--parallel"@ ==> out == servers::scanned(
                args,
                i + 1,
                AddView { parallel_calls: true, ..st },
            )
            &&& plain && address ==> out == servers::scanned(
                args,
                i + 1,
                AddView { url: word, ..st },
            )
            &&& plain && !address && st.id is None ==> out == servers::scanned(
                args,
                i + 1,
                AddView { id: Some(word), ..st },
            )
            &&& plain && !address && st.id is Some ==> out == servers::scanned(
                args,
                i + 1,
                AddView { command: st.command.push(word), ..st },
            )
        }),
{
    lemma_options();
    let word = args[i];
    if !text::starts_with(word, "--"@) {
        lemma_no_option(word);
    }
}

proof fn lemma_no_option(word: Seq<char>)
    requires
        !text::starts_with(word, "--"@),
    ensures
        word != "--"@,
        servers::option_of(word) == (word, None::<Seq<char>>),
        !servers::takes_value(word),
        !servers::stands_alone(word),
{
    lemma_options();
    reveal_strlit("--key");
    reveal_strlit("--url");
    reveal_strlit("--bearer");
    reveal_strlit("--trust");
    reveal_strlit("--env");
    reveal_strlit("--allow-tool");
    reveal_strlit("--deny-tool");
    reveal_strlit("--oauth");
    reveal_strlit("--no-network");
    reveal_strlit("--parallel");
    text::lemma_find_char_from(word, '=', 0);
    if let Some(i) = text::find_char(word, '=') {
        if text::starts_with(word.take(i), "--"@) {
            assert(word.subrange(0, 2) =~= word.take(i).subrange(0, 2));
        }
    }
    if word.len() >= 2 && word[0] == '-' && word[1] == '-' {
        assert(word.subrange(0, 2) =~= "--"@);
    }
}

/// What stands behind a double dash goes into the command word for word, whatever it looks
/// like, and changes nothing else.
pub proof fn law_double_dash_ends_the_options(
    head: Seq<Seq<char>>,
    tail: Seq<Seq<char>>,
    i: int,
    st: AddView,
)
    requires
        0 <= i <= head.len(),
        !head.contains("--"@),
    ensures
        servers::scanned(head + seq!["--"@] + tail, i, st) == match servers::scanned(head, i, st) {
            Ok(out) => Ok::<AddView, Seq<char>>(
                AddView { command: out.command + tail, ..out },
            ),
            Err(e) => Err(e),
        },
    decreases head.len() - i,
{
    let args = head + seq!["--"@] + tail;
    reveal_strlit("--");
    assert("--"@.subrange(0, 2) =~= "--"@);
    if i == head.len() {
        assert(args[i] == "--"@);
        assert(args.skip(i + 1) =~= tail);
    } else {
        assert(args[i] == head[i]);
        assert(head.contains(head[i]));
        let word = head[i];
        let (flag, joined) = servers::option_of(word);
        if i + 1 < head.len() {
            assert(args[i + 1] == head[i + 1]);
        } else {
            assert(args[i + 1] == "--"@);
        }
        assert(servers::value_of(args, i, flag, joined) == servers::value_of(head, i, flag, joined));
        match servers::value_of(head, i, flag, joined) {
            Ok((v, at)) => {
                if let Ok(next) = servers::with_value(st, flag, v) {
                    law_double_dash_ends_the_options(head, tail, i + 1, next);
                    if at != i {
                        law_double_dash_ends_the_options(head, tail, i + 2, next);
                    }
                }
            },
            Err(_) => {},
        }
        law_double_dash_ends_the_options(head, tail, i + 1, servers::switched(st, flag));
        law_double_dash_ends_the_options(head, tail, i + 1, servers::with_word(st, word));
    }
}

/// The credentials that a server takes, by their name: its key is sent as a token where it
/// takes one, and nowhere else.
pub proof fn law_credentials_by_name(auth: Seq<char>, key: Option<Seq<char>>, out: RemoteAuth)
    requires
        servers::auth_named(auth, key, out),
    ensures
        auth == "oauth"@ ==> out is OAuth,
        auth == "none"@ ==> out is Anonymous,
        auth == "bearer"@ && key is Some ==> (out matches RemoteAuth::Bearer(t) && t@ == key->0),
        out is Bearer ==> auth == "bearer"@,
        auth.len() == 0 ==> out is Auto,
{
    reveal_strlit("oauth");
    reveal_strlit("none");
    reveal_strlit("bearer");
    assert("oauth"@.len() == 5 && "none"@.len() == 4 && "bearer"@.len() == 6);
}

/// The directory of the state of a workspace is taken where it was just made and marked, and
/// where its marker is this workspace's; with any other marker it is refused. While there is
/// no marker it is waited for.
pub proof fn law_own_state_is_taken(choice: StateChoice, event: StateEvent)
    ensures
        event is Written ==> choice.next(event) is Accept,
        event is Created ==> choice.next(event) is WriteMarker,
        event is Present ==> choice.next(event) is ReadMarker,
        event is WriteFailed ==> choice.next(event) is Withdraw,
        event is CreateFailed || event is ReadFailed ==> choice.next(event) is Fail,
        event matches StateEvent::Read(s) ==> if s@ == choice.identity@ {
            choice.next(event) is Accept
        } else {
            choice.next(event) is Fail
        },
        event is Missing && choice.attempts > 1 ==> choice.next(event) == ActionView::Wait(20),
        event is Missing && choice.attempts <= 1 ==> choice.next(event) is Fail,
{
}

/// The directory of the program is the one that the environment names, and one below the
/// user's home where it names none.
pub proof fn law_home_is_named_first(var: Option<Seq<char>>, user: Option<Seq<char>>)
    ensures
        var matches Some(h) ==> workspace::home_of(var, user) == Ok::<Seq<char>, Seq<char>>(h),
        var is None && user is Some ==> workspace::home_of(var, user) == Ok::<Seq<char>, Seq<char>>(
            paths::joined_path(user->0, ".medha"@),
        ),
        var is None && user is None ==> workspace::home_of(var, user) is Err,
{
}

/// A path and the name that is made of it have the same characters, but for a hyphen in the
/// place of each separator.
pub proof fn law_readable_names(path: Seq<char>, i: int)
    requires
        !text::starts_with(path, "\\\\?\\"@),
        0 <= i < path.len(),
    ensures
        workspace::readable(path).len() == path.len(),
        path[i] == '/' || path[i] == '\\' || path[i] == ':' ==> workspace::readable(path)[i]
            == '-',
        !(path[i] == '/' || path[i] == '\\' || path[i] == ':') ==> workspace::readable(path)[i]
            == path[i],
{
    reveal_strlit("\\\\?\\");
    reveal_strlit("\\\\?\\UNC\\");
    if text::starts_with(path, "\\\\?\\UNC\\"@) {
        assert(path.subrange(0, 4) =~= path.subrange(0, 8).subrange(0, 4));
        assert(path.subrange(0, 4) =~= "\\\\?\\"@);
    }
}

/// A model can be saved under a name of lower-case words that no other model has, and under
/// no other.
pub proof fn law_new_models_need_a_free_name(c: Config, name: Seq<char>, i: int)
    ensures
        c.name_fault(name) is None <==> models::kebab(name) && !c.models@.dom().contains(name),
        name.len() == 0 ==> c.name_fault(name) is Some,
        0 <= i < name.len() && ('A' <= name[i] <= 'Z' || name[i] == ' ' || name[i] == '_')
            ==> c.name_fault(name) is Some,
        name.len() > 0 && (name[0] == '-' || name.last() == '-') ==> c.name_fault(name) is Some,
        models::kebab(name) && c.models@.dom().contains(name) ==> (c.name_fault(name) matches Some(
            e,
        ) && text::contains(e, name)),
{
    if 0 <= i < name.len() && ('A' <= name[i] <= 'Z' || name[i] == ' ' || name[i] == '_') {
        assert(!models::word_char(name[i]) && name[i] != '-');
    }
    if models::kebab(name) && c.models@.dom().contains(name) {
        let head = "a model profile named '"@;
        let tail = "' already exists; choose a different name"@;
        let e = head + name + tail;
        assert(e.subrange(head.len() as int, (head.len() + name.len()) as int) =~= name);
        assert(text::occurs(e, name, head.len() as int));
    }
}

/// An older connection is saved as a model that was not there, beside all the others, and is
/// the default where there was none; an incomplete one, or one that is saved already, is not
/// saved again.
pub proof fn law_older_connections_are_saved_once(
    before: Config,
    after: Config,
    legacy: providers::ProviderView,
    other: Seq<char>,
    i: int,
)
    requires
        models::migrated(before, after, legacy),
    ensures
        legacy.base_url.len() == 0 || legacy.model.len() == 0 ==> after.models == before.models,
        0 <= i < before.models.rows@.len() && before.models.rows@[i].1@ == legacy ==> after.models
            == before.models && after.default_model == before.default_model,
        before.models@.dom().contains(other) ==> after.models@.dom().contains(other)
            && after.models@[other] == before.models@[other],
        before.default_model is Some ==> text::view_of(after.default_model) == text::view_of(
            before.default_model,
        ),
        legacy.base_url.len() > 0 && legacy.model.len() > 0 && (forall|j: int|
            0 <= j < before.models.rows@.len() ==> (#[trigger] before.models.rows@[j]).1@ != legacy)
            ==> exists|name: Seq<char>| #[trigger]
            after.models@.dom().contains(name) && !before.models@.dom().contains(name)
                && after.models@[name]@ == legacy && (before.default_model is None
                ==> text::view_of(after.default_model) == Some(name)),
{
    if legacy.base_url.len() == 0 || legacy.model.len() == 0 || (exists|j: int|
        0 <= j < before.models.rows@.len() && (#[trigger] before.models.rows@[j]).1@ == legacy) {
    } else {
        let name = choose|name: Seq<char>| {
            &&& #[trigger] models::first_free(before.models@, models::suggested(legacy.model), name)
            &&& after.models@.dom() == before.models@.dom().insert(name)
            &&& after.models@[name]@ == legacy
            &&& forall|k: Seq<char>|
                #[trigger] before.models@.dom().contains(k) && k != name ==> after.models@[k]
                    == before.models@[k]
            &&& text::view_of(after.default_model) == match before.default_model {
                Some(d) => Some(d@),
                None => Some(name),
            }
        };
        assert(after.models@.dom().contains(name));
        assert(!before.models@.dom().contains(name));
    }
}

/// The engine that is configured by its name is used, and the one without a key where none is
/// configured or the name is unknown.
pub proof fn law_configured_engine_is_used(c: Config, p: SearchProvider)
    ensures
        text::view_of(c.search.provider) == Some(p.id()) ==> c.engine() == p,
        c.search.provider is None ==> c.engine() == SearchProvider::DuckDuckGo,
        (c.search.provider matches Some(id) ==> id@ != SearchProvider::Tavily.id() && id@
            != SearchProvider::Brave.id() && id@ != SearchProvider::Searxng.id()) ==> c.engine()
            == SearchProvider::DuckDuckGo,
{
    reveal_strlit("duckduckgo");
    reveal_strlit("tavily");
    reveal_strlit("brave");
    reveal_strlit("searxng");
    assert("duckduckgo"@.len() == 10 && "tavily"@.len() == 6 && "brave"@.len() == 5
        && "searxng"@.len() == 7);
}

/// The words of a command start from a server that the workspace trusts and that says nothing
/// else; what they made of it is what is added, and it is switched on.
pub proof fn law_added_servers_hold_what_was_said(
    out: servers::ParsedMcpAdd,
    st: AddView,
    id: Seq<char>,
)
    requires
        servers::made_of(out, st, id),
    ensures
        servers::nothing_yet().trust == "workspace"@,
        servers::nothing_yet().command.len() == 0,
        servers::nothing_yet().url.len() == 0,
        servers::nothing_yet().key is None,
        servers::nothing_yet().network is None,
        !servers::nothing_yet().parallel_calls,
        !out.server.disabled,
        out.id@ == id,
        text::views(out.server.command@) == st.command,
        out.server.url@ == st.url,
        out.server.trust@ == st.trust,
        text::views(out.server.allow_tools@) == st.allow_tools,
        text::views(out.server.deny_tools@) == st.deny_tools,
        out.server.network == st.network,
{
}

} // verus!

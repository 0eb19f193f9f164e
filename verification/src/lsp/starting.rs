//! What is kept to when servers are found, started, asked and stopped.

use vstd::prelude::*;
use crate::config::laws::says;
use crate::lsp::adapters;
use crate::lsp::adapters::AdapterView;
use crate::lsp::delta::{DiagnosticBaseline, DiagnosticBaselineEntry};
use crate::lsp::environment;
use crate::lsp::laws;
use crate::lsp::manager;
use crate::lsp::manager::{EntryView, Limits, LspManager, StateView};
use crate::lsp::queries;
use crate::lsp::queries::Asked;
use crate::lsp::reports;
use crate::lsp::reports::{DiagnosticReport, QueryReport};
use crate::lsp::types::Diagnostic;
use crate::paths;
use crate::ranking;
use crate::text;

verus! {

/// The wait before a restart begins with the configured one, doubles with each of the first
/// six failures, and never exceeds a minute.
pub proof fn law_restarts_wait_twice_as_long(base: u64, failures: u32)
    ensures
        manager::backoff(base, 0) == if base > 60_000 {
            60_000nat
        } else {
            base as nat
        },
        failures < 6 ==> manager::backoff(base, (failures + 1) as u32) == if 2 * manager::backoff(
            base,
            failures,
        ) > 60_000 {
            60_000nat
        } else {
            2 * manager::backoff(base, failures)
        },
        failures >= 6 ==> manager::backoff(base, failures) == manager::backoff(base, 6),
{
    assert(base * 1 == base && base * 2 == 2 * base && base * 4 == 4 * base && base * 8 == 8 * base
        && base * 16 == 16 * base && base * 32 == 32 * base && base * 64 == 64 * base);
}

/// The entry is the server of that root.
pub open spec fn stands_for(e: EntryView, server: Seq<char>, root: Seq<char>) -> bool {
    e.server == server && paths::same_place(e.root, root)
}

/// There is no such server yet.
pub open spec fn is_new(v: Seq<EntryView>, server: Seq<char>, root: Seq<char>) -> bool {
    forall|i: int| 0 <= i < v.len() ==> !stands_for(#[trigger] v[i], server, root)
}

pub proof fn lemma_entry_at(v: Seq<EntryView>, server: Seq<char>, root: Seq<char>, from: int)
    requires
        0 <= from <= v.len(),
        forall|j: int| 0 <= j < from ==> !stands_for(#[trigger] v[j], server, root),
    ensures
        match manager::entry_at(v, server, root, from) {
            Some(i) => 0 <= i < v.len() && stands_for(v[i], server, root) && forall|j: int|
                0 <= j < i ==> !stands_for(#[trigger] v[j], server, root),
            None => is_new(v, server, root),
        },
    decreases v.len() - from,
{
    if from < v.len() && !stands_for(v[from], server, root) {
        lemma_entry_at(v, server, root, from + 1);
    }
}

/// A server that is asked for is started where there is none of that root and there is room;
/// one that is there is used again, and nothing else changes. A failed one is started anew
/// once its wait is over, as long as it has attempts left, and its failures are counted.
pub proof fn law_servers_are_started_when_asked_for(
    v: Seq<EntryView>,
    limits: Limits,
    server: Seq<char>,
    root: Seq<char>,
    now: u64,
    i: int,
)
    requires
        manager::separate(v),
    ensures
        ({
            let a = manager::admission(v, limits, server, root, now);
            let e = v[i];
            let failed = e.state is Crashed || e.state is Broken;
            let over = now - e.created_at >= manager::backoff(limits.restart_backoff, e.failures)
                && now >= e.created_at;
            &&& is_new(v, server, root) && v.len() < limits.max_servers ==> {
                &&& a.fresh
                &&& !a.full
                &&& a.evicted is None
                &&& a.retired is None
                &&& a.clients.drop_last() == v
                &&& stands_for(a.clients.last(), server, root)
                &&& a.clients.last().state is Starting
                &&& a.clients.last().failures == 0
                &&& a.clients.last().created_at == now
            }
            &&& 0 <= i < v.len() && stands_for(e, server, root) && !failed ==> {
                &&& !a.fresh
                &&& !a.full
                &&& a.retired is None
                &&& a.evicted is None
                &&& a.clients.len() == v.len()
                &&& a.clients[i].state == e.state
                &&& a.clients[i].last_used == now
                &&& forall|j: int| 0 <= j < v.len() && j != i ==> a.clients[j] == #[trigger] v[j]
            }
            &&& 0 <= i < v.len() && stands_for(e, server, root) && failed && over && e.failures
                < limits.max_restart_attempts && v.len() <= limits.max_servers ==> {
                &&& a.fresh
                &&& a.retired == Some(e)
                &&& a.clients.last().state is Starting
                &&& a.clients.last().failures == e.failures + 1
            }
        }),
{
    lemma_entry_at(v, server, root, 0);
    if 0 <= i < v.len() && stands_for(v[i], server, root) {
        if let Some(k) = manager::entry_at(v, server, root, 0) {
            if k < i {
                assert(v[k].server == v[i].server && paths::same_place(v[k].root, v[i].root));
            }
            assert(k == i);
        } else {
            assert(!stands_for(v[i], server, root));
        }
    }
    let a = manager::admission(v, limits, server, root, now);
    if is_new(v, server, root) && v.len() < limits.max_servers {
        if let Some(k) = manager::entry_at(v, server, root, 0) {
            assert(stands_for(v[k], server, root));
        }
        assert(v.push(manager::new_entry(server, root, now, 0)).drop_last() =~= v);
    }
}

proof fn lemma_filtered<T>(v: Seq<T>, keep: spec_fn(T) -> bool, x: T)
    ensures
        v.filter(keep).contains(x) <==> v.contains(x) && keep(x),
    decreases v.len(),
{
    reveal(Seq::filter);
    if v.len() > 0 {
        let head = v.drop_last();
        lemma_filtered(head, keep, x);
        let was = head.filter(keep);
        let now = v.filter(keep);
        if v.contains(x) {
            let k = choose|k: int| 0 <= k < v.len() && v[k] == x;
            if k < head.len() {
                assert(head[k] == x);
            }
        }
        if head.contains(x) {
            let k = choose|k: int| 0 <= k < head.len() && head[k] == x;
            assert(v[k] == x);
        }
        if was.contains(x) {
            let k = choose|k: int| 0 <= k < was.len() && was[k] == x;
            assert(now[k] == x);
        }
        if keep(v.last()) {
            assert(now[was.len() as int] == v.last());
            assert(v[v.len() - 1] == v.last());
            if now.contains(x) {
                let k = choose|k: int| 0 <= k < now.len() && now[k] == x;
                if k < was.len() {
                    assert(was[k] == x);
                }
            }
        }
    }
}

/// A server is stopped once it was not used for as long as it may be, and no sooner. One
/// that still starts, or that never ran, is left.
pub proof fn law_unused_servers_are_stopped(
    v: Seq<EntryView>,
    timeout: u64,
    now: u64,
    e: EntryView,
)
    requires
        v.contains(e),
    ensures
        ({
            let unused = (e.state is Ready || e.state is Crashed) && (now >= e.last_used && now
                - e.last_used >= timeout || timeout == 0);
            &&& v.filter(manager::idlers(timeout, now)).contains(e) <==> unused
            &&& v.filter(manager::workers(timeout, now)).contains(e) <==> !unused
        }),
{
    lemma_filtered(v, manager::idlers(timeout, now), e);
    lemma_filtered(v, manager::workers(timeout, now), e);
}

/// The status of a server tells which it is, its state, and why it is not there.
pub proof fn law_states_are_told(e: EntryView, now: u64)
    ensures
        ({
            let s = manager::status_of(e, now);
            &&& s.server == e.server
            &&& s.root == e.root
            &&& s.state is Ready <==> e.state is Ready
            &&& s.state is Starting <==> e.state is Starting
            &&& s.state is Crashed <==> e.state is Crashed
            &&& s.state is Broken <==> e.state is Broken
            &&& e.state matches StateView::Broken(m) ==> s.detail == Some(m)
            &&& s.detail is Some <==> e.state is Broken || e.state is Crashed
            &&& now >= e.last_used ==> s.idle_ms == now - e.last_used
        }),
{
}

/// The server serves the file by its extension.
pub open spec fn fits(a: AdapterView, path: Seq<char>) -> bool {
    paths::extension(path) matches Some(e) && exists|i: int|
        0 <= i < a.languages.len() && (#[trigger] a.languages[i]).0 == e
}

proof fn lemma_language_from(v: Seq<(Seq<char>, Seq<char>)>, extension: Seq<char>, from: int)
    requires
        0 <= from <= v.len(),
        forall|j: int| 0 <= j < from ==> (#[trigger] v[j]).0 != extension,
    ensures
        adapters::language_from(v, extension, from) is Some <==> exists|i: int|
            0 <= i < v.len() && (#[trigger] v[i]).0 == extension,
    decreases v.len() - from,
{
    if from < v.len() && v[from].0 != extension {
        lemma_language_from(v, extension, from + 1);
    }
}

/// A file is served by every configured server that has its extension, each at the root of
/// the file's project as that server marks it, and by no other.
pub proof fn law_fitting_servers_serve(
    servers: Seq<AdapterView>,
    path: Seq<char>,
    is_dir: bool,
    workspace: Seq<char>,
    files: Seq<Seq<char>>,
    a: AdapterView,
    root: Seq<char>,
)
    ensures
        manager::matching(servers, path, is_dir, workspace, files).contains((a, root))
            <==> servers.contains(a) && fits(a, path) && root == environment::root_of(
            path,
            is_dir,
            workspace,
            a.root_markers,
            files,
        ),
    decreases servers.len(),
{
    if let Some(e) = paths::extension(path) {
        lemma_language_from(a.languages, e, 0);
    }
    if servers.len() > 0 {
        let head = servers.drop_last();
        law_fitting_servers_serve(head, path, is_dir, workspace, files, a, root);
        let was = manager::matching(head, path, is_dir, workspace, files);
        let now = manager::matching(servers, path, is_dir, workspace, files);
        let x = (a, root);
        if servers.contains(a) {
            let k = choose|k: int| 0 <= k < servers.len() && servers[k] == a;
            if k < head.len() {
                assert(head[k] == a);
            }
        }
        if head.contains(a) {
            let k = choose|k: int| 0 <= k < head.len() && head[k] == a;
            assert(servers[k] == a);
        }
        if was.contains(x) {
            let k = choose|k: int| 0 <= k < was.len() && was[k] == x;
            assert(now[k] == x);
        }
        assert(servers[servers.len() - 1] == servers.last());
        if adapters::language_for(servers.last(), path) is Some {
            assert(now[was.len() as int].0 == servers.last());
            if now.contains(x) {
                let k = choose|k: int| 0 <= k < now.len() && now[k] == x;
                if k < was.len() {
                    assert(was[k] == x);
                }
            }
        }
    }
}

/// What a start is about: the server that is named, the first of that name; without a name
/// the one that takes an approval, where there is one such, else the only one. Where several
/// remain, none is picked.
pub proof fn law_starts_are_not_guessed(
    v: Seq<(AdapterView, Seq<char>)>,
    id: Seq<char>,
    i: int,
)
    ensures
        0 <= i < v.len() && v[i].0.id == id && (forall|j: int|
            0 <= j < i ==> (#[trigger] v[j]).0.id != id) ==> manager::start_choice(v, Some(id))
            == Some(v[i]),
        (forall|j: int| 0 <= j < v.len() ==> (#[trigger] v[j]).0.id != id)
            ==> manager::start_choice(v, Some(id)) is None,
        0 <= i < v.len() && v[i].0.requires_approval && (forall|j: int|
            0 <= j < v.len() && j != i ==> !(#[trigger] v[j]).0.requires_approval)
            ==> manager::start_choice(v, None) == Some(v[i]),
        v.len() == 1 ==> manager::start_choice(v, None) == Some(v[0]),
        v.len() > 1 && (forall|j: int| 0 <= j < v.len() ==> !(#[trigger] v[j]).0.requires_approval)
            ==> manager::start_choice(v, None) is None,
{
    lemma_server_from(v, id, 0);
    if 0 <= i < v.len() && v[i].0.requires_approval && (forall|j: int|
        0 <= j < v.len() && j != i ==> !(#[trigger] v[j]).0.requires_approval) {
        lemma_only_gated(v, i);
    }
    if forall|j: int| 0 <= j < v.len() ==> !(#[trigger] v[j]).0.requires_approval {
        lemma_none_gated(v);
    }
    if v.len() == 1 && v[0].0.requires_approval {
        lemma_only_gated(v, 0);
    }
}

proof fn lemma_server_from(v: Seq<(AdapterView, Seq<char>)>, id: Seq<char>, from: int)
    requires
        0 <= from <= v.len(),
        forall|j: int| 0 <= j < from ==> (#[trigger] v[j]).0.id != id,
    ensures
        match manager::server_from(v, id, from) {
            Some(x) => exists|i: int|
                0 <= i < v.len() && (#[trigger] v[i]) == x && x.0.id == id && forall|j: int|
                    0 <= j < i ==> (#[trigger] v[j]).0.id != id,
            None => forall|j: int| 0 <= j < v.len() ==> (#[trigger] v[j]).0.id != id,
        },
    decreases v.len() - from,
{
    if from < v.len() && v[from].0.id != id {
        lemma_server_from(v, id, from + 1);
    }
}

proof fn lemma_none_gated(v: Seq<(AdapterView, Seq<char>)>)
    requires
        forall|j: int| 0 <= j < v.len() ==> !(#[trigger] v[j]).0.requires_approval,
    ensures
        v.filter(manager::gated()).len() == 0,
    decreases v.len(),
{
    reveal(Seq::filter);
    if v.len() > 0 {
        let head = v.drop_last();
        assert(forall|j: int| 0 <= j < head.len() ==> head[j] == v[j]);
        lemma_none_gated(head);
        assert(!v[v.len() - 1].0.requires_approval);
    }
}

proof fn lemma_only_gated(v: Seq<(AdapterView, Seq<char>)>, i: int)
    requires
        0 <= i < v.len(),
        v[i].0.requires_approval,
        forall|j: int| 0 <= j < v.len() && j != i ==> !(#[trigger] v[j]).0.requires_approval,
    ensures
        v.filter(manager::gated()) == seq![v[i]],
    decreases v.len(),
{
    reveal(Seq::filter);
    let head = v.drop_last();
    assert(forall|j: int| 0 <= j < head.len() ==> head[j] == v[j]);
    if i == v.len() - 1 {
        lemma_none_gated(head);
        assert(head.filter(manager::gated()) =~= seq![]);
        assert(v.filter(manager::gated()) =~= seq![v[i]]);
    } else {
        lemma_only_gated(head, i);
        assert(!v[v.len() - 1].0.requires_approval);
    }
}

/// The path of the first `n` steps.
pub open spec fn above(absolute: bool, dir: Seq<Seq<char>>, n: int) -> Seq<char> {
    paths::path_text(absolute, dir.take(n))
}

/// A directory between a file and the workspace that no marker is in.
pub open spec fn passed_by(
    d: Seq<char>,
    workspace: Seq<char>,
    markers: Seq<Seq<char>>,
    files: Seq<Seq<char>>,
) -> bool {
    paths::below(d, workspace) && !paths::same_place(d, workspace) && !environment::marked(
        d,
        markers,
        files,
    )
}

/// The root of a project is the nearest marked directory upwards from the file.
pub proof fn law_nearest_marker_is_the_root(
    absolute: bool,
    dir: Seq<Seq<char>>,
    workspace: Seq<char>,
    markers: Seq<Seq<char>>,
    files: Seq<Seq<char>>,
    n: int,
)
    requires
        0 <= n <= dir.len(),
        forall|m: int|
            n < m <= dir.len() ==> passed_by(#[trigger] above(absolute, dir, m), workspace, markers, files),
        paths::below(above(absolute, dir, n), workspace),
        !paths::same_place(above(absolute, dir, n), workspace),
        environment::marked(above(absolute, dir, n), markers, files),
    ensures
        environment::root_from(absolute, dir, workspace, markers, files) == above(absolute, dir, n),
    decreases dir.len(),
{
    assert(dir.take(dir.len() as int) =~= dir);
    if n < dir.len() {
        assert(passed_by(above(absolute, dir, dir.len() as int), workspace, markers, files));
        let up = dir.drop_last();
        assert forall|m: int| 0 <= m <= up.len() implies #[trigger] above(absolute, up, m) == above(
            absolute,
            dir,
            m,
        ) by {
            assert(up.take(m) =~= dir.take(m));
        }
        law_nearest_marker_is_the_root(absolute, up, workspace, markers, files, n);
    }
}

/// The root of a project depends on nothing but the places that are looked at: where those
/// hold the same files, it is the same.
pub proof fn law_every_marker_is_looked_for(
    absolute: bool,
    dir: Seq<Seq<char>>,
    workspace: Seq<char>,
    markers: Seq<Seq<char>>,
    files: Seq<Seq<char>>,
    others: Seq<Seq<char>>,
)
    requires
        forall|p: Seq<char>| #[trigger]
            environment::probes(absolute, dir, workspace, markers).contains(p) ==> (files.contains(p)
                <==> others.contains(p)),
    ensures
        environment::root_from(absolute, dir, workspace, markers, files) == environment::root_from(
            absolute,
            dir,
            workspace,
            markers,
            others,
        ),
    decreases dir.len(),
{
    let d = paths::path_text(absolute, dir);
    if paths::below(d, workspace) && !paths::same_place(d, workspace) {
        let all = environment::probes(absolute, dir, workspace, markers);
        let here = markers.map_values(|m: Seq<char>| paths::joined_path(d, m));
        assert forall|i: int| 0 <= i < markers.len() implies (files.contains(
            #[trigger] paths::joined_path(d, markers[i]),
        ) <==> others.contains(paths::joined_path(d, markers[i]))) by {
            assert(here[i] == paths::joined_path(d, markers[i]));
            assert(all[i] == here[i]);
            assert(all.contains(paths::joined_path(d, markers[i])));
        }
        assert(environment::marked(d, markers, files) == environment::marked(d, markers, others));
        if dir.len() > 0 {
            let up = environment::probes(absolute, dir.drop_last(), workspace, markers);
            assert forall|p: Seq<char>| #[trigger] up.contains(p) implies (files.contains(p)
                <==> others.contains(p)) by {
                let k = choose|k: int| 0 <= k < up.len() && up[k] == p;
                assert(all[here.len() + k] == p);
                assert(all.contains(p));
            }
            law_every_marker_is_looked_for(
                absolute,
                dir.drop_last(),
                workspace,
                markers,
                files,
                others,
            );
        }
    }
}

/// A program that is named by a path is sought from the root where the path is relative;
/// else the name is taken as it is.
pub proof fn law_programs_are_sought_from_the_root(command: Seq<char>, root: Seq<char>)
    ensures
        paths::absolute(command) ==> environment::program_of(command, root) == command,
        paths::steps(command).len() <= 1 ==> environment::program_of(command, root) == command,
        !paths::absolute(command) && paths::steps(command).len() > 1 ==> environment::program_of(
            command,
            root,
        ) == paths::joined_path(root, command),
{
}

proof fn lemma_chosen_holds(
    names: Seq<Seq<char>>,
    vars: Seq<(Seq<char>, Seq<char>)>,
    name: Seq<char>,
)
    requires
        names.contains(name),
        environment::variable(vars, name, 0) is Some,
    ensures
        environment::chosen(names, vars).contains((name, environment::variable(vars, name, 0)->0)),
    decreases names.len(),
{
    let k = choose|k: int| 0 <= k < names.len() && names[k] == name;
    let head = names.drop_last();
    let was = environment::chosen(head, vars);
    let now = environment::chosen(names, vars);
    let x = (name, environment::variable(vars, name, 0)->0);
    if k < names.len() - 1 {
        assert(head[k] == name);
        lemma_chosen_holds(head, vars, name);
        let j = choose|j: int| 0 <= j < was.len() && was[j] == x;
        assert(now[j] == x);
    } else {
        assert(now[was.len() as int] == x);
    }
}

/// A language server sees each allowed variable that is set as it is set, but for the search
/// path, which begins with the servers that the program installed.
pub proof fn law_servers_see_what_they_need(
    vars: Seq<(Seq<char>, Seq<char>)>,
    name: Seq<char>,
)
    requires
        environment::allowed().contains(name),
        environment::variable(vars, name, 0) is Some,
        name != "PATH"@,
    ensures
        environment::server_environment(vars).contains(
            (name, environment::variable(vars, name, 0)->0),
        ),
{
    lemma_chosen_holds(environment::allowed(), vars, name);
    let found = environment::chosen(environment::allowed(), vars);
    let x = (name, environment::variable(vars, name, 0)->0);
    lemma_filtered(found, environment::not_path(), x);
    if environment::bin_dirs(vars).len() > 0 {
        let kept = found.filter(environment::not_path());
        let k = choose|k: int| 0 <= k < kept.len() && kept[k] == x;
        assert(environment::server_environment(vars)[k] == x);
    }
}

proof fn lemma_mapped(names: Seq<Seq<char>>, i: int, x: (Seq<char>, Seq<char>))
    requires
        0 <= i < names.len(),
        adapters::common_language(text::lowered(text::trim(names[i]))).contains(x),
    ensures
        adapters::mapped(names).contains(x),
    decreases names.len(),
{
    let head = names.drop_last();
    let was = adapters::mapped(head);
    let new = adapters::common_language(text::lowered(text::trim(names.last())));
    let now = adapters::mapped(names);
    if i < names.len() - 1 {
        assert(head[i] == names[i]);
        lemma_mapped(head, i, x);
        let k = choose|k: int| 0 <= k < was.len() && was[k] == x;
        assert(now[k] == x);
    } else {
        let k = choose|k: int| 0 <= k < new.len() && new[k] == x;
        assert(now[was.len() + k] == x);
    }
}

/// Each language that is named is served under the extensions that are usual for it.
pub proof fn law_named_languages_are_served(names: Seq<Seq<char>>, i: int)
    requires
        0 <= i < names.len(),
    ensures
        ({
            let all = adapters::mapped(names);
            &&& says(names[i], "rust"@) ==> all.contains(("rs"@, "rust"@))
            &&& says(names[i], "typescript"@) ==> all.contains(("ts"@, "typescript"@))
                && all.contains(("tsx"@, "typescriptreact"@))
            &&& says(names[i], "javascript"@) ==> all.contains(("js"@, "javascript"@))
                && all.contains(("jsx"@, "javascriptreact"@)) && all.contains(
                ("mjs"@, "javascript"@),
            ) && all.contains(("cjs"@, "javascript"@))
            &&& says(names[i], "python"@) ==> all.contains(("py"@, "python"@))
            &&& says(names[i], "go"@) ==> all.contains(("go"@, "go"@))
            &&& says(names[i], "c"@) ==> all.contains(("c"@, "c"@)) && all.contains(("h"@, "c"@))
            &&& says(names[i], "cpp"@) || says(names[i], "c++"@) ==> all.contains(("cpp"@, "cpp"@))
                && all.contains(("cc"@, "cpp"@)) && all.contains(("cxx"@, "cpp"@)) && all.contains(
                ("hpp"@, "cpp"@),
            ) && all.contains(("hh"@, "cpp"@))
        }),
{
    let w = text::lowered(text::trim(names[i]));
    let v = adapters::common_language(w);
    reveal_strlit("rust");
    reveal_strlit("typescript");
    reveal_strlit("javascript");
    reveal_strlit("python");
    reveal_strlit("go");
    reveal_strlit("c");
    reveal_strlit("cpp");
    reveal_strlit("c++");
    assert("rust"@.len() == 4 && "typescript"@.len() == 10 && "javascript"@.len() == 10
        && "python"@.len() == 6 && "go"@.len() == 2 && "c"@.len() == 1 && "cpp"@.len() == 3
        && "c++"@.len() == 3 && "typescript"@[0] == 't' && "javascript"@[0] == 'j');
    assert forall|k: int| 0 <= k < v.len() implies adapters::mapped(names).contains(
        #[trigger] v[k],
    ) by {
        assert(v.contains(v[k]));
        lemma_mapped(names, i, v[k]);
    }
    if w == "rust"@ || w == "python"@ || w == "go"@ {
        assert(v[0] == v[0]);
    } else if w == "typescript"@ {
        assert(v[0] == ("ts"@, "typescript"@) && v[1] == ("tsx"@, "typescriptreact"@));
    } else if w == "javascript"@ {
        assert(v[0] == ("js"@, "javascript"@) && v[1] == ("jsx"@, "javascriptreact"@) && v[2] == (
            "mjs"@,
            "javascript"@,
        ) && v[3] == ("cjs"@, "javascript"@));
    } else if w == "c"@ {
        assert(v[0] == ("c"@, "c"@) && v[1] == ("h"@, "c"@));
    } else if w == "cpp"@ || w == "c++"@ {
        assert(v[0] == ("cc"@, "cpp"@) && v[1] == ("cpp"@, "cpp"@) && v[2] == ("cxx"@, "cpp"@)
            && v[3] == ("hpp"@, "cpp"@) && v[4] == ("hh"@, "cpp"@));
    }
}

proof fn lemma_arranged<T>(v: Seq<Asked<T>>, a: Asked<T>)
    ensures
        queries::arranged(v).contains(a) <==> v.contains(a),
{
    lemma_filtered(v, queries::absent(), a);
    lemma_filtered(v, queries::present(), a);
    let x = v.filter(queries::absent());
    let y = v.filter(queries::present());
    let all = queries::arranged(v);
    if x.contains(a) {
        let k = choose|k: int| 0 <= k < x.len() && x[k] == a;
        assert(all[k] == a);
    }
    if y.contains(a) {
        let k = choose|k: int| 0 <= k < y.len() && y[k] == a;
        assert(all[x.len() + k] == a);
    }
    if all.contains(a) {
        let k = choose|k: int| 0 <= k < all.len() && all[k] == a;
        if k < x.len() {
            assert(x[k] == a);
        } else {
            assert(y[k - x.len()] == a);
        }
    }
}

/// Every server that answers a query is heard: what it found is in the merged answer, as
/// itself or as one like it, shown or beyond the limit.
pub proof fn law_every_server_is_heard<T: ranking::Ranked>(
    m: LspManager,
    path: Seq<char>,
    answers: Seq<Asked<QueryReport<T>>>,
    apart: bool,
    out: QueryReport<T>,
    a: QueryReport<T>,
    x: T,
)
    requires
        queries::settles(m, path, answers, apart, out),
        answers.contains(Asked::Answered(a)),
        a is Ready,
        out is Ready,
        a->Ready_items@.contains(x) || a->Ready_overflow@.contains(x),
    ensures
        (exists|k: int|
            0 <= k < out->Ready_items@.len() && x.alike(#[trigger] &out->Ready_items@[k])) || (
        exists|k: int|
            0 <= k < out->Ready_overflow@.len() && x.alike(#[trigger] &out->Ready_overflow@[k])),
{
    let r = choose|r: Seq<QueryReport<T>>|
        #[trigger] queries::stand_for(r, queries::arranged(answers)) && reports::reports(
            out,
            reports::gathered(r, apart),
            ranking::settled(reports::gathered(r, apart).items),
            m.workspace@,
            m.config.max_results as nat,
        );
    let all = queries::arranged(answers);
    lemma_arranged(answers, Asked::Answered(a));
    let i = choose|i: int| 0 <= i < all.len() && all[i] == Asked::Answered(a);
    assert(queries::stands_for(r[i], all[i]));
    laws::law_no_answer_is_dropped(
        r,
        apart,
        out,
        m.workspace@,
        m.config.max_results as nat,
        i,
        x,
    );
}

/// Every server's findings in a file are heard: each is in the merged report, which is fresh
/// where one server's is.
pub proof fn law_every_finding_is_heard(
    m: LspManager,
    path: Seq<char>,
    answers: Seq<Asked<DiagnosticReport>>,
    out: DiagnosticReport,
    a: DiagnosticReport,
    d: Diagnostic,
)
    requires
        queries::diagnosis(m, path, answers, out),
        m.config.enabled,
        m.serves(path),
        answers.contains(Asked::Answered(a)),
        a is Fresh,
        (a->Fresh_diagnostics@ + a->Fresh_overflow@).contains(d),
    ensures
        out is Fresh,
        exists|k: int|
            0 <= k < (out->Fresh_diagnostics@ + out->Fresh_overflow@).len() && d.same_finding(
                #[trigger] &(out->Fresh_diagnostics@ + out->Fresh_overflow@)[k],
            ),
{
    let r = choose|r: Seq<DiagnosticReport>|
        #[trigger] queries::findings_stand_for(r, queries::arranged(answers), path)
            && reports::diagnoses(
            out,
            reports::diagnosed(r),
            path,
            m.workspace@,
            m.config.max_results as nat,
        );
    let all = queries::arranged(answers);
    lemma_arranged(answers, Asked::Answered(a));
    let i = choose|i: int| 0 <= i < all.len() && all[i] == Asked::Answered(a);
    assert(queries::finding_stands_for(r[i], all[i], path));
    laws::law_no_server_is_dropped(
        r,
        out,
        path,
        m.workspace@,
        m.config.max_results as nat,
        i,
        d,
    );
}

/// The baseline of a file holds what each of its servers had, and nothing else.
pub proof fn law_baselines_are_put_together(
    v: Seq<Option<DiagnosticBaseline>>,
    e: DiagnosticBaselineEntry,
)
    ensures
        queries::all_entries(v).contains(e) <==> exists|i: int|
            0 <= i < v.len() && (#[trigger] v[i]) is Some && v[i]->0.entries@.contains(e),
    decreases v.len(),
{
    if v.len() > 0 {
        let head = v.drop_last();
        law_baselines_are_put_together(head, e);
        let was = queries::all_entries(head);
        let now = queries::all_entries(v);
        assert(forall|i: int| 0 <= i < head.len() ==> head[i] == v[i]);
        assert(v[v.len() - 1] == v.last());
        if was.contains(e) {
            let k = choose|k: int| 0 <= k < was.len() && was[k] == e;
            assert(now[k] == e);
            let i = choose|i: int|
                0 <= i < head.len() && (#[trigger] head[i]) is Some && head[i]->0.entries@.contains(
                    e,
                );
            assert(v[i] is Some);
        }
        if let Some(b) = v.last() {
            if b.entries@.contains(e) {
                let k = choose|k: int| 0 <= k < b.entries@.len() && b.entries@[k] == e;
                assert(now[was.len() + k] == e);
            }
            if now.contains(e) {
                let k = choose|k: int| 0 <= k < now.len() && now[k] == e;
                if k < was.len() {
                    assert(was[k] == e);
                } else {
                    assert(b.entries@[k - was.len()] == e);
                }
            }
        } else {
            assert(now =~= was);
        }
        if exists|i: int|
            0 <= i < v.len() && (#[trigger] v[i]) is Some && v[i]->0.entries@.contains(e) {
            let i = choose|i: int|
                0 <= i < v.len() && (#[trigger] v[i]) is Some && v[i]->0.entries@.contains(e);
            if i < head.len() {
                assert(head[i] is Some);
            }
        }
    }
}

} // verus!

//! What a session keeps to at its edges.

use vstd::prelude::*;
use crate::config::laws;
use crate::config::laws::{blank, says, tidy};
use crate::config::resolve;
use crate::json::JsonView;
use crate::lsp::environment;
use crate::number;
use crate::order;
use crate::paths;
use crate::session::commands;
use crate::session::commands::LineView;
use crate::session::display;
use crate::session::jail;
use crate::session::jail::{Backend, Jail, Machine};
use crate::session::legacy;
use crate::session::memory;
use crate::session::memory::Scope;
use crate::session::recall;
use crate::session::recall::{EntryView, MemoryCommand, OpView, StepView};
use crate::session::startup;
use crate::session::startup::Options;
use crate::session::undo;
use crate::session::undo::{LoggedView, UndoView};
use crate::text;

verus! {

/// An action is approved by the words for it alone, and for good only where that is offered;
/// any other answer denies it.
pub proof fn law_only_yes_approves(answer: Seq<char>, escalated: bool)
    ensures
        ({
            let yes = says(answer, "1"@) || says(answer, "y"@) || says(answer, "yes"@) || says(
                answer,
                "once"@,
            );
            let always = says(answer, "2"@) || says(answer, "a"@) || says(answer, "always"@);
            &&& display::approval_of(answer, escalated) is Once <==> yes
            &&& display::approval_of(answer, escalated) is Always <==> always && !escalated
            &&& display::approval_of(answer, escalated) is Deny <==> !yes && (!always || escalated)
        }),
{
    reveal_strlit("1");
    reveal_strlit("y");
    reveal_strlit("yes");
    reveal_strlit("once");
    reveal_strlit("2");
    reveal_strlit("a");
    reveal_strlit("always");
    assert("1"@[0] == '1' && "y"@[0] == 'y' && "2"@[0] == '2' && "a"@[0] == 'a');
    assert("yes"@.len() == 3 && "once"@.len() == 4 && "always"@.len() == 6 && "1"@.len() == 1
        && "y"@.len() == 1 && "2"@.len() == 1 && "a"@.len() == 1);
}

/// The variable says the word, with white space around it.
pub open spec fn set_to(vars: Seq<(String, String)>, name: Seq<char>, word: Seq<char>) -> bool {
    exists|i: int| #[trigger] resolve::first_named(vars, name, i) && text::trim(vars[i].1@) == word
}

proof fn lemma_set_to(vars: Seq<(String, String)>, name: Seq<char>, word: Seq<char>)
    ensures
        set_to(vars, name, word) == (environment::variable(
            environment::variables(vars),
            name,
            0,
        ) matches Some(v) && text::trim(v) == word),
{
    resolve::lemma_variable(vars, name, 0);
    assert forall|k: int, l: int|
        #[trigger] resolve::first_named(vars, name, k) && #[trigger] resolve::first_named(
            vars,
            name,
            l,
        ) implies k == l by {}
}

/// Where commands run, as it is asked for: on the machine itself by the option, or by the
/// environment, which comes before what is configured.
pub proof fn law_asked_for_backend(j: Jail, vars: Seq<(String, String)>, no_sandbox: bool)
    ensures
        ({
            let out = jail::asked_for(j, environment::variables(vars), no_sandbox);
            let off = set_to(vars, "MEDHA_SANDBOX"@, "host"@) || set_to(
                vars,
                "MEDHA_SANDBOX"@,
                "off"@,
            ) || set_to(vars, "MEDHA_SANDBOX"@, "none"@);
            let on = set_to(vars, "MEDHA_SANDBOX"@, "native"@) || set_to(
                vars,
                "MEDHA_SANDBOX"@,
                "on"@,
            );
            &&& no_sandbox ==> out is Host
            &&& !no_sandbox && off ==> out is Host
            &&& !no_sandbox && on ==> out is Native
            &&& !no_sandbox && !off && !on ==> out == j.backend
        }),
{
    lemma_set_to(vars, "MEDHA_SANDBOX"@, "host"@);
    lemma_set_to(vars, "MEDHA_SANDBOX"@, "off"@);
    lemma_set_to(vars, "MEDHA_SANDBOX"@, "none"@);
    lemma_set_to(vars, "MEDHA_SANDBOX"@, "native"@);
    lemma_set_to(vars, "MEDHA_SANDBOX"@, "on"@);
    reveal_strlit("host");
    reveal_strlit("off");
    reveal_strlit("none");
    reveal_strlit("native");
    reveal_strlit("on");
    assert("host"@.len() == 4 && "off"@.len() == 3 && "none"@.len() == 4 && "native"@.len() == 6
        && "on"@.len() == 2);
}

/// The backend can be used as it is configured, on this machine.
pub open spec fn usable(j: Jail, backend: Backend, m: Machine) -> bool {
    match backend {
        Backend::Container => (j.image matches Some(i) && i@.len() > 0) && m.runtime_found,
        Backend::Ssh => (j.host matches Some(h) && h@.len() > 0) && m.ssh_found,
        _ => true,
    }
}

/// A backend that can be used is used, and otherwise the jail of the system; what was asked
/// for and is not to be had is said, once for the backend and once for the jail.
pub proof fn law_usable_backends_are_used(j: Jail, backend: Backend, m: Machine)
    ensures
        usable(j, backend, m) ==> jail::used(j, backend, m) == backend,
        !usable(j, backend, m) ==> jail::used(j, backend, m) is Native,
        jail::warnings(j, backend, m).len() == (if usable(j, backend, m) {
            0int
        } else {
            1
        }) + (if jail::used(j, backend, m) is Native && !m.native_available {
            1int
        } else {
            0
        }),
{
}

/// The event wrote the file: it is an observation with a snapshot and the path.
pub open spec fn wrote(e: LoggedView, path: Seq<char>) -> bool {
    &&& e.kind is ToolObs
    &&& e.payload.get("payload"@).field("snapshot"@) is Some
    &&& e.payload.get("payload"@).field("path"@) == Some(JsonView::Text(path))
}

proof fn lemma_wrote(e: LoggedView, path: Seq<char>)
    ensures
        wrote(e, path) <==> undo::written(e) == Some(path),
{
}

/// The event wrote nothing.
pub open spec fn wrote_nothing(e: LoggedView) -> bool {
    forall|path: Seq<char>| !wrote(e, path)
}

proof fn lemma_wrote_nothing(e: LoggedView)
    ensures
        wrote_nothing(e) <==> undo::written(e) is None,
{
    if let Some(p) = undo::written(e) {
        lemma_wrote(e, p);
    } else {
        assert forall|path: Seq<char>| !wrote(e, path) by {
            lemma_wrote(e, path);
        }
    }
}

/// The event at `k` of the `i`-th session is the newest write of all: the sessions before
/// that one, which are newer, wrote nothing, and that session nothing after it.
pub open spec fn newest(
    log: Seq<(Seq<char>, Seq<LoggedView>)>,
    i: int,
    k: int,
) -> bool {
    &&& 0 <= i < log.len()
    &&& 0 <= k < log[i].1.len()
    &&& !wrote_nothing(log[i].1[k])
    &&& forall|m: int| k < m < log[i].1.len() ==> wrote_nothing(#[trigger] log[i].1[m])
    &&& forall|h: int, m: int|
        0 <= h < i && 0 <= m < log[h].1.len() ==> wrote_nothing(#[trigger] log[h].1[m])
}

proof fn lemma_writes_back(session: Seq<char>, v: Seq<LoggedView>, n: int) -> (k: int)
    requires
        0 <= n <= v.len(),
    ensures
        ({
            let w = undo::writes_back(session, v, n);
            if w.len() > 0 {
                &&& 0 <= k < n
                &&& !wrote_nothing(v[k])
                &&& w[0].0 == v[k].id
                &&& w[0].1 == session
                &&& forall|m: int| k < m < n ==> wrote_nothing(#[trigger] v[m])
            } else {
                forall|m: int| 0 <= m < n ==> wrote_nothing(#[trigger] v[m])
            }
        }),
    decreases n,
{
    if n == 0 {
        0
    } else {
        lemma_wrote_nothing(v[n - 1]);
        let k = lemma_writes_back(session, v, n - 1);
        if undo::written(v[n - 1]) is Some {
            n - 1
        } else {
            k
        }
    }
}

proof fn lemma_all_writes(log: Seq<(Seq<char>, Seq<LoggedView>)>, from: int) -> (at: (int, int))
    requires
        0 <= from <= log.len(),
        forall|h: int, m: int|
            0 <= h < from && 0 <= m < log[h].1.len() ==> wrote_nothing(#[trigger] log[h].1[m]),
    ensures
        ({
            let w = undo::all_writes(log, from);
            if w.len() > 0 {
                newest(log, at.0, at.1) && w[0].0 == log[at.0].1[at.1].id && w[0].1 == log[at.0].0
            } else {
                forall|h: int, m: int|
                    0 <= h < log.len() && 0 <= m < log[h].1.len() ==> wrote_nothing(
                        #[trigger] log[h].1[m],
                    )
            }
        }),
    decreases log.len() - from,
{
    if from == log.len() {
        (0, 0)
    } else {
        let v = log[from].1;
        let k = lemma_writes_back(log[from].0, v, v.len() as int);
        let w = undo::writes_back(log[from].0, v, v.len() as int);
        if w.len() > 0 {
            assert(undo::all_writes(log, from)[0] == w[0]);
            (from, k)
        } else {
            let rest = undo::all_writes(log, from + 1);
            assert(undo::all_writes(log, from) =~= rest);
            lemma_all_writes(log, from + 1)
        }
    }
}

/// What is taken back without a name is the newest write of all, and nothing where there is
/// none. The sessions come with the newest first.
pub proof fn law_newest_write_is_taken_back(log: Seq<(Seq<char>, Seq<LoggedView>)>)
    ensures
        match undo::target(None, log) {
            UndoView::At(s, e) => exists|i: int, k: int|
                #[trigger] newest(log, i, k) && log[i].0 == s && log[i].1[k].id == e,
            UndoView::Nothing(_) => forall|h: int, m: int|
                0 <= h < log.len() && 0 <= m < log[h].1.len() ==> wrote_nothing(
                    #[trigger] log[h].1[m],
                ),
            UndoView::Fail(_) => false,
        },
{
    let (i, k) = lemma_all_writes(log, 0);
    if undo::all_writes(log, 0).len() > 0 {
        assert(newest(log, i, k));
    }
}

/// A write is listed.
pub open spec fn write_of(
    log: Seq<(Seq<char>, Seq<LoggedView>)>,
    i: int,
    k: int,
    w: (Seq<char>, Seq<char>, Seq<char>),
) -> bool {
    &&& 0 <= i < log.len()
    &&& 0 <= k < log[i].1.len()
    &&& w.0 == log[i].1[k].id
    &&& w.1 == log[i].0
    &&& wrote(log[i].1[k], w.2)
}

proof fn lemma_back_holds(
    session: Seq<char>,
    v: Seq<LoggedView>,
    n: int,
    w: (Seq<char>, Seq<char>, Seq<char>),
)
    requires
        0 <= n <= v.len(),
    ensures
        undo::writes_back(session, v, n).contains(w) <==> exists|k: int|
            0 <= k < n && wrote(#[trigger] v[k], w.2) && w.0 == v[k].id && w.1 == session,
    decreases n,
{
    if n > 0 {
        let e = v[n - 1];
        lemma_back_holds(session, v, n - 1, w);
        lemma_wrote(e, w.2);
        let rest = undo::writes_back(session, v, n - 1);
        let now = undo::writes_back(session, v, n);
        if rest.contains(w) {
            let j = choose|j: int| 0 <= j < rest.len() && rest[j] == w;
            if undo::written(e) is Some {
                assert(now[j + 1] == w);
            }
        }
        if undo::written(e) is Some {
            assert(now[0] == (e.id, session, undo::written(e)->0));
            if now.contains(w) {
                let j = choose|j: int| 0 <= j < now.len() && now[j] == w;
                if j > 0 {
                    assert(rest[j - 1] == w);
                }
            }
        }
        if wrote(e, w.2) && w.0 == e.id && w.1 == session {
            assert(now[0] == w);
        }
    }
}

proof fn lemma_all_hold(
    log: Seq<(Seq<char>, Seq<LoggedView>)>,
    from: int,
    w: (Seq<char>, Seq<char>, Seq<char>),
)
    requires
        0 <= from <= log.len(),
    ensures
        undo::all_writes(log, from).contains(w) <==> exists|i: int, k: int|
            from <= i && #[trigger] write_of(log, i, k, w),
    decreases log.len() - from,
{
    if from < log.len() {
        let v = log[from].1;
        lemma_all_hold(log, from + 1, w);
        lemma_back_holds(log[from].0, v, v.len() as int, w);
        let first = undo::writes_back(log[from].0, v, v.len() as int);
        let rest = undo::all_writes(log, from + 1);
        let now = undo::all_writes(log, from);
        assert(now == first + rest);
        if first.contains(w) {
            let j = choose|j: int| 0 <= j < first.len() && first[j] == w;
            assert(now[j] == w);
            let k = choose|k: int|
                0 <= k < v.len() && wrote(#[trigger] v[k], w.2) && w.0 == v[k].id && w.1
                    == log[from].0;
            assert(write_of(log, from, k, w));
        }
        if rest.contains(w) {
            let j = choose|j: int| 0 <= j < rest.len() && rest[j] == w;
            assert(now[first.len() + j] == w);
        }
        if now.contains(w) {
            let j = choose|j: int| 0 <= j < now.len() && now[j] == w;
            if j < first.len() {
                assert(first[j] == w);
            } else {
                assert(rest[j - first.len()] == w);
            }
        }
        if exists|i: int, k: int| from <= i && #[trigger] write_of(log, i, k, w) {
            let (i, k) = choose|i: int, k: int| from <= i && #[trigger] write_of(log, i, k, w);
            if i == from {
                assert(wrote(v[k], w.2));
            }
        }
    }
}

/// Every write of every session is listed, and nothing else.
pub proof fn law_all_writes_are_listed(
    log: Seq<(Seq<char>, Seq<LoggedView>)>,
    w: (Seq<char>, Seq<char>, Seq<char>),
)
    ensures
        undo::all_writes(log, 0).contains(w) <==> exists|i: int, k: int| write_of(log, i, k, w),
{
    lemma_all_hold(log, 0, w);
}

/// An event that is named is taken back in the first session that holds it; where none
/// does, the request fails.
pub proof fn law_named_events_are_found(
    word: Seq<char>,
    id: Seq<char>,
    log: Seq<(Seq<char>, Seq<LoggedView>)>,
)
    ensures
        match undo::named(word, Some(id), log) {
            UndoView::At(s, e) => e == id && exists|i: int|
                0 <= i < log.len() && (#[trigger] log[i]).0 == s && undo::holds(log[i].1, id)
                    && forall|j: int| 0 <= j < i ==> !undo::holds((#[trigger] log[j]).1, id),
            UndoView::Nothing(_) => false,
            UndoView::Fail(_) => forall|j: int|
                0 <= j < log.len() ==> !undo::holds((#[trigger] log[j]).1, id),
        },
        undo::named(word, None, log) is Fail,
{
    lemma_session_with(log, id, 0);
}

proof fn lemma_session_with(log: Seq<(Seq<char>, Seq<LoggedView>)>, id: Seq<char>, from: int)
    requires
        0 <= from <= log.len(),
        forall|j: int| 0 <= j < from ==> !undo::holds((#[trigger] log[j]).1, id),
    ensures
        match undo::session_with(log, id, from) {
            Some(s) => exists|i: int|
                0 <= i < log.len() && (#[trigger] log[i]).0 == s && undo::holds(log[i].1, id)
                    && forall|j: int| 0 <= j < i ==> !undo::holds((#[trigger] log[j]).1, id),
            None => forall|j: int|
                0 <= j < log.len() ==> !undo::holds((#[trigger] log[j]).1, id),
        },
    decreases log.len() - from,
{
    if from < log.len() && !undo::holds(log[from].1, id) {
        lemma_session_with(log, id, from + 1);
    }
}

proof fn lemma_planned(
    names: Seq<Seq<char>>,
    legacy: Seq<char>,
    state: Seq<char>,
    old: Seq<Seq<char>>,
    new: Seq<Seq<char>>,
    n: Seq<char>,
)
    requires
        names.contains(n),
        old.contains(n),
        !new.contains(n),
    ensures
        legacy::planned(names, legacy, state, old, new).contains(
            (paths::joined_path(legacy, n), paths::joined_path(state, n)),
        ),
    decreases names.len(),
{
    let k = choose|k: int| 0 <= k < names.len() && names[k] == n;
    let head = names.drop_last();
    let was = legacy::planned(head, legacy, state, old, new);
    let now = legacy::planned(names, legacy, state, old, new);
    let m = (paths::joined_path(legacy, n), paths::joined_path(state, n));
    if k < names.len() - 1 {
        assert(head[k] == n);
        lemma_planned(head, legacy, state, old, new, n);
        let j = choose|j: int| 0 <= j < was.len() && was[j] == m;
        assert(now[j] == m);
    } else {
        assert(now[was.len() as int] == m);
    }
}

/// All that an older state holds is moved, as far as it has no successor: the log with what
/// belongs to it, what was kept of results and files, and what was trusted.
pub proof fn law_older_state_is_moved(
    legacy: Seq<char>,
    state: Seq<char>,
    old: Seq<Seq<char>>,
    new: Seq<Seq<char>>,
    n: Seq<char>,
)
    requires
        n == "events.db"@ || n == "events.db-wal"@ || n == "events.db-shm"@ || n == "artifacts"@
            || n == "snapshots"@ || n == "logs"@ || n == "trust.lock"@,
        old.contains(n),
        !new.contains(n),
    ensures
        legacy::planned(legacy::moved_names(), legacy, state, old, new).contains(
            (paths::joined_path(legacy, n), paths::joined_path(state, n)),
        ),
{
    let names = legacy::moved_names();
    assert(names[0] == "events.db"@ && names[1] == "events.db-wal"@ && names[2]
        == "events.db-shm"@ && names[3] == "artifacts"@ && names[4] == "snapshots"@ && names[5]
        == "logs"@ && names[6] == "trust.lock"@);
    assert(names.contains(n));
    lemma_planned(names, legacy, state, old, new, n);
}

/// A line that is not a command is a message, as it stands without the white space around
/// it; a blank one asks for nothing.
pub proof fn law_messages_are_passed_on(front: Seq<char>, line: Seq<char>, back: Seq<char>)
    requires
        blank(front),
        blank(back),
        tidy(line),
    ensures
        line[0] != '/' ==> commands::line_of(front + line + back) == LineView::Message(line),
        commands::line_of(front) is Nothing,
{
    laws::lemma_trimmed(front, line, back);
    let (a, b) = text::law_trim(front);
    if text::trim(front).len() > 0 {
        assert(text::trim(front)[0] == front[a]);
    }
}

/// What each command asks for.
pub proof fn law_commands_are_read(front: Seq<char>, gap: Seq<char>, c: Seq<char>, back: Seq<char>)
    requires
        blank(front),
        blank(gap),
        blank(back),
        tidy(c),
    ensures
        ({
            let out = commands::line_of(front + seq!['/'] + gap + c + back);
            &&& c == "exit"@ || c == "quit"@ ==> out is Exit
            &&& c == "help"@ ==> out is Help
            &&& c == "clear"@ ==> out is Clear
            &&& c == "status"@ ==> out is Status
            &&& text::starts_with(c, "think"@) ==> out == LineView::Think(c.skip(5))
            &&& text::starts_with(c, "effort"@) ==> out == LineView::Effort(c.skip(6))
            &&& !(out is Message) && !(out is Nothing)
        }),
{
    let line = seq!['/'] + gap + c;
    assert(front + seq!['/'] + gap + c + back =~= front + line + back);
    assert(line[0] == '/' && line.last() == c.last());
    assert(!text::is_white('/'));
    laws::lemma_trimmed(front, line, back);
    assert(line.skip(1) =~= gap + c + Seq::<char>::empty());
    laws::lemma_trimmed(gap, c, seq![]);
    reveal_strlit("think");
    reveal_strlit("effort");
    reveal_strlit("exit");
    reveal_strlit("quit");
    reveal_strlit("help");
    reveal_strlit("clear");
    reveal_strlit("status");
    assert("exit"@[0] == 'e' && "exit"@[1] == 'x' && "quit"@[0] == 'q' && "help"@[0] == 'h'
        && "clear"@[0] == 'c' && "status"@[0] == 's' && "think"@[0] == 't' && "effort"@[0] == 'e'
        && "effort"@[1] == 'f');
    if text::starts_with(c, "think"@) {
        assert(c.subrange(0, 5)[0] == c[0]);
    }
    if text::starts_with(c, "effort"@) {
        assert(c.subrange(0, 6)[0] == c[0] && c.subrange(0, 6)[1] == c[1]);
    }
}

/// The first word of a command line names what it asks for; anything else is a session.
pub proof fn law_first_word_decides(args: Seq<Seq<char>>)
    ensures
        ({
            let out = startup::subcommand_of(args);
            let word = args[1];
            &&& out is Gate <==> args.len() >= 2 && word == "gate"@
            &&& out is Undo <==> args.len() >= 2 && word == "undo"@
            &&& out is Memory <==> args.len() >= 2 && word == "memory"@
            &&& out is Pulse <==> args.len() >= 2 && word == "pulse"@
        }),
{
    reveal_strlit("gate");
    reveal_strlit("undo");
    reveal_strlit("memory");
    reveal_strlit("pulse");
    assert("gate"@[0] == 'g' && "undo"@[0] == 'u' && "memory"@.len() == 6 && "pulse"@.len() == 5
        && "gate"@.len() == 4 && "undo"@.len() == 4);
}

/// There is something to do on the command line.
pub open spec fn given_task(o: Options) -> bool {
    !blank(text::joined(text::views(o.prompt@), " "@))
}

/// An editor comes first. Without one, a task is run and then the session ends; without a
/// task a terminal is talked to, and without a terminal there is nothing to do. Whoever is
/// there is asked for approvals.
pub proof fn law_sessions_take_place_where_they_can(o: Options, terminal: bool)
    ensures
        ({
            let out = startup::surface_of(o, terminal);
            let who = startup::asked_of(o, terminal);
            let work = given_task(o) && !o.setup;
            &&& o.acp ==> out is Acp && who is Editor
            &&& !o.acp && o.setup ==> out is Tui && who is Screen
            &&& !o.acp && work ==> out is Headless
            &&& !o.acp && !o.setup && !work && terminal && !o.plain ==> out is Tui && who is Screen
            &&& !o.acp && !o.setup && !work && terminal && o.plain ==> out is Repl
                && who is Terminal
            &&& !o.acp && !o.setup && !work && !terminal ==> out is Usage && who is Nobody
            &&& !o.acp && work && terminal ==> who is Terminal
            &&& !o.acp && work && !terminal ==> who is Nobody
        }),
{
    let s = o.task();
    let (a, b) = text::law_trim(s);
    if text::trim(s).len() > 0 {
        assert(s[a] == text::trim(s)[0]);
    }
}

proof fn lemma_all_tools(words: Seq<Seq<char>>, t: Seq<char>)
    ensures
        startup::all_tools(words).contains(t) <==> exists|i: int|
            0 <= i < words.len() && startup::tools_of(#[trigger] words[i]).contains(t),
    decreases words.len(),
{
    if words.len() > 0 {
        let head = words.drop_last();
        lemma_all_tools(head, t);
        let was = startup::all_tools(head);
        let new = startup::tools_of(words.last());
        let now = startup::all_tools(words);
        assert(forall|i: int| 0 <= i < head.len() ==> head[i] == words[i]);
        assert(words[words.len() - 1] == words.last());
        if was.contains(t) {
            let k = choose|k: int| 0 <= k < was.len() && was[k] == t;
            assert(now[k] == t);
            let i = choose|i: int|
                0 <= i < head.len() && startup::tools_of(#[trigger] head[i]).contains(t);
            assert(startup::tools_of(words[i]).contains(t));
        }
        if new.contains(t) {
            let k = choose|k: int| 0 <= k < new.len() && new[k] == t;
            assert(now[was.len() + k] == t);
        }
        if now.contains(t) {
            let k = choose|k: int| 0 <= k < now.len() && now[k] == t;
            if k < was.len() {
                assert(was[k] == t);
            } else {
                assert(new[k - was.len()] == t);
            }
        }
        if exists|i: int|
            0 <= i < words.len() && startup::tools_of(#[trigger] words[i]).contains(t) {
            let i = choose|i: int|
                0 <= i < words.len() && startup::tools_of(#[trigger] words[i]).contains(t);
            if i < head.len() {
                assert(startup::tools_of(head[i]).contains(t));
            }
        }
    }
}

proof fn lemma_kept(v: Seq<Seq<char>>, w: Seq<char>)
    ensures
        startup::kept(v).contains(w) <==> w.len() > 0 && exists|i: int|
            0 <= i < v.len() && text::trim(#[trigger] v[i]) == w,
    decreases v.len(),
{
    if v.len() > 0 {
        let head = v.drop_last();
        lemma_kept(head, w);
        let was = startup::kept(head);
        let now = startup::kept(v);
        assert(forall|i: int| 0 <= i < head.len() ==> head[i] == v[i]);
        assert(v[v.len() - 1] == v.last());
        if was.contains(w) {
            let k = choose|k: int| 0 <= k < was.len() && was[k] == w;
            assert(now[k] == w);
            let i = choose|i: int| 0 <= i < head.len() && text::trim(#[trigger] head[i]) == w;
            assert(text::trim(v[i]) == w);
        }
        if text::trim(v.last()).len() > 0 {
            assert(now[was.len() as int] == text::trim(v.last()));
        }
        if now.contains(w) {
            let k = choose|k: int| 0 <= k < now.len() && now[k] == w;
            if k < was.len() {
                assert(was[k] == w);
            }
        }
        if w.len() > 0 && exists|i: int| 0 <= i < v.len() && text::trim(#[trigger] v[i]) == w {
            let i = choose|i: int| 0 <= i < v.len() && text::trim(#[trigger] v[i]) == w;
            if i < head.len() {
                assert(text::trim(head[i]) == w);
            }
        }
    }
}

/// The word stands in the list, between commas and without the white space around it.
pub open spec fn lists(raw: Seq<char>, word: Seq<char>) -> bool {
    word.len() > 0 && exists|i: int|
        0 <= i < text::split(raw, ',').len() && text::trim(#[trigger] text::split(raw, ',')[i])
            == word
}

/// The tools that take an approval are those of the lock file, the shell, and those that the
/// environment lists: all that change something under `all`, those that write under
/// `writes`, the shell under `shell`, and each under its own name. Where it lists `none`,
/// there are none.
pub proof fn law_listed_tools_are_gated(base: Seq<Seq<char>>, raw: Seq<char>, t: Seq<char>)
    ensures
        lists(raw, "none"@) ==> startup::gated(base, raw).len() == 0,
        !lists(raw, "none"@) ==> {
            let named = t == "shell.exec"@ && (lists(raw, "all"@) || lists(raw, "shell"@)) || (t
                == "fs.write"@ || t == "fs.edit"@) && (lists(raw, "all"@) || lists(
                raw,
                "writes"@,
            )) || lists(raw, t) && t != "all"@ && t != "writes"@ && t != "shell"@;
            startup::gated(base, raw).contains(t) <==> base.contains(t) || t == "shell.exec"@
                || named
        },
{
    let words = startup::parts_of(raw);
    lemma_kept(text::split(raw, ','), "none"@);
    lemma_kept(text::split(raw, ','), "all"@);
    lemma_kept(text::split(raw, ','), "writes"@);
    lemma_kept(text::split(raw, ','), "shell"@);
    lemma_kept(text::split(raw, ','), t);
    lemma_all_tools(words, t);
    reveal_strlit("none");
    reveal_strlit("all");
    reveal_strlit("writes");
    reveal_strlit("shell");
    reveal_strlit("shell.exec");
    reveal_strlit("fs.write");
    reveal_strlit("fs.edit");
    assert("none"@.len() == 4 && "all"@.len() == 3 && "writes"@.len() == 6 && "shell"@.len() == 5
        && "shell.exec"@.len() == 10 && "fs.write"@.len() == 8 && "fs.edit"@.len() == 7);
    if !words.contains("none"@) {
        let all = base.push("shell.exec"@) + startup::all_tools(words);
        order::lemma_distinct(all);
        let out = startup::gated(base, raw);
        assert(order::holds(out, t) == order::holds(all, t));
        assert(order::holds(out, t) == out.contains(t));
        assert(order::holds(all, t) == all.contains(t));
        lemma_parts_hold(base, "shell.exec"@, startup::all_tools(words), t);
        assert forall|i: int| 0 <= i < words.len() implies (startup::tools_of(
            #[trigger] words[i],
        ).contains(t) <==> tool_named(words[i], t)) by {
            lemma_tools_of(words[i], t);
        }
        if words.contains("all"@) {
            let i = choose|i: int| 0 <= i < words.len() && words[i] == "all"@;
            assert(startup::tools_of(words[i]).contains(t) <==> tool_named(words[i], t));
        }
        if words.contains("writes"@) {
            let i = choose|i: int| 0 <= i < words.len() && words[i] == "writes"@;
            assert(startup::tools_of(words[i]).contains(t) <==> tool_named(words[i], t));
        }
        if words.contains("shell"@) {
            let i = choose|i: int| 0 <= i < words.len() && words[i] == "shell"@;
            assert(startup::tools_of(words[i]).contains(t) <==> tool_named(words[i], t));
        }
        if words.contains(t) {
            let i = choose|i: int| 0 <= i < words.len() && words[i] == t;
            assert(startup::tools_of(words[i]).contains(t) <==> tool_named(words[i], t));
        }
        if startup::all_tools(words).contains(t) {
            let i = choose|i: int|
                0 <= i < words.len() && startup::tools_of(#[trigger] words[i]).contains(t);
            assert(tool_named(words[i], t));
            assert(words.contains(words[i]));
        }
    }
}

spec fn tool_named(word: Seq<char>, t: Seq<char>) -> bool {
    if word == "all"@ {
        t == "fs.write"@ || t == "fs.edit"@ || t == "shell.exec"@
    } else if word == "writes"@ {
        t == "fs.write"@ || t == "fs.edit"@
    } else if word == "shell"@ {
        t == "shell.exec"@
    } else {
        t == word
    }
}

proof fn lemma_tools_of(word: Seq<char>, t: Seq<char>)
    ensures
        startup::tools_of(word).contains(t) <==> tool_named(word, t),
{
    let v = startup::tools_of(word);
    if tool_named(word, t) {
        if word == "all"@ {
            assert(v[0] == "fs.write"@ && v[1] == "fs.edit"@ && v[2] == "shell.exec"@);
        } else if word == "writes"@ {
            assert(v[0] == "fs.write"@ && v[1] == "fs.edit"@);
        } else {
            assert(v[0] == t);
        }
        assert(v.contains(t));
    }
}

proof fn lemma_parts_hold(a: Seq<Seq<char>>, x: Seq<char>, b: Seq<Seq<char>>, t: Seq<char>)
    ensures
        (a.push(x) + b).contains(t) <==> a.contains(t) || t == x || b.contains(t),
{
    let all = a.push(x) + b;
    if a.contains(t) {
        let k = choose|k: int| 0 <= k < a.len() && a[k] == t;
        assert(all[k] == t);
    }
    if t == x {
        assert(all[a.len() as int] == t);
    }
    if b.contains(t) {
        let k = choose|k: int| 0 <= k < b.len() && b[k] == t;
        assert(all[a.len() + 1 + k] == t);
    }
    if all.contains(t) {
        let k = choose|k: int| 0 <= k < all.len() && all[k] == t;
        if k < a.len() {
            assert(a[k] == t);
        } else if k > a.len() {
            assert(b[k - a.len() - 1] == t);
        }
    }
}

/// There is an entry under the name in the scope.
pub open spec fn remembered(v: Seq<EntryView>, scope: Scope, name: Seq<char>) -> bool {
    exists|i: int| 0 <= i < v.len() && (#[trigger] v[i]).scope == scope && v[i].name == name
}

/// The entry is the first under the name in the scope.
pub open spec fn first_entry(v: Seq<EntryView>, scope: Scope, name: Seq<char>, e: EntryView) -> bool {
    exists|i: int|
        0 <= i < v.len() && #[trigger] v[i] == e && e.scope == scope && e.name == name && forall|
            j: int,
        |
            0 <= j < i ==> !((#[trigger] v[j]).scope == scope && v[j].name == name)
}

proof fn lemma_entry_at(v: Seq<EntryView>, scope: Scope, name: Seq<char>, from: int)
    requires
        0 <= from <= v.len(),
        forall|j: int| 0 <= j < from ==> !((#[trigger] v[j]).scope == scope && v[j].name == name),
    ensures
        match recall::entry_at(v, scope, name, from) {
            Some(i) => 0 <= i < v.len() && first_entry(v, scope, name, v[i]) && remembered(
                v,
                scope,
                name,
            ),
            None => !remembered(v, scope, name),
        },
    decreases v.len() - from,
{
    if from < v.len() {
        if v[from].scope == scope && v[from].name == name {
            assert(first_entry(v, scope, name, v[from]));
        } else {
            lemma_entry_at(v, scope, name, from + 1);
        }
    }
}

/// The scope that a word asks for; the project's where there is none.
pub open spec fn asks_scope(word: Option<String>, scope: Scope) -> bool {
    match word {
        None => scope is Project,
        Some(w) => (scope is Project && w@ == "project"@) || (scope is User && w@ == "user"@),
    }
}

proof fn lemma_scope(word: Option<String>)
    ensures
        match memory::scope_of(text::view_of(word)) {
            Some(s) => forall|t: Scope| #[trigger] asks_scope(word, t) <==> t == s,
            None => word is Some && forall|t: Scope| !(#[trigger] asks_scope(word, t)),
        },
{
    reveal_strlit("project");
    reveal_strlit("user");
    assert("project"@.len() == 7 && "user"@.len() == 4);
}

/// An entry that is there is forgotten or pinned as it is asked for, in the scope that is
/// asked for; one that is not there is refused, and so is a word that names no scope.
pub proof fn law_entries_are_changed_as_asked(
    v: Seq<EntryView>,
    events: Seq<(Seq<char>, Seq<char>, Seq<char>)>,
    files: Seq<Seq<char>>,
    name: String,
    word: Option<String>,
    scope: Scope,
    off: bool,
)
    ensures
        ({
            let forget = recall::step_of(
                MemoryCommand::Forget { name, scope: word },
                v,
                events,
                files,
            );
            let pin = recall::step_of(
                MemoryCommand::Pin { name, scope: word, off },
                v,
                events,
                files,
            );
            &&& asks_scope(word, scope) && remembered(v, scope, name@) ==> (forget matches StepView::Record(
                op,
                _,
            ) && op == OpView::Forget(scope, name@))
            &&& asks_scope(word, scope) && remembered(v, scope, name@) ==> (pin matches StepView::Record(
                op,
                _,
            ) && op == OpView::Pin(scope, name@, !off))
            &&& asks_scope(word, scope) && !remembered(v, scope, name@) ==> forget is Fail
                && pin is Fail
            &&& (!asks_scope(word, Scope::Project) && !asks_scope(word, Scope::User))
                ==> forget is Fail && pin is Fail
        }),
{
    lemma_scope(word);
    lemma_entry_at(v, scope, name@, 0);
}

/// What is shown or edited is the entry of that name in the scope that was asked for;
/// without a scope the project's comes before the user's.
pub proof fn law_projects_entries_come_first(
    v: Seq<EntryView>,
    events: Seq<(Seq<char>, Seq<char>, Seq<char>)>,
    files: Seq<Seq<char>>,
    name: String,
    word: Option<String>,
    scope: Scope,
)
    ensures
        ({
            let edit = recall::step_of(MemoryCommand::Edit { name, scope: word }, v, events, files);
            let show = recall::step_of(MemoryCommand::Show { name, scope: word }, v, events, files);
            &&& word is Some && asks_scope(word, scope) && remembered(v, scope, name@) ==> (
            edit matches StepView::Edit(e) && first_entry(v, scope, name@, e))
            &&& word is Some && asks_scope(word, scope) && !remembered(v, scope, name@)
                ==> edit is Fail && show is Fail
            &&& word is None && remembered(v, Scope::Project, name@) ==> (edit matches StepView::Edit(
                e,
            ) && first_entry(v, Scope::Project, name@, e))
            &&& word is None && !remembered(v, Scope::Project, name@) && remembered(
                v,
                Scope::User,
                name@,
            ) ==> (edit matches StepView::Edit(e) && first_entry(v, Scope::User, name@, e))
            &&& word is None && !remembered(v, Scope::Project, name@) && !remembered(
                v,
                Scope::User,
                name@,
            ) ==> edit is Fail && show is Fail
            &&& edit matches StepView::Edit(e) ==> (show matches StepView::Say(lines)
                && lines.contains("claim:\n"@ + e.claim) && lines.contains("trust: "@ + e.trust)
                && lines.len() == 9 + e.provenance.len())
        }),
{
    lemma_scope(word);
    lemma_entry_at(v, scope, name@, 0);
    lemma_entry_at(v, Scope::Project, name@, 0);
    lemma_entry_at(v, Scope::User, name@, 0);
    let edit = recall::step_of(MemoryCommand::Edit { name, scope: word }, v, events, files);
    let show = recall::step_of(MemoryCommand::Show { name, scope: word }, v, events, files);
    if let StepView::Edit(e) = edit {
        if let StepView::Say(lines) = show {
            assert(lines[7] == "claim:\n"@ + e.claim);
            assert(lines[2] == "trust: "@ + e.trust);
        }
    }
}

proof fn lemma_entry_lines(v: Seq<EntryView>, scope: Option<Scope>, i: int)
    requires
        0 <= i < v.len(),
        scope is None || scope == Some(v[i].scope),
    ensures
        recall::entry_lines(v, scope).contains(recall::entry_line(v[i])),
    decreases v.len(),
{
    let head = v.drop_last();
    let was = recall::entry_lines(head, scope);
    let now = recall::entry_lines(v, scope);
    let l = recall::entry_line(v[i]);
    if i < v.len() - 1 {
        lemma_entry_lines(head, scope, i);
        assert(head[i] == v[i]);
        let k = choose|k: int| 0 <= k < was.len() && was[k] == l;
        assert(now[k] == l);
    } else {
        assert(now[was.len() as int] == l);
    }
}

/// Every entry of the scope that was asked for is listed with its name, its trust and its
/// description; without a scope all are.
pub proof fn law_every_entry_is_listed(
    v: Seq<EntryView>,
    events: Seq<(Seq<char>, Seq<char>, Seq<char>)>,
    files: Seq<Seq<char>>,
    word: Option<String>,
    i: int,
)
    requires
        0 <= i < v.len(),
        word is None || asks_scope(word, v[i].scope),
    ensures
        recall::step_of(MemoryCommand::List { scope: word }, v, events, files) matches StepView::Say(
            lines,
        ) && lines.contains(recall::entry_line(v[i])),
        text::starts_with(recall::entry_line(v[i]), v[i].name),
        text::ends_with(recall::entry_line(v[i]), v[i].description),
        text::contains(recall::entry_line(v[i]), v[i].trust),
{
    lemma_scope(word);
    let e = v[i];
    lemma_entry_lines(
        v,
        if word is None {
            None
        } else {
            Some(e.scope)
        },
        i,
    );
    let l = recall::entry_line(e);
    let a = e.name + "  ["@ + recall::scope_word(e.scope) + " · "@;
    let n = a.len() as int;
    assert(l.subrange(0, e.name.len() as int) =~= e.name);
    assert(l.subrange(n, n + e.trust.len()) =~= e.trust);
    assert(text::occurs(l, e.trust, n));
    assert(l.subrange(l.len() - e.description.len(), l.len() as int) =~= e.description);
}

/// An edit changes the claim, and whose word it is; the rest of the entry stays, and what it
/// rested on is kept.
pub proof fn law_edits_keep_the_rest(
    e: EntryView,
    claim: Seq<char>,
    trust: Seq<char>,
    confidence: Seq<char>,
    evidence: Seq<char>,
    session: Seq<char>,
)
    requires
        e.version < u64::MAX,
    ensures
        ({
            let out = recall::edited_entry(e, claim, trust, confidence, evidence, session);
            &&& out.name == e.name
            &&& out.scope == e.scope
            &&& out.kind == e.kind
            &&& out.pinned == e.pinned
            &&& out.description == e.description
            &&& out.version == e.version + 1
            &&& out.trust == trust
            &&& out.confidence == confidence
            &&& claim.take(out.claim.len() as int) == out.claim
            &&& blank(claim.skip(out.claim.len() as int))
            &&& out.provenance.drop_last() == e.provenance
            &&& out.provenance.last() == evidence
            &&& out.sessions.drop_last() == e.sessions
            &&& out.sessions.last() == session
        }),
{
    let n = text::lemma_trim_end(claim);
    let rest = claim.skip(n);
    assert forall|i: int| 0 <= i < rest.len() implies text::is_white(#[trigger] rest[i]) by {
        assert(rest[i] == claim[n + i]);
    }
    assert(e.provenance.push(evidence).drop_last() =~= e.provenance);
    assert(e.sessions.push(session).drop_last() =~= e.sessions);
}

/// The argument that tells most is shown, whole where it has at most sixty characters, else
/// the first sixty of them with a mark behind.
pub proof fn law_telling_arguments_are_shown(tool: Seq<char>, args: JsonView, s: Seq<char>)
    ensures
        text::starts_with(tool, "fs."@) && args.text_at("path"@) == Some(s) ==> display::salient(
            tool,
            args,
        ) == Some(s),
        tool == "shell.exec"@ && args.text_at("command"@) == Some(s) ==> display::salient(
            tool,
            args,
        ) == Some(s),
        tool == "web.search"@ && args.text_at("query"@) == Some(s) ==> display::salient(tool, args)
            == Some(s),
        tool == "web.fetch"@ && args.text_at("url"@) == Some(s) ==> display::salient(tool, args)
            == Some(s),
        tool == "grep"@ && args.text_at("pattern"@) == Some(s) ==> display::salient(tool, args)
            == Some(s),
        s.len() <= 60 ==> display::bracketed(s) == seq!['('] + s + seq![')'],
        s.len() > 60 ==> display::bracketed(s) == seq!['('] + s.take(60) + seq!['…', ')'],
{
    reveal_strlit("fs.");
    reveal_strlit("shell.exec");
    reveal_strlit("web.search");
    reveal_strlit("web.fetch");
    reveal_strlit("grep");
    reveal_strlit("read_artifact");
    reveal_strlit("(");
    reveal_strlit(")");
    reveal_strlit("…");
    reveal_strlit("");
    assert("shell.exec"@[0] == 's' && "web.search"@[0] == 'w' && "web.search"@[4] == 's'
        && "web.fetch"@[0] == 'w' && "web.fetch"@[4] == 'f' && "grep"@[0] == 'g' && "fs."@[0]
        == 'f' && "read_artifact"@[0] == 'r');
    assert("shell.exec"@.len() == 10 && "web.search"@.len() == 10 && "web.fetch"@.len() == 9
        && "grep"@.len() == 4 && "fs."@.len() == 3);
    if text::starts_with(tool, "fs."@) {
        assert(tool.subrange(0, 3)[0] == tool[0]);
    }
    if s.len() <= 60 {
        assert(display::bracketed(s) =~= seq!['('] + s + seq![')']);
    } else {
        assert(display::bracketed(s) =~= seq!['('] + s.take(60) + seq!['…', ')']);
    }
}

/// A result that failed shows its error, unless it shows a change; one that did not shows no
/// error.
pub proof fn law_failures_show_their_error(tool: Seq<char>, ok: bool, p: JsonView)
    requires
        p.text_at("diff"@) is None,
    ensures
        display::result_lines(tool, ok, p).len() == 1,
        !ok && p.text_at("error"@) is Some ==> text::contains(
            display::result_lines(tool, ok, p)[0],
            "✗ "@ + p.text_at("error"@)->0,
        ),
        ok ==> display::result_lines(tool, ok, p)[0] == "  ⎿ "@ + display::result_line(tool, p),
{
    if !ok && p.text_at("error"@) is Some {
        let e = p.text_at("error"@)->0;
        let l = display::result_lines(tool, ok, p)[0];
        let x = "✗ "@ + e;
        reveal_strlit("  ⎿ \x1b[31m✗ ");
        reveal_strlit("✗ ");
        assert(l.subrange(9, 9int + x.len()) =~= x);
        assert(text::occurs(l, x, 9));
    }
}

/// Of a change, what was added and what was taken out are coloured, and the names of the
/// files are not; no line loses a character.
pub proof fn law_changes_are_coloured(l: Seq<char>)
    requires
        l.len() >= 3,
    ensures
        l[0] == '+' && !(l[1] == '+' && l[2] == '+') ==> display::coloured(l) == "\x1b[32m"@ + l
            + "\x1b[0m"@,
        l[0] == '-' && !(l[1] == '-' && l[2] == '-') ==> display::coloured(l) == "\x1b[31m"@ + l
            + "\x1b[0m"@,
        l[0] == l[1] && l[1] == l[2] || l[0] != '+' && l[0] != '-' ==> display::coloured(l) == l,
{
    reveal_strlit("+");
    reveal_strlit("-");
    reveal_strlit("+++");
    reveal_strlit("---");
    assert(l.subrange(0, 1)[0] == l[0]);
    if l[0] == '+' {
        assert(l.subrange(0, 1) =~= "+"@);
    }
    if l[0] == '-' {
        assert(l.subrange(0, 1) =~= "-"@);
    }
    if text::starts_with(l, "+++"@) {
        assert(l.subrange(0, 3)[0] == l[0] && l.subrange(0, 3)[1] == l[1] && l.subrange(0, 3)[2]
            == l[2]);
    }
    if text::starts_with(l, "---"@) {
        assert(l.subrange(0, 3)[0] == l[0] && l.subrange(0, 3)[1] == l[1] && l.subrange(0, 3)[2]
            == l[2]);
    }
    if l[0] == '+' && l[1] == '+' && l[2] == '+' {
        assert(l.subrange(0, 3) =~= "+++"@);
    }
    if l[0] == '-' && l[1] == '-' && l[2] == '-' {
        assert(l.subrange(0, 3) =~= "---"@);
    }
}

/// A limit is read from the variable of its name, whatever other variables there are, and only
/// where that is a number that fits.
pub proof fn law_limits_are_read_from_their_variable(
    vars: Seq<(Seq<char>, Seq<char>)>,
    name: Seq<char>,
    i: int,
    n: nat,
    max: nat,
)
    requires
        0 <= i < vars.len(),
        vars[i].0 == name,
        forall|j: int| 0 <= j < i ==> (#[trigger] vars[j]).0 != name,
    ensures
        vars[i].1 == number::decimal(n) && n <= max ==> startup::number_in(vars, name, max) == Some(
            n,
        ),
        startup::number_in(vars, name, max) matches Some(k) ==> k <= max,
        vars[i].1.len() == 0 ==> startup::number_in(vars, name, max) is None,
{
    lemma_first_variable(vars, name, i, 0);
    number::lemma_decimal_parses(n);
}

proof fn lemma_first_variable(
    vars: Seq<(Seq<char>, Seq<char>)>,
    name: Seq<char>,
    i: int,
    from: int,
)
    requires
        0 <= from <= i < vars.len(),
        vars[i].0 == name,
        forall|j: int| 0 <= j < i ==> (#[trigger] vars[j]).0 != name,
    ensures
        environment::variable(vars, name, from) == Some(vars[i].1),
    decreases i - from,
{
    if from < i {
        assert(vars[from].0 != name);
        lemma_first_variable(vars, name, i, from + 1);
    }
}

/// What is taken back is told file by file, each with whether it is put back or removed; where
/// nothing is taken back, that is said with the event.
pub proof fn law_every_file_taken_back_is_told(
    event: Seq<char>,
    plan: Seq<(Seq<char>, bool)>,
    i: int,
)
    ensures
        ({
            let lines = undo::plan_lines(event, plan);
            &&& lines.len() == plan.len() + 1
            &&& text::contains(lines[0], event)
            &&& 0 <= i < plan.len() ==> text::contains(lines[i + 1], plan[i].0)
            &&& 0 <= i < plan.len() && plan[i].1 ==> lines[i + 1] == "  "@ + plan[i].0
                + " — reverted to the snapshot before that write"@
            &&& 0 <= i < plan.len() && !plan[i].1 ==> lines[i + 1] == "  "@ + plan[i].0
                + " — removed (it was created at/after this point)"@
        }),
{
    let lines = undo::plan_lines(event, plan);
    if plan.len() == 0 {
        let head = "Nothing to undo at event "@;
        let line = head + event
            + " (not a write, or already at the workspace's HEAD state)."@;
        assert(line.subrange(head.len() as int, (head.len() + event.len()) as int) =~= event);
        assert(text::occurs(line, event, head.len() as int));
    } else {
        let head = "Restoring "@ + number::decimal(plan.len())
            + " file(s) to their state at event "@;
        let line = head + event + ":"@;
        assert(line.subrange(head.len() as int, (head.len() + event.len()) as int) =~= event);
        assert(text::occurs(line, event, head.len() as int));
        assert(lines[0] == line);
    }
    if 0 <= i < plan.len() {
        let line = undo::restored_line(plan[i].0, plan[i].1);
        assert(lines[i + 1] == line);
        let at = "  "@.len() as int;
        assert(line.subrange(at, at + plan[i].0.len()) =~= plan[i].0);
        assert(text::occurs(line, plan[i].0, at));
    }
}

/// Every write is listed in a line of its own, in the order given, with its event, its time
/// and its file.
pub proof fn law_every_write_is_told(
    v: Seq<(Seq<char>, Seq<char>, Seq<char>)>,
    times: Seq<Seq<char>>,
    i: int,
)
    ensures
        v.len() == 0 ==> undo::write_lines(v, times) == seq![
            "No file writes recorded in this workspace yet."@,
        ],
        v.len() > 0 ==> undo::write_lines(v, times).len() == v.len() + 2,
        0 <= i < v.len() ==> undo::write_lines(v, times)[i + 1] == "  "@ + v[i].0 + "  "@ + times[i]
            + "  "@ + v[i].2,
{
}

} // verus!

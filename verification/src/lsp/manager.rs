//! Which language servers run: approval, restarts, capacity and idleness.

use vstd::prelude::*;
use vstd::string::*;
use crate::lsp::adapters;
use crate::lsp::adapters::{adapter_language_id, AdapterView, Config, ServerAdapter};
use crate::lsp::environment;
use crate::lsp::environment::{detect_root, root_probes};
use crate::lsp::errors::Error;
use crate::lsp::reports::QueryReport;
use crate::number;
use crate::order;
use crate::order::sorted_distinct;
use crate::paths;
use crate::paths::{is_below, same_path};
use crate::text;
use crate::text::{join, same};

verus! {

/// The longest wait before a broken server is started again.
pub const MAX_RESTART_BACKOFF: u64 = 60_000;

/// What became of a server that was started.
pub enum ClientState {
    Starting,
    Ready,
    /// It ran and is gone.
    Crashed,
    /// It never ran, and this is why.
    Broken(String),
}

/// What a [`ClientState`] holds.
pub ghost enum StateView {
    Starting,
    Ready,
    Crashed,
    Broken(Seq<char>),
}

impl View for ClientState {
    type V = StateView;

    open spec fn view(&self) -> StateView {
        match self {
            ClientState::Starting => StateView::Starting,
            ClientState::Ready => StateView::Ready,
            ClientState::Crashed => StateView::Crashed,
            ClientState::Broken(e) => StateView::Broken(e@),
        }
    }
}

/// A server of a root. Times are in milliseconds of one clock.
pub struct ClientEntry {
    pub server: String,
    pub root: String,
    pub state: ClientState,
    pub created_at: u64,
    pub last_used: u64,
    /// Failed starts in a row.
    pub failures: u32,
}

/// What a [`ClientEntry`] holds.
#[verifier::ext_equal]
pub ghost struct EntryView {
    pub server: Seq<char>,
    pub root: Seq<char>,
    pub state: StateView,
    pub created_at: u64,
    pub last_used: u64,
    pub failures: u32,
}

impl View for ClientEntry {
    type V = EntryView;

    open spec fn view(&self) -> EntryView {
        EntryView {
            server: self.server@,
            root: self.root@,
            state: self.state@,
            created_at: self.created_at,
            last_used: self.last_used,
            failures: self.failures,
        }
    }
}

/// What each entry holds.
pub open spec fn entries(v: Seq<ClientEntry>) -> Seq<EntryView> {
    v.map_values(|e: ClientEntry| e@)
}

/// The keys of servers, by server and root.
pub open spec fn keys(v: Seq<(String, String)>) -> Seq<(Seq<char>, Seq<char>)> {
    v.map_values(|k: (String, String)| (k.0@, k.1@))
}

#[derive(Debug, Clone, Copy, PartialEq, Eq, Structural)]
pub enum ServerState {
    Starting,
    Ready,
    Broken,
    Crashed,
}

pub struct ServerStatus {
    pub server: String,
    pub root: String,
    pub state: ServerState,
    pub idle_ms: u64,
    pub detail: Option<String>,
}

/// What a [`ServerStatus`] holds.
#[verifier::ext_equal]
pub ghost struct StatusView {
    pub server: Seq<char>,
    pub root: Seq<char>,
    pub state: ServerState,
    pub idle_ms: u64,
    pub detail: Option<Seq<char>>,
}

impl View for ServerStatus {
    type V = StatusView;

    open spec fn view(&self) -> StatusView {
        StatusView {
            server: self.server@,
            root: self.root@,
            state: self.state,
            idle_ms: self.idle_ms,
            detail: text::view_of(self.detail),
        }
    }
}

/// What each status holds.
pub open spec fn statuses(v: Seq<ServerStatus>) -> Seq<StatusView> {
    v.map_values(|s: ServerStatus| s@)
}

/// A server that would be started, and whether that takes an approval.
pub struct ServerStartPreview {
    pub server: String,
    pub root: String,
    pub command: Vec<String>,
    pub approval_required: bool,
}

/// A server that serves a file, and the root of the file's project.
pub struct Resolved {
    pub adapter: ServerAdapter,
    pub root: String,
}

/// What each [`Resolved`] holds.
pub open spec fn pairs(v: Seq<Resolved>) -> Seq<(AdapterView, Seq<char>)> {
    v.map_values(|r: Resolved| (r.adapter@, r.root@))
}

/// The servers that serve a file, each with the root of the file's project.
pub open spec fn matching(
    servers: Seq<AdapterView>,
    path: Seq<char>,
    is_dir: bool,
    workspace: Seq<char>,
    files: Seq<Seq<char>>,
) -> Seq<(AdapterView, Seq<char>)>
    decreases servers.len(),
{
    if servers.len() == 0 {
        seq![]
    } else {
        let head = matching(servers.drop_last(), path, is_dir, workspace, files);
        let a = servers.last();
        if adapters::language_for(a, path) is Some {
            head.push(
                (a, environment::root_of(path, is_dir, workspace, a.root_markers, files)),
            )
        } else {
            head
        }
    }
}

/// Accepts servers that take an approval.
pub open spec fn gated() -> spec_fn((AdapterView, Seq<char>)) -> bool {
    |p: (AdapterView, Seq<char>)| p.0.requires_approval
}

/// The first server with an id, from the `i`-th on.
pub open spec fn server_from(
    v: Seq<(AdapterView, Seq<char>)>,
    id: Seq<char>,
    i: int,
) -> Option<(AdapterView, Seq<char>)>
    decreases v.len() - i,
{
    if i < 0 || i >= v.len() {
        None
    } else if v[i].0.id == id {
        Some(v[i])
    } else {
        server_from(v, id, i + 1)
    }
}

/// The ids of servers.
pub open spec fn ids(v: Seq<(AdapterView, Seq<char>)>) -> Seq<Seq<char>> {
    v.map_values(|p: (AdapterView, Seq<char>)| p.0.id)
}

/// The server that a start is about: the one that is named; else the only one that
/// takes an approval; else the only one.
pub open spec fn start_choice(v: Seq<(AdapterView, Seq<char>)>, id: Option<Seq<char>>) -> Option<
    (AdapterView, Seq<char>),
> {
    match id {
        Some(id) => server_from(v, id, 0),
        None => {
            let g = v.filter(gated());
            if g.len() == 1 {
                Some(g[0])
            } else if g.len() == 0 && v.len() == 1 {
                Some(v[0])
            } else {
                None
            }
        },
    }
}

/// The servers between which a start has to choose.
pub open spec fn start_options(v: Seq<(AdapterView, Seq<char>)>) -> Seq<char> {
    let g = v.filter(gated());
    text::joined(
        order::distinct(
            if g.len() == 0 {
                ids(v)
            } else {
                ids(g)
            },
        ),
        ", "@,
    )
}

/// The position of the entry for a server and root, from the `i`-th on.
pub open spec fn entry_at(v: Seq<EntryView>, server: Seq<char>, root: Seq<char>, i: int) -> Option<
    int,
>
    decreases v.len() - i,
{
    if i < 0 || i >= v.len() {
        None
    } else if v[i].server == server && paths::same_place(v[i].root, root) {
        Some(i)
    } else {
        entry_at(v, server, root, i + 1)
    }
}

pub proof fn lemma_entry_at(v: Seq<EntryView>, server: Seq<char>, root: Seq<char>, i: int)
    requires
        0 <= i,
    ensures
        match entry_at(v, server, root, i) {
            Some(j) => i <= j < v.len() && v[j].server == server && paths::same_place(v[j].root, root),
            None => forall|j: int|
                i <= j < v.len() ==> !((#[trigger] v[j]).server == server && paths::same_place(v[j].root, root)),
        },
    decreases v.len() - i,
{
    if i < v.len() && !(v[i].server == server && paths::same_place(v[i].root, root)) {
        lemma_entry_at(v, server, root, i + 1);
    }
}

/// No two entries are about the same server and root.
pub open spec fn separate(v: Seq<EntryView>) -> bool {
    forall|i: int, j: int|
        #![trigger v[i], v[j]]
        0 <= i < j < v.len() ==> !(v[i].server == v[j].server && paths::same_place(v[i].root, v[j].root))
}

/// How much failed starts lengthen the wait: twice for each, up to six of them.
pub open spec fn factor(failures: u32) -> nat {
    if failures == 0 {
        1
    } else if failures == 1 {
        2
    } else if failures == 2 {
        4
    } else if failures == 3 {
        8
    } else if failures == 4 {
        16
    } else if failures == 5 {
        32
    } else {
        64
    }
}

/// The wait before a server that failed this often is started again.
pub open spec fn backoff(base: u64, failures: u32) -> nat {
    if base * factor(failures) > MAX_RESTART_BACKOFF {
        MAX_RESTART_BACKOFF as nat
    } else {
        (base * factor(failures)) as nat
    }
}

/// The wait before a server that failed this often is started again.
pub fn restart_backoff(base: u64, failures: u32) -> (out: u64)
    ensures
        out == backoff(base, failures),
{
    let f: u64 = if failures == 0 {
        1
    } else if failures == 1 {
        2
    } else if failures == 2 {
        4
    } else if failures == 3 {
        8
    } else if failures == 4 {
        16
    } else if failures == 5 {
        32
    } else {
        64
    };
    assert(f == factor(failures));
    if base >= MAX_RESTART_BACKOFF {
        assert(base * f >= base) by (nonlinear_arith)
            requires
                f >= 1,
        ;
        return MAX_RESTART_BACKOFF;
    }
    assert(base * f <= 60_000 * 64) by (nonlinear_arith)
        requires
            base <= 60_000,
            f <= 64,
    ;
    let wait: u64 = base * f;
    if wait > MAX_RESTART_BACKOFF {
        MAX_RESTART_BACKOFF
    } else {
        wait
    }
}

/// The time since `then`.
pub open spec fn since(now: u64, then: u64) -> nat {
    if now > then {
        (now - then) as nat
    } else {
        0
    }
}

fn elapsed(now: u64, then: u64) -> (out: u64)
    ensures
        out == since(now, then),
{
    if now > then {
        now - then
    } else {
        0
    }
}

/// The limits that a manager works within.
pub struct Limits {
    pub max_servers: usize,
    pub max_restart_attempts: u32,
    pub restart_backoff: u64,
}

/// A broken server is due for another start: it has attempts left, and its wait is
/// over.
pub open spec fn due(e: EntryView, limits: Limits, now: u64) -> bool {
    &&& e.state is Crashed || e.state is Broken
    &&& e.failures < limits.max_restart_attempts
    &&& since(now, e.created_at) >= backoff(limits.restart_backoff, e.failures)
}

/// The started server that was used least recently, the first of several.
pub open spec fn oldest(v: Seq<EntryView>) -> Option<int>
    decreases v.len(),
{
    if v.len() == 0 {
        None
    } else {
        let head = oldest(v.drop_last());
        if v.last().state is Starting {
            head
        } else {
            match head {
                Some(i) => if v.last().last_used < v[i].last_used {
                    Some(v.len() - 1)
                } else {
                    head
                },
                None => Some(v.len() - 1),
            }
        }
    }
}

proof fn lemma_oldest(v: Seq<EntryView>)
    ensures
        match oldest(v) {
            Some(i) => {
                &&& 0 <= i < v.len()
                &&& !(v[i].state is Starting)
                &&& forall|j: int|
                    0 <= j < v.len() && !((#[trigger] v[j]).state is Starting) ==> v[i].last_used
                        <= v[j].last_used
            },
            None => forall|j: int| 0 <= j < v.len() ==> (#[trigger] v[j]).state is Starting,
        },
    decreases v.len(),
{
    if v.len() > 0 {
        let head = v.drop_last();
        lemma_oldest(head);
        assert forall|j: int| 0 <= j < head.len() implies v[j] == #[trigger] head[j] by {}
        match oldest(head) {
            Some(i) => {
                assert(v[i] == head[i]);
                assert forall|j: int|
                    0 <= j < v.len() && !((#[trigger] v[j]).state is Starting) implies v[oldest(
                    v,
                )->0].last_used <= v[j].last_used by {
                    if j < head.len() {
                        assert(v[j] == head[j]);
                    }
                }
            },
            None => {
                assert forall|j: int|
                    0 <= j < head.len() implies (#[trigger] v[j]).state is Starting by {
                    assert(v[j] == head[j]);
                }
            },
        }
    }
}

/// What asking for a server does.
#[verifier::ext_equal]
pub ghost struct AdmissionView {
    /// The servers afterwards.
    pub clients: Seq<EntryView>,
    /// The broken server that is started anew.
    pub retired: Option<EntryView>,
    /// The server that made room.
    pub evicted: Option<EntryView>,
    /// Whether there was no room.
    pub full: bool,
    /// Whether the server is now to be started.
    pub fresh: bool,
}

/// A new server.
pub open spec fn new_entry(server: Seq<char>, root: Seq<char>, now: u64, failures: u32) -> EntryView {
    EntryView {
        server,
        root,
        state: StateView::Starting,
        created_at: now,
        last_used: now,
        failures,
    }
}

/// Adds a server, in place of the least recently used one where there is no room. A
/// server that still starts keeps its place.
pub open spec fn make_room(
    v: Seq<EntryView>,
    limits: Limits,
    entry: EntryView,
    retired: Option<EntryView>,
) -> AdmissionView {
    if v.len() >= limits.max_servers {
        match oldest(v) {
            Some(j) => AdmissionView {
                clients: v.remove(j).push(entry),
                retired,
                evicted: Some(v[j]),
                full: false,
                fresh: true,
            },
            None => AdmissionView {
                clients: v,
                retired,
                evicted: None,
                full: true,
                fresh: false,
            },
        }
    } else {
        AdmissionView { clients: v.push(entry), retired, evicted: None, full: false, fresh: true }
    }
}

/// What asking for a server does: one that runs is used again, a broken one whose
/// wait is over is started anew, and a new one takes a place.
pub open spec fn admission(
    v: Seq<EntryView>,
    limits: Limits,
    server: Seq<char>,
    root: Seq<char>,
    now: u64,
) -> AdmissionView {
    match entry_at(v, server, root, 0) {
        Some(i) => if due(v[i], limits, now) {
            make_room(
                v.remove(i),
                limits,
                new_entry(server, root, now, number::one_more(v[i].failures)),
                Some(v[i]),
            )
        } else {
            AdmissionView {
                clients: v.update(i, EntryView { last_used: now, ..v[i] }),
                retired: None,
                evicted: None,
                full: false,
                fresh: false,
            }
        },
        None => make_room(v, limits, new_entry(server, root, now, 0), None),
    }
}

/// Whether a server may run, and what else has to happen first.
pub enum Admission {
    /// It takes an approval that was not given.
    ApprovalRequired,
    /// Every place is held by a server that still starts.
    Full,
    /// It may be used; it is to be started where `fresh`. The others are to be shut
    /// down.
    Granted { fresh: bool, retired: Option<ClientEntry>, evicted: Option<ClientEntry> },
}

pub open spec fn entry_view(e: Option<ClientEntry>) -> Option<EntryView> {
    match e {
        Some(e) => Some(e@),
        None => None,
    }
}

/// The status of a server.
pub open spec fn status_of(e: EntryView, now: u64) -> StatusView {
    StatusView {
        server: e.server,
        root: e.root,
        state: match e.state {
            StateView::Starting => ServerState::Starting,
            StateView::Ready => ServerState::Ready,
            StateView::Crashed => ServerState::Crashed,
            StateView::Broken(_) => ServerState::Broken,
        },
        idle_ms: since(now, e.last_used) as u64,
        detail: match e.state {
            StateView::Crashed => Some("language server disconnected"@),
            StateView::Broken(m) => Some(m),
            _ => None,
        },
    }
}

/// A server that ran and was not used for long.
pub open spec fn idle(e: EntryView, timeout: u64, now: u64) -> bool {
    (e.state is Ready || e.state is Crashed) && since(now, e.last_used) >= timeout
}

/// Accepts servers that are idle.
pub open spec fn idlers(timeout: u64, now: u64) -> spec_fn(EntryView) -> bool {
    |e: EntryView| idle(e, timeout, now)
}

/// Accepts servers that are not idle.
pub open spec fn workers(timeout: u64, now: u64) -> spec_fn(EntryView) -> bool {
    |e: EntryView| !idle(e, timeout, now)
}

pub struct LspManager {
    pub workspace: String,
    pub config: Config,
    pub clients: Vec<ClientEntry>,
    pub approved_servers: Vec<(String, String)>,
}

fn is_key(k: &(String, String), server: &str, root: &str) -> (yes: bool)
    ensures
        yes == (k.0@ == server@ && paths::same_place(k.1@, root@)),
{
    same(k.0.as_str(), server) && same_path(k.1.as_str(), root)
}

fn find_entry(v: &Vec<ClientEntry>, server: &str, root: &str) -> (out: Option<usize>)
    ensures
        match out {
            Some(i) => entry_at(entries(v@), server@, root@, 0) == Some(i as int) && i < v@.len(),
            None => entry_at(entries(v@), server@, root@, 0) is None,
        },
{
    let mut i: usize = 0;
    while i < v.len()
        invariant
            i <= v@.len(),
            entry_at(entries(v@), server@, root@, 0) == entry_at(
                entries(v@),
                server@,
                root@,
                i as int,
            ),
        decreases v@.len() - i,
    {
        assert(entries(v@)[i as int] == v@[i as int]@);
        if same(v[i].server.as_str(), server) && same_path(v[i].root.as_str(), root) {
            return Some(i);
        }
        i = i + 1;
    }
    None
}

fn find_oldest(v: &Vec<ClientEntry>) -> (out: Option<usize>)
    ensures
        match out {
            Some(i) => oldest(entries(v@)) == Some(i as int) && i < v@.len(),
            None => oldest(entries(v@)) is None,
        },
{
    let ghost all = entries(v@);
    let mut best: Option<usize> = None;
    let mut i: usize = 0;
    while i < v.len()
        invariant
            i <= v@.len(),
            all == entries(v@),
            match best {
                Some(b) => oldest(all.take(i as int)) == Some(b as int) && b < i,
                None => oldest(all.take(i as int)) is None,
            },
        decreases v@.len() - i,
    {
        assert(all.take(i + 1).drop_last() =~= all.take(i as int));
        assert(all[i as int] == v@[i as int]@);
        let started = match v[i].state {
            ClientState::Starting => false,
            _ => true,
        };
        if started {
            match best {
                Some(b) => {
                    assert(all.take(i + 1)[b as int] == v@[b as int]@);
                    assert(all.take(i as int)[b as int] == v@[b as int]@);
                    if v[i].last_used < v[b].last_used {
                        best = Some(i);
                    }
                },
                None => {
                    best = Some(i);
                },
            }
        }
        i = i + 1;
    }
    assert(all.take(i as int) =~= all);
    best
}

proof fn lemma_without(v: Seq<EntryView>, i: int)
    requires
        0 <= i < v.len(),
        separate(v),
    ensures
        separate(v.remove(i)),
        entry_at(v.remove(i), v[i].server, v[i].root, 0) is None,
{
    let w = v.remove(i);
    assert forall|a: int, b: int|
        #![trigger w[a], w[b]]
        0 <= a < b < w.len() implies !(w[a].server == w[b].server && paths::same_place(w[a].root, w[b].root)) by {
        let x = if a < i {
            a
        } else {
            a + 1
        };
        let y = if b < i {
            b
        } else {
            b + 1
        };
        assert(w[a] == v[x] && w[b] == v[y]);
    }
    lemma_entry_at(w, v[i].server, v[i].root, 0);
    match entry_at(w, v[i].server, v[i].root, 0) {
        Some(j) => {
            let x = if j < i {
                j
            } else {
                j + 1
            };
            assert(w[j] == v[x]);
            if x < i {
                assert(v[x].server == v[i].server && paths::same_place(v[x].root, v[i].root));
            } else {
                assert(v[i].server == v[x].server && paths::same_place(v[i].root, v[x].root));
            }
        },
        None => {},
    }
}

proof fn lemma_absent_alike(v: Seq<EntryView>, server: Seq<char>, a: Seq<char>, b: Seq<char>)
    requires
        paths::same_place(a, b),
        entry_at(v, server, a, 0) is None,
    ensures
        entry_at(v, server, b, 0) is None,
{
    lemma_entry_at(v, server, a, 0);
    lemma_entry_at(v, server, b, 0);
}

proof fn lemma_pushed(v: Seq<EntryView>, e: EntryView)
    requires
        separate(v),
        entry_at(v, e.server, e.root, 0) is None,
    ensures
        separate(v.push(e)),
{
    lemma_entry_at(v, e.server, e.root, 0);
    let w = v.push(e);
    assert forall|a: int, b: int|
        #![trigger w[a], w[b]]
        0 <= a < b < w.len() implies !(w[a].server == w[b].server && paths::same_place(w[a].root, w[b].root)) by {
        assert(w[a] == v[a]);
        if b < v.len() {
            assert(w[b] == v[b]);
        }
    }
}

proof fn lemma_absent_without(v: Seq<EntryView>, server: Seq<char>, root: Seq<char>, i: int)
    requires
        0 <= i < v.len(),
        entry_at(v, server, root, 0) is None,
    ensures
        entry_at(v.remove(i), server, root, 0) is None,
{
    let w = v.remove(i);
    lemma_entry_at(v, server, root, 0);
    lemma_entry_at(w, server, root, 0);
    match entry_at(w, server, root, 0) {
        Some(j) => {
            let x = if j < i {
                j
            } else {
                j + 1
            };
            assert(w[j] == v[x]);
        },
        None => {},
    }
}

proof fn lemma_make_room(
    v: Seq<EntryView>,
    limits: Limits,
    entry: EntryView,
    retired: Option<EntryView>,
)
    requires
        separate(v),
        v.len() <= limits.max_servers,
        entry_at(v, entry.server, entry.root, 0) is None,
    ensures
        separate(make_room(v, limits, entry, retired).clients),
        make_room(v, limits, entry, retired).clients.len() <= limits.max_servers,
{
    lemma_oldest(v);
    if v.len() >= limits.max_servers {
        match oldest(v) {
            Some(j) => {
                lemma_without(v, j);
                lemma_absent_without(v, entry.server, entry.root, j);
                lemma_pushed(v.remove(j), entry);
            },
            None => {},
        }
    } else {
        lemma_pushed(v, entry);
    }
}

/// However servers are asked for, each server and root has one entry, and there are
/// no more entries than places.
pub proof fn law_places_are_kept(
    v: Seq<EntryView>,
    limits: Limits,
    server: Seq<char>,
    root: Seq<char>,
    now: u64,
)
    requires
        separate(v),
        v.len() <= limits.max_servers,
    ensures
        separate(admission(v, limits, server, root, now).clients),
        admission(v, limits, server, root, now).clients.len() <= limits.max_servers,
{
    lemma_entry_at(v, server, root, 0);
    match entry_at(v, server, root, 0) {
        Some(i) => {
            if due(v[i], limits, now) {
                lemma_without(v, i);
                lemma_absent_alike(v.remove(i), server, v[i].root, root);
                lemma_make_room(
                    v.remove(i),
                    limits,
                    new_entry(server, root, now, number::one_more(v[i].failures)),
                    Some(v[i]),
                );
            } else {
                let w = v.update(i, EntryView { last_used: now, ..v[i] });
                assert forall|a: int, b: int|
                    #![trigger w[a], w[b]]
                    0 <= a < b < w.len() implies !(w[a].server == w[b].server && paths::same_place(w[a].root, w[b].root)) by {
                    assert(v[a].server == w[a].server && paths::same_place(v[a].root, w[a].root));
                    assert(v[b].server == w[b].server && paths::same_place(v[b].root, w[b].root));
                }
            }
        },
        None => {
            lemma_make_room(v, limits, new_entry(server, root, now, 0), None);
        },
    }
}

/// A server that makes room has started, and none that has started was used less
/// recently. A server that still starts is never stopped.
pub proof fn law_least_recently_used_makes_room(
    v: Seq<EntryView>,
    limits: Limits,
    server: Seq<char>,
    root: Seq<char>,
    now: u64,
)
    requires
        separate(v),
    ensures
        admission(v, limits, server, root, now).evicted matches Some(e) ==> {
            &&& !(e.state is Starting)
            &&& forall|j: int|
                0 <= j < v.len() && !((#[trigger] v[j]).state is Starting) && !(v[j].server
                    == server && paths::same_place(v[j].root, root)) ==> e.last_used <= v[j].last_used
        },
        admission(v, limits, server, root, now).retired matches Some(e) ==> !(e.state is Starting),
        admission(v, limits, server, root, now).full ==> forall|j: int|
            0 <= j < v.len() && !((#[trigger] v[j]).server == server && paths::same_place(v[j].root, root))
                ==> v[j].state is Starting,
{
    lemma_entry_at(v, server, root, 0);
    match entry_at(v, server, root, 0) {
        Some(i) => {
            let w = v.remove(i);
            lemma_oldest(w);
            let a = admission(v, limits, server, root, now);
            match a.evicted {
                Some(e) => {
                    assert forall|j: int|
                        0 <= j < v.len() && !((#[trigger] v[j]).state is Starting) && !(v[j].server
                            == server && paths::same_place(v[j].root, root)) implies e.last_used
                        <= v[j].last_used by {
                        if j < i {
                            assert(w[j] == v[j]);
                        } else {
                            assert(w[j - 1] == v[j]);
                        }
                    }
                },
                None => {},
            }
            if a.full {
                assert forall|j: int|
                    0 <= j < v.len() && !((#[trigger] v[j]).server == server && paths::same_place(v[j].root, root)) implies v[j].state is Starting by {
                    if j < i {
                        assert(w[j] == v[j]);
                    } else {
                        assert(w[j - 1] == v[j]);
                    }
                }
            }
        },
        None => {
            lemma_oldest(v);
        },
    }
}

/// A server that failed too often stays as it is, however long ago.
pub proof fn law_parked_servers_stay(
    v: Seq<EntryView>,
    limits: Limits,
    server: Seq<char>,
    root: Seq<char>,
    now: u64,
)
    requires
        entry_at(v, server, root, 0) is Some,
        v[entry_at(v, server, root, 0)->0].failures >= limits.max_restart_attempts,
    ensures
        !admission(v, limits, server, root, now).fresh,
        admission(v, limits, server, root, now).retired is None,
{
}

/// The wait before a restart never shrinks as failures add up, and is bounded.
pub proof fn law_backoff_grows(base: u64, few: u32, many: u32)
    requires
        few <= many,
    ensures
        backoff(base, few) <= backoff(base, many) <= MAX_RESTART_BACKOFF,
{
    assert(base * factor(few) <= base * factor(many)) by (nonlinear_arith)
        requires
            factor(few) <= factor(many),
    ;
}

impl LspManager {
    pub open spec fn limits(self) -> Limits {
        Limits {
            max_servers: self.config.max_servers,
            max_restart_attempts: self.config.max_restart_attempts,
            restart_backoff: self.config.restart_backoff,
        }
    }

    /// Each server and root has one entry, and there are no more entries than places.
    pub open spec fn wf(self) -> bool {
        &&& separate(entries(self.clients@))
        &&& self.clients@.len() <= self.config.max_servers
    }

    /// The approval was given.
    pub open spec fn approves(self, server: Seq<char>, root: Seq<char>) -> bool {
        exists|i: int|
            0 <= i < keys(self.approved_servers@).len() && keys(self.approved_servers@)[i].0 == server
                && paths::same_place((#[trigger] keys(self.approved_servers@)[i]).1, root)
    }

    /// A manager of a workspace, whose path is as the file system names it.
    pub fn new(workspace: String, config: Config) -> (out: LspManager)
        ensures
            out.wf(),
            out.workspace == workspace,
            out.config == config,
            entries(out.clients@) == Seq::<EntryView>::empty(),
            keys(out.approved_servers@) == Seq::<(Seq<char>, Seq<char>)>::empty(),
    {
        let out = LspManager {
            workspace,
            config,
            clients: Vec::new(),
            approved_servers: Vec::new(),
        };
        assert(entries(out.clients@) =~= Seq::<EntryView>::empty());
        assert(keys(out.approved_servers@) =~= Seq::<(Seq<char>, Seq<char>)>::empty());
        out
    }

    /// Some server serves the file.
    pub open spec fn serves(self, path: Seq<char>) -> bool {
        exists|i: int|
            0 <= i < self.config.servers@.len() && adapters::language_for(
                #[trigger] adapters::adapters(self.config.servers@)[i],
                path,
            ) is Some
    }

    /// Whether some server serves the file.
    pub fn supports(&self, path: &str) -> (yes: bool)
        ensures
            yes == self.serves(path@),
    {
        let mut i: usize = 0;
        while i < self.config.servers.len()
            invariant
                i <= self.config.servers@.len(),
                forall|j: int|
                    0 <= j < i ==> adapters::language_for(
                        #[trigger] adapters::adapters(self.config.servers@)[j],
                        path@,
                    ) is None,
            decreases self.config.servers@.len() - i,
        {
            assert(adapters::adapters(self.config.servers@)[i as int]
                == self.config.servers@[i as int]@);
            if adapter_language_id(&self.config.servers[i], path).is_some() {
                return true;
            }
            i = i + 1;
        }
        false
    }

    /// The servers that serve the file, with the roots of its projects.
    pub open spec fn candidates(self, path: Seq<char>, is_dir: bool, files: Seq<Seq<char>>) -> Seq<
        (AdapterView, Seq<char>),
    > {
        matching(adapters::adapters(self.config.servers@), path, is_dir, self.workspace@, files)
    }

    /// Why the file has no servers.
    pub open spec fn refusal(self, path: Seq<char>, is_dir: bool, files: Seq<Seq<char>>) -> Option<
        Seq<char>,
    > {
        if !self.config.enabled {
            Some(Error::Disabled.message())
        } else if !paths::below(path, self.workspace@) {
            Some("path is outside the workspace: "@ + path)
        } else if self.candidates(path, is_dir, files).len() == 0 {
            Some("no configured language server for: "@ + path)
        } else {
            None
        }
    }

    /// The servers that serve the file, or why there are none. `files` are those of
    /// the file's root markers that exist.
    pub fn resolve_servers(&self, path: &str, is_dir: bool, files: &Vec<String>) -> (out: Result<
        Vec<Resolved>,
        Error,
    >)
        ensures
            match out {
                Ok(v) => {
                    &&& self.refusal(path@, is_dir, text::views(files@)) is None
                    &&& pairs(v@) == self.candidates(path@, is_dir, text::views(files@))
                },
                Err(e) => {
                    &&& self.refusal(path@, is_dir, text::views(files@)) == Some(e.message())
                    &&& e is Disabled || e is OutsideWorkspace || e is UnsupportedFile
                },
            },
    {
        if !self.config.enabled {
            return Err(Error::Disabled);
        }
        if !is_below(path, self.workspace.as_str()) {
            return Err(Error::OutsideWorkspace(path.to_owned()));
        }
        let ghost all = adapters::adapters(self.config.servers@);
        let mut out: Vec<Resolved> = Vec::new();
        let mut i: usize = 0;
        assert(pairs(out@) =~= matching(
            all.take(0),
            path@,
            is_dir,
            self.workspace@,
            text::views(files@),
        ));
        while i < self.config.servers.len()
            invariant
                i <= self.config.servers@.len(),
                all == adapters::adapters(self.config.servers@),
                pairs(out@) == matching(
                    all.take(i as int),
                    path@,
                    is_dir,
                    self.workspace@,
                    text::views(files@),
                ),
            decreases self.config.servers@.len() - i,
        {
            let ghost was = out@;
            assert(all.take(i + 1).drop_last() =~= all.take(i as int));
            let adapter = &self.config.servers[i];
            assert(all[i as int] == adapter@);
            if adapter_language_id(adapter, path).is_some() {
                let root = detect_root(
                    path,
                    is_dir,
                    self.workspace.as_str(),
                    &adapter.root_markers,
                    files,
                );
                let ghost r = root@;
                out.push(Resolved { adapter: adapter.copy(), root });
                assert(pairs(out@) =~= pairs(was).push((all[i as int], r)));
            }
            i = i + 1;
        }
        assert(all.take(i as int) =~= all);
        assert(pairs(out@).len() == out@.len());
        if out.len() == 0 {
            return Err(Error::UnsupportedFile(path.to_owned()));
        }
        Ok(out)
    }

    /// The places where root markers of the file's projects could lie.
    pub fn marker_probes(&self, path: &str, is_dir: bool) -> (out: Vec<Vec<String>>)
        ensures
            out@.len() == self.config.servers@.len(),
            forall|i: int|
                0 <= i < out@.len() ==> text::views((#[trigger] out@[i])@) == environment::probes(
                    paths::absolute(path@),
                    environment::start_dir(path@, is_dir),
                    self.workspace@,
                    self.config.servers@[i]@.root_markers,
                ),
    {
        let mut out: Vec<Vec<String>> = Vec::new();
        let mut i: usize = 0;
        while i < self.config.servers.len()
            invariant
                i <= self.config.servers@.len(),
                out@.len() == i,
                forall|j: int|
                    0 <= j < i ==> text::views((#[trigger] out@[j])@) == environment::probes(
                        paths::absolute(path@),
                        environment::start_dir(path@, is_dir),
                        self.workspace@,
                        self.config.servers@[j]@.root_markers,
                    ),
            decreases self.config.servers@.len() - i,
        {
            out.push(
                root_probes(
                    path,
                    is_dir,
                    self.workspace.as_str(),
                    &self.config.servers[i].root_markers,
                ),
            );
            i = i + 1;
        }
        out
    }

    /// The server that a start is about, or why there is none.
    pub fn resolve_start_server(
        &self,
        path: &str,
        is_dir: bool,
        files: &Vec<String>,
        server_id: Option<&str>,
    ) -> (out: Result<Resolved, Error>)
        ensures
            ({
                let all = self.candidates(path@, is_dir, text::views(files@));
                let id = match server_id {
                    Some(s) => Some(s@),
                    None => None,
                };
                match out {
                    Ok(r) => {
                        &&& self.refusal(path@, is_dir, text::views(files@)) is None
                        &&& start_choice(all, id) == Some((r.adapter@, r.root@))
                    },
                    Err(e) => match self.refusal(path@, is_dir, text::views(files@)) {
                        Some(m) => e.message() == m,
                        None => start_choice(all, id) is None && match server_id {
                            Some(_) => e matches Error::UnsupportedFile(p) && p@ == path@,
                            None => e matches Error::AmbiguousServers(names) && names@
                                == start_options(all),
                        },
                    },
                }
            }),
    {
        let mut all = match self.resolve_servers(path, is_dir, files) {
            Ok(v) => v,
            Err(e) => {
                return Err(e);
            },
        };
        let ghost found = pairs(all@);
        assert(found.len() == all@.len());
        match server_id {
            Some(id) => {
                let mut i: usize = 0;
                while i < all.len()
                    invariant
                        i <= all@.len(),
                        found == pairs(all@),
                        found == self.candidates(path@, is_dir, text::views(files@)),
                        self.refusal(path@, is_dir, text::views(files@)) is None,
                        server_id == Some(id),
                        server_from(found, id@, 0) == server_from(found, id@, i as int),
                    decreases all@.len() - i,
                {
                    assert(found[i as int] == (all@[i as int].adapter@, all@[i as int].root@));
                    if same(all[i].adapter.id.as_str(), id) {
                        return Ok(all.swap_remove(i));
                    }
                    i = i + 1;
                }
                Err(Error::UnsupportedFile(path.to_owned()))
            },
            None => {
                let mut gates: Vec<usize> = Vec::new();
                let mut gated_ids: Vec<String> = Vec::new();
                let mut all_ids: Vec<String> = Vec::new();
                let mut i: usize = 0;
                proof {
                    reveal(Seq::filter);
                    assert(found.take(0).filter(gated()) =~= seq![]);
                    assert(text::views(gated_ids@) =~= ids(found.take(0).filter(gated())));
                    assert(text::views(all_ids@) =~= ids(found.take(0)));
                }
                while i < all.len()
                    invariant
                        i <= all@.len(),
                        found == pairs(all@),
                        gates@.len() == found.take(i as int).filter(gated()).len(),
                        forall|k: int|
                            0 <= k < gates@.len() ==> (#[trigger] gates@[k]) < i && found[
                                gates@[k] as int
                            ] == found.take(i as int).filter(gated())[k],
                        text::views(gated_ids@) == ids(found.take(i as int).filter(gated())),
                        text::views(all_ids@) == ids(found.take(i as int)),
                    decreases all@.len() - i,
                {
                    let ghost pair = found[i as int];
                    assert(pair == (all@[i as int].adapter@, all@[i as int].root@));
                    let ghost was = gated_ids@;
                    let ghost was_all = all_ids@;
                    proof {
                        reveal(Seq::filter);
                        assert(found.take(i + 1).drop_last() =~= found.take(i as int));
                        assert(found.take(i + 1) =~= found.take(i as int).push(pair));
                    }
                    all_ids.push(all[i].adapter.id.clone());
                    assert(text::views(all_ids@) =~= text::views(was_all).push(pair.0.id));
                    assert(ids(found.take(i + 1)) =~= ids(found.take(i as int)).push(pair.0.id));
                    if all[i].adapter.requires_approval {
                        gates.push(i);
                        gated_ids.push(all[i].adapter.id.clone());
                        assert(text::views(gated_ids@) =~= text::views(was).push(pair.0.id));
                        assert(ids(found.take(i + 1).filter(gated())) =~= ids(
                            found.take(i as int).filter(gated()),
                        ).push(pair.0.id));
                    }
                    i = i + 1;
                }
                assert(found.take(i as int) =~= found);
                if gates.len() == 1 {
                    let at: usize = gates[0];
                    assert(found[at as int] == (all@[at as int].adapter@, all@[at as int].root@));
                    return Ok(all.swap_remove(at));
                }
                if gates.len() == 0 && all.len() == 1 {
                    assert(found[0] == (all@[0].adapter@, all@[0].root@));
                    return Ok(all.swap_remove(0));
                }
                let names = if gates.len() == 0 {
                    sorted_distinct(&all_ids)
                } else {
                    sorted_distinct(&gated_ids)
                };
                Err(Error::AmbiguousServers(join(&names, ", ")))
            },
        }
    }

    /// What a start of the file's server would run.
    pub fn start_preview_for(
        &self,
        path: &str,
        is_dir: bool,
        files: &Vec<String>,
        server_id: Option<&str>,
    ) -> (out: Result<ServerStartPreview, Error>)
        ensures
            ({
                let all = self.candidates(path@, is_dir, text::views(files@));
                let id = match server_id {
                    Some(s) => Some(s@),
                    None => None,
                };
                let refusal = self.refusal(path@, is_dir, text::views(files@));
                match out {
                    Ok(p) => refusal is None && match start_choice(all, id) {
                        Some((a, root)) => p.server@ == a.id && p.root@ == root && text::views(
                            p.command@,
                        ) == a.command && p.approval_required == a.requires_approval,
                        None => false,
                    },
                    Err(e) => match refusal {
                        Some(m) => e.message() == m,
                        None => start_choice(all, id) is None && match server_id {
                            Some(_) => e matches Error::UnsupportedFile(p) && p@ == path@,
                            None => e matches Error::AmbiguousServers(names) && names@
                                == start_options(all),
                        },
                    },
                }
            }),
    {
        match self.resolve_start_server(path, is_dir, files, server_id) {
            Ok(r) => Ok(
                ServerStartPreview {
                    server: r.adapter.id,
                    root: r.root,
                    command: r.adapter.command,
                    approval_required: r.adapter.requires_approval,
                },
            ),
            Err(e) => Err(e),
        }
    }

    /// What a start of the file's only server would run.
    pub fn start_preview(&self, path: &str, is_dir: bool, files: &Vec<String>) -> (out: Result<
        ServerStartPreview,
        Error,
    >)
        ensures
            ({
                let all = self.candidates(path@, is_dir, text::views(files@));
                let refusal = self.refusal(path@, is_dir, text::views(files@));
                match out {
                    Ok(p) => refusal is None && match start_choice(all, None) {
                        Some((a, root)) => p.server@ == a.id && p.root@ == root && text::views(
                            p.command@,
                        ) == a.command && p.approval_required == a.requires_approval,
                        None => false,
                    },
                    Err(e) => match refusal {
                        Some(m) => e.message() == m,
                        None => start_choice(all, None) is None && (
                        e matches Error::AmbiguousServers(names) && names@ == start_options(all)),
                    },
                }
            }),
    {
        self.start_preview_for(path, is_dir, files, None)
    }

    /// Answers a query on a file that no server can be asked about.
    pub fn unsupported_or_disabled<T>(&self, path: &str) -> (out: Option<QueryReport<T>>)
        ensures
            match out {
                Some(QueryReport::Unavailable { reason }) => !self.config.enabled && reason@
                    == Error::Disabled.message(),
                Some(QueryReport::Unsupported { path: p }) => self.config.enabled && !self.serves(
                    path@,
                ) && p@ == path@,
                Some(_) => false,
                None => self.config.enabled && self.serves(path@),
            },
    {
        if !self.config.enabled {
            return Some(QueryReport::Unavailable { reason: Error::Disabled.text() });
        }
        if !self.supports(path) {
            return Some(QueryReport::Unsupported { path: path.to_owned() });
        }
        None
    }

    /// The place of a server, by server and root.
    pub open spec fn place(self, server: Seq<char>, root: Seq<char>) -> Option<int> {
        entry_at(entries(self.clients@), server, root, 0)
    }

    fn is_approved(&self, server: &str, root: &str) -> (yes: bool)
        ensures
            yes == self.approves(server@, root@),
    {
        let mut i: usize = 0;
        while i < self.approved_servers.len()
            invariant
                i <= self.approved_servers@.len(),
                forall|j: int|
                    0 <= j < i ==> !((#[trigger] keys(self.approved_servers@)[j]).0 == server@
                        && paths::same_place(keys(self.approved_servers@)[j].1, root@)),
            decreases self.approved_servers@.len() - i,
        {
            assert(keys(self.approved_servers@)[i as int] == (
                self.approved_servers@[i as int].0@,
                self.approved_servers@[i as int].1@,
            ));
            if is_key(&self.approved_servers[i], server, root) {
                return true;
            }
            i = i + 1;
        }
        false
    }

    /// Approves a server for a root and clears the way for a clean start: one that
    /// failed before is removed, and given back to be shut down.
    pub fn approve(&mut self, server: &str, root: &str) -> (out: Option<ClientEntry>)
        requires
            old(self).wf(),
        ensures
            final(self).wf(),
            final(self).workspace == old(self).workspace,
            final(self).config == old(self).config,
            final(self).approves(server@, root@),
            keys(final(self).approved_servers@) == keys(old(self).approved_servers@).push(
                (server@, root@),
            ),
            match old(self).place(server@, root@) {
                Some(i) => if old(self).clients@[i].failures > 0 {
                    &&& entry_view(out) == Some(entries(old(self).clients@)[i])
                    &&& entries(final(self).clients@) == entries(old(self).clients@).remove(i)
                } else {
                    out is None && entries(final(self).clients@) == entries(old(self).clients@)
                },
                None => out is None && entries(final(self).clients@) == entries(
                    old(self).clients@,
                ),
            },
    {
        let ghost before = keys(self.approved_servers@);
        self.approved_servers.push((server.to_owned(), root.to_owned()));
        proof {
            let after = keys(self.approved_servers@);
            assert(after =~= before.push((server@, root@)));
            assert(after[before.len() as int] == (server@, root@));
        }
        let ghost clients = self.clients@;
        let out = match find_entry(&self.clients, server, root) {
            Some(i) => {
                assert(entries(clients)[i as int] == clients[i as int]@);
                if self.clients[i].failures > 0 {
                    proof {
                        lemma_without(entries(clients), i as int);
                    }
                    let out = self.clients.remove(i);
                    assert(entries(self.clients@) =~= entries(clients).remove(i as int));
                    Some(out)
                } else {
                    None
                }
            },
            None => None,
        };
        assert(paths::same_place(keys(self.approved_servers@)[before.len() as int].1, root@));
        out
    }

    /// Asks for a server. One that takes an approval must have it. The rest is
    /// [`admission`].
    pub fn client_for_resolved(&mut self, server: &str, root: &str, requires_approval: bool, now: u64) -> (out:
        Admission)
        requires
            old(self).wf(),
        ensures
            final(self).wf(),
            final(self).workspace == old(self).workspace,
            final(self).config == old(self).config,
            final(self).approved_servers == old(self).approved_servers,
            ({
                let a = admission(
                    entries(old(self).clients@),
                    old(self).limits(),
                    server@,
                    root@,
                    now,
                );
                if requires_approval && !old(self).approves(server@, root@) {
                    out is ApprovalRequired && entries(final(self).clients@) == entries(
                        old(self).clients@,
                    )
                } else {
                    &&& entries(final(self).clients@) == a.clients
                    &&& match out {
                        Admission::ApprovalRequired => false,
                        Admission::Full => a.full,
                        Admission::Granted { fresh, retired, evicted } => !a.full && fresh
                            == a.fresh && entry_view(retired) == a.retired && entry_view(evicted)
                            == a.evicted,
                    }
                }
            }),
    {
        if requires_approval && !self.is_approved(server, root) {
            return Admission::ApprovalRequired;
        }
        let ghost start = entries(self.clients@);
        let ghost limits = self.limits();
        proof {
            law_places_are_kept(start, limits, server@, root@, now);
            lemma_entry_at(start, server@, root@, 0);
            assert(start.len() == self.clients@.len());
        }
        let mut retired: Option<ClientEntry> = None;
        let mut failures: u32 = 0;
        match find_entry(&self.clients, server, root) {
            Some(i) => {
                assert(start[i as int] == self.clients@[i as int]@);
                let broken = match self.clients[i].state {
                    ClientState::Crashed => true,
                    ClientState::Broken(_) => true,
                    _ => false,
                };
                let ready = elapsed(now, self.clients[i].created_at) >= restart_backoff(
                    self.config.restart_backoff,
                    self.clients[i].failures,
                );
                if broken && self.clients[i].failures < self.config.max_restart_attempts && ready {
                    assert(due(start[i as int], limits, now));
                    let before = self.clients[i].failures;
                    failures = if before == u32::MAX {
                        before
                    } else {
                        before + 1
                    };
                    let ghost was = self.clients@;
                    retired = Some(self.clients.remove(i));
                    assert(entries(self.clients@) =~= entries(was).remove(i as int));
                } else {
                    let ghost was = self.clients@;
                    let mut e = self.clients.remove(i);
                    e.last_used = now;
                    self.clients.insert(i, e);
                    assert(entries(self.clients@) =~= start.update(
                        i as int,
                        EntryView { last_used: now, ..start[i as int] },
                    ));
                    return Admission::Granted { fresh: false, retired: None, evicted: None };
                }
            },
            None => {},
        }
        let ghost cleared = entries(self.clients@);
        let mut evicted: Option<ClientEntry> = None;
        assert(cleared.len() == self.clients@.len());
        if self.clients.len() >= self.config.max_servers {
            match find_oldest(&self.clients) {
                Some(j) => {
                    let ghost was = self.clients@;
                    evicted = Some(self.clients.remove(j));
                    assert(entries(self.clients@) =~= cleared.remove(j as int));
                },
                None => {
                    return Admission::Full;
                },
            }
        }
        let ghost roomy = entries(self.clients@);
        let entry = ClientEntry {
            server: server.to_owned(),
            root: root.to_owned(),
            state: ClientState::Starting,
            created_at: now,
            last_used: now,
            failures,
        };
        let ghost ev = entry@;
        self.clients.push(entry);
        assert(entries(self.clients@) =~= roomy.push(ev));
        Admission::Granted { fresh: true, retired, evicted }
    }

    /// Records what became of a server: how its start ended, or that it is gone.
    pub fn record(&mut self, server: &str, root: &str, state: ClientState)
        requires
            old(self).wf(),
        ensures
            final(self).wf(),
            final(self).workspace == old(self).workspace,
            final(self).config == old(self).config,
            final(self).approved_servers == old(self).approved_servers,
            entries(final(self).clients@) == match old(self).place(server@, root@) {
                Some(i) => entries(old(self).clients@).update(
                    i,
                    EntryView { state: state@, ..entries(old(self).clients@)[i] },
                ),
                None => entries(old(self).clients@),
            },
    {
        let ghost start = entries(self.clients@);
        match find_entry(&self.clients, server, root) {
            Some(i) => {
                let ghost now = state@;
                let mut e = self.clients.remove(i);
                e.state = state;
                self.clients.insert(i, e);
                proof {
                    let w = entries(self.clients@);
                    assert(w =~= start.update(
                        i as int,
                        EntryView { state: now, ..start[i as int] },
                    ));
                    assert forall|a: int, b: int|
                        #![trigger w[a], w[b]]
                        0 <= a < b < w.len() implies !(w[a].server == w[b].server && paths::same_place(w[a].root, w[b].root)) by {
                        assert(start[a].server == w[a].server && paths::same_place(start[a].root, w[a].root));
                        assert(start[b].server == w[b].server && paths::same_place(start[b].root, w[b].root));
                    }
                }
            },
            None => {},
        }
    }

    /// Takes out the servers that were not used for long, to be shut down.
    pub fn reap_idle(&mut self, now: u64) -> (out: Vec<ClientEntry>)
        requires
            old(self).wf(),
        ensures
            final(self).wf(),
            final(self).workspace == old(self).workspace,
            final(self).config == old(self).config,
            final(self).approved_servers == old(self).approved_servers,
            entries(out@) == entries(old(self).clients@).filter(
                idlers(old(self).config.idle_timeout, now),
            ),
            entries(final(self).clients@) == entries(old(self).clients@).filter(
                workers(old(self).config.idle_timeout, now),
            ),
    {
        let timeout: u64 = self.config.idle_timeout;
        let ghost all = entries(self.clients@);
        let mut out: Vec<ClientEntry> = Vec::new();
        let mut left: Vec<ClientEntry> = Vec::new();
        let mut i: usize = 0;
        proof {
            reveal(Seq::filter);
            assert(all.take(0) =~= seq![]);
            assert(entries(out@) =~= all.take(0).filter(idlers(timeout, now)));
            assert(entries(left@) =~= all.take(0).filter(workers(timeout, now)));
            assert(all.skip(0) =~= all);
        }
        while self.clients.len() > 0
            invariant
                i <= all.len(),
                self.workspace == old(self).workspace,
                self.config == old(self).config,
                self.approved_servers == old(self).approved_servers,
                all == entries(old(self).clients@),
                entries(self.clients@) == all.skip(i as int),
                entries(out@) == all.take(i as int).filter(idlers(timeout, now)),
                entries(left@) == all.take(i as int).filter(workers(timeout, now)),
                all.len() <= usize::MAX,
            decreases self.clients@.len(),
        {
            let ghost was_out = out@;
            let ghost was_left = left@;
            let ghost was = self.clients@;
            assert(entries(was).len() == was.len());
            let e = self.clients.remove(0);
            proof {
                reveal(Seq::filter);
                assert(entries(was)[0] == e@);
                assert(all[i as int] == e@);
                assert(entries(self.clients@) =~= entries(was).remove(0));
                assert(entries(was).remove(0) =~= all.skip(i + 1));
                assert(all.take(i + 1).drop_last() =~= all.take(i as int));
            }
            let ran = match e.state {
                ClientState::Ready => true,
                ClientState::Crashed => true,
                _ => false,
            };
            if ran && elapsed(now, e.last_used) >= timeout {
                out.push(e);
                assert(entries(out@) =~= entries(was_out).push(all[i as int]));
            } else {
                left.push(e);
                assert(entries(left@) =~= entries(was_left).push(all[i as int]));
            }
            i = i + 1;
        }
        assert(entries(self.clients@).len() == 0);
        assert(all.take(i as int) =~= all);
        proof {
            lemma_filter_separate(all, workers(timeout, now));
            assert(entries(left@).len() == left@.len());
        }
        self.clients = left;
        out
    }

    /// The state of each server, after those that were not used for long were taken out, to
    /// be shut down.
    pub fn status(&mut self, now: u64) -> (out: (Vec<ServerStatus>, Vec<ClientEntry>))
        requires
            old(self).wf(),
        ensures
            final(self).wf(),
            final(self).workspace == old(self).workspace,
            final(self).config == old(self).config,
            final(self).approved_servers == old(self).approved_servers,
            entries(out.1@) == entries(old(self).clients@).filter(
                idlers(old(self).config.idle_timeout, now),
            ),
            entries(final(self).clients@) == entries(old(self).clients@).filter(
                workers(old(self).config.idle_timeout, now),
            ),
            statuses(out.0@) == entries(final(self).clients@).map_values(
                |e: EntryView| status_of(e, now),
            ),
    {
        let idle = self.reap_idle(now);
        (self.survey(now), idle)
    }

    /// The state of each server.
    pub fn survey(&self, now: u64) -> (out: Vec<ServerStatus>)
        ensures
            statuses(out@) == entries(self.clients@).map_values(|e: EntryView| status_of(e, now)),
    {
        let mut out: Vec<ServerStatus> = Vec::new();
        let mut i: usize = 0;
        while i < self.clients.len()
            invariant
                i <= self.clients@.len(),
                out@.len() == i,
                forall|j: int|
                    0 <= j < i ==> (#[trigger] out@[j])@ == status_of(self.clients@[j]@, now),
            decreases self.clients@.len() - i,
        {
            let e = &self.clients[i];
            let (state, detail) = match &e.state {
                ClientState::Starting => (ServerState::Starting, None),
                ClientState::Ready => (ServerState::Ready, None),
                ClientState::Crashed => (
                    ServerState::Crashed,
                    Some("language server disconnected".to_owned()),
                ),
                ClientState::Broken(m) => (ServerState::Broken, Some(m.clone())),
            };
            out.push(
                ServerStatus {
                    server: e.server.clone(),
                    root: e.root.clone(),
                    state,
                    idle_ms: elapsed(now, e.last_used),
                    detail,
                },
            );
            i = i + 1;
        }
        assert(statuses(out@) =~= entries(self.clients@).map_values(
            |e: EntryView| status_of(e, now),
        ));
        out
    }

    /// Takes out every server, to be shut down.
    pub fn shutdown_all(&mut self) -> (out: Vec<ClientEntry>)
        requires
            old(self).wf(),
        ensures
            final(self).wf(),
            final(self).workspace == old(self).workspace,
            final(self).config == old(self).config,
            final(self).approved_servers == old(self).approved_servers,
            out == old(self).clients,
            final(self).clients@ == Seq::<ClientEntry>::empty(),
    {
        let mut out: Vec<ClientEntry> = Vec::new();
        std::mem::swap(&mut out, &mut self.clients);
        out
    }

    /// The status of a server that was just started.
    pub fn started_status(adapter: &ServerAdapter, root: &str) -> (out: ServerStatus)
        ensures
            out@ == (StatusView {
                server: adapter@.id,
                root: root@,
                state: ServerState::Ready,
                idle_ms: 0,
                detail: if adapter.requires_approval {
                    Some("approved for this session"@)
                } else {
                    None
                },
            }),
    {
        ServerStatus {
            server: adapter.id.clone(),
            root: root.to_owned(),
            state: ServerState::Ready,
            idle_ms: 0,
            detail: if adapter.requires_approval {
                Some("approved for this session".to_owned())
            } else {
                None
            },
        }
    }

    /// How often idle servers are looked for: twice in the time that makes them
    /// idle, between a second and a minute apart.
    pub fn reaper_tick(&self) -> (out: u64)
        ensures
            out == (if self.config.idle_timeout / 2 < 1_000 {
                1_000
            } else if self.config.idle_timeout / 2 > 60_000 {
                60_000
            } else {
                self.config.idle_timeout / 2
            }),
    {
        let half: u64 = self.config.idle_timeout / 2;
        if half < 1_000 {
            1_000
        } else if half > 60_000 {
            60_000
        } else {
            half
        }
    }
}

proof fn lemma_filter_separate(v: Seq<EntryView>, keep: spec_fn(EntryView) -> bool)
    requires
        separate(v),
    ensures
        separate(v.filter(keep)),
        v.filter(keep).len() <= v.len(),
        forall|j: int| 0 <= j < v.filter(keep).len() ==> v.contains(#[trigger] v.filter(keep)[j]),
    decreases v.len(),
{
    reveal(Seq::filter);
    if v.len() > 0 {
        let head = v.drop_last();
        assert forall|a: int, b: int|
            #![trigger head[a], head[b]]
            0 <= a < b < head.len() implies !(head[a].server == head[b].server && paths::same_place(head[a].root, head[b].root)) by {
            assert(head[a] == v[a] && head[b] == v[b]);
        }
        lemma_filter_separate(head, keep);
        let w = v.filter(keep);
        let h = head.filter(keep);
        assert forall|j: int| 0 <= j < w.len() implies v.contains(#[trigger] w[j]) by {
            if j < h.len() {
                assert(w[j] == h[j]);
                let k = head.index_of(h[j]);
                assert(v[k] == w[j]);
            } else {
                assert(v[v.len() - 1] == w[j]);
            }
        }
        if keep(v.last()) {
            assert forall|a: int, b: int|
                #![trigger w[a], w[b]]
                0 <= a < b < w.len() implies !(w[a].server == w[b].server && paths::same_place(w[a].root, w[b].root)) by {
                if b < h.len() {
                    assert(w[a] == h[a] && w[b] == h[b]);
                } else {
                    assert(w[a] == h[a]);
                    let k = head.index_of(h[a]);
                    assert(v[k] == w[a]);
                    assert(v[v.len() - 1] == w[b]);
                }
            }
        }
    }
}

} // verus!

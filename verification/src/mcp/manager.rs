//! Connections to tool servers: their states, retries, and the calls they take.

use vstd::prelude::*;
use vstd::string::*;
use crate::json::Json;
use crate::mcp::catalog;
use crate::mcp::catalog::{validate_arguments, Catalog, McpToolSpec, SpecView};
use crate::mcp::errors::{Error, ServerState};
use crate::mcp::launch::{Config, ServerConfig, Transport};
use crate::mcp::names;
use crate::mcp::names::parse_qualified;
use crate::mcp::policy::RemoteAuth;
use crate::number;
use crate::order;
use crate::order::comes_before;
use crate::ranking;
use crate::ranking::{sort, Ranked};
use crate::text;
use crate::text::{cat3, same};

verus! {

/// How many calls a server takes at the same time, where it takes several.
pub const PARALLEL_CALLS: usize = 8;

/// The connection to a server.
pub struct Slot {
    pub config: ServerConfig,
    pub state: ServerState,
    /// There is a connection that has not been given up.
    pub connected: bool,
    pub detail: Option<String>,
    /// Failed attempts in a row. Only an answered request ends the row.
    pub failures: u32,
    /// The connection has answered a request.
    pub proven: bool,
    /// When the next attempt is due, in milliseconds of one clock.
    pub retry_at: Option<u64>,
}

/// What a [`Slot`] holds.
#[verifier::ext_equal]
pub ghost struct SlotView {
    pub config: ServerConfig,
    pub state: ServerState,
    pub connected: bool,
    pub detail: Option<Seq<char>>,
    pub failures: u32,
    pub proven: bool,
    pub retry_at: Option<u64>,
}

impl View for Slot {
    type V = SlotView;

    open spec fn view(&self) -> SlotView {
        SlotView {
            config: self.config,
            state: self.state,
            connected: self.connected,
            detail: text::view_of(self.detail),
            failures: self.failures,
            proven: self.proven,
            retry_at: self.retry_at,
        }
    }
}

/// What each connection holds.
pub open spec fn slots(v: Seq<Slot>) -> Seq<SlotView> {
    v.map_values(|s: Slot| s@)
}

/// A server that was not connected yet.
pub open spec fn new_slot(config: ServerConfig) -> SlotView {
    SlotView {
        config,
        state: if config.disabled {
            ServerState::Disabled
        } else if config.requires_approval {
            ServerState::NeedsApproval
        } else {
            ServerState::Connecting
        },
        connected: false,
        detail: None,
        failures: 0,
        proven: false,
        retry_at: None,
    }
}

impl Slot {
    /// A server that was not connected yet.
    pub fn new(config: ServerConfig) -> (out: Slot)
        ensures
            out@ == new_slot(config),
    {
        let state = if config.disabled {
            ServerState::Disabled
        } else if config.requires_approval {
            ServerState::NeedsApproval
        } else {
            ServerState::Connecting
        };
        Slot {
            config,
            state,
            connected: false,
            detail: None,
            failures: 0,
            proven: false,
            retry_at: None,
        }
    }

    /// How many calls the server takes at the same time.
    pub fn permits(&self) -> (out: usize)
        ensures
            out == (if self.config.parallel_calls {
                PARALLEL_CALLS
            } else {
                1
            }),
    {
        if self.config.parallel_calls {
            PARALLEL_CALLS
        } else {
            1
        }
    }
}

/// The place of a server, from the `i`-th on.
pub open spec fn slot_at(v: Seq<SlotView>, id: Seq<char>, i: int) -> Option<int>
    decreases v.len() - i,
{
    if i < 0 || i >= v.len() {
        None
    } else if v[i].config.id@ == id {
        Some(i)
    } else {
        slot_at(v, id, i + 1)
    }
}

pub proof fn lemma_slot_at(v: Seq<SlotView>, id: Seq<char>, i: int)
    requires
        0 <= i,
    ensures
        match slot_at(v, id, i) {
            Some(j) => i <= j < v.len() && v[j].config.id@ == id,
            None => forall|j: int| i <= j < v.len() ==> (#[trigger] v[j]).config.id@ != id,
        },
    decreases v.len() - i,
{
    if i < v.len() && v[i].config.id@ != id {
        lemma_slot_at(v, id, i + 1);
    }
}

/// No two servers have the same id.
pub open spec fn separate(v: Seq<SlotView>) -> bool {
    forall|i: int, j: int|
        #![trigger v[i], v[j]]
        0 <= i < j < v.len() ==> v[i].config.id@ != v[j].config.id@
}

/// The servers with one more, in place of one with its id.
pub open spec fn with_slot(v: Seq<SlotView>, slot: SlotView) -> Seq<SlotView> {
    match slot_at(v, slot.config.id@, 0) {
        Some(i) => v.update(i, slot),
        None => v.push(slot),
    }
}

proof fn lemma_with_slot(v: Seq<SlotView>, slot: SlotView)
    requires
        separate(v),
    ensures
        separate(with_slot(v, slot)),
{
    lemma_slot_at(v, slot.config.id@, 0);
    let w = with_slot(v, slot);
    match slot_at(v, slot.config.id@, 0) {
        Some(i) => {
            assert forall|a: int, b: int|
                #![trigger w[a], w[b]]
                0 <= a < b < w.len() implies w[a].config.id@ != w[b].config.id@ by {
                assert(v[a].config.id@ == w[a].config.id@ && v[b].config.id@ == w[b].config.id@);
            }
        },
        None => {
            assert forall|a: int, b: int|
                #![trigger w[a], w[b]]
                0 <= a < b < w.len() implies w[a].config.id@ != w[b].config.id@ by {
                assert(w[a] == v[a]);
                if b < v.len() {
                    assert(w[b] == v[b]);
                }
            }
        },
    }
}

proof fn lemma_updated(v: Seq<SlotView>, i: int, slot: SlotView)
    requires
        separate(v),
        0 <= i < v.len(),
        slot.config.id@ == v[i].config.id@,
    ensures
        separate(v.update(i, slot)),
{
    let w = v.update(i, slot);
    assert forall|a: int, b: int|
        #![trigger w[a], w[b]]
        0 <= a < b < w.len() implies w[a].config.id@ != w[b].config.id@ by {
        assert(v[a].config.id@ == w[a].config.id@ && v[b].config.id@ == w[b].config.id@);
    }
}

proof fn lemma_removed(v: Seq<SlotView>, i: int)
    requires
        separate(v),
        0 <= i < v.len(),
    ensures
        separate(v.remove(i)),
{
    let w = v.remove(i);
    assert forall|a: int, b: int|
        #![trigger w[a], w[b]]
        0 <= a < b < w.len() implies w[a].config.id@ != w[b].config.id@ by {
        let x = if a < i {
            a
        } else {
            a + 1
        };
        let y = if b < i {
            b
        } else {
            b + 1
        };
        assert(w[a] == v[x] && w[b] == v[y]);
    }
}

/// The wait before the next attempt: half a second, doubled for each failure, half a
/// minute at most.
pub open spec fn wait_after(failures: u32) -> u64 {
    if failures == 0 {
        500
    } else if failures == 1 {
        1_000
    } else if failures == 2 {
        2_000
    } else if failures == 3 {
        4_000
    } else if failures == 4 {
        8_000
    } else if failures == 5 {
        16_000
    } else {
        30_000
    }
}

/// The wait before the next attempt.
pub fn backoff(failures: u32) -> (out: u64)
    ensures
        out == wait_after(failures),
{
    if failures == 0 {
        500
    } else if failures == 1 {
        1_000
    } else if failures == 2 {
        2_000
    } else if failures == 3 {
        4_000
    } else if failures == 4 {
        8_000
    } else if failures == 5 {
        16_000
    } else {
        30_000
    }
}

/// The wait never shrinks as failures add up, and is bounded.
pub proof fn law_backoff_grows(few: u32, many: u32)
    requires
        few <= many,
    ensures
        wait_after(few) <= wait_after(many) <= 30_000,
{
}

fn after(now: u64, wait: u64) -> (out: u64)
    ensures
        out == number::later(now, wait),
{
    if now > u64::MAX - wait {
        u64::MAX
    } else {
        now + wait
    }
}

/// A connection after a failed attempt. Missing credentials await the user, and a
/// fault of the configuration stays; all else is tried again, ever later, and rests
/// once it failed too often.
pub open spec fn failed(
    s: SlotView,
    error: Error,
    now: u64,
    max_reconnects: u32,
    park_probe: u64,
) -> SlotView {
    let told = SlotView { detail: Some(error.message()), ..s };
    let failures = number::one_more(s.failures);
    if error is NeedsAuth {
        SlotView { state: ServerState::NeedsAuth, retry_at: None, ..told }
    } else if error is NeedsToken {
        SlotView { state: ServerState::NeedsToken, retry_at: None, ..told }
    } else if error.terminal() {
        SlotView { state: ServerState::Failed, retry_at: None, failures, ..told }
    } else if failures >= max_reconnects {
        SlotView {
            state: ServerState::Parked,
            retry_at: Some(number::later(now, park_probe)),
            failures,
            ..told
        }
    } else {
        SlotView {
            state: ServerState::Degraded,
            retry_at: Some(number::later(now, wait_after(failures))),
            failures,
            ..told
        }
    }
}

/// A fault that only the user can mend is never tried again by itself, and any other
/// is tried again, but no sooner than its wait.
pub proof fn law_retries(
    s: SlotView,
    error: Error,
    now: u64,
    max_reconnects: u32,
    park_probe: u64,
)
    ensures
        failed(s, error, now, max_reconnects, park_probe).retry_at is None <==> (error is NeedsAuth
            || error is NeedsToken || error.terminal()),
        failed(s, error, now, max_reconnects, park_probe).retry_at matches Some(at) ==> {
            let f = failed(s, error, now, max_reconnects, park_probe);
            at == number::later(
                now,
                if f.state is Parked {
                    park_probe
                } else {
                    wait_after(f.failures)
                },
            ) && (f.state is Parked <==> f.failures >= max_reconnects)
        },
{
}

/// A connection that is given up.
pub open spec fn detached(s: SlotView) -> SlotView {
    SlotView { connected: false, proven: false, ..s }
}

/// A connection after it was looked at: a lost one is given up and tried again at
/// once, and one whose wait is over is due.
pub open spec fn swept(s: SlotView, closed: bool, now: u64) -> SlotView {
    if s.state is Ready && (!s.connected || closed) {
        SlotView {
            state: ServerState::Degraded,
            detail: Some("connection lost"@),
            retry_at: Some(now),
            ..detached(s)
        }
    } else if is_due(s, now) {
        SlotView { retry_at: None, ..s }
    } else {
        s
    }
}

/// The server is to be connected again.
pub open spec fn is_due(s: SlotView, now: u64) -> bool {
    (s.state is Degraded || s.state is Parked) && (s.retry_at matches Some(at) && at <= now)
}

/// The server is to be asked for its tools, which proves the connection.
pub open spec fn is_unproven(s: SlotView, closed: bool) -> bool {
    s.state is Ready && s.connected && !closed && !s.proven
}

/// The ids of the servers that are lost, but were connected.
pub open spec fn lost(v: Seq<SlotView>, closed: Seq<Seq<char>>) -> Seq<Seq<char>>
    decreases v.len(),
{
    if v.len() == 0 {
        seq![]
    } else {
        let head = lost(v.drop_last(), closed);
        let s = v.last();
        if s.state is Ready && s.connected && closed.contains(s.config.id@) {
            head.push(s.config.id@)
        } else {
            head
        }
    }
}

/// The ids of the servers that are to be asked for their tools.
pub open spec fn unproven(v: Seq<SlotView>, closed: Seq<Seq<char>>) -> Seq<Seq<char>>
    decreases v.len(),
{
    if v.len() == 0 {
        seq![]
    } else {
        let head = unproven(v.drop_last(), closed);
        let s = v.last();
        if is_unproven(s, closed.contains(s.config.id@)) {
            head.push(s.config.id@)
        } else {
            head
        }
    }
}

/// The ids of the servers that are to be connected again.
pub open spec fn due(v: Seq<SlotView>, now: u64) -> Seq<Seq<char>>
    decreases v.len(),
{
    if v.len() == 0 {
        seq![]
    } else {
        let head = due(v.drop_last(), now);
        if is_due(v.last(), now) {
            head.push(v.last().config.id@)
        } else {
            head
        }
    }
}

/// What a look at the servers calls for. The lost are to be shut down first.
pub struct Sweep {
    pub lost: Vec<String>,
    pub unproven: Vec<String>,
    pub due: Vec<String>,
}

pub struct ServerStatus {
    pub server: String,
    pub state: ServerState,
    /// Tools that are exposed.
    pub tools: usize,
    /// Tools that are not.
    pub hidden: usize,
    pub detail: Option<String>,
}

/// What a [`ServerStatus`] holds.
#[verifier::ext_equal]
pub ghost struct StatusView {
    pub server: Seq<char>,
    pub state: ServerState,
    pub tools: nat,
    pub hidden: nat,
    pub detail: Option<Seq<char>>,
}

impl View for ServerStatus {
    type V = StatusView;

    open spec fn view(&self) -> StatusView {
        StatusView {
            server: self.server@,
            state: self.state,
            tools: self.tools as nat,
            hidden: self.hidden as nat,
            detail: text::view_of(self.detail),
        }
    }
}

/// What each status holds.
pub open spec fn statuses(v: Seq<ServerStatus>) -> Seq<StatusView> {
    v.map_values(|s: ServerStatus| s@)
}

impl Ranked for ServerStatus {
    open spec fn under(&self, other: &ServerStatus) -> bool {
        order::before(self.server@, other.server@)
    }

    open spec fn alike(&self, other: &ServerStatus) -> bool {
        self.server@ == other.server@
    }

    fn is_under(&self, other: &ServerStatus) -> (yes: bool) {
        comes_before(self.server.as_str(), other.server.as_str())
    }

    fn is_alike(&self, other: &ServerStatus) -> (yes: bool) {
        same(self.server.as_str(), other.server.as_str())
    }

    proof fn reflexive(a: ServerStatus) {
    }

    proof fn asymmetric(a: ServerStatus, b: ServerStatus) {
        order::lemma_before_total(a.server@, b.server@);
    }

    proof fn transitive(a: ServerStatus, b: ServerStatus, c: ServerStatus) {
        order::lemma_before_total(a.server@, b.server@);
        order::lemma_before_total(b.server@, c.server@);
        order::lemma_before_total(a.server@, c.server@);
        if order::before(a.server@, b.server@) && order::before(b.server@, c.server@) {
            order::lemma_before_transitive(a.server@, b.server@, c.server@);
        }
        if order::before(c.server@, b.server@) && order::before(b.server@, a.server@) {
            order::lemma_before_transitive(c.server@, b.server@, a.server@);
        }
    }
}

/// A server that would be started, and whether that takes an approval.
pub struct StartPreview {
    pub server: String,
    pub transport: String,
    /// The command line, or the address.
    pub target: String,
    pub approval_required: bool,
}

/// What a tool gave.
pub struct CallOutput {
    pub server: String,
    pub tool: String,
    pub text: String,
    pub is_error: bool,
}

/// The server and tool that a call goes to.
pub struct Route {
    pub server: String,
    pub tool: String,
}

/// The catalog of a server, from the `i`-th on.
pub open spec fn catalog_at(v: Seq<(String, Catalog)>, id: Seq<char>, i: int) -> Option<int>
    decreases v.len() - i,
{
    if i < 0 || i >= v.len() {
        None
    } else if v[i].0@ == id {
        Some(i)
    } else {
        catalog_at(v, id, i + 1)
    }
}

proof fn lemma_catalog_at(v: Seq<(String, Catalog)>, id: Seq<char>, i: int)
    requires
        0 <= i,
    ensures
        match catalog_at(v, id, i) {
            Some(j) => i <= j < v.len() && v[j].0@ == id,
            None => forall|j: int| i <= j < v.len() ==> (#[trigger] v[j]).0@ != id,
        },
    decreases v.len() - i,
{
    if i < v.len() && v[i].0@ != id {
        lemma_catalog_at(v, id, i + 1);
    }
}

/// The exposed tool of a name, from the `i`-th on.
pub open spec fn tool_at(v: Seq<McpToolSpec>, name: Seq<char>, i: int) -> Option<int>
    decreases v.len() - i,
{
    if i < 0 || i >= v.len() {
        None
    } else if v[i].name@ == name {
        Some(i)
    } else {
        tool_at(v, name, i + 1)
    }
}

/// Accepts catalogs of other servers.
pub open spec fn not_of(id: Seq<char>) -> spec_fn((String, Catalog)) -> bool {
    |e: (String, Catalog)| e.0@ != id
}

/// The catalogs of all servers but these.
pub open spec fn forgotten(v: Seq<(String, Catalog)>, ids: Seq<Seq<char>>) -> Seq<
    (String, Catalog),
> {
    v.filter(|e: (String, Catalog)| !ids.contains(e.0@))
}

/// After a catalog of a server was recorded, it stands in place of the former one, or
/// behind the others, which stay.
pub open spec fn recorded(
    was: Seq<(String, Catalog)>,
    now: Seq<(String, Catalog)>,
    id: Seq<char>,
    catalog: Catalog,
) -> bool {
    match catalog_at(was, id, 0) {
        Some(i) => now.len() == was.len() && now[i].0@ == id && now[i].1 == catalog && forall|j: int|
            0 <= j < was.len() && j != i ==> (#[trigger] now[j]) == was[j],
        None => now.len() == was.len() + 1 && now.last().0@ == id && now.last().1 == catalog
            && now.drop_last() == was,
    }
}

/// The exposed tools of all servers.
pub open spec fn all_exposed(v: Seq<(String, Catalog)>) -> Seq<SpecView>
    decreases v.len(),
{
    if v.len() == 0 {
        seq![]
    } else {
        all_exposed(v.drop_last()) + catalog::specs(v.last().1.exposed@)
    }
}

/// The status of a server.
pub open spec fn status_of(s: SlotView, tools: Seq<(String, Catalog)>) -> StatusView {
    let c = catalog_at(tools, s.config.id@, 0);
    StatusView {
        server: s.config.id@,
        state: s.state,
        tools: match c {
            Some(i) => tools[i].1.exposed@.len(),
            None => 0,
        },
        hidden: match c {
            Some(i) => tools[i].1.hidden as nat,
            None => 0,
        },
        detail: s.detail,
    }
}

/// Why a call of a tool is refused: the first of these that holds.
pub open spec fn call_refusal(m: McpManager, name: Seq<char>, args: crate::json::JsonView) -> Option<
    Seq<char>,
> {
    if !m.config.enabled {
        Some(Error::Disabled.message())
    } else {
        match names::parsed(name) {
            None => Some("MCP tool name must be 'mcp__<server>__<tool>': "@ + name),
            Some((server, tool)) => match slot_at(slots(m.servers@), server, 0) {
                None => Some("no MCP server named '"@ + server + "'"@),
                Some(i) => {
                    let s = slots(m.servers@)[i];
                    if !(s.connected && s.state is Ready) {
                        Some(
                            "MCP server '"@ + server + "' is "@ + s.state.label() + match s.detail {
                                Some(d) => ": "@ + d,
                                None => seq![],
                            },
                        )
                    } else {
                        match exposed_tool(m.tools@, server, name) {
                            None => Some(
                                "'"@ + tool + "' is not an exposed tool on MCP server '"@ + server
                                    + "'"@,
                            ),
                            Some(t) => match catalog::fault(t.schema@, args) {
                                Some(reason) => Some(
                                    "invalid arguments for '"@ + name + "': "@ + reason,
                                ),
                                None => None,
                            },
                        }
                    }
                },
            },
        }
    }
}

/// The exposed tool of a server under a name.
pub open spec fn exposed_tool(v: Seq<(String, Catalog)>, server: Seq<char>, name: Seq<char>) -> Option<
    McpToolSpec,
> {
    match catalog_at(v, server, 0) {
        Some(i) => match tool_at(v[i].1.exposed@, name, 0) {
            Some(j) => Some(v[i].1.exposed@[j]),
            None => None,
        },
        None => None,
    }
}

/// The refusal to connect a server that is switched off.
pub open spec fn switched_off(e: Error, id: Seq<char>) -> bool {
    e matches Error::ServerNotReady { server, state, detail } && server@ == id && state is Disabled
        && detail is None
}

fn refuse_off(id: &str) -> (out: Error)
    ensures
        switched_off(out, id@),
{
    Error::ServerNotReady { server: id.to_owned(), state: ServerState::Disabled, detail: None }
}

pub struct McpManager {
    pub config: Config,
    pub servers: Vec<Slot>,
    pub tools: Vec<(String, Catalog)>,
}

/// The servers of a configuration; of several with one id the last counts.
pub open spec fn configured(v: Seq<ServerConfig>) -> Seq<SlotView>
    decreases v.len(),
{
    if v.len() == 0 {
        seq![]
    } else {
        with_slot(configured(v.drop_last()), new_slot(v.last()))
    }
}

pub(crate) fn find_slot(v: &Vec<Slot>, id: &str) -> (out: Option<usize>)
    ensures
        match out {
            Some(i) => slot_at(slots(v@), id@, 0) == Some(i as int) && i < v@.len(),
            None => slot_at(slots(v@), id@, 0) is None,
        },
{
    let mut i: usize = 0;
    while i < v.len()
        invariant
            i <= v@.len(),
            slot_at(slots(v@), id@, 0) == slot_at(slots(v@), id@, i as int),
        decreases v@.len() - i,
    {
        assert(slots(v@)[i as int] == v@[i as int]@);
        if same(v[i].config.id.as_str(), id) {
            return Some(i);
        }
        i = i + 1;
    }
    None
}

fn find_catalog(v: &Vec<(String, Catalog)>, id: &str) -> (out: Option<usize>)
    ensures
        match out {
            Some(i) => catalog_at(v@, id@, 0) == Some(i as int) && i < v@.len(),
            None => catalog_at(v@, id@, 0) is None,
        },
{
    let mut i: usize = 0;
    while i < v.len()
        invariant
            i <= v@.len(),
            catalog_at(v@, id@, 0) == catalog_at(v@, id@, i as int),
        decreases v@.len() - i,
    {
        if same(v[i].0.as_str(), id) {
            return Some(i);
        }
        i = i + 1;
    }
    None
}

fn find_tool(v: &Vec<McpToolSpec>, name: &str) -> (out: Option<usize>)
    ensures
        match out {
            Some(i) => tool_at(v@, name@, 0) == Some(i as int) && i < v@.len(),
            None => tool_at(v@, name@, 0) is None,
        },
{
    let mut i: usize = 0;
    while i < v.len()
        invariant
            i <= v@.len(),
            tool_at(v@, name@, 0) == tool_at(v@, name@, i as int),
        decreases v@.len() - i,
    {
        if same(v[i].name.as_str(), name) {
            return Some(i);
        }
        i = i + 1;
    }
    None
}

fn put_slot(v: &mut Vec<Slot>, slot: Slot) -> (old_slot: Option<Slot>)
    ensures
        slots(final(v)@) == with_slot(slots(old(v)@), slot@),
        match slot_at(slots(old(v)@), slot@.config.id@, 0) {
            Some(i) => old_slot matches Some(s) && s@ == slots(old(v)@)[i],
            None => old_slot is None,
        },
{
    let ghost was = slots(v@);
    let ghost sv = slot@;
    match find_slot(v, slot.config.id.as_str()) {
        Some(i) => {
            assert(was[i as int] == v@[i as int]@);
            let previous = v.remove(i);
            v.insert(i, slot);
            assert(slots(v@) =~= was.update(i as int, sv));
            Some(previous)
        },
        None => {
            v.push(slot);
            assert(slots(v@) =~= was.push(sv));
            None
        },
    }
}

fn holds(v: &Vec<String>, s: &str) -> (yes: bool)
    ensures
        yes == text::views(v@).contains(s@),
{
    let mut i: usize = 0;
    while i < v.len()
        invariant
            i <= v@.len(),
            forall|j: int| 0 <= j < i ==> (#[trigger] text::views(v@)[j]) != s@,
        decreases v@.len() - i,
    {
        assert(text::views(v@)[i as int] == v@[i as int]@);
        if same(v[i].as_str(), s) {
            return true;
        }
        i = i + 1;
    }
    false
}

fn push_id(v: &mut Vec<String>, id: &str)
    ensures
        text::views(final(v)@) == text::views(old(v)@).push(id@),
{
    let ghost was = text::views(v@);
    v.push(id.to_owned());
    assert(text::views(v@) =~= was.push(id@));
}

impl McpManager {
    /// No two servers have the same id.
    pub open spec fn wf(self) -> bool {
        separate(slots(self.servers@))
    }

    /// The place of a server.
    pub open spec fn place(self, id: Seq<char>) -> Option<int> {
        slot_at(slots(self.servers@), id, 0)
    }

    /// A manager of these servers, none of them connected yet.
    pub fn new(config: Config, servers: Vec<ServerConfig>) -> (out: McpManager)
        ensures
            out.wf(),
            out.config == config,
            slots(out.servers@) == configured(servers@),
            out.tools@.len() == 0,
    {
        let ghost all = servers@;
        let mut list: Vec<Slot> = Vec::new();
        assert(slots(list@) =~= configured(all.take(0)));
        for c in it: servers
            invariant
                it.seq() == all,
                separate(slots(list@)),
                slots(list@) == configured(all.take(it.index() as int)),
        {
            proof {
                assert(all.take(it.index() as int + 1).drop_last() =~= all.take(
                    it.index() as int,
                ));
                lemma_with_slot(slots(list@), new_slot(c));
            }
            let _previous = put_slot(&mut list, Slot::new(c));
        }
        assert(all.take(all.len() as int) =~= all);
        McpManager { config, servers: list, tools: Vec::new() }
    }

    pub fn enabled(&self) -> (yes: bool)
        ensures
            yes == self.config.enabled,
    {
        self.config.enabled
    }

    pub fn max_text_chars(&self) -> (out: usize)
        ensures
            out == self.config.max_text_chars,
    {
        self.config.max_text_chars
    }

    /// The servers that are connected at the start: those that take no approval and
    /// are not switched off.
    pub fn connect_startup(&self) -> (out: Vec<String>)
        ensures
            text::views(out@) == startup(slots(self.servers@), self.config.enabled),
    {
        let ghost all = slots(self.servers@);
        let mut out: Vec<String> = Vec::new();
        if !self.config.enabled {
            assert(text::views(out@) =~= seq![]);
            return out;
        }
        let mut i: usize = 0;
        assert(text::views(out@) =~= startup(all.take(0), true));
        while i < self.servers.len()
            invariant
                i <= self.servers@.len(),
                all == slots(self.servers@),
                text::views(out@) == startup(all.take(i as int), true),
            decreases self.servers@.len() - i,
        {
            assert(all.take(i + 1).drop_last() =~= all.take(i as int));
            assert(all[i as int] == self.servers@[i as int]@);
            let c = &self.servers[i].config;
            if !c.requires_approval && !c.disabled {
                push_id(&mut out, c.id.as_str());
            }
            i = i + 1;
        }
        assert(all.take(i as int) =~= all);
        out
    }

    /// What a start of a server would run.
    pub fn start_preview(&self, id: &str) -> (out: Result<StartPreview, Error>)
        ensures
            match self.place(id@) {
                Some(i) => {
                    let c = slots(self.servers@)[i].config;
                    out matches Ok(p) && p.server@ == c.id@ && p.transport@ == (match c.transport {
                        Transport::Stdio { .. } => "stdio"@,
                        Transport::Remote { .. } => "http"@,
                    }) && p.target@ == (match c.transport {
                        Transport::Stdio { command, .. } => text::joined(
                            text::views(command@),
                            " "@,
                        ),
                        Transport::Remote { url, .. } => url@,
                    }) && p.approval_required == c.requires_approval
                },
                None => out matches Err(Error::UnknownServer(s)) && s@ == id@,
            },
    {
        match find_slot(&self.servers, id) {
            Some(i) => {
                assert(slots(self.servers@)[i as int] == self.servers@[i as int]@);
                let c = &self.servers[i].config;
                Ok(
                    StartPreview {
                        server: c.id.clone(),
                        transport: c.transport.label().to_owned(),
                        target: c.transport.target(),
                        approval_required: c.requires_approval,
                    },
                )
            },
            None => Err(Error::UnknownServer(id.to_owned())),
        }
    }

    /// Adds a server, which is to be connected unless it is switched off: adding it is its
    /// approval. Whether the
    /// one it replaces had a connection, which is to be shut down.
    pub fn add_server(&mut self, config: ServerConfig) -> (out: Result<bool, Error>)
        requires
            old(self).wf(),
        ensures
            final(self).wf(),
            final(self).config == old(self).config,
            final(self).tools == old(self).tools,
            if old(self).config.enabled {
                &&& slots(final(self).servers@) == with_slot(
                    slots(old(self).servers@),
                    if config.disabled {
                        new_slot(config)
                    } else {
                        SlotView { state: ServerState::Connecting, ..new_slot(config) }
                    },
                )
                &&& out matches Ok(b) && b == match old(self).place(config.id@) {
                    Some(i) => slots(old(self).servers@)[i].connected,
                    None => false,
                }
            } else {
                out == Err::<bool, Error>(Error::Disabled) && final(self).servers == old(
                    self,
                ).servers
            },
    {
        if !self.config.enabled {
            return Err(Error::Disabled);
        }
        let mut slot = Slot::new(config);
        if !slot.config.disabled {
            slot.state = ServerState::Connecting;
        }
        proof {
            lemma_with_slot(slots(self.servers@), slot@);
        }
        match put_slot(&mut self.servers, slot) {
            Some(previous) => Ok(previous.connected),
            None => Ok(false),
        }
    }

    /// Removes a server and its tools. Whether it had a connection, which is to be shut
    /// down.
    pub fn remove_server(&mut self, id: &str) -> (out: Result<bool, Error>)
        requires
            old(self).wf(),
        ensures
            final(self).wf(),
            final(self).config == old(self).config,
            match old(self).place(id@) {
                Some(i) => {
                    &&& out matches Ok(b) && b == slots(old(self).servers@)[i].connected
                    &&& slots(final(self).servers@) == slots(old(self).servers@).remove(i)
                    &&& final(self).tools@ == old(self).tools@.filter(not_of(id@))
                },
                None => {
                    &&& out matches Err(Error::UnknownServer(s)) && s@ == id@
                    &&& final(self).servers == old(self).servers
                    &&& final(self).tools == old(self).tools
                },
            },
    {
        match find_slot(&self.servers, id) {
            Some(i) => {
                let ghost was = slots(self.servers@);
                assert(was[i as int] == self.servers@[i as int]@);
                proof {
                    lemma_removed(was, i as int);
                }
                let slot = self.servers.remove(i);
                assert(slots(self.servers@) =~= was.remove(i as int));
                self.forget_tools(id);
                Ok(slot.connected)
            },
            None => Err(Error::UnknownServer(id.to_owned())),
        }
    }

    /// Forgets the tools of a server.
    pub fn forget_tools(&mut self, id: &str)
        ensures
            final(self).config == old(self).config,
            final(self).servers == old(self).servers,
            final(self).tools@ == old(self).tools@.filter(not_of(id@)),
    {
        let ghost all = self.tools@;
        let mut previous: Vec<(String, Catalog)> = Vec::new();
        std::mem::swap(&mut previous, &mut self.tools);
        let mut left: Vec<(String, Catalog)> = Vec::new();
        proof {
            reveal(Seq::filter);
            assert(left@ =~= all.take(0).filter(not_of(id@)));
        }
        for e in it: previous
            invariant
                it.seq() == all,
                left@ == all.take(it.index() as int).filter(not_of(id@)),
        {
            proof {
                reveal(Seq::filter);
                assert(all.take(it.index() as int + 1).drop_last() =~= all.take(
                    it.index() as int,
                ));
            }
            if !same(e.0.as_str(), id) {
                left.push(e);
            }
        }
        assert(all.take(all.len() as int) =~= all);
        self.tools = left;
    }

    fn forget_all(&mut self, ids: &Vec<String>)
        ensures
            final(self).config == old(self).config,
            final(self).servers == old(self).servers,
            final(self).tools@ == forgotten(old(self).tools@, text::views(ids@)),
    {
        let ghost all = self.tools@;
        let ghost v = text::views(ids@);
        let mut previous: Vec<(String, Catalog)> = Vec::new();
        std::mem::swap(&mut previous, &mut self.tools);
        let mut left: Vec<(String, Catalog)> = Vec::new();
        proof {
            reveal(Seq::filter);
            assert(left@ =~= forgotten(all.take(0), v));
        }
        for e in it: previous
            invariant
                it.seq() == all,
                v == text::views(ids@),
                left@ == forgotten(all.take(it.index() as int), v),
        {
            proof {
                reveal(Seq::filter);
                assert(all.take(it.index() as int + 1).drop_last() =~= all.take(
                    it.index() as int,
                ));
            }
            if !holds(ids, e.0.as_str()) {
                left.push(e);
            }
        }
        assert(all.take(all.len() as int) =~= all);
        self.tools = left;
    }

    fn take(&mut self, i: usize) -> (out: Slot)
        requires
            i < old(self).servers@.len(),
        ensures
            out@ == slots(old(self).servers@)[i as int],
            final(self).servers@ == old(self).servers@.remove(i as int),
            final(self).config == old(self).config,
            final(self).tools == old(self).tools,
    {
        self.servers.remove(i)
    }

    fn give(&mut self, i: usize, slot: Slot, Ghost(before): Ghost<Seq<SlotView>>)
        requires
            separate(before),
            0 <= i < before.len(),
            slots(old(self).servers@) == before.remove(i as int),
            slot@.config.id@ == before[i as int].config.id@,
        ensures
            final(self).wf(),
            final(self).config == old(self).config,
            final(self).tools == old(self).tools,
            slots(final(self).servers@) == before.update(i as int, slot@),
    {
        let ghost sv = slot@;
        proof {
            lemma_updated(before, i as int, sv);
            assert(slots(self.servers@).len() == self.servers@.len());
        }
        let ghost short = self.servers@;
        self.servers.insert(i, slot);
        assert(slots(self.servers@) =~= slots(short).insert(i as int, sv));
        assert(slots(self.servers@) =~= before.update(i as int, sv));
    }

    /// Whether a server is switched off.
    pub fn is_off(&self, id: &str) -> (yes: bool)
        ensures
            yes == (self.place(id@) matches Some(i) && slots(self.servers@)[i].config.disabled),
    {
        match find_slot(&self.servers, id) {
            Some(i) => {
                assert(slots(self.servers@)[i as int] == self.servers@[i as int]@);
                self.servers[i].config.disabled
            },
            None => false,
        }
    }

    /// Approves a server: it is to be connected at once, however often it failed.
    pub fn approve(&mut self, id: &str) -> (out: Result<(), Error>)
        requires
            old(self).wf(),
        ensures
            final(self).wf(),
            final(self).config == old(self).config,
            final(self).tools == old(self).tools,
            match old(self).place(id@) {
                Some(i) => {
                    &&& out is Ok
                    &&& slots(final(self).servers@) == slots(old(self).servers@).update(
                        i,
                        SlotView {
                            failures: 0,
                            retry_at: None,
                            ..slots(old(self).servers@)[i]
                        },
                    )
                },
                None => {
                    &&& out matches Err(Error::UnknownServer(s)) && s@ == id@
                    &&& final(self).servers == old(self).servers
                },
            },
    {
        match find_slot(&self.servers, id) {
            Some(i) => {
                let ghost before = slots(self.servers@);
                let mut slot = self.take(i);
                assert(slots(self.servers@) =~= before.remove(i as int));
                slot.failures = 0;
                slot.retry_at = None;
                self.give(i, slot, Ghost(before));
                Ok(())
            },
            None => Err(Error::UnknownServer(id.to_owned())),
        }
    }

    /// Begins to connect a server. Whether it had a connection, which is to be shut down
    /// first. One that is switched off is never connected.
    pub fn begin_connect(&mut self, id: &str) -> (out: Result<bool, Error>)
        requires
            old(self).wf(),
        ensures
            final(self).wf(),
            final(self).config == old(self).config,
            final(self).tools == old(self).tools,
            match old(self).place(id@) {
                Some(i) if slots(old(self).servers@)[i].config.disabled => {
                    &&& out matches Err(e) && switched_off(e, id@)
                    &&& final(self).servers == old(self).servers
                },
                Some(i) => {
                    let s = slots(old(self).servers@)[i];
                    &&& out matches Ok(b) && b == s.connected
                    &&& slots(final(self).servers@) == slots(old(self).servers@).update(
                        i,
                        SlotView {
                            state: if s.failures > 0 || s.connected {
                                ServerState::Reconnecting
                            } else {
                                ServerState::Connecting
                            },
                            ..detached(s)
                        },
                    )
                },
                None => {
                    &&& out matches Err(Error::UnknownServer(s)) && s@ == id@
                    &&& final(self).servers == old(self).servers
                },
            },
    {
        match find_slot(&self.servers, id) {
            Some(i) => {
                let ghost before = slots(self.servers@);
                assert(before[i as int] == self.servers@[i as int]@);
                if self.servers[i].config.disabled {
                    return Err(refuse_off(id));
                }
                let mut slot = self.take(i);
                assert(slots(self.servers@) =~= before.remove(i as int));
                let was = slot.connected;
                slot.state = if slot.failures > 0 || was {
                    ServerState::Reconnecting
                } else {
                    ServerState::Connecting
                };
                slot.connected = false;
                slot.proven = false;
                self.give(i, slot, Ghost(before));
                Ok(was)
            },
            None => Err(Error::UnknownServer(id.to_owned())),
        }
    }

    /// Records the tools of a server.
    pub fn set_tools(&mut self, id: &str, catalog: Catalog)
        ensures
            final(self).config == old(self).config,
            final(self).servers == old(self).servers,
            recorded(old(self).tools@, final(self).tools@, id@, catalog),
    {
        match find_catalog(&self.tools, id) {
            Some(i) => {
                let ghost was = self.tools@;
                let _previous = self.tools.remove(i);
                self.tools.insert(i, (id.to_owned(), catalog));
                assert(forall|j: int|
                    0 <= j < was.len() && j != i ==> (#[trigger] self.tools@[j]) == was[j]);
            },
            None => {
                let ghost was = self.tools@;
                self.tools.push((id.to_owned(), catalog));
                assert(self.tools@.drop_last() =~= was);
            },
        }
    }

    /// A server was connected. Where it was removed meanwhile, the connection is to be
    /// shut down.
    pub fn connected(&mut self, id: &str) -> (out: Result<(), Error>)
        requires
            old(self).wf(),
        ensures
            final(self).wf(),
            final(self).config == old(self).config,
            final(self).tools == old(self).tools,
            match old(self).place(id@) {
                Some(i) => {
                    &&& out is Ok
                    &&& slots(final(self).servers@) == slots(old(self).servers@).update(
                        i,
                        SlotView {
                            connected: true,
                            state: ServerState::Ready,
                            detail: None,
                            retry_at: None,
                            ..slots(old(self).servers@)[i]
                        },
                    )
                },
                None => {
                    &&& out matches Err(Error::UnknownServer(s)) && s@ == id@
                    &&& final(self).servers == old(self).servers
                },
            },
    {
        match find_slot(&self.servers, id) {
            Some(i) => {
                let ghost before = slots(self.servers@);
                let mut slot = self.take(i);
                assert(slots(self.servers@) =~= before.remove(i as int));
                slot.connected = true;
                slot.state = ServerState::Ready;
                slot.detail = None;
                slot.retry_at = None;
                self.give(i, slot, Ghost(before));
                Ok(())
            },
            None => Err(Error::UnknownServer(id.to_owned())),
        }
    }

    /// A server could not be connected.
    pub fn record_failure(&mut self, id: &str, error: &Error, now: u64)
        requires
            old(self).wf(),
        ensures
            final(self).wf(),
            final(self).config == old(self).config,
            final(self).tools == old(self).tools,
            slots(final(self).servers@) == match old(self).place(id@) {
                Some(i) => slots(old(self).servers@).update(
                    i,
                    failed(
                        slots(old(self).servers@)[i],
                        *error,
                        now,
                        old(self).config.max_reconnects,
                        old(self).config.park_probe,
                    ),
                ),
                None => slots(old(self).servers@),
            },
    {
        match find_slot(&self.servers, id) {
            Some(i) => {
                let ghost before = slots(self.servers@);
                let max: u32 = self.config.max_reconnects;
                let rest: u64 = self.config.park_probe;
                let mut slot = self.take(i);
                assert(slots(self.servers@) =~= before.remove(i as int));
                let ghost start = slot@;
                slot.detail = Some(error.text());
                match error {
                    Error::NeedsAuth(_) => {
                        slot.state = ServerState::NeedsAuth;
                        slot.retry_at = None;
                    },
                    Error::NeedsToken(_) => {
                        slot.state = ServerState::NeedsToken;
                        slot.retry_at = None;
                    },
                    _ => {
                        slot.failures = if slot.failures == u32::MAX {
                            slot.failures
                        } else {
                            slot.failures + 1
                        };
                        if error.is_terminal() {
                            slot.state = ServerState::Failed;
                            slot.retry_at = None;
                        } else if slot.failures >= max {
                            slot.state = ServerState::Parked;
                            slot.retry_at = Some(after(now, rest));
                        } else {
                            slot.state = ServerState::Degraded;
                            slot.retry_at = Some(after(now, backoff(slot.failures)));
                        }
                    },
                }
                assert(slot@ =~= failed(start, *error, now, max, rest));
                self.give(i, slot, Ghost(before));
            },
            None => {},
        }
    }

    /// Sets the state of a server.
    pub fn set_state(&mut self, id: &str, state: ServerState, detail: Option<String>)
        requires
            old(self).wf(),
        ensures
            final(self).wf(),
            final(self).config == old(self).config,
            final(self).tools == old(self).tools,
            slots(final(self).servers@) == match old(self).place(id@) {
                Some(i) => slots(old(self).servers@).update(
                    i,
                    SlotView {
                        state,
                        detail: text::view_of(detail),
                        ..slots(old(self).servers@)[i]
                    },
                ),
                None => slots(old(self).servers@),
            },
    {
        match find_slot(&self.servers, id) {
            Some(i) => {
                let ghost before = slots(self.servers@);
                let mut slot = self.take(i);
                assert(slots(self.servers@) =~= before.remove(i as int));
                slot.state = state;
                slot.detail = detail;
                self.give(i, slot, Ghost(before));
            },
            None => {},
        }
    }

    /// A server answered a request: its connection is proven, and its row of failures is
    /// over.
    pub fn mark_proven(&mut self, id: &str)
        requires
            old(self).wf(),
        ensures
            final(self).wf(),
            final(self).config == old(self).config,
            final(self).tools == old(self).tools,
            slots(final(self).servers@) == match old(self).place(id@) {
                Some(i) => slots(old(self).servers@).update(
                    i,
                    SlotView { proven: true, failures: 0, ..slots(old(self).servers@)[i] },
                ),
                None => slots(old(self).servers@),
            },
    {
        match find_slot(&self.servers, id) {
            Some(i) => {
                let ghost before = slots(self.servers@);
                let mut slot = self.take(i);
                assert(slots(self.servers@) =~= before.remove(i as int));
                slot.proven = true;
                slot.failures = 0;
                self.give(i, slot, Ghost(before));
            },
            None => {},
        }
    }

    /// Looks at every server. `closed` are the ids of those whose connection is gone. The
    /// tools of those that are to be connected again are forgotten.
    pub fn health_sweep(&mut self, closed: &Vec<String>, now: u64) -> (out: Sweep)
        requires
            old(self).wf(),
        ensures
            final(self).wf(),
            final(self).config == old(self).config,
            final(self).tools@ == forgotten(
                old(self).tools@,
                due(slots(old(self).servers@), now),
            ),
            ({
                let v = slots(old(self).servers@);
                let c = text::views(closed@);
                &&& slots(final(self).servers@) == v.map_values(
                    |s: SlotView| swept(s, c.contains(s.config.id@), now),
                )
                &&& text::views(out.lost@) == lost(v, c)
                &&& text::views(out.unproven@) == unproven(v, c)
                &&& text::views(out.due@) == due(v, now)
            }),
    {
        let ghost v = slots(self.servers@);
        let ghost c = text::views(closed@);
        let mut gone: Vec<String> = Vec::new();
        let mut probe: Vec<String> = Vec::new();
        let mut again: Vec<String> = Vec::new();
        let mut i: usize = 0;
        proof {
            assert(text::views(gone@) =~= lost(v.take(0), c));
            assert(text::views(probe@) =~= unproven(v.take(0), c));
            assert(text::views(again@) =~= due(v.take(0), now));
        }
        while i < self.servers.len()
            invariant
                i <= self.servers@.len(),
                self.wf(),
                self.config == old(self).config,
                self.tools == old(self).tools,
                v == slots(old(self).servers@),
                c == text::views(closed@),
                self.servers@.len() == v.len(),
                forall|j: int|
                    0 <= j < i ==> (#[trigger] slots(self.servers@)[j]) == swept(
                        v[j],
                        c.contains(v[j].config.id@),
                        now,
                    ),
                forall|j: int| i <= j < v.len() ==> (#[trigger] slots(self.servers@)[j]) == v[j],
                text::views(gone@) == lost(v.take(i as int), c),
                text::views(probe@) == unproven(v.take(i as int), c),
                text::views(again@) == due(v.take(i as int), now),
            decreases self.servers@.len() - i,
        {
            let ghost before = slots(self.servers@);
            assert(v.take(i + 1).drop_last() =~= v.take(i as int));
            assert(before[i as int] == v[i as int]);
            let mut slot = self.take(i);
            assert(slots(self.servers@) =~= before.remove(i as int));
            let ghost start = slot@;
            assert(start == v[i as int]);
            let shut = holds(closed, slot.config.id.as_str());
            match slot.state {
                ServerState::Ready => {
                    if !slot.connected || shut {
                        if slot.connected {
                            push_id(&mut gone, slot.config.id.as_str());
                        }
                        slot.connected = false;
                        slot.proven = false;
                        slot.state = ServerState::Degraded;
                        slot.detail = Some("connection lost".to_owned());
                        slot.retry_at = Some(now);
                    } else if !slot.proven {
                        push_id(&mut probe, slot.config.id.as_str());
                    }
                },
                ServerState::Degraded | ServerState::Parked => {
                    let ready = match slot.retry_at {
                        Some(at) => at <= now,
                        None => false,
                    };
                    if ready {
                        slot.retry_at = None;
                        push_id(&mut again, slot.config.id.as_str());
                    }
                },
                _ => {},
            }
            assert(slot@ =~= swept(start, shut, now));
            self.give(i, slot, Ghost(before));
            assert(slots(self.servers@).len() == self.servers@.len());
            i = i + 1;
        }
        assert(v.take(i as int) =~= v);
        assert(slots(self.servers@) =~= v.map_values(
            |s: SlotView| swept(s, c.contains(s.config.id@), now),
        ));
        self.forget_all(&again);
        Sweep { lost: gone, unproven: probe, due: again }
    }

    /// The server and tool that a call goes to, or why it is refused. Only exposed tools
    /// can be called, and only with the arguments that they require.
    pub fn call(&self, name: &str, args: &Json) -> (out: Result<Route, Error>)
        ensures
            match out {
                Ok(r) => {
                    &&& call_refusal(*self, name@, args@) is None
                    &&& names::parsed(name@) == Some((r.server@, r.tool@))
                },
                Err(e) => {
                    &&& call_refusal(*self, name@, args@) == Some(e.message())
                    &&& !self.config.enabled <==> e is Disabled
                    &&& e matches Error::ServerNotReady { server, state, .. } ==> (self.place(
                        server@,
                    ) matches Some(i) && state == slots(self.servers@)[i].state)
                    &&& self.config.enabled ==> match names::parsed(name@) {
                        None => e is BadToolName,
                        Some((server, tool)) => match self.place(server) {
                            None => e is UnknownServer,
                            Some(i) => {
                                let s = slots(self.servers@)[i];
                                if !(s.connected && s.state is Ready) {
                                    e is ServerNotReady
                                } else if exposed_tool(self.tools@, server, name@) is None {
                                    e is UnknownTool
                                } else {
                                    e is BadArguments
                                }
                            },
                        },
                    }
                },
            },
    {
        if !self.config.enabled {
            return Err(Error::Disabled);
        }
        let (server, tool) = match parse_qualified(name) {
            Ok(p) => p,
            Err(e) => {
                return Err(e);
            },
        };
        let i = match find_slot(&self.servers, server.as_str()) {
            Some(i) => i,
            None => {
                return Err(Error::UnknownServer(server));
            },
        };
        let slot = &self.servers[i];
        assert(slots(self.servers@)[i as int] == slot@);
        if !slot.connected || !slot.state.is_live() {
            let detail = match &slot.detail {
                Some(d) => Some(d.clone()),
                None => None,
            };
            return Err(Error::ServerNotReady { server, state: slot.state, detail });
        }
        let found = match find_catalog(&self.tools, server.as_str()) {
            Some(c) => match find_tool(&self.tools[c].1.exposed, name) {
                Some(t) => Some(&self.tools[c].1.exposed[t]),
                None => None,
            },
            None => None,
        };
        match found {
            None => Err(Error::UnknownTool { server, tool }),
            Some(t) => {
                assert(exposed_tool(self.tools@, server@, name@) == Some(*t));
                match validate_arguments(&t.schema, args) {
                    Ok(_) => Ok(Route { server, tool }),
                    Err(reason) => Err(Error::BadArguments { tool: name.to_owned(), reason }),
                }
            },
        }
    }

    /// A call that came back is what proves a connection.
    pub fn finish_call(&mut self, route: Route, text: String, is_error: Option<bool>) -> (out:
        CallOutput)
        requires
            old(self).wf(),
        ensures
            final(self).wf(),
            final(self).config == old(self).config,
            final(self).tools == old(self).tools,
            slots(final(self).servers@) == match old(self).place(route.server@) {
                Some(i) => slots(old(self).servers@).update(
                    i,
                    SlotView { proven: true, failures: 0, ..slots(old(self).servers@)[i] },
                ),
                None => slots(old(self).servers@),
            },
            out.server == route.server,
            out.tool == route.tool,
            out.text == text,
            out.is_error == (is_error == Some(true)),
    {
        self.mark_proven(route.server.as_str());
        CallOutput {
            server: route.server,
            tool: route.tool,
            text,
            is_error: match is_error {
                Some(b) => b,
                None => false,
            },
        }
    }

    fn status_at(&self, i: usize) -> (out: ServerStatus)
        requires
            i < self.servers@.len(),
        ensures
            out@ == status_of(slots(self.servers@)[i as int], self.tools@),
    {
        let slot = &self.servers[i];
        assert(slots(self.servers@)[i as int] == slot@);
        let (tools, hidden): (usize, usize) = match find_catalog(
            &self.tools,
            slot.config.id.as_str(),
        ) {
            Some(c) => (self.tools[c].1.exposed.len(), self.tools[c].1.hidden),
            None => (0, 0),
        };
        ServerStatus {
            server: slot.config.id.clone(),
            state: slot.state,
            tools,
            hidden,
            detail: match &slot.detail {
                Some(d) => Some(d.clone()),
                None => None,
            },
        }
    }

    /// The status of a server.
    pub fn server_status(&self, id: &str) -> (out: Result<ServerStatus, Error>)
        ensures
            match self.place(id@) {
                Some(i) => out matches Ok(s) && s@ == status_of(
                    slots(self.servers@)[i],
                    self.tools@,
                ),
                None => out matches Err(Error::UnknownServer(s)) && s@ == id@,
            },
    {
        match find_slot(&self.servers, id) {
            Some(i) => Ok(self.status_at(i)),
            None => Err(Error::UnknownServer(id.to_owned())),
        }
    }

    /// The status of every server, by id.
    pub fn status(&self) -> (out: Vec<ServerStatus>)
        ensures
            exists|list: Seq<ServerStatus>|
                statuses(list) == slots(self.servers@).map_values(
                    |s: SlotView| status_of(s, self.tools@),
                ) && out@ == #[trigger] ranking::ranked(list),
    {
        let mut list: Vec<ServerStatus> = Vec::new();
        let mut i: usize = 0;
        while i < self.servers.len()
            invariant
                i <= self.servers@.len(),
                list@.len() == i,
                forall|j: int|
                    0 <= j < i ==> (#[trigger] list@[j])@ == status_of(
                        slots(self.servers@)[j],
                        self.tools@,
                    ),
            decreases self.servers@.len() - i,
        {
            list.push(self.status_at(i));
            i = i + 1;
        }
        assert(statuses(list@) =~= slots(self.servers@).map_values(
            |s: SlotView| status_of(s, self.tools@),
        ));
        sort(list)
    }

    /// Whether a server awaits a sign-in.
    pub fn needs_sign_in(&self, id: &str) -> (yes: bool)
        ensures
            yes == (self.place(id@) matches Some(i) && slots(self.servers@)[i].state is NeedsAuth),
    {
        match find_slot(&self.servers, id) {
            Some(i) => {
                assert(slots(self.servers@)[i as int] == self.servers@[i as int]@);
                match self.servers[i].state {
                    ServerState::NeedsAuth => true,
                    _ => false,
                }
            },
            None => false,
        }
    }

    /// The address at which a server is signed in to, or why there is none. `has_store`
    /// says whether credentials can be kept.
    pub fn sign_in_address(&self, id: &str, has_store: bool) -> (out: Result<String, Error>)
        ensures
            match self.place(id@) {
                Some(i) if slots(self.servers@)[i].config.disabled => out matches Err(e)
                    && switched_off(e, id@),
                Some(i) => match slots(self.servers@)[i].config.transport {
                    Transport::Remote { url, auth } => if !(auth is OAuth || auth is Auto) {
                        out matches Err(Error::Auth(m)) && m@ == "'"@ + id@
                            + "' is not a remote server; nothing to sign in to"@
                    } else if !has_store {
                        out matches Err(Error::Auth(m)) && m@ == "no credential store is configured"@
                    } else {
                        out matches Ok(u) && u@ == url@
                    },
                    _ => out matches Err(Error::Auth(m)) && m@ == "'"@ + id@
                        + "' is not a remote server; nothing to sign in to"@,
                },
                None => out matches Err(Error::UnknownServer(s)) && s@ == id@,
            },
    {
        match find_slot(&self.servers, id) {
            Some(i) => {
                assert(slots(self.servers@)[i as int] == self.servers@[i as int]@);
                if self.servers[i].config.disabled {
                    return Err(refuse_off(id));
                }
                let url = match &self.servers[i].config.transport {
                    Transport::Remote { url, auth } => match auth {
                        RemoteAuth::OAuth => Some(url),
                        RemoteAuth::Auto => Some(url),
                        _ => None,
                    },
                    _ => None,
                };
                match url {
                    Some(u) => if has_store {
                        Ok(u.clone())
                    } else {
                        Err(Error::Auth("no credential store is configured".to_owned()))
                    },
                    None => Err(
                        Error::Auth(
                            cat3("'", id, "' is not a remote server; nothing to sign in to"),
                        ),
                    ),
                }
            },
            None => Err(Error::UnknownServer(id.to_owned())),
        }
    }

    /// Every exposed tool, by name.
    pub fn tool_specs(&self) -> (out: Vec<McpToolSpec>)
        ensures
            exists|list: Seq<McpToolSpec>|
                catalog::specs(list) == all_exposed(self.tools@) && out@
                    == #[trigger] ranking::ranked(list),
    {
        let ghost all = self.tools@;
        let mut list: Vec<McpToolSpec> = Vec::new();
        let mut i: usize = 0;
        assert(catalog::specs(list@) =~= all_exposed(all.take(0)));
        while i < self.tools.len()
            invariant
                i <= self.tools@.len(),
                all == self.tools@,
                catalog::specs(list@) == all_exposed(all.take(i as int)),
            decreases self.tools@.len() - i,
        {
            assert(all.take(i + 1).drop_last() =~= all.take(i as int));
            let ghost start = catalog::specs(list@);
            let exposed = &self.tools[i].1.exposed;
            let ghost more = catalog::specs(exposed@);
            let mut j: usize = 0;
            assert(start + more.take(0) =~= start);
            while j < exposed.len()
                invariant
                    j <= exposed@.len(),
                    more == catalog::specs(exposed@),
                    catalog::specs(list@) == start + more.take(j as int),
                decreases exposed@.len() - j,
            {
                let ghost was = list@;
                let t = &exposed[j];
                let copy = McpToolSpec {
                    name: t.name.clone(),
                    description: t.description.clone(),
                    schema: t.schema.copy(),
                };
                let ghost cv = copy@;
                assert(cv =~= more[j as int]);
                list.push(copy);
                assert(catalog::specs(list@) =~= catalog::specs(was).push(cv));
                j = j + 1;
                assert(catalog::specs(list@) =~= start + more.take(j as int));
            }
            assert(more.take(j as int) =~= more);
            i = i + 1;
        }
        assert(all.take(i as int) =~= all);
        sort(list)
    }

    /// Every tool that a server offers, by name, and whether it is exposed.
    pub fn server_tools(&self, id: &str) -> (out: Vec<(String, bool)>)
        ensures
            match catalog_at(self.tools@, id@, 0) {
                Some(i) => {
                    &&& out@.len() == self.tools@[i].1.offered@.len()
                    &&& forall|j: int|
                        0 <= j < out@.len() ==> (#[trigger] out@[j]).0@
                            == self.tools@[i].1.offered@[j].name@ && out@[j].1
                            == self.tools@[i].1.offered@[j].on
                },
                None => out@.len() == 0,
            },
    {
        let mut out: Vec<(String, bool)> = Vec::new();
        match find_catalog(&self.tools, id) {
            Some(i) => {
                let offered = &self.tools[i].1.offered;
                let mut j: usize = 0;
                while j < offered.len()
                    invariant
                        j <= offered@.len(),
                        out@.len() == j,
                        forall|k: int|
                            0 <= k < j ==> (#[trigger] out@[k]).0@ == offered@[k].name@ && out@[k].1
                                == offered@[k].on,
                    decreases offered@.len() - j,
                {
                    out.push((offered[j].name.clone(), offered[j].on));
                    j = j + 1;
                }
            },
            None => {},
        }
        out
    }

    /// Stops every server. The ids of those whose connection is to be shut down.
    pub fn shutdown(&mut self) -> (out: Vec<String>)
        requires
            old(self).wf(),
        ensures
            final(self).wf(),
            final(self).config == old(self).config,
            final(self).tools@.len() == 0,
            slots(final(self).servers@) == slots(old(self).servers@).map_values(
                |s: SlotView| stopped(s),
            ),
            text::views(out@) == live(slots(old(self).servers@)),
    {
        let ghost v = slots(self.servers@);
        let mut out: Vec<String> = Vec::new();
        let mut i: usize = 0;
        assert(text::views(out@) =~= live(v.take(0)));
        while i < self.servers.len()
            invariant
                i <= self.servers@.len(),
                self.wf(),
                self.config == old(self).config,
                v == slots(old(self).servers@),
                self.servers@.len() == v.len(),
                forall|j: int|
                    0 <= j < i ==> (#[trigger] slots(self.servers@)[j]) == stopped(v[j]),
                forall|j: int| i <= j < v.len() ==> (#[trigger] slots(self.servers@)[j]) == v[j],
                text::views(out@) == live(v.take(i as int)),
            decreases self.servers@.len() - i,
        {
            let ghost before = slots(self.servers@);
            assert(v.take(i + 1).drop_last() =~= v.take(i as int));
            assert(before[i as int] == v[i as int]);
            let mut slot = self.take(i);
            assert(slots(self.servers@) =~= before.remove(i as int));
            let ghost start = slot@;
            if slot.connected {
                push_id(&mut out, slot.config.id.as_str());
            }
            slot.connected = false;
            slot.proven = false;
            slot.state = ServerState::Stopped;
            slot.detail = None;
            slot.retry_at = None;
            assert(slot@ =~= stopped(start));
            self.give(i, slot, Ghost(before));
            assert(slots(self.servers@).len() == self.servers@.len());
            i = i + 1;
        }
        assert(v.take(i as int) =~= v);
        assert(slots(self.servers@) =~= v.map_values(|s: SlotView| stopped(s)));
        self.tools = Vec::new();
        out
    }
}

/// A server that was stopped.
pub open spec fn stopped(s: SlotView) -> SlotView {
    SlotView { state: ServerState::Stopped, detail: None, retry_at: None, ..detached(s) }
}

/// The ids of the servers that are connected.
pub open spec fn live(v: Seq<SlotView>) -> Seq<Seq<char>>
    decreases v.len(),
{
    if v.len() == 0 {
        seq![]
    } else {
        let head = live(v.drop_last());
        if v.last().connected {
            head.push(v.last().config.id@)
        } else {
            head
        }
    }
}

/// The ids of the servers that are connected at the start.
pub open spec fn startup(v: Seq<SlotView>, enabled: bool) -> Seq<Seq<char>>
    decreases v.len(),
{
    if v.len() == 0 || !enabled {
        seq![]
    } else {
        let head = startup(v.drop_last(), enabled);
        let c = v.last().config;
        if !c.requires_approval && !c.disabled {
            head.push(c.id@)
        } else {
            head
        }
    }
}

/// A call goes through only to a server that is connected and ready, and only to a tool
/// that it exposes.
pub proof fn law_only_exposed_tools_are_called(
    m: McpManager,
    name: Seq<char>,
    args: crate::json::JsonView,
)
    requires
        call_refusal(m, name, args) is None,
    ensures
        m.config.enabled,
        names::parsed(name) matches Some((server, tool)) && exposed_tool(m.tools@, server, name)
            is Some && (m.place(server) matches Some(i) && slots(m.servers@)[i].state is Ready
            && slots(m.servers@)[i].connected),
{
}

/// A server that is switched off or awaits an approval is not connected at the start,
/// and none is where the manager is switched off.
pub proof fn law_startup_spares_gated_servers(v: Seq<SlotView>, enabled: bool, i: int)
    requires
        0 <= i < startup(v, enabled).len(),
    ensures
        enabled,
        exists|j: int|
            0 <= j < v.len() && (#[trigger] v[j]).config.id@ == startup(v, enabled)[i]
                && !v[j].config.disabled && !v[j].config.requires_approval,
    decreases v.len(),
{
    if v.len() > 0 {
        let head = startup(v.drop_last(), enabled);
        if i < head.len() {
            law_startup_spares_gated_servers(v.drop_last(), enabled, i);
            let j = choose|j: int|
                0 <= j < v.drop_last().len() && (#[trigger] v.drop_last()[j]).config.id@ == head[i]
                    && !v.drop_last()[j].config.disabled
                    && !v.drop_last()[j].config.requires_approval;
            assert(v[j] == v.drop_last()[j]);
        } else {
            assert(v[v.len() - 1].config.id@ == startup(v, enabled)[i]);
        }
    }
}

/// A look at the servers leaves one that is switched off as it is: it is neither tried
/// again nor asked for its tools.
pub proof fn law_switched_off_servers_are_left_alone(config: ServerConfig, closed: bool, now: u64)
    requires
        config.disabled,
    ensures
        swept(new_slot(config), closed, now) == new_slot(config),
        !is_due(new_slot(config), now),
        !is_unproven(new_slot(config), closed),
{
}

/// The tools of a server that is to be connected again are no longer shown, and nothing
/// else is shown than before.
pub proof fn law_due_servers_show_no_tools(v: Seq<(String, Catalog)>, ids: Seq<Seq<char>>, i: int)
    requires
        0 <= i < forgotten(v, ids).len(),
    ensures
        !ids.contains(forgotten(v, ids)[i].0@),
        v.contains(forgotten(v, ids)[i]),
    decreases v.len(),
{
    reveal(Seq::filter);
    if v.len() > 0 {
        let head = forgotten(v.drop_last(), ids);
        if i < head.len() {
            law_due_servers_show_no_tools(v.drop_last(), ids, i);
            assert(forgotten(v, ids)[i] == head[i]);
            let j = choose|j: int| 0 <= j < v.drop_last().len() && v.drop_last()[j] == head[i];
            assert(v[j] == head[i]);
        } else {
            assert(v[v.len() - 1] == forgotten(v, ids)[i]);
        }
    }
}

} // verus!

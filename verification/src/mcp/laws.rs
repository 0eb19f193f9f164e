//! What holds of every tool server and every call.

use vstd::prelude::*;
use crate::json::JsonView;
use crate::mcp::catalog;
use crate::mcp::catalog::Catalog;
use crate::mcp::errors;
use crate::mcp::errors::Error;
use crate::mcp::ipv6;
use crate::mcp::manager;
use crate::mcp::manager::{McpManager, SlotView};
use crate::lsp::environment;
use crate::mcp::launch;
use crate::mcp::launch::ServerConfig;
use crate::mcp::names;
use crate::mcp::names::ToolFilter;
use crate::mcp::policy;
use crate::mcp::policy::PartsView;
use crate::number;
use crate::paths;
use crate::text;

verus! {

/// A name that stands for a tool is made of the prefix, the server's name, the separator
/// and the tool's; neither name is empty, and the server's holds no separator.
pub proof fn law_parsed_names_are_whole(name: Seq<char>)
    ensures
        names::parsed(name) matches Some((server, tool)) ==> name == "mcp__"@ + server + "__"@
            + tool && server.len() > 0 && tool.len() > 0 && !text::contains(server, "__"@),
        names::parsed(name) is None ==> forall|server: Seq<char>, tool: Seq<char>|
            server.len() > 0 && tool.len() > 0 && !text::contains(server, "__"@) && server.last()
                != '_' ==> name != #[trigger] names::qualified(server, tool),
{
    reveal_strlit("mcp__");
    reveal_strlit("__");
    if let Some((server, tool)) = names::parsed(name) {
        let rest = text::rest(name, 5);
        let sep = "__"@;
        text::lemma_find_from(rest, sep, 0);
        let i = text::find(rest, sep)->0;
        assert(name.subrange(0, 5) == "mcp__"@);
        assert(rest.subrange(i, i + 2) == sep);
        assert(name =~= "mcp__"@ + server + sep + tool) by {
            assert(name =~= name.subrange(0, 5) + rest);
            assert(rest =~= server + rest.subrange(i, i + 2) + tool);
        }
        if text::contains(server, sep) {
            let j = choose|j: int| text::occurs(server, sep, j);
            assert(rest.subrange(j, j + 2) =~= server.subrange(j, j + 2));
            assert(text::occurs(rest, sep, j));
        }
    } else {
        assert forall|server: Seq<char>, tool: Seq<char>|
            server.len() > 0 && tool.len() > 0 && !text::contains(server, "__"@) && server.last()
                != '_' implies name != #[trigger] names::qualified(server, tool) by {
            names::law_names_round_trip(server, tool);
        }
    }
}

/// The server is connected and takes calls.
pub open spec fn takes_calls(m: McpManager, server: Seq<char>) -> bool {
    exists|i: int|
        0 <= i < m.servers@.len() && (#[trigger] m.servers@[i]).config.id@ == server
            && m.servers@[i].connected && m.servers@[i].state is Ready
}

/// A tool of this schema is exposed for the server under the name.
pub open spec fn exposes(m: McpManager, server: Seq<char>, name: Seq<char>, schema: JsonView) -> bool {
    exists|i: int, j: int|
        0 <= i < m.tools@.len() && m.tools@[i].0@ == server && 0 <= j
            < m.tools@[i].1.exposed@.len() && (#[trigger] m.tools@[i].1.exposed@[j]).name@ == name
            && m.tools@[i].1.exposed@[j].schema@ == schema
}

proof fn lemma_slot_at(v: Seq<SlotView>, id: Seq<char>, i: int)
    requires
        0 <= i,
    ensures
        match manager::slot_at(v, id, i) {
            Some(k) => i <= k < v.len() && v[k].config.id@ == id && forall|j: int|
                i <= j < k ==> (#[trigger] v[j]).config.id@ != id,
            None => forall|j: int| i <= j < v.len() ==> (#[trigger] v[j]).config.id@ != id,
        },
    decreases v.len() - i,
{
    if i < v.len() && v[i].config.id@ != id {
        lemma_slot_at(v, id, i + 1);
    }
}

proof fn lemma_catalog_at(v: Seq<(String, Catalog)>, id: Seq<char>, i: int)
    requires
        0 <= i,
    ensures
        match manager::catalog_at(v, id, i) {
            Some(k) => i <= k < v.len() && v[k].0@ == id && forall|j: int|
                i <= j < k ==> (#[trigger] v[j]).0@ != id,
            None => forall|j: int| i <= j < v.len() ==> (#[trigger] v[j]).0@ != id,
        },
    decreases v.len() - i,
{
    if i < v.len() && v[i].0@ != id {
        lemma_catalog_at(v, id, i + 1);
    }
}

proof fn lemma_tool_at(v: Seq<catalog::McpToolSpec>, name: Seq<char>, i: int)
    requires
        0 <= i,
    ensures
        match manager::tool_at(v, name, i) {
            Some(k) => i <= k < v.len() && v[k].name@ == name,
            None => forall|j: int| i <= j < v.len() ==> (#[trigger] v[j]).name@ != name,
        },
    decreases v.len() - i,
{
    if i < v.len() && v[i].name@ != name {
        lemma_tool_at(v, name, i + 1);
    }
}

/// A call goes through only where the manager is switched on, the server that the tool's
/// name holds is connected and takes calls, that server exposes the tool, and the arguments
/// are an object or none with a value under each name that the tool requires.
pub proof fn law_calls_are_checked(m: McpManager, name: Seq<char>, args: JsonView)
    requires
        manager::call_refusal(m, name, args) is None,
    ensures
        m.config.enabled,
        exists|server: Seq<char>, tool: Seq<char>, schema: JsonView|
            {
                &&& name == #[trigger] ("mcp__"@ + server + "__"@ + tool)
                &&& takes_calls(m, server)
                &&& #[trigger] exposes(m, server, name, schema)
                &&& catalog::is_record(args)
                &&& catalog::has_required(schema, args)
            },
{
    law_parsed_names_are_whole(name);
    let (server, tool) = names::parsed(name)->0;
    let v = manager::slots(m.servers@);
    lemma_slot_at(v, server, 0);
    let i = manager::slot_at(v, server, 0)->0;
    assert(v[i] == m.servers@[i]@);
    assert(m.servers@[i].config.id@ == server);
    lemma_catalog_at(m.tools@, server, 0);
    let k = manager::catalog_at(m.tools@, server, 0)->0;
    lemma_tool_at(m.tools@[k].1.exposed@, name, 0);
    let j = manager::tool_at(m.tools@[k].1.exposed@, name, 0)->0;
    let schema = m.tools@[k].1.exposed@[j].schema@;
    catalog::law_required_arguments_are_given(schema, args);
    assert(exposes(m, server, name, schema));
    assert(name == "mcp__"@ + server + "__"@ + tool);
}

/// A call of a tool that is exposed by a server that takes calls goes through, where its
/// arguments are given.
pub proof fn law_sound_calls_go_through(
    m: McpManager,
    server: Seq<char>,
    tool: Seq<char>,
    args: JsonView,
    i: int,
    k: int,
    j: int,
)
    requires
        m.config.enabled,
        m.wf(),
        server.len() > 0 && tool.len() > 0,
        !text::contains(server, "__"@),
        server.last() != '_',
        0 <= i < m.servers@.len(),
        m.servers@[i].config.id@ == server,
        m.servers@[i].connected && m.servers@[i].state is Ready,
        0 <= k < m.tools@.len(),
        m.tools@[k].0@ == server,
        forall|n: int| 0 <= n < m.tools@.len() && n != k ==> (#[trigger] m.tools@[n]).0@ != server,
        0 <= j < m.tools@[k].1.exposed@.len(),
        m.tools@[k].1.exposed@[j].name@ == "mcp__"@ + server + "__"@ + tool,
        forall|n: int|
            0 <= n < m.tools@[k].1.exposed@.len() && n != j ==> (
            #[trigger] m.tools@[k].1.exposed@[n]).name@ != "mcp__"@ + server + "__"@ + tool,
        catalog::is_record(args),
        catalog::has_required(m.tools@[k].1.exposed@[j].schema@, args),
    ensures
        manager::call_refusal(m, "mcp__"@ + server + "__"@ + tool, args) is None,
{
    let name = "mcp__"@ + server + "__"@ + tool;
    names::law_names_round_trip(server, tool);
    assert(names::qualified(server, tool) == name);
    let v = manager::slots(m.servers@);
    lemma_slot_at(v, server, 0);
    assert(v[i] == m.servers@[i]@);
    let n = manager::slot_at(v, server, 0)->0;
    assert(n == i) by {
        if n < i {
            assert(v[n].config.id@ != v[i].config.id@);
        } else if i < n {
            assert(v[i].config.id@ != server);
        }
    }
    lemma_catalog_at(m.tools@, server, 0);
    assert(m.tools@[k].0@ == server);
    lemma_tool_at(m.tools@[k].1.exposed@, name, 0);
    assert(m.tools@[k].1.exposed@[j].name@ == name);
    catalog::law_required_arguments_are_given(m.tools@[k].1.exposed@[j].schema@, args);
}

/// The wait starts at half a second and doubles with each failure up to half a minute.
pub proof fn law_waits_double(failures: u32)
    requires
        failures < u32::MAX,
    ensures
        manager::wait_after(0) == 500,
        manager::wait_after((failures + 1) as u32) == if 2 * manager::wait_after(failures) > 30_000 {
            30_000
        } else {
            2 * manager::wait_after(failures)
        },
{
}

/// What becomes of a server that could not be connected: one that awaits the user is asked
/// for nothing more, and every other failure counts as one more; one whose configuration is
/// at fault is given up, one that failed too often rests, and any other waits. What went
/// wrong is told, and nothing else changes.
pub proof fn law_failures_are_told(
    s: SlotView,
    error: Error,
    now: u64,
    max_reconnects: u32,
    park_probe: u64,
)
    requires
        s.failures < u32::MAX,
    ensures
        ({
            let f = manager::failed(s, error, now, max_reconnects, park_probe);
            let hopeless = error is EmptyCommand || error is Unavailable || error is Sandbox
                || error is BadUrl;
            &&& f.config == s.config && f.connected == s.connected && f.proven == s.proven
            &&& f.detail == Some(error.message())
            &&& f.state is NeedsAuth == error is NeedsAuth
            &&& f.state is NeedsToken == error is NeedsToken
            &&& f.state is Failed == hopeless
            &&& f.failures == if error is NeedsAuth || error is NeedsToken {
                s.failures as int
            } else {
                s.failures + 1
            }
            &&& f.state is Parked ==> s.failures + 1 >= max_reconnects
            &&& f.state is Degraded ==> s.failures + 1 < max_reconnects
            &&& f.state is NeedsAuth || f.state is NeedsToken || f.state is Failed || f.state is Parked
                || f.state is Degraded
        }),
{
}

/// A look at a server: a lost connection is given up and is due at once, one whose wait is
/// over is taken up, and every other server is left as it is.
pub proof fn law_sweeping(s: SlotView, closed: bool, now: u64)
    ensures
        ({
            let t = manager::swept(s, closed, now);
            let gone = s.state is Ready && (!s.connected || closed);
            let over = (s.state is Degraded || s.state is Parked) && s.retry_at is Some
                && s.retry_at->0 <= now;
            &&& t.config == s.config && t.failures == s.failures
            &&& gone ==> t.state is Degraded && !t.connected && !t.proven && t.retry_at == Some(now)
            &&& over ==> t.state == s.state && t.retry_at is None && t.connected == s.connected
            &&& !gone && !over ==> t == s
        }),
{
}

/// A server is due exactly where its wait is over, asked for its tools exactly where its
/// connection stands and is not proven, and shut down exactly where its connection is lost.
pub proof fn law_sweep_lists(v: Seq<SlotView>, closed: Seq<Seq<char>>, now: u64, id: Seq<char>)
    ensures
        manager::due(v, now).contains(id) <==> exists|i: int|
            0 <= i < v.len() && (#[trigger] v[i]).config.id@ == id && (v[i].state is Degraded
                || v[i].state is Parked) && v[i].retry_at is Some && v[i].retry_at->0 <= now,
        manager::lost(v, closed).contains(id) <==> exists|i: int|
            0 <= i < v.len() && (#[trigger] v[i]).config.id@ == id && v[i].state is Ready
                && v[i].connected && closed.contains(id),
        manager::unproven(v, closed).contains(id) <==> exists|i: int|
            0 <= i < v.len() && (#[trigger] v[i]).config.id@ == id && v[i].state is Ready
                && v[i].connected && !closed.contains(id) && !v[i].proven,
        manager::live(v).contains(id) <==> exists|i: int|
            0 <= i < v.len() && (#[trigger] v[i]).config.id@ == id && v[i].connected,
        manager::startup(v, true).contains(id) <==> exists|i: int|
            0 <= i < v.len() && (#[trigger] v[i]).config.id@ == id && !v[i].config.disabled
                && !v[i].config.requires_approval,
        manager::startup(v, false).len() == 0,
    decreases v.len(),
{
    if v.len() > 0 {
        let head = v.drop_last();
        let n = v.len() - 1;
        law_sweep_lists(head, closed, now, id);
        assert(forall|i: int| 0 <= i < n ==> head[i] == v[i]);
        lemma_pushed(manager::due(head, now), manager::due(v, now), v[n].config.id@, id);
        lemma_pushed(manager::lost(head, closed), manager::lost(v, closed), v[n].config.id@, id);
        lemma_pushed(
            manager::unproven(head, closed),
            manager::unproven(v, closed),
            v[n].config.id@,
            id,
        );
        lemma_pushed(manager::live(head), manager::live(v), v[n].config.id@, id);
        lemma_pushed(
            manager::startup(head, true),
            manager::startup(v, true),
            v[n].config.id@,
            id,
        );
    }
}

proof fn lemma_pushed(was: Seq<Seq<char>>, now: Seq<Seq<char>>, x: Seq<char>, id: Seq<char>)
    ensures
        now == was.push(x) ==> now.contains(id) == (was.contains(id) || x == id),
{
    if now == was.push(x) {
        if was.contains(id) {
            let k = choose|k: int| 0 <= k < was.len() && was[k] == id;
            assert(now[k] == id);
        }
        if x == id {
            assert(now[was.len() as int] == id);
        }
        if now.contains(id) && x != id {
            let k = choose|k: int| 0 <= k < now.len() && now[k] == id;
            assert(was[k] == id);
        }
    }
}

/// A server that was not connected yet: it is connected at once unless it is switched off or
/// awaits an approval, and has neither failed nor answered.
pub proof fn law_new_servers(config: ServerConfig)
    ensures
        ({
            let s = manager::new_slot(config);
            &&& s.config == config
            &&& !s.connected && !s.proven && s.failures == 0 && s.retry_at is None
            &&& s.state is Disabled == config.disabled
            &&& s.state is NeedsApproval == (!config.disabled && config.requires_approval)
            &&& s.state is Connecting == (!config.disabled && !config.requires_approval)
        }),
{
}

/// The `k`-th is the one server of this configuration's id, and it has this configuration.
pub open spec fn only_one(slots: Seq<SlotView>, k: int, config: ServerConfig) -> bool {
    &&& 0 <= k < slots.len()
    &&& slots[k].config == config
    &&& forall|n: int|
        0 <= n < slots.len() && n != k ==> (#[trigger] slots[n]).config.id@ != config.id@
}

proof fn lemma_last_server(v: Seq<ServerConfig>, i: int) -> (k: int)
    requires
        0 <= i < v.len(),
        forall|j: int| i < j < v.len() ==> (#[trigger] v[j]).id@ != v[i].id@,
    ensures
        only_one(manager::configured(v), k, v[i]),
    decreases v.len(),
{
    let head = v.drop_last();
    let was = manager::configured(head);
    let now = manager::configured(v);
    let slot = manager::new_slot(v.last());
    let id = v.last().id@;
    assert(slot.config == v.last());
    lemma_slot_at(was, id, 0);
    let place = manager::slot_at(was, id, 0);
    assert(now == match place {
        Some(k) => was.update(k, slot),
        None => was.push(slot),
    });
    if i < v.len() - 1 {
        assert forall|j: int| i < j < head.len() implies (#[trigger] head[j]).id@ != head[i].id@ by {
            assert(head[j] == v[j]);
        }
        let k = lemma_last_server(head, i);
        assert(id != v[i].id@);
        assert(place != Some(k));
        assert forall|n: int| 0 <= n < now.len() && n != k implies (
        #[trigger] now[n]).config.id@ != v[i].id@ by {
            if n < was.len() && place != Some(n) {
                assert(now[n] == was[n]);
            } else {
                assert(now[n] == slot);
            }
        }
        k
    } else {
        lemma_separate(head);
        let k = match place {
            Some(k) => k,
            None => was.len() as int,
        };
        assert(now[k] == slot);
        assert forall|n: int| 0 <= n < now.len() && n != k implies (
        #[trigger] now[n]).config.id@ != v[i].id@ by {
            assert(now[n] == was[n]);
            if place is Some {
                assert(was[n].config.id@ != was[k].config.id@);
            }
        }
        k
    }
}

/// Of several servers with one id the last counts, and no server is left out.
pub proof fn law_last_server_counts(v: Seq<ServerConfig>, i: int)
    requires
        0 <= i < v.len(),
        forall|j: int| i < j < v.len() ==> (#[trigger] v[j]).id@ != v[i].id@,
    ensures
        exists|k: int| only_one(manager::configured(v), k, v[i]),
{
    let k = lemma_last_server(v, i);
}

proof fn lemma_separate(v: Seq<ServerConfig>)
    ensures
        manager::separate(manager::configured(v)),
    decreases v.len(),
{
    if v.len() > 0 {
        let was = manager::configured(v.drop_last());
        let now = manager::configured(v);
        lemma_separate(v.drop_last());
        lemma_slot_at(was, v.last().id@, 0);
        assert forall|i: int, j: int|
            #![trigger now[i], now[j]]
            0 <= i < j < now.len() implies now[i].config.id@ != now[j].config.id@ by {
            match manager::slot_at(was, v.last().id@, 0) {
                Some(k) => {
                    assert(was[i].config.id@ != was[j].config.id@);
                    if i != k {
                        assert(now[i] == was[i]);
                    }
                    if j != k {
                        assert(now[j] == was[j]);
                    }
                },
                None => {
                    assert(now[i] == was[i]);
                    if j < was.len() {
                        assert(now[j] == was[j]);
                    }
                },
            }
        }
    }
}

/// A stopped server has no connection and is not tried again.
pub proof fn law_stopped_servers_rest(s: SlotView, now: u64, closed: bool)
    ensures
        !manager::stopped(s).connected,
        manager::stopped(s).state is Stopped,
        manager::swept(manager::stopped(s), closed, now) == manager::stopped(s),
        !manager::is_due(manager::stopped(s), now),
        manager::stopped(s).config == s.config,
{
}

/// A tool is among all that are exposed exactly where some server's catalog exposes it.
pub proof fn law_every_catalog_is_exposed(v: Seq<(String, Catalog)>, spec_: catalog::SpecView)
    ensures
        manager::all_exposed(v).contains(spec_) <==> exists|i: int, j: int|
            0 <= i < v.len() && 0 <= j < v[i].1.exposed@.len() && (
            #[trigger] v[i].1.exposed@[j])@ == spec_,
    decreases v.len(),
{
    if v.len() > 0 {
        let head = v.drop_last();
        let n = v.len() - 1;
        law_every_catalog_is_exposed(head, spec_);
        let was = manager::all_exposed(head);
        let more = catalog::specs(v[n].1.exposed@);
        let now = manager::all_exposed(v);
        assert(now == was + more);
        if now.contains(spec_) {
            let k = choose|k: int| 0 <= k < now.len() && now[k] == spec_;
            if k < was.len() {
                assert(was[k] == spec_);
                let (i, j) = choose|i: int, j: int|
                    0 <= i < head.len() && 0 <= j < head[i].1.exposed@.len() && (
                    #[trigger] head[i].1.exposed@[j])@ == spec_;
                assert(v[i].1.exposed@[j]@ == spec_);
            } else {
                assert(v[n].1.exposed@[k - was.len()]@ == spec_);
            }
        }
        if exists|i: int, j: int|
            0 <= i < v.len() && 0 <= j < v[i].1.exposed@.len() && (
            #[trigger] v[i].1.exposed@[j])@ == spec_ {
            let (i, j) = choose|i: int, j: int|
                0 <= i < v.len() && 0 <= j < v[i].1.exposed@.len() && (
                #[trigger] v[i].1.exposed@[j])@ == spec_;
            if i < n {
                assert(head[i].1.exposed@[j]@ == spec_);
                let k = choose|k: int| 0 <= k < was.len() && was[k] == spec_;
                assert(now[k] == spec_);
            } else {
                assert(more[j] == spec_);
                assert(now[was.len() + j] == spec_);
            }
        }
    }
}

/// The status of a server tells its own state, and counts the tools of its own catalog.
pub proof fn law_status_is_its_own(s: SlotView, tools: Seq<(String, Catalog)>)
    ensures
        ({
            let t = manager::status_of(s, tools);
            &&& t.server == s.config.id@
            &&& t.state == s.state
            &&& t.detail == s.detail
            &&& (forall|i: int| 0 <= i < tools.len() ==> (#[trigger] tools[i]).0@ != s.config.id@)
                ==> t.tools == 0 && t.hidden == 0
            &&& forall|i: int|
                0 <= i < tools.len() && (#[trigger] tools[i]).0@ == s.config.id@ && (forall|j: int|
                    0 <= j < tools.len() && j != i ==> (#[trigger] tools[j]).0@ != s.config.id@)
                    ==> t.tools == tools[i].1.exposed@.len() && t.hidden == tools[i].1.hidden
        }),
{
    lemma_catalog_at(tools, s.config.id@, 0);
}

/// The number of an address of four octets.
pub open spec fn address(a: nat, b: nat, c: nat, d: nat) -> nat {
    a * 16777216 + b * 65536 + c * 256 + d
}

/// The number is that of an address between the two, which begin with these octets.
pub open spec fn within(n: nat, low: nat, high: nat) -> bool {
    low <= n <= high
}

/// An address is private exactly where it lies in one of the private, loopback, link-local,
/// shared, test, multicast or unspecified networks, or is the broadcast address.
pub proof fn law_private_networks(a: nat, b: nat, c: nat, d: nat)
    requires
        a < 256 && b < 256 && c < 256 && d < 256,
    ensures
        ({
            let n = address(a, b, c, d);
            policy::private_ipv4(a, b, c, d) <==> {
                ||| within(n, address(0, 0, 0, 0), address(0, 255, 255, 255))
                ||| within(n, address(10, 0, 0, 0), address(10, 255, 255, 255))
                ||| within(n, address(100, 64, 0, 0), address(100, 127, 255, 255))
                ||| within(n, address(127, 0, 0, 0), address(127, 255, 255, 255))
                ||| within(n, address(169, 254, 0, 0), address(169, 254, 255, 255))
                ||| within(n, address(172, 16, 0, 0), address(172, 31, 255, 255))
                ||| within(n, address(192, 168, 0, 0), address(192, 168, 255, 255))
                ||| within(n, address(198, 18, 0, 0), address(198, 19, 255, 255))
                ||| within(n, address(224, 0, 0, 0), address(239, 255, 255, 255))
                ||| n == address(255, 255, 255, 255)
            }
        }),
{
}

/// An address of eight groups that maps one of four octets is private where that is; else
/// it is exactly where it is this machine's, unspecified, unique local, link-local or
/// multicast.
pub proof fn law_private_groups(g: Seq<nat>, a: nat, b: nat, c: nat, d: nat)
    requires
        g.len() == 8,
        forall|i: int| 0 <= i < 8 ==> #[trigger] g[i] < 65536,
        a < 256 && b < 256 && c < 256 && d < 256,
    ensures
        g =~= seq![0nat, 0, 0, 0, 0, 0xffff, (a * 256 + b) as nat, (c * 256 + d) as nat]
            ==> policy::private_ipv6(g) == policy::private_ipv4(a, b, c, d),
        g[0] > 0 ==> (policy::private_ipv6(g) <==> within(g[0], 0xfc00, 0xfdff) || within(
            g[0],
            0xfe80,
            0xfebf,
        ) || within(g[0], 0xff00, 0xffff)),
        g =~= seq![0nat, 0, 0, 0, 0, 0, 0, 1] ==> policy::private_ipv6(g),
        g =~= seq![0nat, 0, 0, 0, 0, 0, 0, 0] ==> policy::private_ipv6(g),
{
    assert(forall|i: int| 0 <= i < 8 ==> #[trigger] g[i] < 65536);
    assert(g[0] < 65536 && g[5] < 65536);
    assert((a * 256 + b) / 256 == a && (a * 256 + b) % 256 == b) by (nonlinear_arith)
        requires
            a < 256 && b < 256,
    ;
    assert((c * 256 + d) / 256 == c && (c * 256 + d) % 256 == d) by (nonlinear_arith)
        requires
            c < 256 && d < 256,
    ;
    if g =~= seq![0nat, 0, 0, 0, 0, 0xffff, (a * 256 + b) as nat, (c * 256 + d) as nat] {
        assert(g[6] == a * 256 + b && g[7] == c * 256 + d);
    }
}

/// An address that is written in decimal octets is read as those.
pub proof fn law_addresses_are_read(a: nat, b: nat, c: nat, d: nat)
    requires
        a < 256 && b < 256 && c < 256 && d < 256,
    ensures
        policy::ipv4(
            number::decimal(a) + seq!['.'] + number::decimal(b) + seq!['.'] + number::decimal(c)
                + seq!['.'] + number::decimal(d),
        ) == Some((a, b, c, d)),
{
    let (w, x, y, z) = (
        number::decimal(a),
        number::decimal(b),
        number::decimal(c),
        number::decimal(d),
    );
    lemma_octet(a);
    lemma_octet(b);
    lemma_octet(c);
    lemma_octet(d);
    lemma_four_parts(w, x, y, z);
}

proof fn lemma_four_parts(w: Seq<char>, x: Seq<char>, y: Seq<char>, z: Seq<char>)
    requires
        !w.contains('.') && !x.contains('.') && !y.contains('.') && !z.contains('.'),
    ensures
        text::split(w + seq!['.'] + x + seq!['.'] + y + seq!['.'] + z, '.') == seq![w, x, y, z],
{
    let s = w + seq!['.'] + x + seq!['.'] + y + seq!['.'] + z;
    let s1 = x + seq!['.'] + y + seq!['.'] + z;
    let s2 = y + seq!['.'] + z;
    assert(s =~= w + seq!['.'] + s1);
    assert(s1 =~= x + seq!['.'] + s2);
    text::lemma_split_front(w, '.', s1);
    text::lemma_split_front(x, '.', s2);
    text::lemma_split_front(y, '.', z);
    text::lemma_split_front(z, '.', z);
    assert(text::split(s, '.') =~= seq![w, x, y, z]);
}

proof fn lemma_octet(n: nat)
    requires
        n < 256,
    ensures
        policy::octet(number::decimal(n)) == Some(n),
        !number::decimal(n).contains('.'),
{
    number::lemma_decimal_parses(n);
    reveal_with_fuel(number::decimal, 4);
    let s = number::decimal(n);
    assert(number::all_digits(s) && number::value(s) == n);
    if s.contains('.') {
        let k = choose|k: int| 0 <= k < s.len() && s[k] == '.';
        assert('0' <= s[k]);
    }
}

/// A host is private in letters of either case and with dots behind it as without, and so
/// is every host below `localhost`.
pub proof fn law_private_hosts(host: Seq<char>)
    ensures
        policy::private_host(host.push('.')) == policy::private_host(host),
        policy::private_host(text::lowered(host)) == policy::private_host(host),
        policy::private_host("localhost"@),
        policy::private_host(host + ".localhost"@),
        policy::private_host("metadata.google.internal"@),
{
    assert(host.push('.').drop_last() =~= host);
    lemma_undotted_lowered(host);
    text_lowered_twice(policy::undotted(host));
    reveal_strlit("localhost");
    reveal_strlit(".localhost");
    reveal_strlit("metadata.google.internal");
    lemma_small("localhost"@);
    lemma_small("metadata.google.internal"@);
    let s = host + ".localhost"@;
    assert(s.last() == 't');
    assert(policy::undotted(s) == s);
    let h = text::lowered(s);
    assert(h.subrange(h.len() - 10, h.len() as int) =~= ".localhost"@);
}

proof fn lemma_small(s: Seq<char>)
    requires
        s.len() > 0 && s.last() != '.',
        forall|i: int| 0 <= i < s.len() ==> !('A' <= #[trigger] s[i] <= 'Z'),
    ensures
        text::lowered(policy::undotted(s)) == s,
{
    assert(text::lowered(s) =~= s);
}

proof fn text_lowered_twice(s: Seq<char>)
    ensures
        text::lowered(text::lowered(s)) == text::lowered(s),
{
    assert(text::lowered(text::lowered(s)) =~= text::lowered(s));
}

proof fn lemma_undotted_lowered(s: Seq<char>)
    ensures
        policy::undotted(text::lowered(s)) == text::lowered(policy::undotted(s)),
    decreases s.len(),
{
    if s.len() > 0 {
        let l = text::lowered(s);
        assert(l.last() == text::lower(s.last()));
        assert(l.drop_last() =~= text::lowered(s.drop_last()));
        lemma_undotted_lowered(s.drop_last());
    } else {
        assert(text::lowered(s) =~= s);
    }
}

/// Credentials travel only over a secure scheme, or to this machine.
pub proof fn law_credentials_travel_safely(url: Seq<char>, parts: PartsView)
    ensures
        policy::insecurity(url, parts) is None <==> parts.scheme == "https"@ || (parts.scheme
            == "http"@ && parts.host is Some && policy::loopback(parts.host->0)),
{
}

/// This machine is `localhost`, and every address that begins with 127; no other name is.
pub proof fn law_loopback(a: nat, b: nat, c: nat, d: nat)
    requires
        a < 256 && b < 256 && c < 256 && d < 256,
    ensures
        policy::loopback("localhost"@),
        ({
            let host = number::decimal(a) + seq!['.'] + number::decimal(b) + seq!['.']
                + number::decimal(c) + seq!['.'] + number::decimal(d);
            a == 127 ==> policy::loopback(host)
        }),
{
    law_addresses_are_read(a, b, c, d);
}

proof fn lemma_chosen_from(
    names: Seq<Seq<char>>,
    vars: Seq<(Seq<char>, Seq<char>)>,
    i: int,
)
    requires
        0 <= i < environment::chosen(names, vars).len(),
    ensures
        names.contains(environment::chosen(names, vars)[i].0),
        vars.contains(environment::chosen(names, vars)[i]),
    decreases names.len(),
{
    if names.len() > 0 {
        let head = environment::chosen(names.drop_last(), vars);
        if i < head.len() {
            lemma_chosen_from(names.drop_last(), vars, i);
            let k = choose|k: int|
                0 <= k < names.drop_last().len() && names.drop_last()[k] == head[i].0;
            assert(names[k] == head[i].0);
        } else {
            lemma_variable_there(vars, names.last(), 0);
            assert(names[names.len() - 1] == names.last());
        }
    }
}

proof fn lemma_variable_there(vars: Seq<(Seq<char>, Seq<char>)>, name: Seq<char>, i: int)
    requires
        0 <= i,
    ensures
        environment::variable(vars, name, i) matches Some(v) ==> vars.contains((name, v)),
    decreases vars.len() - i,
{
    if i < vars.len() && vars[i].0 != name {
        lemma_variable_there(vars, name, i + 1);
    } else if i < vars.len() {
        assert(vars[i] == (name, vars[i].1));
    }
}

/// The name is one of those that finding and running tools takes.
pub open spec fn is_harmless(name: Seq<char>) -> bool {
    ||| name == "PATH"@ || name == "HOME"@ || name == "USER"@ || name == "LOGNAME"@
    ||| name == "TMPDIR"@ || name == "TMP"@ || name == "TEMP"@ || name == "LANG"@ || name
        == "LC_ALL"@
    ||| name == "XDG_CONFIG_HOME"@ || name == "XDG_CACHE_HOME"@ || name == "SystemRoot"@ || name
        == "PATHEXT"@
}

/// A server sees its own variables last and unchanged; besides them only harmless ones of
/// the environment and those that keep package managers in one directory, never a variable
/// that could carry a secret.
pub proof fn law_servers_see_no_secrets(
    vars: Seq<(Seq<char>, Seq<char>)>,
    own: Seq<(Seq<char>, Seq<char>)>,
    i: int,
)
    requires
        0 <= i < launch::server_environment(vars, own).len(),
    ensures
        ({
            let all = launch::server_environment(vars, own);
            let n = all.len() - own.len();
            &&& n >= 0
            &&& i >= n ==> all[i] == own[i - n]
            &&& i < n ==> {
                ||| is_harmless(all[i].0) && vars.contains(all[i])
                ||| all[i].0 == "XDG_CACHE_HOME"@ || all[i].0 == "XDG_DATA_HOME"@ || all[i].0
                    == "UV_CACHE_DIR"@ || all[i].0 == "npm_config_cache"@
            }
        }),
{
    let base = environment::chosen(launch::allowed(), vars);
    let all = launch::server_environment(vars, own);
    match launch::cache_dir(vars) {
        Some(dir) => {
            let kept = base.filter(launch::not_cache());
            let n = kept.len() as int;
            if i < n {
                assert(all[i] == kept[i]);
                environment::lemma_filter_part(base, launch::not_cache(), i);
                let j = base.index_of(kept[i]);
                lemma_chosen_from(launch::allowed(), vars, j);
                lemma_harmless(base[j].0);
            } else if i < n + 4 {
                assert(all[i] == launch::cache_variables(dir)[i - n]);
            }
        },
        None => {
            if i < base.len() {
                assert(all[i] == base[i]);
                lemma_chosen_from(launch::allowed(), vars, i);
                lemma_harmless(base[i].0);
            }
        },
    }
}

proof fn lemma_harmless(name: Seq<char>)
    requires
        launch::allowed().contains(name),
    ensures
        is_harmless(name),
{
    let all = launch::allowed();
    let k = choose|k: int| 0 <= k < all.len() && all[k] == name;
    assert(0 <= k < 13);
}

/// A pattern that ends in an asterisk fits every name that begins with what stands before
/// it; any other fits its own name alone.
pub proof fn law_patterns_fit(start: Seq<char>, rest: Seq<char>, pattern: Seq<char>, name: Seq<char>)
    ensures
        names::fits(start + seq!['*'], start + rest),
        names::fits(start + seq!['*'], name) <==> text::starts_with(name, start),
        !(pattern.len() > 0 && pattern.last() == '*') ==> (names::fits(pattern, name) <==> pattern
            == name),
{
    let p = start + seq!['*'];
    assert(p.last() == '*');
    assert(p.drop_last() =~= start);
    let n = start + rest;
    assert(n.subrange(0, start.len() as int) =~= start);
}

/// A tool is exposed where nothing denies it, and either it is allowed or no tool is singled
/// out.
pub proof fn law_filters_expose(filter: ToolFilter, tool: Seq<char>)
    ensures
        filter.exposes(tool) <==> (filter.allow@.len() == 0 || exists|i: int|
            0 <= i < filter.allow@.len() && names::fits((#[trigger] filter.allow@[i])@, tool)) && !(
        exists|i: int|
            0 <= i < filter.deny@.len() && names::fits((#[trigger] filter.deny@[i])@, tool)),
{
    let a = text::views(filter.allow@);
    let d = text::views(filter.deny@);
    assert(forall|i: int| 0 <= i < a.len() ==> a[i] == filter.allow@[i]@);
    assert(forall|i: int| 0 <= i < d.len() ==> d[i] == filter.deny@[i]@);
    if names::some_fits(a, tool) {
        let i = choose|i: int| 0 <= i < a.len() && names::fits(#[trigger] a[i], tool);
        assert(names::fits(filter.allow@[i]@, tool));
    }
    if names::some_fits(d, tool) {
        let i = choose|i: int| 0 <= i < d.len() && names::fits(#[trigger] d[i], tool);
        assert(names::fits(filter.deny@[i]@, tool));
    }
    if exists|i: int|
        0 <= i < filter.allow@.len() && names::fits((#[trigger] filter.allow@[i])@, tool) {
        let i = choose|i: int|
            0 <= i < filter.allow@.len() && names::fits((#[trigger] filter.allow@[i])@, tool);
        assert(names::fits(a[i], tool));
    }
    if exists|i: int|
        0 <= i < filter.deny@.len() && names::fits((#[trigger] filter.deny@[i])@, tool) {
        let i = choose|i: int|
            0 <= i < filter.deny@.len() && names::fits((#[trigger] filter.deny@[i])@, tool);
        assert(names::fits(d[i], tool));
    }
}

proof fn lemma_replaced_once(a: Seq<char>, p: Seq<char>, b: Seq<char>, k: Seq<char>)
    requires
        p.len() > 0,
        !text::contains(b, p),
        forall|j: int| 0 <= j < a.len() ==> !text::occurs(a + p + b, p, j),
    ensures
        text::replaced(a + p + b, p, k) == a + k + b,
{
    let s = a + p + b;
    let n = a.len() as int;
    text::lemma_find_from(s, p, 0);
    assert(s.subrange(n, n + p.len()) =~= p);
    assert(text::occurs(s, p, n));
    assert(text::find(s, p) == Some(n));
    assert(text::prefix(s, n) =~= a);
    assert(text::rest(s, n + p.len()) =~= b);
    text::lemma_find_contains(b, p);
    text::lemma_find_from(b, p, 0);
    assert(text::replaced(b, p, k) == b);
}

/// The key of a server stands in its variables where they ask for it, and nowhere else; the
/// names of the variables stay. Without a key nothing changes.
pub proof fn law_keys_stand_where_they_are_asked_for(
    own: Seq<(Seq<char>, Seq<char>)>,
    key: Seq<char>,
    i: int,
    a: Seq<char>,
    b: Seq<char>,
)
    requires
        0 <= i < own.len(),
        !a.contains('$'),
        !b.contains('$'),
    ensures
        launch::keyed(own, None) == own,
        launch::keyed(own, Some(key)).len() == own.len(),
        launch::keyed(own, Some(key))[i].0 == own[i].0,
        own[i].1 == a + "${key}"@ + b ==> launch::keyed(own, Some(key))[i].1 == a + key + b,
        own[i].1 == a ==> launch::keyed(own, Some(key))[i].1 == a,
{
    reveal_strlit("${key}");
    let p = "${key}"@;
    assert(p[0] == '$' && p.len() == 6);
    assert(!text::contains(b, p)) by {
        if text::contains(b, p) {
            let j = choose|j: int| text::occurs(b, p, j);
            assert(b.subrange(j, j + 6)[0] == b[j]);
            assert(b.contains(b[j]));
        }
    }
    assert(!text::contains(a, p)) by {
        if text::contains(a, p) {
            let j = choose|j: int| text::occurs(a, p, j);
            assert(a.subrange(j, j + 6)[0] == a[j]);
            assert(a.contains(a[j]));
        }
    }
    let s = a + p + b;
    assert forall|j: int| 0 <= j < a.len() implies !text::occurs(s, p, j) by {
        if text::occurs(s, p, j) {
            assert(s.subrange(j, j + 6)[0] == s[j]);
            assert(s[j] == a[j]);
            assert(a.contains(a[j]));
        }
    }
    lemma_replaced_once(a, p, b, key);
    text::lemma_find_contains(a, p);
}

/// A label that tells nothing of who runs a host.
pub open spec fn says_nothing(label: Seq<char>) -> bool {
    label == "mcp"@ || label == "api"@ || label == "www"@ || label == "server"@
}

/// A server is named by the first label of its host that tells who runs it.
pub proof fn law_hosts_name_their_servers(host: Seq<char>, i: int)
    requires
        ({
            let labels = text::split(text::lowered(host), '.');
            &&& 0 <= i < labels.len()
            &&& labels[i].len() > 0
            &&& !says_nothing(labels[i])
            &&& forall|j: int| 0 <= j < i ==> says_nothing(#[trigger] labels[j])
        }),
    ensures
        policy::host_id(host) == Some(text::split(text::lowered(host), '.')[i]),
{
    lemma_telling(text::split(text::lowered(host), '.'), 0, i);
}

proof fn lemma_telling(labels: Seq<Seq<char>>, from: int, i: int)
    requires
        0 <= from <= i < labels.len(),
        !says_nothing(labels[i]),
        forall|j: int| from <= j < i ==> says_nothing(#[trigger] labels[j]),
    ensures
        policy::telling_label(labels, from) == Some(labels[i]),
    decreases i - from,
{
    if from < i {
        assert(says_nothing(labels[from]));
        lemma_telling(labels, from + 1, i);
    }
}

/// Two addresses have one origin where scheme, host and port are the same, the host in
/// letters of either case.
pub proof fn law_origins_agree(a: PartsView, b: PartsView)
    ensures
        policy::same_origin(a, b) <==> a.scheme == b.scheme && a.port == b.port && a.host is Some
            && b.host is Some && text::lowered(a.host->0) == text::lowered(b.host->0),
{
}

/// A sign-in may go to a public host over a secure scheme, and to the server's own origin,
/// where the address carries no credentials.
pub proof fn law_sign_ins_go_where_they_may(base: PartsView, url: PartsView)
    requires
        url.username.len() == 0,
        !url.has_password,
        url.scheme == "https"@,
    ensures
        policy::same_origin(base, url) ==> policy::endpoint_fault(base, url) is None,
        (url.host matches Some(h) && !policy::private_host(h)) ==> policy::endpoint_fault(base, url) is None,
        (url.host matches Some(h) && policy::private_host(h)) && !policy::same_origin(base, url)
            ==> policy::endpoint_fault(base, url) is Some,
{
}

/// Of several values under a key the first counts.
pub proof fn law_first_value_counts(query: Seq<(Seq<char>, Seq<char>)>, key: Seq<char>, i: int)
    requires
        0 <= i < query.len(),
        query[i].0 == key,
        forall|j: int| 0 <= j < i ==> (#[trigger] query[j]).0 != key,
    ensures
        policy::value_from(query, key, 0) == Some(query[i].1),
{
    lemma_value_from(query, key, 0, i);
}

proof fn lemma_value_from(query: Seq<(Seq<char>, Seq<char>)>, key: Seq<char>, from: int, i: int)
    requires
        0 <= from <= i < query.len(),
        query[i].0 == key,
        forall|j: int| from <= j < i ==> (#[trigger] query[j]).0 != key,
    ensures
        policy::value_from(query, key, from) == Some(query[i].1),
    decreases i - from,
{
    if from < i {
        lemma_value_from(query, key, from + 1, i);
    }
}

/// A server may write to one directory below the program's own, which the environment names
/// or which lies in the user's home.
pub proof fn law_caches_lie_in_the_programs_directory(vars: Seq<(Seq<char>, Seq<char>)>)
    ensures
        environment::variable(vars, "MEDHA_HOME"@, 0) matches Some(base) ==> launch::cache_dir(vars)
            == Some(paths::joined_path(base, "mcp-cache"@)),
        environment::variable(vars, "MEDHA_HOME"@, 0) is None && environment::variable(
            vars,
            "HOME"@,
            0,
        ) is Some ==> launch::cache_dir(vars) == Some(
            paths::joined_path(
                paths::joined_path(environment::variable(vars, "HOME"@, 0)->0, ".medha"@),
                "mcp-cache"@,
            ),
        ),
        environment::variable(vars, "MEDHA_HOME"@, 0) is None && environment::variable(
            vars,
            "HOME"@,
            0,
        ) is None ==> launch::cache_dir(vars) is None,
{
}

/// What is due after a wait is due at its end, and never before now; a count goes up by one
/// as far as it can.
pub proof fn law_waits_are_added(now: u64, wait: u64, n: u32)
    ensures
        now + wait <= u64::MAX ==> number::later(now, wait) == now + wait,
        number::later(now, wait) >= now,
        number::later(now, wait) >= wait,
        n < u32::MAX ==> number::one_more(n) == n + 1,
        number::one_more(n) >= n,
{
}

/// A tool may have a name of letters, digits, dots, hyphens and single underscores, at most
/// 128 of them.
pub proof fn law_tool_names_are_plain(name: Seq<char>)
    ensures
        names::valid(name) <==> {
            &&& 1 <= name.len() <= 128
            &&& forall|i: int|
                0 <= i < name.len() ==> (('a' <= #[trigger] name[i] <= 'z') || ('A' <= name[i]
                    <= 'Z') || ('0' <= name[i] <= '9') || name[i] == '_' || name[i] == '-'
                    || name[i] == '.')
            &&& forall|i: int| 0 <= i < name.len() - 1 ==> !two_underscores(name, i)
        },
{
    reveal_strlit("__");
    assert forall|i: int| text::occurs(name, "__"@, i) == (0 <= i < name.len() - 1
        && two_underscores(name, i)) by {
        if 0 <= i && i + 2 <= name.len() {
            assert(name.subrange(i, i + 2)[0] == name[i]);
            assert(name.subrange(i, i + 2)[1] == name[i + 1]);
            if two_underscores(name, i) {
                assert(name.subrange(i, i + 2) =~= "__"@);
            }
        }
    }
    if text::contains(name, "__"@) {
        let i = choose|i: int| text::occurs(name, "__"@, i);
        assert(two_underscores(name, i));
    }
    if exists|i: int| 0 <= i < name.len() - 1 && two_underscores(name, i) {
        let i = choose|i: int| 0 <= i < name.len() - 1 && two_underscores(name, i);
        assert(text::occurs(name, "__"@, i));
    }
}

/// Two underscores stand at the position.
pub open spec fn two_underscores(name: Seq<char>, i: int) -> bool {
    name[i] == '_' && name[i + 1] == '_'
}

/// After the tools of a server were recorded they are its own, and every other server keeps
/// those that it had.
pub proof fn law_recorded_tools_are_found(
    was: Seq<(String, Catalog)>,
    now: Seq<(String, Catalog)>,
    id: Seq<char>,
    catalog: Catalog,
    other: Seq<char>,
)
    requires
        manager::recorded(was, now, id, catalog),
        other != id,
    ensures
        manager::catalog_at(now, id, 0) matches Some(i) && now[i].1 == catalog,
        match (manager::catalog_at(was, other, 0), manager::catalog_at(now, other, 0)) {
            (Some(i), Some(j)) => was[i].1 == now[j].1,
            (None, None) => true,
            _ => false,
        },
{
    lemma_catalog_at(was, id, 0);
    lemma_catalog_at(now, id, 0);
    lemma_catalog_at(was, other, 0);
    lemma_catalog_at(now, other, 0);
    if let Some(i) = manager::catalog_at(was, id, 0) {
        assert forall|j: int| 0 <= j < was.len() && j != i implies now[j] == #[trigger] was[j] by {
            assert(now[j] == was[j]);
        }
    } else {
        assert(forall|j: int| 0 <= j < was.len() ==> now.drop_last()[j] == #[trigger] now[j]);
        assert forall|j: int| 0 <= j < was.len() implies now[j] == #[trigger] was[j] by {
            assert(now.drop_last()[j] == now[j]);
        }
    }
}

/// The digits behind the point tell the thousandths exactly, and end in no zero.
proof fn lemma_fraction(t: nat)
    requires
        t < 1000,
    ensures
        ({
            let f = errors::fraction(t);
            let d = f.drop_first();
            &&& t == 0 ==> f.len() == 0
            &&& t > 0 ==> {
                &&& f[0] == '.'
                &&& 1 <= d.len() <= 3
                &&& number::all_digits(d)
                &&& d.last() != '0'
                &&& d.len() == 1 ==> number::value(d) * 100 == t
                &&& d.len() == 2 ==> number::value(d) * 10 == t
                &&& d.len() == 3 ==> number::value(d) == t
            }
        }),
{
    if t > 0 {
        let f = errors::fraction(t);
        let d = f.drop_first();
        let a = t / 100;
        let b = t / 10 % 10;
        let c = t % 10;
        assert(t == 100 * a + 10 * b + c);
        reveal_with_fuel(number::value, 4);
        if t % 100 == 0 {
            assert(d =~= seq![number::digit(a)]);
            assert(d.drop_last() =~= Seq::<char>::empty());
        } else if t % 10 == 0 {
            assert(d =~= seq![number::digit(a), number::digit(b)]);
            assert(d.drop_last() =~= seq![number::digit(a)]);
            assert(d.drop_last().drop_last() =~= Seq::<char>::empty());
        } else {
            assert(d =~= seq![number::digit(a), number::digit(b), number::digit(c)]);
            assert(d.drop_last() =~= seq![number::digit(a), number::digit(b)]);
            assert(d.drop_last().drop_last() =~= seq![number::digit(a)]);
            assert(d.drop_last().drop_last().drop_last() =~= Seq::<char>::empty());
        }
    }
}

/// A time is shown exactly: below a second in milliseconds, from a second on in seconds with
/// the thousandths behind a point, without zeros at the end.
pub proof fn law_times_are_shown_exactly(ms: nat)
    ensures
        0 < ms < 1000 ==> errors::time_text(ms) == number::decimal(ms) + "ms"@,
        ms >= 1000 && ms % 1000 == 0 ==> errors::time_text(ms) == number::decimal(ms / 1000)
            + "s"@,
        ms >= 1000 && ms % 1000 != 0 ==> exists|d: Seq<char>|
            {
                &&& errors::time_text(ms) == number::decimal(ms / 1000) + #[trigger] (seq!['.']
                    + d) + "s"@
                &&& 1 <= d.len() <= 3
                &&& number::all_digits(d)
                &&& d.last() != '0'
                &&& d.len() == 1 ==> number::value(d) * 100 == ms % 1000
                &&& d.len() == 2 ==> number::value(d) * 10 == ms % 1000
                &&& d.len() == 3 ==> number::value(d) == ms % 1000
            },
{
    let t = ms % 1000;
    lemma_fraction(t);
    let f = errors::fraction(t);
    if t > 0 {
        let d = f.drop_first();
        assert(seq!['.'] + d =~= f);
    } else {
        assert(number::decimal(ms / 1000) + f =~= number::decimal(ms / 1000));
    }
}

/// The groups of an address, as their digits say them.
pub open spec fn are_groups(p: Seq<Seq<char>>, n: Seq<nat>) -> bool {
    &&& p.len() == n.len()
    &&& forall|i: int|
        0 <= i < p.len() ==> ipv6::group(#[trigger] p[i]) == Some(n[i]) && !p[i].contains(':')
            && !p[i].contains('.')
}

proof fn lemma_groups(p: Seq<Seq<char>>, n: Seq<nat>, dotted: bool)
    requires
        are_groups(p, n),
    ensures
        ipv6::groups(p, dotted) == Some(n),
    decreases p.len(),
{
    if p.len() == 0 {
        assert(n =~= Seq::<nat>::empty());
    } else {
        let hp = p.drop_last();
        let hn = n.drop_last();
        assert forall|i: int| 0 <= i < hp.len() implies ipv6::group(#[trigger] hp[i]) == Some(
            hn[i],
        ) && !hp[i].contains(':') && !hp[i].contains('.') by {
            assert(hp[i] == p[i] && hn[i] == n[i]);
        }
        lemma_groups(hp, hn, false);
        let last = p.last();
        assert(p[p.len() - 1] == last);
        assert(n[n.len() - 1] == n.last());
        text::lemma_split_front(last, '.', seq![]);
        assert(policy::ipv4(last) is None);
        assert(hn.push(n.last()) =~= n);
    }
}

proof fn lemma_colons(p: Seq<Seq<char>>, n: Seq<nat>)
    requires
        p.len() > 0,
        are_groups(p, n),
    ensures
        text::split(text::joined(p, ":"@), ':') == p,
        !text::contains(text::joined(p, ":"@), "::"@),
        text::joined(p, ":"@).len() > 0,
        text::joined(p, ":"@)[0] != ':',
        text::joined(p, ":"@).last() != ':',
    decreases p.len(),
{
    reveal_strlit(":");
    reveal_strlit("::");
    assert(":"@ =~= seq![':']);
    let first = p[0];
    assert(ipv6::group(p[0]) == Some(n[0]) && !p[0].contains(':'));
    assert(first.len() > 0);
    assert(first.contains(first[0]) && first.contains(first.last()));
    let s = text::joined(p, ":"@);
    if p.len() == 1 {
        text::lemma_split_front(first, ':', seq![]);
        assert(p =~= seq![first]);
        if text::contains(s, "::"@) {
            let k = choose|k: int| text::occurs(s, "::"@, k);
            assert(s.subrange(k, k + 2)[0] == s[k]);
            assert(first.contains(first[k]));
        }
    } else {
        let rest = p.drop_first();
        let rn = n.drop_first();
        assert forall|i: int| 0 <= i < rest.len() implies ipv6::group(#[trigger] rest[i]) == Some(
            rn[i],
        ) && !rest[i].contains(':') && !rest[i].contains('.') by {
            assert(rest[i] == p[i + 1] && rn[i] == n[i + 1]);
        }
        lemma_colons(rest, rn);
        assert(p =~= seq![first] + rest);
        text::lemma_joined_add(seq![first], rest, ":"@);
        let tail = text::joined(rest, ":"@);
        text::lemma_split_front(first, ':', tail);
        assert(s == first + seq![':'] + tail);
        assert(s[0] == first[0] && s.last() == tail.last());
        if text::contains(s, "::"@) {
            let k = choose|k: int| text::occurs(s, "::"@, k);
            assert(s.subrange(k, k + 2)[0] == s[k] && s.subrange(k, k + 2)[1] == s[k + 1]);
            let m = first.len() as int;
            if k < m {
                assert(s[k] == first[k]);
                assert(first.contains(first[k]));
            } else if k == m {
                assert(s[k + 1] == tail[0]);
            } else {
                assert(tail.subrange(k - m - 1, k - m + 1) =~= s.subrange(k, k + 2));
                assert(text::occurs(tail, "::"@, k - m - 1));
            }
        }
    }
}

/// Eight groups with colons between them are read as those; fewer, with two colons in one
/// place, as those with as many groups of zero in that place as are missing.
pub proof fn law_groups_are_read(
    a: Seq<Seq<char>>,
    x: Seq<nat>,
    b: Seq<Seq<char>>,
    y: Seq<nat>,
)
    requires
        a.len() > 0,
        b.len() > 0,
        are_groups(a, x),
        are_groups(b, y),
    ensures
        a.len() == 8 ==> ipv6::ipv6(text::joined(a, ":"@)) == Some(x),
        a.len() != 8 ==> ipv6::ipv6(text::joined(a, ":"@)) is None,
        a.len() + b.len() <= 7 ==> ipv6::ipv6(
            text::joined(a, ":"@) + "::"@ + text::joined(b, ":"@),
        ) == Some(x + Seq::new((8 - a.len() - b.len()) as nat, |j: int| 0nat) + y),
{
    lemma_colons(a, x);
    lemma_colons(b, y);
    lemma_groups(a, x, true);
    lemma_groups(a, x, false);
    lemma_groups(b, y, true);
    let s = text::joined(a, ":"@);
    let t = text::joined(b, ":"@);
    text::lemma_find_contains(s, "::"@);
    let whole = s + "::"@ + t;
    reveal_strlit("::");
    let n = s.len() as int;
    text::lemma_find_from(whole, "::"@, 0);
    assert(whole.subrange(n, n + 2) =~= "::"@);
    assert(text::occurs(whole, "::"@, n));
    assert forall|k: int| 0 <= k < n implies !text::occurs(whole, "::"@, k) by {
        if text::occurs(whole, "::"@, k) {
            assert(whole.subrange(k, k + 2)[0] == whole[k]);
            if k < n - 1 {
                assert(s.subrange(k, k + 2) =~= whole.subrange(k, k + 2));
                assert(text::occurs(s, "::"@, k));
            } else {
                assert(whole[k] == s.last());
            }
        }
    }
    assert(text::find(whole, "::"@) == Some(n));
    assert(whole.take(n) =~= s);
    assert(whole.skip(n + 2) =~= t);
}

/// The target of a request is the word after its method, however they are parted.
pub proof fn law_targets_follow_the_method(
    method: Seq<char>,
    c: char,
    target: Seq<char>,
    d: char,
    version: Seq<char>,
)
    requires
        text::is_word(method),
        text::is_word(target),
        text::is_word(version),
        text::is_white(c),
        text::is_white(d),
    ensures
        policy::target_of(method.push(c) + target) == target,
        policy::target_of((method.push(c) + target).push(d) + version) == target,
        policy::target_of(method).len() == 0,
{
    text::law_white_space_parts_words(method, c, method);
    text::law_white_space_parts_words(method, c, target);
    text::law_white_space_parts_words(method.push(c) + target, d, version);
}

/// A sign-in is advertised by any header that points to its description, in letters of either
/// case, whatever the other headers say.
pub proof fn law_one_header_advertises(
    headers: Seq<Seq<char>>,
    front: Seq<char>,
    name: Seq<char>,
    back: Seq<char>,
    i: int,
)
    requires
        0 <= i < headers.len(),
        headers[i] == front + name + back,
        text::lowered(name) == "resource_metadata"@,
    ensures
        policy::advertises(headers),
        !policy::advertises(seq![]),
{
    let low = text::lowered(headers[i]);
    let at = front.len() as int;
    assert(text::lowered(name).len() == name.len());
    assert forall|k: int| 0 <= k < name.len() implies low[at + k] == text::lowered(name)[k] by {
        assert(headers[i][at + k] == name[k]);
    }
    assert(low.subrange(at, at + name.len()) =~= "resource_metadata"@);
    assert(text::occurs(low, "resource_metadata"@, at));
}

} // verus!

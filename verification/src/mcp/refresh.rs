//! Keeping the tools of a server up to date.

use vstd::prelude::*;
use crate::mcp::catalog;
use crate::mcp::catalog::{build_catalog, Catalog, Tool};
use crate::mcp::manager;
use crate::mcp::manager::{find_slot, McpManager, SlotView};

verus! {

impl McpManager {
    /// Whether a server is asked for its tools, because it announced a change or because
    /// its connection is not proven: only one that is connected.
    pub fn wants_listing(&self, id: &str) -> (yes: bool)
        ensures
            yes == (self.place(id@) matches Some(i) && manager::slots(self.servers@)[i].connected),
    {
        match find_slot(&self.servers, id) {
            Some(i) => {
                assert(manager::slots(self.servers@)[i as int] == self.servers@[i as int]@);
                self.servers[i].connected
            },
            None => false,
        }
    }

    /// The answer to a request for the tools of a server: they make up its new catalog, and
    /// the connection is proven. Without an answer nothing changes.
    pub fn refresh_tools(&mut self, id: &str, listing: Option<Vec<Tool>>)
        requires
            old(self).wf(),
        ensures
            final(self).wf(),
            final(self).config == old(self).config,
            match (old(self).place(id@), listing) {
                (Some(i), Some(tools)) if manager::slots(old(self).servers@)[i].connected => {
                    &&& exists|c: Catalog| #[trigger]
                        catalog::catalogs(c, id@, manager::slots(old(self).servers@)[i].config.tools, tools@) && manager::recorded(
                            old(self).tools@,
                            final(self).tools@,
                            id@,
                            c,
                        )
                    &&& manager::slots(final(self).servers@) == manager::slots(
                        old(self).servers@,
                    ).update(
                        i,
                        SlotView {
                            proven: true,
                            failures: 0,
                            ..manager::slots(old(self).servers@)[i]
                        },
                    )
                },
                _ => final(self).servers == old(self).servers && final(self).tools == old(
                    self,
                ).tools,
            },
    {
        let i = match find_slot(&self.servers, id) {
            Some(i) => i,
            None => {
                return;
            },
        };
        assert(manager::slots(self.servers@)[i as int] == self.servers@[i as int]@);
        if !self.servers[i].connected {
            return;
        }
        match listing {
            Some(tools) => {
                let c = build_catalog(id, &self.servers[i].config.tools, tools);
                self.set_tools(id, c);
                self.mark_proven(id);
            },
            None => {},
        }
    }
}

} // verus!

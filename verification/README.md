# medha

The decisions of a coding-agent harness, as a verified library: what an editor's
requests come to, which language and tool servers run and what their answers mean
together, which model and key a session uses, where a workspace keeps its state, and
how child agents report and are recovered. Every function states what it returns, and
Verus proves it.

- `src/acp` is the editor bridge: prompts, frames, approvals and turns over JSON-RPC.
- `src/lsp` supervises language servers: framing, documents, diagnostics, queries,
  restarts and capacity.
- `src/mcp` supervises tool servers: names, catalogues, arguments, sign-in and retries.
- `src/config` holds the user's models, servers, credentials and workspaces.
- `src/agents` tells child agents what to do and takes their reports.
- `src/session` is what a session shows, asks and keeps.
- The other modules are what these are built from: text, numbers, paths, tables, JSON
  and ranking.

Proof functions whose names begin with `law_` state what holds across functions.

The library does no I/O. Files, processes, terminals and the network belong to the
program in `app`, which performs the actions that the library's state machines ask for
and hands back what came of them.

What is taken on trust are the contracts of a few calls into other crates, each on a
small wrapper whose doc comment names the call: `url`, `sha2`, `similar`, `base64`,
`ulid` and `serde_json`, and two functions on strings of the standard library.

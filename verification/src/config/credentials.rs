//! The keys that are stored for providers and tool servers.

use vstd::prelude::*;
use vstd::string::*;
use std::collections::BTreeMap;
use crate::config::providers;
use crate::config::providers::normalize_api_key;
use crate::config::resolve;
use crate::config::resolve::first_env;
use crate::config::servers;
use crate::config::servers::McpServer;
use crate::digest;
use crate::digest::{bytes_of, digest_prefix};
use crate::json;
use crate::json::JsonView;
use crate::json_text;
use crate::lsp::environment;
use crate::table;
use crate::table::Table;
use crate::text;
use crate::text::{cat2, cat3, cat5, chars_of, lower_text, same, trimmed};

verus! {

/// Keys go to the keychain first: where the environment, or else the build, says so.
pub fn prefer_keychain(vars: &Vec<(String, String)>, built_in: &Option<String>) -> (yes: bool)
    ensures
        yes == (text::lowered(
            match resolve::setting(environment::variables(vars@), "MEDHA_CRED_STORE"@) {
                Some(v) => v,
                None => match built_in {
                    Some(d) => d@,
                    None => "file"@,
                },
            },
        ) == "keychain"@),
{
    let store = match first_env(vars, "MEDHA_CRED_STORE") {
        Some(v) => v,
        None => match built_in {
            Some(d) => d.clone(),
            None => "file".to_owned(),
        },
    };
    let word = lower_text(store.as_str());
    same(word.as_str(), "keychain")
}

/// The text of the file of the keys: a warning, and then the keys as they are laid out.
pub fn credentials_text(body: &str) -> (out: String)
    ensures
        out@
            == "# medha API keys — owner-only (0600). Never commit or share this file.\n# Set MEDHA_CRED_STORE=keychain to use the OS keychain instead.\n"@
            + body@,
{
    cat2(
        "# medha API keys — owner-only (0600). Never commit or share this file.\n# Set MEDHA_CRED_STORE=keychain to use the OS keychain instead.\n",
        body,
    )
}

/// [`serde_json::to_vec`] of a word, a list of texts and a map that the entries were put
/// into: the bytes of a list of the three, the map as an object with its keys in order.
/// Nothing where it fails, which it does not for texts.
#[verifier::external_body]
fn write_command(word: &str, command: &Vec<String>, env: &Vec<(String, String)>) -> (out: Vec<u8>)
    ensures
        out@ == vstd::utf8::encode_utf8(
            json_text::rendered(
                command_value(word@, text::views(command@), servers::listed(env@)),
            ),
        ),
{
    let map: BTreeMap<&String, &String> = env.iter().map(|row| (&row.0, &row.1)).collect();
    serde_json::to_vec(&(word, command, map)).unwrap_or_default()
}

/// [`serde_json::to_vec`] of a word and a text: the bytes of a list of the two. Nothing
/// where it fails, which it does not for texts.
#[verifier::external_body]
fn write_address(word: &str, url: &str) -> (out: Vec<u8>)
    ensures
        out@ == vstd::utf8::encode_utf8(
            json_text::rendered(json::text_list(seq![word@, url@])),
        ),
{
    serde_json::to_vec(&(word, url)).unwrap_or_default()
}

/// A short digest of bytes.
pub fn fingerprint(value: &Vec<u8>) -> (out: String)
    ensures
        out@ == digest::short_digest(value@, 8),
        out@.len() == 16,
{
    digest_prefix(value, 8)
}

/// A word, a command and its variables as one value.
pub open spec fn command_value(
    word: Seq<char>,
    command: Seq<Seq<char>>,
    env: Seq<(Seq<char>, Seq<char>)>,
) -> JsonView {
    JsonView::List(
        seq![
            JsonView::Text(word),
            json::text_list(command),
            json::text_object(table::entered(env)),
        ],
    )
}

/// What a server is told apart by: its address, or its command with the variables, as the
/// bytes of JSON.
pub open spec fn destination(server: McpServer) -> Seq<u8> {
    vstd::utf8::encode_utf8(
        json_text::rendered(
            if server.url@.len() == 0 {
                command_value(
                    "stdio"@,
                    text::views(server.command@),
                    servers::listed(server.env.rows@),
                )
            } else {
                json::text_list(seq!["remote"@, server.url@])
            },
        ),
    )
}

/// A short digest of where a server is reached.
pub fn target_fingerprint(server: &McpServer) -> (out: String)
    ensures
        out@ == digest::short_digest(destination(*server), 8),
        out@.len() == 16,
{
    let bytes = if chars_of(server.url.as_str()).len() == 0 {
        write_command("stdio", &server.command, &server.env.rows)
    } else {
        write_address("remote", server.url.as_str())
    };
    fingerprint(&bytes)
}

/// The id of a server's key: it is bound to the name and to where the server is reached.
pub open spec fn key_id(id: Seq<char>, server: McpServer) -> Seq<char> {
    marked_key(id, digest::short_digest(destination(server), 8))
}

/// The id of a server's key.
pub fn mcp_key_id(id: &str, server: &McpServer) -> (out: String)
    ensures
        out@ == key_id(id@, *server),
{
    let mark = target_fingerprint(server);
    let head = cat3("mcp://", id, "#");
    cat2(head.as_str(), mark.as_str())
}

/// The id of what a sign-in at a server gave.
pub open spec fn oauth_id(id: Seq<char>, url: Seq<char>) -> Seq<char> {
    marked_oauth(id, digest::short_digest(vstd::utf8::encode_utf8(url), 8))
}

/// The id of what a sign-in at a server gave.
pub fn mcp_oauth_id(id: &str, url: &str) -> (out: String)
    ensures
        out@ == oauth_id(id@, url@),
{
    let mark = fingerprint(&bytes_of(url));
    let head = cat3("mcp-oauth://", id, "#");
    cat2(head.as_str(), mark.as_str())
}

/// The keys of the file and of the keychain. The keychain's are those that were asked
/// for and could be read.
pub struct Vault {
    pub file: Table<String>,
    pub keychain: Table<String>,
    /// The keychain takes keys.
    pub keychain_works: bool,
    pub prefer_keychain: bool,
}

/// What a [`Vault`] holds.
#[verifier::ext_equal]
pub ghost struct VaultView {
    pub file: Map<Seq<char>, Seq<char>>,
    pub keychain: Map<Seq<char>, Seq<char>>,
    pub keychain_works: bool,
    pub prefer_keychain: bool,
}

impl View for Vault {
    type V = VaultView;

    open spec fn view(&self) -> VaultView {
        VaultView {
            file: servers::texts(self.file@),
            keychain: servers::texts(self.keychain@),
            keychain_works: self.keychain_works,
            prefer_keychain: self.prefer_keychain,
        }
    }
}

/// The key under an id, where there is one and it is not empty.
pub open spec fn kept(keys: Map<Seq<char>, Seq<char>>, id: Seq<char>) -> Option<Seq<char>> {
    if keys.dom().contains(id) && keys[id].len() > 0 {
        Some(keys[id])
    } else {
        None
    }
}

/// The key that is loaded for an id: from the preferred layer, else from the other.
pub open spec fn loaded(v: VaultView, id: Seq<char>) -> Option<Seq<char>> {
    let (first, second) = if v.prefer_keychain {
        (v.keychain, v.file)
    } else {
        (v.file, v.keychain)
    };
    match kept(first, id) {
        Some(k) => Some(k),
        None => kept(second, id),
    }
}

/// The vault after a key was loaded: one that only the keychain had is taken into the
/// file, where the file is preferred.
pub open spec fn after_load(v: VaultView, id: Seq<char>) -> VaultView {
    if !v.prefer_keychain && kept(v.file, id) is None {
        match kept(v.keychain, id) {
            Some(k) => VaultView { file: v.file.insert(id, k), ..v },
            None => v,
        }
    } else {
        v
    }
}

/// The vault with a key: in the keychain where it is preferred and works, else in the
/// file.
pub open spec fn with_key(v: VaultView, id: Seq<char>, key: Seq<char>) -> VaultView {
    if v.prefer_keychain && v.keychain_works {
        VaultView { keychain: v.keychain.insert(id, key), ..v }
    } else {
        VaultView { file: v.file.insert(id, key), ..v }
    }
}

/// The vault without a key, in either layer.
pub open spec fn without_key(v: VaultView, id: Seq<char>) -> VaultView {
    VaultView { file: v.file.remove(id), keychain: v.keychain.remove(id), ..v }
}

fn key_in(keys: &Table<String>, id: &str) -> (out: Option<String>)
    ensures
        text::view_of(out) == kept(servers::texts(keys@), id@),
{
    match keys.get(id) {
        Some(k) => {
            let k = k.clone();
            if chars_of(k.as_str()).len() > 0 {
                Some(k)
            } else {
                None
            }
        },
        None => None,
    }
}

fn put_key(keys: &mut Table<String>, id: &str, key: String)
    requires
        old(keys).wf(),
    ensures
        final(keys).wf(),
        servers::texts(final(keys)@) == servers::texts(old(keys)@).insert(id@, key@),
{
    let ghost was = keys@;
    keys.insert(id.to_owned(), key);
    assert(servers::texts(keys@) =~= servers::texts(was).insert(id@, key@));
}

fn drop_key(keys: &mut Table<String>, id: &str) -> (had: bool)
    requires
        old(keys).wf(),
    ensures
        final(keys).wf(),
        servers::texts(final(keys)@) == servers::texts(old(keys)@).remove(id@),
        had == old(keys)@.dom().contains(id@),
{
    let ghost was = keys@;
    let taken = keys.remove(id);
    assert(servers::texts(keys@) =~= servers::texts(was).remove(id@));
    taken.is_some()
}

/// Why a key could be stored nowhere.
pub fn store_failure(keychain_error: &str, file_error: &str) -> (out: String)
    ensures
        out@ == "could not store the key in the OS keychain ("@ + keychain_error@
            + ") or ~/.medha/credentials.toml ("@ + file_error@ + "); set MEDHA_API_KEY instead"@,
{
    cat5(
        "could not store the key in the OS keychain (",
        keychain_error,
        ") or ~/.medha/credentials.toml (",
        file_error,
        "); set MEDHA_API_KEY instead",
    )
}

impl Vault {
    pub open spec fn wf(self) -> bool {
        self.file.wf() && self.keychain.wf()
    }

    /// The key of an id in the file.
    pub fn file_load_key(&self, id: &str) -> (out: Option<String>)
        ensures
            text::view_of(out) == kept(self@.file, id@),
    {
        key_in(&self.file, id)
    }

    /// The key of an id in the keychain.
    pub fn keychain_load_key(&self, id: &str) -> (out: Option<String>)
        ensures
            text::view_of(out) == kept(self@.keychain, id@),
    {
        key_in(&self.keychain, id)
    }

    /// The key of an id. One that only the keychain has is taken into the file, where the
    /// file is preferred.
    pub fn load_key(&mut self, id: &str) -> (out: Option<String>)
        requires
            old(self).wf(),
        ensures
            final(self).wf(),
            text::view_of(out) == loaded(old(self)@, id@),
            final(self)@ == after_load(old(self)@, id@),
    {
        if self.prefer_keychain {
            match self.keychain_load_key(id) {
                Some(k) => Some(k),
                None => self.file_load_key(id),
            }
        } else {
            match self.file_load_key(id) {
                Some(k) => Some(k),
                None => match self.keychain_load_key(id) {
                    Some(k) => {
                        put_key(&mut self.file, id, k.clone());
                        Some(k)
                    },
                    None => None,
                },
            }
        }
    }

    /// Stores a key under an id, as it is normalized. An empty one is refused.
    pub fn store_key(&mut self, id: &str, key: &str) -> (out: Result<(), String>)
        requires
            old(self).wf(),
        ensures
            final(self).wf(),
            match out {
                Ok(_) => providers::normalized(key@).len() > 0 && final(self)@ == with_key(
                    old(self)@,
                    id@,
                    providers::normalized(key@),
                ),
                Err(e) => {
                    &&& providers::normalized(key@).len() == 0
                    &&& e@ == "API key cannot be empty"@
                    &&& final(self)@ == old(self)@
                },
            },
    {
        let key = normalize_api_key(key);
        if chars_of(key.as_str()).len() == 0 {
            return Err("API key cannot be empty".to_owned());
        }
        if self.prefer_keychain && self.keychain_works {
            put_key(&mut self.keychain, id, key);
        } else {
            put_key(&mut self.file, id, key);
        }
        Ok(())
    }

    /// Takes a key out of both layers. Tells whether the file had it and is to be written
    /// again.
    pub fn purge_credential(&mut self, id: &str) -> (rewrite: bool)
        requires
            old(self).wf(),
        ensures
            final(self).wf(),
            final(self)@ == without_key(old(self)@, id@),
            rewrite == old(self)@.file.dom().contains(id@),
    {
        let rewrite = drop_key(&mut self.file, id);
        drop_key(&mut self.keychain, id);
        rewrite
    }
}

/// Stores the key of a tool server; a blank one is passed over.
pub fn store_mcp_key(vault: &mut Vault, id: &str, server: &McpServer, key: &str) -> (out: Result<
    (),
    String,
>)
    requires
        old(vault).wf(),
    ensures
        final(vault).wf(),
        if text::trim(key@).len() == 0 {
            out is Ok && *final(vault) == *old(vault)
        } else if providers::normalized(key@).len() == 0 {
            &&& out matches Err(e)
            &&& e@ == "API key cannot be empty"@
            &&& final(vault)@ == old(vault)@
        } else {
            &&& out is Ok
            &&& final(vault)@ == with_key(
                old(vault)@,
                key_id(id@, *server),
                providers::normalized(key@),
            )
        },
{
    let plain = trimmed(key);
    if chars_of(plain.as_str()).len() == 0 {
        return Ok(());
    }
    let name = mcp_key_id(id, server);
    vault.store_key(name.as_str(), key)
}

/// There is a key for a tool server.
pub fn mcp_key_present(vault: &mut Vault, id: &str, server: &McpServer) -> (yes: bool)
    requires
        old(vault).wf(),
    ensures
        final(vault).wf(),
        yes == (loaded(old(vault)@, key_id(id@, *server)) is Some),
        final(vault)@ == after_load(old(vault)@, key_id(id@, *server)),
{
    let name = mcp_key_id(id, server);
    vault.load_key(name.as_str()).is_some()
}

/// Takes out the key of a tool server, and what a sign-in there gave.
pub fn delete_mcp_key(vault: &mut Vault, id: &str, server: &McpServer)
    requires
        old(vault).wf(),
    ensures
        final(vault).wf(),
        final(vault)@ == without_key(
            without_key(old(vault)@, key_id(id@, *server)),
            oauth_id(id@, server.url@),
        ),
{
    let name = mcp_key_id(id, server);
    vault.purge_credential(name.as_str());
    let name = mcp_oauth_id(id, server.url.as_str());
    vault.purge_credential(name.as_str());
}

/// What sign-ins at tool servers gave, bound to the servers' names and addresses.
pub struct McpTokens {
    pub vault: Vault,
}

impl McpTokens {
    pub fn load(&mut self, server: &str, url: &str) -> (out: Option<String>)
        requires
            old(self).vault.wf(),
        ensures
            final(self).vault.wf(),
            text::view_of(out) == loaded(old(self).vault@, oauth_id(server@, url@)),
            final(self).vault@ == after_load(old(self).vault@, oauth_id(server@, url@)),
    {
        let name = mcp_oauth_id(server, url);
        self.vault.load_key(name.as_str())
    }

    /// Tells why it could not be stored, where it could not.
    pub fn save(&mut self, server: &str, url: &str, blob: &str) -> (out: Result<(), String>)
        requires
            old(self).vault.wf(),
        ensures
            final(self).vault.wf(),
            match out {
                Ok(_) => providers::normalized(blob@).len() > 0 && final(self).vault@ == with_key(
                    old(self).vault@,
                    oauth_id(server@, url@),
                    providers::normalized(blob@),
                ),
                Err(e) => {
                    &&& providers::normalized(blob@).len() == 0
                    &&& e@ == "API key cannot be empty"@
                    &&& final(self).vault@ == old(self).vault@
                },
            },
    {
        let name = mcp_oauth_id(server, url);
        self.vault.store_key(name.as_str(), blob)
    }

    pub fn clear(&mut self, server: &str, url: &str)
        requires
            old(self).vault.wf(),
        ensures
            final(self).vault.wf(),
            final(self).vault@ == without_key(old(self).vault@, oauth_id(server@, url@)),
    {
        let name = mcp_oauth_id(server, url);
        self.vault.purge_credential(name.as_str());
    }
}

/// What was stored is loaded again, and other ids load what they did. A keychain that
/// gives a key and takes none hides what is stored in the file.
pub proof fn law_stored_keys_are_loaded(
    v: VaultView,
    id: Seq<char>,
    key: Seq<char>,
    other: Seq<char>,
)
    requires
        key.len() > 0,
        v.prefer_keychain && !v.keychain_works ==> kept(v.keychain, id) is None,
    ensures
        loaded(with_key(v, id, key), id) == Some(key),
        other != id ==> loaded(with_key(v, id, key), other) == loaded(v, other),
{
}

/// What was taken out is gone, from both layers, and other ids load what they did.
pub proof fn law_purged_keys_are_gone(v: VaultView, id: Seq<char>, other: Seq<char>)
    ensures
        loaded(without_key(v, id), id) is None,
        other != id ==> loaded(without_key(v, id), other) == loaded(v, other),
{
}

/// To load a key changes nothing of what is loaded.
pub proof fn law_loading_changes_no_key(v: VaultView, id: Seq<char>, other: Seq<char>)
    ensures
        loaded(after_load(v, id), other) == loaded(v, other),
{
}

/// The id of a server's key with a mark, the digest of where it is reached.
pub open spec fn marked_key(id: Seq<char>, mark: Seq<char>) -> Seq<char> {
    "mcp://"@ + id + "#"@ + mark
}

/// The id of what a sign-in gave with a mark.
pub open spec fn marked_oauth(id: Seq<char>, mark: Seq<char>) -> Seq<char> {
    "mcp-oauth://"@ + id + "#"@ + mark
}

/// An id of a key tells the server's name and mark, and is never that of a sign-in: the
/// key of one server is never handed to another, nor to the same name elsewhere.
pub proof fn law_keys_are_bound(a: Seq<char>, m: Seq<char>, b: Seq<char>, n: Seq<char>)
    requires
        m.len() == n.len(),
    ensures
        marked_key(a, m) == marked_key(b, n) ==> a == b && m == n,
        marked_oauth(a, m) == marked_oauth(b, n) ==> a == b && m == n,
        marked_key(a, m) != marked_oauth(b, n),
{
    reveal_strlit("mcp://");
    reveal_strlit("mcp-oauth://");
    reveal_strlit("#");
    assert(marked_key(a, m)[3] == ':');
    assert(marked_oauth(b, n)[3] == '-');
    let (x, y) = (marked_key(a, m), marked_key(b, n));
    assert(a =~= x.subrange(6, 6int + a.len()) && m =~= x.skip(7int + a.len()));
    assert(b =~= y.subrange(6, 6int + b.len()) && n =~= y.skip(7int + b.len()));
    let (x, y) = (marked_oauth(a, m), marked_oauth(b, n));
    assert(a =~= x.subrange(12, 12int + a.len()) && m =~= x.skip(13int + a.len()));
    assert(b =~= y.subrange(12, 12int + b.len()) && n =~= y.skip(13int + b.len()));
}

/// What servers are told apart by tells where each is reached: two servers with the same
/// are at the same address, or run by the same command with the same variables.
pub proof fn law_destinations_are_told_apart(a: McpServer, b: McpServer)
    requires
        destination(a) == destination(b),
    ensures
        a.url@ == b.url@,
        a.url@.len() == 0 ==> text::views(a.command@) == text::views(b.command@),
        a.url@.len() == 0 ==> table::entered(servers::listed(a.env.rows@)) == table::entered(
            servers::listed(b.env.rows@),
        ),
{
    let (u, v) = (lemma_destination(a), lemma_destination(b));
    vstd::utf8::encode_utf8_decode_utf8(json_text::rendered(u));
    vstd::utf8::encode_utf8_decode_utf8(json_text::rendered(v));
    json_text::law_text_tells_value(u, v);
    if a.url@.len() == 0 && b.url@.len() == 0 {
        assert(a.url@ =~= b.url@);
        let (p, q) = (text::views(a.command@), text::views(b.command@));
        let (m, n) = (
            table::entered(servers::listed(a.env.rows@)),
            table::entered(servers::listed(b.env.rows@)),
        );
        assert(u->List_0[1] == v->List_0[1]);
        assert(u->List_0[2] == v->List_0[2]);
        assert(json::text_list(p)->List_0.len() == json::text_list(q)->List_0.len());
        assert forall|i: int| 0 <= i < p.len() implies p[i] == q[i] by {
            assert(json::text_list(p)->List_0[i] == json::text_list(q)->List_0[i]);
        }
        assert(p =~= q);
        assert(json::text_object(m)->Object_0.len() == json::text_object(n)->Object_0.len());
        assert forall|i: int| 0 <= i < m.len() implies m[i] == n[i] by {
            assert(json::text_object(m)->Object_0[i] == json::text_object(n)->Object_0[i]);
        }
        assert(m =~= n);
    } else if a.url@.len() > 0 && b.url@.len() > 0 {
        assert(u->List_0[1] == v->List_0[1]);
    } else {
        assert(u->List_0.len() != v->List_0.len());
    }
}

/// The value that the bytes of a destination stand for.
proof fn lemma_destination(server: McpServer) -> (v: JsonView)
    ensures
        v == if server.url@.len() == 0 {
            command_value(
                "stdio"@,
                text::views(server.command@),
                servers::listed(server.env.rows@),
            )
        } else {
            json::text_list(seq!["remote"@, server.url@])
        },
        destination(server) == vstd::utf8::encode_utf8(json_text::rendered(v)),
        json_text::of_texts(v),
{
    reveal_with_fuel(json_text::of_texts, 2);
    if server.url@.len() == 0 {
        let command = text::views(server.command@);
        let env = servers::listed(server.env.rows@);
        let v = command_value("stdio"@, command, env);
        assert(json_text::of_texts(json::text_list(command)));
        assert(json_text::of_texts(json::text_object(table::entered(env))));
        assert(v->List_0.len() == 3);
        v
    } else {
        let v = json::text_list(seq!["remote"@, server.url@]);
        assert(json_text::of_texts(v));
        v
    }
}

} // verus!

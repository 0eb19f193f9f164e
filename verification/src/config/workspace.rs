//! Where the program keeps its files, and the state of each workspace.

use vstd::prelude::*;
use vstd::string::*;
use crate::bytes;
use crate::bytes::shorten;
use crate::digest;
use crate::digest::digest_prefix;
use crate::number;
use crate::paths;
use crate::paths::{join_path, same_path};
use crate::text;
use crate::text::{cat2, cat3, chars_of, same, text_starts};

verus! {

/// The directory of the program: the one that the environment names, else one in the
/// user's home.
pub open spec fn home_of(var: Option<Seq<char>>, user: Option<Seq<char>>) -> Result<
    Seq<char>,
    Seq<char>,
> {
    match var {
        Some(h) => Ok(h),
        None => match user {
            Some(h) => Ok(paths::joined_path(h, ".medha"@)),
            None => Err("could not determine home directory"@),
        },
    }
}

/// A file or directory below the directory of the program.
pub open spec fn within(home: Result<Seq<char>, Seq<char>>, name: Seq<char>) -> Result<
    Seq<char>,
    Seq<char>,
> {
    match home {
        Ok(h) => Ok(paths::joined_path(h, name)),
        Err(e) => Err(e),
    }
}

/// What a path or an error says.
pub open spec fn place(r: Result<String, String>) -> Result<Seq<char>, Seq<char>> {
    match r {
        Ok(p) => Ok(p@),
        Err(e) => Err(e@),
    }
}

/// The directory of the program. `var` is what the environment says, `user` the home of
/// the user.
pub fn medha_home(var: &Option<String>, user: &Option<String>) -> (out: Result<String, String>)
    ensures
        place(out) == home_of(text::view_of(*var), text::view_of(*user)),
{
    match var {
        Some(h) => Ok(h.clone()),
        None => match user {
            Some(h) => Ok(join_path(h.as_str(), ".medha")),
            None => Err("could not determine home directory".to_owned()),
        },
    }
}

/// The file of the configuration.
pub fn config_path(var: &Option<String>, user: &Option<String>) -> (out: Result<String, String>)
    ensures
        place(out) == within(
            home_of(text::view_of(*var), text::view_of(*user)),
            "config.toml"@,
        ),
{
    match medha_home(var, user) {
        Ok(h) => Ok(join_path(h.as_str(), "config.toml")),
        Err(e) => Err(e),
    }
}

/// The file of the credentials.
pub fn credentials_path(var: &Option<String>, user: &Option<String>) -> (out: Result<
    String,
    String,
>)
    ensures
        place(out) == within(
            home_of(text::view_of(*var), text::view_of(*user)),
            "credentials.toml"@,
        ),
{
    match medha_home(var, user) {
        Ok(h) => Ok(join_path(h.as_str(), "credentials.toml")),
        Err(e) => Err(e),
    }
}

/// The skills below a directory.
pub fn user_skills_dir_in(home: &str) -> (out: String)
    ensures
        out@ == paths::joined_path(home@, "skills"@),
{
    join_path(home, "skills")
}

/// The directory of the user's skills.
pub fn user_skills_dir(var: &Option<String>, user: &Option<String>) -> (out: Result<
    String,
    String,
>)
    ensures
        place(out) == within(home_of(text::view_of(*var), text::view_of(*user)), "skills"@),
{
    match medha_home(var, user) {
        Ok(h) => Ok(user_skills_dir_in(h.as_str())),
        Err(e) => Err(e),
    }
}

/// The file of the places that skills come from.
pub fn user_taps_path(var: &Option<String>, user: &Option<String>) -> (out: Result<String, String>)
    ensures
        place(out) == within(
            within(home_of(text::view_of(*var), text::view_of(*user)), "skills"@),
            "taps.toml"@,
        ),
{
    match user_skills_dir(var, user) {
        Ok(d) => Ok(join_path(d.as_str(), "taps.toml")),
        Err(e) => Err(e),
    }
}

/// The lock file of the skills of a directory.
pub fn skills_lock_path(current_dir: &str) -> (out: String)
    ensures
        out@ == paths::joined_path(current_dir@, "medha-skills.lock"@),
{
    join_path(current_dir, "medha-skills.lock")
}

/// A character that separates the steps of a path, on one system or another.
pub open spec fn separates(c: char) -> bool {
    c == '/' || c == '\\' || c == ':'
}

/// A path without the prefix that Windows puts before a path that is taken as it is.
pub open spec fn unprefixed(path: Seq<char>) -> Seq<char> {
    if text::starts_with(path, "\\\\?\\UNC\\"@) {
        path.skip(8)
    } else if text::starts_with(path, "\\\\?\\"@) {
        path.skip(4)
    } else {
        path
    }
}

/// A hyphen in place of a separator.
pub open spec fn unseparated(s: Seq<char>) -> Seq<char> {
    s.map_values(
        |c: char|
            if separates(c) {
                '-'
            } else {
                c
            },
    )
}

/// A path as one readable name.
pub open spec fn readable(path: Seq<char>) -> Seq<char> {
    unseparated(unprefixed(path))
}

/// A path as one readable name: hyphens stand for the separators.
pub fn readable_workspace_slug(path: &str) -> (out: String)
    ensures
        out@ == readable(path@),
{
    proof {
        reveal_strlit("\\\\?\\UNC\\");
        reveal_strlit("\\\\?\\");
    }
    let x = chars_of(path);
    let n: usize = x.len();
    let from: usize = if text_starts(path, "\\\\?\\UNC\\") {
        8
    } else if text_starts(path, "\\\\?\\") {
        4
    } else {
        0
    };
    let ghost tail = unprefixed(path@);
    assert(tail =~= path@.skip(from as int));
    let mut out = String::new();
    let mut i: usize = from;
    assert(out@ =~= unseparated(tail.take(0)));
    while i < n
        invariant
            from <= i <= n,
            n == x@.len(),
            x@ == path@,
            tail == path@.skip(from as int),
            out@ == unseparated(tail.take(i - from)),
        decreases n - i,
    {
        let c = x[i];
        out.push(
            if c == '/' || c == '\\' || c == ':' {
                '-'
            } else {
                c
            },
        );
        i = i + 1;
        assert(tail.take(i - from) =~= tail.take(i - from - 1).push(c));
        assert(out@ =~= unseparated(tail.take(i - from)));
    }
    assert(tail.take(i - from) =~= tail);
    out
}

/// The name of the state of a workspace: a readable part and a digest of its path.
/// `bytes` are the bytes of the path.
pub open spec fn encoded(path: Seq<char>, bytes: Seq<u8>) -> Seq<char> {
    state_name(path, digest::sha256_of(bytes).take(16))
}

/// A name of a readable part and the digits of a mark.
pub open spec fn state_name(path: Seq<char>, mark: Seq<u8>) -> Seq<char> {
    bytes::shortened(readable(path), 96) + "--"@ + number::hex(mark)
}

/// The digest of a path, shortened.
pub fn workspace_path_fingerprint(bytes: &Vec<u8>) -> (out: String)
    ensures
        out@ == digest::short_digest(bytes@, 16),
        out@.len() == 32,
{
    digest_prefix(bytes, 16)
}

/// What stands in the marker of a workspace's state.
pub open spec fn identity(bytes: Seq<u8>) -> Seq<char> {
    "medha-workspace-v2\nsha256="@ + digest::short_digest(bytes, 32) + "\n"@
}

/// What stands in the marker of a workspace's state.
pub fn workspace_path_identity(bytes: &Vec<u8>) -> (out: String)
    ensures
        out@ == identity(bytes@),
{
    let d = digest_prefix(bytes, 32);
    cat3("medha-workspace-v2\nsha256=", d.as_str(), "\n")
}

/// The name of the state of a workspace.
pub fn encode_workspace(path: &str, bytes: &Vec<u8>) -> (out: String)
    ensures
        out@ == encoded(path@, bytes@),
{
    let slug = readable_workspace_slug(path);
    let prefix = shorten(slug.as_str(), 96);
    let mark = workspace_path_fingerprint(bytes);
    cat3(prefix.as_str(), "--", mark.as_str())
}

/// The directory of the state of a workspace.
pub open spec fn state_place(home: Seq<char>, path: Seq<char>, bytes: Seq<u8>) -> Seq<char> {
    paths::joined_path(paths::joined_path(home, "projects"@), encoded(path, bytes))
}

/// The directory of the state of a workspace.
pub fn state_dir_in(home: &str, path: &str, bytes: &Vec<u8>) -> (out: String)
    ensures
        out@ == state_place(home@, path@, bytes@),
{
    let projects = join_path(home, "projects");
    let name = encode_workspace(path, bytes);
    join_path(projects.as_str(), name.as_str())
}

/// What an older state of a workspace is told about: its name may stand for another
/// path as well, so nothing is taken over from it.
pub fn legacy_notice(
    home: &str,
    path: &str,
    bytes: &Vec<u8>,
    legacy_exists: bool,
    current_exists: bool,
) -> (out: Option<String>)
    ensures
        ({
            let legacy = paths::joined_path(
                paths::joined_path(home@, "projects"@),
                readable(path@),
            );
            text::view_of(out) == if legacy_exists && !current_exists && !paths::same_place(
                legacy,
                state_place(home@, path@, bytes@),
            ) {
                Some(
                    "warning: legacy workspace state at "@ + legacy
                        + " has an ambiguous path identity and was not imported automatically; re-approve external paths and recover non-trust data manually"@,
                )
            } else {
                None
            }
        }),
{
    let projects = join_path(home, "projects");
    let slug = readable_workspace_slug(path);
    let legacy = join_path(projects.as_str(), slug.as_str());
    let current = state_dir_in(home, path, bytes);
    if legacy_exists && !current_exists && !same_path(legacy.as_str(), current.as_str()) {
        Some(
            cat3(
                "warning: legacy workspace state at ",
                legacy.as_str(),
                " has an ambiguous path identity and was not imported automatically; re-approve external paths and recover non-trust data manually",
            ),
        )
    } else {
        None
    }
}

/// What came of a step towards the state of a workspace.
pub enum StateEvent {
    /// The directory was made.
    Created,
    /// There was one already.
    Present,
    CreateFailed,
    /// The marker was written.
    Written,
    WriteFailed,
    /// What the marker holds.
    Read(String),
    /// There is no marker.
    Missing,
    ReadFailed,
}

/// What is to be done next.
pub enum StateAction {
    WriteMarker,
    ReadMarker,
    /// Wait for so many milliseconds, and then read the marker.
    Wait(u64),
    /// The directory holds the state of this workspace.
    Accept,
    /// Remove the directory again, and fail.
    Withdraw(String),
    Fail(String),
}

/// How the directory of a workspace's state is taken.
pub struct StateChoice {
    pub candidate: String,
    pub marker: String,
    pub identity: String,
    /// How often the marker may still be read.
    pub attempts: u64,
}

pub const STATE_ATTEMPTS: u64 = 50;

pub const STATE_PAUSE_MS: u64 = 20;

/// Why a directory is not taken.
pub open spec fn refusal(candidate: Seq<char>) -> Seq<char> {
    "refusing unbound or mismatched workspace state at "@ + candidate
        + "; move it aside after inspection, then restart so trust/history cannot cross projects"@
}

/// What an action comes to.
pub ghost enum ActionView {
    WriteMarker,
    ReadMarker,
    Wait(u64),
    Accept,
    Withdraw(Seq<char>),
    Fail(Seq<char>),
}

impl View for StateAction {
    type V = ActionView;

    open spec fn view(&self) -> ActionView {
        match *self {
            StateAction::WriteMarker => ActionView::WriteMarker,
            StateAction::ReadMarker => ActionView::ReadMarker,
            StateAction::Wait(n) => ActionView::Wait(n),
            StateAction::Accept => ActionView::Accept,
            StateAction::Withdraw(m) => ActionView::Withdraw(m@),
            StateAction::Fail(m) => ActionView::Fail(m@),
        }
    }
}

impl StateChoice {
    /// The choice for a workspace, which begins with making the directory.
    pub fn new(home: &str, path: &str, bytes: &Vec<u8>) -> (out: StateChoice)
        ensures
            out.candidate@ == state_place(home@, path@, bytes@),
            out.marker@ == paths::joined_path(out.candidate@, ".medha-workspace-id-v2"@),
            out.identity@ == identity(bytes@),
            out.attempts == STATE_ATTEMPTS,
    {
        let candidate = state_dir_in(home, path, bytes);
        let marker = join_path(candidate.as_str(), ".medha-workspace-id-v2");
        StateChoice {
            candidate,
            marker,
            identity: workspace_path_identity(bytes),
            attempts: STATE_ATTEMPTS,
        }
    }

    /// What an event leads to.
    pub open spec fn next(self, event: StateEvent) -> ActionView {
        match event {
            StateEvent::Created => ActionView::WriteMarker,
            StateEvent::Present => ActionView::ReadMarker,
            StateEvent::CreateFailed => ActionView::Fail("creating "@ + self.candidate@),
            StateEvent::Written => ActionView::Accept,
            StateEvent::WriteFailed => ActionView::Withdraw("writing "@ + self.marker@),
            StateEvent::Read(stored) => if stored@ == self.identity@ {
                ActionView::Accept
            } else {
                ActionView::Fail(refusal(self.candidate@))
            },
            StateEvent::Missing => if self.attempts > 1 {
                ActionView::Wait(STATE_PAUSE_MS)
            } else {
                ActionView::Fail(refusal(self.candidate@))
            },
            StateEvent::ReadFailed => ActionView::Fail(refusal(self.candidate@)),
        }
    }

    fn refuse(&self) -> (out: StateAction)
        ensures
            out@ == ActionView::Fail(refusal(self.candidate@)),
    {
        StateAction::Fail(
            cat3(
                "refusing unbound or mismatched workspace state at ",
                self.candidate.as_str(),
                "; move it aside after inspection, then restart so trust/history cannot cross projects",
            ),
        )
    }

    /// Takes in what came of a step, and says what is to be done next. A marker that is
    /// not there yet may still be written by another start; it is looked for again, but
    /// not for ever.
    pub fn select_state_dir(&mut self, event: StateEvent) -> (out: StateAction)
        ensures
            out@ == old(self).next(event),
            final(self).candidate == old(self).candidate,
            final(self).marker == old(self).marker,
            final(self).identity == old(self).identity,
            final(self).attempts == if event is Missing && old(self).attempts > 0 {
                old(self).attempts - 1
            } else {
                old(self).attempts as int
            },
    {
        match event {
            StateEvent::Created => StateAction::WriteMarker,
            StateEvent::Present => StateAction::ReadMarker,
            StateEvent::CreateFailed => StateAction::Fail(
                cat2("creating ", self.candidate.as_str()),
            ),
            StateEvent::Written => StateAction::Accept,
            StateEvent::WriteFailed => StateAction::Withdraw(
                cat2("writing ", self.marker.as_str()),
            ),
            StateEvent::Read(stored) => if same(stored.as_str(), self.identity.as_str()) {
                StateAction::Accept
            } else {
                self.refuse()
            },
            StateEvent::Missing => {
                let again = self.attempts > 1;
                if self.attempts > 0 {
                    self.attempts = self.attempts - 1;
                }
                if again {
                    StateAction::Wait(STATE_PAUSE_MS)
                } else {
                    self.refuse()
                }
            },
            StateEvent::ReadFailed => self.refuse(),
        }
    }
}

/// The rights that remain where others have some to a file of the user: none but the
/// user's own.
pub fn tightened(mode: u32) -> (out: Option<u32>)
    ensures
        match out {
            Some(m) => mode & 0o077 != 0 && m == mode & 0o700,
            None => mode & 0o077 == 0,
        },
{
    if mode & 0o077 != 0 {
        Some(mode & 0o700)
    } else {
        None
    }
}

/// A directory is taken only where it was made for this workspace, or where its marker
/// tells that it is this workspace's.
pub proof fn law_state_is_bound(choice: StateChoice, event: StateEvent)
    requires
        choice.next(event) is Accept,
    ensures
        event is Written || (event matches StateEvent::Read(s) && s@ == choice.identity@),
{
}

/// Two workspaces have the same state only where their paths have the same mark, the
/// beginning of their digests.
pub proof fn law_state_names_differ(p: Seq<char>, pm: Seq<u8>, q: Seq<char>, qm: Seq<u8>)
    requires
        pm.len() == 16,
        qm.len() == 16,
        state_name(p, pm) == state_name(q, qm),
    ensures
        pm == qm,
        bytes::shortened(readable(p), 96) == bytes::shortened(readable(q), 96),
{
    number::lemma_hex_len(pm);
    number::lemma_hex_len(qm);
    reveal_strlit("--");
    let a = state_name(p, pm);
    let b = state_name(q, qm);
    let n: int = bytes::shortened(readable(p), 96).len() as int;
    let m: int = bytes::shortened(readable(q), 96).len() as int;
    assert(a.len() == n + 34 && b.len() == m + 34);
    assert(number::hex(pm) =~= a.skip(n + 2));
    assert(number::hex(qm) =~= b.skip(m + 2));
    number::lemma_hex_tells(pm, qm);
    assert(bytes::shortened(readable(p), 96) =~= a.take(n));
    assert(bytes::shortened(readable(q), 96) =~= b.take(m));
}

/// The name of a state is a readable part, as much of it as goes into 96 bytes, two
/// hyphens, and 32 hexadecimal digits in lower case.
pub proof fn law_state_names_are_readable(path: Seq<char>, mark: Seq<u8>)
    requires
        mark.len() == 16,
    ensures
        ({
            let head = bytes::shortened(readable(path), 96);
            let tail = number::hex(mark);
            &&& state_name(path, mark) == head + "--"@ + tail
            &&& head == readable(path).take(head.len() as int)
            &&& bytes::fills(readable(path), 96, head.len() as int)
            &&& tail.len() == 32
            &&& forall|i: int|
                0 <= i < tail.len() ==> ('0' <= #[trigger] tail[i] <= '9') || ('a' <= tail[i]
                    <= 'f')
        }),
{
    let s = readable(path);
    assert(s.take(0) =~= seq![]);
    let k = bytes::lemma_fits(s, 96, 0);
    let n = choose|n: int| bytes::fills(s, 96, n);
    assert(bytes::fills(s, 96, n));
    number::lemma_hex_len(mark);
    number::lemma_hex_digits(mark);
}

/// The name of a state holds no separator of paths, and at most 130 bytes: it is one
/// step of a path on every system.
pub proof fn law_state_names_are_steps(path: Seq<char>, mark: Seq<u8>)
    requires
        mark.len() == 16,
    ensures
        forall|i: int|
            0 <= i < state_name(path, mark).len() ==> !separates(
                #[trigger] state_name(path, mark)[i],
            ),
        bytes::size(state_name(path, mark)) <= 130,
{
    let s = readable(path);
    assert(s.take(0) =~= seq![]);
    let k = bytes::lemma_fits(s, 96, 0);
    let n = choose|n: int| bytes::fills(s, 96, n);
    assert(bytes::fills(s, 96, n));
    number::lemma_hex_len(mark);
    number::lemma_hex_digits(mark);
    reveal_strlit("--");
    let head = bytes::shortened(s, 96);
    let tail = number::hex(mark);
    bytes::lemma_size_plus(head, "--"@);
    bytes::lemma_size_plus(head + "--"@, tail);
    bytes::lemma_size_ascii("--"@);
    bytes::lemma_size_ascii(tail);
    assert forall|i: int| 0 <= i < state_name(path, mark).len() implies !separates(
        #[trigger] state_name(path, mark)[i],
    ) by {
        if i < head.len() {
            assert(state_name(path, mark)[i] == s[i]);
            assert(s[i] == unseparated(unprefixed(path))[i]);
        } else if i < head.len() + 2 {
            assert(state_name(path, mark)[i] == "--"@[i - head.len()]);
        } else {
            assert(state_name(path, mark)[i] == tail[i - head.len() - 2]);
        }
    }
}

} // verus!

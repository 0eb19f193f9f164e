//! Where commands run, and what they may write to.

use vstd::prelude::*;
use vstd::string::*;
use crate::lsp::environment;
use crate::lsp::environment::value_of;
use crate::paths;
use crate::paths::join_path;
use crate::text;
use crate::text::{cat3, chars_of, same, trimmed};

verus! {

/// Where commands run.
#[derive(Debug, Clone, Copy, PartialEq, Eq, Structural)]
pub enum Backend {
    /// On the machine itself.
    Host,
    /// In the jail of the system.
    Native,
    Container,
    Ssh,
}

/// What is configured.
pub struct Jail {
    pub backend: Backend,
    pub runtime: Option<String>,
    pub image: Option<String>,
    pub host: Option<String>,
}

/// What the machine has.
#[derive(Debug, Clone, Copy)]
pub struct Machine {
    /// The configured runtime of containers is there.
    pub runtime_found: bool,
    pub ssh_found: bool,
    pub native_available: bool,
}

/// There is no text, or an empty one.
pub open spec fn blank(s: Option<String>) -> bool {
    match s {
        Some(t) => t@.len() == 0,
        None => true,
    }
}

fn is_blank(s: &Option<String>) -> (yes: bool)
    ensures
        yes == blank(*s),
{
    match s {
        Some(t) => chars_of(t.as_str()).len() == 0,
        None => true,
    }
}

/// The runtime of containers.
pub open spec fn runtime_name(j: Jail) -> Seq<char> {
    match j.runtime {
        Some(r) => r@,
        None => "docker"@,
    }
}

/// The runtime of containers.
pub fn runtime(j: &Jail) -> (out: String)
    ensures
        out@ == runtime_name(*j),
{
    match &j.runtime {
        Some(r) => r.clone(),
        None => "docker".to_owned(),
    }
}

/// The backend that is asked for: by the option, else by the environment, else as
/// configured.
pub open spec fn asked_for(
    j: Jail,
    vars: Seq<(Seq<char>, Seq<char>)>,
    no_sandbox: bool,
) -> Backend {
    if no_sandbox {
        Backend::Host
    } else {
        match environment::variable(vars, "MEDHA_SANDBOX"@, 0) {
            Some(v) => {
                let w = text::trim(v);
                if w == "host"@ || w == "off"@ || w == "none"@ {
                    Backend::Host
                } else if w == "native"@ || w == "on"@ {
                    Backend::Native
                } else {
                    j.backend
                }
            },
            None => j.backend,
        }
    }
}

/// Why a backend that was asked for cannot be used.
pub open spec fn shortcoming(j: Jail, backend: Backend, m: Machine) -> Option<Seq<char>> {
    match backend {
        Backend::Container => if blank(j.image) {
            Some(
                "warning: [sandbox] backend=container needs an `image` — falling back to the native jail."@,
            )
        } else if !m.runtime_found {
            Some(
                "warning: container runtime '"@ + runtime_name(j)
                    + "' not found on PATH — falling back to the native jail."@,
            )
        } else {
            None
        },
        Backend::Ssh => if blank(j.host) {
            Some(
                "warning: [sandbox] backend=ssh needs a `host` — falling back to the native jail."@,
            )
        } else if !m.ssh_found {
            Some("warning: `ssh` not found on PATH — falling back to the native jail."@)
        } else {
            None
        },
        _ => None,
    }
}

/// What is said where the system has no jail.
pub open spec fn no_jail() -> Seq<char> {
    "warning: OS-native sandbox unavailable here (needs macOS Seatbelt, or Linux Landlock on kernel ≥5.13) — shell commands run on the host; the scanner + approval gate still apply. Set [sandbox] backend = \"host\" to silence."@
}

/// The backend that is used.
pub open spec fn used(j: Jail, backend: Backend, m: Machine) -> Backend {
    if shortcoming(j, backend, m) is Some {
        Backend::Native
    } else {
        backend
    }
}

/// What is said of the choice.
pub open spec fn warnings(j: Jail, backend: Backend, m: Machine) -> Seq<Seq<char>> {
    let first = match shortcoming(j, backend, m) {
        Some(w) => seq![w],
        None => seq![],
    };
    if used(j, backend, m) is Native && !m.native_available {
        first.push(no_jail())
    } else {
        first
    }
}

fn ask_for(j: &Jail, vars: &Vec<(String, String)>, no_sandbox: bool) -> (out: Backend)
    ensures
        out == asked_for(*j, environment::variables(vars@), no_sandbox),
{
    if no_sandbox {
        return Backend::Host;
    }
    match value_of(vars, "MEDHA_SANDBOX") {
        Some(v) => {
            let w = trimmed(v.as_str());
            let w = w.as_str();
            if same(w, "host") || same(w, "off") || same(w, "none") {
                Backend::Host
            } else if same(w, "native") || same(w, "on") {
                Backend::Native
            } else {
                j.backend
            }
        },
        None => j.backend,
    }
}

fn find_shortcoming(j: &Jail, backend: Backend, m: Machine) -> (out: Option<String>)
    ensures
        text::view_of(out) == shortcoming(*j, backend, m),
{
    match backend {
        Backend::Container => {
            if is_blank(&j.image) {
                Some(
                    "warning: [sandbox] backend=container needs an `image` — falling back to the native jail.".to_owned(),
                )
            } else if !m.runtime_found {
                let r = runtime(j);
                Some(
                    cat3(
                        "warning: container runtime '",
                        r.as_str(),
                        "' not found on PATH — falling back to the native jail.",
                    ),
                )
            } else {
                None
            }
        },
        Backend::Ssh => {
            if is_blank(&j.host) {
                Some(
                    "warning: [sandbox] backend=ssh needs a `host` — falling back to the native jail.".to_owned(),
                )
            } else if !m.ssh_found {
                Some(
                    "warning: `ssh` not found on PATH — falling back to the native jail.".to_owned(),
                )
            } else {
                None
            }
        },
        _ => None,
    }
}

/// Chooses where commands run, and tells what is to be said of it. One that cannot be used
/// gives way to the jail of the system.
pub fn choose_backend(
    j: &Jail,
    vars: &Vec<(String, String)>,
    no_sandbox: bool,
    m: Machine,
) -> (out: (Backend, Vec<String>))
    ensures
        ({
            let asked = asked_for(*j, environment::variables(vars@), no_sandbox);
            out.0 == used(*j, asked, m) && text::views(out.1@) == warnings(*j, asked, m)
        }),
{
    let asked = ask_for(j, vars, no_sandbox);
    let mut said: Vec<String> = Vec::new();
    assert(text::views(said@) =~= seq![]);
    let backend = match find_shortcoming(j, asked, m) {
        Some(w) => {
            said.push(w);
            assert(text::views(said@) =~= seq![w@]);
            Backend::Native
        },
        None => asked,
    };
    if backend == Backend::Native && !m.native_available {
        let ghost was = said@;
        let w = "warning: OS-native sandbox unavailable here (needs macOS Seatbelt, or Linux Landlock on kernel ≥5.13) — shell commands run on the host; the scanner + approval gate still apply. Set [sandbox] backend = \"host\" to silence.".to_owned();
        said.push(w);
        assert(text::views(said@) =~= text::views(was).push(w@));
    }
    (backend, said)
}

/// Commands leave the jail only where that was asked for: a backend that falls short gives
/// way to the jail, never to the machine itself.
pub proof fn law_no_silent_escape(j: Jail, backend: Backend, m: Machine)
    requires
        used(j, backend, m) is Host,
    ensures
        backend is Host,
{
}

/// The caches of build tools, which ordinary builds write to.
pub open spec fn caches() -> Seq<Seq<char>> {
    seq![
        ".cargo"@,
        ".rustup"@,
        ".npm"@,
        ".cache"@,
        ".pnpm-store"@,
        ".gradle"@,
        ".m2"@,
        "go/pkg"@,
    ]
}

/// Adds the caches of build tools in the user's home to what may be written to.
pub fn extra_writable(configured: Vec<String>, home: Option<&str>) -> (out: Vec<String>)
    ensures
        text::views(out@) == text::views(configured@) + (match home {
            Some(h) => caches().map_values(|c: Seq<char>| paths::joined_path(h@, c)),
            None => seq![],
        }),
{
    let mut out = configured;
    let ghost was = text::views(out@);
    match home {
        Some(h) => {
            let names = [
                ".cargo",
                ".rustup",
                ".npm",
                ".cache",
                ".pnpm-store",
                ".gradle",
                ".m2",
                "go/pkg",
            ];
            assert(text::strs(names@) =~= caches());
            let ghost all = caches().map_values(|c: Seq<char>| paths::joined_path(h@, c));
            let mut i: usize = 0;
            assert(text::views(out@) =~= was + all.take(0));
            while i < 8
                invariant
                    i <= 8,
                    names@.len() == 8,
                    text::strs(names@) == caches(),
                    all == caches().map_values(|c: Seq<char>| paths::joined_path(h@, c)),
                    text::views(out@) == was + all.take(i as int),
                decreases 8 - i,
            {
                assert(text::strs(names@)[i as int] == names@[i as int]@);
                let ghost before = out@;
                let p = join_path(h, names[i]);
                out.push(p);
                assert(text::views(out@) =~= text::views(before).push(p@));
                i = i + 1;
                assert(text::views(out@) =~= was + all.take(i as int));
            }
            assert(all.take(8) =~= all);
        },
        None => {
            assert(text::views(out@) =~= was + seq![]);
        },
    }
    out
}

} // verus!

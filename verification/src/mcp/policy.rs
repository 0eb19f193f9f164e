//! Which addresses may be contacted, and how a sign-in goes.

use vstd::prelude::*;
use vstd::string::*;
use crate::mcp::errors::Error;
use crate::mcp::ipv6;
use crate::mcp::ipv6::read_host;
use crate::number;
use crate::number::parse_up_to;
use crate::text;
use crate::text::{
    cat2, cat3, cat5, chars_of, lower_text, same, split_on, text_contains, text_ends, text_slice,
    text_starts, words_of,
};
use crate::urls;
use crate::urls::{
    host_of, parse_url, password_of, port_of, query_of, scheme_of, username_of,
};

verus! {

/// The longest response of a sign-in service, in bytes.
pub const MAX_OAUTH_BODY: usize = 1_048_576;

/// The most redirections that are followed.
pub const MAX_OAUTH_REDIRECTS: usize = 5;

/// An octet of a network address: up to three digits, no leading zero, at most 255.
pub open spec fn octet(s: Seq<char>) -> Option<nat> {
    if 0 < s.len() <= 3 && number::all_digits(s) && (s.len() > 1 ==> s[0] != '0') && number::value(
        s,
    ) <= 255 {
        Some(number::value(s))
    } else {
        None
    }
}

/// The four octets of a network address in dotted form.
pub open spec fn ipv4(s: Seq<char>) -> Option<(nat, nat, nat, nat)> {
    let p = text::split(s, '.');
    if p.len() == 4 {
        match (octet(p[0]), octet(p[1]), octet(p[2]), octet(p[3])) {
            (Some(a), Some(b), Some(c), Some(d)) => Some((a, b, c, d)),
            _ => None,
        }
    } else {
        None
    }
}

fn parse_octet(s: &str) -> (out: Option<u8>)
    ensures
        match out {
            Some(n) => octet(s@) == Some(n as nat),
            None => octet(s@) is None,
        },
{
    let x = chars_of(s);
    if x.len() == 0 || x.len() > 3 || (x.len() > 1 && x[0] == '0') || x[0] == '+' {
        return None;
    }
    proof {
        assert(number::unsigned_digits(s@) == s@);
    }
    match parse_up_to(s, 255) {
        Some(n) => Some(n as u8),
        None => None,
    }
}

/// The four octets of a network address in dotted form.
pub fn parse_ipv4(s: &str) -> (out: Option<(u8, u8, u8, u8)>)
    ensures
        match out {
            Some(a) => ipv4(s@) == Some((a.0 as nat, a.1 as nat, a.2 as nat, a.3 as nat)),
            None => ipv4(s@) is None,
        },
{
    let p = split_on(&chars_of(s), '.');
    assert(text::views(p@).len() == p@.len());
    if p.len() != 4 {
        return None;
    }
    assert(forall|i: int| 0 <= i < 4 ==> text::views(p@)[i] == (#[trigger] p@[i])@);
    match (
        parse_octet(p[0].as_str()),
        parse_octet(p[1].as_str()),
        parse_octet(p[2].as_str()),
        parse_octet(p[3].as_str()),
    ) {
        (Some(a), Some(b), Some(c), Some(d)) => Some((a, b, c, d)),
        _ => None,
    }
}

/// The address of eight groups that is this machine's.
pub open spec fn own_groups() -> Seq<nat> {
    seq![0, 0, 0, 0, 0, 0, 0, 1]
}

/// The host is this machine.
pub open spec fn loopback(host: Seq<char>) -> bool {
    ||| host == "localhost"@
    ||| ipv4(host) matches Some(a) && a.0 == 127
    ||| ipv6::host_groups(host) == Some(own_groups())
}

fn is_loopback(host: &str) -> (yes: bool)
    ensures
        yes == loopback(host@),
{
    if same(host, "localhost") {
        return true;
    }
    let old = match parse_ipv4(host) {
        Some(a) => a.0 == 127,
        None => false,
    };
    let new = match read_host(host) {
        Some(g) => {
            assert(forall|i: int| 0 <= i < 8 ==> ipv6::numbers(g@)[i] == g@[i]);
            let yes = g[0] == 0 && g[1] == 0 && g[2] == 0 && g[3] == 0 && g[4] == 0 && g[5] == 0
                && g[6] == 0 && g[7] == 1;
            proof {
                if yes {
                    assert(ipv6::numbers(g@) =~= own_groups());
                } else if ipv6::numbers(g@) == own_groups() {
                    assert(own_groups()[7] == 1);
                }
            }
            yes
        },
        None => false,
    };
    old || new
}

/// What a text says as a web address.
pub struct UrlParts {
    /// The address in its standard form.
    pub text: String,
    pub scheme: String,
    pub host: Option<String>,
    pub port: Option<u16>,
    pub username: String,
    pub has_password: bool,
}

/// What [`UrlParts`] hold.
#[verifier::ext_equal]
pub ghost struct PartsView {
    pub text: Seq<char>,
    pub scheme: Seq<char>,
    pub host: Option<Seq<char>>,
    pub port: Option<u16>,
    pub username: Seq<char>,
    pub has_password: bool,
}

impl View for UrlParts {
    type V = PartsView;

    open spec fn view(&self) -> PartsView {
        PartsView {
            text: self.text@,
            scheme: self.scheme@,
            host: text::view_of(self.host),
            port: self.port,
            username: self.username@,
            has_password: self.has_password,
        }
    }
}

/// The text, or nothing.
pub open spec fn or_empty(s: Option<Seq<char>>) -> Seq<char> {
    match s {
        Some(t) => t,
        None => seq![],
    }
}

/// What a text says as a web address, or why it is none.
pub open spec fn parts_of(url: Seq<char>) -> Result<PartsView, Seq<char>> {
    match urls::parsed_url(url) {
        Ok(text) => Ok(
            PartsView {
                text,
                scheme: or_empty(urls::url_scheme(url)),
                host: urls::url_host(url),
                port: urls::url_port(url),
                username: or_empty(urls::url_username(url)),
                has_password: urls::url_password(url) is Some,
            },
        ),
        Err(e) => Err(url + ": "@ + e),
    }
}

fn text_or_empty(s: Option<String>) -> (out: String)
    ensures
        out@ == or_empty(text::view_of(s)),
{
    match s {
        Some(t) => t,
        None => String::new(),
    }
}

/// What a text says as a web address, or why it is none.
pub fn url_parts(url: &str) -> (out: Result<UrlParts, Error>)
    ensures
        match out {
            Ok(p) => parts_of(url@) == Ok::<PartsView, Seq<char>>(p@),
            Err(e) => e matches Error::BadUrl(m) && parts_of(url@) == Err::<PartsView, Seq<char>>(
                m@,
            ),
        },
{
    match parse_url(url) {
        Ok(text) => Ok(
            UrlParts {
                text,
                scheme: text_or_empty(scheme_of(url)),
                host: host_of(url),
                port: port_of(url),
                username: text_or_empty(username_of(url)),
                has_password: password_of(url).is_some(),
            },
        ),
        Err(e) => Err(Error::BadUrl(cat3(url, ": ", e.as_str()))),
    }
}

/// Why an address must not carry credentials: only a secure scheme may, or a plain
/// one on this machine.
pub open spec fn insecurity(url: Seq<char>, parts: PartsView) -> Option<Seq<char>> {
    if parts.scheme == "https"@ {
        None
    } else if parts.scheme == "http"@ && (parts.host matches Some(h) && loopback(h)) {
        None
    } else {
        Some("'"@ + url + "' uses "@ + parts.scheme + "; remote MCP servers must use https"@)
    }
}

/// Checks that an address may carry credentials.
pub fn check_secure(url: &str, parts: &UrlParts) -> (out: Result<(), Error>)
    ensures
        match out {
            Ok(_) => insecurity(url@, parts@) is None,
            Err(e) => e matches Error::BadUrl(m) && insecurity(url@, parts@) == Some(m@),
        },
{
    proof {
        reveal_strlit("https");
        reveal_strlit("http");
        assert("https"@.len() == 5);
        assert("http"@.len() == 4);
    }
    if same(parts.scheme.as_str(), "https") {
        return Ok(());
    }
    let local = match &parts.host {
        Some(h) => is_loopback(h.as_str()),
        None => false,
    };
    if same(parts.scheme.as_str(), "http") && local {
        return Ok(());
    }
    Err(
        Error::BadUrl(
            cat5(
                "'",
                url,
                "' uses ",
                parts.scheme.as_str(),
                "; remote MCP servers must use https",
            ),
        ),
    )
}

/// Why a text must not be used as the address of a remote server.
pub open spec fn refusal(url: Seq<char>) -> Option<Seq<char>> {
    match parts_of(url) {
        Ok(parts) => insecurity(url, parts),
        Err(e) => Some(e),
    }
}

/// Refuses an address over which credentials would travel in the clear.
pub fn require_secure(url: &str) -> (out: Result<(), Error>)
    ensures
        match out {
            Ok(_) => refusal(url@) is None,
            Err(e) => e matches Error::BadUrl(m) && refusal(url@) == Some(m@),
        },
{
    match url_parts(url) {
        Ok(parts) => check_secure(url, &parts),
        Err(e) => Err(e),
    }
}

/// Refuses an address over which credentials would travel in the clear, before it is
/// written into the configuration.
pub fn validate_remote_url(url: &str) -> (out: Result<(), Error>)
    ensures
        match out {
            Ok(_) => refusal(url@) is None,
            Err(e) => e matches Error::BadUrl(m) && refusal(url@) == Some(m@),
        },
{
    require_secure(url)
}

/// Whether a word looks like a web address.
pub fn is_url(token: &str) -> (yes: bool)
    ensures
        yes == (text::starts_with(token@, "https://"@) || text::starts_with(token@, "http://"@)),
{
    text_starts(token, "https://") || text_starts(token, "http://")
}

/// A label that says nothing of who runs a host.
pub open spec fn generic_label(s: Seq<char>) -> bool {
    s == "mcp"@ || s == "api"@ || s == "www"@ || s == "server"@
}

/// The first telling label, from the `i`-th on.
pub open spec fn telling_label(labels: Seq<Seq<char>>, i: int) -> Option<Seq<char>>
    decreases labels.len() - i,
{
    if i < 0 || i >= labels.len() {
        None
    } else if generic_label(labels[i]) {
        telling_label(labels, i + 1)
    } else {
        Some(labels[i])
    }
}

/// A short name for the server on a host: its first telling label.
pub open spec fn host_id(host: Seq<char>) -> Option<Seq<char>> {
    match telling_label(text::split(text::lowered(host), '.'), 0) {
        Some(l) => if l.len() > 0 {
            Some(l)
        } else {
            None
        },
        None => None,
    }
}

/// A short name for the server on a host.
pub fn id_from_host(host: &str) -> (out: Option<String>)
    ensures
        text::view_of(out) == host_id(host@),
{
    let labels = split_on(&chars_of(lower_text(host).as_str()), '.');
    let ghost all = text::split(text::lowered(host@), '.');
    assert(text::views(labels@) == all);
    let mut i: usize = 0;
    while i < labels.len()
        invariant
            i <= labels@.len(),
            text::views(labels@) == all,
            all == text::split(text::lowered(host@), '.'),
            telling_label(all, 0) == telling_label(all, i as int),
        decreases labels@.len() - i,
    {
        assert(all[i as int] == labels@[i as int]@);
        let l = labels[i].as_str();
        if !(same(l, "mcp") || same(l, "api") || same(l, "www") || same(l, "server")) {
            if chars_of(l).len() > 0 {
                return Some(labels[i].clone());
            }
            return None;
        }
        i = i + 1;
    }
    None
}

/// A short name for the server at an address, so that the address is enough to add
/// it.
pub fn id_from_url(url: &str) -> (out: Option<String>)
    ensures
        text::view_of(out) == match urls::url_host(url@) {
            Some(h) => host_id(h),
            None => None,
        },
{
    match host_of(url) {
        Some(h) => id_from_host(h.as_str()),
        None => None,
    }
}

/// The two addresses have the same scheme, host and port.
pub open spec fn same_origin(a: PartsView, b: PartsView) -> bool {
    &&& a.scheme == b.scheme
    &&& match (a.host, b.host) {
        (Some(x), Some(y)) => text::lowered(x) == text::lowered(y),
        _ => false,
    }
    &&& a.port == b.port
}

fn is_same_origin(a: &UrlParts, b: &UrlParts) -> (yes: bool)
    ensures
        yes == same_origin(a@, b@),
{
    let hosts = match (&a.host, &b.host) {
        (Some(x), Some(y)) => same(
            lower_text(x.as_str()).as_str(),
            lower_text(y.as_str()).as_str(),
        ),
        _ => false,
    };
    let ports = match (a.port, b.port) {
        (Some(x), Some(y)) => x == y,
        (None, None) => true,
        _ => false,
    };
    same(a.scheme.as_str(), b.scheme.as_str()) && hosts && ports
}

/// An address that is not on the public network.
pub open spec fn private_ipv4(a: nat, b: nat, c: nat, d: nat) -> bool {
    ||| a == 10
    ||| a == 172 && 16 <= b <= 31
    ||| a == 192 && b == 168
    ||| a == 127
    ||| a == 169 && b == 254
    ||| a == 255 && b == 255 && c == 255 && d == 255
    ||| 224 <= a <= 239
    ||| a == 0
    ||| a == 100 && 64 <= b <= 127
    ||| a == 198 && (b == 18 || b == 19)
}

/// Whether an address is not on the public network: private, of this machine or
/// link, broadcast, multicast, unspecified, shared or for tests.
pub fn disallowed_ipv4(a: u8, b: u8, c: u8, d: u8) -> (yes: bool)
    ensures
        yes == private_ipv4(a as nat, b as nat, c as nat, d as nat),
{
    a == 10 || (a == 172 && 16 <= b && b <= 31) || (a == 192 && b == 168) || a == 127 || (a == 169
        && b == 254) || (a == 255 && b == 255 && c == 255 && d == 255) || (224 <= a && a <= 239)
        || a == 0 || (a == 100 && 64 <= b && b <= 127) || (a == 198 && (b == 18 || b == 19))
}

/// An address of eight groups that is not on the public network.
pub open spec fn private_ipv6(g: Seq<nat>) -> bool {
    if g[0] == 0 && g[1] == 0 && g[2] == 0 && g[3] == 0 && g[4] == 0 && g[5] == 0xffff {
        private_ipv4(g[6] / 256, g[6] % 256, g[7] / 256, g[7] % 256)
    } else {
        ||| g[0] == 0 && g[1] == 0 && g[2] == 0 && g[3] == 0 && g[4] == 0 && g[5] == 0 && g[6] == 0
            && g[7] <= 1
        ||| g[0] >= 0xff00
        ||| 0xfe80 <= g[0] <= 0xfebf
        ||| 0xfc00 <= g[0] <= 0xfdff
    }
}

/// Whether an address of eight groups is not on the public network: one that maps an
/// older address goes by that; else of this machine, unspecified, multicast, of the
/// link, or local.
pub fn disallowed_ipv6(g: &Vec<u16>) -> (yes: bool)
    requires
        g@.len() == 8,
    ensures
        yes == private_ipv6(ipv6::numbers(g@)),
{
    assert(forall|i: int| 0 <= i < 8 ==> ipv6::numbers(g@)[i] == g@[i]);
    if g[0] == 0 && g[1] == 0 && g[2] == 0 && g[3] == 0 && g[4] == 0 && g[5] == 0xffff {
        return disallowed_ipv4(
            (g[6] / 256) as u8,
            (g[6] % 256) as u8,
            (g[7] / 256) as u8,
            (g[7] % 256) as u8,
        );
    }
    (g[0] == 0 && g[1] == 0 && g[2] == 0 && g[3] == 0 && g[4] == 0 && g[5] == 0 && g[6] == 0 && g[7]
        <= 1) || g[0] >= 0xff00 || (0xfe80 <= g[0] && g[0] <= 0xfebf) || (0xfc00 <= g[0] && g[0]
        <= 0xfdff)
}

/// A text without the dots at its end.
pub open spec fn undotted(s: Seq<char>) -> Seq<char>
    decreases s.len(),
{
    if s.len() > 0 && s.last() == '.' {
        undotted(s.drop_last())
    } else {
        s
    }
}

/// A host that sign-in services must not lead to.
pub open spec fn private_host(host: Seq<char>) -> bool {
    let h = text::lowered(undotted(host));
    ||| h == "localhost"@
    ||| text::ends_with(h, ".localhost"@)
    ||| h == "metadata"@
    ||| h == "metadata.google.internal"@
    ||| h == "metadata.azure.internal"@
    ||| match ipv4(h) {
        Some(a) => private_ipv4(a.0, a.1, a.2, a.3),
        None => match ipv6::host_groups(h) {
            Some(g) => private_ipv6(g),
            None => false,
        },
    }
}

/// Whether a host is one that sign-in services must not lead to.
pub fn disallowed_host(host: &str) -> (yes: bool)
    ensures
        yes == private_host(host@),
{
    let x = chars_of(host);
    let mut n: usize = x.len();
    assert(x@.take(n as int) =~= host@);
    while n > 0 && x[n - 1] == '.'
        invariant
            n <= x@.len(),
            undotted(host@) == undotted(x@.take(n as int)),
        decreases n,
    {
        assert(x@.take(n as int).drop_last() =~= x@.take(n - 1));
        n = n - 1;
    }
    let bare = text_slice(&x, 0, n);
    assert(bare@ =~= x@.take(n as int));
    let h = lower_text(bare.as_str());
    let s = h.as_str();
    if same(s, "localhost") || text_ends(s, ".localhost") || same(s, "metadata") || same(
        s,
        "metadata.google.internal",
    ) || same(s, "metadata.azure.internal") {
        return true;
    }
    match parse_ipv4(s) {
        Some(a) => disallowed_ipv4(a.0, a.1, a.2, a.3),
        None => match read_host(s) {
            Some(g) => disallowed_ipv6(&g),
            None => false,
        },
    }
}

/// Why a sign-in must not go to an address. An address on the server's own origin is
/// the user's choice; any other must be public.
pub open spec fn endpoint_fault(base: PartsView, url: PartsView) -> Option<Seq<char>> {
    if insecurity(url.text, url) is Some {
        insecurity(url.text, url)
    } else if url.username.len() > 0 || url.has_password {
        Some("OAuth endpoints must not contain embedded credentials"@)
    } else if same_origin(base, url) {
        None
    } else if private_host(or_empty(url.host)) {
        Some(
            "OAuth endpoint '"@ + url.text
                + "' targets a private, loopback or metadata host"@,
        )
    } else {
        None
    }
}

/// Checks that a sign-in may go to an address.
pub fn check_endpoint(base: &UrlParts, url: &UrlParts) -> (out: Result<(), Error>)
    ensures
        match out {
            Ok(_) => endpoint_fault(base@, url@) is None,
            Err(e) => e matches Error::BadUrl(m) && endpoint_fault(base@, url@) == Some(m@),
        },
{
    match check_secure(url.text.as_str(), url) {
        Ok(_) => {},
        Err(e) => {
            return Err(e);
        },
    }
    if chars_of(url.username.as_str()).len() > 0 || url.has_password {
        return Err(
            Error::BadUrl("OAuth endpoints must not contain embedded credentials".to_owned()),
        );
    }
    if is_same_origin(base, url) {
        return Ok(());
    }
    let host = match &url.host {
        Some(h) => h.clone(),
        None => String::new(),
    };
    assert(host@ =~= or_empty(url@.host));
    if disallowed_host(host.as_str()) {
        return Err(
            Error::BadUrl(
                cat3(
                    "OAuth endpoint '",
                    url.text.as_str(),
                    "' targets a private, loopback or metadata host",
                ),
            ),
        );
    }
    Ok(())
}

/// Where the sign-in of a server may go.
pub struct EndpointPolicy {
    pub base: UrlParts,
}

impl EndpointPolicy {
    /// The policy of the server at an address.
    pub fn new(base: &str) -> (out: Result<EndpointPolicy, Error>)
        ensures
            match out {
                Ok(p) => refusal(base@) is None && parts_of(base@) == Ok::<PartsView, Seq<char>>(
                    p.base@,
                ),
                Err(e) => e matches Error::BadUrl(m) && refusal(base@) == Some(m@),
            },
    {
        match url_parts(base) {
            Ok(parts) => match check_secure(base, &parts) {
                Ok(_) => Ok(EndpointPolicy { base: parts }),
                Err(e) => Err(e),
            },
            Err(e) => Err(e),
        }
    }

    /// The address in its standard form, where the sign-in may go there.
    pub fn validate(&self, candidate: &str) -> (out: Result<String, Error>)
        ensures
            match parts_of(candidate@) {
                Ok(url) => match endpoint_fault(self.base@, url) {
                    None => out matches Ok(text) && text@ == url.text,
                    Some(f) => out matches Err(Error::BadUrl(m)) && m@ == f,
                },
                Err(f) => out matches Err(Error::BadUrl(m)) && m@ == f,
            },
    {
        match url_parts(candidate) {
            Ok(url) => match check_endpoint(&self.base, &url) {
                Ok(_) => Ok(url.text),
                Err(e) => Err(e),
            },
            Err(e) => Err(e),
        }
    }

    /// Whether a redirection is followed.
    pub fn follows(&self, previous: usize, target: &str) -> (yes: bool)
        ensures
            yes == (previous < MAX_OAUTH_REDIRECTS && match parts_of(target@) {
                Ok(url) => endpoint_fault(self.base@, url) is None,
                Err(_) => false,
            }),
    {
        previous < MAX_OAUTH_REDIRECTS && match self.validate(target) {
            Ok(_) => true,
            Err(_) => false,
        }
    }
}

/// A sign-in never leaves for an address that is neither the server's own origin nor
/// public, nor for one over which a token would travel in the clear.
pub proof fn law_sign_in_stays_safe(base: PartsView, url: PartsView)
    requires
        endpoint_fault(base, url) is None,
    ensures
        same_origin(base, url) || !private_host(or_empty(url.host)),
        url.scheme == "https"@ || (url.scheme == "http"@ && (url.host matches Some(h) && loopback(
            h,
        ))),
        url.username.len() == 0 && !url.has_password,
{
}

/// Whether more of a response is taken: what is there and what comes must fit the
/// limit.
pub fn takes_chunk(have: usize, chunk: usize) -> (yes: bool)
    ensures
        yes == (if have <= MAX_OAUTH_BODY {
            have + chunk <= MAX_OAUTH_BODY
        } else {
            chunk == 0
        }),
{
    let left: usize = if have <= MAX_OAUTH_BODY {
        MAX_OAUTH_BODY - have
    } else {
        0
    };
    chunk <= left
}

/// What a remote server wants of those who come without credentials.
#[derive(Debug, Clone, Copy, PartialEq, Eq, Structural)]
pub enum Challenge {
    /// Nothing.
    Open,
    /// A sign-in that can be found out.
    OAuth,
    /// A token that the user has to supply.
    Token,
}

/// Some header points to a description of the sign-in.
pub open spec fn advertises(headers: Seq<Seq<char>>) -> bool {
    exists|i: int|
        0 <= i < headers.len() && text::contains(
            text::lowered(#[trigger] headers[i]),
            "resource_metadata"@,
        )
}

/// What a remote server wants, by its answer: `status` is none where it did not
/// answer, and `headers` are the challenges that it sent.
pub fn challenge_of(status: Option<u16>, headers: &Vec<String>) -> (out: Challenge)
    ensures
        out == (if !(status == Some(401u16) || status == Some(403u16)) {
            Challenge::Open
        } else if advertises(text::views(headers@)) {
            Challenge::OAuth
        } else {
            Challenge::Token
        }),
{
    match status {
        Some(s) => if s != 401 && s != 403 {
            return Challenge::Open;
        },
        None => {
            return Challenge::Open;
        },
    }
    let mut i: usize = 0;
    while i < headers.len()
        invariant
            i <= headers@.len(),
            status == Some(401u16) || status == Some(403u16),
            forall|j: int|
                0 <= j < i ==> !text::contains(
                    text::lowered(#[trigger] text::views(headers@)[j]),
                    "resource_metadata"@,
                ),
        decreases headers@.len() - i,
    {
        assert(text::views(headers@)[i as int] == headers@[i as int]@);
        if text_contains(lower_text(headers[i].as_str()).as_str(), "resource_metadata") {
            return Challenge::OAuth;
        }
        i = i + 1;
    }
    Challenge::Token
}

/// The grant that a sign-in service sends back.
pub struct Callback {
    pub code: String,
    pub state: String,
    pub issuer: Option<String>,
}

/// The first value under a key, from the `i`-th pair on.
pub open spec fn value_from(query: Seq<(Seq<char>, Seq<char>)>, key: Seq<char>, i: int) -> Option<
    Seq<char>,
>
    decreases query.len() - i,
{
    if i < 0 || i >= query.len() {
        None
    } else if query[i].0 == key {
        Some(query[i].1)
    } else {
        value_from(query, key, i + 1)
    }
}

fn find_value(query: &Vec<(String, String)>, key: &str) -> (out: Option<String>)
    ensures
        text::view_of(out) == value_from(urls::pairs(query@), key@, 0),
{
    let ghost all = urls::pairs(query@);
    let mut i: usize = 0;
    while i < query.len()
        invariant
            i <= query@.len(),
            all == urls::pairs(query@),
            value_from(all, key@, 0) == value_from(all, key@, i as int),
        decreases query@.len() - i,
    {
        assert(all[i as int] == (query@[i as int].0@, query@[i as int].1@));
        if same(query[i].0.as_str(), key) {
            return Some(query[i].1.clone());
        }
        i = i + 1;
    }
    None
}

/// What a request to the callback address brings: a refusal, the grant, or neither,
/// as the requests that browsers make on the side.
pub fn grant_in(query: &Vec<(String, String)>) -> (out: Option<Result<Callback, Error>>)
    ensures
        ({
            let q = urls::pairs(query@);
            let code = value_from(q, "code"@, 0);
            let state = value_from(q, "state"@, 0);
            match value_from(q, "error"@, 0) {
                Some(e) => out matches Some(Err(Error::Auth(m))) && m@
                    == "the provider denied authorization: "@ + e,
                None => match (code, state) {
                    (Some(c), Some(s)) => out matches Some(Ok(g)) && g.code@ == c && g.state@ == s
                        && text::view_of(g.issuer) == value_from(q, "iss"@, 0),
                    _ => out is None,
                },
            }
        }),
{
    match find_value(query, "error") {
        Some(e) => {
            return Some(
                Err(Error::Auth(cat2("the provider denied authorization: ", e.as_str()))),
            );
        },
        None => {},
    }
    match (find_value(query, "code"), find_value(query, "state")) {
        (Some(code), Some(state)) => Some(
            Ok(Callback { code, state, issuer: find_value(query, "iss") }),
        ),
        _ => None,
    }
}

/// The target of a request, by its first line: the second word.
pub open spec fn target_of(request: Seq<char>) -> Seq<char> {
    let w = text::words(request);
    if w.len() > 1 {
        w[1]
    } else {
        seq![]
    }
}

/// The target of a request, by its first line.
pub fn request_target(request: &str) -> (out: String)
    ensures
        out@ == target_of(request@),
{
    let w = words_of(&chars_of(request));
    assert(text::views(w@).len() == w@.len());
    if w.len() > 1 {
        assert(text::views(w@)[1] == w@[1]@);
        w[1].clone()
    } else {
        let out = String::new();
        assert(out@ =~= seq![]);
        out
    }
}

/// The decoded pairs of a request's target.
pub fn query_pairs(target: &str) -> (out: Vec<(String, String)>)
    ensures
        urls::pairs(out@) == urls::url_query("http://127.0.0.1"@ + target@),
{
    query_of(cat2("http://127.0.0.1", target).as_str())
}

/// The page that a browser is shown.
pub fn callback_page(outcome: &Option<Result<Callback, Error>>) -> (out: &'static str)
    ensures
        out@ == match *outcome {
            Some(Ok(_)) => {
                "<!doctype html><meta charset=utf-8><title>Medha</title><body style=\"font:16px system-ui;padding:3rem\"><p>Authorization complete — you can close this tab and return to Medha.</p>"@
            },
            Some(Err(_)) => {
                "<!doctype html><meta charset=utf-8><p>Authorization failed — return to Medha for details."@
            },
            None => {
                "<!doctype html><meta charset=utf-8><p>Waiting for the authorization redirect…"@
            },
        },
{
    match outcome {
        Some(Ok(_)) => "<!doctype html><meta charset=utf-8><title>Medha</title><body style=\"font:16px system-ui;padding:3rem\"><p>Authorization complete — you can close this tab and return to Medha.</p>",
        Some(Err(_)) => "<!doctype html><meta charset=utf-8><p>Authorization failed — return to Medha for details.",
        None => "<!doctype html><meta charset=utf-8><p>Waiting for the authorization redirect…",
    }
}

/// The credentials of a remote server.
pub enum RemoteAuth {
    /// What the server asks for.
    Auto,
    /// No credentials.
    Anonymous,
    /// A token that is sent with each request.
    Bearer(String),
    /// A sign-in, whose tokens are stored.
    OAuth,
}

/// How a remote server is connected to.
pub enum RemoteStep {
    /// Without credentials.
    Plain,
    /// With a token.
    Bearer(String),
    /// With the credentials that are stored.
    Stored,
    /// After asking it what it wants.
    Probe,
    /// Not at all, for this reason.
    Refused(Error),
}

/// How a remote server is connected to. `stored` says whether there are credentials
/// of an earlier sign-in, and `challenge` what the server wants, once it was asked.
pub fn connect_remote(
    server: &str,
    url: &str,
    auth: &RemoteAuth,
    stored: bool,
    challenge: Option<Challenge>,
) -> (out: RemoteStep)
    ensures
        match refusal(url@) {
            Some(m) => out matches RemoteStep::Refused(Error::BadUrl(e)) && e@ == m,
            None => match auth {
                RemoteAuth::Anonymous => out is Plain,
                RemoteAuth::Bearer(t) => out matches RemoteStep::Bearer(b) && b@ == t@,
                RemoteAuth::OAuth => if stored {
                    out is Stored
                } else {
                    out matches RemoteStep::Refused(Error::NeedsAuth(s)) && s@ == server@
                },
                RemoteAuth::Auto => if stored {
                    out is Stored
                } else {
                    match challenge {
                        None => out is Probe,
                        Some(Challenge::Open) => out is Plain,
                        Some(Challenge::OAuth) => out matches RemoteStep::Refused(
                            Error::NeedsAuth(s),
                        ) && s@ == server@,
                        Some(Challenge::Token) => out matches RemoteStep::Refused(
                            Error::NeedsToken(s),
                        ) && s@ == server@,
                    }
                },
            },
        },
{
    match require_secure(url) {
        Ok(_) => {},
        Err(e) => {
            return RemoteStep::Refused(e);
        },
    }
    match auth {
        RemoteAuth::Anonymous => RemoteStep::Plain,
        RemoteAuth::Bearer(t) => RemoteStep::Bearer(t.clone()),
        RemoteAuth::OAuth => if stored {
            RemoteStep::Stored
        } else {
            RemoteStep::Refused(Error::NeedsAuth(server.to_owned()))
        },
        RemoteAuth::Auto => if stored {
            RemoteStep::Stored
        } else {
            match challenge {
                None => RemoteStep::Probe,
                Some(Challenge::Open) => RemoteStep::Plain,
                Some(Challenge::OAuth) => RemoteStep::Refused(
                    Error::NeedsAuth(server.to_owned()),
                ),
                Some(Challenge::Token) => RemoteStep::Refused(
                    Error::NeedsToken(server.to_owned()),
                ),
            }
        },
    }
}

/// Where the credentials of remote servers are kept between sessions.
pub trait TokenStore {
    fn load(&self, server: &str, url: &str) -> Option<String>;

    fn save(&self, server: &str, url: &str, blob: &str);

    fn clear(&self, server: &str, url: &str);
}

} // verus!

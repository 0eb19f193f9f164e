//! File paths and web addresses.

use vstd::prelude::*;
use url::Url;
use crate::text;

verus! {

/// The path that a `file:` address names, as [`Url::parse`] and
/// [`Url::to_file_path`] have it.
pub uninterp spec fn path_of_uri(uri: Seq<char>) -> Option<Seq<char>>;

/// The address of an absolute path, as [`Url::from_file_path`] has it.
pub uninterp spec fn uri_of_path(path: Seq<char>) -> Option<Seq<char>>;

/// [`Url::parse`] and then [`Url::to_file_path`]: the path that an address names.
/// None for a text that is no address, for an address that names no file, and for
/// a path that is no text.
#[verifier::external_body]
pub(crate) fn file_path(uri: &str) -> (out: Option<String>)
    ensures
        match out {
            Some(p) => path_of_uri(uri@) == Some(p@),
            None => path_of_uri(uri@) is None,
        },
{
    Url::parse(uri).ok()?.to_file_path().ok()?.into_os_string().into_string().ok()
}

/// [`Url::from_file_path`]: the address of a path. None for a path that is not
/// absolute.
#[verifier::external_body]
pub(crate) fn file_address(path: &str) -> (out: Option<String>)
    ensures
        match out {
            Some(u) => uri_of_path(path@) == Some(u@),
            None => uri_of_path(path@) is None,
        },
{
    Url::from_file_path(path).ok().map(String::from)
}

/// What [`Url::parse`] makes of a text: the address in its standard form, or the text
/// of the error.
pub uninterp spec fn parsed_url(url: Seq<char>) -> Result<Seq<char>, Seq<char>>;

/// What [`Url::scheme`] gives for a text that is an address.
pub uninterp spec fn url_scheme(url: Seq<char>) -> Option<Seq<char>>;

/// What [`Url::host_str`] gives for a text that is an address.
pub uninterp spec fn url_host(url: Seq<char>) -> Option<Seq<char>>;

/// What [`Url::port_or_known_default`] gives for a text that is an address.
pub uninterp spec fn url_port(url: Seq<char>) -> Option<u16>;

/// What [`Url::username`] gives for a text that is an address.
pub uninterp spec fn url_username(url: Seq<char>) -> Option<Seq<char>>;

/// What [`Url::password`] gives for a text that is an address.
pub uninterp spec fn url_password(url: Seq<char>) -> Option<Seq<char>>;

/// What [`Url::query_pairs`] gives for a text that is an address.
pub uninterp spec fn url_query(url: Seq<char>) -> Seq<(Seq<char>, Seq<char>)>;

/// What each pair of texts holds.
pub open spec fn pairs(v: Seq<(String, String)>) -> Seq<(Seq<char>, Seq<char>)> {
    v.map_values(|p: (String, String)| (p.0@, p.1@))
}

/// [`Url::parse`]: the address in its standard form, or the text of the error.
#[verifier::external_body]
pub(crate) fn parse_url(url: &str) -> (out: Result<String, String>)
    ensures
        match out {
            Ok(u) => parsed_url(url@) == Ok::<Seq<char>, Seq<char>>(u@),
            Err(e) => parsed_url(url@) == Err::<Seq<char>, Seq<char>>(e@),
        },
{
    Url::parse(url).map(String::from).map_err(|e| e.to_string())
}

/// [`Url::scheme`] of the address that a text is. None where it is none.
#[verifier::external_body]
pub(crate) fn scheme_of(url: &str) -> (out: Option<String>)
    ensures
        text::view_of(out) == url_scheme(url@),
{
    Url::parse(url).ok().map(|u| u.scheme().to_owned())
}

/// [`Url::host_str`] of the address that a text is. None where it is none, or has no
/// host.
#[verifier::external_body]
pub(crate) fn host_of(url: &str) -> (out: Option<String>)
    ensures
        text::view_of(out) == url_host(url@),
{
    Url::parse(url).ok()?.host_str().map(str::to_owned)
}

/// [`Url::port_or_known_default`] of the address that a text is. None where it is
/// none, or its scheme has no known port.
#[verifier::external_body]
pub(crate) fn port_of(url: &str) -> (out: Option<u16>)
    ensures
        out == url_port(url@),
{
    Url::parse(url).ok()?.port_or_known_default()
}

/// [`Url::username`] of the address that a text is. None where it is none.
#[verifier::external_body]
pub(crate) fn username_of(url: &str) -> (out: Option<String>)
    ensures
        text::view_of(out) == url_username(url@),
{
    Url::parse(url).ok().map(|u| u.username().to_owned())
}

/// [`Url::password`] of the address that a text is. None where it is none, or has no
/// password.
#[verifier::external_body]
pub(crate) fn password_of(url: &str) -> (out: Option<String>)
    ensures
        text::view_of(out) == url_password(url@),
{
    Url::parse(url).ok()?.password().map(str::to_owned)
}

/// [`Url::query_pairs`] of the address that a text is, decoded. An empty list where it is
/// no address.
#[verifier::external_body]
pub(crate) fn query_of(url: &str) -> (out: Vec<(String, String)>)
    ensures
        pairs(out@) == url_query(url@),
{
    match Url::parse(url) {
        Ok(u) => u.query_pairs().map(|(k, v)| (k.into_owned(), v.into_owned())).collect(),
        Err(_) => Vec::new(),
    }
}

} // verus!

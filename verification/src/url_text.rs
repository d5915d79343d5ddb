//! URLs, through the `url` crate, held as their serialised text.
//!
//! Each operation parses the text it is given and hands back plain values;
//! what the crate computes is named, not restated.

use vstd::prelude::*;

verus! {

pub open spec fn text_opt(o: Option<String>) -> Option<Seq<char>> {
    match o {
        Some(s) => Some(s@),
        None => None,
    }
}

/// The serialisation of `Url::parse(s)`, if it parses.
pub uninterp spec fn url_parsed(s: Seq<char>) -> Option<Seq<char>>;

/// `host_str()` of the URL `t`.
pub uninterp spec fn url_host(t: Seq<char>) -> Option<Seq<char>>;

/// `port()` of the URL `t`.
pub uninterp spec fn url_port(t: Seq<char>) -> Option<u16>;

/// `scheme()` of the URL `t`.
pub uninterp spec fn url_scheme(t: Seq<char>) -> Seq<char>;

/// The URL `t` after `set_host(host)`, if that succeeds.
pub uninterp spec fn url_with_host(t: Seq<char>, host: Option<Seq<char>>) -> Option<Seq<char>>;

/// The URL `t` after `set_port(port)`, if that succeeds.
pub uninterp spec fn url_with_port(t: Seq<char>, port: Option<u16>) -> Option<Seq<char>>;

/// The URL `t` after `set_scheme(scheme)`, if that succeeds.
pub uninterp spec fn url_with_scheme(t: Seq<char>, scheme: Seq<char>) -> Option<Seq<char>>;

/// The text (`Display`) of the error `Url::parse(s)` gives, when it fails.
pub uninterp spec fn url_parse_error(s: Seq<char>) -> Seq<char>;

/// `url::Url::parse`: the URL as its serialisation (`as_str`), or the text
/// of the parse error.
#[verifier::external_body]
pub(crate) fn parse_url(s: &str) -> (r: Result<String, String>)
    ensures
        match r {
            Ok(t) => url_parsed(s@) == Some(t@),
            Err(e) => url_parsed(s@) is None && e@ == url_parse_error(s@),
        },
{
    url::Url::parse(s).map(|u| u.as_str().to_string()).map_err(|e| e.to_string())
}

/// `url::Url::host_str` of the URL whose text is `t`.
#[verifier::external_body]
pub(crate) fn host_of(t: &str) -> (r: Option<String>)
    ensures
        text_opt(r) == url_host(t@),
{
    url::Url::parse(t).ok().and_then(|u| u.host_str().map(|h| h.to_string()))
}

/// `url::Url::port` of the URL whose text is `t`.
#[verifier::external_body]
pub(crate) fn port_of(t: &str) -> (r: Option<u16>)
    ensures
        r == url_port(t@),
{
    url::Url::parse(t).ok().and_then(|u| u.port())
}

/// `url::Url::scheme` of the URL whose text is `t`.
#[verifier::external_body]
pub(crate) fn scheme_of(t: &str) -> (r: String)
    ensures
        r@ == url_scheme(t@),
{
    url::Url::parse(t).map(|u| u.scheme().to_string()).unwrap_or_default()
}

/// `url::Url::set_host` on the URL whose text is `t`.
#[verifier::external_body]
pub(crate) fn with_host(t: &str, host: Option<&str>) -> (r: Option<String>)
    ensures
        text_opt(r) == url_with_host(
            t@,
            match host {
                Some(h) => Some(h@),
                None => None,
            },
        ),
{
    let mut u = url::Url::parse(t).ok()?;
    u.set_host(host).ok()?;
    Some(u.as_str().to_string())
}

/// `url::Url::set_port` on the URL whose text is `t`.
#[verifier::external_body]
pub(crate) fn with_port(t: &str, port: Option<u16>) -> (r: Option<String>)
    ensures
        text_opt(r) == url_with_port(t@, port),
{
    let mut u = url::Url::parse(t).ok()?;
    u.set_port(port).ok()?;
    Some(u.as_str().to_string())
}

/// `url::Url::set_scheme` on the URL whose text is `t`.
#[verifier::external_body]
pub(crate) fn with_scheme(t: &str, scheme: &str) -> (r: Option<String>)
    ensures
        text_opt(r) == url_with_scheme(t@, scheme@),
{
    let mut u = url::Url::parse(t).ok()?;
    u.set_scheme(scheme).ok()?;
    Some(u.as_str().to_string())
}

/// `path()` of the URL `t`.
pub uninterp spec fn url_path(t: Seq<char>) -> Seq<char>;

/// The URL `t` after `set_path(path)`.
pub uninterp spec fn url_with_path(t: Seq<char>, path: Seq<char>) -> Option<Seq<char>>;

/// The URL `t` after `set_query(None)`.
pub uninterp spec fn url_without_query(t: Seq<char>) -> Option<Seq<char>>;

/// The URL `t` after `set_fragment(None)`.
pub uninterp spec fn url_without_fragment(t: Seq<char>) -> Option<Seq<char>>;

/// `url::Url::path` of the URL whose text is `t`.
#[verifier::external_body]
pub(crate) fn path_of(t: &str) -> (r: String)
    ensures
        r@ == url_path(t@),
{
    url::Url::parse(t).map(|u| u.path().to_string()).unwrap_or_default()
}

/// `url::Url::set_path` on the URL whose text is `t`.
#[verifier::external_body]
pub(crate) fn with_path(t: &str, path: &str) -> (r: Option<String>)
    ensures
        text_opt(r) == url_with_path(t@, path@),
{
    let mut u = url::Url::parse(t).ok()?;
    u.set_path(path);
    Some(u.as_str().to_string())
}

/// `url::Url::set_query(None)` on the URL whose text is `t`.
#[verifier::external_body]
pub(crate) fn without_query(t: &str) -> (r: Option<String>)
    ensures
        text_opt(r) == url_without_query(t@),
{
    let mut u = url::Url::parse(t).ok()?;
    u.set_query(None);
    Some(u.as_str().to_string())
}

/// `url::Url::set_fragment(None)` on the URL whose text is `t`.
#[verifier::external_body]
pub(crate) fn without_fragment(t: &str) -> (r: Option<String>)
    ensures
        text_opt(r) == url_without_fragment(t@),
{
    let mut u = url::Url::parse(t).ok()?;
    u.set_fragment(None);
    Some(u.as_str().to_string())
}

/// The URL `t` after `query_pairs_mut().append_pair(key, value)`.
pub uninterp spec fn url_with_query_pair(t: Seq<char>, key: Seq<char>, value: Seq<char>) -> Seq<char>;

/// `url::Url::query_pairs_mut().append_pair(key, value)` on the URL whose
/// text is `t`, then the URL's text.  Claimed: the result is a function of
/// the three texts alone (named `url_with_query_pair`); the encoding of the
/// pair is left unsaid.  A `t` that does not parse gives an empty text.
#[verifier::external_body]
pub(crate) fn with_query_pair(t: &str, key: &str, value: &str) -> (r: String)
    ensures
        r@ == url_with_query_pair(t@, key@, value@),
{
    match url::Url::parse(t) {
        Ok(mut u) => {
            u.query_pairs_mut().append_pair(key, value);
            u.as_str().to_string()
        },
        Err(_) => String::new(),
    }
}

} // verus!

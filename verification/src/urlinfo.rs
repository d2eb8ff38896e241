//! The parts of a URL that validation rules read.
//!
//! Parsing itself is the WHATWG parser's job; the rules only ever look at
//! the scheme and the host of what it parsed, so only those two cross the
//! trusted boundary, as plain strings.

use vstd::prelude::*;

verus! {

/// The parts of a parsed URL the validation rules read: the scheme and the
/// host, where one is present.
pub struct UrlParts {
    pub scheme: String,
    pub host: Option<String>,
}

/// What the WHATWG URL parser makes of a string: the parsed URL's scheme and
/// host, or nothing where the string is no parseable absolute URL. A
/// function of the characters alone.
pub uninterp spec fn url_parts_of(s: Seq<char>) -> Option<(Seq<char>, Option<Seq<char>>)>;

/// Relies on `url::Url::parse` and the `scheme` / `host_str` accessors of
/// the parsed value: parsing succeeds exactly on parseable absolute URLs,
/// and scheme and host are functions of the input characters alone.
#[verifier::external_body]
pub(crate) fn parse_url_parts(raw: &str) -> (r: Option<UrlParts>)
    ensures
        r is Some <==> url_parts_of(raw@) is Some,
        r matches Some(p) ==> (url_parts_of(raw@) matches Some(parts) && p.scheme@ == parts.0 && (
        p.host is Some <==> parts.1 is Some) && (p.host matches Some(h) ==> Some(h@) == parts.1)),
{
    match url::Url::parse(raw) {
        Ok(u) => Some(
            UrlParts { scheme: u.scheme().to_string(), host: u.host_str().map(|h| h.to_string()) },
        ),
        Err(_) => None,
    }
}

} // verus!

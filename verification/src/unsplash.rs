//! Parameter validation, URL allow-listing and error categorisation for the
//! Unsplash REST proxy.
//!
//! The network calls themselves live with the host application; the rules
//! they follow — which URLs may be fetched, how search parameters are
//! normalized, how failures are categorised — are here, verified.

use vstd::prelude::*;
use vstd::string::StrSliceExecFns;
use vstd::string::StringExecFns;
use crate::text::{chars_vec, dec_seq, dec_string, lower_of, lowercase, trim_seq, trim_str};
use crate::urlinfo::{parse_url_parts, url_parts_of};

verus! {

/// The host the REST API lives on.
pub const UNSPLASH_API_HOST: &'static str = "api.unsplash.com";

/// The host image content is served from.
pub const UNSPLASH_IMAGE_HOST: &'static str = "images.unsplash.com";

/// Arguments of a photo search.
#[derive(Debug)]
pub struct UnsplashSearchArgs {
    pub query: String,
    pub page: Option<u32>,
    pub per_page: Option<u32>,
    pub orientation: Option<String>,
    pub content_filter: Option<String>,
}

/// Arguments of a single-photo fetch.
#[derive(Debug)]
pub struct UnsplashGetPhotoArgs {
    pub photo_id: String,
}

/// Arguments of a download-tracking call.
#[derive(Debug)]
pub struct UnsplashTrackDownloadArgs {
    pub download_location: String,
}

/// Arguments of an image fetch.
#[derive(Debug)]
pub struct UnsplashFetchImageArgs {
    pub url: String,
}

/// A fetched image: its bytes as base64, its media type, its dimensions.
#[derive(Debug)]
pub struct UnsplashFetchImageResult {
    pub data_base64: String,
    pub mime: String,
    pub width: u32,
    pub height: u32,
}

/// Whether a string parses as an absolute https URL whose host is exactly
/// the allowed one.
pub open spec fn https_url_valid(s: Seq<char>, allowed_host: Seq<char>) -> bool {
    match url_parts_of(s) {
        Option::None => false,
        Option::Some((scheme, host)) => scheme == "https"@ && host == Some(allowed_host),
    }
}

/// The message a refused URL is reported with: the first failed check names
/// itself.
pub open spec fn url_error_seq(s: Seq<char>, allowed_host: Seq<char>) -> Seq<char> {
    match url_parts_of(s) {
        Option::None => "unsplash_invalid_url: the value is not a valid URL"@,
        Option::Some((scheme, host)) => if scheme != "https"@ {
            "unsplash_invalid_url: only https URLs are allowed"@
        } else {
            match host {
                Option::None => "unsplash_invalid_url: missing host"@,
                Option::Some(h) => "unsplash_invalid_url: host "@ + h + " is not allowed"@,
            }
        },
    }
}

/// Accepts a URL exactly when it parses, its scheme is https and its host is
/// the allowed one; hands the accepted URL back unchanged.
pub fn parse_and_validate_https_url(raw: &str, allowed_host: &str) -> (r: Result<String, String>)
    ensures
        r is Ok <==> https_url_valid(raw@, allowed_host@),
        r matches Ok(u) ==> u@ == raw@,
        r matches Err(m) ==> m@ == url_error_seq(raw@, allowed_host@),
{
    let parts = match parse_url_parts(raw) {
        Option::Some(p) => p,
        Option::None => {
            return Err("unsplash_invalid_url: the value is not a valid URL".to_owned());
        },
    };
    if !(parts.scheme == "https".to_owned()) {
        return Err("unsplash_invalid_url: only https URLs are allowed".to_owned());
    }
    match parts.host {
        Option::None => Err("unsplash_invalid_url: missing host".to_owned()),
        Option::Some(h) => {
            if h == allowed_host.to_owned() {
                Ok(raw.to_owned())
            } else {
                Err("unsplash_invalid_url: host ".to_owned().concat(h.as_str()).concat(
                    " is not allowed",
                ))
            }
        },
    }
}

/// Trims a search query and accepts it exactly when what remains is
/// non-empty.
pub fn validate_search_query(query: &str) -> (r: Result<String, String>)
    ensures
        r is Ok <==> trim_seq(query@).len() > 0,
        r matches Ok(q) ==> q@ == trim_seq(query@),
        r matches Err(m) ==> m@ == "unsplash_invalid_params: query is required"@,
{
    let trimmed = trim_str(query);
    if trimmed.is_empty() {
        return Err("unsplash_invalid_params: query is required".to_owned());
    }
    Ok(trimmed.to_owned())
}

/// The page and page-size a search runs with: pages count from one, and the
/// page size defaults to 24 and is kept between 1 and 30.
pub fn normalize_paging(page: Option<u32>, per_page: Option<u32>) -> (r: (u32, u32))
    ensures
        r.0 == (match page {
            Option::Some(p) => if p >= 1 {
                p as int
            } else {
                1
            },
            Option::None => 1,
        }),
        r.1 == (match per_page {
            Option::Some(p) => if p < 1 {
                1
            } else if p > 30 {
                30
            } else {
                p as int
            },
            Option::None => 24,
        }),
{
    let p: u32 = match page {
        Option::Some(p) => if p >= 1 {
            p
        } else {
            1
        },
        Option::None => 1,
    };
    let pp: u32 = match per_page {
        Option::Some(p) => if p < 1 {
            1
        } else if p > 30 {
            30
        } else {
            p
        },
        Option::None => 24,
    };
    (p, pp)
}

/// Trims and lowercases an orientation request and accepts exactly the three
/// orientations the search endpoint offers.
pub fn normalize_orientation(orientation: Option<String>) -> (r: Result<Option<String>, String>)
    ensures
        orientation is None ==> (r matches Ok(o) && o is None),
        orientation matches Some(raw) ==> ({
            let lowered = lower_of(trim_seq(raw@));
            &&& (r is Ok <==> (lowered == "landscape"@ || lowered == "portrait"@ || lowered
                == "squarish"@))
            &&& (r matches Ok(o) ==> (o matches Some(v) && v@ == lowered))
            &&& (r matches Err(m) ==> m@
                == "unsplash_invalid_params: orientation must be landscape, portrait, or squarish"@)
        }),
{
    let raw = match orientation {
        Option::None => {
            return Ok(None);
        },
        Option::Some(raw) => raw,
    };
    let normalized = lowercase(trim_str(raw.as_str()));
    if normalized == "landscape".to_owned() || normalized == "portrait".to_owned() || normalized
        == "squarish".to_owned() {
        Ok(Some(normalized))
    } else {
        Err("unsplash_invalid_params: orientation must be landscape, portrait, or squarish".to_owned())
    }
}

/// Trims and lowercases a content-filter request, with the default applied,
/// and accepts exactly the two levels the search endpoint offers.
pub fn normalize_content_filter(content_filter: Option<String>) -> (r: Result<String, String>)
    ensures
        ({
            let base: Seq<char> = match content_filter {
                Option::Some(v) => v@,
                Option::None => "high"@,
            };
            let lowered = lower_of(trim_seq(base));
            &&& (r is Ok <==> (lowered == "low"@ || lowered == "high"@))
            &&& (r matches Ok(v) ==> v@ == lowered)
            &&& (r matches Err(m) ==> m@
                == "unsplash_invalid_params: contentFilter must be low or high"@)
        }),
{
    let base: String = match content_filter {
        Option::Some(v) => v,
        Option::None => "high".to_owned(),
    };
    let normalized = lowercase(trim_str(base.as_str()));
    if normalized == "low".to_owned() || normalized == "high".to_owned() {
        Ok(normalized)
    } else {
        Err("unsplash_invalid_params: contentFilter must be low or high".to_owned())
    }
}

/// Trims a photo id and accepts it exactly when what remains is non-empty
/// and free of slashes.
pub fn validate_photo_id(photo_id: &str) -> (r: Result<String, String>)
    ensures
        ({
            let t = trim_seq(photo_id@);
            &&& (r is Ok <==> (t.len() > 0 && forall|i: int| 0 <= i < t.len() ==> t[i] != '/'))
            &&& (r matches Ok(k) ==> k@ == t)
            &&& (r matches Err(m) ==> m@ == (if t.len() == 0 {
                "unsplash_invalid_params: photoId is required"@
            } else {
                "unsplash_invalid_params: photoId is invalid"@
            }))
        }),
{
    let trimmed = trim_str(photo_id);
    let chars = chars_vec(trimmed);
    let n = chars.len();
    if n == 0 {
        return Err("unsplash_invalid_params: photoId is required".to_owned());
    }
    let mut i: usize = 0;
    while i < n
        invariant
            chars@ == trim_seq(photo_id@),
            n == chars@.len(),
            i <= n,
            forall|j: int| 0 <= j < i ==> chars@[j] != '/',
        decreases n - i,
    {
        if chars[i] == '/' {
            return Err("unsplash_invalid_params: photoId is invalid".to_owned());
        }
        i = i + 1;
    }
    Ok(trimmed.to_owned())
}

/// Judges the access key the environment offered: missing or blank keys are
/// refused, anything else is accepted trimmed.
pub fn validate_access_key(value: Option<&str>) -> (r: Result<String, String>)
    ensures
        ({
            let present = value matches Some(v) && trim_seq(v@).len() > 0;
            &&& (r is Ok <==> present)
            &&& (r matches Ok(k) ==> (value matches Some(v) && k@ == trim_seq(v@)))
            &&& (r matches Err(m) ==> m@
                == "unsplash_missing_access_key: set UNSPLASH_ACCESS_KEY"@)
        }),
{
    match value {
        Option::None => Err("unsplash_missing_access_key: set UNSPLASH_ACCESS_KEY".to_owned()),
        Option::Some(v) => {
            let trimmed = trim_str(v);
            if trimmed.is_empty() {
                Err("unsplash_missing_access_key: set UNSPLASH_ACCESS_KEY".to_owned())
            } else {
                Ok(trimmed.to_owned())
            }
        },
    }
}

/// Trims a string to at most `max` characters, marking the cut with an
/// ellipsis; an all-whitespace string truncates to nothing.
pub open spec fn truncate_seq(s: Seq<char>, max: int) -> Seq<char> {
    let t = trim_seq(s);
    if t.len() == 0 {
        Seq::empty()
    } else if t.len() <= max {
        t
    } else {
        t.take(max) + "..."@
    }
}

/// Trims a value and cuts it to at most `max_chars` characters, appending an
/// ellipsis where something was cut.
pub fn truncate(value: &str, max_chars: usize) -> (r: String)
    ensures
        r@ == truncate_seq(value@, max_chars as int),
{
    let trimmed = trim_str(value);
    let chars = chars_vec(trimmed);
    let n = chars.len();
    if n == 0 {
        let r = String::new();
        proof {
            assert(r@ =~= truncate_seq(value@, max_chars as int));
        }
        return r;
    }
    if n <= max_chars {
        proof {
            assert(trim_seq(value@).subrange(0, n as int) =~= trim_seq(value@));
        }
        return trimmed.to_owned();
    }
    let head = trimmed.substring_char(0, max_chars);
    head.to_owned().concat("...")
}

/// The category a response status falls under.
pub open spec fn unsplash_error_category(status: u16) -> Seq<char> {
    if status == 401 {
        "unsplash_auth_failed"@
    } else if status == 403 {
        "unsplash_forbidden"@
    } else if status == 404 {
        "unsplash_not_found"@
    } else if status == 429 {
        "unsplash_rate_limited"@
    } else if 500 <= status && status <= 599 {
        "unsplash_server_error"@
    } else {
        "unsplash_request_failed"@
    }
}

/// The message a failed response is reported with: its category and status,
/// and up to 180 characters of the trimmed body where there is one.
pub open spec fn format_unsplash_error_seq(status: u16, body: Seq<char>) -> Seq<char> {
    let compact = truncate_seq(body, 180);
    let head = unsplash_error_category(status) + ": status "@ + dec_seq(status as int);
    if compact.len() == 0 {
        head
    } else {
        head + " - "@ + compact
    }
}

/// Formats a failed HTTP response: a stable category by status code, the
/// status, and an excerpt of the body.
pub fn format_unsplash_http_error(status: u16, body: &str) -> (r: String)
    ensures
        r@ == format_unsplash_error_seq(status, body@),
{
    let category: &str = if status == 401 {
        "unsplash_auth_failed"
    } else if status == 403 {
        "unsplash_forbidden"
    } else if status == 404 {
        "unsplash_not_found"
    } else if status == 429 {
        "unsplash_rate_limited"
    } else if 500 <= status && status <= 599 {
        "unsplash_server_error"
    } else {
        "unsplash_request_failed"
    };
    let compact = truncate(body, 180);
    let status_dec = dec_string(status as u128);
    let head = category.to_owned().concat(": status ").concat(status_dec.as_str());
    if compact.as_str().is_empty() {
        return head;
    }
    head.concat(" - ").concat(compact.as_str())
}

/// The media type of a content-type header value: everything before the
/// first semicolon (parameters are dropped).
pub open spec fn mime_prefix_end(s: Seq<char>, i: int) -> int
    decreases s.len() - i,
    when 0 <= i <= s.len()
{
    if i == s.len() {
        i
    } else if s[i] == ';' {
        i
    } else {
        mime_prefix_end(s, i + 1)
    }
}

/// The media type an image response is reported with: the content-type
/// header up to its first semicolon, or the JPEG type where the header is
/// absent.
pub open spec fn mime_of_header(header: Option<Seq<char>>) -> Seq<char> {
    match header {
        Option::None => "image/jpeg"@,
        Option::Some(s) => s.take(mime_prefix_end(s, 0)),
    }
}

/// Reads the media type out of a content-type header value, dropping any
/// parameters after a semicolon; defaults to JPEG where no header came.
pub fn mime_from_content_type(header: Option<&str>) -> (r: String)
    ensures
        r@ == mime_of_header(match header {
            Option::Some(h) => Some(h@),
            Option::None => None,
        }),
{
    let h = match header {
        Option::Some(h) => h,
        Option::None => {
            return "image/jpeg".to_owned();
        },
    };
    let chars = chars_vec(h);
    let n = chars.len();
    let mut i: usize = 0;
    while i < n && chars[i] != ';'
        invariant
            chars@ == h@,
            n == h@.len(),
            0 <= i <= n,
            mime_prefix_end(h@, 0) == mime_prefix_end(h@, i as int),
        decreases n - i,
    {
        i = i + 1;
    }
    assert(mime_prefix_end(h@, 0) == i);
    h.substring_char(0, i).to_owned()
}

} // verus!

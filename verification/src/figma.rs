//! Parameter validation and error categorisation for the Figma REST proxy.
//!
//! The network calls themselves live with the host application; everything
//! the calls decide on — which keys and node ids are acceptable, how query
//! values are normalized, when a response is retried and how a failure is
//! categorised — is here, verified.

use vstd::prelude::*;
use vstd::string::StrSliceExecFns;
use vstd::string::StringExecFns;
use crate::text::{
    chars_vec, dec_seq, dec_string, is_ascii_alnum, is_ascii_alnum_char, lower_of, lowercase,
    parse_u64, parse_u64_spec, trim_seq, trim_str,
};

verus! {

/// Arguments of a whole-file fetch.
#[derive(Debug)]
pub struct FigmaFetchFileArgs {
    pub file_key: String,
    pub token: String,
    pub node_ids: Option<Vec<String>>,
    pub depth: Option<u32>,
    pub geometry: Option<String>,
}

/// Arguments of a nodes fetch.
#[derive(Debug)]
pub struct FigmaFetchNodesArgs {
    pub file_key: String,
    pub token: String,
    pub node_ids: Vec<String>,
    pub depth: Option<u32>,
    pub geometry: Option<String>,
}

/// Arguments of a local-variables fetch.
#[derive(Debug)]
pub struct FigmaFetchLocalVariablesArgs {
    pub file_key: String,
    pub token: String,
}

/// A character a file key may hold: ASCII alphanumeric, underscore, hyphen.
pub open spec fn is_file_key_char(c: char) -> bool {
    is_ascii_alnum(c) || c == '_' || c == '-'
}

fn is_file_key_char_exec(c: char) -> (b: bool)
    ensures
        b == is_file_key_char(c),
{
    is_ascii_alnum_char(c) || c == '_' || c == '-'
}

/// A non-empty string of file-key characters.
pub open spec fn valid_file_key(t: Seq<char>) -> bool {
    t.len() > 0 && forall|i: int| 0 <= i < t.len() ==> is_file_key_char(t[i])
}

/// Trims a file key and accepts it exactly when what remains is non-empty
/// and holds only ASCII alphanumerics, underscores and hyphens.
pub fn validate_file_key(file_key: &str) -> (r: Result<String, String>)
    ensures
        r is Ok <==> valid_file_key(trim_seq(file_key@)),
        r matches Ok(k) ==> k@ == trim_seq(file_key@),
        r matches Err(m) ==> m@ == (if trim_seq(file_key@).len() == 0 {
            "figma_invalid_params: fileKey is required"@
        } else {
            "figma_invalid_params: fileKey is invalid"@
        }),
{
    let trimmed = trim_str(file_key);
    let chars = chars_vec(trimmed);
    let n = chars.len();
    if n == 0 {
        return Err("figma_invalid_params: fileKey is required".to_owned());
    }
    let mut i: usize = 0;
    while i < n
        invariant
            chars@ == trim_seq(file_key@),
            n == chars@.len(),
            i <= n,
            forall|j: int| 0 <= j < i ==> is_file_key_char(chars@[j]),
        decreases n - i,
    {
        if !is_file_key_char_exec(chars[i]) {
            return Err("figma_invalid_params: fileKey is invalid".to_owned());
        }
        i = i + 1;
    }
    Ok(trimmed.to_owned())
}

/// Trims a token and accepts it exactly when what remains is non-empty.
pub fn validate_token(token: &str) -> (r: Result<String, String>)
    ensures
        r is Ok <==> trim_seq(token@).len() > 0,
        r matches Ok(k) ==> k@ == trim_seq(token@),
        r matches Err(m) ==> m@ == "figma_invalid_params: token is required"@,
{
    let trimmed = trim_str(token);
    if trimmed.is_empty() {
        return Err("figma_invalid_params: token is required".to_owned());
    }
    Ok(trimmed.to_owned())
}

/// A character a node id may hold: ASCII alphanumeric, colon, hyphen,
/// underscore.
pub open spec fn is_node_id_char(c: char) -> bool {
    is_ascii_alnum(c) || c == ':' || c == '-' || c == '_'
}

fn is_node_id_char_exec(c: char) -> (b: bool)
    ensures
        b == is_node_id_char(c),
{
    is_ascii_alnum_char(c) || c == ':' || c == '-' || c == '_'
}

/// A string of node-id characters (possibly empty; empty ids are dropped,
/// not rejected).
pub open spec fn valid_node_id(t: Seq<char>) -> bool {
    forall|i: int| 0 <= i < t.len() ==> is_node_id_char(t[i])
}

/// The normalization of the node ids from `i` on: each id trimmed, empty
/// ones dropped, or nothing where any id holds a foreign character.
pub open spec fn normalized_node_ids_from(ids: Seq<Seq<char>>, i: int) -> Option<Seq<Seq<char>>>
    decreases ids.len() - i,
    when 0 <= i <= ids.len()
{
    if i == ids.len() {
        Some(Seq::empty())
    } else {
        let t = trim_seq(ids[i]);
        if t.len() == 0 {
            normalized_node_ids_from(ids, i + 1)
        } else if !valid_node_id(t) {
            None
        } else {
            match normalized_node_ids_from(ids, i + 1) {
                Option::None => None,
                Option::Some(rest) => Some(seq![t] + rest),
            }
        }
    }
}

/// The normalized node-id list: each id trimmed, empty ids dropped, order
/// kept; nothing where any id holds a foreign character.
pub open spec fn normalized_node_ids(ids: Seq<Seq<char>>) -> Option<Seq<Seq<char>>> {
    normalized_node_ids_from(ids, 0)
}

/// Trims every node id, drops the empty ones, and accepts the rest exactly
/// when each holds only ASCII alphanumerics, colons, hyphens and
/// underscores.
pub fn normalize_node_ids(node_ids: &Vec<String>) -> (r: Result<Vec<String>, String>)
    ensures
        r is Ok <==> normalized_node_ids(node_ids.deep_view()) is Some,
        r matches Ok(v) ==> Some(v.deep_view()) == normalized_node_ids(node_ids.deep_view()),
        r matches Err(m) ==> m@ == "figma_invalid_params: nodeIds contains an invalid id"@,
{
    let ghost dv = node_ids.deep_view();
    let n = node_ids.len();
    proof {
        assert(dv.len() == n);
    }
    let mut out: Vec<String> = Vec::new();
    let mut i: usize = 0;
    while i < n
        invariant
            dv == node_ids.deep_view(),
            n == dv.len(),
            n == node_ids@.len(),
            i <= n,
            normalized_node_ids(dv) == (match normalized_node_ids_from(dv, i as int) {
                Option::None => None::<Seq<Seq<char>>>,
                Option::Some(rest) => Some(out.deep_view() + rest),
            }),
        decreases n - i,
    {
        proof {
            assert(dv[i as int] == node_ids@[i as int]@);
        }
        let trimmed = trim_str(node_ids[i].as_str());
        let chars = chars_vec(trimmed);
        let m = chars.len();
        if m > 0 {
            let mut j: usize = 0;
            while j < m
                invariant
                    chars@ == trim_seq(dv[i as int]),
                    m == chars@.len(),
                    j <= m,
                    i < n,
                    n == dv.len(),
                    dv == node_ids.deep_view(),
                    forall|k: int| 0 <= k < j ==> is_node_id_char(chars@[k]),
                    normalized_node_ids(dv) == (match normalized_node_ids_from(dv, i as int) {
                        Option::None => None::<Seq<Seq<char>>>,
                        Option::Some(rest) => Some(out.deep_view() + rest),
                    }),
                decreases m - j,
            {
                if !is_node_id_char_exec(chars[j]) {
                    proof {
                        assert(!valid_node_id(trim_seq(dv[i as int])));
                        assert(normalized_node_ids_from(dv, i as int) is None);
                    }
                    return Err("figma_invalid_params: nodeIds contains an invalid id".to_owned());
                }
                j = j + 1;
            }
            let ghost out0 = out.deep_view();
            out.push(trimmed.to_owned());
            proof {
                assert(valid_node_id(trim_seq(dv[i as int])));
                assert(out.deep_view() =~= out0 + seq![trim_seq(dv[i as int])]);
                match normalized_node_ids_from(dv, i as int + 1) {
                    Option::Some(rest) => {
                        assert(out0 + (seq![trim_seq(dv[i as int])] + rest) =~= out.deep_view()
                            + rest);
                    },
                    Option::None => {},
                }
            }
        } else {
            proof {
                assert(normalized_node_ids_from(dv, i as int) == normalized_node_ids_from(
                    dv,
                    i as int + 1,
                ));
            }
        }
        i = i + 1;
    }
    proof {
        assert(normalized_node_ids_from(dv, n as int) == Some(Seq::<Seq<char>>::empty()));
        assert(out.deep_view() + Seq::<Seq<char>>::empty() =~= out.deep_view());
    }
    Ok(out)
}

/// Trims and lowercases a geometry request and accepts exactly nothing, an
/// all-whitespace value (both: no geometry) or the word for path export.
pub fn validate_geometry(geometry: Option<&str>) -> (r: Result<Option<String>, String>)
    ensures
        geometry is None ==> (r matches Ok(g) && g is None),
        geometry matches Some(raw) ==> {
            let lowered = lower_of(trim_seq(raw@));
            &&& (lowered.len() == 0 ==> (r matches Ok(g) && g is None))
            &&& (lowered == "paths"@ ==> (r matches Ok(g) && g matches Some(w) && w@ == "paths"@))
            &&& (lowered.len() > 0 && lowered != "paths"@ ==> (r matches Err(m) && m@
                == "figma_invalid_params: geometry must be \"paths\""@))
        },
{
    match geometry {
        Option::None => Ok(None),
        Option::Some(raw) => {
            proof {
                reveal_strlit("paths");
            }
            let normalized = lowercase(trim_str(raw));
            if normalized.as_str().is_empty() {
                return Ok(None);
            }
            if normalized == "paths".to_owned() {
                Ok(Some(normalized))
            } else {
                Err("figma_invalid_params: geometry must be \"paths\"".to_owned())
            }
        },
    }
}

/// The category a response status falls under.
pub open spec fn error_category(status: u16) -> Seq<char> {
    if status == 401 {
        "figma_auth_failed"@
    } else if status == 403 {
        "figma_forbidden"@
    } else if status == 404 {
        "figma_not_found"@
    } else if status == 429 {
        "figma_rate_limited"@
    } else if 500 <= status && status <= 599 {
        "figma_server_error"@
    } else {
        "figma_request_failed"@
    }
}

/// The message a failed response is reported with: its category and status,
/// and up to 180 characters of the trimmed body where there is one.
pub open spec fn format_error_seq(status: u16, body: Seq<char>) -> Seq<char> {
    let compact = trim_seq(body);
    let head = error_category(status) + ": status "@ + dec_seq(status as int);
    if compact.len() == 0 {
        head
    } else if compact.len() <= 180 {
        head + " - "@ + compact
    } else {
        head + " - "@ + compact.take(180)
    }
}

/// Formats a failed HTTP response: a stable category by status code, the
/// status, and an excerpt of the body.
pub fn format_error(status: u16, body: &str) -> (r: String)
    ensures
        r@ == format_error_seq(status, body@),
{
    let category: &str = if status == 401 {
        "figma_auth_failed"
    } else if status == 403 {
        "figma_forbidden"
    } else if status == 404 {
        "figma_not_found"
    } else if status == 429 {
        "figma_rate_limited"
    } else if 500 <= status && status <= 599 {
        "figma_server_error"
    } else {
        "figma_request_failed"
    };
    let compact = trim_str(body);
    let status_dec = dec_string(status as u128);
    let head = category.to_owned().concat(": status ").concat(status_dec.as_str());
    let compact_chars = chars_vec(compact);
    let n = compact_chars.len();
    if n == 0 {
        return head;
    }
    let cut = if n <= 180 {
        n
    } else {
        180
    };
    let excerpt = compact.substring_char(0, cut);
    proof {
        if n <= 180 {
            assert(trim_seq(body@).subrange(0, n as int) =~= trim_seq(body@));
        }
    }
    head.concat(" - ").concat(excerpt)
}

/// Whether a response at this attempt count calls for another try: the
/// rate-limit status, at most three prior attempts.
pub fn should_retry(status: u16, attempts: u32) -> (r: bool)
    ensures
        r == (status == 429 && attempts < 4),
{
    status == 429 && attempts < 4
}

/// The seconds to wait before a retry: the rate-limit header's value where
/// it parses as a number, one second otherwise, capped at eight.
pub fn retry_delay_secs(retry_after: Option<&str>) -> (r: u64)
    ensures
        ({
            let v: int = match retry_after {
                Option::Some(h) => match parse_u64_spec(h@) {
                    Option::Some(n) => n as int,
                    Option::None => 1,
                },
                Option::None => 1,
            };
            r == if v < 8 {
                v
            } else {
                8
            }
        }),
{
    let v: u64 = match retry_after {
        Option::Some(h) => match parse_u64(h) {
            Option::Some(n) => n,
            Option::None => 1,
        },
        Option::None => 1,
    };
    if v < 8 {
        v
    } else {
        8
    }
}

/// The requested image format once trimmed and lowercased, with the default
/// applied: PNG where nothing (or only whitespace) was asked for.
pub open spec fn requested_format(format: Option<Seq<char>>) -> Seq<char> {
    match format {
        Option::None => "png"@,
        Option::Some(raw) => {
            let lowered = lower_of(trim_seq(raw));
            if lowered.len() == 0 {
                "png"@
            } else {
                lowered
            }
        },
    }
}

/// Normalizes an export format request and accepts exactly the four formats
/// the export endpoint offers.
pub fn normalize_image_format(format: Option<&str>) -> (r: Result<String, String>)
    ensures
        ({
            let f = requested_format(match format {
                Option::Some(raw) => Some(raw@),
                Option::None => None,
            });
            &&& (r is Ok <==> (f == "png"@ || f == "jpg"@ || f == "svg"@ || f == "pdf"@))
            &&& (r matches Ok(v) ==> v@ == f)
            &&& (r matches Err(m) ==> m@
                == "figma_invalid_params: format must be png, jpg, svg, or pdf"@)
        }),
{
    let f: String = match format {
        Option::None => "png".to_owned(),
        Option::Some(raw) => {
            let lowered = lowercase(trim_str(raw));
            if lowered.as_str().is_empty() {
                "png".to_owned()
            } else {
                lowered
            }
        },
    };
    if f == "png".to_owned() || f == "jpg".to_owned() || f == "svg".to_owned() || f
        == "pdf".to_owned() {
        Ok(f)
    } else {
        Err("figma_invalid_params: format must be png, jpg, svg, or pdf".to_owned())
    }
}

} // verus!

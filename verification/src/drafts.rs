//! The draft store's rules: key validation, the stored format's version, and
//! the ordering of draft listings. Reading and writing the files themselves
//! is the host's work.

use vstd::prelude::*;
use vstd::string::StrSliceExecFns;
use vstd::string::StringExecFns;
use vstd::string::StringSliceAdditionalSpecFns;
use crate::text::{dec_seq, dec_string, trim_seq, trim_str};

verus! {

/// The version of the stored draft format this library reads and writes.
pub const DRAFT_VERSION: u8 = 1;

/// What base64's URL-safe, unpadded alphabet makes of these bytes: the form
/// safe inside a file name.
pub uninterp spec fn base64_url_nopad_of(b: Seq<u8>) -> Seq<char>;

/// Relies on `base64::Engine::encode` with the `URL_SAFE_NO_PAD` engine: the
/// URL-safe base64 encoding of the bytes, a function of the bytes alone.
#[verifier::external_body]
fn base64_url_nopad_encode(bytes: &Vec<u8>) -> (r: String)
    ensures
        r@ == base64_url_nopad_of(bytes@),
{
    base64::Engine::encode(&base64::engine::general_purpose::URL_SAFE_NO_PAD, bytes.as_slice())
}

/// The file name a draft key is stored under: the key's bytes encoded
/// URL-safe, then the draft extension.
pub open spec fn draft_file_name_seq(key_bytes: Seq<u8>) -> Seq<char> {
    base64_url_nopad_of(key_bytes) + ".draft.json"@
}

/// Builds the file name a draft key is stored under.
pub fn draft_file_name(key: &str) -> (r: String)
    ensures
        r@ == draft_file_name_seq(key.spec_bytes()),
{
    let bytes = key.as_bytes_vec();
    base64_url_nopad_encode(&bytes).concat(".draft.json")
}

/// Arguments of a draft write.
#[derive(Debug)]
pub struct SaveDraftArgs {
    pub key: String,
    pub path: Option<String>,
    pub content: String,
}

/// Arguments of a draft read or removal.
#[derive(Debug)]
pub struct DraftKeyArgs {
    pub key: String,
}

/// A loaded draft, with the sizes its stored form occupied.
#[derive(Debug)]
pub struct DraftPayload {
    pub key: String,
    pub path: Option<String>,
    pub content: String,
    pub saved_at_ms: u64,
    pub compressed_bytes: usize,
    pub uncompressed_bytes: usize,
}

/// One line of a draft listing.
#[derive(Debug)]
pub struct DraftSummary {
    pub key: String,
    pub path: Option<String>,
    pub saved_at_ms: u64,
}

/// Trims a draft key and accepts it exactly when what remains is non-empty.
pub fn sanitize_key(key: &str) -> (r: Result<String, String>)
    ensures
        r is Ok <==> trim_seq(key@).len() > 0,
        r matches Ok(k) ==> k@ == trim_seq(key@),
        r matches Err(m) ==> m@ == "Draft key cannot be empty"@,
{
    let trimmed = trim_str(key);
    if trimmed.is_empty() {
        return Err("Draft key cannot be empty".to_owned());
    }
    Ok(trimmed.to_owned())
}

/// Accepts exactly the stored format version this library understands;
/// anything else is reported with the version it found.
pub fn check_draft_version(version: u8) -> (r: Result<(), String>)
    ensures
        r is Ok <==> version == DRAFT_VERSION,
        r matches Err(m) ==> m@ == "Unsupported draft version "@ + dec_seq(version as int),
{
    if version == DRAFT_VERSION {
        Ok(())
    } else {
        Err("Unsupported draft version ".to_owned().concat(dec_string(version as u128).as_str()))
    }
}

/// Relies on `std::time::SystemTime`: the milliseconds since the Unix epoch
/// by the system clock, or zero where the clock reads before the epoch.
/// Nothing is promised of the value: the clock may move arbitrarily between
/// calls.
#[verifier::external_body]
pub fn now_ms() -> u64 {
    std::time::SystemTime::now().duration_since(std::time::UNIX_EPOCH).map(
        |d| d.as_millis() as u64,
    ).unwrap_or(0)
}

/// A listing ordered newest first.
pub open spec fn sorted_newest_first(s: Seq<DraftSummary>) -> bool {
    forall|i: int, j: int| 0 <= i < j < s.len() ==> s[i].saved_at_ms >= s[j].saved_at_ms
}

/// Orders a draft listing newest first. The result holds exactly the given
/// summaries.
pub fn sort_draft_summaries(summaries: Vec<DraftSummary>) -> (r: Vec<DraftSummary>)
    ensures
        sorted_newest_first(r@),
        r@.to_multiset() == summaries@.to_multiset(),
{
    let ghost orig = summaries@;
    let mut rest = summaries;
    let mut out: Vec<DraftSummary> = Vec::new();
    proof {
        out@.to_multiset_ensures();
        assert(forall|a: DraftSummary| !out@.contains(a));
        assert(out@.to_multiset().add(rest@.to_multiset()) =~= orig.to_multiset());
    }
    while rest.len() > 0
        invariant
            sorted_newest_first(out@),
            forall|i: int, j: int|
                0 <= i < out@.len() && 0 <= j < rest@.len() ==> out@[i].saved_at_ms
                    >= rest@[j].saved_at_ms,
            out@.to_multiset().add(rest@.to_multiset()) == orig.to_multiset(),
        decreases rest@.len(),
    {
        let n = rest.len();
        let mut best: usize = 0;
        let mut k: usize = 1;
        while k < n
            invariant
                n == rest@.len(),
                best < k <= n || (best == 0 && k <= n),
                best < n,
                forall|j: int| 0 <= j < k ==> rest@[best as int].saved_at_ms >= rest@[j].saved_at_ms,
            decreases n - k,
        {
            if rest[k].saved_at_ms > rest[best].saved_at_ms {
                best = k;
            }
            k = k + 1;
        }
        let ghost rest0 = rest@;
        let ghost out0 = out@;
        let x = rest.remove(best);
        out.push(x);
        proof {
            out0.to_multiset_ensures();
            rest0.to_multiset_ensures();
            assert(rest0.contains(rest0[best as int]));
            assert(rest0.to_multiset().count(rest0[best as int]) > 0);
            assert(out@.to_multiset() =~= out0.to_multiset().insert(x));
            assert(rest@.to_multiset() =~= rest0.to_multiset().remove(rest0[best as int]));
            assert(out@.to_multiset().add(rest@.to_multiset()) =~= orig.to_multiset());
            assert forall|i: int, j: int|
                0 <= i < out@.len() && 0 <= j < rest@.len() implies out@[i].saved_at_ms
                >= rest@[j].saved_at_ms by {
                assert(rest@[j] == (if j < best { rest0[j] } else { rest0[j + 1] }));
            }
        }
    }
    proof {
        rest@.to_multiset_ensures();
        assert(forall|a: DraftSummary| !rest@.contains(a));
        assert(out@.to_multiset() =~= orig.to_multiset());
    }
    out
}

} // verus!

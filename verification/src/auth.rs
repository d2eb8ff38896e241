//! Authentication plumbing rules: secret-store key validation, masking of
//! sensitive environment values for diagnostics, and the deep-link queue the
//! host fills from command-line arguments.

use vstd::prelude::*;
use vstd::string::StrSliceExecFns;
use vstd::string::StringExecFns;
use crate::text::{chars_vec, is_ascii_alnum, is_ascii_alnum_char, trim_seq, trim_str};
use crate::urlinfo::{parse_url_parts, url_parts_of};

verus! {

/// The most deep links the queue holds; older ones fall out first.
pub const AUTH_DEEP_LINK_QUEUE_MAX: usize = 32;

/// Arguments of a secret write.
#[derive(Debug)]
pub struct AuthSecretSetArgs {
    pub key: String,
    pub value: String,
}

/// Arguments of a secret read.
#[derive(Debug)]
pub struct AuthSecretGetArgs {
    pub key: String,
}

/// Arguments of a secret removal.
#[derive(Debug)]
pub struct AuthSecretRemoveArgs {
    pub key: String,
}

/// A character a secret key may hold: ASCII alphanumeric, hyphen,
/// underscore, dot.
pub open spec fn is_secret_key_char(c: char) -> bool {
    is_ascii_alnum(c) || c == '-' || c == '_' || c == '.'
}

fn is_secret_key_char_exec(c: char) -> (b: bool)
    ensures
        b == is_secret_key_char(c),
{
    is_ascii_alnum_char(c) || c == '-' || c == '_' || c == '.'
}

/// A non-empty string of secret-key characters.
pub open spec fn valid_secret_key(t: Seq<char>) -> bool {
    t.len() > 0 && forall|i: int| 0 <= i < t.len() ==> is_secret_key_char(t[i])
}

/// Trims a secret-store key and accepts it exactly when what remains is
/// non-empty and holds only ASCII alphanumerics, hyphens, underscores and
/// dots — the characters safe in a file name.
pub fn normalize_auth_secret_key(key: &str) -> (r: Result<String, String>)
    ensures
        r is Ok <==> valid_secret_key(trim_seq(key@)),
        r matches Ok(k) ==> k@ == trim_seq(key@),
        r matches Err(m) ==> m@ == (if trim_seq(key@).len() == 0 {
            "auth_invalid_key: key is required"@
        } else {
            "auth_invalid_key: unsupported characters in key"@
        }),
{
    let trimmed = trim_str(key);
    let chars = chars_vec(trimmed);
    let n = chars.len();
    if n == 0 {
        return Err("auth_invalid_key: key is required".to_owned());
    }
    let mut i: usize = 0;
    while i < n
        invariant
            chars@ == trim_seq(key@),
            n == chars@.len(),
            i <= n,
            forall|j: int| 0 <= j < i ==> is_secret_key_char(chars@[j]),
        decreases n - i,
    {
        if !is_secret_key_char_exec(chars[i]) {
            return Err("auth_invalid_key: unsupported characters in key".to_owned());
        }
        i = i + 1;
    }
    Ok(trimmed.to_owned())
}

/// The diagnostic form of a sensitive value: a placeholder for an empty one,
/// stars for a short one, and the first three and last two characters around
/// stars for anything longer.
pub open spec fn masked_env_seq(s: Seq<char>) -> Seq<char> {
    if s.len() == 0 {
        "(empty)"@
    } else if s.len() <= 6 {
        "***"@
    } else {
        s.take(3) + "***"@ + s.skip(s.len() - 2)
    }
}

/// Masks a sensitive environment value for diagnostics, keeping at most the
/// first three and last two characters.
pub fn mask_env_value(value: &str) -> (r: String)
    ensures
        r@ == masked_env_seq(value@),
{
    let chars = chars_vec(value);
    let n = chars.len();
    if n == 0 {
        return "(empty)".to_owned();
    }
    if n <= 6 {
        return "***".to_owned();
    }
    let prefix = value.substring_char(0, 3);
    let suffix = value.substring_char(n - 2, n);
    proof {
        assert(value@.subrange(n - 2, n as int) =~= value@.skip(n - 2));
    }
    prefix.to_owned().concat("***").concat(suffix)
}

/// Whether two characters are the same letter up to ASCII case.
pub open spec fn ascii_case_eq(x: char, y: char) -> bool {
    ||| x == y
    ||| (0x41 <= x as u32 <= 0x5A && y as u32 == x as u32 + 0x20)
    ||| (0x41 <= y as u32 <= 0x5A && x as u32 == y as u32 + 0x20)
}

/// Whether two strings agree character for character up to ASCII case.
pub open spec fn eq_ignore_ascii_case_seq(a: Seq<char>, b: Seq<char>) -> bool {
    a.len() == b.len() && forall|i: int| 0 <= i < a.len() ==> ascii_case_eq(a[i], b[i])
}

fn ascii_case_eq_exec(x: char, y: char) -> (b: bool)
    ensures
        b == ascii_case_eq(x, y),
{
    let xu = x as u32;
    let yu = y as u32;
    xu == yu || (0x41 <= xu && xu <= 0x5A && yu == xu + 0x20) || (0x41 <= yu && yu <= 0x5A && xu
        == yu + 0x20)
}

fn chars_eq_ignore_ascii_case(a: &Vec<char>, b: &Vec<char>) -> (r: bool)
    ensures
        r == eq_ignore_ascii_case_seq(a@, b@),
{
    let n = a.len();
    if n != b.len() {
        return false;
    }
    let mut i: usize = 0;
    while i < n
        invariant
            n == a@.len(),
            n == b@.len(),
            i <= n,
            forall|j: int| 0 <= j < i ==> ascii_case_eq(a@[j], b@[j]),
        decreases n - i,
    {
        if !ascii_case_eq_exec(a[i], b[i]) {
            return false;
        }
        i = i + 1;
    }
    true
}

/// Whether a command-line argument is an authentication deep link: once
/// trimmed it is non-empty, parses as a URL, and carries the application's
/// own scheme (compared without regard to ASCII case).
pub open spec fn is_auth_deep_link(s: Seq<char>) -> bool {
    let t = trim_seq(s);
    t.len() > 0 && match url_parts_of(t) {
        Option::Some((scheme, host)) => eq_ignore_ascii_case_seq(scheme, "galileo"@),
        Option::None => false,
    }
}

/// The trimmed deep links among the arguments from `i` on, in order.
pub open spec fn deep_links_from(args: Seq<Seq<char>>, i: int) -> Seq<Seq<char>>
    decreases args.len() - i,
    when 0 <= i <= args.len()
{
    if i == args.len() {
        Seq::empty()
    } else if is_auth_deep_link(args[i]) {
        seq![trim_seq(args[i])] + deep_links_from(args, i + 1)
    } else {
        deep_links_from(args, i + 1)
    }
}

/// Collects the authentication deep links among command-line arguments:
/// every argument that, trimmed, parses as a URL with the application's
/// scheme, in order, trimmed.
pub fn collect_auth_deep_links_from_args(args: &Vec<String>) -> (r: Vec<String>)
    ensures
        r.deep_view() == deep_links_from(args.deep_view(), 0),
{
    let ghost dv = args.deep_view();
    let n = args.len();
    proof {
        assert(dv.len() == n);
    }
    let scheme_expected = chars_vec("galileo");
    let mut out: Vec<String> = Vec::new();
    let mut i: usize = 0;
    while i < n
        invariant
            dv == args.deep_view(),
            n == dv.len(),
            n == args@.len(),
            i <= n,
            scheme_expected@ == "galileo"@,
            deep_links_from(dv, 0) == out.deep_view() + deep_links_from(dv, i as int),
        decreases n - i,
    {
        proof {
            assert(dv[i as int] == args@[i as int]@);
        }
        let trimmed = trim_str(args[i].as_str());
        let mut keep = false;
        if !trimmed.is_empty() {
            match parse_url_parts(trimmed) {
                Option::Some(p) => {
                    let scheme_chars = chars_vec(p.scheme.as_str());
                    keep = chars_eq_ignore_ascii_case(&scheme_chars, &scheme_expected);
                },
                Option::None => {},
            }
        }
        if keep {
            let ghost out0 = out.deep_view();
            out.push(trimmed.to_owned());
            proof {
                assert(out.deep_view() =~= out0 + seq![trim_seq(dv[i as int])]);
                assert(out0 + (seq![trim_seq(dv[i as int])] + deep_links_from(dv, i as int + 1))
                    =~= out.deep_view() + deep_links_from(dv, i as int + 1));
            }
        }
        i = i + 1;
    }
    proof {
        assert(out.deep_view() + Seq::<Seq<char>>::empty() =~= out.deep_view());
    }
    out
}

/// Whether the queue already holds this link.
pub open spec fn queue_contains(q: Seq<Seq<char>>, s: Seq<char>) -> bool {
    exists|i: int| 0 <= i < q.len() && q[i] == s
}

/// One link joined to the queue: dropped where it is already queued, else
/// appended, with the oldest entries falling out above the cap.
pub open spec fn queue_push_one(q: Seq<Seq<char>>, u: Seq<char>) -> Seq<Seq<char>> {
    if queue_contains(q, u) {
        q
    } else if q.len() + 1 > AUTH_DEEP_LINK_QUEUE_MAX {
        q.push(u).skip(q.len() + 1 - AUTH_DEEP_LINK_QUEUE_MAX)
    } else {
        q.push(u)
    }
}

/// Every link joined to the queue, first to last.
pub open spec fn queue_push_all(q: Seq<Seq<char>>, urls: Seq<Seq<char>>, i: int) -> Seq<Seq<char>>
    decreases urls.len() - i,
    when 0 <= i <= urls.len()
{
    if i == urls.len() {
        q
    } else {
        queue_push_all(queue_push_one(q, urls[i]), urls, i + 1)
    }
}

fn queue_holds(queue: &Vec<String>, url: &String) -> (r: bool)
    ensures
        r == queue_contains(queue.deep_view(), url@),
{
    let n = queue.len();
    proof {
        assert(queue.deep_view().len() == n);
    }
    let mut i: usize = 0;
    while i < n
        invariant
            n == queue@.len(),
            n == queue.deep_view().len(),
            i <= n,
            forall|j: int| 0 <= j < i ==> queue.deep_view()[j] != url@,
        decreases n - i,
    {
        proof {
            assert(queue.deep_view()[i as int] == queue@[i as int]@);
        }
        if queue[i] == *url {
            return true;
        }
        i = i + 1;
    }
    false
}

/// Joins freshly seen deep links to the pending queue: a link already queued
/// is dropped, new ones are appended in order, and the oldest entries fall
/// out once the queue grows past its cap.
pub fn push_auth_deep_link_queue(queue: &mut Vec<String>, urls: &Vec<String>)
    ensures
        final(queue).deep_view() == queue_push_all(old(queue).deep_view(), urls.deep_view(), 0),
{
    let ghost q0 = queue.deep_view();
    let ghost udv = urls.deep_view();
    let n = urls.len();
    proof {
        assert(udv.len() == n);
    }
    let mut i: usize = 0;
    while i < n
        invariant
            udv == urls.deep_view(),
            n == udv.len(),
            n == urls@.len(),
            i <= n,
            queue_push_all(q0, udv, 0) == queue_push_all(queue.deep_view(), udv, i as int),
        decreases n - i,
    {
        proof {
            assert(udv[i as int] == urls@[i as int]@);
        }
        let url = &urls[i];
        if !queue_holds(queue, url) {
            let ghost qb = queue.deep_view();
            queue.push(url.clone());
            proof {
                assert(queue.deep_view() =~= qb.push(udv[i as int]));
            }
            while queue.len() > AUTH_DEEP_LINK_QUEUE_MAX
                invariant
                    queue.deep_view().len() == queue@.len(),
                    qb.push(udv[i as int]).len() >= queue.deep_view().len(),
                    qb.push(udv[i as int]).len() > AUTH_DEEP_LINK_QUEUE_MAX
                        ==> queue.deep_view().len() >= AUTH_DEEP_LINK_QUEUE_MAX,
                    qb.push(udv[i as int]).len() <= AUTH_DEEP_LINK_QUEUE_MAX
                        ==> queue.deep_view().len() == qb.push(udv[i as int]).len(),
                    queue.deep_view() == qb.push(udv[i as int]).skip(
                        qb.push(udv[i as int]).len() - queue.deep_view().len(),
                    ),
                decreases queue@.len(),
            {
                let ghost qc = queue.deep_view();
                let _ = queue.remove(0);
                proof {
                    assert(queue.deep_view() =~= qc.skip(1));
                    let pushed = qb.push(udv[i as int]);
                    assert(pushed.skip(pushed.len() - qc.len()).skip(1) =~= pushed.skip(
                        pushed.len() - qc.len() + 1,
                    ));
                }
            }
            proof {
                let pushed = qb.push(udv[i as int]);
                if pushed.len() > AUTH_DEEP_LINK_QUEUE_MAX {
                    assert(queue.deep_view().len() == AUTH_DEEP_LINK_QUEUE_MAX);
                    assert(queue.deep_view() == queue_push_one(qb, udv[i as int]));
                } else {
                    assert(pushed.skip(0) =~= pushed);
                    assert(queue.deep_view() == queue_push_one(qb, udv[i as int]));
                }
            }
        }
        i = i + 1;
    }
}

} // verus!

//! Normalization of a font-family listing: names trimmed, blank entries
//! dropped, the rest ordered lexicographically with duplicates removed.
//! Enumerating the families is the host platform's work.

use vstd::prelude::*;
use crate::text::{chars_vec, trim_seq, trim_str};

verus! {

/// Lexicographic comparison by character code points, from position `i`:
/// whether `a` comes no later than `b`.
pub open spec fn chars_le_from(a: Seq<char>, b: Seq<char>, i: int) -> bool
    decreases a.len() - i,
    when 0 <= i <= a.len()
{
    if i >= a.len() {
        true
    } else if i >= b.len() {
        false
    } else if (a[i] as u32) < (b[i] as u32) {
        true
    } else if (b[i] as u32) < (a[i] as u32) {
        false
    } else {
        chars_le_from(a, b, i + 1)
    }
}

/// Whether `a` comes no later than `b` in lexicographic order.
pub open spec fn chars_le(a: Seq<char>, b: Seq<char>) -> bool {
    chars_le_from(a, b, 0)
}

/// One of two strings always comes no later than the other.
proof fn lemma_chars_le_total_from(a: Seq<char>, b: Seq<char>, i: int)
    requires
        0 <= i <= a.len(),
        i <= b.len(),
    ensures
        chars_le_from(a, b, i) || chars_le_from(b, a, i),
    decreases a.len() - i,
{
    if i < a.len() && i < b.len() && a[i] as u32 == b[i] as u32 {
        lemma_chars_le_total_from(a, b, i + 1);
    }
}

pub proof fn lemma_chars_le_total(a: Seq<char>, b: Seq<char>)
    ensures
        chars_le(a, b) || chars_le(b, a),
{
    lemma_chars_le_total_from(a, b, 0);
}

/// The order is transitive.
proof fn lemma_chars_le_trans_from(a: Seq<char>, b: Seq<char>, c: Seq<char>, i: int)
    requires
        0 <= i <= a.len(),
        i <= b.len(),
        i <= c.len(),
        chars_le_from(a, b, i),
        chars_le_from(b, c, i),
    ensures
        chars_le_from(a, c, i),
    decreases a.len() - i,
{
    if i < a.len() {
        if i < b.len() && i < c.len() && a[i] as u32 == b[i] as u32 && b[i] as u32 == c[i] as u32 {
            lemma_chars_le_trans_from(a, b, c, i + 1);
        }
    }
}

pub proof fn lemma_chars_le_trans(a: Seq<char>, b: Seq<char>, c: Seq<char>)
    requires
        chars_le(a, b),
        chars_le(b, c),
    ensures
        chars_le(a, c),
{
    lemma_chars_le_trans_from(a, b, c, 0);
}

/// Decides the lexicographic order on two character vectors.
fn chars_le_exec(a: &Vec<char>, b: &Vec<char>) -> (r: bool)
    ensures
        r == chars_le(a@, b@),
{
    let na = a.len();
    let nb = b.len();
    let mut i: usize = 0;
    while i < na && i < nb && a[i] as u32 == b[i] as u32
        invariant
            na == a@.len(),
            nb == b@.len(),
            0 <= i <= na,
            i <= nb,
            chars_le_from(a@, b@, 0) == chars_le_from(a@, b@, i as int),
        decreases na - i,
    {
        i = i + 1;
    }
    if i >= na {
        true
    } else if i >= nb {
        false
    } else {
        (a[i] as u32) < (b[i] as u32)
    }
}

/// Decides the order on two font names.
fn font_le(a: &String, b: &String) -> (r: bool)
    ensures
        r == chars_le(a@, b@),
{
    let ca = chars_vec(a.as_str());
    let cb = chars_vec(b.as_str());
    chars_le_exec(&ca, &cb)
}

/// The trimmed, non-blank names among the listing from `i` on, in order.
pub open spec fn kept_fonts(families: Seq<Seq<char>>, i: int) -> Seq<Seq<char>>
    decreases families.len() - i,
    when 0 <= i <= families.len()
{
    if i == families.len() {
        Seq::empty()
    } else if trim_seq(families[i]).len() > 0 {
        seq![trim_seq(families[i])] + kept_fonts(families, i + 1)
    } else {
        kept_fonts(families, i + 1)
    }
}

/// A listing in lexicographic order.
pub open spec fn fonts_sorted(s: Seq<Seq<char>>) -> bool {
    forall|i: int, j: int| 0 <= i < j < s.len() ==> chars_le(s[i], s[j])
}

/// Normalizes a raw font-family listing: every name trimmed, blank names
/// dropped, the rest in lexicographic order with exact repetitions removed.
/// The result holds a name exactly when some listing entry trims to it.
pub fn normalize_font_list(families: Vec<String>) -> (r: Vec<String>)
    ensures
        fonts_sorted(r.deep_view()),
        forall|k: int|
            0 <= k < r.deep_view().len() - 1 ==> #[trigger] r.deep_view()[k] != r.deep_view()[k
                + 1],
        forall|x: Seq<char>|
            r.deep_view().contains(x) <==> kept_fonts(families.deep_view(), 0).contains(x),
{
    let ghost fdv = families.deep_view();
    let n = families.len();
    proof {
        assert(fdv.len() == n);
    }

    // Trim every name and drop the blank ones.
    let mut kept: Vec<String> = Vec::new();
    let mut i: usize = 0;
    while i < n
        invariant
            fdv == families.deep_view(),
            n == fdv.len(),
            n == families@.len(),
            i <= n,
            kept_fonts(fdv, 0) == kept.deep_view() + kept_fonts(fdv, i as int),
        decreases n - i,
    {
        proof {
            assert(fdv[i as int] == families@[i as int]@);
        }
        let trimmed = trim_str(families[i].as_str());
        if !trimmed.is_empty() {
            let ghost kept0 = kept.deep_view();
            kept.push(trimmed.to_owned());
            proof {
                assert(kept.deep_view() =~= kept0 + seq![trim_seq(fdv[i as int])]);
                assert(kept0 + (seq![trim_seq(fdv[i as int])] + kept_fonts(fdv, i as int + 1))
                    =~= kept.deep_view() + kept_fonts(fdv, i as int + 1));
            }
        }
        i = i + 1;
    }
    proof {
        assert(kept.deep_view() + Seq::<Seq<char>>::empty() =~= kept.deep_view());
    }
    let ghost keptdv = kept.deep_view();

    // Order the kept names, smallest first.
    let mut rest = kept;
    let mut sorted: Vec<String> = Vec::new();
    proof {
        sorted.deep_view().to_multiset_ensures();
        assert(forall|a: Seq<char>| !sorted.deep_view().contains(a));
        assert(sorted.deep_view().to_multiset().add(rest.deep_view().to_multiset())
            =~= keptdv.to_multiset());
    }
    while rest.len() > 0
        invariant
            fonts_sorted(sorted.deep_view()),
            forall|a: int, b: int|
                0 <= a < sorted.deep_view().len() && 0 <= b < rest.deep_view().len()
                    ==> chars_le(sorted.deep_view()[a], rest.deep_view()[b]),
            sorted.deep_view().to_multiset().add(rest.deep_view().to_multiset())
                == keptdv.to_multiset(),
            rest.deep_view().len() == rest@.len(),
        decreases rest@.len(),
    {
        let m = rest.len();
        proof {
            lemma_chars_le_total(rest.deep_view()[0], rest.deep_view()[0]);
        }
        let mut best: usize = 0;
        let mut k: usize = 1;
        while k < m
            invariant
                m == rest@.len(),
                m == rest.deep_view().len(),
                best < m,
                k <= m,
                forall|j: int|
                    0 <= j < k ==> chars_le(rest.deep_view()[best as int], rest.deep_view()[j]),
            decreases m - k,
        {
            proof {
                assert(rest.deep_view()[k as int] == rest@[k as int]@);
                assert(rest.deep_view()[best as int] == rest@[best as int]@);
            }
            if !font_le(&rest[best], &rest[k]) {
                proof {
                    lemma_chars_le_total(rest.deep_view()[best as int], rest.deep_view()[k as int]);
                    assert forall|j: int| 0 <= j < k + 1 implies chars_le(
                        rest.deep_view()[k as int],
                        rest.deep_view()[j],
                    ) by {
                        if j < k {
                            lemma_chars_le_trans(
                                rest.deep_view()[k as int],
                                rest.deep_view()[best as int],
                                rest.deep_view()[j],
                            );
                        } else {
                            lemma_chars_le_total(
                                rest.deep_view()[k as int],
                                rest.deep_view()[k as int],
                            );
                        }
                    }
                }
                best = k;
            }
            k = k + 1;
        }
        let ghost rest0 = rest.deep_view();
        let ghost sorted0 = sorted.deep_view();
        let x = rest.remove(best);
        sorted.push(x);
        proof {
            sorted0.to_multiset_ensures();
            rest0.to_multiset_ensures();
            assert(sorted.deep_view() =~= sorted0.push(rest0[best as int]));
            assert(rest.deep_view() =~= rest0.remove(best as int));
            assert(rest0.contains(rest0[best as int]));
            assert(rest0.to_multiset().count(rest0[best as int]) > 0);
            assert(sorted.deep_view().to_multiset() =~= sorted0.to_multiset().insert(
                rest0[best as int],
            ));
            assert(rest.deep_view().to_multiset() =~= rest0.to_multiset().remove(
                rest0[best as int],
            ));
            assert(sorted.deep_view().to_multiset().add(rest.deep_view().to_multiset())
                =~= keptdv.to_multiset());
            assert forall|a: int, b: int|
                0 <= a < sorted.deep_view().len() && 0 <= b < rest.deep_view().len() implies chars_le(
                sorted.deep_view()[a],
                rest.deep_view()[b],
            ) by {
                assert(rest.deep_view()[b] == (if b < best {
                    rest0[b]
                } else {
                    rest0[b + 1]
                }));
            }
        }
    }
    proof {
        rest.deep_view().to_multiset_ensures();
        keptdv.to_multiset_ensures();
        sorted.deep_view().to_multiset_ensures();
        assert(forall|a: Seq<char>| !rest.deep_view().contains(a));
        assert(sorted.deep_view().to_multiset() =~= keptdv.to_multiset());
        assert forall|x: Seq<char>| sorted.deep_view().contains(x) <==> keptdv.contains(x) by {
            assert(sorted.deep_view().to_multiset().count(x) == keptdv.to_multiset().count(x));
        }
    }
    let ghost sorteddv = sorted.deep_view();

    // Drop exact repetitions; the order makes them adjacent.
    let sn = sorted.len();
    let mut out: Vec<String> = Vec::new();
    let mut j: usize = 0;
    while j < sn
        invariant
            sorteddv == sorted.deep_view(),
            sn == sorteddv.len(),
            sn == sorted@.len(),
            j <= sn,
            fonts_sorted(sorteddv),
            fonts_sorted(out.deep_view()),
            forall|k: int|
                0 <= k < out.deep_view().len() - 1 ==> #[trigger] out.deep_view()[k]
                    != out.deep_view()[k + 1],
            forall|a: int, b: int|
                0 <= a < out.deep_view().len() && j <= b < sn ==> chars_le(
                    out.deep_view()[a],
                    sorteddv[b],
                ),
            forall|k: int| 0 <= k < j ==> out.deep_view().contains(sorteddv[k]),
            forall|x: Seq<char>| out.deep_view().contains(x) ==> sorteddv.contains(x),
            out.deep_view().len() > 0 ==> (j > 0 && out.deep_view().last() == sorteddv[j - 1]),
        decreases sn - j,
    {
        proof {
            assert(sorted.deep_view()[j as int] == sorted@[j as int]@);
        }
        let is_new = if out.len() == 0 {
            true
        } else {
            proof {
                assert(out.deep_view()[out@.len() - 1] == out@[out@.len() - 1]@);
            }
            !(out[out.len() - 1] == sorted[j])
        };
        if is_new {
            let ghost out0 = out.deep_view();
            let name = sorted[j].clone();
            proof {
                assert(name@ == sorteddv[j as int]);
            }
            out.push(name);
            proof {
                assert(out.deep_view() =~= out0.push(sorteddv[j as int]));
                assert forall|k2: int| 0 <= k2 < j + 1 implies out.deep_view().contains(
                    sorteddv[k2],
                ) by {
                    if k2 < j {
                        let w = choose|w: int| 0 <= w < out0.len() && out0[w] == sorteddv[k2];
                        assert(out.deep_view()[w] == sorteddv[k2]);
                    } else {
                        assert(out.deep_view()[out0.len() as int] == sorteddv[j as int]);
                    }
                }
            }
        } else {
            proof {
                assert(out.deep_view()[out@.len() - 1] == sorteddv[j as int]);
                assert(out.deep_view().contains(sorteddv[j as int]));
            }
        }
        j = j + 1;
    }
    proof {
        assert forall|x: Seq<char>| out.deep_view().contains(x) <==> keptdv.contains(x) by {
            if out.deep_view().contains(x) {
                assert(sorteddv.contains(x));
            }
            if keptdv.contains(x) {
                assert(sorteddv.contains(x));
                let k = choose|k: int| 0 <= k < sorteddv.len() && sorteddv[k] == x;
                assert(out.deep_view().contains(sorteddv[k]));
            }
        }
    }
    out
}

} // verus!

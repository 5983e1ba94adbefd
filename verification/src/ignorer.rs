//! Matching a path against a wildcard pattern, the way ignore files do:
//! over grapheme clusters, `?` matches one cluster that is not a
//! separator, `*` any run of clusters without a separator, a doubled star
//! any run at all, and a backslash makes the next cluster literal.

use vstd::prelude::*;

pub mod error;

use crate::ignorer::error::IgnoreError;
use unicode_segmentation::UnicodeSegmentation;

verus! {

/// What segmenting a string into extended grapheme clusters yields: a
/// function of the characters alone.
pub uninterp spec fn grapheme_clusters(s: Seq<char>) -> Seq<Seq<char>>;

/// The cluster values of a pattern or text.
pub open spec fn cluster_views(v: Seq<&str>) -> Seq<Seq<char>> {
    v.map_values(|s: &str| s@)
}

/// Relies on `unicode_segmentation::UnicodeSegmentation::graphemes` with
/// extended clusters: the clusters are consecutive non-empty pieces of the
/// string, together making it up again, and depend on its characters
/// alone.
#[verifier::external_body]
fn graphemes_of<'a>(s: &'a str) -> (r: Vec<&'a str>)
    ensures
        cluster_views(r@) == grapheme_clusters(s@),
        cluster_views(r@).flatten() == s@,
        forall|i: int| 0 <= i < r@.len() ==> (#[trigger] r@[i])@.len() > 0,
{
    UnicodeSegmentation::graphemes(s, true).collect()
}

/// Matches a path against a wildcard pattern, both read as grapheme
/// clusters.
pub fn do_wild(pattern: &String, text: &String) -> (r: bool)
    ensures
        r == wild_matches(grapheme_clusters(pattern@), grapheme_clusters(text@), 0, 0),
{
    let pattern_clusters = graphemes_of(pattern.as_str());
    let text_clusters = graphemes_of(text.as_str());
    match do_wild_vec(&pattern_clusters, &text_clusters, 0, 0) {
        Ok(b) => b,
        Err(_) => false,
    }
}

/// Whether the pattern from position `pi` matches the text from position
/// `ti`.
///
/// A backslash makes the following cluster literal; `?` consumes one
/// cluster that is not the separator; a run of stars consumes any run of
/// clusters, the separator excluded unless the star run is two or more
/// stars long; any other cluster stands for itself.
pub open spec fn wild_matches(pattern: Seq<Seq<char>>, text: Seq<Seq<char>>, pi: int, ti: int) -> bool
    decreases pattern.len() - pi, 0nat, 0nat,
    when 0 <= pi <= pattern.len() && 0 <= ti <= text.len()
{
    if pi == pattern.len() {
        ti == text.len()
    } else if pattern[pi] == "\\"@ {
        &&& pi + 1 < pattern.len()
        &&& ti < text.len()
        &&& text[ti] == pattern[pi + 1]
        &&& wild_matches(pattern, text, pi + 2, ti + 1)
    } else if pattern[pi] == "?"@ {
        &&& ti < text.len()
        &&& text[ti] != "/"@
        &&& wild_matches(pattern, text, pi + 1, ti + 1)
    } else if pattern[pi] == "*"@ {
        // The scan past the star run always lands beyond `pi`; it is
        // clamped here so that the recursion visibly advances.
        let j0 = star_run_end(pattern, pi);
        let j = if pi + 1 <= j0 <= pattern.len() {
            j0
        } else {
            pi + 1
        };
        star_scan(pattern, text, j, ti, ti, j - pi >= 2)
    } else {
        &&& ti < text.len()
        &&& text[ti] == pattern[pi]
        &&& wild_matches(pattern, text, pi + 1, ti + 1)
    }
}

/// Whether the star run, which swallowed the text from `ti` up to `k` so
/// far, can go on to a split that lets the rest of the pattern match: the
/// shortest swallow wins, the run stops at a separator unless it crosses
/// directories, and the text can run out.
pub open spec fn star_scan(
    pattern: Seq<Seq<char>>,
    text: Seq<Seq<char>>,
    j: int,
    ti: int,
    k: int,
    crosses: bool,
) -> bool
    decreases pattern.len() - j, 1nat, text.len() - k,
    when 0 <= j <= pattern.len() && 0 <= ti <= k <= text.len()
{
    if wild_matches(pattern, text, j, k) {
        true
    } else if k == text.len() {
        false
    } else if !crosses && text[k] == "/"@ {
        false
    } else {
        star_scan(pattern, text, j, ti, k + 1, crosses)
    }
}

/// The position of the first cluster at or after `i` that is not a star;
/// `pattern.len()` if there is none.
pub open spec fn star_run_end(pattern: Seq<Seq<char>>, i: int) -> int
    decreases pattern.len() - i, 0nat, 0nat,
    when 0 <= i <= pattern.len()
{
    if i == pattern.len() {
        i
    } else if pattern[i] == "*"@ {
        star_run_end(pattern, i + 1)
    } else {
        i
    }
}

/// No separator cluster stands in `text` between `from` and `to`.
pub open spec fn no_separator(text: Seq<Seq<char>>, from: int, to: int) -> bool {
    forall|m: int| from <= m < to ==> (#[trigger] text[m]) != "/"@
}

proof fn lemma_star_run_end(pattern: Seq<Seq<char>>, i: int)
    requires
        0 <= i <= pattern.len(),
    ensures
        i <= star_run_end(pattern, i) <= pattern.len(),
        i < pattern.len() && pattern[i] == "*"@ ==> star_run_end(pattern, i) > i,
    decreases pattern.len() - i,
{
    if i < pattern.len() && pattern[i] == "*"@ {
        lemma_star_run_end(pattern, i + 1);
    }
}

/// Whether one grapheme cluster equals a one-character literal.
fn cluster_is(c: &str, lit: char) -> (r: bool)
    ensures
        r == (c@ == seq![lit]),
{
    let n = c.unicode_len();
    if n != 1 {
        proof {
            assert(c@ != seq![lit]) by {
                assert(seq![lit].len() == 1);
            }
        }
        return false;
    }
    let r = c.get_char(0) == lit;
    proof {
        if r {
            assert(c@ =~= seq![lit]);
        } else {
            assert(c@ != seq![lit]) by {
                assert(seq![lit][0] == lit);
            }
        }
    }
    r
}

/// Whether two grapheme clusters are equal.
fn cluster_eq(a: &str, b: &str) -> (r: bool)
    ensures
        r == (a@ == b@),
{
    let owned: String = a.to_owned();
    crate::helper::text::string_eq_str(&owned, b)
}

/// Matches the pattern from `initial_pattern_index` against the text from
/// `initial_text_index`, cluster by cluster, with the wildcard meanings
/// the specification gives. Every input is answered.
pub fn do_wild_vec(
    pattern: &Vec<&str>,
    text: &Vec<&str>,
    initial_pattern_index: usize,
    initial_text_index: usize,
) -> (r: Result<bool, IgnoreError>)
    requires
        initial_pattern_index <= pattern@.len(),
        initial_text_index <= text@.len(),
    ensures
        r matches Ok(b) && b == wild_matches(
            cluster_views(pattern@),
            cluster_views(text@),
            initial_pattern_index as int,
            initial_text_index as int,
        ),
    decreases pattern@.len() - initial_pattern_index, text@.len() - initial_text_index,
{
    let ghost pv = cluster_views(pattern@);
    let ghost tv = cluster_views(text@);
    let pattern_index = initial_pattern_index;
    let text_index = initial_text_index;
    let plen = pattern.len();
    let tlen = text.len();
    proof {
        reveal_strlit("\\");
        reveal_strlit("?");
        reveal_strlit("*");
        reveal_strlit("/");
        assert("\\"@ =~= seq!['\\']);
        assert("?"@ =~= seq!['?']);
        assert("*"@ =~= seq!['*']);
        assert("/"@ =~= seq!['/']);
    }
    if pattern_index == plen {
        return Ok(text_index == tlen);
    }
    let head = pattern[pattern_index];
    if cluster_is(head, '\\') {
        if pattern_index + 1 < plen && text_index < tlen && cluster_eq(
            text[text_index],
            pattern[pattern_index + 1],
        ) {
            let inner = do_wild_vec(pattern, text, pattern_index + 2, text_index + 1);
            return inner;
        }
        return Ok(false);
    }
    if cluster_is(head, '?') {
        if text_index < tlen && !cluster_is(text[text_index], '/') {
            let inner = do_wild_vec(pattern, text, pattern_index + 1, text_index + 1);
            return inner;
        }
        return Ok(false);
    }
    if cluster_is(head, '*') {
        let mut j = pattern_index;
        while j < plen && cluster_is(pattern[j], '*')
            invariant
                initial_pattern_index <= pattern_index <= j <= plen,
                plen == pattern@.len(),
                pv == cluster_views(pattern@),
                "*"@ == seq!['*'],
                star_run_end(pv, pattern_index as int) == star_run_end(pv, j as int),
            decreases plen - j,
        {
            j = j + 1;
        }
        proof {
            assert(star_run_end(pv, j as int) == j as int);
            lemma_star_run_end(pv, pattern_index as int);
        }
        let crosses = j - pattern_index >= 2;
        let mut k = text_index;
        proof {
            assert(pv[pattern_index as int] == "*"@);
            assert(pv[pattern_index as int] != "\\"@);
            assert(pv[pattern_index as int] != "?"@);
            assert(wild_matches(pv, tv, pattern_index as int, text_index as int) == star_scan(
                pv,
                tv,
                j as int,
                text_index as int,
                text_index as int,
                crosses,
            ));
        }
        loop
            invariant
                pattern_index == initial_pattern_index,
                text_index == initial_text_index,
                initial_pattern_index <= pattern_index < j <= plen,
                plen == pattern@.len(),
                tlen == text@.len(),
                initial_text_index <= text_index <= k <= tlen,
                pv == cluster_views(pattern@),
                tv == cluster_views(text@),
                star_run_end(pv, pattern_index as int) == j as int,
                pv[pattern_index as int] == "*"@,
                "/"@ == seq!['/'],
                crosses == (j - pattern_index >= 2),
                wild_matches(pv, tv, pattern_index as int, text_index as int) == star_scan(
                    pv,
                    tv,
                    j as int,
                    text_index as int,
                    k as int,
                    crosses,
                ),
            decreases tlen - k,
        {
            let matched = match do_wild_vec(pattern, text, j, k) {
                Ok(b) => b,
                Err(_) => false,
            };
            if matched {
                return Ok(true);
            }
            if k == tlen {
                return Ok(false);
            }
            if !crosses && cluster_is(text[k], '/') {
                return Ok(false);
            }
            k = k + 1;
        }
    }
    if text_index < tlen && cluster_eq(text[text_index], head) {
        let inner = do_wild_vec(pattern, text, pattern_index + 1, text_index + 1);
        return inner;
    }
    Ok(false)
}

} // verus!

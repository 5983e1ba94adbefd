//! Verified character and string helpers: whitespace classification,
//! conversion between `String` and `Vec<char>`, trimming, and joining.

use vstd::prelude::*;

verus! {

/// Whether `c` has the Unicode `White_Space` property, written out as the
/// fixed list of such characters.
pub open spec fn spec_is_whitespace(c: char) -> bool {
    c == ' ' || c == '\t' || c == '\n' || c == '\r' || c == '\x0b' || c == '\x0c' || c == '\u{85}'
        || c == '\u{a0}' || c == '\u{1680}' || (c as u32 >= 0x2000 && c as u32 <= 0x200a) || c
        == '\u{2028}' || c == '\u{2029}' || c == '\u{202f}' || c == '\u{205f}' || c == '\u{3000}'
}

pub fn is_whitespace_char(c: char) -> (r: bool)
    ensures
        r == spec_is_whitespace(c),
{
    let u = c as u32;
    u == 0x20 || u == 0x09 || u == 0x0a || u == 0x0d || u == 0x0b || u == 0x0c || u == 0x85 || u
        == 0xa0 || u == 0x1680 || (u >= 0x2000 && u <= 0x200a) || u == 0x2028 || u == 0x2029 || u
        == 0x202f || u == 0x205f || u == 0x3000
}

/// Whether two strings hold the same characters.
pub fn string_eq_str(a: &String, b: &str) -> (r: bool)
    ensures
        r == (a@ == b@),
{
    let owned: String = b.to_owned();
    *a == owned
}

/// The characters of a string, one vector element per `char`.
pub fn chars_of(s: &str) -> (r: Vec<char>)
    ensures
        r@ == s@,
{
    let n = s.unicode_len();
    let mut r: Vec<char> = Vec::new();
    let mut i: usize = 0;
    while i < n
        invariant
            i <= n,
            n == s@.len(),
            r@ == s@.take(i as int),
        decreases n - i,
    {
        r.push(s.get_char(i));
        i = i + 1;
        proof {
            assert(r@ =~= s@.take(i as int));
        }
    }
    proof {
        assert(r@ =~= s@);
    }
    r
}

/// Builds a `String` holding exactly the given characters.
///
/// Relies on `core::iter::Iterator::collect` for `char` items: the collected
/// string contains the iterated characters in order.
#[verifier::external_body]
pub fn string_from_chars(v: &Vec<char>) -> (r: String)
    ensures
        r@ == v@,
{
    v.iter().collect()
}

/// The position of the first character in `s` (from index 0) that is not
/// whitespace; `s.len()` if every character is whitespace.
pub open spec fn first_non_ws(s: Seq<char>) -> int
    decreases s.len(),
{
    if s.len() == 0 {
        0
    } else if !spec_is_whitespace(s[0]) {
        0
    } else {
        1 + first_non_ws(s.drop_first())
    }
}

/// One past the position of the last character in `s` that is not
/// whitespace; `0` if every character is whitespace.
pub open spec fn last_non_ws_end(s: Seq<char>) -> int
    decreases s.len(),
{
    if s.len() == 0 {
        0
    } else if !spec_is_whitespace(s.last()) {
        s.len() as int
    } else {
        last_non_ws_end(s.drop_last())
    }
}

/// What `str::trim` returns: the characters with leading and trailing
/// whitespace removed.
pub open spec fn spec_trim(s: Seq<char>) -> Seq<char> {
    if first_non_ws(s) >= last_non_ws_end(s) {
        Seq::empty()
    } else {
        s.subrange(first_non_ws(s), last_non_ws_end(s))
    }
}

pub proof fn lemma_first_non_ws(s: Seq<char>)
    ensures
        0 <= first_non_ws(s) <= s.len(),
        forall|j: int| 0 <= j < first_non_ws(s) ==> spec_is_whitespace(s[j]),
        first_non_ws(s) < s.len() ==> !spec_is_whitespace(s[first_non_ws(s)]),
    decreases s.len(),
{
    if s.len() > 0 && spec_is_whitespace(s[0]) {
        lemma_first_non_ws(s.drop_first());
        assert forall|j: int| 0 <= j < first_non_ws(s) implies spec_is_whitespace(s[j]) by {
            if j > 0 {
                assert(s[j] == s.drop_first()[j - 1]);
            }
        }
    }
}

pub proof fn lemma_last_non_ws_end(s: Seq<char>)
    ensures
        0 <= last_non_ws_end(s) <= s.len(),
        forall|j: int| last_non_ws_end(s) <= j < s.len() ==> spec_is_whitespace(s[j]),
        last_non_ws_end(s) > 0 ==> !spec_is_whitespace(s[last_non_ws_end(s) - 1]),
    decreases s.len(),
{
    if s.len() > 0 && spec_is_whitespace(s.last()) {
        lemma_last_non_ws_end(s.drop_last());
        assert forall|j: int| last_non_ws_end(s) <= j < s.len() implies spec_is_whitespace(
            s[j],
        ) by {
            if j < s.len() - 1 {
                assert(s.drop_last()[j] == s[j]);
            }
        }
    }
}

/// Trims leading and trailing whitespace from a character vector.
pub fn trim_chars(v: &Vec<char>) -> (r: Vec<char>)
    ensures
        r@ == spec_trim(v@),
{
    proof {
        lemma_first_non_ws(v@);
        lemma_last_non_ws_end(v@);
    }
    let n = v.len();
    let mut lo: usize = 0;
    while lo < n && is_whitespace_char(v[lo])
        invariant
            0 <= lo <= n,
            n == v@.len(),
            forall|j: int| 0 <= j < lo ==> spec_is_whitespace(v@[j]),
            lo <= first_non_ws(v@),
        decreases n - lo,
    {
        proof {
            lemma_first_non_ws_bound(v@, lo as int + 1);
        }
        lo = lo + 1;
    }
    proof {
        if lo < n {
            assert(lo == first_non_ws(v@)) by {
                lemma_first_non_ws_bound(v@, lo as int);
            }
        } else {
            assert(lo == first_non_ws(v@));
        }
    }
    let mut hi: usize = n;
    while hi > lo && is_whitespace_char(v[hi - 1])
        invariant
            lo <= hi <= n,
            n == v@.len(),
            lo == first_non_ws(v@),
            forall|j: int| hi <= j < n ==> spec_is_whitespace(v@[j]),
            hi >= last_non_ws_end(v@) || hi >= lo,
        decreases hi,
    {
        hi = hi - 1;
    }
    proof {
        lemma_trim_bounds(v@, lo as int, hi as int);
    }
    let mut r: Vec<char> = Vec::new();
    let mut i: usize = lo;
    while i < hi
        invariant
            lo <= i <= hi <= n,
            n == v@.len(),
            r@ == v@.subrange(lo as int, i as int),
        decreases hi - i,
    {
        r.push(v[i]);
        i = i + 1;
        proof {
            assert(r@ =~= v@.subrange(lo as int, i as int));
        }
    }
    proof {
        if lo as int >= last_non_ws_end(v@) && lo == hi {
            assert(r@ =~= spec_trim(v@));
        } else {
            assert(r@ =~= spec_trim(v@));
        }
    }
    r
}

/// If the first `k` characters are whitespace, the first non-whitespace
/// character is at position `k` or later.
proof fn lemma_first_non_ws_bound(s: Seq<char>, k: int)
    requires
        0 <= k <= s.len(),
        forall|j: int| 0 <= j < k ==> spec_is_whitespace(s[j]),
    ensures
        first_non_ws(s) >= k,
    decreases k,
{
    lemma_first_non_ws(s);
    if k > 0 {
        assert(spec_is_whitespace(s[0]));
        assert forall|j: int| 0 <= j < k - 1 implies spec_is_whitespace(s.drop_first()[j]) by {
            assert(s.drop_first()[j] == s[j + 1]);
        }
        lemma_first_non_ws_bound(s.drop_first(), k - 1);
        assert(first_non_ws(s) == 1 + first_non_ws(s.drop_first()));
    }
}

/// After the two scans of `trim_chars`, `lo` and `hi` delimit exactly the
/// trimmed range.
proof fn lemma_trim_bounds(s: Seq<char>, lo: int, hi: int)
    requires
        lo == first_non_ws(s),
        lo <= hi <= s.len(),
        forall|j: int| hi <= j < s.len() ==> spec_is_whitespace(s[j]),
        hi == lo || !spec_is_whitespace(s[hi - 1]),
    ensures
        hi == lo ==> spec_trim(s) == Seq::<char>::empty(),
        hi > lo ==> hi == last_non_ws_end(s) && spec_trim(s) == s.subrange(lo, hi),
{
    lemma_first_non_ws(s);
    lemma_last_non_ws_end(s);
    if hi > lo {
        assert(!spec_is_whitespace(s[hi - 1]));
        assert(last_non_ws_end(s) >= hi);
        assert(last_non_ws_end(s) <= hi);
        assert(first_non_ws(s) < last_non_ws_end(s));
    } else {
        if first_non_ws(s) < last_non_ws_end(s) {
            assert(!spec_is_whitespace(s[first_non_ws(s)]));
            assert(false);
        }
    }
}

/// Trims leading and trailing whitespace from a string, as `str::trim`
/// does.
pub fn trim_string(s: &String) -> (r: String)
    ensures
        r@ == spec_trim(s@),
{
    let chars = chars_of(s.as_str());
    let trimmed = trim_chars(&chars);
    string_from_chars(&trimmed)
}

/// The character sequences of a sequence of strings.
pub open spec fn string_views(ss: Seq<String>) -> Seq<Seq<char>> {
    ss.map_values(|s: String| s@)
}

/// What joining a sequence of strings with a separator yields.
pub open spec fn spec_join(parts: Seq<Seq<char>>, sep: Seq<char>) -> Seq<char>
    decreases parts.len(),
{
    if parts.len() == 0 {
        Seq::empty()
    } else if parts.len() == 1 {
        parts[0]
    } else {
        parts[0] + sep + spec_join(parts.drop_first(), sep)
    }
}

/// Joins strings with a separator, as `[T]::join` does.
pub fn join_strings(parts: &Vec<String>, sep: &str) -> (r: String)
    ensures
        r@ == spec_join(string_views(parts@), sep@),
{
    let ghost views = string_views(parts@);
    let mut r = String::new();
    let n = parts.len();
    if n == 0 {
        return r;
    }
    let mut i: usize = 0;
    while i < n
        invariant
            0 < n == parts@.len(),
            i <= n,
            views == string_views(parts@),
            r@ == spec_join(views.take(i as int), sep@),
        decreases n - i,
    {
        if i > 0 {
            r.append(sep);
        }
        r.append(parts[i].as_str());
        i = i + 1;
        proof {
            lemma_spec_join_push(views, sep@, i as int);
        }
    }
    proof {
        assert(views.take(n as int) =~= views);
    }
    r
}

/// Extending the joined prefix by one part appends one separator and that
/// part (or just the part, for the first one).
proof fn lemma_spec_join_push(parts: Seq<Seq<char>>, sep: Seq<char>, i: int)
    requires
        1 <= i <= parts.len(),
    ensures
        i == 1 ==> spec_join(parts.take(i), sep) == parts[0],
        i > 1 ==> spec_join(parts.take(i), sep) == spec_join(parts.take(i - 1), sep) + sep
            + parts[i - 1],
    decreases i,
{
    if i == 1 {
        assert(parts.take(1) =~= seq![parts[0]]);
        assert(spec_join(parts.take(1), sep) == parts[0]);
    } else {
        let a = parts.take(i);
        let b = parts.take(i - 1);
        assert(a.len() >= 2);
        lemma_spec_join_push(parts.drop_first(), sep, i - 1);
        assert(a.drop_first() =~= parts.drop_first().take(i - 1));
        assert(b.drop_first() =~= parts.drop_first().take(i - 2));
        assert(a[0] == parts[0] && b[0] == parts[0]);
        if i - 1 == 1 {
            assert(spec_join(a, sep) == a[0] + sep + spec_join(a.drop_first(), sep));
            assert(spec_join(a.drop_first(), sep) == parts.drop_first().take(i - 1)[0]);
            assert(parts.drop_first().take(i - 1)[0] == parts[1]);
            assert(spec_join(b, sep) == parts[0]);
        } else {
            assert(spec_join(a, sep) == a[0] + sep + spec_join(a.drop_first(), sep));
            assert(spec_join(b, sep) == b[0] + sep + spec_join(b.drop_first(), sep));
            assert(spec_join(parts.drop_first().take(i - 1), sep) == spec_join(
                parts.drop_first().take(i - 2),
                sep,
            ) + sep + parts.drop_first()[i - 2]);
            assert(parts.drop_first()[i - 2] == parts[i - 1]);
            assert((parts[0] + sep + (spec_join(parts.drop_first().take(i - 2), sep) + sep
                + parts[i - 1])) =~= ((parts[0] + sep + spec_join(
                parts.drop_first().take(i - 2),
                sep,
            )) + sep + parts[i - 1]));
        }
    }
}

} // verus!

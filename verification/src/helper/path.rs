//! Verified path arithmetic over plain strings: absoluteness, joining,
//! the parent directory, and the root-directory marker that path values in
//! documents may start with.

use vstd::prelude::*;

use crate::helper::text::{chars_of, string_from_chars};
use crate::strings::ROOT_DIR;

verus! {

/// Whether a path is absolute: it starts at the file-system root.
pub open spec fn path_is_absolute(p: Seq<char>) -> bool {
    p.len() > 0 && p[0] == '/'
}

pub fn is_absolute_path(p: &String) -> (r: bool)
    ensures
        r == path_is_absolute(p@),
{
    let chars = chars_of(p.as_str());
    chars.len() > 0 && chars[0] == '/'
}

/// What joining `rel` onto `base` yields: `rel` appended behind one path
/// separator, with no separator doubled and an empty side ignored.
pub open spec fn join_path(base: Seq<char>, rel: Seq<char>) -> Seq<char> {
    if rel.len() == 0 {
        base
    } else if base.len() == 0 {
        rel
    } else if base.last() == '/' {
        base + rel
    } else {
        base + seq!['/'] + rel
    }
}

pub fn path_join(base: &String, rel: &String) -> (r: String)
    ensures
        r@ == join_path(base@, rel@),
{
    let base_chars = chars_of(base.as_str());
    let rel_chars = chars_of(rel.as_str());
    if rel_chars.len() == 0 {
        return base.clone();
    }
    if base_chars.len() == 0 {
        return rel.clone();
    }
    let mut out = base.clone();
    if base_chars[base_chars.len() - 1] != '/' {
        out.append("/");
        proof {
            reveal_strlit("/");
            assert(out@ =~= base@ + seq!['/']);
        }
    }
    out.append(rel.as_str());
    proof {
        if base@.last() == '/' {
            assert(out@ =~= base@ + rel@);
        } else {
            assert(out@ =~= (base@ + seq!['/']) + rel@);
            assert((base@ + seq!['/']) + rel@ =~= base@ + seq!['/'] + rel@);
        }
    }
    out
}

/// The characters of the root-directory marker.
pub open spec fn root_marker() -> Seq<char> {
    "$ROOT_DIR"@
}

/// Whether a path names the root directory: it is the marker itself, or
/// the marker followed by a path separator. A path merely beginning with
/// the marker's letters, such as inside a longer first component, does
/// not.
pub open spec fn starts_with_root_marker(p: Seq<char>) -> bool {
    ||| p == root_marker()
    ||| (p.len() > root_marker().len() && p.take(root_marker().len() as int) == root_marker() && p[
        root_marker().len() as int
    ] == '/')
}

/// The path relative to the root directory: what stands behind the marker
/// and its separator.
pub open spec fn strip_root_marker(p: Seq<char>) -> Seq<char> {
    if p == root_marker() {
        Seq::empty()
    } else {
        p.skip(root_marker().len() as int + 1)
    }
}

pub fn path_starts_with_root_marker(p: &String) -> (r: bool)
    ensures
        r == starts_with_root_marker(p@),
{
    proof {
        reveal_strlit("$ROOT_DIR");
    }
    let marker_chars = chars_of(ROOT_DIR);
    let chars = chars_of(p.as_str());
    let m = marker_chars.len();
    if chars.len() < m {
        proof {
            assert(p@ != root_marker());
        }
        return false;
    }
    let mut i: usize = 0;
    while i < m
        invariant
            0 <= i <= m,
            m == root_marker().len(),
            m <= chars@.len(),
            chars@ == p@,
            marker_chars@ == root_marker(),
            forall|j: int| 0 <= j < i ==> p@[j] == root_marker()[j],
        decreases m - i,
    {
        if chars[i] != marker_chars[i] {
            proof {
                assert(p@ != root_marker());
                assert(p@.take(m as int)[i as int] != root_marker()[i as int]);
            }
            return false;
        }
        i = i + 1;
    }
    proof {
        assert(p@.take(m as int) =~= root_marker() || p@.len() == m);
        if p@.len() == m {
            assert(p@ =~= root_marker());
        }
    }
    if chars.len() == m {
        return true;
    }
    chars[m] == '/'
}

/// Removes the root marker and its separator from the front of a path.
pub fn path_strip_root_marker(p: &String) -> (r: String)
    requires
        starts_with_root_marker(p@),
    ensures
        r@ == strip_root_marker(p@),
{
    proof {
        reveal_strlit("$ROOT_DIR");
    }
    let chars = chars_of(p.as_str());
    let m = chars_of(ROOT_DIR).len();
    if chars.len() == m {
        proof {
            assert(p@ =~= root_marker());
        }
        return String::new();
    }
    let mut rest: Vec<char> = Vec::new();
    let mut i: usize = m + 1;
    proof {
        assert(p@ != root_marker());
    }
    while i < chars.len()
        invariant
            m + 1 <= i <= chars@.len(),
            chars@ == p@,
            m == root_marker().len(),
            rest@ == p@.subrange(m as int + 1, i as int),
        decreases chars@.len() - i,
    {
        rest.push(chars[i]);
        i = i + 1;
        proof {
            assert(rest@ =~= p@.subrange(m as int + 1, i as int));
        }
    }
    proof {
        assert(rest@ =~= p@.skip(m as int + 1));
    }
    string_from_chars(&rest)
}

/// The directory holding the named file or directory: the path up to the
/// last separator, the leading separator of an absolute path kept, and
/// empty when there is no separator.
pub open spec fn parent_dir(p: Seq<char>) -> Seq<char> {
    if !p.contains('/') {
        Seq::empty()
    } else {
        let l = last_separator(p);
        if l == 0 {
            seq!['/']
        } else {
            p.take(l)
        }
    }
}

/// The position of the last path separator.
pub open spec fn last_separator(p: Seq<char>) -> int
    decreases p.len(),
{
    if p.len() == 0 {
        0
    } else if p.last() == '/' {
        p.len() - 1
    } else {
        last_separator(p.drop_last())
    }
}

pub proof fn lemma_last_separator(p: Seq<char>)
    requires
        p.contains('/'),
    ensures
        0 <= last_separator(p) < p.len(),
        p[last_separator(p)] == '/',
        forall|j: int| last_separator(p) < j < p.len() ==> p[j] != '/',
    decreases p.len(),
{
    if p.len() > 0 && p.last() != '/' {
        assert(p.drop_last().contains('/')) by {
            let w = choose|w: int| 0 <= w < p.len() && p[w] == '/';
            assert(p.drop_last()[w] == '/');
        }
        lemma_last_separator(p.drop_last());
        assert forall|j: int| last_separator(p) < j < p.len() implies p[j] != '/' by {
            if j < p.len() - 1 {
                assert(p.drop_last()[j] == p[j]);
            }
        }
    }
}

/// The directory part of a path.
pub fn path_parent(p: &String) -> (r: String)
    ensures
        r@ == parent_dir(p@),
{
    let chars = chars_of(p.as_str());
    let n = chars.len();
    let mut j: usize = n;
    while j > 0 && chars[j - 1] != '/'
        invariant
            0 <= j <= n,
            n == p@.len(),
            chars@ == p@,
            forall|k: int| j <= k < n ==> p@[k] != '/',
        decreases j,
    {
        j = j - 1;
    }
    if j == 0 {
        proof {
            if p@.contains('/') {
                let w = choose|w: int| 0 <= w < p@.len() && p@[w] == '/';
                assert(false);
            }
        }
        return String::new();
    }
    proof {
        assert(p@.contains('/')) by {
            assert(p@[j as int - 1] == '/');
        }
        lemma_last_separator(p@);
        assert(last_separator(p@) == j as int - 1);
    }
    if j == 1 {
        proof {
            reveal_strlit("/");
        }
        return "/".to_owned();
    }
    let mut out: Vec<char> = Vec::new();
    let mut i: usize = 0;
    while i < j - 1
        invariant
            0 <= i <= j - 1,
            1 < j <= n,
            n == p@.len(),
            chars@ == p@,
            out@ == p@.take(i as int),
        decreases j - i,
    {
        out.push(chars[i]);
        i = i + 1;
        proof {
            assert(out@ =~= p@.take(i as int));
        }
    }
    string_from_chars(&out)
}

} // verus!

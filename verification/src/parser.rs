//! The tokenizer, the structural parser, and the resolution engine.
//!
//! A document is a sequence of lines. A line of the shape
//! `blanks, one or more depth markers, blanks, '[', label, ']', blanks`
//! is a header whose depth is the number of markers; every other line is a
//! body line, kept as written. The structural parser groups tokens into
//! properties and properties into entries; the resolver splices linked
//! documents into the tree while keeping sibling order.

use vstd::prelude::*;

pub mod error;
pub mod option;
pub mod parser_struct;

use crate::helper::path::{
    is_absolute_path, join_path, path_is_absolute, path_join, path_starts_with_root_marker,
    path_strip_root_marker, starts_with_root_marker, strip_root_marker,
};
use crate::helper::path::parent_dir;
use crate::helper::text::{chars_of, spec_join, spec_trim, string_from_chars};
use crate::parser::option::ParserOptions;
use crate::strings::{
    ABSOLUTE_PATH_HEADER, DESCRIPTION_HEADER, ENTRY_FILE_PATH_HEADER, ENTRY_TYPE_HEADER,
    LINE_SEPARATOR, NAME_HEADER, SUB_ENTRIES_HEADER,
};
use crate::helper::path::path_parent;
use crate::helper::text::{string_eq_str, trim_string};
use crate::wispha::common::{
    arena_view, node_view, nodes_ordered, NodeView, WisphaEntry, WisphaTree,
};
use crate::wispha::intermediate::{
    default_direct_view, default_properties_view, link_count_of, seq_link_count, DirectView,
    IntermediateView, WisphaDirectEntry, WisphaIntermediateEntry, WisphaLinkEntry,
};
use crate::wispha::properties::{PropertiesView, WisphaEntryType};
use crate::parser::error::ParserError;
use crate::parser::parser_struct::{
    clone_tokens, WisphaExpectOption, WisphaRawProperty, WisphaRawToken, WisphaToken,
};

verus! {

/// The blank characters a header line may carry around its markers and
/// label: space, tab, vertical tab, form feed.
pub open spec fn is_blank_char(c: char) -> bool {
    c == ' ' || c == '\t' || c == '\x0b' || c == '\x0c'
}

fn blank_char(c: char) -> (r: bool)
    ensures
        r == is_blank_char(c),
{
    c == ' ' || c == '\t' || c == '\x0b' || c == '\x0c'
}

/// The position of the first character at or after `i` that is not blank;
/// `line.len()` if there is none.
pub open spec fn scan_blanks(line: Seq<char>, i: int) -> int
    decreases line.len() - i,
    when 0 <= i <= line.len()
{
    if i == line.len() {
        i
    } else if is_blank_char(line[i]) {
        scan_blanks(line, i + 1)
    } else {
        i
    }
}

/// The position of the first character at or after `i` that is not the
/// depth marker; `line.len()` if there is none.
pub open spec fn scan_marks(line: Seq<char>, i: int) -> int
    decreases line.len() - i,
    when 0 <= i <= line.len()
{
    if i == line.len() {
        i
    } else if line[i] == '+' {
        scan_marks(line, i + 1)
    } else {
        i
    }
}

/// The position of the closing bracket: the last character of the line
/// that is not blank, provided it is `]`. `None` when the line is empty,
/// all blanks, or ends (blanks aside) in something else.
pub open spec fn close_bracket_pos(line: Seq<char>) -> Option<int>
    decreases line.len(),
{
    if line.len() == 0 {
        None
    } else if line.last() == ']' {
        Some(line.len() - 1)
    } else if is_blank_char(line.last()) {
        close_bracket_pos(line.drop_last())
    } else {
        None
    }
}

/// What a header line says: its depth and its label. `None` for a body
/// line.
///
/// A line is a header exactly when it consists of blanks, one or more
/// depth markers, blanks, an opening bracket, a label of at least one
/// character, the closing bracket, and blanks to the end of the line. The
/// label is everything between the opening bracket and the last non-blank
/// character of the line, which must be the closing bracket; so a label
/// may itself contain brackets.
pub open spec fn line_header(line: Seq<char>) -> Option<(int, Seq<char>)> {
    let b1 = scan_blanks(line, 0);
    let p = scan_marks(line, b1);
    let b2 = scan_blanks(line, p);
    if p == b1 {
        None
    } else if b2 == line.len() || line[b2] != '[' {
        None
    } else {
        match close_bracket_pos(line) {
            Some(c) => if c >= b2 + 2 {
                Some((p - b1, line.subrange(b2 + 1, c)))
            } else {
                None
            },
            None => None,
        }
    }
}

/// A header's depth leaves room above it: the depth of a deeper header
/// can still be counted in the machine. This holds of every tokenized
/// line, whose depth is smaller than the line's length.
pub open spec fn header_depth_ok(t: WisphaToken) -> bool {
    t matches WisphaToken::Header(_, d) ==> d < usize::MAX
}

/// Every header among the tokens has room above its depth.
pub open spec fn header_depths_ok(tokens: Seq<WisphaToken>) -> bool {
    forall|k: int| 0 <= k < tokens.len() ==> header_depth_ok(#[trigger] tokens[k])
}

/// How the token for one line relates to the line: a header line becomes a
/// `Header` with its label and depth, any other line a `Body` holding the
/// line as written; both are stamped with the line number and the file.
pub open spec fn token_for_line(
    t: WisphaToken,
    line: Seq<char>,
    line_number: int,
    file_path: Seq<char>,
) -> bool {
    match line_header(line) {
        Some((d, label)) => {
            &&& t matches WisphaToken::Header(raw, depth)
            &&& raw.content@ == label
            &&& depth == d
            &&& raw.line_number == line_number
            &&& raw.file_path@ == file_path
        },
        None => {
            &&& t matches WisphaToken::Body(raw)
            &&& raw.content@ == line
            &&& raw.line_number == line_number
            &&& raw.file_path@ == file_path
        },
    }
}

/// After the backwards blank scan of `parse_line`, the closing-bracket
/// position is determined by where the scan stopped.
proof fn lemma_close_bracket(line: Seq<char>, j: int)
    requires
        0 <= j <= line.len(),
        forall|k: int| j <= k < line.len() ==> is_blank_char(line[k]),
        j > 0 ==> !is_blank_char(line[j - 1]),
    ensures
        close_bracket_pos(line) == if j > 0 && line[j - 1] == ']' {
            Some(j - 1)
        } else {
            None::<int>
        },
    decreases line.len(),
{
    if line.len() == 0 {
    } else if j == line.len() {
        assert(!is_blank_char(line.last()));
    } else {
        assert(is_blank_char(line.last()));
        assert(line.last() != ']');
        lemma_close_bracket(line.drop_last(), j);
    }
}

/// Turns one line into its token.
pub fn parse_line(line_content: String, line_number: usize, file_path: &String) -> (r: WisphaToken)
    ensures
        token_for_line(r, line_content@, line_number as int, file_path@),
        header_depth_ok(r),
{
    let ghost line = line_content@;
    let chars = chars_of(line_content.as_str());
    let n = chars.len();
    let mut i: usize = 0;
    while i < n && blank_char(chars[i])
        invariant
            0 <= i <= n,
            n == line.len(),
            chars@ == line,
            scan_blanks(line, 0) == scan_blanks(line, i as int),
        decreases n - i,
    {
        i = i + 1;
    }
    proof {
        assert(scan_blanks(line, i as int) == i as int);
    }
    let b1 = i;
    while i < n && chars[i] == '+'
        invariant
            b1 <= i <= n,
            n == line.len(),
            chars@ == line,
            scan_marks(line, b1 as int) == scan_marks(line, i as int),
        decreases n - i,
    {
        i = i + 1;
    }
    proof {
        assert(scan_marks(line, i as int) == i as int);
    }
    let p = i;
    while i < n && blank_char(chars[i])
        invariant
            p <= i <= n,
            n == line.len(),
            chars@ == line,
            scan_blanks(line, p as int) == scan_blanks(line, i as int),
        decreases n - i,
    {
        i = i + 1;
    }
    proof {
        assert(scan_blanks(line, i as int) == i as int);
    }
    let b2 = i;
    if p > b1 && b2 < n && chars[b2] == '[' {
        let mut j: usize = n;
        while j > 0 && blank_char(chars[j - 1])
            invariant
                0 <= j <= n,
                n == line.len(),
                chars@ == line,
                forall|k: int| j <= k < n ==> is_blank_char(line[k]),
            decreases j,
        {
            j = j - 1;
        }
        proof {
            lemma_close_bracket(line, j as int);
        }
        if j > 0 && chars[j - 1] == ']' {
            let c = j - 1;
            if c >= b2 + 2 {
                let mut label_chars: Vec<char> = Vec::new();
                let mut k: usize = b2 + 1;
                while k < c
                    invariant
                        b2 + 1 <= k <= c <= n,
                        n == line.len(),
                        chars@ == line,
                        label_chars@ == line.subrange(b2 as int + 1, k as int),
                    decreases c - k,
                {
                    label_chars.push(chars[k]);
                    k = k + 1;
                    proof {
                        assert(label_chars@ =~= line.subrange(b2 as int + 1, k as int));
                    }
                }
                let content = string_from_chars(&label_chars);
                return WisphaToken::Header(
                    WisphaRawToken { content, line_number, file_path: file_path.clone() },
                    p - b1,
                );
            }
        }
    }
    WisphaToken::Body(
        WisphaRawToken { content: line_content, line_number, file_path: file_path.clone() },
    )
}

/// The position of the first line break at or after `i`; `s.len()` if
/// there is none.
pub open spec fn find_newline(s: Seq<char>, i: int) -> int
    decreases s.len() - i,
    when 0 <= i <= s.len()
{
    if i == s.len() {
        i
    } else if s[i] == '\n' {
        i
    } else {
        find_newline(s, i + 1)
    }
}

pub proof fn lemma_find_newline(s: Seq<char>, i: int)
    requires
        0 <= i <= s.len(),
    ensures
        i <= find_newline(s, i) <= s.len(),
        forall|k: int| i <= k < find_newline(s, i) ==> s[k] != '\n',
        find_newline(s, i) < s.len() ==> s[find_newline(s, i)] == '\n',
    decreases s.len() - i,
{
    if i < s.len() && s[i] != '\n' {
        lemma_find_newline(s, i + 1);
    }
}

/// The pieces of `s` between its line breaks, the piece after the last
/// break included even when it is empty.
pub open spec fn split_lines_all(s: Seq<char>) -> Seq<Seq<char>>
    decreases s.len(),
{
    let i = find_newline(s, 0);
    if 0 <= i < s.len() {
        seq![s.take(i)] + split_lines_all(s.skip(i + 1))
    } else {
        seq![s]
    }
}

/// A line with one trailing carriage return removed, as `str::lines`
/// yields it.
pub open spec fn strip_cr(line: Seq<char>) -> Seq<char> {
    if line.len() > 0 && line.last() == '\r' {
        line.drop_last()
    } else {
        line
    }
}

/// The lines of a document, as `str::lines` yields them: split at line
/// breaks, no empty piece after a trailing break, carriage returns before
/// breaks removed.
pub open spec fn lines_of(s: Seq<char>) -> Seq<Seq<char>> {
    if s.len() == 0 {
        Seq::empty()
    } else {
        let parts = split_lines_all(s);
        let kept = if s.last() == '\n' {
            parts.drop_last()
        } else {
            parts
        };
        kept.map_values(|l: Seq<char>| strip_cr(l))
    }
}

/// How a token sequence relates to a document's text: one token per line,
/// in order, each line's token stamped with its 1-based line number and
/// the document's path.
pub open spec fn tokens_for_content(
    tokens: Seq<WisphaToken>,
    content: Seq<char>,
    file_path: Seq<char>,
) -> bool {
    let ls = lines_of(content);
    &&& tokens.len() == ls.len()
    &&& forall|k: int|
        0 <= k < ls.len() ==> token_for_line(#[trigger] tokens[k], ls[k], k + 1, file_path)
}

/// Splitting off the first line decomposes `split_lines_all`.
pub proof fn lemma_split_step(s: Seq<char>, start: int)
    requires
        0 <= start <= s.len(),
    ensures
        ({
            let nl = find_newline(s, start);
            if nl < s.len() {
                split_lines_all(s.skip(start)) == seq![s.subrange(start, nl)] + split_lines_all(
                    s.skip(nl + 1),
                )
            } else {
                split_lines_all(s.skip(start)) == seq![s.subrange(start, s.len() as int)]
            }
        }),
{
    let u = s.skip(start);
    let nl = find_newline(s, start);
    lemma_find_newline(s, start);
    lemma_find_newline_shift(s, start);
    if nl < s.len() {
        assert(u.take(nl - start) =~= s.subrange(start, nl));
        assert(u.skip(nl - start + 1) =~= s.skip(nl + 1));
    } else {
        assert(find_newline(u, 0) == u.len());
        assert(u =~= s.subrange(start, s.len() as int));
    }
}

/// Finding a line break in a suffix finds the same break as in the whole.
proof fn lemma_find_newline_shift(s: Seq<char>, start: int)
    requires
        0 <= start <= s.len(),
    ensures
        find_newline(s.skip(start), 0) == find_newline(s, start) - start,
{
    let u = s.skip(start);
    let nl = find_newline(s, start);
    lemma_find_newline(s, start);
    lemma_find_newline(u, 0);
    let m = find_newline(u, 0);
    if m < nl - start {
        assert(s[start + m] == u[m]);
        assert(false);
    }
    if nl - start < m {
        assert(nl < s.len());
        assert(u[nl - start] == s[nl]);
        assert(false);
    }
}

/// A text that opens with a break-free line splits into that line and the
/// rest.
pub proof fn lemma_lines_prepend(line: Seq<char>, rest: Seq<char>)
    requires
        !line.contains('\n'),
    ensures
        split_lines_all(line + seq!['\n'] + rest) == seq![line] + split_lines_all(rest),
{
    let s = line + seq!['\n'] + rest;
    assert(s[line.len() as int] == '\n');
    assert forall|i: int| 0 <= i < line.len() implies s[i] != '\n' by {
        assert(s[i] == line[i]);
        if s[i] == '\n' {
            assert(line.contains('\n'));
        }
    }
    lemma_find_newline_at(s, line.len() as int);
    lemma_split_step(s, 0);
    assert(s.skip(0) =~= s);
    assert(split_lines_all(s.skip(0)) == split_lines_all(s));
    assert(s.take(line.len() as int) =~= line);
    assert(s.subrange(0, line.len() as int) =~= line);
    assert(s.skip(line.len() as int + 1) =~= rest);
}

/// The first break of a text stands where the first break stands.
pub proof fn lemma_find_newline_at(s: Seq<char>, k: int)
    requires
        0 <= k < s.len(),
        s[k] == '\n',
        forall|i: int| 0 <= i < k ==> s[i] != '\n',
    ensures
        find_newline(s, 0) == k,
{
    lemma_find_newline(s, 0);
    let f = find_newline(s, 0);
    if f < k {
        assert(s[f] == '\n');
        assert(false);
    }
    if f > k {
        assert(s[k] != '\n');
        assert(false);
    }
}

/// Turns a document's text into its token sequence, one token per line.
pub fn tokenize(content: String, file_path: &String) -> (tokens: Vec<WisphaToken>)
    ensures
        tokens_for_content(tokens@, content@, file_path@),
        header_depths_ok(tokens@),
{
    let ghost s = content@;
    let chars = chars_of(content.as_str());
    let n = chars.len();
    let mut tokens: Vec<WisphaToken> = Vec::new();
    if n == 0 {
        return tokens;
    }
    let mut start: usize = 0;
    let ghost mut emitted: Seq<Seq<char>> = Seq::empty();
    proof {
        assert(s.skip(0) =~= s);
        assert(emitted + split_lines_all(s) =~= split_lines_all(s));
    }
    loop
        invariant
            0 <= start < n,
            n == s.len(),
            chars@ == s,
            content@ == s,
            split_lines_all(s) == emitted + split_lines_all(s.skip(start as int)),
            tokens@.len() == emitted.len(),
            emitted.len() <= start,
            forall|k: int|
                0 <= k < emitted.len() ==> token_for_line(
                    #[trigger] tokens@[k],
                    strip_cr(emitted[k]),
                    k + 1,
                    file_path@,
                ),
            header_depths_ok(tokens@),
        decreases n - start,
    {
        let mut nl: usize = start;
        while nl < n && chars[nl] != '\n'
            invariant
                start <= nl <= n,
                n == s.len(),
                chars@ == s,
                find_newline(s, start as int) == find_newline(s, nl as int),
            decreases n - nl,
        {
            nl = nl + 1;
        }
        proof {
            assert(find_newline(s, nl as int) == nl as int);
            lemma_find_newline(s, start as int);
            lemma_split_step(s, start as int);
        }
        // The piece from `start` up to the break (or the end), with a
        // trailing carriage return removed.
        let line_end: usize = if nl > start && chars[nl - 1] == '\r' {
            nl - 1
        } else {
            nl
        };
        let mut line_chars: Vec<char> = Vec::new();
        let mut k: usize = start;
        while k < line_end
            invariant
                start <= k <= line_end <= n,
                n == s.len(),
                chars@ == s,
                line_chars@ == s.subrange(start as int, k as int),
            decreases line_end - k,
        {
            line_chars.push(chars[k]);
            k = k + 1;
            proof {
                assert(line_chars@ =~= s.subrange(start as int, k as int));
            }
        }
        proof {
            assert(strip_cr(s.subrange(start as int, nl as int)) =~= s.subrange(
                start as int,
                line_end as int,
            ));
        }
        let line = string_from_chars(&line_chars);
        let line_number = tokens.len() + 1;
        let token = parse_line(line, line_number, file_path);
        tokens.push(token);
        let ghost prev_emitted = emitted;
        proof {
            emitted = emitted.push(s.subrange(start as int, nl as int));
        }
        if nl == n {
            // The document does not end with a line break: the piece just
            // emitted was its final line.
            proof {
                assert(split_lines_all(s.skip(start as int)) == seq![
                    s.subrange(start as int, n as int),
                ]);
                assert(split_lines_all(s) =~= emitted);
                assert(s[n - 1] != '\n');
                assert(s.last() != '\n');
                let ls = lines_of(s);
                assert(ls.len() == emitted.len());
                assert forall|k2: int| 0 <= k2 < ls.len() implies token_for_line(
                    #[trigger] tokens@[k2],
                    ls[k2],
                    k2 + 1,
                    file_path@,
                ) by {
                    assert(ls[k2] == strip_cr(emitted[k2]));
                }
            }
            return tokens;
        }
        proof {
            assert(split_lines_all(s) =~= emitted + split_lines_all(s.skip(nl as int + 1)));
        }
        start = nl + 1;
        if start == n {
            // The document ends with a line break: the empty piece after
            // it is not a line.
            proof {
                assert(s.last() == '\n');
                assert(s.skip(n as int) =~= Seq::<char>::empty());
                assert(find_newline(Seq::<char>::empty(), 0) == 0);
                assert(split_lines_all(s.skip(n as int)) == seq![Seq::<char>::empty()]);
                let parts = split_lines_all(s);
                assert(parts == emitted + seq![Seq::<char>::empty()]);
                assert(parts.drop_last() =~= emitted);
                let ls = lines_of(s);
                assert(ls.len() == emitted.len());
                assert forall|k2: int| 0 <= k2 < ls.len() implies token_for_line(
                    #[trigger] tokens@[k2],
                    ls[k2],
                    k2 + 1,
                    file_path@,
                ) by {
                    assert(ls[k2] == strip_cr(emitted[k2]));
                }
            }
            return tokens;
        }
    }
}


/// Whether a token may open a property group at the given depth: a header
/// of exactly that depth, or an empty body line.
pub open spec fn group_start_ok(t: WisphaToken, depth: int) -> bool {
    match t {
        WisphaToken::Header(_, td) => td == depth,
        WisphaToken::Body(raw) => raw.content@ == Seq::<char>::empty(),
    }
}

/// The position of the first header at or after `i` whose depth is at
/// most `depth`: the first token that no longer belongs to the property
/// body opened before `i`. `tokens.len()` if there is none.
pub open spec fn body_end(tokens: Seq<WisphaToken>, i: int, depth: int) -> int
    decreases tokens.len() - i,
    when 0 <= i <= tokens.len()
{
    if i == tokens.len() {
        i
    } else if tokens[i] matches WisphaToken::Header(_, td) && td <= depth {
        i
    } else {
        body_end(tokens, i + 1, depth)
    }
}

pub proof fn lemma_body_end(tokens: Seq<WisphaToken>, i: int, depth: int)
    requires
        0 <= i <= tokens.len(),
    ensures
        i <= body_end(tokens, i, depth) <= tokens.len(),
    decreases tokens.len() - i,
{
    if i < tokens.len() && !(tokens[i] matches WisphaToken::Header(_, td) && td <= depth) {
        lemma_body_end(tokens, i + 1, depth);
    }
}

/// What grouping the tokens from position `i` at the given depth yields:
/// the properties in order, each a header (or empty body line) together
/// with the tokens of its body, or the position of the first token that
/// may not open a group.
pub open spec fn group_props(tokens: Seq<WisphaToken>, i: int, depth: int) -> Result<
    Seq<(WisphaToken, Seq<WisphaToken>)>,
    int,
>
    decreases tokens.len() - i,
    when 0 <= i <= tokens.len()
{
    if i == tokens.len() {
        Ok(Seq::empty())
    } else if !group_start_ok(tokens[i], depth) {
        Err(i)
    } else {
        // The scan past the body always lands within bounds; it is clamped
        // here so that the recursion visibly advances.
        let e0 = body_end(tokens, i + 1, depth);
        let e = if i + 1 <= e0 <= tokens.len() {
            e0
        } else {
            i + 1
        };
        match group_props(tokens, e, depth) {
            Ok(rest) => Ok(seq![(tokens[i], tokens.subrange(i + 1, e))] + rest),
            Err(j) => Err(j),
        }
    }
}

/// Grouping yields bodies strictly shorter than the token sequence, and an
/// error position within bounds.
pub proof fn lemma_group_props_bounds(tokens: Seq<WisphaToken>, i: int, depth: int)
    requires
        0 <= i <= tokens.len(),
    ensures
        match group_props(tokens, i, depth) {
            Ok(props) => forall|k: int|
                0 <= k < props.len() ==> (#[trigger] props[k].1).len() + 1 <= tokens.len(),
            Err(j) => i <= j < tokens.len(),
        },
    decreases tokens.len() - i,
{
    if i < tokens.len() && group_start_ok(tokens[i], depth) {
        lemma_body_end(tokens, i + 1, depth);
        let e = body_end(tokens, i + 1, depth);
        lemma_group_props_bounds(tokens, e, depth);
    }
}

/// Where every header among the tokens has room above its depth, so has
/// every grouped header and every header inside a grouped body.
pub proof fn lemma_group_props_depths(tokens: Seq<WisphaToken>, i: int, depth: int)
    requires
        0 <= i <= tokens.len(),
        header_depths_ok(tokens),
    ensures
        match group_props(tokens, i, depth) {
            Ok(props) => forall|k: int|
                0 <= k < props.len() ==> header_depth_ok((#[trigger] props[k]).0)
                    && header_depths_ok(props[k].1),
            Err(_) => true,
        },
    decreases tokens.len() - i,
{
    if i < tokens.len() && group_start_ok(tokens[i], depth) {
        lemma_body_end(tokens, i + 1, depth);
        let e = body_end(tokens, i + 1, depth);
        lemma_group_props_depths(tokens, e, depth);
        match group_props(tokens, e, depth) {
            Ok(rest) => {
                let body = tokens.subrange(i + 1, e);
                assert(header_depths_ok(body)) by {
                    assert forall|k: int| 0 <= k < body.len() implies header_depth_ok(
                        #[trigger] body[k],
                    ) by {
                        assert(body[k] == tokens[i + 1 + k]);
                    }
                }
                let whole = seq![(tokens[i], body)] + rest;
                assert forall|k: int| 0 <= k < whole.len() implies header_depth_ok((
                #[trigger] whole[k]).0) && header_depths_ok(whole[k].1) by {
                    if k > 0 {
                        assert(whole[k] == rest[k - 1]);
                    }
                }
            },
            Err(_) => {},
        }
    }
}

/// The patterns the grouping step expects where it finds something else: a
/// header of the right depth (content aside), or an empty body line.
pub open spec fn group_expected_patterns(
    expected: Option<Vec<(WisphaToken, Vec<WisphaExpectOption>)>>,
    depth: int,
) -> bool {
    &&& expected matches Some(list)
    &&& list@.len() == 2
    &&& list@[0].0 matches WisphaToken::Header(raw0, d0) && raw0.content@ == Seq::<char>::empty()
        && d0 == depth
    &&& list@[0].1@ == seq![WisphaExpectOption::IgnoreContent]
    &&& list@[1].0 matches WisphaToken::Body(raw1) && raw1.content@ == Seq::<char>::empty()
    &&& list@[1].1@ == Seq::<WisphaExpectOption>::empty()
}

/// How an error of the grouping step looks: the offending token, together
/// with the patterns that were expected in its place.
pub open spec fn is_group_error(e: ParserError, tokens: Seq<WisphaToken>, j: int, depth: int) -> bool {
    &&& e matches ParserError::UnexpectedToken(t, expected)
    &&& t == tokens[j]
    &&& group_expected_patterns(expected, depth)
}

/// A token is expected at a group start exactly when it may open a group.
proof fn lemma_group_start_expected(
    t: WisphaToken,
    expected: Option<Vec<(WisphaToken, Vec<WisphaExpectOption>)>>,
    depth: int,
)
    requires
        group_expected_patterns(expected, depth),
    ensures
        spec_is_expected(t, expected) == group_start_ok(t, depth),
{
    let list = expected->0;
    if group_start_ok(t, depth) {
        match t {
            WisphaToken::Header(_, _) => {
                assert(t.spec_matches(list@[0].0, list@[0].1@));
            },
            WisphaToken::Body(_) => {
                assert(t.spec_matches(list@[1].0, list@[1].1@));
            },
        }
    } else {
        assert forall|k: int| 0 <= k < list@.len() implies !t.spec_matches(
            list@[k].0,
            list@[k].1@,
        ) by {
            assert(!list@[0].1@.contains(WisphaExpectOption::IgnoreDepth)) by {
                if list@[0].1@.contains(WisphaExpectOption::IgnoreDepth) {
                    let w = choose|w: int|
                        0 <= w < list@[0].1@.len() && list@[0].1@[w]
                            == WisphaExpectOption::IgnoreDepth;
                }
            }
            assert(!list@[0].1@.contains(WisphaExpectOption::AllowLowerDepth)) by {
                if list@[0].1@.contains(WisphaExpectOption::AllowLowerDepth) {
                    let w = choose|w: int|
                        0 <= w < list@[0].1@.len() && list@[0].1@[w]
                            == WisphaExpectOption::AllowLowerDepth;
                }
            }
            assert(!list@[1].1@.contains(WisphaExpectOption::IgnoreContent)) by {
                if list@[1].1@.contains(WisphaExpectOption::IgnoreContent) {
                    let w = choose|w: int|
                        0 <= w < list@[1].1@.len() && list@[1].1@[w]
                            == WisphaExpectOption::IgnoreContent;
                }
            }
        }
    }
}

/// Whether a token matches one of the expected patterns; every token is
/// expected where no patterns are given.
pub open spec fn spec_is_expected(
    token: WisphaToken,
    expected: Option<Vec<(WisphaToken, Vec<WisphaExpectOption>)>>,
) -> bool {
    match expected {
        None => true,
        Some(list) => exists|k: int|
            0 <= k < list@.len() && token.spec_matches(
                (#[trigger] list@[k]).0,
                list@[k].1@,
            ),
    }
}

/// Whether a token matches one of the expected patterns.
pub fn is_token_expected(
    token: &WisphaToken,
    expected_tokens: &Option<Vec<(WisphaToken, Vec<WisphaExpectOption>)>>,
) -> (r: bool)
    ensures
        r == spec_is_expected(*token, *expected_tokens),
{
    if let Some(list) = &expected_tokens {
        let n = list.len();
        let mut k: usize = 0;
        while k < n
            invariant
                0 <= k <= n,
                n == list@.len(),
                *expected_tokens matches Some(l) && l == *list,
                forall|j: int|
                    0 <= j < k ==> !token.spec_matches(
                        (#[trigger] list@[j]).0,
                        list@[j].1@,
                    ),
            decreases n - k,
        {
            let (expected_token, options) = &list[k];
            if token.matches(expected_token, clone_options(options)) {
                proof {
                    assert(token.spec_matches((list@[k as int]).0, list@[k as int].1@));
                    assert(spec_is_expected(*token, *expected_tokens));
                }
                return true;
            }
            k = k + 1;
        }
        return false;
    } else {
        return true;
    }
}

/// Copies a vector of matching options.
fn clone_options(options: &Vec<WisphaExpectOption>) -> (r: Vec<WisphaExpectOption>)
    ensures
        r@ == options@,
{
    let n = options.len();
    let mut r: Vec<WisphaExpectOption> = Vec::new();
    let mut i: usize = 0;
    while i < n
        invariant
            i <= n,
            n == options@.len(),
            r@ == options@.take(i as int),
        decreases n - i,
    {
        r.push(options[i]);
        i = i + 1;
        proof {
            assert(r@ =~= options@.take(i as int));
        }
    }
    proof {
        assert(options@.take(n as int) =~= options@);
    }
    r
}

/// The patterns the grouping step expects at the start of a property.
fn group_expected(depth: usize) -> (r: Option<Vec<(WisphaToken, Vec<WisphaExpectOption>)>>)
    ensures
        group_expected_patterns(r, depth as int),
{
    let mut header_options: Vec<WisphaExpectOption> = Vec::new();
    header_options.push(WisphaExpectOption::IgnoreContent);
    let body_options: Vec<WisphaExpectOption> = Vec::new();
    let mut list: Vec<(WisphaToken, Vec<WisphaExpectOption>)> = Vec::new();
    list.push((WisphaToken::default_header_token_with_depth(depth), header_options));
    list.push((WisphaToken::empty_body_token(), body_options));
    proof {
        assert(list@[0].1@ =~= seq![WisphaExpectOption::IgnoreContent]);
        assert(list@[1].1@ =~= Seq::<WisphaExpectOption>::empty());
    }
    Some(list)
}

/// Groups a token sequence into properties: each group opens with a header
/// of exactly the expected depth (or an empty body line) and carries every
/// following token up to, but excluding, the next header at that depth or
/// above. A token that may not open a group is the error.
pub fn build_wispha_properties(tokens: Vec<WisphaToken>, depth: usize) -> (r: Result<
    Vec<WisphaRawProperty>,
    ParserError,
>)
    ensures
        match r {
            Ok(props) => {
                &&& group_props(tokens@, 0, depth as int) matches Ok(models)
                &&& props@.len() == models.len()
                &&& forall|k: int|
                    0 <= k < models.len() ==> (#[trigger] props@[k]).header == models[k].0
                        && props@[k].body@ == models[k].1
            },
            Err(e) => {
                &&& group_props(tokens@, 0, depth as int) matches Err(j)
                &&& is_group_error(e, tokens@, j, depth as int)
            },
        },
{
    let ghost toks = tokens@;
    let expected_tokens = group_expected(depth);
    let mut properties: Vec<WisphaRawProperty> = Vec::new();
    let ghost mut models: Seq<(WisphaToken, Seq<WisphaToken>)> = Seq::empty();
    let n = tokens.len();
    let mut token_index: usize = 0;
    proof {
        assert(Seq::<(WisphaToken, Seq<WisphaToken>)>::empty() + group_props(
            toks,
            0,
            depth as int,
        )->Ok_0 =~= group_props(toks, 0, depth as int)->Ok_0) by {
            if group_props(toks, 0, depth as int) is Ok {
            }
        }
    }
    while token_index < n
        invariant
            0 <= token_index <= n,
            n == toks.len(),
            tokens@ == toks,
            group_expected_patterns(expected_tokens, depth as int),
            properties@.len() == models.len(),
            forall|k: int|
                0 <= k < models.len() ==> (#[trigger] properties@[k]).header == models[k].0
                    && properties@[k].body@ == models[k].1,
            ({
                match group_props(toks, token_index as int, depth as int) {
                    Ok(rest) => group_props(toks, 0, depth as int) == Ok::<_, int>(models + rest),
                    Err(j) => group_props(toks, 0, depth as int) == Err::<
                        Seq<(WisphaToken, Seq<WisphaToken>)>,
                        _,
                    >(j),
                }
            }),
        decreases n - token_index,
    {
        let token = &tokens[token_index];
        proof {
            lemma_group_start_expected(*token, expected_tokens, depth as int);
        }
        if !is_token_expected(token, &expected_tokens) {
            return Err(ParserError::UnexpectedToken(token.clone(), expected_tokens));
        }
        let header = token.clone();
        let ghost i0 = token_index as int;
        token_index = token_index + 1;
        let mut body: Vec<WisphaToken> = Vec::new();
        proof {
            assert(body@ =~= toks.subrange(i0 + 1, token_index as int));
        }
        while token_index < n
            invariant
                0 <= i0 < i0 + 1 <= token_index <= n,
                n == toks.len(),
                tokens@ == toks,
                body@ == toks.subrange(i0 + 1, token_index as int),
                body_end(toks, i0 + 1, depth as int) == body_end(
                    toks,
                    token_index as int,
                    depth as int,
                ),
            ensures
                i0 + 1 <= token_index <= n,
                tokens@ == toks,
                body@ == toks.subrange(i0 + 1, token_index as int),
                body_end(toks, i0 + 1, depth as int) == body_end(
                    toks,
                    token_index as int,
                    depth as int,
                ),
                token_index == n || (toks[token_index as int] matches WisphaToken::Header(_, td)
                    && td <= depth),
            decreases n - token_index,
        {
            let next_token = &tokens[token_index];
            let is_boundary = match next_token {
                WisphaToken::Header(_, token_depth) => *token_depth <= depth,
                WisphaToken::Body(_) => false,
            };
            if is_boundary {
                break ;
            }
            body.push(next_token.clone());
            token_index = token_index + 1;
            proof {
                assert(body@ =~= toks.subrange(i0 + 1, token_index as int));
            }
        }
        proof {
            assert(body_end(toks, token_index as int, depth as int) == token_index as int);
        }
        properties.push(WisphaRawProperty { header, body });
        proof {
            assert(group_start_ok(toks[i0], depth as int));
            lemma_body_end(toks, i0 + 1, depth as int);
            let e = body_end(toks, i0 + 1, depth as int);
            assert(e == token_index as int);
            let prop = (toks[i0], toks.subrange(i0 + 1, token_index as int));
            let ghost old_models = models;
            models = models.push(prop);
            match group_props(toks, token_index as int, depth as int) {
                Ok(rest1) => {
                    assert(group_props(toks, i0, depth as int) == Ok::<_, int>(
                        seq![prop] + rest1,
                    ));
                    assert(old_models + (seq![prop] + rest1) =~= models + rest1);
                },
                Err(j) => {
                    assert(group_props(toks, i0, depth as int) == Err::<
                        Seq<(WisphaToken, Seq<WisphaToken>)>,
                        _,
                    >(j));
                },
            }
        }
    }
    proof {
        assert(group_props(toks, n as int, depth as int) == Ok::<
            Seq<(WisphaToken, Seq<WisphaToken>)>,
            int,
        >(Seq::<(WisphaToken, Seq<WisphaToken>)>::empty()));
        assert(models + Seq::<(WisphaToken, Seq<WisphaToken>)>::empty() =~= models);
    }
    Ok(properties)
}


/// Whether a token is an empty body line.
pub open spec fn is_empty_body(t: WisphaToken) -> bool {
    t matches WisphaToken::Body(raw) && raw.content@ == Seq::<char>::empty()
}

/// The position of the first token at or after `i` that is not an empty
/// body line; `body.len()` if there is none.
pub open spec fn skip_empty_bodies(body: Seq<WisphaToken>, i: int) -> int
    decreases body.len() - i,
    when 0 <= i <= body.len()
{
    if i == body.len() {
        i
    } else if is_empty_body(body[i]) {
        skip_empty_bodies(body, i + 1)
    } else {
        i
    }
}

pub proof fn lemma_skip_empty_bodies(body: Seq<WisphaToken>, i: int)
    requires
        0 <= i <= body.len(),
    ensures
        i <= skip_empty_bodies(body, i) <= body.len(),
    decreases body.len() - i,
{
    if i < body.len() && is_empty_body(body[i]) {
        lemma_skip_empty_bodies(body, i + 1);
    }
}

/// What reading a single-value property body yields: the position of the
/// one content line, `None` for a body of empty lines only, or the
/// position of the offending token where a second content line or a header
/// stands.
pub open spec fn content_token_model(body: Seq<WisphaToken>) -> Result<Option<int>, int> {
    let i = skip_empty_bodies(body, 0);
    if i == body.len() {
        Ok(None)
    } else if body[i] is Body {
        let j = skip_empty_bodies(body, clamp_index(i + 1, body.len() as int));
        if j == body.len() {
            Ok(Some(i))
        } else {
            Err(j)
        }
    } else {
        Err(i)
    }
}

/// Keeps an index within bounds. The scans this spec clamps always stay in
/// bounds; clamping states that visibly.
pub open spec fn clamp_index(i: int, len: int) -> int {
    if i < 0 {
        0
    } else if i > len {
        len
    } else {
        i
    }
}

/// The position of the first header token at or after `i`; `body.len()` if
/// there is none.
pub open spec fn first_header_pos(body: Seq<WisphaToken>, i: int) -> int
    decreases body.len() - i,
    when 0 <= i <= body.len()
{
    if i == body.len() {
        i
    } else if body[i] is Header {
        i
    } else {
        first_header_pos(body, i + 1)
    }
}

pub proof fn lemma_first_header_pos(body: Seq<WisphaToken>, i: int)
    requires
        0 <= i <= body.len(),
    ensures
        i <= first_header_pos(body, i) <= body.len(),
    decreases body.len() - i,
{
    if i < body.len() && !(body[i] is Header) {
        lemma_first_header_pos(body, i + 1);
    }
}

/// The pattern a single-value body expects between and after its content:
/// an empty body line.
pub open spec fn content_expected_patterns(
    expected: Option<Vec<(WisphaToken, Vec<WisphaExpectOption>)>>,
) -> bool {
    &&& expected matches Some(list)
    &&& list@.len() == 1
    &&& list@[0].0 matches WisphaToken::Body(raw) && raw.content@ == Seq::<char>::empty()
    &&& list@[0].1@ == Seq::<WisphaExpectOption>::empty()
}

/// The pattern a multi-line body expects of every token: any body line.
pub open spec fn multiline_expected_patterns(
    expected: Option<Vec<(WisphaToken, Vec<WisphaExpectOption>)>>,
) -> bool {
    &&& expected matches Some(list)
    &&& list@.len() == 1
    &&& list@[0].0 matches WisphaToken::Body(raw) && raw.content@ == Seq::<char>::empty()
    &&& list@[0].1@ == seq![WisphaExpectOption::IgnoreContent]
}

fn content_expected() -> (r: Option<Vec<(WisphaToken, Vec<WisphaExpectOption>)>>)
    ensures
        content_expected_patterns(r),
{
    let mut list: Vec<(WisphaToken, Vec<WisphaExpectOption>)> = Vec::new();
    list.push((WisphaToken::empty_body_token(), Vec::new()));
    proof {
        assert(list@[0].1@ =~= Seq::<WisphaExpectOption>::empty());
    }
    Some(list)
}

fn multiline_expected() -> (r: Option<Vec<(WisphaToken, Vec<WisphaExpectOption>)>>)
    ensures
        multiline_expected_patterns(r),
{
    let mut options: Vec<WisphaExpectOption> = Vec::new();
    options.push(WisphaExpectOption::IgnoreContent);
    let mut list: Vec<(WisphaToken, Vec<WisphaExpectOption>)> = Vec::new();
    list.push((WisphaToken::empty_body_token(), options));
    proof {
        assert(list@[0].1@ =~= seq![WisphaExpectOption::IgnoreContent]);
    }
    Some(list)
}

/// A token matches the single-value pattern exactly when it is an empty
/// body line.
proof fn lemma_content_expected(
    t: WisphaToken,
    expected: Option<Vec<(WisphaToken, Vec<WisphaExpectOption>)>>,
)
    requires
        content_expected_patterns(expected),
    ensures
        spec_is_expected(t, expected) == is_empty_body(t),
{
    let list = expected->0;
    if is_empty_body(t) {
        assert(t.spec_matches(list@[0].0, list@[0].1@));
    } else {
        assert(!list@[0].1@.contains(WisphaExpectOption::IgnoreContent)) by {
            if list@[0].1@.contains(WisphaExpectOption::IgnoreContent) {
                let w = choose|w: int|
                    0 <= w < list@[0].1@.len() && list@[0].1@[w]
                        == WisphaExpectOption::IgnoreContent;
            }
        }
        assert forall|k: int| 0 <= k < list@.len() implies !t.spec_matches(
            list@[k].0,
            list@[k].1@,
        ) by {}
    }
}

/// A token matches the multi-line pattern exactly when it is a body line.
proof fn lemma_multiline_expected(
    t: WisphaToken,
    expected: Option<Vec<(WisphaToken, Vec<WisphaExpectOption>)>>,
)
    requires
        multiline_expected_patterns(expected),
    ensures
        spec_is_expected(t, expected) == (t is Body),
{
    let list = expected->0;
    if t is Body {
        assert(list@[0].1@.contains(WisphaExpectOption::IgnoreContent)) by {
            assert(list@[0].1@[0] == WisphaExpectOption::IgnoreContent);
        }
        assert(t.spec_matches(list@[0].0, list@[0].1@));
    }
}

/// Reads the body of a single-value property: empty lines may surround one
/// content line, whose token is returned; a body of empty lines only
/// yields `None`; anything else is the error.
pub fn get_content_token_from_body(body: Vec<WisphaToken>) -> (r: Result<
    Option<WisphaToken>,
    ParserError,
>)
    ensures
        match r {
            Ok(content) => {
                &&& content_token_model(body@) matches Ok(m)
                &&& match content {
                    Some(t) => m matches Some(i) && t == body@[i],
                    None => m is None,
                }
            },
            Err(e) => {
                &&& content_token_model(body@) matches Err(j)
                &&& e matches ParserError::UnexpectedToken(t, expected)
                &&& t == body@[j]
                &&& content_expected_patterns(expected)
            },
        },
{
    let ghost b = body@;
    let expected_tokens = content_expected();
    let n = body.len();
    let mut token_index: usize = 0;
    while token_index < n
        invariant
            0 <= token_index <= n,
            n == b.len(),
            body@ == b,
            content_expected_patterns(expected_tokens),
            skip_empty_bodies(b, 0) == skip_empty_bodies(b, token_index as int),
        ensures
            0 <= token_index <= n,
            skip_empty_bodies(b, 0) == token_index as int,
        decreases n - token_index,
    {
        proof {
            lemma_content_expected(b[token_index as int], expected_tokens);
        }
        if !is_token_expected(&body[token_index], &expected_tokens) {
            break ;
        }
        token_index = token_index + 1;
    }
    if token_index == n {
        return Ok(None);
    }
    let ghost i = token_index as int;
    let content_token: WisphaToken;
    match &body[token_index] {
        WisphaToken::Body(_) => {
            content_token = body[token_index].clone();
            token_index = token_index + 1;
        },
        WisphaToken::Header(_, _) => {
            proof {
                lemma_skip_empty_bodies(b, 0);
                assert(content_token_model(b) == Err::<Option<int>, int>(token_index as int));
            }
            return Err(
                ParserError::UnexpectedToken(body[token_index].clone(), expected_tokens),
            );
        },
    }
    let ghost i1 = token_index as int;
    while token_index < n
        invariant
            i1 <= token_index <= n,
            1 <= i1 <= n,
            n == b.len(),
            body@ == b,
            content_expected_patterns(expected_tokens),
            skip_empty_bodies(b, 0) == i1 - 1,
            b[i1 - 1] is Body,
            skip_empty_bodies(b, i1) == skip_empty_bodies(b, token_index as int),
        decreases n - token_index,
    {
        proof {
            lemma_content_expected(b[token_index as int], expected_tokens);
        }
        if !is_token_expected(&body[token_index], &expected_tokens) {
            proof {
                assert(skip_empty_bodies(b, token_index as int) == token_index as int);
                lemma_skip_empty_bodies(b, i1);
            }
            return Err(
                ParserError::UnexpectedToken(body[token_index].clone(), expected_tokens),
            );
        }
        token_index = token_index + 1;
    }
    proof {
        assert(skip_empty_bodies(b, token_index as int) == token_index as int);
    }
    Ok(Some(content_token))
}

/// Reads the body of a multi-line property: every token must be a body
/// line, and all of them are the content; the first header is the error.
pub fn get_multiline_content_tokens_from_body(body: Vec<WisphaToken>) -> (r: Result<
    Vec<WisphaToken>,
    ParserError,
>)
    ensures
        match r {
            Ok(content) => first_header_pos(body@, 0) == body@.len() && content@ == body@,
            Err(e) => {
                &&& first_header_pos(body@, 0) < body@.len()
                &&& e matches ParserError::UnexpectedToken(t, expected)
                &&& t == body@[first_header_pos(body@, 0)]
                &&& multiline_expected_patterns(expected)
            },
        },
{
    let ghost b = body@;
    let expected_tokens = multiline_expected();
    let mut content_tokens: Vec<WisphaToken> = Vec::new();
    let n = body.len();
    let mut token_index: usize = 0;
    proof {
        assert(content_tokens@ =~= b.take(0));
    }
    while token_index < n
        invariant
            0 <= token_index <= n,
            n == b.len(),
            body@ == b,
            multiline_expected_patterns(expected_tokens),
            content_tokens@ == b.take(token_index as int),
            first_header_pos(b, 0) == first_header_pos(b, token_index as int),
        decreases n - token_index,
    {
        proof {
            lemma_multiline_expected(b[token_index as int], expected_tokens);
        }
        if is_token_expected(&body[token_index], &expected_tokens) {
            content_tokens.push(body[token_index].clone());
        } else {
            proof {
                assert(first_header_pos(b, token_index as int) == token_index as int);
                lemma_first_header_pos(b, 0);
            }
            return Err(
                ParserError::UnexpectedToken(body[token_index].clone(), expected_tokens),
            );
        }
        token_index = token_index + 1;
        proof {
            assert(content_tokens@ =~= b.take(token_index as int));
        }
    }
    proof {
        assert(first_header_pos(b, token_index as int) == token_index as int);
        assert(b.take(n as int) =~= b);
    }
    Ok(content_tokens)
}

/// What resolving a raw path value against the directory of its document
/// and the root directory of this resolution yields. An absolute path
/// stands as written; a path opened by the root marker continues the root
/// directory, and fails when none was established; any other path
/// continues the document's directory.
pub open spec fn actual_path_spec(
    raw: Seq<char>,
    current_dir: Seq<char>,
    root_dir: Option<Seq<char>>,
) -> Result<Seq<char>, ()> {
    if path_is_absolute(raw) {
        Ok(raw)
    } else if starts_with_root_marker(raw) {
        match root_dir {
            Some(rd) => Ok(join_path(rd, strip_root_marker(raw))),
            None => Err(()),
        }
    } else {
        Ok(join_path(current_dir, raw))
    }
}

/// Resolves a raw path value from a document.
pub fn actual_path(raw: &String, current_dir: &String, root_dir: &Option<String>) -> (r: Result<
    String,
    ParserError,
>)
    ensures
        match r {
            Ok(p) => {
                &&& actual_path_spec(raw@, current_dir@, spec_root_dir(*root_dir)) matches Ok(q)
                &&& p@ == q
            },
            Err(e) => {
                &&& actual_path_spec(raw@, current_dir@, spec_root_dir(*root_dir)) is Err
                &&& e is EnvNotFound
            },
        },
{
    if is_absolute_path(raw) {
        return Ok(raw.clone());
    }
    if path_starts_with_root_marker(raw) {
        match root_dir {
            Some(rd) => {
                let relative_path = path_strip_root_marker(raw);
                return Ok(path_join(rd, &relative_path));
            },
            None => {
                return Err(ParserError::EnvNotFound);
            },
        }
    }
    Ok(path_join(current_dir, raw))
}

/// The character sequences of an optional root directory.
pub open spec fn spec_root_dir(root_dir: Option<String>) -> Option<Seq<char>> {
    match root_dir {
        Some(rd) => Some(rd@),
        None => None,
    }
}


/// Which pattern set an expected-token error reported.
pub enum ExpectKind {
    GroupStart(int),
    SingleContent,
    Multiline,
}

/// The errors the building step can produce, as mathematical values.
pub enum BuildErr {
    Unexpected(WisphaToken, ExpectKind),
    EmptyBody(WisphaToken),
    UnrecognizedEntryFileType(WisphaToken),
    EnvNotFound,
}

/// How a returned `ParserError` realizes a model error.
pub open spec fn reflects_build_err(e: ParserError, m: BuildErr) -> bool {
    match m {
        BuildErr::Unexpected(t, kind) => {
            &&& e matches ParserError::UnexpectedToken(t2, expected)
            &&& t2 == t
            &&& match kind {
                ExpectKind::GroupStart(d) => group_expected_patterns(expected, d),
                ExpectKind::SingleContent => content_expected_patterns(expected),
                ExpectKind::Multiline => multiline_expected_patterns(expected),
            }
        },
        BuildErr::EmptyBody(t) => e matches ParserError::EmptyBody(t2) && t2 == t,
        BuildErr::UnrecognizedEntryFileType(t) => e matches ParserError::UnrecognizedEntryFileType(
            t2,
        ) && t2 == t,
        BuildErr::EnvNotFound => e is EnvNotFound,
    }
}

/// What building a link entry from the body of a link property yields: the
/// single content line, taken as written, resolved against the directory
/// of the document that holds it.
pub open spec fn build_link_model(
    header: WisphaToken,
    body: Seq<WisphaToken>,
    root_dir: Option<Seq<char>>,
) -> Result<IntermediateView, BuildErr> {
    match content_token_model(body) {
        Ok(Some(i)) => {
            let tok = body[i].spec_raw_token();
            match actual_path_spec(tok.content@, parent_dir(tok.file_path@), root_dir) {
                Ok(p) => Ok(IntermediateView::Link(p)),
                Err(_) => Err(BuildErr::EnvNotFound),
            }
        },
        Ok(None) => Err(BuildErr::EmptyBody(header)),
        Err(j) => Err(BuildErr::Unexpected(body[j], ExpectKind::SingleContent)),
    }
}

/// The contents of a sequence of tokens, in order.
pub open spec fn token_contents(body: Seq<WisphaToken>) -> Seq<Seq<char>> {
    body.map_values(|t: WisphaToken| t.spec_raw_token().content@)
}

/// The position of the last property whose header labels a link target,
/// if any: when one is present the whole group builds a link entry and
/// every other property is discarded.
pub open spec fn last_link_prop(props: Seq<(WisphaToken, Seq<WisphaToken>)>) -> Option<int>
    decreases props.len(),
{
    if props.len() == 0 {
        None
    } else if props.last().0.spec_raw_token().content@ == "entry file path"@ {
        Some(props.len() - 1)
    } else {
        last_link_prop(props.drop_last())
    }
}

pub proof fn lemma_last_link_prop(props: Seq<(WisphaToken, Seq<WisphaToken>)>)
    ensures
        match last_link_prop(props) {
            Some(k) => 0 <= k < props.len() && props[k].0.spec_raw_token().content@
                == "entry file path"@ && forall|j: int|
                k < j < props.len() ==> (#[trigger] props[j].0).spec_raw_token().content@
                    != "entry file path"@,
            None => forall|j: int|
                0 <= j < props.len() ==> (#[trigger] props[j].0).spec_raw_token().content@
                    != "entry file path"@,
        },
    decreases props.len(),
{
    if props.len() > 0 && props.last().0.spec_raw_token().content@ != "entry file path"@ {
        lemma_last_link_prop(props.drop_last());
        assert forall|j: int| 0 <= j < props.len() - 1 implies props.drop_last()[j] == props[j] by {}
    }
}

/// One step of reading a property into a direct entry under construction.
/// The header's document stamps the entry's source file; the recognized
/// labels set the entry's fields; a label among the configured property
/// names stores the label itself as the value — a quirk kept deliberately,
/// see the writer's round trip — and any other label is ignored.
pub open spec fn apply_one_property(
    acc: DirectView,
    header: WisphaToken,
    body: Seq<WisphaToken>,
    opts: Seq<crate::config_reader::PropertyConfig>,
    root_dir: Option<Seq<char>>,
    fuel: nat,
) -> Result<DirectView, BuildErr>
    decreases fuel, 0nat, 0nat,
{
    let acc1 = DirectView {
        properties: PropertiesView {
            file_path: header.spec_raw_token().file_path@,
            ..acc.properties
        },
        ..acc
    };
    let label = header.spec_raw_token().content@;
    if label == "file path"@ {
        match content_token_model(body) {
            Ok(Some(i)) => {
                let tok = body[i].spec_raw_token();
                match actual_path_spec(spec_trim(tok.content@), parent_dir(tok.file_path@), root_dir) {
                    Ok(p) => Ok(
                        DirectView {
                            properties: PropertiesView { absolute_path: p, ..acc1.properties },
                            ..acc1
                        },
                    ),
                    Err(_) => Err(BuildErr::EnvNotFound),
                }
            },
            Ok(None) => Err(BuildErr::EmptyBody(header)),
            Err(j) => Err(BuildErr::Unexpected(body[j], ExpectKind::SingleContent)),
        }
    } else if label == "name"@ {
        match content_token_model(body) {
            Ok(Some(i)) => Ok(
                DirectView {
                    properties: PropertiesView {
                        name: spec_trim(body[i].spec_raw_token().content@),
                        ..acc1.properties
                    },
                    ..acc1
                },
            ),
            Ok(None) => Err(BuildErr::EmptyBody(header)),
            Err(j) => Err(BuildErr::Unexpected(body[j], ExpectKind::SingleContent)),
        }
    } else if label == "entry type"@ {
        match content_token_model(body) {
            Ok(Some(i)) => {
                match WisphaEntryType::spec_from(spec_trim(body[i].spec_raw_token().content@)) {
                    Some(t) => Ok(
                        DirectView {
                            properties: PropertiesView { entry_type: t, ..acc1.properties },
                            ..acc1
                        },
                    ),
                    None => Err(BuildErr::UnrecognizedEntryFileType(body[i])),
                }
            },
            Ok(None) => Err(BuildErr::EmptyBody(header)),
            Err(j) => Err(BuildErr::Unexpected(body[j], ExpectKind::SingleContent)),
        }
    } else if label == "description"@ {
        if first_header_pos(body, 0) == body.len() {
            if body.len() == 0 {
                // An empty set of lines yields no description.
                Ok(acc1)
            } else {
                Ok(
                    DirectView {
                        properties: PropertiesView {
                            description: Some(spec_join(token_contents(body), "\n"@)),
                            ..acc1.properties
                        },
                        ..acc1
                    },
                )
            }
        } else {
            Err(BuildErr::Unexpected(body[first_header_pos(body, 0)], ExpectKind::Multiline))
        }
    } else if label == "subentry"@ {
        match header {
            WisphaToken::Header(_, hd) => {
                let nf = (body.len() + 1) as nat;
                if nf < fuel {
                    match build_entry_model(body, hd + 1, opts, root_dir, nf) {
                        Ok(child) => Ok(
                            DirectView { children: acc1.children.push(child), ..acc1 },
                        ),
                        Err(e) => Err(e),
                    }
                } else {
                    // Never reached: a grouped body is shorter than the
                    // tokens it was grouped from, which bounds the fuel.
                    arbitrary()
                }
            },
            WisphaToken::Body(_) => Ok(acc1),
        }
    } else {
        if exists|k: int| 0 <= k < opts.len() && (#[trigger] opts[k].name@) == label {
            Ok(
                DirectView {
                    properties: PropertiesView {
                        customized: acc1.properties.customized.push((label, label)),
                        ..acc1.properties
                    },
                    ..acc1
                },
            )
        } else {
            Ok(acc1)
        }
    }
}

/// Reads a sequence of properties into a direct entry under construction,
/// in order.
pub open spec fn apply_props_model(
    props: Seq<(WisphaToken, Seq<WisphaToken>)>,
    acc: DirectView,
    opts: Seq<crate::config_reader::PropertyConfig>,
    root_dir: Option<Seq<char>>,
    fuel: nat,
) -> Result<DirectView, BuildErr>
    decreases fuel, 0nat, props.len(),
{
    if props.len() == 0 {
        Ok(acc)
    } else {
        match apply_one_property(acc, props[0].0, props[0].1, opts, root_dir, fuel) {
            Ok(acc2) => apply_props_model(props.drop_first(), acc2, opts, root_dir, fuel),
            Err(e) => Err(e),
        }
    }
}

/// What building an entry from grouped properties yields: a link when any
/// property labels a link target (the last such property wins and the rest
/// of the group is discarded), else a direct entry read from all the
/// properties in order.
pub open spec fn entry_from_props_model(
    props: Seq<(WisphaToken, Seq<WisphaToken>)>,
    opts: Seq<crate::config_reader::PropertyConfig>,
    root_dir: Option<Seq<char>>,
    fuel: nat,
) -> Result<IntermediateView, BuildErr>
    decreases fuel, 1nat, 0nat,
{
    match last_link_prop(props) {
        Some(k) => build_link_model(props[k].0, props[k].1, root_dir),
        None => match apply_props_model(props, default_direct_view(), opts, root_dir, fuel) {
            Ok(v) => Ok(IntermediateView::Direct(v)),
            Err(e) => Err(e),
        },
    }
}

/// What parsing one document's tokens at the given depth yields: the
/// intermediate entry, or the first error. This is the structural parser
/// in one piece: group, then build.
pub open spec fn build_entry_model(
    tokens: Seq<WisphaToken>,
    depth: int,
    opts: Seq<crate::config_reader::PropertyConfig>,
    root_dir: Option<Seq<char>>,
    fuel: nat,
) -> Result<IntermediateView, BuildErr>
    decreases fuel, 2nat, 0nat,
{
    match group_props(tokens, 0, depth) {
        Err(j) => Err(BuildErr::Unexpected(tokens[j], ExpectKind::GroupStart(depth))),
        Ok(props) => entry_from_props_model(props, opts, root_dir, fuel),
    }
}

/// The canonical fuel: one more than the token count always suffices,
/// because every property body is strictly shorter than the tokens it was
/// grouped from.
pub open spec fn build_entry_spec(
    tokens: Seq<WisphaToken>,
    depth: int,
    opts: Seq<crate::config_reader::PropertyConfig>,
    root_dir: Option<Seq<char>>,
) -> Result<IntermediateView, BuildErr> {
    build_entry_model(tokens, depth, opts, root_dir, (tokens.len() + 1) as nat)
}

/// Fuel enough for every body of a property sequence.
pub open spec fn props_fuel(props: Seq<(WisphaToken, Seq<WisphaToken>)>) -> nat
    decreases props.len(),
{
    if props.len() == 0 {
        1
    } else {
        let rest = props_fuel(props.drop_first());
        let this = (props[0].1.len() + 2) as nat;
        if this >= rest {
            this
        } else {
            rest
        }
    }
}

pub proof fn lemma_props_fuel(props: Seq<(WisphaToken, Seq<WisphaToken>)>)
    ensures
        props_fuel(props) >= 1,
        forall|k: int| 0 <= k < props.len() ==> (#[trigger] props[k].1).len() + 2 <= props_fuel(props),
    decreases props.len(),
{
    if props.len() > 0 {
        lemma_props_fuel(props.drop_first());
        assert forall|k: int| 0 <= k < props.len() implies (#[trigger] props[k].1).len() + 2
            <= props_fuel(props) by {
            if k > 0 {
                assert(props.drop_first()[k - 1] == props[k]);
            }
        }
    }
}

/// The result of reading properties does not depend on the fuel, as long
/// as the fuel covers every body.
pub proof fn lemma_apply_props_fuel(
    props: Seq<(WisphaToken, Seq<WisphaToken>)>,
    acc: DirectView,
    opts: Seq<crate::config_reader::PropertyConfig>,
    root_dir: Option<Seq<char>>,
    f1: nat,
    f2: nat,
)
    requires
        forall|k: int| 0 <= k < props.len() ==> (#[trigger] props[k].1).len() + 2 <= f1,
        forall|k: int| 0 <= k < props.len() ==> (#[trigger] props[k].1).len() + 2 <= f2,
    ensures
        apply_props_model(props, acc, opts, root_dir, f1) == apply_props_model(
            props,
            acc,
            opts,
            root_dir,
            f2,
        ),
    decreases props.len(),
{
    if props.len() > 0 {
        assert(apply_one_property(acc, props[0].0, props[0].1, opts, root_dir, f1)
            == apply_one_property(acc, props[0].0, props[0].1, opts, root_dir, f2));
        match apply_one_property(acc, props[0].0, props[0].1, opts, root_dir, f1) {
            Ok(acc2) => {
                assert forall|k: int| 0 <= k < props.drop_first().len() implies (
                #[trigger] props.drop_first()[k].1).len() + 2 <= f1 by {
                    assert(props.drop_first()[k] == props[k + 1]);
                }
                assert forall|k: int| 0 <= k < props.drop_first().len() implies (
                #[trigger] props.drop_first()[k].1).len() + 2 <= f2 by {
                    assert(props.drop_first()[k] == props[k + 1]);
                }
                lemma_apply_props_fuel(props.drop_first(), acc2, opts, root_dir, f1, f2);
            },
            Err(_) => {},
        }
    }
}


/// The models of grouped properties, for stating contracts.
pub open spec fn raw_props_models(props: Seq<WisphaRawProperty>) -> Seq<
    (WisphaToken, Seq<WisphaToken>),
> {
    props.map_values(|p: WisphaRawProperty| (p.header, p.body@))
}

/// Builds the link entry a link-target property describes: its single
/// content line, taken as written, names the linked document.
pub fn build_wispha_link_entry(
    file_path_property: WisphaRawProperty,
    root_dir: &Option<String>,
) -> (r: Result<WisphaIntermediateEntry, ParserError>)
    ensures
        match r {
            Ok(entry) => {
                &&& build_link_model(
                    file_path_property.header,
                    file_path_property.body@,
                    spec_root_dir(*root_dir),
                ) matches Ok(v)
                &&& entry@ == v
            },
            Err(e) => {
                &&& build_link_model(
                    file_path_property.header,
                    file_path_property.body@,
                    spec_root_dir(*root_dir),
                ) matches Err(m)
                &&& reflects_build_err(e, m)
            },
        },
{
    let ghost b = file_path_property.body@;
    match get_content_token_from_body(file_path_property.body) {
        Ok(Some(content_token)) => {
            let raw = content_token.raw_token().content.clone();
            let current_dir = path_parent(&content_token.raw_token().file_path);
            match actual_path(&raw, &current_dir, root_dir) {
                Ok(p) => Ok(
                    WisphaIntermediateEntry::Link(WisphaLinkEntry { entry_file_path: p }),
                ),
                Err(e) => Err(e),
            }
        },
        Ok(None) => Err(ParserError::EmptyBody(file_path_property.header)),
        Err(e) => Err(e),
    }
}

/// Whether one of the configured user-defined properties has this name.
fn find_custom_property(options: &ParserOptions, name: &String) -> (r: Option<String>)
    ensures
        match r {
            Some(n) => n@ == name@ && exists|k: int|
                0 <= k < options.properties@.len() && (#[trigger] options.properties@[k].name@)
                    == name@,
            None => forall|k: int|
                0 <= k < options.properties@.len() ==> (#[trigger] options.properties@[k].name@)
                    != name@,
        },
{
    let n = options.properties.len();
    let mut k: usize = 0;
    while k < n
        invariant
            0 <= k <= n,
            n == options.properties@.len(),
            forall|j: int| 0 <= j < k ==> (#[trigger] options.properties@[j].name@) != name@,
        decreases n - k,
    {
        if options.properties[k].name.eq(name) {
            return Some(options.properties[k].name.clone());
        }
        k = k + 1;
    }
    None
}

/// Every grouped property carries headers with room above their depth.
pub open spec fn props_depths_ok(props: Seq<WisphaRawProperty>) -> bool {
    forall|k: int|
        0 <= k < props.len() ==> header_depth_ok((#[trigger] props[k]).header)
            && header_depths_ok(props[k].body@)
}

/// Builds a direct entry by reading the grouped properties in order.
pub fn build_wispha_direct_entry(
    properties: Vec<WisphaRawProperty>,
    options: &ParserOptions,
    root_dir: &Option<String>,
) -> (r: Result<WisphaDirectEntry, ParserError>)
    requires
        props_depths_ok(properties@),
    ensures
        ({
            let models = raw_props_models(properties@);
            let outcome = apply_props_model(
                models,
                default_direct_view(),
                options.properties@,
                spec_root_dir(*root_dir),
                props_fuel(models),
            );
            match r {
                Ok(entry) => outcome matches Ok(v) && entry.direct_view() == v,
                Err(e) => outcome matches Err(m) && reflects_build_err(e, m),
            }
        }),
    decreases props_total(properties@), 0nat,
{
    let ghost models = raw_props_models(properties@);
    let ghost fuel = props_fuel(models);
    let ghost opts = options.properties@;
    let ghost root = spec_root_dir(*root_dir);
    proof {
        lemma_props_fuel(models);
    }
    let mut direct_entry = WisphaDirectEntry::default();
    let n = properties.len();
    let mut i: usize = 0;
    proof {
        assert(models.skip(0) =~= models);
    }
    while i < n
        invariant
            0 <= i <= n,
            n == properties@.len(),
            models == raw_props_models(properties@),
            fuel == props_fuel(models),
            opts == options.properties@,
            root == spec_root_dir(*root_dir),
            forall|k: int| 0 <= k < models.len() ==> (#[trigger] models[k].1).len() + 2 <= fuel,
            props_depths_ok(properties@),
            apply_props_model(models, default_direct_view(), opts, root, fuel)
                == apply_props_model(models.skip(i as int), direct_entry.direct_view(), opts, root, fuel),
        decreases n - i,
    {
        let ghost acc0 = direct_entry.direct_view();
        let ghost prop_model = models[i as int];
        proof {
            assert(models.skip(i as int)[0] == models[i as int]);
            assert(models.skip(i as int).drop_first() =~= models.skip(i as int + 1));
            assert(prop_model.0 == properties@[i as int].header);
            assert(prop_model.1 == properties@[i as int].body@);
        }
        direct_entry.properties.file_path = properties[i].header.raw_token().file_path.clone();
        let ghost acc1 = direct_entry.direct_view();
        proof {
            assert(acc1 =~= DirectView {
                properties: PropertiesView {
                    file_path: prop_model.0.spec_raw_token().file_path@,
                    ..acc0.properties
                },
                ..acc0
            });
        }
        let header_content = &properties[i].header.raw_token().content;
        if string_eq_str(header_content, ABSOLUTE_PATH_HEADER) {
            proof {
                reveal_strlit("file path");
            }
            match get_content_token_from_body(clone_tokens(&properties[i].body)) {
                Ok(Some(content_token)) => {
                    let raw = trim_string(&content_token.raw_token().content);
                    let current_dir = path_parent(&content_token.raw_token().file_path);
                    match actual_path(&raw, &current_dir, root_dir) {
                        Ok(p) => {
                            direct_entry.properties.absolute_path = p;
                            proof {
                                assert(direct_entry.direct_view() =~= apply_one_property(
                                    acc0, prop_model.0, prop_model.1, opts, root, fuel,
                                )->Ok_0);
                            }
                        },
                        Err(e) => {
                            return Err(e);
                        },
                    }
                },
                Ok(None) => {
                    return Err(ParserError::EmptyBody(properties[i].header.clone()));
                },
                Err(e) => {
                    return Err(e);
                },
            }
        } else if string_eq_str(header_content, NAME_HEADER) {
            proof {
                reveal_strlit("name");
            }
            match get_content_token_from_body(clone_tokens(&properties[i].body)) {
                Ok(Some(content_token)) => {
                    direct_entry.properties.name = trim_string(&content_token.raw_token().content);
                    proof {
                        assert(direct_entry.direct_view() =~= apply_one_property(
                            acc0, prop_model.0, prop_model.1, opts, root, fuel,
                        )->Ok_0);
                    }
                },
                Ok(None) => {
                    return Err(ParserError::EmptyBody(properties[i].header.clone()));
                },
                Err(e) => {
                    return Err(e);
                },
            }
        } else if string_eq_str(header_content, ENTRY_TYPE_HEADER) {
            proof {
                reveal_strlit("entry type");
            }
            match get_content_token_from_body(clone_tokens(&properties[i].body)) {
                Ok(Some(content_token)) => {
                    match WisphaEntryType::from(trim_string(&content_token.raw_token().content)) {
                        Some(t) => {
                            direct_entry.properties.entry_type = t;
                            proof {
                                assert(direct_entry.direct_view() =~= apply_one_property(
                                    acc0, prop_model.0, prop_model.1, opts, root, fuel,
                                )->Ok_0);
                            }
                        },
                        None => {
                            return Err(ParserError::UnrecognizedEntryFileType(content_token));
                        },
                    }
                },
                Ok(None) => {
                    return Err(ParserError::EmptyBody(properties[i].header.clone()));
                },
                Err(e) => {
                    return Err(e);
                },
            }
        } else if string_eq_str(header_content, DESCRIPTION_HEADER) {
            proof {
                reveal_strlit("description");
            }
            match get_multiline_content_tokens_from_body(clone_tokens(&properties[i].body)) {
                Ok(content_tokens) => {
                    if content_tokens.len() > 0 {
                        let mut contents: Vec<String> = Vec::new();
                        let m = content_tokens.len();
                        let mut k: usize = 0;
                        while k < m
                            invariant
                                0 <= k <= m,
                                m == content_tokens@.len(),
                                crate::helper::text::string_views(contents@) == token_contents(
                                    content_tokens@.take(k as int),
                                ),
                            decreases m - k,
                        {
                            let ghost prev = contents@;
                            contents.push(content_tokens[k].raw_token().content.clone());
                            k = k + 1;
                            proof {
                                assert(crate::helper::text::string_views(prev).len()
                                    == prev.len());
                                assert(token_contents(content_tokens@.take(k as int - 1)).len()
                                    == k as int - 1);
                                assert(prev.len() == k as int - 1);
                                assert(contents@.len() == k as int);
                                let a = crate::helper::text::string_views(contents@);
                                let b = token_contents(content_tokens@.take(k as int));
                                assert(a.len() == k as int && b.len() == k as int);
                                assert forall|j: int| 0 <= j < a.len() implies a[j] == b[j] by {
                                    assert(content_tokens@.take(k as int)[j]
                                        == content_tokens@[j]);
                                    if j < k as int - 1 {
                                        assert(contents@[j] == prev[j]);
                                        assert(crate::helper::text::string_views(prev)[j]
                                            == token_contents(
                                            content_tokens@.take(k as int - 1),
                                        )[j]);
                                        assert(content_tokens@.take(k as int - 1)[j]
                                            == content_tokens@[j]);
                                    }
                                }
                                assert(a =~= b);
                            }
                        }
                        proof {
                            assert(content_tokens@.take(m as int) =~= content_tokens@);
                        }
                        let joined = crate::helper::text::join_strings(&contents, LINE_SEPARATOR);
                        direct_entry.properties.description = Some(joined);
                        proof {
                            reveal_strlit("\n");
                            assert(direct_entry.direct_view() =~= apply_one_property(
                                acc0, prop_model.0, prop_model.1, opts, root, fuel,
                            )->Ok_0);
                        }
                    } else {
                        proof {
                            assert(direct_entry.direct_view() =~= apply_one_property(
                                acc0, prop_model.0, prop_model.1, opts, root, fuel,
                            )->Ok_0);
                        }
                    }
                },
                Err(e) => {
                    return Err(e);
                },
            }
        } else if string_eq_str(header_content, SUB_ENTRIES_HEADER) {
            proof {
                reveal_strlit("subentry");
            }
            match properties[i].header.depth() {
                Some(header_depth) => {
                    proof {
                        assert(header_depth_ok(properties@[i as int].header));
                        assert(header_depth < usize::MAX);
                    }
                    let body_clone = clone_tokens(&properties[i].body);
                    proof {
                        lemma_props_total(properties@, i as int);
                    }
                    match build_wispha_entry_with_relative_path(
                        body_clone,
                        header_depth + 1,
                        options,
                        root_dir,
                    ) {
                        Ok(sub_entry) => {
                            let ghost before = direct_entry.sub_entries@;
                            direct_entry.sub_entries.push(sub_entry);
                            proof {
                                assert(prop_model.1.len() + 2 <= fuel);
                                WisphaIntermediateEntry::lemma_views_of(before);
                                WisphaIntermediateEntry::lemma_views_of(
                                    direct_entry.sub_entries@,
                                );
                                let a = direct_entry.direct_view().children;
                                let b = apply_one_property(
                                    acc0, prop_model.0, prop_model.1, opts, root, fuel,
                                )->Ok_0.children;
                                assert(a.len() == before.len() + 1);
                                assert(b =~= acc0.children.push(
                                    build_entry_spec(prop_model.1, prop_model.0.spec_depth()->0
                                        + 1, opts, root)->Ok_0,
                                ));
                                assert forall|j: int| 0 <= j < a.len() implies a[j] == b[j] by {
                                    if j < before.len() {
                                        assert(direct_entry.sub_entries@[j] == before[j]);
                                        assert(a[j] == before[j].view());
                                        assert(acc0.children[j] == before[j].view());
                                    } else {
                                        assert(direct_entry.sub_entries@[j] == sub_entry);
                                        assert(a[j] == sub_entry.view());
                                    }
                                }
                                assert(a =~= b);
                                assert(direct_entry.direct_view() =~= apply_one_property(
                                    acc0, prop_model.0, prop_model.1, opts, root, fuel,
                                )->Ok_0);
                            }
                        },
                        Err(e) => {
                            return Err(e);
                        },
                    }
                },
                None => {
                    proof {
                        assert(direct_entry.direct_view() =~= apply_one_property(
                            acc0, prop_model.0, prop_model.1, opts, root, fuel,
                        )->Ok_0);
                    }
                },
            }
        } else {
            match find_custom_property(options, header_content) {
                Some(config_name) => {
                    let value = header_content.clone();
                    direct_entry.properties.insert_customized(config_name, value);
                    proof {
                        assert(direct_entry.direct_view() =~= apply_one_property(
                            acc0, prop_model.0, prop_model.1, opts, root, fuel,
                        )->Ok_0);
                    }
                },
                None => {
                    proof {
                        assert(direct_entry.direct_view() =~= apply_one_property(
                            acc0, prop_model.0, prop_model.1, opts, root, fuel,
                        )->Ok_0);
                    }
                },
            }
        }
        i = i + 1;
    }
    proof {
        assert(models.skip(n as int) =~= Seq::<(WisphaToken, Seq<WisphaToken>)>::empty());
    }
    Ok(direct_entry)
}

/// The tokens a property sequence covers: one header and its body each.
pub open spec fn props_total(props: Seq<WisphaRawProperty>) -> nat
    decreases props.len(),
{
    if props.len() == 0 {
        0
    } else {
        (1 + props[0].body@.len() + props_total(props.drop_first())) as nat
    }
}

/// Every property's body is covered by the total.
pub proof fn lemma_props_total(props: Seq<WisphaRawProperty>, i: int)
    requires
        0 <= i < props.len(),
    ensures
        props[i].body@.len() < props_total(props),
    decreases props.len(),
{
    if i > 0 {
        lemma_props_total(props.drop_first(), i - 1);
        assert(props.drop_first()[i - 1] == props[i]);
    }
}

/// Builds the entry a property group describes: a link when any property
/// labels a link target, the last one winning; else a direct entry.
pub fn build_wispha_entry_with_relative_path_from_properties(
    properties: Vec<WisphaRawProperty>,
    options: &ParserOptions,
    root_dir: &Option<String>,
) -> (r: Result<WisphaIntermediateEntry, ParserError>)
    requires
        props_depths_ok(properties@),
    ensures
        ({
            let models = raw_props_models(properties@);
            let outcome = entry_from_props_model(
                models,
                options.properties@,
                spec_root_dir(*root_dir),
                props_fuel(models),
            );
            match r {
                Ok(entry) => outcome matches Ok(v) && entry@ == v,
                Err(e) => outcome matches Err(m) && reflects_build_err(e, m),
            }
        }),
    decreases props_total(properties@), 1nat,
{
    let ghost models = raw_props_models(properties@);
    proof {
        lemma_last_link_prop(models);
    }
    let n = properties.len();
    let mut file_path_property: Option<WisphaRawProperty> = None;
    let ghost mut found: Option<int> = None;
    let mut i: usize = 0;
    while i < n
        invariant
            0 <= i <= n,
            n == properties@.len(),
            models == raw_props_models(properties@),
            match found {
                Some(k) => {
                    &&& 0 <= k < i
                    &&& models[k].0.spec_raw_token().content@ == "entry file path"@
                    &&& forall|j: int|
                        k < j < i ==> (#[trigger] models[j].0).spec_raw_token().content@
                            != "entry file path"@
                    &&& file_path_property matches Some(p) && p.header == models[k].0 && p.body@
                        == models[k].1
                },
                None => {
                    &&& file_path_property is None
                    &&& forall|j: int|
                        0 <= j < i ==> (#[trigger] models[j].0).spec_raw_token().content@
                            != "entry file path"@
                },
            },
        decreases n - i,
    {
        proof {
            reveal_strlit("entry file path");
        }
        if string_eq_str(&properties[i].header.raw_token().content, ENTRY_FILE_PATH_HEADER) {
            file_path_property = Some(properties[i].clone());
            proof {
                found = Some(i as int);
            }
        }
        i = i + 1;
    }
    match file_path_property {
        Some(prop) => {
            proof {
                let k = found->0;
                assert(last_link_prop(models) == Some(k)) by {
                    lemma_last_link_prop_unique(models, k);
                }
            }
            build_wispha_link_entry(prop, root_dir)
        },
        None => {
            match build_wispha_direct_entry(properties, options, root_dir) {
                Ok(entry) => Ok(WisphaIntermediateEntry::Direct(entry)),
                Err(e) => Err(e),
            }
        },
    }
}

/// The last property labelled as a link target is the one the search
/// keeps.
proof fn lemma_last_link_prop_unique(props: Seq<(WisphaToken, Seq<WisphaToken>)>, k: int)
    requires
        0 <= k < props.len(),
        props[k].0.spec_raw_token().content@ == "entry file path"@,
        forall|j: int|
            k < j < props.len() ==> (#[trigger] props[j].0).spec_raw_token().content@
                != "entry file path"@,
    ensures
        last_link_prop(props) == Some(k),
    decreases props.len(),
{
    if k == props.len() - 1 {
    } else {
        assert(props.last().0.spec_raw_token().content@ != "entry file path"@);
        assert forall|j: int|
            k < j < props.drop_last().len() implies (
        #[trigger] props.drop_last()[j].0).spec_raw_token().content@ != "entry file path"@ by {
            assert(props.drop_last()[j] == props[j]);
        }
        assert(props.drop_last()[k] == props[k]);
        lemma_last_link_prop_unique(props.drop_last(), k);
    }
}

/// Parses one document's tokens into an intermediate entry: groups them
/// into properties at the given depth and builds the entry they describe.
pub fn build_wispha_entry_with_relative_path(
    tokens: Vec<WisphaToken>,
    depth: usize,
    options: &ParserOptions,
    root_dir: &Option<String>,
) -> (r: Result<WisphaIntermediateEntry, ParserError>)
    requires
        header_depths_ok(tokens@),
    ensures
        ({
            let outcome = build_entry_spec(
                tokens@,
                depth as int,
                options.properties@,
                spec_root_dir(*root_dir),
            );
            match r {
                Ok(entry) => outcome matches Ok(v) && entry@ == v,
                Err(e) => outcome matches Err(m) && reflects_build_err(e, m),
            }
        }),
    decreases tokens@.len(), 2nat,
{
    let ghost toks = tokens@;
    proof {
        lemma_group_props_bounds(toks, 0, depth as int);
    }
    let properties = match build_wispha_properties(tokens, depth) {
        Ok(props) => props,
        Err(e) => {
            return Err(e);
        },
    };
    let ghost models = raw_props_models(properties@);
    proof {
        assert(models =~= group_props(toks, 0, depth as int)->Ok_0);
        lemma_group_props_depths(toks, 0, depth as int);
        assert forall|k: int| 0 <= k < properties@.len() implies header_depth_ok((
        #[trigger] properties@[k]).header) && header_depths_ok(properties@[k].body@) by {
            assert(models[k] == (properties@[k].header, properties@[k].body@));
        }
        lemma_props_fuel(models);
        lemma_group_total(toks, 0, depth as int);
        lemma_apply_props_fuel(
            models,
            default_direct_view(),
            options.properties@,
            spec_root_dir(*root_dir),
            props_fuel(models),
            (toks.len() + 1) as nat,
        );
        assert(props_total(properties@) <= toks.len()) by {
            lemma_props_total_models(properties@, toks, depth as int);
        }
    }
    build_wispha_entry_with_relative_path_from_properties(properties, options, root_dir)
}

/// Grouping covers at most the tokens it was given: the bodies plus one
/// header each never exceed the token count.
proof fn lemma_group_total(tokens: Seq<WisphaToken>, i: int, depth: int)
    requires
        0 <= i <= tokens.len(),
    ensures
        match group_props(tokens, i, depth) {
            Ok(props) => group_models_total(props) <= tokens.len() - i,
            Err(_) => true,
        },
    decreases tokens.len() - i,
{
    if i < tokens.len() && group_start_ok(tokens[i], depth) {
        lemma_body_end(tokens, i + 1, depth);
        let e = body_end(tokens, i + 1, depth);
        lemma_group_total(tokens, e, depth);
        match group_props(tokens, e, depth) {
            Ok(rest) => {
                assert(group_props(tokens, i, depth) == Ok::<_, int>(
                    seq![(tokens[i], tokens.subrange(i + 1, e))] + rest,
                ));
                let whole = seq![(tokens[i], tokens.subrange(i + 1, e))] + rest;
                assert(whole.drop_first() =~= rest);
            },
            Err(_) => {},
        }
    }
}

/// The tokens a sequence of property models covers.
pub open spec fn group_models_total(props: Seq<(WisphaToken, Seq<WisphaToken>)>) -> nat
    decreases props.len(),
{
    if props.len() == 0 {
        0
    } else {
        (1 + props[0].1.len() + group_models_total(props.drop_first())) as nat
    }
}

/// The exec properties and their models cover the same tokens.
proof fn lemma_props_total_models(props: Seq<WisphaRawProperty>, tokens: Seq<WisphaToken>, depth: int)
    requires
        0 <= depth,
        group_props(tokens, 0, depth) matches Ok(ms) && raw_props_models(props) == ms,
        group_models_total(raw_props_models(props)) <= tokens.len(),
    ensures
        props_total(props) <= tokens.len(),
{
    lemma_props_total_eq(props);
}

/// The two token totals agree.
proof fn lemma_props_total_eq(props: Seq<WisphaRawProperty>)
    ensures
        props_total(props) == group_models_total(raw_props_models(props)),
    decreases props.len(),
{
    if props.len() > 0 {
        lemma_props_total_eq(props.drop_first());
        assert(raw_props_models(props).drop_first() =~= raw_props_models(props.drop_first()));
    }
}


/// One dispatched unit of background work: the reserved arena slot that
/// will receive the linked document's content, and the document's path.
pub struct PendingLink {
    pub node: usize,
    pub entry_file_path: String,
}

/// The values of the dispatched units.
pub open spec fn pending_views(ps: Seq<PendingLink>) -> Seq<(int, Seq<char>)> {
    ps.map_values(|p: PendingLink| (p.node as int, p.entry_file_path@))
}

/// The resolution in progress: the arena of the tree under construction,
/// and the units of work dispatched but not yet completed. The caller runs
/// the units — each reads one document — in any order, on any number of
/// workers; each completion splices one parsed document into its reserved
/// slot. Resolution is complete when no unit is left.
pub struct ResolveState {
    pub nodes: Vec<WisphaEntry>,
    pub pending: Vec<PendingLink>,
}

/// What splicing a parsed entry into a reserved slot yields.
///
/// A link contributes nothing to the arena: it only dispatches a unit that
/// will fill the same slot. A direct entry writes its properties into the
/// slot and reserves one fresh slot per child, in document order, before
/// any background work on the children can begin; that is what fixes
/// sibling order regardless of completion order.
pub open spec fn splice(
    arena: Seq<NodeView>,
    pending: Seq<(int, Seq<char>)>,
    slot: int,
    entry: IntermediateView,
) -> (Seq<NodeView>, Seq<(int, Seq<char>)>)
    decreases entry,
{
    match entry {
        IntermediateView::Link(path) => (arena, pending.push((slot, path))),
        IntermediateView::Direct(d) => {
            let arena1 = arena.update(
                slot,
                NodeView { properties: d.properties, ..arena[slot] },
            );
            let (arena2, pending2, child_indices) = splice_children(
                arena1,
                pending,
                slot,
                d.children,
            );
            (
                arena2.update(slot, NodeView { children: child_indices, ..arena2[slot] }),
                pending2,
            )
        },
    }
}

/// Reserves one fresh slot per child and splices each child into its slot,
/// in document order; yields the reserved indices.
pub open spec fn splice_children(
    arena: Seq<NodeView>,
    pending: Seq<(int, Seq<char>)>,
    parent: int,
    children: Seq<IntermediateView>,
) -> (Seq<NodeView>, Seq<(int, Seq<char>)>, Seq<int>)
    decreases children,
{
    if children.len() == 0 {
        (arena, pending, Seq::empty())
    } else {
        let idx = arena.len() as int;
        let reserved = arena.push(
            NodeView {
                properties: default_properties_view(),
                sup: Some(parent),
                children: Seq::empty(),
            },
        );
        let (arena1, pending1) = splice(reserved, pending, idx, children[0]);
        let (arena2, pending2, rest) = splice_children(
            arena1,
            pending1,
            parent,
            children.drop_first(),
        );
        (arena2, pending2, seq![idx] + rest)
    }
}

/// A resolution state is well formed when its arena is a forest whose
/// child indices run forward, every child names its parent, the root slot
/// has no parent, and every dispatched unit names a slot in the arena.
impl ResolveState {
    pub open spec fn wf(self) -> bool {
        &&& self.nodes@.len() > 0
        &&& nodes_ordered(self.nodes@)
        &&& forall|i: int, k: int|
            0 <= i < self.nodes@.len() && 0 <= k < self.nodes@[i].sub_entries@.len()
                ==> self.nodes@[(#[trigger] self.nodes@[i].sub_entries@[k]) as int].sup_entry
                == Some(i as usize)
        &&& self.nodes@[0].sup_entry is None
        &&& crate::wispha::common::sups_ordered(self.nodes@)
        &&& forall|k: int|
            0 <= k < self.pending@.len() ==> (#[trigger] self.pending@[k]).node
                < self.nodes@.len()
    }

    /// Opens a resolution: one reserved root slot, and one dispatched unit
    /// that will read the root document into it.
    pub fn new(root_document_path: String) -> (r: ResolveState)
        ensures
            r.wf(),
            arena_view(r.nodes@) == seq![
                NodeView {
                    properties: default_properties_view(),
                    sup: None::<int>,
                    children: Seq::<int>::empty(),
                },
            ],
            pending_views(r.pending@) == seq![(0int, root_document_path@)],
    {
        let mut nodes: Vec<WisphaEntry> = Vec::new();
        nodes.push(WisphaEntry::default());
        let mut pending: Vec<PendingLink> = Vec::new();
        pending.push(PendingLink { node: 0, entry_file_path: root_document_path });
        let r = ResolveState { nodes, pending };
        proof {
            assert(arena_view(r.nodes@) =~~= seq![
                NodeView {
                    properties: default_properties_view(),
                    sup: None::<int>,
                    children: Seq::<int>::empty(),
                },
            ]);
            assert(pending_views(r.pending@) =~= seq![
                (0int, r.pending@[0].entry_file_path@),
            ]);
        }
        r
    }

    /// Takes one dispatched unit, to be run by a worker; `None` when
    /// resolution is complete.
    pub fn take_pending(&mut self) -> (r: Option<PendingLink>)
        requires
            old(self).wf(),
        ensures
            final(self).wf(),
            final(self).nodes == old(self).nodes,
            match r {
                Some(p) => {
                    &&& old(self).pending@.len() > 0
                    &&& p == old(self).pending@.last()
                    &&& final(self).pending@ == old(self).pending@.drop_last()
                    &&& p.node < final(self).nodes@.len()
                },
                None => old(self).pending@.len() == 0 && final(self).pending@ == old(
                    self,
                ).pending@,
            },
    {
        let r = self.pending.pop();
        proof {
            if r is Some {
                assert(old(self).pending@[old(self).pending@.len() - 1] == r->0);
            }
        }
        r
    }

    /// Whether any dispatched unit is still outstanding.
    pub fn is_complete(&self) -> (r: bool)
        ensures
            r == (self.pending@.len() == 0),
    {
        self.pending.len() == 0
    }

    /// Hands the finished arena over as the resolved tree.
    pub fn into_tree(self) -> (r: WisphaTree)
        requires
            self.wf(),
            self.pending@.len() == 0,
        ensures
            r.wf(),
            r.nodes == self.nodes,
    {
        WisphaTree { nodes: self.nodes }
    }
}

/// Splicing changes nothing outside its slot: every other existing node
/// keeps its record, the slot keeps its parent, the dispatched units are
/// only appended to, and every fresh node's parent lies in the new arena.
/// This is what makes completion order irrelevant: no unit can disturb
/// what another unit, or the caller, has already written.
pub proof fn lemma_splice_frame(
    arena: Seq<NodeView>,
    pending: Seq<(int, Seq<char>)>,
    slot: int,
    entry: IntermediateView,
)
    requires
        0 <= slot < arena.len(),
    ensures
        ({
            let (a2, p2) = splice(arena, pending, slot, entry);
            &&& a2.len() >= arena.len()
            &&& forall|i: int| 0 <= i < arena.len() && i != slot ==> a2[i] == arena[i]
            &&& a2[slot].sup == arena[slot].sup
            &&& p2.len() >= pending.len()
            &&& forall|j: int| 0 <= j < pending.len() ==> p2[j] == pending[j]
            &&& forall|j: int|
                pending.len() <= j < p2.len() ==> 0 <= (#[trigger] p2[j]).0 < a2.len()
            &&& forall|i: int|
                arena.len() <= i < a2.len() ==> ((#[trigger] a2[i]).sup matches Some(s) && 0 <= s
                    < a2.len())
        }),
    decreases entry,
{
    match entry {
        IntermediateView::Link(_) => {},
        IntermediateView::Direct(d) => {
            let arena1 = arena.update(slot, NodeView { properties: d.properties, ..arena[slot] });
            lemma_splice_children_frame(arena1, pending, slot, d.children);
        },
    }
}

/// The children version of the frame property: reserving and filling the
/// child slots leaves every node of the given arena untouched, and yields
/// exactly one fresh slot per child, in order.
pub proof fn lemma_splice_children_frame(
    arena: Seq<NodeView>,
    pending: Seq<(int, Seq<char>)>,
    parent: int,
    children: Seq<IntermediateView>,
)
    requires
        0 <= parent < arena.len(),
    ensures
        ({
            let (a2, p2, idxs) = splice_children(arena, pending, parent, children);
            &&& a2.len() >= arena.len()
            &&& forall|i: int| 0 <= i < arena.len() ==> a2[i] == arena[i]
            &&& p2.len() >= pending.len()
            &&& forall|j: int| 0 <= j < pending.len() ==> p2[j] == pending[j]
            &&& forall|j: int|
                pending.len() <= j < p2.len() ==> 0 <= (#[trigger] p2[j]).0 < a2.len()
            &&& forall|i: int|
                arena.len() <= i < a2.len() ==> ((#[trigger] a2[i]).sup matches Some(s) && 0 <= s
                    < a2.len())
            &&& idxs.len() == children.len()
            &&& forall|m: int|
                0 <= m < idxs.len() ==> arena.len() <= #[trigger] idxs[m] < a2.len()
                    && a2[idxs[m]].sup == Some(parent)
            &&& forall|m1: int, m2: int|
                0 <= m1 < m2 < idxs.len() ==> #[trigger] idxs[m1] < #[trigger] idxs[m2]
        }),
    decreases children,
{
    if children.len() > 0 {
        let idx = arena.len() as int;
        let reserved = arena.push(
            NodeView {
                properties: default_properties_view(),
                sup: Some(parent),
                children: Seq::empty(),
            },
        );
        lemma_splice_frame(reserved, pending, idx, children[0]);
        let (arena1, pending1) = splice(reserved, pending, idx, children[0]);
        lemma_splice_children_frame(arena1, pending1, parent, children.drop_first());
    }
}

/// Order preservation: splicing a direct entry reserves one slot per
/// child, in document order, before any background work on a child can
/// begin; the spliced slot then lists those reserved slots, in that order,
/// and each reserved slot names the spliced one as its parent. Together
/// with the frame property — no later splice at another slot rewrites an
/// existing node — sibling order in the resolved tree equals source
/// document order, whatever order the background units complete in.
pub proof fn lemma_sibling_order(
    arena: Seq<NodeView>,
    pending: Seq<(int, Seq<char>)>,
    slot: int,
    d: DirectView,
)
    requires
        0 <= slot < arena.len(),
    ensures
        ({
            let (a2, p2) = splice(arena, pending, slot, IntermediateView::Direct(d));
            &&& a2[slot].children.len() == d.children.len()
            &&& forall|m1: int, m2: int|
                0 <= m1 < m2 < a2[slot].children.len() ==> #[trigger] a2[slot].children[m1] < (
                #[trigger] a2[slot].children[m2])
            &&& forall|m: int|
                0 <= m < a2[slot].children.len() ==> arena.len() <= (
                #[trigger] a2[slot].children[m]) < a2.len() && a2[a2[slot].children[m]].sup
                    == Some(slot)
        }),
{
    let arena1 = arena.update(slot, NodeView { properties: d.properties, ..arena[slot] });
    lemma_splice_children_frame(arena1, pending, slot, d.children);
}

/// Splices a parsed entry into its reserved slot: a direct entry writes
/// its properties there and reserves one slot per child before resolving
/// inline children; a link dispatches a unit of work for the slot. Every
/// outcome is reported as success; the `Result` keeps the error position
/// for the callers that thread one through.
pub fn resolve(state: &mut ResolveState, entry: &WisphaIntermediateEntry, this_entry: usize) -> (r:
    Result<(), ParserError>)
    requires
        old(state).wf(),
        this_entry < old(state).nodes@.len(),
    ensures
        final(state).wf(),
        r is Ok,
        final(state).nodes@.len() >= old(state).nodes@.len(),
        this_entry < final(state).nodes@.len(),
        (arena_view(final(state).nodes@), pending_views(final(state).pending@)) == splice(
            arena_view(old(state).nodes@),
            pending_views(old(state).pending@),
            this_entry as int,
            entry@,
        ),
    decreases entry@,
{
    let ghost av0 = arena_view(old(state).nodes@);
    let ghost pv0 = pending_views(old(state).pending@);
    match entry {
        WisphaIntermediateEntry::Direct(direct_entry) => {
            state.nodes[this_entry].properties = direct_entry.properties.clone();
            let ghost arena1 = arena_view(state.nodes@);
            let ghost subs = direct_entry.sub_entries@;
            proof {
                assert(arena1 =~~= av0.update(
                    this_entry as int,
                    NodeView { properties: direct_entry.properties@, ..av0[this_entry as int] },
                ));
                assert(pending_views(state.pending@) == pv0);
                WisphaIntermediateEntry::lemma_views_of(subs);
            }
            let mut this_sub_entries: Vec<usize> = Vec::new();
            let n = direct_entry.sub_entries.len();
            let mut k: usize = 0;
            proof {
                assert(subs.skip(0) =~= subs);
                assert(WisphaIntermediateEntry::views_of(subs.skip(0))
                    =~= WisphaIntermediateEntry::views_of(subs));
                let (a2, p2, rest) = splice_children(
                    arena1,
                    pv0,
                    this_entry as int,
                    WisphaIntermediateEntry::views_of(subs),
                );
                assert(this_sub_entries@.map_values(|c: usize| c as int) + rest =~= rest);
            }
            while k < n
                invariant
                    0 <= k <= n,
                    n == subs.len(),
                    *entry == WisphaIntermediateEntry::Direct(*direct_entry),
                    subs == direct_entry.sub_entries@,
                    state.wf(),
                    this_entry < state.nodes@.len(),
                    old(state).nodes@.len() <= state.nodes@.len(),
                    this_sub_entries@.len() == k,
                    forall|j: int|
                        0 <= j < k ==> this_entry < #[trigger] this_sub_entries@[j]
                            < state.nodes@.len() && state.nodes@[this_sub_entries@[j] as int].sup_entry
                            == Some(this_entry),
                    splice_children(
                        arena1,
                        pv0,
                        this_entry as int,
                        WisphaIntermediateEntry::views_of(subs),
                    ) == ({
                        let (a2, p2, rest) = splice_children(
                            arena_view(state.nodes@),
                            pending_views(state.pending@),
                            this_entry as int,
                            WisphaIntermediateEntry::views_of(subs.skip(k as int)),
                        );
                        (a2, p2, this_sub_entries@.map_values(|c: usize| c as int) + rest)
                    }),
                decreases n - k,
            {
                let ghost av_k = arena_view(state.nodes@);
                let ghost pv_k = pending_views(state.pending@);
                let this_sub_entry = state.nodes.len();
                let mut fresh = WisphaEntry::default();
                fresh.sup_entry = Some(this_entry);
                state.nodes.push(fresh);
                proof {
                    assert(arena_view(state.nodes@) =~~= av_k.push(
                        NodeView {
                            properties: default_properties_view(),
                            sup: Some(this_entry as int),
                            children: Seq::<int>::empty(),
                        },
                    ));
                    assert(pending_views(state.pending@) == pv_k);
                    WisphaIntermediateEntry::lemma_views_of(subs.skip(k as int));
                    WisphaIntermediateEntry::lemma_views_of(subs.skip(k as int + 1));
                    assert(subs.skip(k as int)[0] == subs[k as int]);
                }
                let sub = &direct_entry.sub_entries[k];
                proof {
                    WisphaIntermediateEntry::lemma_views_of(subs);
                    let ev = (*entry)@;
                    let dv = ev->Direct_0;
                    let cv = dv.children;
                    assert(cv.len() == subs.len());
                    assert(decreases_to!(ev => dv));
                    assert(decreases_to!(dv => dv.children));
                    assert(decreases_to!(cv => cv[k as int]));
                    assert(cv[k as int] == (*sub)@);
                }
                let ghost av_r = arena_view(state.nodes@);
                let ghost pv_r = pending_views(state.pending@);
                let inner = resolve(state, sub, this_sub_entry);
                proof {
                    lemma_splice_frame(av_r, pv_r, this_sub_entry as int, sub@);
                    // The nodes reserved so far, this slot included, keep
                    // their parent records through the child's splice.
                    assert forall|j: int|
                        0 <= j < k implies this_entry < #[trigger] this_sub_entries@[j]
                            < state.nodes@.len() && state.nodes@[this_sub_entries@[j] as int].sup_entry
                            == Some(this_entry) by {
                        assert(arena_view(state.nodes@)[this_sub_entries@[j] as int] == av_r[
                            this_sub_entries@[j] as int
                        ]);
                        assert(node_view(state.nodes@[this_sub_entries@[j] as int]).sup == Some(
                            this_entry as int,
                        ));
                    }
                    assert(arena_view(state.nodes@)[this_sub_entry as int].sup == av_r[
                        this_sub_entry as int
                    ].sup);
                    assert(node_view(state.nodes@[this_sub_entry as int]).sup == Some(
                        this_entry as int,
                    ));
                    // One step of the children fold.
                    assert forall|j: int|
                        0 <= j < WisphaIntermediateEntry::views_of(
                            subs.skip(k as int + 1),
                        ).len() implies WisphaIntermediateEntry::views_of(
                        subs.skip(k as int),
                    ).drop_first()[j] == WisphaIntermediateEntry::views_of(
                        subs.skip(k as int + 1),
                    )[j] by {
                        assert(subs.skip(k as int)[j + 1] == subs[k as int + 1 + j]);
                        assert(subs.skip(k as int + 1)[j] == subs[k as int + 1 + j]);
                    }
                    assert(WisphaIntermediateEntry::views_of(subs.skip(k as int)).drop_first()
                        =~= WisphaIntermediateEntry::views_of(subs.skip(k as int + 1)));
                }
                this_sub_entries.push(this_sub_entry);
                k = k + 1;
                proof {
                    let (a2, p2, rest) = splice_children(
                        arena_view(state.nodes@),
                        pending_views(state.pending@),
                        this_entry as int,
                        WisphaIntermediateEntry::views_of(subs.skip(k as int)),
                    );
                    assert(this_sub_entries@.drop_last().map_values(|c: usize| c as int) + (seq![
                        this_sub_entry as int,
                    ] + rest) =~= this_sub_entries@.map_values(|c: usize| c as int) + rest);
                }
            }
            proof {
                assert(subs.skip(n as int) =~= Seq::<WisphaIntermediateEntry>::empty());
                assert(WisphaIntermediateEntry::views_of(subs.skip(n as int))
                    =~= Seq::<IntermediateView>::empty());
            }
            let ghost av_n = arena_view(state.nodes@);
            state.nodes[this_entry].sub_entries = this_sub_entries;
            proof {
                assert(arena_view(state.nodes@) =~~= av_n.update(
                    this_entry as int,
                    NodeView {
                        children: this_sub_entries@.map_values(|c: usize| c as int),
                        ..av_n[this_entry as int]
                    },
                ));
                assert(this_sub_entries@.map_values(|c: usize| c as int) + Seq::<int>::empty()
                    =~= this_sub_entries@.map_values(|c: usize| c as int));
                assert((arena_view(state.nodes@), pending_views(state.pending@)) == splice(
                    av0,
                    pv0,
                    this_entry as int,
                    entry@,
                ));
            }
            Ok(())
        },
        WisphaIntermediateEntry::Link(link_entry) => {
            let file_path = link_entry.entry_file_path.clone();
            state.pending.push(PendingLink { node: this_entry, entry_file_path: file_path });
            proof {
                assert(pending_views(state.pending@) =~= pending_views(
                    old(state).pending@,
                ).push((this_entry as int, link_entry.entry_file_path@)));
                assert(arena_view(state.nodes@) == arena_view(old(state).nodes@));
            }
            Ok(())
        },
    }
}


/// Resolving dispatches exactly one background unit per link: splicing an
/// entry appends as many units as the entry holds links, and in
/// particular an entry without links dispatches none and completes on the
/// splicing thread alone.
pub proof fn lemma_splice_dispatch_count(
    arena: Seq<NodeView>,
    pending: Seq<(int, Seq<char>)>,
    slot: int,
    entry: IntermediateView,
)
    ensures
        splice(arena, pending, slot, entry).1.len() == pending.len() + link_count_of(entry),
    decreases entry,
{
    match entry {
        IntermediateView::Link(_) => {},
        IntermediateView::Direct(d) => {
            let arena1 = arena.update(slot, NodeView { properties: d.properties, ..arena[slot] });
            lemma_splice_children_dispatch_count(arena1, pending, slot, d.children);
        },
    }
}

pub proof fn lemma_splice_children_dispatch_count(
    arena: Seq<NodeView>,
    pending: Seq<(int, Seq<char>)>,
    parent: int,
    children: Seq<IntermediateView>,
)
    ensures
        splice_children(arena, pending, parent, children).1.len() == pending.len()
            + seq_link_count(children),
    decreases children,
{
    if children.len() > 0 {
        let idx = arena.len() as int;
        let reserved = arena.push(
            NodeView {
                properties: default_properties_view(),
                sup: Some(parent),
                children: Seq::empty(),
            },
        );
        lemma_splice_dispatch_count(reserved, pending, idx, children[0]);
        let (arena1, pending1) = splice(reserved, pending, idx, children[0]);
        lemma_splice_children_dispatch_count(arena1, pending1, parent, children.drop_first());
    }
}

/// The depth invariant of the grouping step: when grouping succeeds, every
/// property opens with a header of exactly the expected depth (or an empty
/// body line); a token that breaks that is rejected deterministically, as
/// the error naming the first such token.
pub proof fn lemma_depth_invariant(tokens: Seq<WisphaToken>, depth: int)
    ensures
        match group_props(tokens, 0, depth) {
            Ok(props) => forall|k: int|
                0 <= k < props.len() ==> group_start_ok((#[trigger] props[k]).0, depth),
            Err(j) => 0 <= j < tokens.len() && !group_start_ok(tokens[j], depth),
        },
{
    lemma_depth_invariant_from(tokens, 0, depth);
}

proof fn lemma_depth_invariant_from(tokens: Seq<WisphaToken>, i: int, depth: int)
    requires
        0 <= i <= tokens.len(),
    ensures
        match group_props(tokens, i, depth) {
            Ok(props) => forall|k: int|
                0 <= k < props.len() ==> group_start_ok((#[trigger] props[k]).0, depth),
            Err(j) => i <= j < tokens.len() && !group_start_ok(tokens[j], depth),
        },
    decreases tokens.len() - i,
{
    if i < tokens.len() && group_start_ok(tokens[i], depth) {
        lemma_body_end(tokens, i + 1, depth);
        let e = body_end(tokens, i + 1, depth);
        lemma_depth_invariant_from(tokens, e, depth);
        match group_props(tokens, e, depth) {
            Ok(rest) => {
                let whole = seq![(tokens[i], tokens.subrange(i + 1, e))] + rest;
                assert forall|k: int| 0 <= k < whole.len() implies group_start_ok(
                    (#[trigger] whole[k]).0,
                    depth,
                ) by {
                    if k > 0 {
                        assert(whole[k] == rest[k - 1]);
                    }
                }
            },
            Err(_) => {},
        }
    }
}

/// Link transitivity: a chain of links resolves to the final target's
/// content standing in the slot where the first link was declared.
/// Splicing link A dispatches one unit for A's slot naming document B;
/// running that unit on B, itself a link to C, touches no node and
/// re-dispatches the same slot naming C; running that unit on C's parsed
/// content ends exactly as splicing C where A was declared would have —
/// the links along the chain contribute no node and no property.
pub proof fn lemma_link_transitivity(
    arena: Seq<NodeView>,
    pending: Seq<(int, Seq<char>)>,
    slot: int,
    path_b: Seq<char>,
    path_c: Seq<char>,
    target: IntermediateView,
)
    ensures
        ({
            let after_a = splice(arena, pending, slot, IntermediateView::Link(path_b));
            let unit_b = after_a.1.last();
            let after_b = splice(
                after_a.0,
                after_a.1.drop_last(),
                unit_b.0,
                IntermediateView::Link(path_c),
            );
            let unit_c = after_b.1.last();
            let outcome = splice(after_b.0, after_b.1.drop_last(), unit_c.0, target);
            &&& after_a.0 == arena && unit_b == (slot, path_b) && after_a.1.drop_last()
                == pending
            &&& after_b.0 == arena && unit_c == (slot, path_c) && after_b.1.drop_last()
                == pending
            &&& outcome == splice(arena, pending, slot, target)
        }),
{
    let after_a = splice(arena, pending, slot, IntermediateView::Link(path_b));
    assert(after_a.1.drop_last() =~= pending);
    let after_b = splice(arena, pending, slot, IntermediateView::Link(path_c));
    assert(after_b.1.drop_last() =~= pending);
}

/// The tokens that may carry a grammar error of the building step: the
/// error's token always comes from the tokens being built, so its stamped
/// file and line name the document that failed.
pub open spec fn token_among(t: WisphaToken, tokens: Seq<WisphaToken>) -> bool {
    exists|i: int| 0 <= i < tokens.len() && tokens[i] == t
}

/// The token an error of the building step carries, if any.
pub open spec fn build_err_token(m: BuildErr) -> Option<WisphaToken> {
    match m {
        BuildErr::Unexpected(t, _) => Some(t),
        BuildErr::EmptyBody(t) => Some(t),
        BuildErr::UnrecognizedEntryFileType(t) => Some(t),
        BuildErr::EnvNotFound => None,
    }
}

/// The positions reading a single-value body can name stay within the
/// body.
proof fn lemma_content_token_model_bounds(body: Seq<WisphaToken>)
    ensures
        match content_token_model(body) {
            Ok(Some(i)) => 0 <= i < body.len(),
            Ok(None) => true,
            Err(j) => 0 <= j < body.len(),
        },
{
    lemma_skip_empty_bodies(body, 0);
    let i = skip_empty_bodies(body, 0);
    if i < body.len() && body[i] is Body {
        lemma_skip_empty_bodies(body, clamp_index(i + 1, body.len() as int));
    }
}

/// Error locality of the structural parser: an error produced by building
/// an entry from a document's tokens carries one of those tokens, and with
/// it the file and line of the document it failed in, not of any other
/// document.
pub proof fn lemma_build_err_locality(
    tokens: Seq<WisphaToken>,
    depth: int,
    opts: Seq<crate::config_reader::PropertyConfig>,
    root_dir: Option<Seq<char>>,
)
    ensures
        match build_entry_spec(tokens, depth, opts, root_dir) {
            Ok(_) => true,
            Err(m) => match build_err_token(m) {
                Some(t) => token_among(t, tokens),
                None => true,
            },
        },
{
    assert forall|b: int| 0 <= b < tokens.len() implies token_among(
        #[trigger] tokens[b],
        tokens,
    ) by {
        assert(tokens[b] == tokens[b]);
    }
    lemma_build_err_locality_among(
        tokens,
        depth,
        opts,
        root_dir,
        (tokens.len() + 1) as nat,
        tokens,
    );
}

/// Every error of a link property names its header or a body token.
proof fn lemma_link_err_locality(
    header: WisphaToken,
    body: Seq<WisphaToken>,
    root_dir: Option<Seq<char>>,
    tokens: Seq<WisphaToken>,
)
    requires
        token_among(header, tokens),
        forall|b: int| 0 <= b < body.len() ==> token_among(#[trigger] body[b], tokens),
    ensures
        match build_link_model(header, body, root_dir) {
            Ok(_) => true,
            Err(m) => match build_err_token(m) {
                Some(t) => token_among(t, tokens),
                None => true,
            },
        },
{
    lemma_content_token_model_bounds(body);
}

/// Reading properties yields errors that carry a token of the grouped
/// document.
proof fn lemma_apply_props_err_locality(
    props: Seq<(WisphaToken, Seq<WisphaToken>)>,
    acc: DirectView,
    opts: Seq<crate::config_reader::PropertyConfig>,
    root_dir: Option<Seq<char>>,
    fuel: nat,
    tokens: Seq<WisphaToken>,
)
    requires
        forall|k: int|
            0 <= k < props.len() ==> token_among((#[trigger] props[k]).0, tokens) && (forall|b: int|
                0 <= b < props[k].1.len() ==> token_among(#[trigger] props[k].1[b], tokens)),
        forall|k: int| 0 <= k < props.len() ==> (#[trigger] props[k].1).len() + 2 <= fuel,
    ensures
        match apply_props_model(props, acc, opts, root_dir, fuel) {
            Ok(_) => true,
            Err(m) => match build_err_token(m) {
                Some(t) => token_among(t, tokens),
                None => true,
            },
        },
    decreases fuel, 0nat, props.len(),
{
    if props.len() > 0 {
        let header = props[0].0;
        let body = props[0].1;
        lemma_apply_one_err_locality(acc, header, body, opts, root_dir, fuel, tokens);
        match apply_one_property(acc, header, body, opts, root_dir, fuel) {
            Ok(acc2) => {
                assert forall|k: int| 0 <= k < props.drop_first().len() implies token_among(
                    (#[trigger] props.drop_first()[k]).0,
                    tokens,
                ) && (forall|b: int|
                    0 <= b < props.drop_first()[k].1.len() ==> token_among(
                        #[trigger] props.drop_first()[k].1[b],
                        tokens,
                    )) && props.drop_first()[k].1.len() + 2 <= fuel by {
                    assert(props.drop_first()[k] == props[k + 1]);
                }
                lemma_apply_props_err_locality(
                    props.drop_first(),
                    acc2,
                    opts,
                    root_dir,
                    fuel,
                    tokens,
                );
            },
            Err(_) => {},
        }
    }
}

/// Reading one property yields errors that carry its header or one of its
/// body tokens.
proof fn lemma_apply_one_err_locality(
    acc: DirectView,
    header: WisphaToken,
    body: Seq<WisphaToken>,
    opts: Seq<crate::config_reader::PropertyConfig>,
    root_dir: Option<Seq<char>>,
    fuel: nat,
    tokens: Seq<WisphaToken>,
)
    requires
        token_among(header, tokens),
        forall|b: int| 0 <= b < body.len() ==> token_among(#[trigger] body[b], tokens),
        body.len() + 2 <= fuel,
    ensures
        match apply_one_property(acc, header, body, opts, root_dir, fuel) {
            Ok(_) => true,
            Err(m) => match build_err_token(m) {
                Some(t) => token_among(t, tokens),
                None => true,
            },
        },
    decreases fuel, 0nat, 0nat,
{
    lemma_content_token_model_bounds(body);
    lemma_first_header_pos(body, 0);
    let label = header.spec_raw_token().content@;
    if label == "subentry"@ {
        match header {
            WisphaToken::Header(_, hd) => {
                let nf = (body.len() + 1) as nat;
                assert(nf < fuel);
                lemma_build_err_locality_among(body, hd + 1, opts, root_dir, nf, tokens);
            },
            WisphaToken::Body(_) => {},
        }
    }
}

/// The recursion of the locality argument: errors from a nested document
/// region carry tokens of that region, which are tokens of the whole.
proof fn lemma_build_err_locality_among(
    sub_tokens: Seq<WisphaToken>,
    depth: int,
    opts: Seq<crate::config_reader::PropertyConfig>,
    root_dir: Option<Seq<char>>,
    fuel: nat,
    tokens: Seq<WisphaToken>,
)
    requires
        forall|b: int| 0 <= b < sub_tokens.len() ==> token_among(#[trigger] sub_tokens[b], tokens),
        fuel >= sub_tokens.len() + 1,
    ensures
        match build_entry_model(sub_tokens, depth, opts, root_dir, fuel) {
            Ok(_) => true,
            Err(m) => match build_err_token(m) {
                Some(t) => token_among(t, tokens),
                None => true,
            },
        },
    decreases fuel, 2nat, 1nat,
{
    lemma_group_props_bounds(sub_tokens, 0, depth);
    match group_props(sub_tokens, 0, depth) {
        Err(j) => {},
        Ok(props) => {
            lemma_group_props_among(sub_tokens, 0, depth);
            lemma_last_link_prop(props);
            assert forall|k: int| 0 <= k < props.len() implies token_among(
                (#[trigger] props[k]).0,
                tokens,
            ) && (forall|b: int|
                0 <= b < props[k].1.len() ==> token_among(#[trigger] props[k].1[b], tokens)) by {
                assert(token_among(props[k].0, sub_tokens));
                let w = choose|w: int| 0 <= w < sub_tokens.len() && sub_tokens[w] == props[k].0;
                assert forall|b: int| 0 <= b < props[k].1.len() implies token_among(
                    #[trigger] props[k].1[b],
                    tokens,
                ) by {
                    assert(token_among(props[k].1[b], sub_tokens));
                    let w2 = choose|w2: int|
                        0 <= w2 < sub_tokens.len() && sub_tokens[w2] == props[k].1[b];
                }
            }
            match last_link_prop(props) {
                Some(k) => {
                    lemma_link_err_locality(props[k].0, props[k].1, root_dir, tokens);
                },
                None => {
                    lemma_apply_props_err_locality(
                        props,
                        default_direct_view(),
                        opts,
                        root_dir,
                        fuel,
                        tokens,
                    );
                },
            }
        },
    }
}

/// Grouping hands out only tokens of the grouped sequence: every header
/// and every body token of every property is among the tokens.
proof fn lemma_group_props_among(tokens: Seq<WisphaToken>, i: int, depth: int)
    requires
        0 <= i <= tokens.len(),
    ensures
        match group_props(tokens, i, depth) {
            Ok(props) => forall|k: int|
                0 <= k < props.len() ==> token_among((#[trigger] props[k]).0, tokens) && (
                forall|b: int|
                    0 <= b < props[k].1.len() ==> token_among(#[trigger] props[k].1[b], tokens)),
            Err(_) => true,
        },
    decreases tokens.len() - i,
{
    if i < tokens.len() && group_start_ok(tokens[i], depth) {
        lemma_body_end(tokens, i + 1, depth);
        let e = body_end(tokens, i + 1, depth);
        lemma_group_props_among(tokens, e, depth);
        match group_props(tokens, e, depth) {
            Ok(rest) => {
                let body = tokens.subrange(i + 1, e);
                let whole = seq![(tokens[i], body)] + rest;
                assert forall|k: int| 0 <= k < whole.len() implies token_among(
                    (#[trigger] whole[k]).0,
                    tokens,
                ) && (forall|b: int|
                    0 <= b < whole[k].1.len() ==> token_among(
                        #[trigger] whole[k].1[b],
                        tokens,
                    )) by {
                    if k == 0 {
                        assert(tokens[i] == tokens[i]);
                        assert forall|b: int| 0 <= b < body.len() implies token_among(
                            #[trigger] body[b],
                            tokens,
                        ) by {
                            assert(body[b] == tokens[i + 1 + b]);
                        }
                    } else {
                        assert(whole[k] == rest[k - 1]);
                    }
                }
            },
            Err(_) => {},
        }
    }
}


/// Runs one completed unit of background work: tokenizes the text of the
/// document the unit had been dispatched for, builds its entry, and
/// splices the entry into the unit's reserved slot. A grammar error in the
/// document surfaces here, carrying a token of this document — its own
/// file and line — and leaves the state unchanged.
pub fn resolve_step(
    state: &mut ResolveState,
    unit: PendingLink,
    content: String,
    options: &ParserOptions,
    root_dir: &Option<String>,
) -> (r: Result<(), ParserError>)
    requires
        old(state).wf(),
        unit.node < old(state).nodes@.len(),
    ensures
        final(state).wf(),
        exists|tokens: Seq<WisphaToken>|
            {
                &&& tokens_for_content(tokens, content@, unit.entry_file_path@)
                &&& match r {
                    Ok(_) => {
                        &&& build_entry_spec(
                            tokens,
                            1,
                            options.properties@,
                            spec_root_dir(*root_dir),
                        ) matches Ok(v)
                        &&& (
                        arena_view(final(state).nodes@),
                        pending_views(final(state).pending@),
                        ) == splice(
                            arena_view(old(state).nodes@),
                            pending_views(old(state).pending@),
                            unit.node as int,
                            v,
                        )
                    },
                    Err(e) => {
                        &&& build_entry_spec(
                            tokens,
                            1,
                            options.properties@,
                            spec_root_dir(*root_dir),
                        ) matches Err(m)
                        &&& reflects_build_err(e, m)
                        &&& match build_err_token(m) {
                            Some(t) => t.spec_raw_token().file_path@ == unit.entry_file_path@,
                            None => true,
                        }
                        &&& *final(state) == *old(state)
                    },
                }
            },
{
    let tokens = tokenize(content, &unit.entry_file_path);
    let ghost toks = tokens@;
    proof {
        lemma_build_err_locality(toks, 1, options.properties@, spec_root_dir(*root_dir));
        assert forall|i: int| 0 <= i < toks.len() implies (#[trigger] toks[i]).spec_raw_token().file_path@
            == unit.entry_file_path@ by {
            let ls = lines_of(content@);
            assert(token_for_line(toks[i], ls[i], i + 1, unit.entry_file_path@));
        }
    }
    let root = match build_wispha_entry_with_relative_path(tokens, 1, options, root_dir) {
        Ok(entry) => entry,
        Err(e) => {
            proof {
                let m = build_entry_spec(
                    toks,
                    1,
                    options.properties@,
                    spec_root_dir(*root_dir),
                )->Err_0;
                match build_err_token(m) {
                    Some(t) => {
                        let w = choose|w: int| 0 <= w < toks.len() && toks[w] == t;
                    },
                    None => {},
                }
            }
            return Err(e);
        },
    };
    let inner = resolve(state, &root, unit.node);
    proof {
        assert(inner is Ok);
    }
    Ok(())
}

} // verus!

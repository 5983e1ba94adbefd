//! Writing a tree back as document text: each entry's properties become
//! depth-marked header blocks, children follow under sub-entry headers,
//! and a child that lives in another document is written as a link to it.

use vstd::prelude::*;

use crate::generator::error::GeneratorError;
use crate::helper::path::{join_path, root_marker};
use crate::helper::text::{chars_of, spec_join, string_from_chars, string_views};
use crate::strings::{
    ABSOLUTE_PATH_HEADER, BEGIN_MARK, DESCRIPTION_HEADER, ENTRY_FILE_PATH_HEADER,
    ENTRY_TYPE_HEADER, LINE_SEPARATOR, NAME_HEADER, ROOT_DIR, SUB_ENTRIES_HEADER,
};
use crate::wispha::intermediate::{
    DirectView, IntermediateView, WisphaDirectEntry, WisphaIntermediateEntry,
};
use crate::wispha::properties::{PropertiesView, WisphaEntryProperties, WisphaEntryType};

verus! {

/// The marker run that opens a header written at this nesting depth: one
/// more marker than the depth number, as the writer counts from zero.
pub open spec fn mark_of(depth: int) -> Seq<char> {
    Seq::new((depth + 1) as nat, |i: int| '+')
}

/// One written property: the marker run, the bracketed label, and the
/// value on its own line.
pub open spec fn block_text(mark: Seq<char>, label: Seq<char>, value: Seq<char>) -> Seq<char> {
    mark + " ["@ + label + "]"@ + "\n"@ + value + "\n"@
}

/// The path value an entry is written with: its file-system path turned
/// relative to the root directory, behind the root marker. A path outside
/// the root directory cannot be written.
pub open spec fn written_path(absolute_path: Seq<char>, root_dir: Seq<char>) -> Result<
    Seq<char>,
    (),
> {
    if absolute_path == root_dir {
        Ok(join_path(root_marker(), Seq::empty()))
    } else if absolute_path.len() > root_dir.len() && absolute_path.take(root_dir.len() as int)
        == root_dir && absolute_path[root_dir.len() as int] == '/' {
        Ok(join_path(root_marker(), absolute_path.skip(root_dir.len() as int + 1)))
    } else {
        Err(())
    }
}

/// The written blocks of the user-defined properties, joined by blank
/// lines.
pub open spec fn customized_text(mark: Seq<char>, pairs: Seq<(Seq<char>, Seq<char>)>) -> Seq<char> {
    spec_join(pairs.map_values(|p: (Seq<char>, Seq<char>)| block_text(mark, p.0, p.1)), "\n"@)
}

/// What an entry's properties look like written at a depth: the path,
/// name and type blocks, the description block when one is there, and the
/// user-defined blocks, joined by blank lines.
pub open spec fn properties_text(props: PropertiesView, depth: int, root_dir: Seq<char>) -> Result<
    Seq<char>,
    (),
> {
    match written_path(props.absolute_path, root_dir) {
        Err(_) => Err(()),
        Ok(path_value) => {
            let mark = mark_of(depth);
            let blocks0 = seq![
                block_text(mark, "file path"@, path_value),
                block_text(mark, "name"@, props.name),
                block_text(mark, "entry type"@, props.entry_type.spec_str()),
            ];
            let blocks1 = match props.description {
                Some(d) => blocks0.push(block_text(mark, "description"@, d)),
                None => blocks0,
            };
            let blocks = blocks1.push(customized_text(mark, props.customized));
            Ok(spec_join(blocks, "\n"@))
        },
    }
}

/// What a direct entry looks like written at a depth: its properties,
/// then one sub-entry header per child, each followed by the child — a
/// link child as a link block naming its document, a direct child written
/// one depth deeper.
pub open spec fn entry_text(d: DirectView, depth: int, root_dir: Seq<char>) -> Result<
    Seq<char>,
    (),
>
    decreases d.children, 1nat,
{
    match properties_text(d.properties, depth, root_dir) {
        Err(_) => Err(()),
        Ok(properties_string) => {
            match children_text(d.children, depth, root_dir) {
                Err(_) => Err(()),
                Ok(blocks) => {
                    if blocks.len() > 0 {
                        Ok(
                            spec_join(
                                seq![properties_string, spec_join(blocks, "\n"@)],
                                "\n"@,
                            ),
                        )
                    } else {
                        Ok(properties_string)
                    }
                },
            }
        },
    }
}

/// The written blocks of an entry's children, in document order.
pub open spec fn children_text(
    children: Seq<IntermediateView>,
    depth: int,
    root_dir: Seq<char>,
) -> Result<Seq<Seq<char>>, ()>
    decreases children, 0nat,
{
    if children.len() == 0 {
        Ok(Seq::empty())
    } else {
        match child_text(children[0], depth, root_dir) {
            Err(_) => Err(()),
            Ok(first) => {
                match children_text(children.drop_first(), depth, root_dir) {
                    Err(_) => Err(()),
                    Ok(rest) => Ok(seq![first] + rest),
                }
            },
        }
    }
}

/// One written child: the sub-entry header, then the child itself.
pub open spec fn child_text(child: IntermediateView, depth: int, root_dir: Seq<char>) -> Result<
    Seq<char>,
    (),
>
    decreases child, 2nat,
{
    let mark = mark_of(depth);
    let sub_header = mark + " ["@ + "subentry"@ + "]"@;
    match child {
        IntermediateView::Link(path) => Ok(
            spec_join(
                seq![sub_header, mark + "+"@ + " ["@ + "entry file path"@ + "]"@ + "\n"@ + path + "\n"@],
                "\n"@,
            ),
        ),
        IntermediateView::Direct(d) => {
            match entry_text(d, depth + 1, root_dir) {
                Err(_) => Err(()),
                Ok(t) => Ok(spec_join(seq![sub_header, t], "\n"@)),
            }
        },
    }
}

/// How deep an entry's written form nests: one more than its deepest
/// direct child's. The writer's depth counter stays within the machine as
/// long as the starting depth leaves room for this height.
pub open spec fn direct_height(d: DirectView) -> nat
    decreases d.children, 1nat,
{
    1 + children_height(d.children)
}

pub open spec fn children_height(children: Seq<IntermediateView>) -> nat
    decreases children, 0nat,
{
    if children.len() == 0 {
        0
    } else {
        let first = match children[0] {
            IntermediateView::Link(_) => 0,
            IntermediateView::Direct(d) => direct_height(d),
        };
        let rest = children_height(children.drop_first());
        if first >= rest {
            first
        } else {
            rest
        }
    }
}

/// Each direct child nests strictly less deep than its parent.
proof fn lemma_children_height(children: Seq<IntermediateView>, m: int)
    requires
        0 <= m < children.len(),
        children[m] is Direct,
    ensures
        direct_height(children[m]->Direct_0) <= children_height(children),
    decreases children.len(),
{
    if m > 0 {
        lemma_children_height(children.drop_first(), m - 1);
        assert(children.drop_first()[m - 1] == children[m]);
    }
}

/// Writing children yields one block per child.
proof fn lemma_children_text_len(children: Seq<IntermediateView>, depth: int, root_dir: Seq<char>)
    ensures
        match children_text(children, depth, root_dir) {
            Ok(blocks) => blocks.len() == children.len(),
            Err(_) => true,
        },
    decreases children.len(),
{
    if children.len() > 0 {
        lemma_children_text_len(children.drop_first(), depth, root_dir);
    }
}

/// A sequence of children errs exactly when one of them does.
proof fn lemma_children_text_err(children: Seq<IntermediateView>, depth: int, root_dir: Seq<char>)
    requires
        children_text(children, depth, root_dir) is Err,
    ensures
        exists|j: int|
            0 <= j < children.len() && child_text(#[trigger] children[j], depth, root_dir) is Err,
    decreases children.len(),
{
    if children.len() > 0 {
        if child_text(children[0], depth, root_dir) is Err {
            assert(child_text(children[0], depth, root_dir) is Err);
        } else {
            lemma_children_text_err(children.drop_first(), depth, root_dir);
            let w = choose|j: int|
                0 <= j < children.drop_first().len() && child_text(
                    #[trigger] children.drop_first()[j],
                    depth,
                    root_dir,
                ) is Err;
            assert(children.drop_first()[w] == children[w + 1]);
            assert(child_text(children[w + 1], depth, root_dir) is Err);
        }
    }
}

/// The round trip of a written header line: tokenizing a line written as
/// `mark_of(depth)`, a space, and the bracketed label reads back a header
/// of depth one more than the writer's depth counter, carrying exactly the
/// label. This is the header half of writing and re-parsing a tree.
pub proof fn lemma_header_line_roundtrip(depth: int, label: Seq<char>)
    requires
        depth >= 0,
        label.len() >= 1,
    ensures
        crate::parser::line_header(mark_of(depth) + " ["@ + label + "]"@) == Some(
            (depth + 1, label),
        ),
{
    reveal_strlit(" [");
    reveal_strlit("]");
    let line = mark_of(depth) + " ["@ + label + "]"@;
    let d1 = depth + 1;
    assert(line.len() == d1 + 2 + label.len() + 1);
    assert forall|i: int| 0 <= i < d1 implies line[i] == '+' by {}
    assert(line[d1] == ' ');
    assert(line[d1 + 1] == '[');
    assert forall|i: int| 0 <= i < label.len() implies line[d1 + 2 + i] == label[i] by {}
    assert(line.last() == ']');
    assert(!crate::parser::is_blank_char('+'));
    lemma_scan_marks_run(line, 0, d1);
    assert(crate::parser::scan_blanks(line, 0) == 0);
    assert(crate::parser::scan_marks(line, 0) == d1);
    assert(crate::parser::is_blank_char(line[d1]));
    assert(!crate::parser::is_blank_char(line[d1 + 1]));
    assert(crate::parser::scan_blanks(line, d1 + 1) == d1 + 1);
    assert(crate::parser::scan_blanks(line, d1) == d1 + 1);
    assert(crate::parser::close_bracket_pos(line) == Some(line.len() - 1));
    assert(line.subrange(d1 + 2, line.len() - 1) =~= label);
}

/// A run of markers scans to its end.
proof fn lemma_scan_marks_run(line: Seq<char>, i: int, e: int)
    requires
        0 <= i <= e <= line.len(),
        forall|j: int| i <= j < e ==> line[j] == '+',
        e < line.len() ==> line[e] != '+',
    ensures
        crate::parser::scan_marks(line, i) == if e < line.len() {
            e
        } else {
            line.len() as int
        },
    decreases e - i,
{
    if i < e {
        lemma_scan_marks_run(line, i + 1, e);
    }
}

/// A value that survives the written form on one line: non-empty, free of
/// line breaks, standing as its own trimmed self, and not itself shaped
/// like a header. Every value read from a parsed document has this form,
/// because it came off one trimmed line that was not a header.
pub open spec fn writable_value(v: Seq<char>) -> bool {
    &&& v.len() > 0
    &&& !v.contains('\n')
    &&& !v.contains('\r')
    &&& crate::helper::text::spec_trim(v) == v
    &&& crate::parser::line_header(v) is None
}

/// The written form of one property splits into its header line, its
/// value line, and the blank line before whatever follows.
proof fn lemma_lines_block(mark: Seq<char>, label: Seq<char>, value: Seq<char>, rest: Seq<char>)
    requires
        !(mark + " ["@ + label + "]"@).contains('\n'),
        !value.contains('\n'),
    ensures
        crate::parser::split_lines_all(block_text(mark, label, value) + "\n"@ + rest) == seq![
            mark + " ["@ + label + "]"@,
            value,
            Seq::<char>::empty(),
        ] + crate::parser::split_lines_all(rest),
{
    reveal_strlit("\n");
    let nl = "\n"@;
    assert(nl =~= seq!['\n']);
    let h = mark + " ["@ + label + "]"@;
    let s = block_text(mark, label, value) + nl + rest;
    let u2 = Seq::<char>::empty() + seq!['\n'] + rest;
    let u1 = value + seq!['\n'] + u2;
    assert(s =~= h + seq!['\n'] + u1);
    crate::parser::lemma_lines_prepend(h, u1);
    crate::parser::lemma_lines_prepend(value, u2);
    crate::parser::lemma_lines_prepend(Seq::empty(), rest);
    assert(seq![h] + (seq![value] + (seq![Seq::<char>::empty()] + crate::parser::split_lines_all(
        rest,
    ))) =~= seq![h, value, Seq::<char>::empty()] + crate::parser::split_lines_all(rest));
}

/// The round trip of one written entry: writing an entry that has no
/// children, no description and no user-defined properties, and parsing
/// the text back as a document, reads the same name, the same type and the
/// same file-system path — only the source file stamp differs, which the
/// round trip is stated to ignore. The entry's name must be writable on
/// one line, and its path must lie under the root directory.
#[verifier::rlimit(80)]
pub proof fn lemma_written_entry_reads_back(
    d: DirectView,
    root_dir: Seq<char>,
    text: Seq<char>,
    tokens: Seq<crate::parser::parser_struct::WisphaToken>,
    opts: Seq<crate::config_reader::PropertyConfig>,
    doc_path: Seq<char>,
)
    requires
        d.children.len() == 0,
        d.properties.description is None,
        d.properties.customized.len() == 0,
        writable_value(d.properties.name),
        !d.properties.absolute_path.contains('\n'),
        !d.properties.absolute_path.contains('\r'),
        !crate::helper::text::spec_is_whitespace(d.properties.absolute_path.last()),
        root_dir.len() > 0,
        root_dir.last() != '/',
        d.properties.absolute_path.len() > root_dir.len() + 1,
        d.properties.absolute_path.take(root_dir.len() as int) == root_dir,
        d.properties.absolute_path[root_dir.len() as int] == '/',
        entry_text(d, 0, root_dir) == Ok::<Seq<char>, ()>(text),
        crate::parser::tokens_for_content(tokens, text, doc_path),
    ensures
        ({
            &&& crate::parser::build_entry_spec(tokens, 1, opts, Some(root_dir)) matches Ok(v)
            &&& v matches IntermediateView::Direct(d2)
            &&& d2.properties.name == d.properties.name
            &&& d2.properties.entry_type == d.properties.entry_type
            &&& d2.properties.absolute_path == d.properties.absolute_path
            &&& d2.properties.description is None
            &&& d2.properties.customized.len() == 0
            &&& d2.children.len() == 0
        }),
{
    reveal_strlit(" [");
    reveal_strlit("]");
    reveal_strlit("\n");
    reveal_strlit("file path");
    reveal_strlit("name");
    reveal_strlit("entry type");
    reveal_strlit("entry file path");
    reveal_strlit("description");
    reveal_strlit("subentry");
    reveal_strlit("directory");
    reveal_strlit("file");
    reveal_strlit("program entry");
    reveal_strlit("$ROOT_DIR");
    let nl = "\n"@;
    assert(nl =~= seq!['\n']);
    let mark = mark_of(0);
    let absolute = d.properties.absolute_path;
    let rlen = root_dir.len() as int;
    let rel = absolute.skip(rlen + 1);
    assert(rel.len() > 0);
    // The path value the entry was written with.
    assert(written_path(absolute, root_dir) == Ok::<Seq<char>, ()>(
        join_path(root_marker(), rel),
    )) by {
        assert(absolute != root_dir);
    }
    let pv = join_path(root_marker(), rel);
    assert(root_marker().last() == 'R');
    assert(pv =~= root_marker() + seq!['/'] + rel);
    assert(pv.len() == 10 + rel.len());
    // The three written lines and their blocks.
    let name = d.properties.name;
    let tv = d.properties.entry_type.spec_str();
    let h1 = mark + " ["@ + "file path"@ + "]"@;
    let h2 = mark + " ["@ + "name"@ + "]"@;
    let h3 = mark + " ["@ + "entry type"@ + "]"@;
    let b1 = block_text(mark, "file path"@, pv);
    let b2 = block_text(mark, "name"@, name);
    let b3 = block_text(mark, "entry type"@, tv);
    let b4 = customized_text(mark, d.properties.customized);
    assert(b4 =~= Seq::<char>::empty()) by {
        assert(d.properties.customized.map_values(
            |p: (Seq<char>, Seq<char>)| block_text(mark, p.0, p.1),
        ) =~= Seq::<Seq<char>>::empty());
    }
    assert(children_text(d.children, 0, root_dir) == Ok::<Seq<Seq<char>>, ()>(Seq::empty()));
    let blocks = seq![b1, b2, b3, b4];
    assert(seq![
        block_text(mark, "file path"@, pv),
        block_text(mark, "name"@, name),
        block_text(mark, "entry type"@, tv),
    ].push(b4) =~= blocks);
    assert(properties_text(d.properties, 0, root_dir) == Ok::<Seq<char>, ()>(
        spec_join(blocks, nl),
    ));
    assert(text == spec_join(blocks, nl));
    // Unfold the join of the four blocks.
    assert(blocks.drop_first() =~= seq![b2, b3, b4]);
    assert(seq![b2, b3, b4].drop_first() =~= seq![b3, b4]);
    assert(seq![b3, b4].drop_first() =~= seq![b4]);
    assert(spec_join(seq![b4], nl) == b4);
    assert(spec_join(seq![b3, b4], nl) == b3 + nl + b4);
    assert(spec_join(seq![b2, b3, b4], nl) == b2 + nl + (b3 + nl + b4));
    assert(spec_join(blocks, nl) == b1 + nl + (b2 + nl + (b3 + nl + b4)));
    // The lines of the written text.
    assert(!h1.contains('\n')) by {
        lemma_mark_line_break_free(mark, "file path"@, h1);
    }
    assert(!h2.contains('\n')) by {
        lemma_mark_line_break_free(mark, "name"@, h2);
    }
    assert(!h3.contains('\n')) by {
        lemma_mark_line_break_free(mark, "entry type"@, h3);
    }
    assert(!pv.contains('\n')) by {
        if pv.contains('\n') {
            let w = choose|w: int| 0 <= w < pv.len() && pv[w] == '\n';
            if w >= 10 {
                assert(rel[w - 10] == '\n');
                assert(absolute[rlen + 1 + (w - 10)] == '\n');
                assert(absolute.contains('\n'));
            }
        }
    }
    assert(!tv.contains('\n')) by {
        if tv.contains('\n') {
            let w = choose|w: int| 0 <= w < tv.len() && tv[w] == '\n';
        }
    }
    let rest2 = b3 + nl + b4;
    let rest1 = b2 + nl + rest2;
    assert(text == b1 + nl + rest1);
    lemma_lines_block(mark, "file path"@, pv, rest1);
    lemma_lines_block(mark, "name"@, name, rest2);
    assert(rest2 =~= b3 + "\n"@ + Seq::<char>::empty());
    lemma_lines_block(mark, "entry type"@, tv, Seq::empty());
    assert(crate::parser::split_lines_all(Seq::<char>::empty()) == seq![Seq::<char>::empty()]);
    let raw_lines = seq![
        h1,
        pv,
        Seq::<char>::empty(),
        h2,
        name,
        Seq::<char>::empty(),
        h3,
        tv,
        Seq::<char>::empty(),
        Seq::<char>::empty(),
    ];
    assert(crate::parser::split_lines_all(text) =~= raw_lines);
    assert(text.last() == '\n') by {
        assert(text[text.len() - 1] == '\n');
    }
    let lines = crate::parser::lines_of(text);
    assert(raw_lines.drop_last() =~= seq![
        h1,
        pv,
        Seq::<char>::empty(),
        h2,
        name,
        Seq::<char>::empty(),
        h3,
        tv,
        Seq::<char>::empty(),
    ]);
    assert(lines.len() == 9);
    assert forall|k: int| 0 <= k < 9 implies lines[k] == crate::parser::strip_cr(
        raw_lines.drop_last()[k],
    ) by {}
    lemma_strip_cr_free(h1);
    lemma_strip_cr_free(h2);
    lemma_strip_cr_free(h3);
    assert(!pv.contains('\r')) by {
        if pv.contains('\r') {
            let w = choose|w: int| 0 <= w < pv.len() && pv[w] == '\r';
            if w >= 10 {
                assert(absolute[rlen + 1 + (w - 10)] == '\r');
                assert(absolute.contains('\r'));
            }
        }
    }
    lemma_strip_cr_free(pv);
    lemma_strip_cr_free(name);
    assert(!tv.contains('\r')) by {
        if tv.contains('\r') {
            let w = choose|w: int| 0 <= w < tv.len() && tv[w] == '\r';
        }
    }
    lemma_strip_cr_free(tv);
    assert(crate::parser::strip_cr(Seq::<char>::empty()) == Seq::<char>::empty());
    assert(lines[0] == h1 && lines[1] == pv && lines[2] == Seq::<char>::empty() && lines[3] == h2
        && lines[4] == name && lines[5] == Seq::<char>::empty() && lines[6] == h3 && lines[7]
        == tv && lines[8] == Seq::<char>::empty());
    // What each line reads back as.
    lemma_header_line_roundtrip(0, "file path"@);
    lemma_header_line_roundtrip(0, "name"@);
    lemma_header_line_roundtrip(0, "entry type"@);
    assert(crate::parser::line_header(pv) is None) by {
        assert(pv[0] == '$');
        assert(!crate::parser::is_blank_char('$'));
        assert(crate::parser::scan_blanks(pv, 0) == 0);
        assert(crate::parser::scan_marks(pv, 0) == 0);
    }
    assert(crate::parser::line_header(tv) is None) by {
        assert(!crate::parser::is_blank_char(tv[0]) && tv[0] != '+') by {
            match d.properties.entry_type {
                WisphaEntryType::Directory => {
                    assert(tv[0] == 'd');
                },
                WisphaEntryType::File => {
                    assert(tv[0] == 'f');
                },
                WisphaEntryType::ProgramEntry => {
                    assert(tv[0] == 'p');
                },
            }
        }
        assert(crate::parser::scan_blanks(tv, 0) == 0);
        assert(crate::parser::scan_marks(tv, 0) == 0);
    }
    assert(crate::parser::line_header(Seq::<char>::empty()) is None) by {
        assert(crate::parser::scan_blanks(Seq::<char>::empty(), 0) == 0);
        assert(crate::parser::scan_marks(Seq::<char>::empty(), 0) == 0);
    }
    // The tokens of those lines.
    assert(tokens.len() == 9);
    assert forall|k: int| 0 <= k < 9 implies crate::parser::token_for_line(
        #[trigger] tokens[k],
        lines[k],
        k + 1,
        doc_path,
    ) by {}
    let t0 = tokens[0];
    let t1 = tokens[1];
    let t2 = tokens[2];
    let t3 = tokens[3];
    let t4 = tokens[4];
    let t5 = tokens[5];
    let t6 = tokens[6];
    let t7 = tokens[7];
    let t8 = tokens[8];
    assert(t0 matches crate::parser::parser_struct::WisphaToken::Header(raw, dep)
        && raw.content@ == "file path"@ && dep == 1);
    assert(t3 matches crate::parser::parser_struct::WisphaToken::Header(raw, dep)
        && raw.content@ == "name"@ && dep == 1);
    assert(t6 matches crate::parser::parser_struct::WisphaToken::Header(raw, dep)
        && raw.content@ == "entry type"@ && dep == 1);
    assert(t1 matches crate::parser::parser_struct::WisphaToken::Body(raw) && raw.content@ == pv);
    assert(t2 matches crate::parser::parser_struct::WisphaToken::Body(raw) && raw.content@
        == Seq::<char>::empty());
    assert(t4 matches crate::parser::parser_struct::WisphaToken::Body(raw) && raw.content@
        == name);
    assert(t5 matches crate::parser::parser_struct::WisphaToken::Body(raw) && raw.content@
        == Seq::<char>::empty());
    assert(t7 matches crate::parser::parser_struct::WisphaToken::Body(raw) && raw.content@ == tv);
    assert(t8 matches crate::parser::parser_struct::WisphaToken::Body(raw) && raw.content@
        == Seq::<char>::empty());
    // Grouping the tokens at depth one.
    assert(crate::parser::body_end(tokens, 3, 1) == 3);
    assert(crate::parser::body_end(tokens, 2, 1) == 3);
    assert(crate::parser::body_end(tokens, 1, 1) == 3);
    assert(crate::parser::body_end(tokens, 6, 1) == 6);
    assert(crate::parser::body_end(tokens, 5, 1) == 6);
    assert(crate::parser::body_end(tokens, 4, 1) == 6);
    assert(crate::parser::body_end(tokens, 9, 1) == 9);
    assert(crate::parser::body_end(tokens, 8, 1) == 9);
    assert(crate::parser::body_end(tokens, 7, 1) == 9);
    let bd1 = tokens.subrange(1, 3);
    let bd2 = tokens.subrange(4, 6);
    let bd3 = tokens.subrange(7, 9);
    assert(bd1.len() == 2 && bd1[0] == t1 && bd1[1] == t2);
    assert(bd2.len() == 2 && bd2[0] == t4 && bd2[1] == t5);
    assert(bd3.len() == 2 && bd3[0] == t7 && bd3[1] == t8);
    assert(crate::parser::group_props(tokens, 9, 1) == Ok::<
        Seq<(crate::parser::parser_struct::WisphaToken, Seq<crate::parser::parser_struct::WisphaToken>)>,
        int,
    >(Seq::empty()));
    assert(crate::parser::group_props(tokens, 6, 1) == Ok::<_, int>(seq![(t6, bd3)])) by {
        assert(seq![(t6, bd3)] + Seq::<(
            crate::parser::parser_struct::WisphaToken,
            Seq<crate::parser::parser_struct::WisphaToken>,
        )>::empty() =~= seq![(t6, bd3)]);
    }
    assert(crate::parser::group_props(tokens, 3, 1) == Ok::<_, int>(seq![(t3, bd2), (t6, bd3)]))
        by {
        assert(seq![(t3, bd2)] + seq![(t6, bd3)] =~= seq![(t3, bd2), (t6, bd3)]);
    }
    let props = seq![(t0, bd1), (t3, bd2), (t6, bd3)];
    assert(crate::parser::group_props(tokens, 0, 1) == Ok::<_, int>(props)) by {
        assert(seq![(t0, bd1)] + seq![(t3, bd2), (t6, bd3)] =~= props);
    }
    // No property labels a link target.
    assert("file path"@ != "entry file path"@ && "name"@ != "entry file path"@ && "entry type"@
        != "entry file path"@);
    assert(crate::parser::last_link_prop(props) is None) by {
        assert(props.drop_last() =~= seq![(t0, bd1), (t3, bd2)]);
        assert(seq![(t0, bd1), (t3, bd2)].drop_last() =~= seq![(t0, bd1)]);
        assert(seq![(t0, bd1)].drop_last() =~= Seq::<(
            crate::parser::parser_struct::WisphaToken,
            Seq<crate::parser::parser_struct::WisphaToken>,
        )>::empty());
        assert(crate::parser::last_link_prop(
            Seq::<(
                crate::parser::parser_struct::WisphaToken,
                Seq<crate::parser::parser_struct::WisphaToken>,
            )>::empty(),
        ) is None);
        assert(crate::parser::last_link_prop(seq![(t0, bd1)]) is None);
        assert(crate::parser::last_link_prop(seq![(t0, bd1), (t3, bd2)]) is None);
    }
    // Reading the three properties into a fresh entry.
    let root = Some(root_dir);
    let fuel = (tokens.len() + 1) as nat;
    let acc0 = crate::wispha::intermediate::default_direct_view();
    assert("file path"@ != "name"@ && "file path"@ != "entry type"@);
    assert("name"@ != "entry type"@);
    // The path property.
    assert(crate::parser::skip_empty_bodies(bd1, 2) == 2);
    assert(crate::parser::skip_empty_bodies(bd1, 1) == 2);
    assert(crate::parser::skip_empty_bodies(bd1, 0) == 0) by {
        assert(!crate::parser::is_empty_body(t1));
    }
    assert(crate::parser::content_token_model(bd1) == Ok::<Option<int>, int>(Some(0)));
    assert(crate::helper::text::spec_trim(pv) == pv) by {
        assert(!crate::helper::text::spec_is_whitespace('$'));
        assert(crate::helper::text::first_non_ws(pv) == 0);
        assert(pv.last() == absolute.last());
        assert(crate::helper::text::last_non_ws_end(pv) == pv.len());
    }
    assert(crate::parser::actual_path_spec(pv, crate::helper::path::parent_dir(
        t1.spec_raw_token().file_path@,
    ), root) == Ok::<Seq<char>, ()>(absolute)) by {
        assert(pv[0] == '$');
        assert(!crate::helper::path::path_is_absolute(pv));
        assert(crate::helper::path::starts_with_root_marker(pv)) by {
            assert(pv.take(9) =~= root_marker());
            assert(pv[9] == '/');
        }
        assert(pv != root_marker());
        assert(crate::helper::path::strip_root_marker(pv) =~= rel);
        assert(join_path(root_dir, rel) =~= absolute);
    }
    let step1 = crate::parser::apply_one_property(acc0, t0, bd1, opts, root, fuel);
    assert(step1 is Ok);
    let a1 = step1->Ok_0;
    assert(a1.properties.absolute_path == absolute);
    assert(a1.properties.name == acc0.properties.name);
    assert(a1.properties.entry_type == acc0.properties.entry_type);
    assert(a1.properties.description is None);
    assert(a1.properties.customized.len() == 0);
    assert(a1.children.len() == 0);
    // The name property.
    assert(crate::parser::skip_empty_bodies(bd2, 2) == 2);
    assert(crate::parser::skip_empty_bodies(bd2, 1) == 2);
    assert(crate::parser::skip_empty_bodies(bd2, 0) == 0) by {
        assert(!crate::parser::is_empty_body(t4));
    }
    assert(crate::parser::content_token_model(bd2) == Ok::<Option<int>, int>(Some(0)));
    let step2 = crate::parser::apply_one_property(a1, t3, bd2, opts, root, fuel);
    assert(step2 is Ok);
    let a2 = step2->Ok_0;
    assert(a2.properties.name == name);
    assert(a2.properties.absolute_path == absolute);
    assert(a2.properties.entry_type == acc0.properties.entry_type);
    assert(a2.properties.description is None);
    assert(a2.properties.customized.len() == 0);
    assert(a2.children.len() == 0);
    // The type property.
    assert(crate::parser::skip_empty_bodies(bd3, 2) == 2);
    assert(crate::parser::skip_empty_bodies(bd3, 1) == 2);
    assert(crate::parser::skip_empty_bodies(bd3, 0) == 0) by {
        assert(tv.len() > 0);
        assert(!crate::parser::is_empty_body(t7));
    }
    assert(crate::parser::content_token_model(bd3) == Ok::<Option<int>, int>(Some(0)));
    assert(crate::helper::text::spec_trim(tv) == tv) by {
        match d.properties.entry_type {
            WisphaEntryType::Directory => {
                assert(!crate::helper::text::spec_is_whitespace('d'));
                assert(!crate::helper::text::spec_is_whitespace('y'));
            },
            WisphaEntryType::File => {
                assert(!crate::helper::text::spec_is_whitespace('f'));
                assert(!crate::helper::text::spec_is_whitespace('e'));
            },
            WisphaEntryType::ProgramEntry => {
                assert(!crate::helper::text::spec_is_whitespace('p'));
                assert(!crate::helper::text::spec_is_whitespace('y'));
            },
        }
        assert(crate::helper::text::first_non_ws(tv) == 0);
        assert(crate::helper::text::last_non_ws_end(tv) == tv.len());
    }
    crate::wispha::properties::lemma_entry_type_names_distinct();
    assert(WisphaEntryType::spec_from(tv) == Some(d.properties.entry_type));
    let step3 = crate::parser::apply_one_property(a2, t6, bd3, opts, root, fuel);
    assert(step3 is Ok);
    let a3 = step3->Ok_0;
    assert(a3.properties.name == name);
    assert(a3.properties.absolute_path == absolute);
    assert(a3.properties.entry_type == d.properties.entry_type);
    assert(a3.properties.description is None);
    assert(a3.properties.customized.len() == 0);
    assert(a3.children.len() == 0);
    // Fold the three steps.
    assert(props.drop_first() =~= seq![(t3, bd2), (t6, bd3)]);
    assert(seq![(t3, bd2), (t6, bd3)].drop_first() =~= seq![(t6, bd3)]);
    assert(seq![(t6, bd3)].drop_first() =~= Seq::<(
        crate::parser::parser_struct::WisphaToken,
        Seq<crate::parser::parser_struct::WisphaToken>,
    )>::empty());
    assert(crate::parser::apply_props_model(
        Seq::<(
            crate::parser::parser_struct::WisphaToken,
            Seq<crate::parser::parser_struct::WisphaToken>,
        )>::empty(),
        a3,
        opts,
        root,
        fuel,
    ) == Ok::<DirectView, crate::parser::BuildErr>(a3));
    assert(crate::parser::apply_props_model(seq![(t6, bd3)], a2, opts, root, fuel) == Ok::<
        DirectView,
        crate::parser::BuildErr,
    >(a3));
    assert(crate::parser::apply_props_model(seq![(t3, bd2), (t6, bd3)], a1, opts, root, fuel)
        == Ok::<DirectView, crate::parser::BuildErr>(a3));
    assert(crate::parser::apply_props_model(props, acc0, opts, root, fuel) == Ok::<
        DirectView,
        crate::parser::BuildErr,
    >(a3));
    assert(crate::parser::build_entry_spec(tokens, 1, opts, root) == Ok::<
        IntermediateView,
        crate::parser::BuildErr,
    >(IntermediateView::Direct(a3)));
}

/// A header line written by the writer holds no line break.
proof fn lemma_mark_line_break_free(mark: Seq<char>, label: Seq<char>, h: Seq<char>)
    requires
        mark == mark_of(0),
        label == "file path"@ || label == "name"@ || label == "entry type"@,
        h == mark + " ["@ + label + "]"@,
    ensures
        !h.contains('\n'),
{
    reveal_strlit(" [");
    reveal_strlit("]");
    reveal_strlit("file path");
    reveal_strlit("name");
    reveal_strlit("entry type");
    if h.contains('\n') {
        let w = choose|w: int| 0 <= w < h.len() && h[w] == '\n';
        assert(false);
    }
}

/// A line without a carriage return keeps itself.
proof fn lemma_strip_cr_free(line: Seq<char>)
    requires
        !line.contains('\r'),
    ensures
        crate::parser::strip_cr(line) == line,
{
    if line.len() > 0 && line.last() == '\r' {
        assert(line.contains('\r'));
    }
}

/// The marker run for a depth.
fn begin_mark_of(depth: u32) -> (r: String)
    requires
        depth < u32::MAX,
    ensures
        r@ == mark_of(depth as int),
{
    let mut begin_mark = String::new();
    let mut counter: u32 = 0;
    while counter <= depth
        invariant
            0 <= counter <= depth + 1,
            depth < u32::MAX,
            begin_mark@ == Seq::new(counter as nat, |i: int| '+'),
        decreases depth + 1 - counter,
    {
        begin_mark.append(BEGIN_MARK);
        counter = counter + 1;
        proof {
            reveal_strlit("+");
            assert(begin_mark@ =~= Seq::new(counter as nat, |i: int| '+'));
        }
    }
    proof {
        assert(begin_mark@ =~= mark_of(depth as int));
    }
    begin_mark
}

/// One written property block.
fn block_string(mark: &String, label: &str, value: &String) -> (r: String)
    ensures
        r@ == block_text(mark@, label@, value@),
{
    let mut out = mark.clone();
    out.append(" [");
    out.append(label);
    out.append("]");
    out.append("\n");
    out.append(value.as_str());
    out.append("\n");
    proof {
        assert(out@ =~= block_text(mark@, label@, value@));
    }
    out
}

/// The path value an entry is written with, or `None` for a path outside
/// the root directory.
fn written_path_string(absolute_path: &String, root_dir: &String) -> (r: Option<String>)
    ensures
        match r {
            Some(p) => written_path(absolute_path@, root_dir@) matches Ok(q) && p@ == q,
            None => written_path(absolute_path@, root_dir@) is Err,
        },
{
    let a = chars_of(absolute_path.as_str());
    let b = chars_of(root_dir.as_str());
    let m = b.len();
    if a.len() < m {
        proof {
            assert(absolute_path@ != root_dir@);
        }
        return None;
    }
    let mut i: usize = 0;
    while i < m
        invariant
            0 <= i <= m,
            m <= a@.len(),
            a@ == absolute_path@,
            b@ == root_dir@,
            m == root_dir@.len(),
            forall|j: int| 0 <= j < i ==> absolute_path@[j] == root_dir@[j],
        decreases m - i,
    {
        if a[i] != b[i] {
            proof {
                assert(absolute_path@ != root_dir@);
                assert(absolute_path@.take(m as int)[i as int] != root_dir@[i as int]);
            }
            return None;
        }
        i = i + 1;
    }
    let marker = ROOT_DIR.to_owned();
    if a.len() == m {
        proof {
            assert(absolute_path@ =~= root_dir@);
        }
        let empty = String::new();
        return Some(crate::helper::path::path_join(&marker, &empty));
    }
    proof {
        assert(absolute_path@.take(m as int) =~= root_dir@);
        assert(absolute_path@ != root_dir@);
    }
    if a[m] != '/' {
        return None;
    }
    let mut rel: Vec<char> = Vec::new();
    let mut k = m + 1;
    while k < a.len()
        invariant
            m + 1 <= k <= a@.len(),
            a@ == absolute_path@,
            m == root_dir@.len(),
            rel@ == absolute_path@.subrange(m as int + 1, k as int),
        decreases a@.len() - k,
    {
        rel.push(a[k]);
        k = k + 1;
        proof {
            assert(rel@ =~= absolute_path@.subrange(m as int + 1, k as int));
        }
    }
    proof {
        assert(rel@ =~= absolute_path@.skip(m as int + 1));
    }
    let rel_string = string_from_chars(&rel);
    Some(crate::helper::path::path_join(&marker, &rel_string))
}

impl WisphaEntryProperties {
    /// Writes the properties at a depth, the path turned relative to the
    /// root directory. A path outside the root directory cannot be
    /// written.
    pub fn to_string(&self, depth: u32, root_dir: &String) -> (r: Result<String, GeneratorError>)
        requires
            depth < u32::MAX,
        ensures
            match r {
                Ok(text) => properties_text(self@, depth as int, root_dir@) matches Ok(t) && text@
                    == t,
                Err(e) => properties_text(self@, depth as int, root_dir@) is Err && e
                    is Unexpected,
            },
    {
        let begin_mark = begin_mark_of(depth);
        let path_value = match written_path_string(&self.absolute_path, root_dir) {
            Some(p) => p,
            None => {
                return Err(GeneratorError::Unexpected);
            },
        };
        let mut headers: Vec<String> = Vec::new();
        headers.push(block_string(&begin_mark, ABSOLUTE_PATH_HEADER, &path_value));
        headers.push(block_string(&begin_mark, NAME_HEADER, &self.name));
        let type_value = self.entry_type.to_str().to_owned();
        headers.push(block_string(&begin_mark, ENTRY_TYPE_HEADER, &type_value));
        if let Some(description) = &self.description {
            headers.push(block_string(&begin_mark, DESCRIPTION_HEADER, description));
        }
        let mut customized_strings: Vec<String> = Vec::new();
        let n = self.customized.len();
        let mut i: usize = 0;
        while i < n
            invariant
                0 <= i <= n,
                n == self.customized@.len(),
                string_views(customized_strings@) == self@.customized.take(i as int).map_values(
                    |p: (Seq<char>, Seq<char>)| block_text(mark_of(depth as int), p.0, p.1),
                ),
                begin_mark@ == mark_of(depth as int),
            decreases n - i,
        {
            let ghost prev = customized_strings@;
            customized_strings.push(
                block_string(&begin_mark, self.customized[i].0.as_str(), &self.customized[i].1),
            );
            i = i + 1;
            proof {
                let f = |p: (Seq<char>, Seq<char>)| block_text(mark_of(depth as int), p.0, p.1);
                let a = string_views(customized_strings@);
                let b = self@.customized.take(i as int).map_values(f);
                assert(string_views(prev).len() == prev.len());
                assert(prev.len() == i - 1);
                assert(a.len() == i as int && b.len() == i as int);
                assert forall|j: int| 0 <= j < a.len() implies a[j] == b[j] by {
                    assert(self@.customized.take(i as int)[j] == self@.customized[j]);
                    assert(self@.customized[j] == (
                        self.customized@[j].0@,
                        self.customized@[j].1@,
                    ));
                    if j < i - 1 {
                        assert(customized_strings@[j] == prev[j]);
                        assert(string_views(prev)[j] == self@.customized.take(i as int - 1).map_values(f)[j]);
                        assert(self@.customized.take(i as int - 1)[j] == self@.customized[j]);
                    }
                }
                assert(a =~= b);
            }
        }
        proof {
            assert(self@.customized.take(n as int) =~= self@.customized);
        }
        let customized_string = crate::helper::text::join_strings(
            &customized_strings,
            LINE_SEPARATOR,
        );
        proof {
            assert(customized_string@ == customized_text(mark_of(depth as int), self@.customized));
        }
        headers.push(customized_string);
        proof {
            let mark = mark_of(depth as int);
            let path_v = written_path(self@.absolute_path, root_dir@)->Ok_0;
            let blocks0 = seq![
                block_text(mark, "file path"@, path_v),
                block_text(mark, "name"@, self@.name),
                block_text(mark, "entry type"@, self@.entry_type.spec_str()),
            ];
            let blocks1 = match self@.description {
                Some(d) => blocks0.push(block_text(mark, "description"@, d)),
                None => blocks0,
            };
            let blocks = blocks1.push(customized_text(mark, self@.customized));
            assert(string_views(headers@) =~= blocks);
        }
        Ok(crate::helper::text::join_strings(&headers, LINE_SEPARATOR))
    }
}

impl WisphaDirectEntry {
    /// Writes the entry and its children at a depth: the document text the
    /// tree is saved as.
    pub fn to_file_string(&self, depth: u32, root_dir: &String) -> (r: Result<
        String,
        GeneratorError,
    >)
        requires
            depth + direct_height(self.direct_view()) <= u32::MAX,
        ensures
            match r {
                Ok(text) => entry_text(self.direct_view(), depth as int, root_dir@) matches Ok(t)
                    && text@ == t,
                Err(e) => entry_text(self.direct_view(), depth as int, root_dir@) is Err && e
                    is Unexpected,
            },
        decreases self.sub_entries@, 3nat,
    {
        let begin_mark = begin_mark_of(depth);
        let properties_string = match self.properties.to_string(depth, root_dir) {
            Ok(t) => t,
            Err(e) => {
                return Err(GeneratorError::Unexpected);
            },
        };
        let ghost children = WisphaIntermediateEntry::views_of(self.sub_entries@);
        proof {
            WisphaIntermediateEntry::lemma_views_of(self.sub_entries@);
        }
        let mut sub_entry_strings: Vec<String> = Vec::new();
        let n = self.sub_entries.len();
        let mut m: usize = 0;
        proof {
            assert(children.skip(0) =~= children);
            assert(string_views(sub_entry_strings@) =~= Seq::<Seq<char>>::empty());
            match children_text(children, depth as int, root_dir@) {
                Ok(blocks) => {
                    assert(string_views(sub_entry_strings@) =~= blocks.take(0));
                    assert(blocks =~= blocks.take(0) + blocks);
                },
                Err(_) => {},
            }
        }
        while m < n
            invariant
                0 <= m <= n,
                n == self.sub_entries@.len(),
                depth + direct_height(self.direct_view()) <= u32::MAX,
                self.direct_view().children == children,
                children == WisphaIntermediateEntry::views_of(self.sub_entries@),
                children.len() == n,
                begin_mark@ == mark_of(depth as int),
                forall|j: int|
                    0 <= j < children.len() ==> #[trigger] children[j] == self.sub_entries@[
                        j
                    ].view(),
                match children_text(children, depth as int, root_dir@) {
                    Ok(blocks) => ({
                        &&& string_views(sub_entry_strings@) == blocks.take(m as int)
                        &&& children_text(children.skip(m as int), depth as int, root_dir@)
                            matches Ok(rest) && blocks == blocks.take(m as int) + rest
                    }),
                    Err(_) => children_text(children.skip(m as int), depth as int, root_dir@)
                        is Err,
                },
            decreases n - m,
        {
            let sub_entry = &self.sub_entries[m];
            let mut sub_header = begin_mark.clone();
            sub_header.append(" [");
            sub_header.append(SUB_ENTRIES_HEADER);
            sub_header.append("]");
            proof {
                assert(sub_header@ =~= mark_of(depth as int) + " ["@ + "subentry"@ + "]"@);
            }
            let sub_entry_content: String = match sub_entry {
                WisphaIntermediateEntry::Link(link) => {
                    let mut link_block = begin_mark.clone();
                    link_block.append("+");
                    link_block.append(" [");
                    link_block.append(ENTRY_FILE_PATH_HEADER);
                    link_block.append("]");
                    link_block.append("\n");
                    link_block.append(link.entry_file_path.as_str());
                    link_block.append("\n");
                    proof {
                        assert(link_block@ =~= mark_of(depth as int) + "+"@ + " ["@
                            + "entry file path"@ + "]"@ + "\n"@ + link.entry_file_path@ + "\n"@);
                    }
                    link_block
                },
                WisphaIntermediateEntry::Direct(direct) => {
                    proof {
                        assert(decreases_to!(self.sub_entries@ => self.sub_entries@[m as int]));
                        assert(children[m as int] == IntermediateView::Direct(
                            direct.direct_view(),
                        ));
                        lemma_children_height(children, m as int);
                    }
                    match direct.to_file_string(depth + 1, root_dir) {
                        Ok(t) => t,
                        Err(_) => {
                            proof {
                                assert(child_text(children[m as int], depth as int, root_dir@)
                                    is Err);
                                assert(children.skip(m as int)[0] == children[m as int]);
                                assert(children_text(
                                    children.skip(m as int),
                                    depth as int,
                                    root_dir@,
                                ) is Err);
                            }
                            return Err(GeneratorError::Unexpected);
                        },
                    }
                },
            };
            let mut pair: Vec<String> = Vec::new();
            pair.push(sub_header);
            pair.push(sub_entry_content);
            let sub_entry_string = crate::helper::text::join_strings(&pair, LINE_SEPARATOR);
            proof {
                assert(string_views(pair@) =~= seq![pair@[0]@, pair@[1]@]);
                assert(seq![pair@[0]@, pair@[1]@].drop_first() =~= seq![pair@[1]@]);
                assert(spec_join(seq![pair@[1]@], "\n"@) == pair@[1]@);
                assert(spec_join(seq![pair@[0]@, pair@[1]@], "\n"@) == pair@[0]@ + "\n"@
                    + pair@[1]@);
                assert(child_text(children[m as int], depth as int, root_dir@) matches Ok(t)
                    && sub_entry_string@ == t);
            }
            let ghost prev = sub_entry_strings@;
            sub_entry_strings.push(sub_entry_string);
            m = m + 1;
            proof {
                assert(children.skip(m as int - 1)[0] == children[m as int - 1]);
                assert(children.skip(m as int - 1).drop_first() =~= children.skip(m as int));
                match children_text(children, depth as int, root_dir@) {
                    Err(_) => {
                        assert(children.skip(m as int - 1)[0] == children[m as int - 1]);
                        assert(children_text(children.skip(m as int), depth as int, root_dir@)
                            is Err);
                    },
                    Ok(blocks) => {
                        lemma_children_text_len(children, depth as int, root_dir@);
                        let a = string_views(sub_entry_strings@);
                        assert(string_views(prev).len() == prev.len());
                        assert(blocks.take(m as int - 1).len() == m - 1);
                        assert(prev.len() == m - 1);
                        assert forall|j: int| 0 <= j < a.len() implies a[j] == blocks.take(
                            m as int,
                        )[j] by {
                            if j < m - 1 {
                                assert(sub_entry_strings@[j] == prev[j]);
                                assert(string_views(prev)[j] == blocks.take(m as int - 1)[j]);
                            } else {
                                assert(children_text(
                                    children.skip(m as int - 1),
                                    depth as int,
                                    root_dir@,
                                ) matches Ok(rest) && blocks == blocks.take(m as int - 1) + rest
                                    && rest[0] == child_text(
                                    children[m as int - 1],
                                    depth as int,
                                    root_dir@,
                                )->Ok_0);
                            }
                        }
                        assert(a =~= blocks.take(m as int));
                        assert(blocks =~= blocks.take(m as int) + children_text(
                            children.skip(m as int),
                            depth as int,
                            root_dir@,
                        )->Ok_0);
                    },
                }
            }
        }
        proof {
            assert(children.skip(n as int) =~= Seq::<IntermediateView>::empty());
            match children_text(children, depth as int, root_dir@) {
                Ok(blocks) => {
                    assert(blocks =~= blocks.take(n as int));
                    assert(string_views(sub_entry_strings@) == blocks);
                },
                Err(_) => {
                    assert(false);
                },
            }
        }
        if sub_entry_strings.len() > 0 {
            let blocks_joined = crate::helper::text::join_strings(
                &sub_entry_strings,
                LINE_SEPARATOR,
            );
            let mut outer: Vec<String> = Vec::new();
            outer.push(properties_string);
            outer.push(blocks_joined);
            let out = crate::helper::text::join_strings(&outer, LINE_SEPARATOR);
            proof {
                assert(string_views(outer@) =~= seq![outer@[0]@, outer@[1]@]);
                assert(seq![outer@[0]@, outer@[1]@].drop_first() =~= seq![outer@[1]@]);
                assert(spec_join(seq![outer@[1]@], "\n"@) == outer@[1]@);
                assert(spec_join(seq![outer@[0]@, outer@[1]@], "\n"@) == outer@[0]@ + "\n"@
                    + outer@[1]@);
            }
            Ok(out)
        } else {
            Ok(properties_string)
        }
    }
}

} // verus!

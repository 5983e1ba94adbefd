//! The tokenizer and the structural parser on concrete documents.

use wispha::config_reader::PropertyConfig;
use wispha::parser::option::ParserOptions;
use wispha::parser::parser_struct::{WisphaExpectOption, WisphaToken};
use wispha::parser::error::ParserError;
use wispha::parser::{
    actual_path, build_wispha_entry_with_relative_path, build_wispha_properties,
    get_content_token_from_body, get_multiline_content_tokens_from_body, parse_line, tokenize,
};
use wispha::wispha::intermediate::WisphaIntermediateEntry;
use wispha::wispha::properties::WisphaEntryType;

fn doc_path() -> String {
    String::from("/tmp/root.wispha")
}

#[test]
fn parse_line_reads_a_header() {
    let token = parse_line(String::from("++ [entry type]"), 3, &doc_path());
    match token {
        WisphaToken::Header(raw, depth) => {
            assert_eq!(raw.content, "entry type");
            assert_eq!(depth, 2);
            assert_eq!(raw.line_number, 3);
            assert_eq!(raw.file_path, "/tmp/root.wispha");
        }
        WisphaToken::Body(_) => panic!("header line read as body"),
    }
}

#[test]
fn parse_line_allows_blanks_and_brackets_in_labels() {
    let token = parse_line(String::from("  +++\t[a]b] \t"), 1, &doc_path());
    match token {
        WisphaToken::Header(raw, depth) => {
            assert_eq!(raw.content, "a]b");
            assert_eq!(depth, 3);
        }
        WisphaToken::Body(_) => panic!("header line read as body"),
    }
}

#[test]
fn parse_line_keeps_other_lines_as_written() {
    for line in ["no markers [x]", "[x]", "+ [", "+ []", "+ x", "", "   "] {
        let token = parse_line(String::from(line), 1, &doc_path());
        match token {
            WisphaToken::Body(raw) => assert_eq!(raw.content, line),
            WisphaToken::Header(_, _) => panic!("body line read as header: {:?}", line),
        }
    }
}

#[test]
fn tokenize_numbers_lines_from_one_and_strips_carriage_returns() {
    let content = String::from("+ [name]\r\nroot\nlast");
    let tokens = tokenize(content, &doc_path());
    assert_eq!(tokens.len(), 3);
    assert_eq!(tokens[0].raw_token().line_number, 1);
    assert_eq!(tokens[0].raw_token().content, "name");
    assert_eq!(tokens[1].raw_token().content, "root");
    assert_eq!(tokens[1].raw_token().line_number, 2);
    assert_eq!(tokens[2].raw_token().content, "last");
}

#[test]
fn tokenize_drops_the_piece_after_a_trailing_break() {
    let tokens = tokenize(String::from("a\nb\n"), &doc_path());
    assert_eq!(tokens.len(), 2);
    let tokens = tokenize(String::new(), &doc_path());
    assert_eq!(tokens.len(), 0);
}

#[test]
fn grouping_collects_deeper_headers_into_the_body() {
    let content = String::from("+ [subentry]\n++ [name]\nchild\n+ [name]\nroot");
    let tokens = tokenize(content, &doc_path());
    let props = build_wispha_properties(tokens, 1).unwrap();
    assert_eq!(props.len(), 2);
    assert_eq!(props[0].header.raw_token().content, "subentry");
    assert_eq!(props[0].body.len(), 2);
    assert_eq!(props[1].header.raw_token().content, "name");
    assert_eq!(props[1].body.len(), 1);
}

#[test]
fn grouping_rejects_a_header_of_the_wrong_depth() {
    let content = String::from("++ [name]\nroot");
    let tokens = tokenize(content, &doc_path());
    match build_wispha_properties(tokens, 1) {
        Err(ParserError::UnexpectedToken(token, expected)) => {
            assert_eq!(token.raw_token().content, "name");
            assert_eq!(token.raw_token().line_number, 1);
            let expected = expected.unwrap();
            assert_eq!(expected.len(), 2);
            assert_eq!(expected[0].1, vec![WisphaExpectOption::IgnoreContent]);
        }
        _ => panic!("depth mismatch not rejected"),
    }
}

#[test]
fn grouping_rejects_a_stray_body_line() {
    let content = String::from("stray\n+ [name]\nroot");
    let tokens = tokenize(content, &doc_path());
    match build_wispha_properties(tokens, 1) {
        Err(ParserError::UnexpectedToken(token, _)) => {
            assert_eq!(token.raw_token().content, "stray");
        }
        _ => panic!("stray body line not rejected"),
    }
}

#[test]
fn single_value_bodies_skip_blank_lines_and_refuse_second_values() {
    let content = String::from("+ [name]\n\nroot\n\n");
    let tokens = tokenize(content, &doc_path());
    let props = build_wispha_properties(tokens, 1).unwrap();
    let body = props.into_iter().next().unwrap().body;
    let token = get_content_token_from_body(body).unwrap().unwrap();
    assert_eq!(token.raw_token().content, "root");

    let content = String::from("+ [name]\nroot\nextra");
    let tokens = tokenize(content, &doc_path());
    let props = build_wispha_properties(tokens, 1).unwrap();
    let body = props.into_iter().next().unwrap().body;
    match get_content_token_from_body(body) {
        Err(ParserError::UnexpectedToken(token, _)) => {
            assert_eq!(token.raw_token().content, "extra");
        }
        _ => panic!("second content line not rejected"),
    }
}

#[test]
fn multiline_bodies_keep_every_line_and_refuse_headers() {
    let content = String::from("+ [description]\nfirst\n\nsecond");
    let tokens = tokenize(content, &doc_path());
    let props = build_wispha_properties(tokens, 1).unwrap();
    let body = props.into_iter().next().unwrap().body;
    let lines = get_multiline_content_tokens_from_body(body).unwrap();
    assert_eq!(lines.len(), 3);
}

#[test]
fn a_direct_entry_reads_its_fields() {
    let content = String::from(
        "+ [name]\n  spaced  \n+ [entry type]\ndirectory\n+ [description]\nline one\n\nline two",
    );
    let tokens = tokenize(content, &doc_path());
    let options = ParserOptions::default();
    let entry = build_wispha_entry_with_relative_path(tokens, 1, &options, &None).unwrap();
    match entry {
        WisphaIntermediateEntry::Direct(direct) => {
            assert_eq!(direct.properties.name, "spaced");
            assert!(matches!(
                direct.properties.entry_type,
                WisphaEntryType::Directory
            ));
            assert_eq!(
                direct.properties.description.as_deref(),
                Some("line one\n\nline two")
            );
            assert_eq!(direct.properties.file_path, "/tmp/root.wispha");
        }
        WisphaIntermediateEntry::Link(_) => panic!("direct entry built as link"),
    }
}

#[test]
fn an_unknown_entry_type_is_rejected_with_its_token() {
    let content = String::from("+ [entry type]\nsymlink");
    let tokens = tokenize(content, &doc_path());
    let options = ParserOptions::default();
    match build_wispha_entry_with_relative_path(tokens, 1, &options, &None) {
        Err(ParserError::UnrecognizedEntryFileType(token)) => {
            assert_eq!(token.raw_token().content, "symlink");
            assert_eq!(token.raw_token().line_number, 2);
        }
        _ => panic!("unknown entry type not rejected"),
    }
}

#[test]
fn an_empty_single_value_body_is_rejected_with_the_header() {
    let content = String::from("+ [name]\n\n");
    let tokens = tokenize(content, &doc_path());
    let options = ParserOptions::default();
    match build_wispha_entry_with_relative_path(tokens, 1, &options, &None) {
        Err(ParserError::EmptyBody(token)) => {
            assert_eq!(token.raw_token().content, "name");
        }
        _ => panic!("empty body not rejected"),
    }
}

#[test]
fn a_link_property_wins_over_everything_else() {
    let content = String::from("+ [name]\nroot\n+ [entry file path]\nchild.wispha");
    let tokens = tokenize(content, &doc_path());
    let options = ParserOptions::default();
    let entry = build_wispha_entry_with_relative_path(tokens, 1, &options, &None).unwrap();
    match entry {
        WisphaIntermediateEntry::Link(link) => {
            assert_eq!(link.entry_file_path, "/tmp/child.wispha");
        }
        WisphaIntermediateEntry::Direct(_) => panic!("link group built as direct entry"),
    }
}

#[test]
fn custom_properties_store_the_observed_label_value() {
    let content = String::from("+ [owner]\nsomebody");
    let tokens = tokenize(content, &doc_path());
    let mut options = ParserOptions::default();
    options.properties = vec![PropertyConfig {
        name: String::from("owner"),
        default_value: None,
    }];
    let entry = build_wispha_entry_with_relative_path(tokens, 1, &options, &None).unwrap();
    match entry {
        WisphaIntermediateEntry::Direct(direct) => {
            let value = direct
                .properties
                .get_customized(&String::from("owner"))
                .unwrap();
            assert_eq!(value, "owner");
        }
        WisphaIntermediateEntry::Link(_) => panic!("custom group built as link"),
    }
}

#[test]
fn paths_resolve_against_file_root_and_current_directory() {
    let root = Some(String::from("/base"));
    let abs = actual_path(&String::from("/a/b"), &String::from("/cur"), &root).unwrap();
    assert_eq!(abs, "/a/b");
    let marked = actual_path(&String::from("$ROOT_DIR/x"), &String::from("/cur"), &root).unwrap();
    assert_eq!(marked, "/base/x");
    let rel = actual_path(&String::from("x/y"), &String::from("/cur"), &root).unwrap();
    assert_eq!(rel, "/cur/x/y");
    match actual_path(&String::from("$ROOT_DIR/x"), &String::from("/cur"), &None) {
        Err(ParserError::EnvNotFound) => {}
        _ => panic!("missing root directory not reported"),
    }
}

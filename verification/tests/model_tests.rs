//! The document model, the writer, and the navigation over a resolved
//! tree.

use wispha::config_reader::PropertyConfig;
use wispha::generator::generate_file_at_path_without_sub_and_sup;
use wispha::generator::option::GeneratorOptions;
use wispha::manipulator::error::ManipulatorError;
use wispha::manipulator::Manipulator;
use wispha::parser::option::ParserOptions;
use wispha::parser::{build_wispha_entry_with_relative_path, tokenize};
use wispha::wispha::intermediate::{WisphaDirectEntry, WisphaIntermediateEntry, WisphaLinkEntry};
use wispha::wispha::properties::WisphaEntryType;

fn build(content: &str, path: &str, root_dir: Option<&str>) -> WisphaIntermediateEntry {
    let options = ParserOptions::default();
    let tokens = tokenize(String::from(content), &String::from(path));
    build_wispha_entry_with_relative_path(
        tokens,
        1,
        &options,
        &root_dir.map(String::from),
    )
    .unwrap()
}

#[test]
fn entry_types_write_and_read_back() {
    assert_eq!(WisphaEntryType::Directory.to_str(), "directory");
    assert_eq!(WisphaEntryType::File.to_str(), "file");
    assert_eq!(WisphaEntryType::ProgramEntry.to_str(), "program entry");
    assert!(matches!(
        WisphaEntryType::from(String::from("directory")),
        Some(WisphaEntryType::Directory)
    ));
    assert!(matches!(
        WisphaEntryType::from(String::from("program entry")),
        Some(WisphaEntryType::ProgramEntry)
    ));
    assert!(WisphaEntryType::from(String::from("link")).is_none());
}

#[test]
fn a_written_entry_reads_back_as_an_equal_tree() {
    let content = "+ [file path]\n/base/dir\n+ [name]\nroot\n+ [entry type]\ndirectory\n\
                   + [subentry]\n++ [file path]\n/base/dir/inner\n++ [name]\ninner\n++ [entry type]\nfile\n";
    let entry = build(content, "/base/root.wispha", Some("/base"));
    let direct = match &entry {
        WisphaIntermediateEntry::Direct(d) => d,
        WisphaIntermediateEntry::Link(_) => panic!("tree built as link"),
    };
    let written = direct.to_file_string(0, &String::from("/base")).unwrap();
    let reread = build(&written, "/base/root.wispha", Some("/base"));
    let reread = match &reread {
        WisphaIntermediateEntry::Direct(d) => d,
        WisphaIntermediateEntry::Link(_) => panic!("rewritten tree read as link"),
    };
    assert_eq!(reread.properties.name, "root");
    assert_eq!(reread.properties.absolute_path, "/base/dir");
    assert_eq!(reread.properties.description, None);
    assert!(matches!(
        reread.properties.entry_type,
        WisphaEntryType::Directory
    ));
    assert_eq!(reread.sub_entries.len(), 1);
    match &reread.sub_entries[0] {
        WisphaIntermediateEntry::Direct(inner) => {
            assert_eq!(inner.properties.name, "inner");
            assert_eq!(inner.properties.absolute_path, "/base/dir/inner");
            assert!(matches!(inner.properties.entry_type, WisphaEntryType::File));
        }
        WisphaIntermediateEntry::Link(_) => panic!("inner entry read as link"),
    }
    // Writing the reread tree again gives the same text.
    let rewritten = reread.to_file_string(0, &String::from("/base")).unwrap();
    assert_eq!(written, rewritten);
}

#[test]
fn a_reread_description_absorbs_the_written_separator_lines() {
    // The blank line that separates written blocks belongs, on re-parse,
    // to the description body: a description does not round-trip exactly.
    let content = "+ [file path]\n/base/dir\n+ [name]\nroot\n+ [entry type]\ndirectory\n\
                   + [description]\nfirst\nsecond\n";
    let entry = build(content, "/base/root.wispha", Some("/base"));
    let direct = match &entry {
        WisphaIntermediateEntry::Direct(d) => d,
        WisphaIntermediateEntry::Link(_) => panic!("tree built as link"),
    };
    assert_eq!(direct.properties.description.as_deref(), Some("first\nsecond"));
    let written = direct.to_file_string(0, &String::from("/base")).unwrap();
    let reread = build(&written, "/base/root.wispha", Some("/base"));
    match &reread {
        WisphaIntermediateEntry::Direct(d) => {
            assert_eq!(d.properties.description.as_deref(), Some("first\nsecond\n"));
        }
        WisphaIntermediateEntry::Link(_) => panic!("rewritten tree read as link"),
    }
}

#[test]
fn the_writer_places_markers_labels_and_values() {
    let mut direct = WisphaDirectEntry::default();
    direct.properties.name = String::from("thing");
    direct.properties.absolute_path = String::from("/base/thing");
    direct.properties.entry_type = WisphaEntryType::File;
    let written = direct.to_file_string(0, &String::from("/base")).unwrap();
    assert_eq!(
        written,
        "+ [file path]\n$ROOT_DIR/thing\n\n+ [name]\nthing\n\n+ [entry type]\nfile\n\n"
    );
}

#[test]
fn the_writer_writes_link_children_as_link_blocks() {
    let mut root = WisphaDirectEntry::default();
    root.properties.name = String::from("root");
    root.properties.absolute_path = String::from("/base");
    root.properties.entry_type = WisphaEntryType::Directory;
    root.sub_entries
        .push(WisphaIntermediateEntry::Link(WisphaLinkEntry {
            entry_file_path: String::from("/base/sub/doc.wispha"),
        }));
    let written = root.to_file_string(0, &String::from("/base")).unwrap();
    assert!(written.ends_with(
        "+ [subentry]\n++ [entry file path]\n/base/sub/doc.wispha\n"
    ));
}

#[test]
fn navigation_moves_with_names_dots_and_the_root_marker() {
    let content = "+ [file path]\n/base\n+ [name]\nroot\n+ [entry type]\ndirectory\n\
                   + [subentry]\n++ [file path]\n/base/a\n++ [name]\na\n++ [entry type]\ndirectory\n\
                   ++ [subentry]\n+++ [file path]\n/base/a/b\n+++ [name]\nb\n+++ [entry type]\nfile\n";
    let entry = build(content, "/base/root.wispha", Some("/base"));
    let tree = entry.to_common().unwrap();
    let mut manipulator = Manipulator::new(tree, 0);
    manipulator
        .set_current_entry_to_path(&String::from("a/b"), &Some(String::from("/base")))
        .unwrap();
    assert_eq!(
        manipulator
            .info_of_property(&String::from("name"))
            .unwrap(),
        "b"
    );
    manipulator
        .set_current_entry_to_path(&String::from(".."), &Some(String::from("/base")))
        .unwrap();
    assert_eq!(manipulator.current_list(), "b");
    manipulator
        .set_current_entry_to_path(&String::from("$ROOT_DIR/."), &Some(String::from("/base")))
        .unwrap();
    assert_eq!(manipulator.current_list(), "a");
    assert_eq!(manipulator.current_path(&String::from("/base")), "$ROOT_DIR");
    match manipulator.set_current_entry_to_path(&String::from("../.."), &None) {
        Err(ManipulatorError::BeyondDomain) => {}
        _ => panic!("walking above the root not rejected"),
    }
    match manipulator.set_current_entry_to_path(&String::from("missing"), &None) {
        Err(ManipulatorError::EntryNotFound(path)) => assert_eq!(path, "missing"),
        _ => panic!("missing child not rejected"),
    }
    match manipulator.set_current_entry_to_path(&String::from("/abs"), &None) {
        Err(ManipulatorError::AbsolutePathNotSupported) => {}
        _ => panic!("absolute path not rejected"),
    }
}

#[test]
fn navigation_looks_entries_up_by_file_system_path() {
    let content = "+ [file path]\n/base\n+ [name]\nroot\n+ [entry type]\ndirectory\n\
                   + [subentry]\n++ [file path]\n/base/a\n++ [name]\na\n++ [entry type]\nfile\n";
    let entry = build(content, "/base/root.wispha", Some("/base"));
    let tree = entry.to_common().unwrap();
    let mut manipulator = Manipulator::new(tree, 0);
    manipulator
        .set_current_entry_to_local_path(&String::from("/base/a"), &Some(String::from("/base")))
        .unwrap();
    assert_eq!(
        manipulator.info_of_property(&String::from("name")).unwrap(),
        "a"
    );
    let listing = manipulator
        .list_of_local_path(&String::from("$ROOT_DIR"), &Some(String::from("/base")))
        .unwrap();
    assert_eq!(listing, "a");
    match manipulator.info_of_property(&String::from("description")) {
        Err(ManipulatorError::PropertyNotFound) => {}
        _ => panic!("missing description not reported"),
    }
}

#[test]
fn generated_entries_read_their_name_and_defaults() {
    let mut options = GeneratorOptions::default();
    options.properties = vec![
        PropertyConfig {
            name: String::from("owner"),
            default_value: Some(String::from("nobody")),
        },
        PropertyConfig {
            name: String::from("note"),
            default_value: None,
        },
    ];
    let entry =
        generate_file_at_path_without_sub_and_sup(&String::from("/base/dir"), true, &options)
            .unwrap();
    assert_eq!(entry.properties.name, "dir");
    assert!(matches!(
        entry.properties.entry_type,
        WisphaEntryType::Directory
    ));
    assert_eq!(
        entry
            .properties
            .get_customized(&String::from("owner"))
            .unwrap(),
        "nobody"
    );
    assert!(entry
        .properties
        .get_customized(&String::from("note"))
        .is_none());
    let err = generate_file_at_path_without_sub_and_sup(&String::from("/base/"), false, &options);
    assert!(err.is_err());
}

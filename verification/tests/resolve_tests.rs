//! The resolution engine on concrete document sets: the pending queue is
//! the dispatch log, and each step splices one document.

use wispha::parser::error::ParserError;
use wispha::parser::option::ParserOptions;
use wispha::parser::{
    build_wispha_entry_with_relative_path, resolve_step, tokenize, PendingLink, ResolveState,
};
use wispha::wispha::common::WisphaTree;

fn run_to_tree(
    root_path: &str,
    documents: &[(&str, &str)],
    reverse: bool,
) -> Result<WisphaTree, ParserError> {
    let options = ParserOptions::default();
    let root_dir = Some(parent_of(root_path));
    let mut state = ResolveState::new(String::from(root_path));
    let mut waiting: Vec<PendingLink> = Vec::new();
    loop {
        while let Some(unit) = state.take_pending() {
            waiting.push(unit);
        }
        if waiting.is_empty() {
            break;
        }
        let unit = if reverse {
            waiting.remove(0)
        } else {
            waiting.pop().unwrap()
        };
        let content = documents
            .iter()
            .find(|(p, _)| *p == unit.entry_file_path)
            .map(|(_, c)| String::from(*c))
            .ok_or(ParserError::DependencyNotFound(unit.entry_file_path.clone()))?;
        resolve_step(&mut state, unit, content, &options, &root_dir)?;
    }
    Ok(state.into_tree())
}

fn parent_of(path: &str) -> String {
    let idx = path.rfind('/').unwrap();
    String::from(&path[..idx])
}

const ROOT_DOC: &str = "+ [name]\nroot\n+ [entry type]\ndirectory\n+ [subentry]\n++ [entry file path]\nchild.wispha\n";
const CHILD_DOC: &str = "+ [name]\nchild\n+ [entry type]\nfile\n";

#[test]
fn a_root_with_one_linked_child_resolves_to_two_entries() {
    let tree = run_to_tree(
        "/tmp/root.wispha",
        &[("/tmp/root.wispha", ROOT_DOC), ("/tmp/child.wispha", CHILD_DOC)],
        false,
    )
    .unwrap();
    assert_eq!(tree.nodes.len(), 2);
    let root = &tree.nodes[0];
    assert_eq!(root.properties.name, "root");
    assert_eq!(root.sup_entry, None);
    assert_eq!(root.sub_entries, vec![1]);
    let child = &tree.nodes[1];
    assert_eq!(child.properties.name, "child");
    assert_eq!(child.sup_entry, Some(0));
}

#[test]
fn a_chain_of_links_resolves_to_the_final_target() {
    let a = "+ [entry file path]\nb.wispha\n";
    let b = "+ [entry file path]\nc.wispha\n";
    let c = "+ [name]\nfinal\n+ [entry type]\nfile\n";
    let tree = run_to_tree(
        "/tmp/a.wispha",
        &[("/tmp/a.wispha", a), ("/tmp/b.wispha", b), ("/tmp/c.wispha", c)],
        false,
    )
    .unwrap();
    assert_eq!(tree.nodes.len(), 1);
    assert_eq!(tree.nodes[0].properties.name, "final");
    assert_eq!(tree.nodes[0].sub_entries.len(), 0);
}

#[test]
fn a_document_without_links_dispatches_no_further_work() {
    let doc = "+ [name]\nroot\n+ [subentry]\n++ [name]\ninline\n";
    let options = ParserOptions::default();
    let mut state = ResolveState::new(String::from("/tmp/root.wispha"));
    let unit = state.take_pending().unwrap();
    resolve_step(
        &mut state,
        unit,
        String::from(doc),
        &options,
        &Some(String::from("/tmp")),
    )
    .unwrap();
    assert!(state.is_complete());
    let tree = state.into_tree();
    assert_eq!(tree.nodes.len(), 2);
    assert_eq!(tree.nodes[1].properties.name, "inline");
}

#[test]
fn sibling_order_follows_the_document_whatever_finishes_first() {
    let root = "+ [name]\nroot\n\
                + [subentry]\n++ [entry file path]\nfirst.wispha\n\
                + [subentry]\n++ [name]\nmiddle\n\
                + [subentry]\n++ [entry file path]\nlast.wispha\n";
    let first = "+ [name]\nfirst\n";
    let last = "+ [name]\nlast\n";
    let documents = [
        ("/tmp/root.wispha", root),
        ("/tmp/first.wispha", first),
        ("/tmp/last.wispha", last),
    ];
    let names = |tree: &WisphaTree| -> Vec<String> {
        tree.nodes[0]
            .sub_entries
            .iter()
            .map(|&i| tree.nodes[i].properties.name.clone())
            .collect::<Vec<_>>()
    };
    let forward = run_to_tree("/tmp/root.wispha", &documents, false).unwrap();
    let backward = run_to_tree("/tmp/root.wispha", &documents, true).unwrap();
    assert_eq!(names(&forward), vec!["first", "middle", "last"]);
    assert_eq!(names(&backward), vec!["first", "middle", "last"]);
}

#[test]
fn a_grammar_error_names_the_referenced_document() {
    let root = "+ [name]\nroot\n+ [subentry]\n++ [entry file path]\nbroken.wispha\n";
    let broken = "+++ [name]\ntoo deep\n";
    let err = run_to_tree(
        "/tmp/root.wispha",
        &[("/tmp/root.wispha", root), ("/tmp/broken.wispha", broken)],
        false,
    )
    .unwrap_err();
    match err {
        ParserError::UnexpectedToken(token, _) => {
            assert_eq!(token.raw_token().file_path, "/tmp/broken.wispha");
            assert_eq!(token.raw_token().line_number, 1);
        }
        _ => panic!("grammar error lost its location"),
    }
}

#[test]
fn a_missing_document_is_a_dependency_error() {
    let root = "+ [subentry]\n++ [entry file path]\nmissing.wispha\n";
    let err = run_to_tree("/tmp/root.wispha", &[("/tmp/root.wispha", root)], false).unwrap_err();
    match err {
        ParserError::DependencyNotFound(path) => assert_eq!(path, "/tmp/missing.wispha"),
        _ => panic!("missing document not reported"),
    }
}

#[test]
fn to_common_resolves_link_free_entries_only() {
    let options = ParserOptions::default();
    let path = String::from("/tmp/root.wispha");
    let tokens = tokenize(String::from("+ [name]\nroot\n"), &path);
    let entry = build_wispha_entry_with_relative_path(tokens, 1, &options, &None).unwrap();
    let tree = entry.to_common().unwrap();
    assert_eq!(tree.nodes[0].properties.name, "root");

    let tokens = tokenize(
        String::from("+ [subentry]\n++ [entry file path]\nchild.wispha\n"),
        &path,
    );
    let entry = build_wispha_entry_with_relative_path(tokens, 1, &options, &None).unwrap();
    assert!(entry.to_common().is_none());
}

//! Options, input tokenization, ignore patterns, and wildcard matching.

use wispha::commandline::input_parser::InputParser;
use wispha::commandline::{Convert, Generate, Look, State};
use wispha::config_reader::{Config, GenerateConfig};
use wispha::generator::option::{GenerateLayer, GeneratorOptionError, GeneratorOptions};
use wispha::generator::{get_ignored_files_from_root, should_include_entry};
use wispha::ignorer::do_wild;
use wispha::parser::option::ParserOptions;
use wispha::serializer::options::{Language, SerializerOptions};
use wispha::stator::option::StatorOptions;
use wispha::stator::is_path_unrecorded;

#[test]
fn input_lines_split_into_words_and_quoted_words() {
    let mut parser = InputParser::new(String::from("  cd  \"a dir\" ls last"));
    assert_eq!(parser.next().as_deref(), Some("cd"));
    assert_eq!(parser.next().as_deref(), Some("a dir"));
    assert_eq!(parser.next().as_deref(), Some("ls"));
    assert_eq!(parser.next().as_deref(), Some("last"));
    assert_eq!(parser.next(), None);

    let mut parser = InputParser::new(String::from("\"unclosed rest"));
    assert_eq!(parser.next().as_deref(), Some("unclosed rest"));
    assert_eq!(parser.next(), None);

    let mut parser = InputParser::new(String::from("   "));
    assert_eq!(parser.next(), None);

    let mut all = InputParser::new(String::from("one two"));
    assert_eq!(all.collect_tokens(), vec!["one", "two"]);
}

#[test]
fn parser_options_take_threads_and_properties() {
    let mut options = ParserOptions::default();
    assert_eq!(options.threads, 4);
    options.update_from_commandline(&Look {
        threads: Some(7),
        path: String::from("x"),
    });
    assert_eq!(options.threads, 7);
    let convert = Convert {
        threads: Some(2),
        output: None,
        language: None,
        path: String::from("x"),
    };
    convert.update_parser_options(&mut options);
    assert_eq!(options.threads, 2);
}

#[test]
fn generator_options_reject_contradictory_layers() {
    let mut options = GeneratorOptions::default();
    let both = Generate {
        flat: true,
        recursively: true,
        all: false,
        threads: None,
        path: None,
    };
    assert!(matches!(
        options.update_from_commandline(&both),
        Err(GeneratorOptionError::FlatAndRecursive)
    ));
    let recursive = Generate {
        flat: false,
        recursively: true,
        all: true,
        threads: None,
        path: None,
    };
    options.update_from_commandline(&recursive).unwrap();
    assert!(matches!(options.layer, GenerateLayer::Recursive));
    assert!(options.allow_hidden_files);
}

#[test]
fn options_read_the_configuration() {
    let config = Config {
        generate: Some(GenerateConfig {
            allow_hidden_files: Some(true),
            ignored_files: Some(vec![String::from("*.log")]),
            wispha_name: Some(String::from("TREE.wispha")),
        }),
        properties: None,
    };
    let mut generator = GeneratorOptions::default();
    generator.update_from_config(&config).unwrap();
    assert!(generator.allow_hidden_files);
    assert_eq!(generator.ignored_files, vec![String::from("*.log")]);
    assert_eq!(generator.wispha_name, "TREE.wispha");

    let mut stator = StatorOptions::default();
    stator.update_from_config(&config);
    assert!(stator.allow_hidden_files);
    stator.update_from_commandline(&State {
        git: true,
        threads: Some(9),
        path: String::from("x"),
    });
    assert!(stator.git);
    assert_eq!(stator.threads, 9);
    let mut parser_options = ParserOptions::default();
    stator.update_parser_options(&mut parser_options);
    assert_eq!(parser_options.threads, 9);
}

#[test]
fn serializer_options_know_their_languages() {
    let options = SerializerOptions::default();
    assert!(matches!(options.language, Language::JSON));
    assert!(matches!(Language::from("TOML"), Ok(Language::TOML)));
    assert!(Language::from("yaml").is_err());
    assert_eq!(Language::JSON.to_extension(), "json");
    assert_eq!(Language::TOML.to_extension(), "toml");
    let mut options = SerializerOptions::default();
    options
        .update_from_commandline(&Convert {
            threads: None,
            output: None,
            language: Some(String::from("TOML")),
            path: String::from("x"),
        })
        .unwrap();
    assert!(matches!(options.language, Language::TOML));
}

#[test]
fn ignore_patterns_decide_inclusion() {
    let ignore = get_ignored_files_from_root(
        &String::from("/base"),
        &vec![String::from("*.log"), String::from("target")],
    )
    .unwrap();
    let options = GeneratorOptions::default();
    let takes = |path: &str, is_dir: bool, name: &str, options: &GeneratorOptions| {
        should_include_entry(
            &ignore,
            &String::from(path),
            is_dir,
            &String::from(name),
            options,
        )
    };
    assert!(!takes("/base/a.log", false, "a.log", &options));
    assert!(!takes("/base/target", true, "target", &options));
    assert!(takes("/base/src", true, "src", &options));
    assert!(!takes("/base/.hidden", false, ".hidden", &options));
    let mut allowing = GeneratorOptions::default();
    allowing.allow_hidden_files = true;
    assert!(takes("/base/.hidden", false, ".hidden", &allowing));
}

#[test]
fn unrecorded_paths_are_reported_once_every_excuse_fails() {
    let ignore =
        get_ignored_files_from_root(&String::from("/base"), &vec![String::from("*.tmp")]).unwrap();
    let mut options = StatorOptions::default();
    options.git = true;
    let recorded = vec![String::from("/base/known")];
    let git_files = vec![String::from("/base/tracked")];
    let check = |path: &str, options: &StatorOptions| {
        is_path_unrecorded(&String::from(path), false, &ignore, &recorded, &git_files, options)
    };
    assert!(!check("/base/known", &options));
    assert!(!check("/base/tracked", &options));
    assert!(!check("/base/a.tmp", &options));
    assert!(!check("/base/.hidden", &options));
    assert!(check("/base/new", &options));
    let mut no_git = StatorOptions::default();
    no_git.git = false;
    assert!(check("/base/tracked", &no_git));
}

#[test]
fn wildcards_match_clusters_not_characters() {
    assert!(do_wild(&String::from("*.rs"), &String::from("main.rs")));
    assert!(!do_wild(&String::from("*.rs"), &String::from("dir/main.rs")));
    assert!(do_wild(&String::from("**/main.rs"), &String::from("dir/main.rs")));
    assert!(do_wild(&String::from("a?c"), &String::from("abc")));
    assert!(!do_wild(&String::from("a?c"), &String::from("a/c")));
    assert!(do_wild(&String::from("\\*"), &String::from("*")));
    assert!(!do_wild(&String::from("\\*"), &String::from("x")));
    // One `?` consumes one grapheme cluster, not one code point.
    assert!(do_wild(&String::from("?"), &String::from("e\u{301}")));
    assert!(!do_wild(&String::from("??"), &String::from("e\u{301}")));
}

//! Which part of the program an invocation runs.

use herdr_reviewr::launch::{launch, Launch};

fn args(words: &[&str]) -> Vec<String> {
    words.iter().map(|word| word.to_string()).collect()
}

#[test]
fn the_flag_for_the_configuration_decides_wherever_it_stands() {
    for words in [
        vec!["reviewr", "--resolve-plugin-config"],
        vec!["reviewr", "comment", "--resolve-plugin-config"],
        vec!["reviewr", "sidebar", "x", "--resolve-plugin-config", "y"],
    ] {
        assert!(matches!(launch(&args(&words)), Launch::PluginConfig), "{words:?}");
    }
    // The program's own name is no argument.
    assert!(matches!(launch(&args(&["--resolve-plugin-config"])), Launch::ReviewUi));
}

#[test]
fn a_command_gets_its_own_name_and_arguments() {
    for command in ["comment", "skill-install", "skill-path"] {
        let words = args(&["reviewr", command, "--flag", "value"]);
        match launch(&words) {
            Launch::Cli(rest) => assert_eq!(rest, args(&[command, "--flag", "value"])),
            other => panic!("{other:?}"),
        }
    }
}

#[test]
fn the_sidebar_gets_what_follows_its_name() {
    match launch(&args(&["reviewr", "sidebar", "a", "b"])) {
        Launch::Sidebar(rest) => assert_eq!(rest, args(&["a", "b"])),
        other => panic!("{other:?}"),
    }
    match launch(&args(&["reviewr", "sidebar"])) {
        Launch::Sidebar(rest) => assert!(rest.is_empty()),
        other => panic!("{other:?}"),
    }
}

#[test]
fn every_other_invocation_runs_the_review() {
    for words in [
        vec![],
        vec!["reviewr"],
        vec!["reviewr", "/path/to/repo"],
        vec!["reviewr", "Comment"],
        vec!["reviewr", "repo", "comment"],
        vec!["reviewr", "--resolve-plugin-config=1"],
    ] {
        assert!(matches!(launch(&args(&words)), Launch::ReviewUi), "{words:?}");
    }
}

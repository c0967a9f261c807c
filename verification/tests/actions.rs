use file_watcher::actions::{compile_actions, Action, ActionError, CommandAction};
use file_watcher::chain::ChainState;
use file_watcher::command::Step;
use file_watcher::config::{CommandConfig, Config};

fn config(regex: &str, exclude: Option<Vec<&str>>, cmd: Option<&str>, chain: Option<Vec<&str>>) -> CommandConfig {
    CommandConfig {
        regex: regex.to_owned(),
        exclude: exclude.map(|v| v.into_iter().map(str::to_owned).collect()),
        cmd: cmd.map(str::to_owned),
        chain: chain.map(|v| v.into_iter().map(str::to_owned).collect()),
    }
}

fn action(regex: &str, exclude: Option<Vec<&str>>, cmd: Option<&str>, chain: Option<Vec<&str>>) -> CommandAction {
    match CommandAction::new(config(regex, exclude, cmd, chain)) {
        Ok(a) => a,
        Err(_) => panic!("the action is expected to compile"),
    }
}

fn steps_of(a: &CommandAction) -> Vec<(String, Vec<String>)> {
    let mut out = Vec::new();
    let mut i = 0;
    while let Some(step) = a.step(i) {
        out.push((step.program.clone(), step.args.clone()));
        i += 1;
    }
    assert_eq!(i, a.step_count());
    out
}

#[test]
fn include_pattern_decides_without_exclude() {
    let a = action(r"\.rs$", None, Some("true"), None);
    assert!(a.matches("src/main.rs"));
    assert!(a.matches("/abs/dir/lib.rs"));
    assert!(!a.matches("src/main.rc"));
    assert!(!a.matches("main.rs.bak"));
    assert!(!a.matches(""));
}

#[test]
fn exclude_pattern_wins_over_include() {
    let a = action(r"\.rs$", Some(vec!["^target/", "generated"]), Some("true"), None);
    assert!(a.matches("src/main.rs"));
    assert!(!a.matches("target/debug/build.rs"));
    assert!(!a.matches("src/generated/x.rs"));
    assert!(!a.matches("target/readme.md"));
}

#[test]
fn empty_exclude_list_excludes_nothing() {
    let a = action("a$", Some(vec![]), Some("true"), None);
    assert!(a.matches("dir/a"));
    assert!(!a.matches("dir/b"));
}

#[test]
fn include_pattern_is_unanchored() {
    let a = action("sub", None, None, None);
    assert!(a.matches("dir/sub/name.ext"));
    assert!(a.matches("subway"));
    assert!(!a.matches("dir/name.ext"));
}

#[test]
fn single_command_is_split_like_a_shell_line() {
    let a = action("a$", None, Some("sh -c 'cat {file_dir}/{file} >> out' \"two words\" plain\\ text"), None);
    assert_eq!(
        steps_of(&a),
        vec![(
            "sh".to_owned(),
            vec![
                "-c".to_owned(),
                "cat {file_dir}/{file} >> out".to_owned(),
                "two words".to_owned(),
                "plain text".to_owned()
            ]
        )]
    );
}

#[test]
fn chain_keeps_declared_order() {
    let a = action("a$", None, None, Some(vec!["first 1", "second", "third a b"]));
    assert_eq!(
        steps_of(&a),
        vec![
            ("first".to_owned(), vec!["1".to_owned()]),
            ("second".to_owned(), vec![]),
            ("third".to_owned(), vec!["a".to_owned(), "b".to_owned()]),
        ]
    );
}

#[test]
fn single_command_takes_the_place_of_a_chain() {
    let a = action("a$", None, Some("only"), Some(vec!["first", "second"]));
    assert_eq!(steps_of(&a), vec![("only".to_owned(), vec![])]);
}

#[test]
fn action_without_commands_has_no_steps() {
    let a = action("a$", None, None, None);
    assert_eq!(a.step_count(), 0);
    assert!(a.step(0).is_none());
    assert!(a.matches("a"));
    assert_eq!(a.begin(), ChainState::Succeeded);
    let b = action("a$", None, None, Some(vec![]));
    assert_eq!(b.step_count(), 0);
}

#[test]
fn invalid_include_pattern_is_refused() {
    match CommandAction::new(config("(unclosed", None, Some("true"), None)) {
        Err(ActionError::InvalidInclude { message }) => assert!(!message.is_empty()),
        _ => panic!("the include pattern is expected to be refused"),
    }
}

#[test]
fn invalid_exclude_pattern_is_refused() {
    match CommandAction::new(config("a$", Some(vec!["ok", "[z-a]"]), Some("true"), None)) {
        Err(ActionError::InvalidExclude { message }) => assert!(!message.is_empty()),
        _ => panic!("the exclude pattern is expected to be refused"),
    }
}

#[test]
fn include_pattern_is_looked_at_before_the_rest() {
    match CommandAction::new(config("(", Some(vec!["["]), Some(""), None)) {
        Err(ActionError::InvalidInclude { .. }) => {},
        _ => panic!("the include pattern is expected to be refused first"),
    }
    match CommandAction::new(config("a", Some(vec!["["]), Some(""), None)) {
        Err(ActionError::InvalidExclude { .. }) => {},
        _ => panic!("the exclude pattern is expected to be refused before the command"),
    }
}

#[test]
fn command_line_without_program_is_refused() {
    match CommandAction::new(config("a$", None, Some("   "), None)) {
        Err(ActionError::EmptyCommand { index }) => assert_eq!(index, 0),
        _ => panic!("the empty command is expected to be refused"),
    }
    match CommandAction::new(config("a$", None, None, Some(vec!["ok 1", "ok 2", "", "ok 3", ""]))) {
        Err(ActionError::EmptyCommand { index }) => assert_eq!(index, 2),
        _ => panic!("the empty command is expected to be refused"),
    }
    match CommandAction::new(config("a$", None, None, Some(vec!["ok", "# only a comment"]))) {
        Err(ActionError::EmptyCommand { index }) => assert_eq!(index, 1),
        _ => panic!("the comment line is expected to be refused"),
    }
}

#[test]
fn unfinished_quote_ends_the_words() {
    // The words before the unfinished one are kept.
    let a = action("a$", None, Some("echo 'never closed"), None);
    assert_eq!(steps_of(&a), vec![("echo".to_owned(), vec![])]);
    // Nothing is left where the first word is the unfinished one.
    match CommandAction::new(config("a$", None, Some("'never closed"), None)) {
        Err(ActionError::EmptyCommand { index }) => assert_eq!(index, 0),
        _ => panic!("the unfinished command is expected to be refused"),
    }
}

#[test]
fn compile_keeps_the_configuration() {
    let c = config("a$", None, Some("echo {file}"), None);
    let a = match CommandAction::compile(&c) {
        Ok(a) => a,
        Err(_) => panic!("the action is expected to compile"),
    };
    assert_eq!(steps_of(&a), vec![("echo".to_owned(), vec!["{file}".to_owned()])]);
    assert_eq!(c.regex, "a$");
}

#[test]
fn step_from_words_takes_first_word_as_program() {
    let step = Step::from_words(vec!["prog".to_owned(), "a".to_owned(), "b".to_owned()]).unwrap();
    assert_eq!(step.program, "prog");
    assert_eq!(step.args, vec!["a", "b"]);
    let alone = Step::from_words(vec!["prog".to_owned()]).unwrap();
    assert_eq!(alone.program, "prog");
    assert!(alone.args.is_empty());
    assert!(Step::from_words(Vec::new()).is_none());
}

#[test]
fn step_parse_honours_quoting() {
    let step = Step::parse("sh -c 'echo 1 >> tests/files/test_chain/out'").unwrap();
    assert_eq!(step.program, "sh");
    assert_eq!(step.args, vec!["-c", "echo 1 >> tests/files/test_chain/out"]);
    assert!(Step::parse("").is_none());
    assert!(Step::parse(" \t\n").is_none());
}

#[test]
fn compile_actions_takes_all_or_none() {
    let good = Config {
        paths: None,
        commands: vec![
            config("a$", None, Some("one"), None),
            config("b$", Some(vec!["x"]), None, Some(vec!["two", "three"])),
        ],
    };
    let actions = match compile_actions(&good) {
        Ok(actions) => actions,
        Err(_) => panic!("the configuration is expected to compile"),
    };
    assert_eq!(actions.len(), 2);
    assert_eq!(actions[0].step_count(), 1);
    assert_eq!(actions[1].step_count(), 2);
    assert!(actions[0].matches("a"));
    assert!(actions[1].matches("b"));
    assert!(!actions[1].matches("xb"));

    let bad = Config {
        paths: None,
        commands: vec![
            config("a$", None, Some("one"), None),
            config("b$", None, None, Some(vec!["two", ""])),
            config("(", None, Some("three"), None),
        ],
    };
    match compile_actions(&bad) {
        Err(e) => {
            assert_eq!(e.action, 1);
            match e.reason {
                ActionError::EmptyCommand { index } => assert_eq!(index, 1),
                _ => panic!("the empty command is expected as the reason"),
            }
        },
        Ok(_) => panic!("the configuration is expected to be refused"),
    }

    let empty = Config { paths: None, commands: vec![] };
    match compile_actions(&empty) {
        Ok(actions) => assert!(actions.is_empty()),
        Err(_) => panic!("the empty configuration is expected to compile"),
    }
}

#[test]
fn watch_roots_default_to_current_directory() {
    let none = Config { paths: None, commands: vec![] };
    assert_eq!(none.watch_roots(), vec!["."]);
    let some = Config { paths: Some(vec!["src".to_owned(), "docs".to_owned()]), commands: vec![] };
    assert_eq!(some.watch_roots(), vec!["src", "docs"]);
    let empty = Config { paths: Some(vec![]), commands: vec![] };
    assert!(empty.watch_roots().is_empty());
}

#[test]
fn command_lines_prefer_cmd_over_chain() {
    assert_eq!(config("a", None, Some("x"), None).command_lines(), vec!["x"]);
    assert_eq!(config("a", None, None, Some(vec!["x", "y"])).command_lines(), vec!["x", "y"]);
    assert_eq!(config("a", None, Some("x"), Some(vec!["y"])).command_lines(), vec!["x"]);
    assert!(config("a", None, None, None).command_lines().is_empty());
}

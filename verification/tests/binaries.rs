use ssh_guard::binaries::{binary_errors, validation_result, BinaryState};
use ssh_guard::config::action::Action;
use ssh_guard::config::duration::Duration;
use ssh_guard::config::rule::Rule;
use ssh_guard::config::Config;
use ssh_guard::errors::GuardError;

fn rule(action: Action, implicit_symlinks: bool) -> Rule {
    Rule {
        action,
        command: Some("x".into()),
        implicit_symlinks,
        arg_style: Default::default(),
        flag_groups: vec![],
        flags: vec![],
        args: vec![],
        pre_args: vec![],
        subcommands: vec![],
    }
}

fn run(binary: &str) -> Action {
    Action::Run { binary: binary.into(), args: vec![], timeout: Duration::default() }
}

#[test]
fn each_binary_problem_is_reported_in_rule_order() {
    let config = Config {
        rules: vec![
            rule(run("/bin/missing"), true),
            rule(run("/bin/link"), false),
            rule(Action::ShowHelp, false),
            rule(run("/bin/ok"), false),
            rule(run("/bin/u"), false),
            rule(run("/bin/link2"), true),
            rule(run("/bin/dangling"), false),
        ],
        ..Default::default()
    };
    let states = vec![
        BinaryState::Missing,
        BinaryState::Symlink { resolved: Some("/real/link".into()) },
        BinaryState::Missing,
        BinaryState::Plain,
        BinaryState::Unreadable { error: "denied".into() },
        BinaryState::Symlink { resolved: Some("/real/link2".into()) },
        BinaryState::Symlink { resolved: None },
    ];
    let errors = binary_errors(&config, &states);
    assert_eq!(
        errors,
        vec![
            "rule[0]: binary '/bin/missing' does not exist".to_string(),
            "rule[1]: binary '/bin/link' is a symlink \u{2192} '/real/link' (implicit_symlinks disabled). Set implicit_symlinks=true or use the real path.".to_string(),
            "rule[4]: cannot stat binary '/bin/u': denied".to_string(),
            "rule[6]: binary '/bin/dangling' is a symlink and cannot be resolved (implicit_symlinks disabled)".to_string(),
        ]
    );
}

#[test]
fn rules_without_a_state_count_as_plain_files() {
    let config = Config { rules: vec![rule(run("/bin/a"), false), rule(run("/bin/b"), false)], ..Default::default() };
    let errors = binary_errors(&config, &[BinaryState::Missing]);
    assert_eq!(errors, vec!["rule[0]: binary '/bin/a' does not exist".to_string()]);
}

#[test]
fn validation_outcome() {
    assert!(validation_result(&[]).is_ok());
    match validation_result(&["a".to_string(), "b".to_string()]) {
        Err(GuardError::Validation(m)) => assert_eq!(m, "2 validation error(s): a; b"),
        other => panic!("expected a validation error, got {other:?}"),
    }
}

use ssh_guard::errors::{GuardError, MatchFailure};

#[test]
fn each_error_reads_as_its_message() {
    assert_eq!(GuardError::Config("x".into()).to_display_string(), "config error: x");
    assert_eq!(GuardError::NoCommand.to_display_string(), "no SSH_ORIGINAL_COMMAND set");
    assert_eq!(GuardError::ParseCommand("a'".into()).to_display_string(), "invalid command: a'");
    assert_eq!(
        GuardError::NoMatch { command: "c".into(), failures: vec![] }.to_display_string(),
        "no matching rule"
    );
    assert_eq!(GuardError::Constraint("c".into()).to_display_string(), "constraint violation: c");
    assert_eq!(GuardError::PathNotAllowed("p".into()).to_display_string(), "path not allowed: p");
    assert_eq!(GuardError::Action("a".into()).to_display_string(), "action failed: a");
    assert_eq!(GuardError::Validation("v".into()).to_display_string(), "validation error: v");
    assert_eq!(GuardError::Io("e".into()).to_display_string(), "IO error: e");
    assert_eq!(GuardError::Toml("t".into()).to_display_string(), "TOML error: t");
}

#[test]
fn failure_lines() {
    let f = MatchFailure {
        rule_index: 2,
        subcommand_path: vec!["remote".into(), "add".into()],
        at_token: 3,
        token: "--x".into(),
        reason: "nope".into(),
    };
    assert_eq!(f.to_display_string(), "rule[2] (via remote add): token 3 '--x' \u{2014} nope");
    let g = MatchFailure {
        rule_index: 0,
        subcommand_path: vec![],
        at_token: 0,
        token: "".into(),
        reason: "empty command".into(),
    };
    assert_eq!(g.to_display_string(), "rule[0]: token 0 '' \u{2014} empty command");
}

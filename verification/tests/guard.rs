use ssh_guard::actions::ActionPlan;
use ssh_guard::config::action::Action;
use ssh_guard::config::duration::Duration;
use ssh_guard::config::rule::Rule;
use ssh_guard::config::subcommand::Subcommand;
use ssh_guard::config::Config;
use ssh_guard::errors::GuardError;
use ssh_guard::guard::{decide, help_event, start_command, words_or_parse_error, CommandStart};

fn git_config() -> Config {
    Config {
        rules: vec![
            Rule {
                action: Action::Run {
                    binary: "/usr/bin/git".into(),
                    args: vec!["--no-pager".into()],
                    timeout: Duration { millis: 7000 },
                },
                command: Some("git".into()),
                implicit_symlinks: false,
                arg_style: Default::default(),
                flag_groups: vec![],
                flags: vec![],
                args: vec![],
                pre_args: vec![],
                subcommands: vec![Subcommand {
                    name: "status".into(),
                    arg_style: None,
                    flag_groups: vec![],
                    flags: vec![],
                    args: vec!["{string}".into()],
                    pre_args: vec![],
                    subcommands: vec![],
                }],
            },
            Rule {
                action: Action::ShowHelp,
                command: Some("help".into()),
                implicit_symlinks: true,
                arg_style: Default::default(),
                flag_groups: vec![],
                flags: vec![],
                args: vec![],
                pre_args: vec![],
                subcommands: vec![],
            },
        ],
        ..Default::default()
    }
}

fn words(ws: &[&str]) -> Vec<String> {
    ws.iter().map(|s| s.to_string()).collect()
}

#[test]
fn blank_command_shows_help() {
    assert!(matches!(start_command(""), Ok(CommandStart::ShowHelp)));
    assert!(matches!(start_command("  \t "), Ok(CommandStart::ShowHelp)));
}

#[test]
fn command_is_split_as_a_shell_would() {
    match start_command("git log 'a b'") {
        Ok(CommandStart::Words(w)) => assert_eq!(w, vec!["git", "log", "a b"]),
        other => panic!("expected words, got {other:?}"),
    }
}

#[test]
fn unbalanced_quote_is_a_parse_error_naming_the_command() {
    match start_command("echo \"hello") {
        Err(GuardError::ParseCommand(c)) => assert_eq!(c, "echo \"hello"),
        other => panic!("expected a parse error, got {other:?}"),
    }
}

#[test]
fn words_or_parse_error_maps_each_outcome() {
    assert!(matches!(words_or_parse_error("x y", None), Err(GuardError::ParseCommand(c)) if c == "x y"));
    assert_eq!(words_or_parse_error("x", Some(words(&["x"]))).unwrap(), vec!["x"]);
}

#[test]
fn help_event_records_the_help() {
    let e = help_event("bob");
    assert_eq!(e.user, "bob");
    assert_eq!(e.command, "(empty - help shown)");
    assert_eq!(e.result, "allowed");
    assert_eq!(e.detail.as_deref(), Some("show_help"));
    assert!(e.failures.is_none());
    assert_eq!(e.timestamp.len(), 20);
}

#[test]
fn allowed_command_is_recorded_and_planned() {
    let cfg = git_config();
    let argv = words(&["git", "status", "foo"]);
    let v = decide(&cfg, "bob", "git status foo", &argv, &[]);
    assert_eq!(v.event.result, "allowed");
    assert_eq!(v.event.user, "bob");
    assert_eq!(v.event.command, "git status foo");
    assert_eq!(v.event.detail.as_deref(), Some("rule[0] via status"));
    assert!(v.event.failures.is_none());
    let m = v.matched.unwrap();
    assert_eq!(m.rule_index, 0);
    assert_eq!(m.subcommand_path, vec!["status"]);
    match v.outcome {
        Ok(ActionPlan::Run { binary, argv, implicit_symlinks, timeout_ms }) => {
            assert_eq!(binary, "/usr/bin/git");
            assert_eq!(argv, vec!["--no-pager", "status", "foo"]);
            assert!(!implicit_symlinks);
            assert_eq!(timeout_ms, 7000);
        }
        other => panic!("expected a run plan, got {other:?}"),
    }
}

#[test]
fn help_rule_is_planned_with_the_help_text() {
    let mut cfg = git_config();
    cfg.global.help_text = "usage".into();
    let v = decide(&cfg, "bob", "help", &words(&["help"]), &[]);
    assert_eq!(v.event.detail.as_deref(), Some("rule[1] via "));
    assert!(matches!(v.outcome, Ok(ActionPlan::ShowHelp { text }) if text == "usage"));
}

#[test]
fn unmatched_command_is_denied_with_every_failure() {
    let cfg = git_config();
    let argv = words(&["rm", "-rf"]);
    let v = decide(&cfg, "eve", "rm  -rf", &argv, &[]);
    assert_eq!(v.event.result, "denied");
    assert_eq!(v.event.detail.as_deref(), Some("no matching rule"));
    assert!(v.matched.is_none());
    match v.outcome {
        Err(GuardError::NoMatch { command, failures }) => {
            assert_eq!(command, "rm  -rf");
            assert_eq!(failures.len(), 2);
            let texts = v.event.failures.unwrap();
            assert_eq!(texts.len(), 2);
            assert_eq!(texts[0], failures[0].to_display_string());
            assert_eq!(texts[0], "rule[0]: token 0 'rm' \u{2014} expected 'git'");
        }
        other => panic!("expected NoMatch, got {other:?}"),
    }
}

#[test]
fn same_file_lets_another_name_of_the_binary_match() {
    let cfg = git_config();
    let argv = words(&["/opt/bin/git-link", "status", "x"]);
    let denied = decide(&cfg, "bob", "/opt/bin/git-link status x", &argv, &[]);
    assert!(denied.matched.is_none());
    let allowed = decide(&cfg, "bob", "/opt/bin/git-link status x", &argv, &[true, false]);
    assert_eq!(allowed.matched.unwrap().rule_index, 0);
}

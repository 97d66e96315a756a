use ssh_guard::config::action::Action;
use ssh_guard::config::duration::Duration;
use ssh_guard::config::rule::Rule;
use ssh_guard::config::subcommand::Subcommand;
use ssh_guard::config::Config;
use ssh_guard::errors::GuardError;
use ssh_guard::merge::{merge_rule, rule_words, split_rule_command};

fn journalctl(flags: &[&str], subcommands: Vec<Subcommand>) -> Rule {
    Rule {
        action: Action::Run {
            binary: "/run/current-system/sw/bin/journalctl".into(),
            args: vec![],
            timeout: Duration::default(),
        },
        command: None,
        implicit_symlinks: true,
        arg_style: Default::default(),
        flag_groups: vec![],
        flags: flags.iter().map(|s| s.to_string()).collect(),
        args: vec![],
        pre_args: vec![],
        subcommands,
    }
}

fn status_sub(flags: &[&str]) -> Subcommand {
    Subcommand {
        name: "status".into(),
        arg_style: None,
        flag_groups: vec![],
        flags: flags.iter().map(|s| s.to_string()).collect(),
        args: vec![],
        pre_args: vec![],
        subcommands: vec![],
    }
}

fn add(config: &mut Config, cmd: &str) {
    let words = split_rule_command(cmd).unwrap();
    merge_rule(config, &words, None).unwrap();
}

#[test]
fn common_flags_of_three_rules_become_a_sorted_group() {
    let mut config = Config {
        rules: vec![
            journalctl(&["--since", "--no-pager", "-a"], vec![]),
            journalctl(&["--no-pager"], vec![status_sub(&["--since", "--full"])]),
            journalctl(&["--no-pager", "--since", "-n"], vec![]),
        ],
        ..Default::default()
    };
    add(&mut config, "journalctl --no-pager");
    assert_eq!(
        config.flag_groups.get("journalctl-common-flags"),
        Some(&vec!["--no-pager".to_string(), "--since".to_string()])
    );
    assert_eq!(config.rules.len(), 3);
    assert_eq!(config.rules[0].flags, vec!["-a"]);
    assert!(config.rules[1].flags.is_empty());
    assert_eq!(config.rules[1].subcommands[0].flags, vec!["--full"]);
    assert_eq!(config.rules[1].subcommands[0].flag_groups, vec!["journalctl-common-flags"]);
    assert_eq!(config.rules[2].flags, vec!["-n"]);
}

#[test]
fn two_rules_make_no_group() {
    let mut config = Config {
        rules: vec![
            journalctl(&["--since", "--no-pager"], vec![]),
            journalctl(&["--no-pager", "--since"], vec![]),
        ],
        ..Default::default()
    };
    add(&mut config, "journalctl --no-pager");
    assert!(config.flag_groups.is_empty());
    assert_eq!(config.rules[0].flags, vec!["--since", "--no-pager"]);
}

#[test]
fn one_common_flag_makes_no_group() {
    let mut config = Config {
        rules: vec![
            journalctl(&["--no-pager", "-a"], vec![]),
            journalctl(&["--no-pager", "-b"], vec![]),
            journalctl(&["--no-pager", "-c"], vec![]),
        ],
        ..Default::default()
    };
    add(&mut config, "journalctl --no-pager");
    assert!(config.flag_groups.is_empty());
    assert_eq!(config.rules[1].flags, vec!["--no-pager", "-b"]);
}

#[test]
fn an_existing_group_of_that_name_is_left_alone() {
    let mut config = Config {
        rules: vec![
            journalctl(&["--since", "--no-pager"], vec![]),
            journalctl(&["--no-pager", "--since"], vec![]),
            journalctl(&["--no-pager", "--since"], vec![]),
        ],
        ..Default::default()
    };
    config.flag_groups.insert("journalctl-common-flags".into(), vec!["--x".into()]);
    add(&mut config, "journalctl --no-pager");
    assert_eq!(config.flag_groups.get("journalctl-common-flags"), Some(&vec!["--x".to_string()]));
    assert_eq!(config.rules[2].flags, vec!["--no-pager", "--since"]);
}

#[test]
fn merging_the_same_example_twice_changes_nothing() {
    let mut config = Config::default();
    add(&mut config, "systemctl -q status sshd --full -n 5 --user");
    let flags = config.rules[0].flags.clone();
    let sub_flags = config.rules[0].subcommands[0].flags.clone();
    let sub_args = config.rules[0].subcommands[0].args.clone();
    add(&mut config, "systemctl -q status sshd --full -n 5 --user");
    assert_eq!(config.rules.len(), 1);
    assert_eq!(config.rules[0].flags, flags);
    assert_eq!(config.rules[0].subcommands.len(), 1);
    assert_eq!(config.rules[0].subcommands[0].flags, sub_flags);
    assert_eq!(config.rules[0].subcommands[0].args, sub_args);
    assert_eq!(flags, vec!["-q"]);
    assert_eq!(config.rules[0].subcommands[0].name, "sshd");
    assert_eq!(sub_flags, vec!["--full", "-n", "--user"]);
    assert!(sub_args.is_empty());
}

#[test]
fn a_new_rule_runs_the_system_binary() {
    let mut config = Config::default();
    add(&mut config, "uptime");
    match &config.rules[0].action {
        Action::Run { binary, args, timeout } => {
            assert_eq!(binary, "/run/current-system/sw/bin/uptime");
            assert!(args.is_empty());
            assert_eq!(timeout.millis, 5000);
        }
        other => panic!("expected a run action, got {other:?}"),
    }
    assert!(config.rules[0].implicit_symlinks);
    assert!(config.rules[0].command.is_none());
}

#[test]
fn a_rule_for_the_bare_binary_name_is_found() {
    let mut config = Config::default();
    config.rules.push(Rule {
        action: Action::Run { binary: "tool".into(), args: vec![], timeout: Duration::default() },
        command: None,
        implicit_symlinks: true,
        arg_style: Default::default(),
        flag_groups: vec![],
        flags: vec![],
        args: vec![],
        pre_args: vec![],
        subcommands: vec![],
    });
    add(&mut config, "tool --x");
    assert_eq!(config.rules.len(), 1);
    assert_eq!(config.rules[0].flags, vec!["--x"]);
}

#[test]
fn rule_words_errors() {
    assert!(matches!(rule_words(None), Err(GuardError::Config(m)) if m == "failed to parse command"));
    assert!(matches!(rule_words(Some(vec![])), Err(GuardError::Config(m)) if m == "empty command"));
    assert_eq!(rule_words(Some(vec!["a".to_string()])).unwrap(), vec!["a"]);
}

#[test]
fn example_text_is_split_with_quotes() {
    let w = split_rule_command("git commit -m 'a message'").unwrap();
    assert_eq!(w, vec!["git", "commit", "-m", "a message"]);
}

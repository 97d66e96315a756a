use ssh_guard::config::action::Action;
use ssh_guard::config::duration::Duration;
use ssh_guard::config::profile::Profile;
use ssh_guard::config::rule::Rule;
use ssh_guard::config::subcommand::Subcommand;
use ssh_guard::config::Config;
use ssh_guard::errors::GuardError;
use ssh_guard::merge::{merge_rule, split_rule_command};

/// Adds the example command `cmd` to `config` (to `profile` when given).
fn add_rule(config: &mut Config, cmd: &str, profile: Option<&str>) -> Result<(), GuardError> {
    let words = split_rule_command(cmd)?;
    merge_rule(config, &words, profile)
}

fn help_rule() -> Rule {
    Rule {
        action: Action::ShowHelp,
        command: None,
        implicit_symlinks: true,
        arg_style: Default::default(),
        flag_groups: vec![],
        flags: vec![],
        args: vec![],
        pre_args: vec![],
        subcommands: vec![],
    }
}

fn run_rule(binary: &str, flags: Vec<&str>, subcommands: Vec<Subcommand>) -> Rule {
    Rule {
        action: Action::Run {
            binary: binary.into(),
            args: vec![],
            timeout: Duration::default(),
        },
        command: None,
        implicit_symlinks: true,
        arg_style: Default::default(),
        flag_groups: vec![],
        flags: flags.into_iter().map(String::from).collect(),
        args: vec![],
        pre_args: vec![],
        subcommands,
    }
}

fn sub(name: &str, args: Vec<&str>) -> Subcommand {
    Subcommand {
        name: name.into(),
        arg_style: None,
        flag_groups: vec![],
        flags: vec![],
        args: args.into_iter().map(String::from).collect(),
        pre_args: vec![],
        subcommands: vec![],
    }
}

fn admin_profile(rules: Option<Vec<Rule>>) -> Profile {
    Profile {
        users: vec!["admin_user".into()],
        rules,
        ..Default::default()
    }
}

fn minimal_config() -> Config {
    Config {
        rules: vec![help_rule()],
        ..Default::default()
    }
}

fn find_rule<'a>(rules: &'a [Rule], name: &str) -> Option<&'a Rule> {
    rules.iter().find(|r| {
        matches!(&r.action, Action::Run { binary, .. } if binary.ends_with(&format!("/{name}")) || binary == name)
    })
}

#[test]
fn test_add_first_rule() {
    let mut config = minimal_config();
    add_rule(&mut config, "journalctl --no-pager -n 10", None).unwrap();

    let rule = find_rule(&config.rules, "journalctl").unwrap();

    assert_eq!(rule.flags, vec!["--no-pager", "-n"]);
    assert!(rule.subcommands.is_empty());
    assert!(rule.args.is_empty());
}

#[test]
fn test_add_rule_with_subcommand() {
    let mut config = minimal_config();
    add_rule(&mut config, "systemctl status angrr", None).unwrap();

    let rule = find_rule(&config.rules, "systemctl").unwrap();

    assert_eq!(rule.subcommands.len(), 1);
    assert_eq!(rule.subcommands[0].name, "status");
    assert_eq!(rule.subcommands[0].args, vec!["angrr"]);
    assert!(rule.subcommands[0].flags.is_empty());
}

#[test]
fn test_add_to_existing_rule_dedup_flags() {
    let mut config = Config {
        rules: vec![run_rule(
            "/run/current-system/sw/bin/systemctl",
            vec!["--no-pager"],
            vec![],
        )],
        ..Default::default()
    };
    add_rule(&mut config, "systemctl --no-pager --full -n 10 status sshd", None).unwrap();

    let rule = find_rule(&config.rules, "systemctl").unwrap();

    assert_eq!(rule.flags, vec!["--no-pager", "--full", "-n"]);
    assert_eq!(rule.subcommands.len(), 1);
    assert_eq!(rule.subcommands[0].name, "status");
    assert_eq!(rule.subcommands[0].args, vec!["sshd"]);
}

#[test]
fn test_add_new_subcommand_to_existing_rule() {
    let mut config = Config {
        rules: vec![run_rule(
            "/run/current-system/sw/bin/systemctl",
            vec![],
            vec![sub("status", vec!["sshd"])],
        )],
        ..Default::default()
    };
    add_rule(&mut config, "systemctl show sshd", None).unwrap();

    let rule = find_rule(&config.rules, "systemctl").unwrap();

    assert_eq!(rule.subcommands.len(), 2);
    assert_eq!(rule.subcommands[0].name, "status");
    assert_eq!(rule.subcommands[0].args, vec!["sshd"]);
    assert_eq!(rule.subcommands[1].name, "show");
    assert_eq!(rule.subcommands[1].args, vec!["sshd"]);
}

#[test]
fn test_add_rule_no_subcommands_only_flags() {
    let mut config = minimal_config();
    add_rule(&mut config, "journalctl --since yesterday --no-pager", None).unwrap();

    let rule = find_rule(&config.rules, "journalctl").unwrap();

    assert!(rule.flags.contains(&"--since".to_string()));
    assert!(rule.flags.contains(&"--no-pager".to_string()));
    assert!(rule.subcommands.is_empty());
    assert!(rule.args.is_empty());
}

#[test]
fn test_merge_flags_dedup_same_flag_twice() {
    let mut config = minimal_config();
    add_rule(&mut config, "cmd --verbose --verbose", None).unwrap();

    let rule = find_rule(&config.rules, "cmd").unwrap();

    assert_eq!(rule.flags, vec!["--verbose"]);
}

#[test]
fn test_merge_args_dedup() {
    let mut config = Config {
        rules: vec![run_rule(
            "/run/current-system/sw/bin/systemctl",
            vec![],
            vec![sub("status", vec!["sshd.service"])],
        )],
        ..Default::default()
    };
    add_rule(&mut config, "systemctl status sshd.service", None).unwrap();

    let rule = find_rule(&config.rules, "systemctl").unwrap();

    assert_eq!(rule.subcommands.len(), 1);
    assert_eq!(rule.subcommands[0].args, vec!["sshd.service"]);
}

#[test]
fn test_flag_with_value_consumed() {
    let mut config = minimal_config();
    add_rule(&mut config, "journalctl -n 10", None).unwrap();

    let rule = find_rule(&config.rules, "journalctl").unwrap();

    assert_eq!(rule.flags, vec!["-n"]);
    assert!(rule.subcommands.is_empty());
    assert!(rule.args.is_empty());
}

#[test]
fn test_flag_value_followed_by_subcommand() {
    let mut config = minimal_config();
    add_rule(&mut config, "cmd --flag value status", None).unwrap();

    let rule = find_rule(&config.rules, "cmd").unwrap();

    assert_eq!(rule.flags, vec!["--flag"]);
    assert_eq!(rule.subcommands.len(), 1);
    assert_eq!(rule.subcommands[0].name, "status");
    assert!(rule.subcommands[0].flags.is_empty());
    assert!(rule.subcommands[0].args.is_empty());
}

#[test]
fn test_add_rule_empty_command() {
    let mut config = minimal_config();
    let err = add_rule(&mut config, "", None).unwrap_err();
    assert!(
        matches!(err, GuardError::Config(_)),
        "expected Config error, got {err:?}"
    );
}

#[test]
fn test_add_rule_invalid_shlex() {
    let mut config = minimal_config();
    let err = add_rule(&mut config, "echo \"hello", None).unwrap_err();
    assert!(
        matches!(err, GuardError::Config(_)),
        "expected Config error, got {err:?}"
    );
}

#[test]
fn test_add_rule_command_only_no_params() {
    let mut config = minimal_config();
    add_rule(&mut config, "git", None).unwrap();

    let rule = find_rule(&config.rules, "git").unwrap();

    assert!(rule.flags.is_empty());
    assert!(rule.subcommands.is_empty());
    assert!(rule.args.is_empty());
}

#[test]
fn test_walk_and_merge_flag_after_subcommand() {
    let mut config = minimal_config();
    add_rule(&mut config, "systemctl status --full sshd --another-flag", None).unwrap();

    let rule = find_rule(&config.rules, "systemctl").unwrap();

    assert_eq!(rule.subcommands.len(), 1);
    assert_eq!(rule.subcommands[0].name, "status");
    assert!(rule.subcommands[0].flags.contains(&"--full".to_string()));
    assert!(
        rule.subcommands[0]
            .flags
            .contains(&"--another-flag".to_string())
    );
    assert!(rule.subcommands[0].args.is_empty());
}

#[test]
fn test_add_rule_to_profile() {
    let mut config = minimal_config();
    config.profiles.insert("admin".into(), admin_profile(None));
    add_rule(&mut config, "journalctl -n 10", Some("admin")).unwrap();

    let profile = config.profiles.get("admin").unwrap();
    let rules = profile.rules.as_ref().unwrap();
    assert_eq!(rules.len(), 1);
    let rule = find_rule(rules, "journalctl").unwrap();
    assert_eq!(rule.flags, vec!["-n"]);
    // base unchanged
    assert_eq!(config.rules.len(), 1);
}

#[test]
fn test_add_rule_to_nonexistent_profile() {
    let mut config = minimal_config();
    let err = add_rule(&mut config, "journalctl -n 10", Some("nonexistent")).unwrap_err();
    let msg = err.to_display_string();
    assert!(
        msg.contains("does not exist"),
        "expected 'does not exist', got: {err:?}"
    );
}

#[test]
fn test_add_rule_to_profile_auto_flag_group() {
    let mut config = minimal_config();
    config.profiles.insert(
        "admin".into(),
        admin_profile(Some(vec![
            run_rule("/run/current-system/sw/bin/journalctl", vec!["--no-pager", "--since"], vec![]),
            run_rule(
                "/run/current-system/sw/bin/journalctl",
                vec!["--no-pager", "--since", "-n"],
                vec![],
            ),
            run_rule(
                "/run/current-system/sw/bin/journalctl",
                vec!["--no-pager", "--since", "--full"],
                vec![],
            ),
        ])),
    );
    add_rule(
        &mut config,
        "journalctl --since yesterday --no-pager",
        Some("admin"),
    )
    .unwrap();

    // Group should be in profile-local flag_groups, NOT top-level
    let profile = config.profiles.get("admin").unwrap();
    let profile_fg = profile.flag_groups.as_ref().unwrap();
    let group = profile_fg.get("journalctl-common-flags");
    assert!(
        group.is_some(),
        "expected flag group in profile-local flag_groups"
    );
    // Top-level flag_groups stays empty
    assert!(
        config.flag_groups.is_empty(),
        "top-level flag_groups should be empty"
    );
    // Base rules unchanged
    assert_eq!(config.rules.len(), 1);
}

#[test]
fn merge_flags_keeps_each_flag_once_and_stops_at_first_plain_token() {
    let mut config = minimal_config();
    add_rule(&mut config, "cmd -a v1 -b v2 -a v3 status", None).unwrap();

    let rule = find_rule(&config.rules, "cmd").unwrap();

    assert_eq!(rule.flags, vec!["-a", "-b"]);
    assert_eq!(rule.subcommands.len(), 1);
    assert_eq!(rule.subcommands[0].name, "status");
    assert!(rule.args.is_empty());
}

use ssh_guard::actions::{
    build_command_argv, execute, execute_list_dir, execute_read_file, execute_run,
    execute_stat_path, execute_tail_file, find_sub_by_name, ActionPlan,
};
use ssh_guard::config::action::Action;
use ssh_guard::config::arg::ArgStyle;
use ssh_guard::config::duration::Duration;
use ssh_guard::config::global::Global;
use ssh_guard::config::rule::Rule;
use ssh_guard::config::subcommand::Subcommand;
use ssh_guard::config::Config;
use ssh_guard::errors::GuardError;
use ssh_guard::strmap::StrMap;

fn make_systemctl_rule() -> Rule {
    Rule {
        action: Action::Run {
            binary: "/run/current-system/sw/bin/systemctl".into(),
            args: vec!["--no-pager".into()],
            timeout: Duration { millis: 5000 },
        },
        command: Some("systemctl".into()),
        implicit_symlinks: true,
        arg_style: ArgStyle::GnuLong,
        flag_groups: vec![],
        flags: vec![],
        args: vec![],
        pre_args: vec![],
        subcommands: vec![
            Subcommand {
                name: "status".into(),
                arg_style: None,
                flag_groups: vec![],
                flags: vec![],
                args: vec![],
                pre_args: vec!["--no-pager".into(), "--full".into()],
                subcommands: vec![],
            },
            Subcommand {
                name: "show".into(),
                arg_style: None,
                flag_groups: vec![],
                flags: vec![],
                args: vec![],
                pre_args: vec!["--property=Id,Type,ActiveState".into()],
                subcommands: vec![],
            },
        ],
    }
}

fn make_simple_rule() -> Rule {
    Rule {
        action: Action::Run {
            binary: "/bin/journalctl".into(),
            args: vec!["--no-pager".into()],
            timeout: Duration { millis: 5000 },
        },
        command: Some("journalctl".into()),
        implicit_symlinks: true,
        arg_style: ArgStyle::GnuLong,
        flag_groups: vec![],
        flags: vec![],
        args: vec![],
        pre_args: vec![],
        subcommands: vec![],
    }
}

#[test]
fn test_build_command_systemctl_status() {
    let rule = make_systemctl_rule();
    // User types: systemctl status angrr
    let user_argv = vec![
        "systemctl".to_string(),
        "status".to_string(),
        "angrr".to_string(),
    ];
    let subcommand_path = vec!["status".to_string()];

    let result = build_command_argv(&rule, &subcommand_path, &user_argv);

    // Should produce: systemctl --no-pager status --no-pager --full angrr
    assert_eq!(
        result,
        vec![
            "--no-pager".to_string(),
            "status".to_string(),
            "--no-pager".to_string(),
            "--full".to_string(),
            "angrr".to_string()
        ]
    );
}

#[test]
fn test_build_command_systemctl_show() {
    let rule = make_systemctl_rule();
    let user_argv = vec![
        "systemctl".to_string(),
        "show".to_string(),
        "sshd".to_string(),
    ];
    let subcommand_path = vec!["show".to_string()];

    let result = build_command_argv(&rule, &subcommand_path, &user_argv);

    assert_eq!(
        result,
        vec![
            "--no-pager".to_string(),
            "show".to_string(),
            "--property=Id,Type,ActiveState".to_string(),
            "sshd".to_string()
        ]
    );
}

#[test]
fn test_build_command_no_subcommand() {
    let rule = make_simple_rule();
    // User types: journalctl -u sshd -n 10
    let user_argv = vec![
        "journalctl".to_string(),
        "-u".to_string(),
        "sshd".to_string(),
        "-n".to_string(),
        "10".to_string(),
    ];
    let subcommand_path: Vec<String> = vec![];

    let result = build_command_argv(&rule, &subcommand_path, &user_argv);

    // Command token skipped, everything else passed through
    assert_eq!(
        result,
        vec![
            "--no-pager".to_string(),
            "-u".to_string(),
            "sshd".to_string(),
            "-n".to_string(),
            "10".to_string()
        ]
    );
}

#[test]
fn test_build_command_no_args() {
    let rule = make_simple_rule();
    let user_argv = vec!["journalctl".to_string()];
    let subcommand_path: Vec<String> = vec![];

    let result = build_command_argv(&rule, &subcommand_path, &user_argv);

    assert_eq!(result, vec!["--no-pager".to_string()]);
}

#[test]
fn test_build_command_nested_subcommands() {
    let rule = Rule {
        action: Action::Run {
            binary: "/bin/git".into(),
            args: vec![],
            timeout: Duration { millis: 5000 },
        },
        command: Some("git".into()),
        implicit_symlinks: true,
        arg_style: ArgStyle::GnuLong,
        flag_groups: vec![],
        flags: vec![],
        args: vec![],
        pre_args: vec![],
        subcommands: vec![Subcommand {
            name: "remote".into(),
            arg_style: None,
            flag_groups: vec![],
            flags: vec![],
            args: vec![],
            pre_args: vec![],
            subcommands: vec![Subcommand {
                name: "add".into(),
                arg_style: None,
                flag_groups: vec![],
                flags: vec![],
                args: vec![],
                pre_args: vec!["--verbose".into()],
                subcommands: vec![],
            }],
        }],
    };

    // User types: git remote add origin
    let user_argv = vec![
        "git".to_string(),
        "remote".to_string(),
        "add".to_string(),
        "origin".to_string(),
    ];
    let subcommand_path = vec!["remote".to_string(), "add".to_string()];

    let result = build_command_argv(&rule, &subcommand_path, &user_argv);

    assert_eq!(
        result,
        vec![
            "remote".to_string(),
            "add".to_string(),
            "--verbose".to_string(),
            "origin".to_string()
        ]
    );
}

#[test]
fn test_build_command_command_not_first() {
    // Edge case: command token not at position 0 (shouldn't happen in practice)
    let rule = make_systemctl_rule();
    let user_argv = vec![
        "other".to_string(),
        "systemctl".to_string(),
        "status".to_string(),
        "angrr".to_string(),
    ];
    let subcommand_path = vec!["status".to_string()];

    let result = build_command_argv(&rule, &subcommand_path, &user_argv);

    // Command token not skipped (argv[0] != "systemctl"), passes through as regular token
    // "status" matches routing → inject "status" + pre_args
    assert_eq!(
        result,
        vec![
            "--no-pager".to_string(),
            "other".to_string(),
            "systemctl".to_string(),
            "status".to_string(),
            "--no-pager".to_string(),
            "--full".to_string(),
            "angrr".to_string()
        ]
    );
}

#[test]
fn test_build_command_only_command_no_subcommand() {
    let rule = make_simple_rule();
    let user_argv = vec!["journalctl".to_string()];
    let subcommand_path: Vec<String> = vec![];

    let result = build_command_argv(&rule, &subcommand_path, &user_argv);

    assert_eq!(result, vec!["--no-pager".to_string()]);
}

#[test]
fn test_build_command_action_args_before_subcommand() {
    // Action-level args are prepended before subcommand name + pre_args
    let rule = Rule {
        action: Action::Run {
            binary: "/bin/cmd".to_string(),
            args: vec!["--binary-flag".to_string()],
            timeout: Duration { millis: 5000 },
        },
        command: Some("cmd".to_string()),
        implicit_symlinks: true,
        arg_style: ArgStyle::GnuLong,
        flag_groups: vec![],
        flags: vec![],
        args: vec![],
        pre_args: vec![],
        subcommands: vec![Subcommand {
            name: "sub".to_string(),
            arg_style: None,
            flag_groups: vec![],
            flags: vec![],
            args: vec![],
            pre_args: vec!["--sub-flag".to_string()],
            subcommands: vec![],
        }],
    };
    let user_argv = vec!["cmd".to_string(), "sub".to_string(), "arg1".to_string()];
    let sub_path = vec!["sub".to_string()];
    let result = build_command_argv(&rule, &sub_path, &user_argv);
    assert_eq!(
        result,
        vec![
            "--binary-flag".to_string(),
            "sub".to_string(),
            "--sub-flag".to_string(),
            "arg1".to_string(),
        ]
    );
}

#[test]
fn test_build_command_deeply_nested_three_levels() {
    // All subcommand pre_args collected across nesting levels
    let rule = Rule {
        action: Action::Run {
            binary: "/bin/git".to_string(),
            args: vec![],
            timeout: Duration { millis: 5000 },
        },
        command: Some("git".to_string()),
        implicit_symlinks: true,
        arg_style: ArgStyle::GnuLong,
        flag_groups: vec![],
        flags: vec![],
        args: vec![],
        pre_args: vec![],
        subcommands: vec![Subcommand {
            name: "remote".to_string(),
            arg_style: None,
            flag_groups: vec![],
            flags: vec![],
            args: vec![],
            pre_args: vec!["--l1".to_string()],
            subcommands: vec![Subcommand {
                name: "add".to_string(),
                arg_style: None,
                flag_groups: vec![],
                flags: vec![],
                args: vec![],
                pre_args: vec!["--l2".to_string()],
                subcommands: vec![Subcommand {
                    name: "verbose".to_string(),
                    arg_style: None,
                    flag_groups: vec![],
                    flags: vec![],
                    args: vec![],
                    pre_args: vec!["--l3".to_string()],
                    subcommands: vec![],
                }],
            }],
        }],
    };
    let user_argv = vec![
        "git".to_string(),
        "remote".to_string(),
        "add".to_string(),
        "verbose".to_string(),
        "origin".to_string(),
    ];
    let sub_path = vec![
        "remote".to_string(),
        "add".to_string(),
        "verbose".to_string(),
    ];
    let result = build_command_argv(&rule, &sub_path, &user_argv);
    assert_eq!(
        result,
        vec![
            "remote".to_string(),
            "--l1".to_string(),
            "add".to_string(),
            "--l2".to_string(),
            "verbose".to_string(),
            "--l3".to_string(),
            "origin".to_string(),
        ]
    );
}

#[test]
fn test_build_command_user_tokens_passthrough() {
    // Non-command, non-subcommand tokens pass through verbatim
    let rule = Rule {
        action: Action::Run {
            binary: "/bin/cmd".to_string(),
            args: vec![],
            timeout: Duration { millis: 5000 },
        },
        command: Some("cmd".to_string()),
        implicit_symlinks: true,
        arg_style: ArgStyle::GnuLong,
        flag_groups: vec![],
        flags: vec![],
        args: vec![],
        pre_args: vec![],
        subcommands: vec![Subcommand {
            name: "sub".to_string(),
            arg_style: None,
            flag_groups: vec![],
            flags: vec![],
            args: vec![],
            pre_args: vec!["--sub-flag".to_string()],
            subcommands: vec![],
        }],
    };
    let user_argv = vec![
        "cmd".to_string(),
        "--flag".to_string(),
        "value".to_string(),
        "sub".to_string(),
        "extra".to_string(),
    ];
    let sub_path = vec!["sub".to_string()];
    let result = build_command_argv(&rule, &sub_path, &user_argv);
    assert_eq!(
        result,
        vec![
            "--flag".to_string(),
            "value".to_string(),
            "sub".to_string(),
            "--sub-flag".to_string(),
            "extra".to_string(),
        ]
    );
}

#[test]
fn test_build_command_multiple_tokens_before_subcommand() {
    // User flags/positionals before subcommand match pass through
    let rule = make_systemctl_rule();
    let user_argv = vec![
        "systemctl".into(),
        "-H".into(),
        "host.example.com".into(),
        "status".into(),
        "sshd".into(),
    ];
    let sub_path = vec!["status".into()];
    let result = build_command_argv(&rule, &sub_path, &user_argv);
    assert_eq!(
        result,
        vec![
            "--no-pager".to_string(),
            "-H".to_string(),
            "host.example.com".to_string(),
            "status".to_string(),
            "--no-pager".to_string(),
            "--full".to_string(),
            "sshd".to_string(),
        ]
    );
}

/// When command_name() returns None, the cmd-skip block is skipped.
#[test]
fn test_build_command_no_command_name() {
    // ReadFile action with no explicit command name -> command_name() returns None
    let rule = Rule {
        action: Action::ReadFile {
            path_capture: "path".into(),
            root_set: "root".into(),
        },
        command: None,
        implicit_symlinks: true,
        arg_style: ArgStyle::GnuLong,
        flag_groups: vec![],
        flags: vec![],
        args: vec![],
        pre_args: vec![],
        subcommands: vec![],
    };
    let user_argv = vec!["somecmd".to_string()];
    let subcommand_path: Vec<String> = vec![];

    let result = build_command_argv(&rule, &subcommand_path, &user_argv);

    // No action args (ReadFile has none), no cmd_name to skip,
    // no subcommands -> user_argv passes through verbatim
    assert_eq!(result, vec!["somecmd".to_string()]);
}

#[test]
fn test_build_command_no_action_args_with_subcommand() {
    // Empty action args, only subcommand name + pre_args injected
    let rule = Rule {
        action: Action::Run {
            binary: "/bin/cmd".to_string(),
            args: vec![],
            timeout: Duration { millis: 5000 },
        },
        command: Some("cmd".to_string()),
        implicit_symlinks: true,
        arg_style: ArgStyle::GnuLong,
        flag_groups: vec![],
        flags: vec![],
        args: vec![],
        pre_args: vec![],
        subcommands: vec![Subcommand {
            name: "sub".to_string(),
            arg_style: None,
            flag_groups: vec![],
            flags: vec![],
            args: vec![],
            pre_args: vec!["--internal".to_string()],
            subcommands: vec![],
        }],
    };
    let user_argv = vec!["cmd".to_string(), "sub".to_string()];
    let sub_path = vec!["sub".to_string()];
    let result = build_command_argv(&rule, &sub_path, &user_argv);
    assert_eq!(result, vec!["sub".to_string(), "--internal".to_string()]);
}

// -----------------------------------------------------------------------
// Tests for resolve_within_roots
// -----------------------------------------------------------------------

#[test]
fn test_find_sub_by_name_found() {
    let subs = vec![
        Subcommand {
            name: "status".into(),
            arg_style: None,
            flag_groups: vec![],
            flags: vec![],
            args: vec![],
            pre_args: vec![],
            subcommands: vec![],
        },
        Subcommand {
            name: "show".into(),
            arg_style: None,
            flag_groups: vec![],
            flags: vec![],
            args: vec![],
            pre_args: vec![],
            subcommands: vec![],
        },
    ];
    assert!(find_sub_by_name(&subs, "status").is_some());
    assert!(find_sub_by_name(&subs, "show").is_some());
}

#[test]
fn test_find_sub_by_name_not_found() {
    let subs = vec![Subcommand {
        name: "status".into(),
        arg_style: None,
        flag_groups: vec![],
        flags: vec![],
        args: vec![],
        pre_args: vec![],
        subcommands: vec![],
    }];
    assert!(find_sub_by_name(&subs, "nonexistent").is_none());
}

// -----------------------------------------------------------------------
// Tests for action_run
// -----------------------------------------------------------------------

#[test]
fn test_execute_run_wrong_action_type() {
    let config = Config::default();
    let rule = Rule {
        action: Action::ShowHelp,
        command: Some("help".into()),
        implicit_symlinks: true,
        arg_style: ArgStyle::GnuLong,
        flag_groups: vec![],
        flags: vec![],
        args: vec![],
        pre_args: vec![],
        subcommands: vec![],
    };
    let result = execute_run(&config, &rule, &[], &[]);
    assert!(
        matches!(&result, Err(GuardError::Action(msg)) if msg == "expected Run action"),
        "expected 'expected Run action' error, got {result:?}"
    );
}

// -----------------------------------------------------------------------
// Tests for execute_read_file
// -----------------------------------------------------------------------

#[test]
fn test_execute_read_file_missing_capture() {
    let config = Config::default();
    let action = Action::ReadFile {
        path_capture: "path".into(),
        root_set: "roots".into(),
    };
    let captures = StrMap::new();

    let result = execute_read_file(&config, &action, &captures);
    assert!(
        matches!(&result, Err(GuardError::Action(msg)) if msg.contains("missing capture")),
        "expected missing capture error, got {result:?}"
    );
}

#[test]
fn test_execute_read_file_unknown_root_set() {
    let config = Config::default();
    let action = Action::ReadFile {
        path_capture: "path".into(),
        root_set: "custom".into(),
    };
    let mut captures = StrMap::new();
    captures.insert("path".into(), "/some/path".into());

    let result = execute_read_file(&config, &action, &captures);
    assert!(
        matches!(&result, Err(GuardError::Action(msg)) if msg.contains("unknown root set")),
        "expected unknown root set error, got {result:?}"
    );
}

#[test]
fn test_execute_read_file_wrong_action() {
    let config = Config::default();
    let action = Action::ShowHelp;
    let captures = StrMap::new();
    let result = execute_read_file(&config, &action, &captures);
    assert!(
        matches!(&result, Err(GuardError::Action(msg)) if msg == "expected ReadFile action"),
        "expected 'expected ReadFile action' error, got {result:?}"
    );
}

// -----------------------------------------------------------------------
// Tests for execute_tail_file
// -----------------------------------------------------------------------

#[test]
fn test_execute_tail_file_missing_capture() {
    let config = Config::default();
    let action = Action::TailFile {
        path_capture: "path".into(),
        lines_capture: None,
        default_lines: 10,
        root_set: "roots".into(),
    };
    let captures = StrMap::new();

    let result = execute_tail_file(&config, &action, &captures);
    assert!(
        matches!(&result, Err(GuardError::Action(msg)) if msg.contains("missing capture")),
        "expected missing capture error, got {result:?}"
    );
}

#[test]
fn test_execute_tail_file_unknown_root_set() {
    let config = Config::default();
    let action = Action::TailFile {
        path_capture: "path".into(),
        lines_capture: None,
        default_lines: 10,
        root_set: "custom".into(),
    };
    let mut captures = StrMap::new();
    captures.insert("path".into(), "/some/path".into());

    let result = execute_tail_file(&config, &action, &captures);
    assert!(
        matches!(&result, Err(GuardError::Action(msg)) if msg.contains("unknown root set")),
        "expected unknown root set error, got {result:?}"
    );
}

#[test]
fn test_execute_tail_file_wrong_action() {
    let config = Config::default();
    let action = Action::ShowHelp;
    let captures = StrMap::new();
    let result = execute_tail_file(&config, &action, &captures);
    assert!(
        matches!(&result, Err(GuardError::Action(msg)) if msg == "expected TailFile action"),
        "expected 'expected TailFile action' error, got {result:?}"
    );
}

// -----------------------------------------------------------------------
// Tests for execute_stat_path
// -----------------------------------------------------------------------

#[test]
fn test_execute_stat_path_missing_capture() {
    let config = Config::default();
    let action = Action::StatPath {
        path_capture: "path".into(),
        root_set: "roots".into(),
    };
    let captures = StrMap::new();
    let result = execute_stat_path(&config, &action, &captures);
    assert!(
        matches!(&result, Err(GuardError::Action(msg)) if msg.contains("missing capture")),
        "expected missing capture error, got {result:?}"
    );
}

#[test]
fn test_execute_stat_path_unknown_root_set() {
    let config = Config::default();
    let action = Action::StatPath {
        path_capture: "path".into(),
        root_set: "custom".into(),
    };
    let mut captures = StrMap::new();
    captures.insert("path".into(), "/some/path".into());
    let result = execute_stat_path(&config, &action, &captures);
    assert!(
        matches!(&result, Err(GuardError::Action(msg)) if msg.contains("unknown root set")),
        "expected unknown root set error, got {result:?}"
    );
}

#[test]
fn test_execute_stat_path_wrong_action() {
    let config = Config::default();
    let action = Action::ShowHelp;
    let captures = StrMap::new();
    let result = execute_stat_path(&config, &action, &captures);
    assert!(
        matches!(&result, Err(GuardError::Action(msg)) if msg == "expected StatPath action"),
        "expected 'expected StatPath action' error, got {result:?}"
    );
}

// -----------------------------------------------------------------------
// Tests for execute_list_dir
// -----------------------------------------------------------------------

#[test]
fn test_execute_list_dir_missing_capture() {
    let config = Config::default();
    let action = Action::ListDir {
        path_capture: "path".into(),
        root_set: "roots".into(),
    };
    let captures = StrMap::new();
    let result = execute_list_dir(&config, &action, &captures);
    assert!(
        matches!(&result, Err(GuardError::Action(msg)) if msg.contains("missing capture")),
        "expected missing capture error, got {result:?}"
    );
}

#[test]
fn test_execute_list_dir_unknown_root_set() {
    let config = Config::default();
    let action = Action::ListDir {
        path_capture: "path".into(),
        root_set: "custom".into(),
    };
    let mut captures = StrMap::new();
    captures.insert("path".into(), "/some/path".into());
    let result = execute_list_dir(&config, &action, &captures);
    assert!(
        matches!(&result, Err(GuardError::Action(msg)) if msg.contains("unknown root set")),
        "expected unknown root set error, got {result:?}"
    );
}

#[test]
fn test_execute_list_dir_wrong_action() {
    let config = Config::default();
    let action = Action::ShowHelp;
    let captures = StrMap::new();
    let result = execute_list_dir(&config, &action, &captures);
    assert!(
        matches!(&result, Err(GuardError::Action(msg)) if msg == "expected ListDir action"),
        "expected 'expected ListDir action' error, got {result:?}"
    );
}

// -----------------------------------------------------------------------
// Tests for execute_show_help
// -----------------------------------------------------------------------

#[test]
fn test_execute_dispatches_show_help() {
    let config = Config {
        global: Global {
            help_text: "help\n".into(),
            ..Global::default()
        },
        ..Default::default()
    };
    let rule = Rule {
        action: Action::ShowHelp,
        command: Some("help".into()),
        implicit_symlinks: true,
        arg_style: ArgStyle::GnuLong,
        flag_groups: vec![],
        flags: vec![],
        args: vec![],
        pre_args: vec![],
        subcommands: vec![],
    };
    let captures = StrMap::new();
    let result = execute(&config, &rule, &[], &captures, &[]);
    assert!(matches!(result.unwrap(), ActionPlan::ShowHelp { text } if text == "help\n"));
}

#[test]
fn test_execute_wrong_action_type() {
    let config = Config::default();
    let rule = Rule {
        action: Action::ShowHelp,
        command: Some("help".into()),
        implicit_symlinks: true,
        arg_style: ArgStyle::GnuLong,
        flag_groups: vec![],
        flags: vec![],
        args: vec![],
        pre_args: vec![],
        subcommands: vec![],
    };
    let captures = StrMap::new();
    // The match arm `_ =>` in execute() is unreachable for valid Action variants.
    // This test verifies dispatch for ShowHelp works.
    let result = execute(&config, &rule, &[], &captures, &[]);
    match result.unwrap() {
        ActionPlan::ShowHelp { text } => assert_eq!(text, config.global.help_text),
        other => panic!("expected ShowHelp, got {other:?}"),
    }
}

#[test]
fn build_command_puts_rule_pre_args_before_user_tokens() {
    let mut rule = make_simple_rule();
    rule.action = Action::Run {
        binary: "/usr/bin/deploy".into(),
        args: vec![],
        timeout: Duration { millis: 5000 },
    };
    rule.command = None;
    rule.pre_args = vec!["--config".into(), "/etc/deploy.conf".into()];
    rule.args = vec!["{string}".into()];
    let user_argv = vec!["deploy".to_string(), "prod".to_string()];
    let argv = build_command_argv(&rule, &[], &user_argv);
    assert_eq!(argv, vec!["--config", "/etc/deploy.conf", "prod"]);
}

#[test]
fn build_command_orders_action_args_rule_pre_args_then_subcommand() {
    let mut rule = make_systemctl_rule();
    rule.pre_args = vec!["--system".into()];
    let user_argv = vec![
        "systemctl".to_string(),
        "status".to_string(),
        "angrr".to_string(),
    ];
    let subcommand_path = vec!["status".to_string()];
    let argv = build_command_argv(&rule, &subcommand_path, &user_argv);
    assert_eq!(
        argv,
        vec!["--no-pager", "--system", "status", "--no-pager", "--full", "angrr"]
    );
}

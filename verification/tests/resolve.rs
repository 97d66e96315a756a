use ssh_guard::config::action::Action;
use ssh_guard::config::contract::Contract;
use ssh_guard::config::global::Global;
use ssh_guard::config::profile::{GlobalOverride, Profile};
use ssh_guard::config::rule::Rule;
use ssh_guard::config::Config;
use ssh_guard::errors::GuardError;
use ssh_guard::strmap::StrMap;

fn help_rule(command: &str) -> Rule {
    Rule {
        action: Action::ShowHelp,
        command: Some(command.into()),
        implicit_symlinks: true,
        arg_style: Default::default(),
        flag_groups: vec![],
        flags: vec![],
        args: vec![],
        pre_args: vec![],
        subcommands: vec![],
    }
}

fn base() -> Config {
    let mut contracts = StrMap::new();
    contracts.insert("port".into(), Contract::IntRange { min: 1, max: 2 });
    let mut groups = StrMap::new();
    groups.insert("g".into(), vec!["--a".to_string()]);
    Config {
        global: Global::default(),
        contracts,
        flag_groups: groups,
        rules: vec![help_rule("help")],
        roots: vec!["/var/log".into(), "/run".into()],
        units: vec!["sshd".into()],
        profiles: StrMap::new(),
    }
}

fn admin_profile() -> Profile {
    let mut contracts = StrMap::new();
    contracts.insert("port".into(), Contract::IntRange { min: 10, max: 20 });
    contracts.insert("svc".into(), Contract::Enum { values: vec!["nginx".into()] });
    Profile {
        users: vec!["alice".into(), "carol".into()],
        global: Some(GlobalOverride { help_text: Some("admin help".into()), ..Default::default() }),
        contracts: Some(contracts),
        flag_groups: None,
        rules: Some(vec![help_rule("status")]),
        roots: Some(vec!["/".into(), "/run".into()]),
        units: None,
    }
}

#[test]
fn unlisted_user_gets_the_base_configuration() {
    let mut cfg = base();
    cfg.profiles.insert("admin".into(), admin_profile());
    let eff = cfg.resolve_for_user("bob").unwrap();
    assert_eq!(eff.rules.len(), 1);
    assert_eq!(eff.global.help_text, "");
    assert_eq!(eff.roots, vec!["/var/log", "/run"]);
    assert_eq!(eff.units, vec!["sshd"]);
    assert!(matches!(eff.contracts.get("port"), Some(Contract::IntRange { min: 1, max: 2 })));
    assert!(eff.profiles.is_empty());
}

#[test]
fn listed_user_gets_the_profile_over_the_base() {
    let mut cfg = base();
    cfg.profiles.insert("admin".into(), admin_profile());
    let eff = cfg.resolve_for_user("alice").unwrap();
    assert_eq!(eff.global.help_text, "admin help");
    assert_eq!(eff.global.audit_log, "/var/log/ssh-guard-audit.log");
    assert!(matches!(eff.contracts.get("port"), Some(Contract::IntRange { min: 10, max: 20 })));
    assert!(eff.contracts.get("svc").is_some());
    assert_eq!(eff.flag_groups.get("g"), Some(&vec!["--a".to_string()]));
    assert_eq!(eff.rules.len(), 2);
    assert_eq!(eff.rules[0].command.as_deref(), Some("help"));
    assert_eq!(eff.rules[1].command.as_deref(), Some("status"));
    assert_eq!(eff.roots, vec!["/var/log", "/run", "/"]);
    assert_eq!(eff.units, vec!["sshd"]);
    assert!(eff.profiles.is_empty());
}

#[test]
fn user_in_two_profiles_is_refused() {
    let mut cfg = base();
    cfg.profiles.insert("a".into(), admin_profile());
    cfg.profiles.insert("b".into(), Profile { users: vec!["alice".into()], ..Default::default() });
    match cfg.resolve_for_user("alice") {
        Err(GuardError::Config(m)) => {
            assert_eq!(m, "user 'alice' is listed in more than one profile: 'a' and 'b'")
        }
        other => panic!("expected a config error, got {other:?}"),
    }
}

#[test]
fn profile_without_overrides_keeps_base_settings() {
    let mut cfg = base();
    cfg.profiles.insert("plain".into(), Profile { users: vec!["dave".into()], ..Default::default() });
    let eff = cfg.resolve_for_user("dave").unwrap();
    assert_eq!(eff.global.help_text, "");
    assert_eq!(eff.rules.len(), 1);
    assert_eq!(eff.roots, vec!["/var/log", "/run"]);
    assert_eq!(eff.flag_groups.num_entries(), 1);
    assert_eq!(eff.contracts.num_entries(), 1);
}

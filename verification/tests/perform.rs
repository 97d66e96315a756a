use ssh_guard::errors::GuardError;
use ssh_guard::perform::{
    check_read_size, describe_path, listing, resolve_binary, resolve_within_roots, run_step,
    BinaryLookup, RunEvent, RunStep,
};

fn lookup(exists: bool, canonical: Result<&str, &str>, symlink: Result<bool, &str>) -> BinaryLookup {
    BinaryLookup {
        exists,
        canonical: canonical.map(String::from).map_err(String::from),
        symlink: symlink.map_err(String::from),
    }
}

#[test]
fn test_resolve_binary_not_exists() {
    let result = resolve_binary(
        "/nonexistent/binary/12345",
        true,
        &lookup(false, Err("No such file or directory"), Err("No such file or directory")),
    );
    assert!(
        matches!(&result, Err(GuardError::Action(msg)) if msg.contains("does not exist")),
        "expected 'does not exist' error, got {result:?}"
    );
}

#[test]
fn resolve_binary_follows_links_when_allowed() {
    let r = resolve_binary("/bin/x", true, &lookup(true, Ok("/nix/store/x"), Ok(true)));
    assert_eq!(r.unwrap(), "/nix/store/x");
    let r = resolve_binary("/bin/x", true, &lookup(true, Err("boom"), Ok(true)));
    assert!(matches!(r, Err(GuardError::Action(m)) if m == "cannot resolve binary '/bin/x': boom"));
}

#[test]
fn resolve_binary_refuses_links_when_not_allowed() {
    let r = resolve_binary("/bin/x", false, &lookup(true, Ok("/nix/store/x"), Ok(true)));
    assert!(matches!(r, Err(GuardError::Action(m))
        if m == "binary '/bin/x' is a symlink and implicit_symlinks is disabled"));
    let r = resolve_binary("/bin/x", false, &lookup(true, Ok("/nix/store/x"), Ok(false)));
    assert_eq!(r.unwrap(), "/bin/x");
    let r = resolve_binary("/bin/x", false, &lookup(true, Ok("/bin/x"), Err("denied")));
    assert!(matches!(r, Err(GuardError::Io(m)) if m == "denied"));
}

#[test]
fn run_step_decides_each_event() {
    assert!(matches!(run_step("sleep", 5000, &RunEvent::Exited { code: Some(3) }), RunStep::Finish { code: 3 }));
    assert!(matches!(run_step("sleep", 5000, &RunEvent::Exited { code: None }), RunStep::Finish { code: 1 }));
    assert!(matches!(
        run_step("sleep", 5000, &RunEvent::Running { elapsed_ns: 5_000_000_000 }),
        RunStep::Sleep { millis: 50 }
    ));
    match run_step("sleep", 5000, &RunEvent::Running { elapsed_ns: 5_000_000_001 }) {
        RunStep::KillAndFail { error: GuardError::Action(m) } => {
            assert_eq!(m, "command 'sleep' timed out after 5000ms")
        }
        other => panic!("expected a timeout, got {other:?}"),
    }
    match run_step("sleep", 5000, &RunEvent::WaitFailed { error: "oops".into() }) {
        RunStep::Fail { error: GuardError::Action(m) } => assert_eq!(m, "error waiting for 'sleep': oops"),
        other => panic!("expected a failure, got {other:?}"),
    }
}

#[test]
fn read_size_limit() {
    assert!(check_read_size("/f", 100, 100).is_ok());
    match check_read_size("/f", 500, 100) {
        Err(GuardError::Action(m)) => assert_eq!(m, "file '/f' is 500 bytes, exceeds limit of 100"),
        other => panic!("expected a size error, got {other:?}"),
    }
}

#[test]
fn describe_path_lines() {
    assert_eq!(describe_path("/a", false, true, false, 4), "path: /a\ntype: file\nsize: 4\n");
    assert_eq!(describe_path("/d", true, false, true, 0), "path: /d\ntype: directory\nsize: 0\n");
    assert_eq!(describe_path("/l", false, false, true, 9), "path: /l\ntype: symlink\nsize: 9\n");
    assert_eq!(describe_path("/p", false, false, false, 0), "path: /p\ntype: other\nsize: 0\n");
}

#[test]
fn listing_is_sorted_one_per_line() {
    let names = vec!["b.txt".to_string(), "a.txt".to_string(), "sub".to_string()];
    assert_eq!(listing(&names), "a.txt\nb.txt\nsub\n");
    let names = vec!["b".to_string(), "a".to_string(), "b".to_string(), "B".to_string()];
    assert_eq!(listing(&names), "B\na\nb\nb\n");
    assert_eq!(listing(&vec![]), "");
}

#[test]
fn paths_outside_the_roots_are_refused() {
    let roots = vec!["/var/log".to_string()];
    assert!(resolve_within_roots("/var/log/a", Some("/var/log/a"), &roots).is_ok());
    match resolve_within_roots("x", Some("/var/logs/a"), &roots) {
        Err(GuardError::PathNotAllowed(m)) => {
            assert_eq!(m, "path '/var/logs/a' not within any allowed root")
        }
        other => panic!("expected a refusal, got {other:?}"),
    }
    match resolve_within_roots("/nope/x", None, &roots) {
        Err(GuardError::PathNotAllowed(m)) => assert_eq!(m, "cannot resolve path '/nope/x'"),
        other => panic!("expected a refusal, got {other:?}"),
    }
}

use ssh_guard::config::duration::{split_duration, Duration};
use ssh_guard::errors::GuardError;

#[test]
fn test_default_duration() {
    let d = Duration::default();
    assert_eq!(d.millis, 5000);
}

#[test]
fn split_duration_trims_lowers_and_finds_the_unit() {
    let d = split_duration(" 1.5H ").unwrap();
    assert_eq!(d.normalized, "1.5h");
    assert_eq!(d.number, "1.5");
    assert_eq!(d.multiplier_ms, 3_600_000);
}

#[test]
fn split_duration_bare_number_is_milliseconds() {
    let d = split_duration("5000").unwrap();
    assert_eq!(d.number, "5000");
    assert_eq!(d.multiplier_ms, 1);
}

#[test]
fn split_duration_each_unit() {
    assert_eq!(split_duration("5ms").unwrap().multiplier_ms, 1);
    assert_eq!(split_duration("5s").unwrap().multiplier_ms, 1000);
    assert_eq!(split_duration("5m").unwrap().multiplier_ms, 60_000);
    assert_eq!(split_duration("2 h").unwrap().multiplier_ms, 3_600_000);
    assert_eq!(split_duration("2 h").unwrap().number, "2");
}

#[test]
fn split_duration_unknown_suffix_is_refused() {
    match split_duration("5x") {
        Err(GuardError::Config(m)) => assert_eq!(m, "invalid duration suffix: x"),
        other => panic!("expected a config error, got {other:?}"),
    }
    match split_duration("abc") {
        Err(GuardError::Config(m)) => assert_eq!(m, "invalid duration suffix: abc"),
        other => panic!("expected a config error, got {other:?}"),
    }
}

#[test]
fn split_duration_unit_without_number_keeps_an_empty_number() {
    let d = split_duration("ms").unwrap();
    assert_eq!(d.number, "");
    assert_eq!(d.multiplier_ms, 1);
}

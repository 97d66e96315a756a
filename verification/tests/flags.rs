use ssh_guard::config::arg::ArgStyle;
use ssh_guard::engine::flags::{expand_flags, is_flag_like};
use ssh_guard::strmap::StrMap;

#[test]
fn test_is_flag_like_gnu() {
    assert!(is_flag_like("--porcelain", &ArgStyle::GnuLong));
    assert!(!is_flag_like("status", &ArgStyle::GnuLong));
    assert!(!is_flag_like("-p", &ArgStyle::GnuLong));
    assert!(!is_flag_like("/v", &ArgStyle::GnuLong));
    assert!(!is_flag_like("-x", &ArgStyle::GnuLong));
    assert!(is_flag_like("--", &ArgStyle::GnuLong));
}

#[test]
fn test_is_flag_like_posix() {
    assert!(is_flag_like("-p", &ArgStyle::PosixShort));
    assert!(!is_flag_like("--porcelain", &ArgStyle::PosixShort));
    assert!(!is_flag_like("status", &ArgStyle::PosixShort));
    assert!(!is_flag_like("/v", &ArgStyle::PosixShort));
    assert!(is_flag_like("-abc", &ArgStyle::PosixShort));
    assert!(!is_flag_like("--long", &ArgStyle::PosixShort));
}

#[test]
fn test_is_flag_like_dos() {
    assert!(is_flag_like("/v", &ArgStyle::Dos));
    assert!(!is_flag_like("--verbose", &ArgStyle::Dos));
    assert!(!is_flag_like("status", &ArgStyle::Dos));
    assert!(!is_flag_like("-p", &ArgStyle::Dos));
    assert!(is_flag_like("/", &ArgStyle::Dos));
}

#[test]
fn test_expand_flags() {
    let mut groups = StrMap::new();
    groups.insert("g1".into(), vec!["-a".into(), "-b".into()]);
    groups.insert("g2".into(), vec!["-c".into()]);
    let result = expand_flags(&groups, &["g1".into(), "g2".into()], &["-x".into()]);
    assert_eq!(result, vec!["-x", "-a", "-b", "-c"]);
}

#[test]
fn test_expand_flags_empty_groups() {
    let groups = StrMap::new();
    let result = expand_flags(&groups, &[], &["-x".into()]);
    assert_eq!(result, vec!["-x"]);
}

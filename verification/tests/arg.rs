use ssh_guard::config::arg::ArgStyle;

#[test]
fn test_default_is_gnu_long() {
    let style = ArgStyle::default();
    assert_eq!(style, ArgStyle::GnuLong);
}

#[test]
fn arg_test_partial_eq() {
    assert_eq!(ArgStyle::GnuLong, ArgStyle::GnuLong);
    assert_eq!(ArgStyle::PosixShort, ArgStyle::PosixShort);
    assert_eq!(ArgStyle::Dos, ArgStyle::Dos);
    assert_ne!(ArgStyle::GnuLong, ArgStyle::PosixShort);
    assert_ne!(ArgStyle::GnuLong, ArgStyle::Dos);
    assert_ne!(ArgStyle::PosixShort, ArgStyle::Dos);
}

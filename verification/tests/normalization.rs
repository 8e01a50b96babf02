use aura_core::strip_version;

#[test]
fn version_stripping() {
    assert_eq!("gcc6", strip_version("gcc6=6.5.0-7"));
    assert_eq!("glibc", strip_version("glibc>=2.25"));
}

#[test]
fn no_marker_is_identity() {
    assert_eq!("firefox", strip_version("firefox"));
    assert_eq!("", strip_version(""));
    assert_eq!("a-b_c", strip_version("a-b_c"));
}

#[test]
fn marker_at_start_yields_empty() {
    assert_eq!("", strip_version("=1.0"));
    assert_eq!("", strip_version(">2"));
}

#[test]
fn first_marker_wins() {
    assert_eq!("pkg", strip_version("pkg>=1=2"));
    assert_eq!("pkg", strip_version("pkg=>1"));
}

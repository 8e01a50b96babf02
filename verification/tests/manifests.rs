use aura_core::error::Error;
use aura_core::manifest::buildable_from_manifest;
use aura_core::manifest::resolve_build;
use aura_core::manifest::Manifest;
use aura_core::manifest::Subpackage;
use aura_core::state::Resolution;

fn sample_text() -> String {
    [
        "pkgbase = foo",
        "\tpkgver = 1.0",
        "\tpkgrel = 1",
        "\tmakedepends = cmake",
        "\tdepends = libbar>=2.25",
        "\tprovides = foo-virtual",
        "",
        "pkgname = foo",
        "",
        "pkgname = foo-extra",
        "\tdepends = libbaz=1.0-2",
        "",
    ]
    .join("\n")
}

#[test]
fn manifest_text_resolves_to_buildable() {
    let mut res = Resolution::default();
    let (name, mut deps) = resolve_build(&mut res, &sample_text()).unwrap();
    assert_eq!(name, "foo");
    deps.sort();
    assert_eq!(
        deps,
        vec![String::from("cmake"), String::from("libbar"), String::from("libbaz")]
    );
    assert_eq!(res.to_build.len(), 1);
    assert_eq!(res.to_build[0].name, "foo");
    assert!(res.seen("foo"));
    assert!(res.seen("foo-extra"));
    assert!(res.seen("foo-virtual"));
    assert!(!res.seen("libbaz"));
}

#[test]
fn split_package_alias_prevents_a_second_build() {
    let mut res = Resolution::default();
    resolve_build(&mut res, &sample_text()).unwrap();
    // a dependent that names the sub-package finds it already accounted for
    assert!(res.seen("foo-extra"));
    assert_eq!(res.to_build.len(), 1);
    assert!(res.satisfied.is_empty());
    assert!(res.to_install.is_empty());
}

#[test]
fn unparsable_text_reports_srcinfo_error() {
    let mut res = Resolution::default();
    let r = resolve_build(&mut res, "pkgver = 1.0\n");
    assert!(matches!(r, Err(Error::Srcinfo(_))));
    assert!(res.to_build.is_empty());
}

#[test]
fn missing_fields_are_rejected() {
    let mut res = Resolution::default();
    // no pkgname section at all
    let r = resolve_build(&mut res, "pkgbase = foo\n\tpkgver = 1\n\tpkgrel = 1\n");
    assert!(matches!(r, Err(Error::Srcinfo(_))));
}

#[test]
fn aggregation_deduplicates_and_normalizes_dependencies() {
    let m = Manifest {
        base_name: String::from("base"),
        base_deps: vec![String::from("a"), String::from("b>=1.0")],
        primary_deps: vec![String::from("b"), String::from("c")],
        primary_provides: vec![String::from("p")],
        subpackages: vec![
            Subpackage { name: String::from("base"), deps: vec![String::from("c=2")] },
            Subpackage { name: String::from("base-extra"), deps: vec![String::from("d")] },
        ],
    };
    let (b, aliases) = buildable_from_manifest(&m);
    assert_eq!(b.name, "base");
    let mut deps = b.deps.clone();
    deps.sort();
    assert_eq!(
        deps,
        vec![String::from("a"), String::from("b"), String::from("c"), String::from("d")]
    );
    assert_eq!(
        aliases,
        vec![String::from("p"), String::from("base"), String::from("base-extra")]
    );
}

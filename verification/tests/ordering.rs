use aura_core::manifest::buildable_from_manifest;
use aura_core::manifest::Manifest;
use aura_core::order::build_order;
use aura_core::resolve::resolve_decide;
use aura_core::resolve::DbReport;
use aura_core::resolve::OfficialRecord;
use aura_core::state::Buildable;
use aura_core::state::Resolution;

fn pkg(name: &str, deps: &[&str]) -> Buildable {
    Buildable {
        name: String::from(name),
        deps: deps.iter().map(|d| String::from(*d)).collect(),
    }
}

#[test]
fn chain_builds_in_three_tiers() {
    let plan = build_order(vec![
        pkg("x", &[]),
        pkg("y", &["x"]),
        pkg("z", &["x", "y"]),
    ])
    .unwrap();
    assert_eq!(
        plan,
        vec![
            vec![String::from("x")],
            vec![String::from("y")],
            vec![String::from("z")],
        ]
    );
}

#[test]
fn independent_packages_share_a_tier() {
    let plan = build_order(vec![pkg("a", &[]), pkg("b", &[]), pkg("c", &["a", "b"])]).unwrap();
    assert_eq!(plan.len(), 2);
    let mut first = plan[0].clone();
    first.sort();
    assert_eq!(first, vec![String::from("a"), String::from("b")]);
    assert_eq!(plan[1], vec![String::from("c")]);
}

#[test]
fn outside_dependencies_are_ignored() {
    // glibc is not buildable here, so it cannot hold w back
    let plan = build_order(vec![pkg("w", &["glibc"])]).unwrap();
    assert_eq!(plan, vec![vec![String::from("w")]]);
}

#[test]
fn empty_input_yields_empty_plan() {
    let plan = build_order(vec![]).unwrap();
    assert!(plan.is_empty());
}

#[test]
fn cycle_is_an_error_not_a_plan() {
    let err = build_order(vec![pkg("p", &["q"]), pkg("q", &["p"])]).unwrap_err();
    let mut names = err.names.clone();
    names.sort();
    assert_eq!(names, vec![String::from("p"), String::from("q")]);
}

#[test]
fn cycle_beyond_a_buildable_prefix_is_still_found() {
    let err = build_order(vec![pkg("base", &[]), pkg("p", &["q", "base"]), pkg("q", &["p"])])
        .unwrap_err();
    let mut names = err.names.clone();
    names.sort();
    assert_eq!(names, vec![String::from("p"), String::from("q")]);
}

#[test]
fn a_batch_classifies_and_orders() {
    let mut res = Resolution::default();
    res.record_satisfied(String::from("glibc"));
    let report = DbReport {
        installed: false,
        official: Some(OfficialRecord {
            name: String::from("firefox"),
            deps: vec![String::from("glibc")],
        }),
    };
    resolve_decide(&mut res, String::from("firefox"), report);
    // the official package's dependency is already accounted for
    assert!(res.seen("glibc"));
    res.record_buildable(
        pkg("app1", &["lib1", "glibc"]),
        vec![],
    );
    res.record_buildable(pkg("lib1", &[]), vec![]);
    assert_eq!(res.satisfied, vec![String::from("glibc")]);
    assert_eq!(res.to_install[0].0, "firefox");
    let plan = build_order(res.to_build).unwrap();
    assert_eq!(
        plan,
        vec![vec![String::from("lib1")], vec![String::from("app1")]]
    );
}

#[test]
fn versioned_dependency_tokens_still_order_builds() {
    let lib = Manifest {
        base_name: String::from("lib1"),
        base_deps: vec![],
        primary_deps: vec![],
        primary_provides: vec![],
        subpackages: vec![],
    };
    let app = Manifest {
        base_name: String::from("app1"),
        base_deps: vec![],
        primary_deps: vec![String::from("lib1>=1.0")],
        primary_provides: vec![],
        subpackages: vec![],
    };
    let (b_lib, _) = buildable_from_manifest(&lib);
    let (b_app, _) = buildable_from_manifest(&app);
    // the version demand is stripped, so the in-set dependency is seen
    assert_eq!(b_app.deps, vec![String::from("lib1")]);
    let plan = build_order(vec![b_app, b_lib]).unwrap();
    assert_eq!(
        plan,
        vec![vec![String::from("lib1")], vec![String::from("app1")]]
    );
}

#[test]
fn partial_order_property_holds() {
    let input = vec![
        pkg("e", &["d"]),
        pkg("d", &["c"]),
        pkg("c", &["a", "b"]),
        pkg("b", &[]),
        pkg("a", &["glibc"]),
    ];
    let plan = build_order(input).unwrap();
    // every in-set dependency is placed in a strictly earlier tier
    let tier_of = |name: &str| -> usize {
        plan.iter().position(|g| g.iter().any(|n| n == name)).unwrap()
    };
    assert!(tier_of("a") < tier_of("c"));
    assert!(tier_of("b") < tier_of("c"));
    assert!(tier_of("c") < tier_of("d"));
    assert!(tier_of("d") < tier_of("e"));
    let total: usize = plan.iter().map(|g| g.len()).sum();
    assert_eq!(total, 5);
}

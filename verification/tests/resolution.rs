use aura_core::error::combine_errors;
use aura_core::error::Error;
use aura_core::resolve::pull_or_clone;
use aura_core::resolve::resolve_decide;
use aura_core::resolve::CloneSource;
use aura_core::resolve::DbReport;
use aura_core::resolve::NextStep;
use aura_core::resolve::OfficialRecord;
use aura_core::resolve::RemoteRecord;
use aura_core::state::Buildable;
use aura_core::state::Resolution;

#[test]
fn fresh_state_has_seen_nothing() {
    let res = Resolution::default();
    assert!(!res.seen("anything"));
    assert!(res.to_install.is_empty());
    assert!(res.to_build.is_empty());
    assert!(res.satisfied.is_empty());
}

#[test]
fn satisfied_dedup_is_idempotent() {
    let mut res = Resolution::default();
    res.record_satisfied(String::from("glibc"));
    res.record_satisfied(String::from("glibc"));
    assert_eq!(res.satisfied.len(), 1);
    assert!(res.seen("glibc"));
}

#[test]
fn official_dedup_is_idempotent() {
    let mut res = Resolution::default();
    res.record_official(String::from("gcc"));
    res.record_official(String::from("gcc"));
    assert_eq!(res.to_install.len(), 1);
    assert_eq!(res.to_install[0].0, "gcc");
    assert!(res.seen("gcc"));
}

#[test]
fn buildable_dedup_is_idempotent() {
    let mut res = Resolution::default();
    let b1 = Buildable { name: String::from("paru"), deps: vec![String::from("git")] };
    let b2 = Buildable { name: String::from("paru"), deps: vec![String::from("git")] };
    res.record_buildable(b1, vec![String::from("paru-bin")]);
    res.record_buildable(b2, vec![String::from("paru-bin")]);
    assert_eq!(res.to_build.len(), 1);
    assert!(res.seen("paru"));
    assert!(res.seen("paru-bin"));
}

#[test]
fn classification_is_exclusive() {
    let mut res = Resolution::default();
    res.record_satisfied(String::from("glibc"));
    res.record_official(String::from("glibc"));
    let b = Buildable { name: String::from("glibc"), deps: vec![] };
    res.record_buildable(b, vec![]);
    assert_eq!(res.satisfied.len(), 1);
    assert!(res.to_install.is_empty());
    assert!(res.to_build.is_empty());
}

#[test]
fn local_install_beats_official() {
    let mut res = Resolution::default();
    let report = DbReport {
        installed: true,
        official: Some(OfficialRecord {
            name: String::from("glibc"),
            deps: vec![String::from("linux-api-headers")],
        }),
    };
    let step = resolve_decide(&mut res, String::from("glibc"), report);
    assert!(matches!(step, NextStep::Satisfied));
    assert_eq!(res.satisfied, vec![String::from("glibc")]);
    assert!(res.to_install.is_empty());
}

#[test]
fn official_name_is_canonicalized() {
    let mut res = Resolution::default();
    let report = DbReport {
        installed: false,
        official: Some(OfficialRecord {
            name: String::from("openssl"),
            deps: vec![String::from("zlib"), String::from("glibc")],
        }),
    };
    let step = resolve_decide(&mut res, String::from("libssl"), report);
    match step {
        NextStep::Install { parent, deps } => {
            assert_eq!(parent, "openssl");
            assert_eq!(deps, vec![String::from("zlib"), String::from("glibc")]);
        }
        _ => panic!("expected an install step"),
    }
    assert_eq!(res.to_install[0].0, "openssl");
    assert!(!res.seen("libssl"));
    assert!(res.seen("openssl"));
}

#[test]
fn unknown_name_goes_to_build() {
    let mut res = Resolution::default();
    let report = DbReport { installed: false, official: None };
    let step = resolve_decide(&mut res, String::from("paru"), report);
    assert!(matches!(step, NextStep::Build));
    assert!(!res.seen("paru"));
}

#[test]
fn two_branch_failures_are_both_reported() {
    let results: Vec<Result<(), Error>> = vec![
        Err(Error::DoesntExist(String::from("a"))),
        Err(Error::Faur(String::from("timeout"))),
    ];
    match combine_errors(results) {
        Err(Error::Resolutions(es)) => {
            assert_eq!(es.len(), 2);
            assert!(es.contains(&Error::DoesntExist(String::from("a"))));
            assert!(es.contains(&Error::Faur(String::from("timeout"))));
        }
        _ => panic!("expected an aggregated failure"),
    }
}

#[test]
fn mixed_outcomes_keep_only_the_errors() {
    let results: Vec<Result<(), Error>> = vec![
        Ok(()),
        Err(Error::DoesntExistWithParent(String::from("parent"), String::from("dep"))),
        Ok(()),
    ];
    match combine_errors(results) {
        Err(Error::Resolutions(es)) => {
            assert_eq!(
                es,
                vec![Error::DoesntExistWithParent(String::from("parent"), String::from("dep"))]
            );
        }
        _ => panic!("expected an aggregated failure"),
    }
}

#[test]
fn all_successes_aggregate_to_success() {
    let results: Vec<Result<(), Error>> = vec![Ok(()), Ok(()), Ok(())];
    assert!(combine_errors(results).is_ok());
    let empty: Vec<Result<(), Error>> = vec![];
    assert!(combine_errors(empty).is_ok());
}

#[test]
fn existing_tree_wins_without_network() {
    let r = pull_or_clone(true, Ok(vec![]), vec![], None, "paru");
    assert!(matches!(r, Ok(CloneSource::Local)));
}

#[test]
fn direct_fetch_names_the_base() {
    let rec = RemoteRecord {
        name: String::from("paru-bin"),
        package_base: String::from("paru-bin"),
        provides: vec![String::from("paru")],
    };
    let r = pull_or_clone(false, Ok(vec![rec]), vec![], None, "paru-bin");
    match r {
        Ok(CloneSource::Base(b)) => assert_eq!(b, "paru-bin"),
        _ => panic!("expected a base to clone"),
    }
}

#[test]
fn search_fallback_takes_first_provider() {
    let other = RemoteRecord {
        name: String::from("unrelated"),
        package_base: String::from("unrelated"),
        provides: vec![],
    };
    let provider = RemoteRecord {
        name: String::from("paru-git"),
        package_base: String::from("paru-git"),
        provides: vec![String::from("paru")],
    };
    let second = RemoteRecord {
        name: String::from("paru-bin"),
        package_base: String::from("paru-bin"),
        provides: vec![String::from("paru")],
    };
    let r = pull_or_clone(false, Ok(vec![]), vec![other, provider, second], None, "paru");
    match r {
        Ok(CloneSource::Base(b)) => assert_eq!(b, "paru-git"),
        _ => panic!("expected a base to clone"),
    }
}

#[test]
fn unknown_package_reports_doesnt_exist() {
    let r = pull_or_clone(false, Ok(vec![]), vec![], None, "nonsense");
    assert_eq!(r.unwrap_err(), Error::DoesntExist(String::from("nonsense")));
}

#[test]
fn unknown_dependency_names_its_parent() {
    let r = pull_or_clone(false, Ok(vec![]), vec![], Some(String::from("paru")), "nonsense");
    assert_eq!(
        r.unwrap_err(),
        Error::DoesntExistWithParent(String::from("paru"), String::from("nonsense"))
    );
}

#[test]
fn fetch_failure_is_reported() {
    let r = pull_or_clone(false, Err(String::from("connection refused")), vec![], None, "paru");
    assert_eq!(r.unwrap_err(), Error::Faur(String::from("connection refused")));
}

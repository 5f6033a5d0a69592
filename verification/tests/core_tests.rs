use supply_chain::classify::classify;
use supply_chain::filter::extract_non_dev_dependencies;
use supply_chain::filter::sourced_dependencies;
use supply_chain::names::comma_separated_list;
use supply_chain::names::crate_names_from_source;
use supply_chain::reqs::Dep;
use supply_chain::DepKind;
use supply_chain::Dependency;
use supply_chain::Package;
use supply_chain::PackageGraph;
use supply_chain::PkgSource;
use supply_chain::SourcedPackage;

const CRATES_IO: &str = "registry+https://github.com/rust-lang/crates.io-index";

fn dep(name: &str, req: &str, kind: DepKind) -> Dependency {
    Dependency {
        name: name.to_owned(),
        req: req.to_owned(),
        kind,
    }
}

fn pkg(id: &str, name: &str, version: &str, origin: Option<&str>, deps: Vec<Dependency>) -> Package {
    Package {
        id: id.to_owned(),
        name: name.to_owned(),
        version: version.to_owned(),
        origin: origin.map(|o| o.to_owned()),
        dependencies: deps,
    }
}

fn ids_of(v: &[SourcedPackage]) -> Vec<String> {
    let mut ids: Vec<String> = v.iter().map(|p| p.package.id.clone()).collect();
    ids.sort();
    ids
}

#[test]
fn classify_is_total_and_ordered() {
    let g = PackageGraph {
        packages: vec![
            pkg("a 1.0.0", "a", "1.0.0", None, vec![]),
            pkg("b 1.0.0", "b", "1.0.0", Some(CRATES_IO), vec![]),
            pkg("c 1.0.0", "c", "1.0.0", Some("git+https://example.invalid/c"), vec![]),
        ],
        workspace_members: vec!["a 1.0.0".to_owned()],
    };
    let r = classify(&g);
    assert_eq!(r.len(), 3);
    assert_eq!(r[0].source, PkgSource::Local);
    assert_eq!(r[1].source, PkgSource::CratesIo);
    assert_eq!(r[2].source, PkgSource::Foreign);
    assert_eq!(r[0].package.id, "a 1.0.0");
    assert_eq!(r[1].package.id, "b 1.0.0");
    assert_eq!(r[2].package.id, "c 1.0.0");
}

#[test]
fn workspace_member_beats_registry_origin() {
    // A workspace member whose origin locator names crates.io is still
    // Local: the workspace pass has final precedence.
    let g = PackageGraph {
        packages: vec![pkg("a 1.0.0", "a", "1.0.0", Some(CRATES_IO), vec![])],
        workspace_members: vec!["a 1.0.0".to_owned()],
    };
    let r = classify(&g);
    assert_eq!(r[0].source, PkgSource::Local);
}

#[test]
fn missing_origin_is_foreign_unless_local() {
    let g = PackageGraph {
        packages: vec![pkg("p 0.1.0", "p", "0.1.0", None, vec![])],
        workspace_members: vec![],
    };
    let r = classify(&g);
    assert_eq!(r[0].source, PkgSource::Foreign);
}

#[test]
fn requirement_matching_uses_semver_ranges() {
    let d = Dep {
        name: "b".to_owned(),
        req: "^1.0".to_owned(),
    };
    let inside = pkg("b 1.5.0", "b", "1.5.0", None, vec![]);
    let outside = pkg("b 2.0.0", "b", "2.0.0", None, vec![]);
    let other_name = pkg("c 1.0.0", "c", "1.0.0", None, vec![]);
    assert!(d.matches(&inside));
    assert!(!d.matches(&outside));
    assert!(!d.matches(&other_name));
}

#[test]
fn unparsable_requirement_matches_nothing() {
    let d = Dep {
        name: "b".to_owned(),
        req: "not a requirement".to_owned(),
    };
    let candidate = pkg("b 1.0.0", "b", "1.0.0", None, vec![]);
    assert!(!d.matches(&candidate));
}

#[test]
fn dev_only_dependency_is_excluded() {
    // Local A -> (normal) B; B -> (dev) C: the filter keeps A and B,
    // and C is dropped because only a Development edge leads to it.
    let g = PackageGraph {
        packages: vec![
            pkg("a 1.0.0", "a", "1.0.0", None, vec![dep("b", "^1.0", DepKind::Normal)]),
            pkg(
                "b 1.0.0",
                "b",
                "1.0.0",
                Some(CRATES_IO),
                vec![dep("c", "^1.0", DepKind::Development)],
            ),
            pkg("c 1.0.0", "c", "1.0.0", Some(CRATES_IO), vec![]),
        ],
        workspace_members: vec!["a 1.0.0".to_owned()],
    };
    let r = sourced_dependencies(&g, true);
    assert_eq!(ids_of(&r), vec!["a 1.0.0".to_owned(), "b 1.0.0".to_owned()]);
}

#[test]
fn build_edges_propagate_reachability() {
    let g = PackageGraph {
        packages: vec![
            pkg("a 1.0.0", "a", "1.0.0", None, vec![dep("b", "^1.0", DepKind::Build)]),
            pkg("b 1.0.0", "b", "1.0.0", Some(CRATES_IO), vec![]),
        ],
        workspace_members: vec!["a 1.0.0".to_owned()],
    };
    let r = sourced_dependencies(&g, true);
    assert_eq!(ids_of(&r), vec!["a 1.0.0".to_owned(), "b 1.0.0".to_owned()]);
}

#[test]
fn ambiguous_names_are_over_approximated() {
    // Two packages named "foo", same version, different origins: the
    // filter admits both, since matching never consults the origin.
    let g = PackageGraph {
        packages: vec![
            pkg("a 1.0.0", "a", "1.0.0", None, vec![dep("foo", "^1.0", DepKind::Normal)]),
            pkg("foo 1.0.0 (one)", "foo", "1.0.0", Some("git+https://one.invalid/foo"), vec![]),
            pkg("foo 1.0.0 (two)", "foo", "1.0.0", Some("git+https://two.invalid/foo"), vec![]),
        ],
        workspace_members: vec!["a 1.0.0".to_owned()],
    };
    let r = sourced_dependencies(&g, true);
    assert_eq!(
        ids_of(&r),
        vec![
            "a 1.0.0".to_owned(),
            "foo 1.0.0 (one)".to_owned(),
            "foo 1.0.0 (two)".to_owned()
        ]
    );
}

#[test]
fn cyclic_dependencies_terminate_and_keep_each_once() {
    let g = PackageGraph {
        packages: vec![
            pkg("a 1.0.0", "a", "1.0.0", None, vec![dep("b", "^1.0", DepKind::Normal)]),
            pkg("b 1.0.0", "b", "1.0.0", Some(CRATES_IO), vec![dep("a", "^1.0", DepKind::Normal)]),
        ],
        workspace_members: vec!["a 1.0.0".to_owned()],
    };
    let r = sourced_dependencies(&g, true);
    assert_eq!(ids_of(&r), vec!["a 1.0.0".to_owned(), "b 1.0.0".to_owned()]);
}

#[test]
fn self_referential_package_is_kept_once() {
    let g = PackageGraph {
        packages: vec![pkg(
            "a 1.0.0",
            "a",
            "1.0.0",
            None,
            vec![dep("a", "^1.0", DepKind::Normal)],
        )],
        workspace_members: vec!["a 1.0.0".to_owned()],
    };
    let r = sourced_dependencies(&g, true);
    assert_eq!(ids_of(&r), vec!["a 1.0.0".to_owned()]);
}

#[test]
fn filter_is_idempotent_on_a_concrete_graph() {
    let g = PackageGraph {
        packages: vec![
            pkg("a 1.0.0", "a", "1.0.0", None, vec![dep("b", "^1.0", DepKind::Normal)]),
            pkg("b 1.0.0", "b", "1.0.0", Some(CRATES_IO), vec![dep("c", "^1.0", DepKind::Development)]),
            pkg("c 1.0.0", "c", "1.0.0", Some(CRATES_IO), vec![]),
        ],
        workspace_members: vec!["a 1.0.0".to_owned()],
    };
    let once = sourced_dependencies(&g, true);
    let twice = extract_non_dev_dependencies(&once);
    assert_eq!(ids_of(&once), ids_of(&twice));
}

#[test]
fn unfiltered_run_keeps_every_package() {
    let g = PackageGraph {
        packages: vec![
            pkg("a 1.0.0", "a", "1.0.0", None, vec![]),
            pkg("b 1.0.0", "b", "1.0.0", Some(CRATES_IO), vec![]),
        ],
        workspace_members: vec!["a 1.0.0".to_owned()],
    };
    let r = sourced_dependencies(&g, false);
    assert_eq!(ids_of(&r), vec!["a 1.0.0".to_owned(), "b 1.0.0".to_owned()]);
}

#[test]
fn empty_graph_filters_to_nothing() {
    let g = PackageGraph {
        packages: vec![],
        workspace_members: vec![],
    };
    let r = sourced_dependencies(&g, true);
    assert!(r.is_empty());
}

#[test]
fn name_lists_are_sorted_and_deduplicated() {
    let crates = vec![
        SourcedPackage {
            source: PkgSource::Foreign,
            package: pkg("zeta 1.0.0", "zeta", "1.0.0", None, vec![]),
        },
        SourcedPackage {
            source: PkgSource::Foreign,
            package: pkg("alpha 1.0.0", "alpha", "1.0.0", None, vec![]),
        },
        SourcedPackage {
            source: PkgSource::Foreign,
            package: pkg("alpha 2.0.0", "alpha", "2.0.0", None, vec![]),
        },
    ];
    let names = crate_names_from_source(&crates, PkgSource::Foreign);
    assert_eq!(names, vec!["alpha".to_owned(), "zeta".to_owned()]);
}

#[test]
fn name_list_filters_by_classification() {
    let crates = vec![
        SourcedPackage {
            source: PkgSource::Local,
            package: pkg("mine 1.0.0", "mine", "1.0.0", None, vec![]),
        },
        SourcedPackage {
            source: PkgSource::CratesIo,
            package: pkg("theirs 1.0.0", "theirs", "1.0.0", Some(CRATES_IO), vec![]),
        },
    ];
    let local = crate_names_from_source(&crates, PkgSource::Local);
    let registry = crate_names_from_source(&crates, PkgSource::CratesIo);
    let foreign = crate_names_from_source(&crates, PkgSource::Foreign);
    assert_eq!(local, vec!["mine".to_owned()]);
    assert_eq!(registry, vec!["theirs".to_owned()]);
    assert!(foreign.is_empty());
}

#[test]
fn comma_separated_list_joins_names() {
    let list = vec!["a".to_owned(), "b".to_owned(), "c".to_owned()];
    assert_eq!(comma_separated_list(&list), "a, b, c");
}

#[test]
fn comma_separated_list_of_one_has_no_separator() {
    let list = vec!["only".to_owned()];
    assert_eq!(comma_separated_list(&list), "only");
}

#[test]
fn comma_separated_list_of_nothing_is_empty() {
    let list: Vec<String> = vec![];
    assert_eq!(comma_separated_list(&list), "");
}

use dep_audit::aggregate::dependency_map;
use dep_audit::depmap::DependencyEntry;
use dep_audit::detect::conflicts;
use dep_audit::detect::detect_dupes;
use dep_audit::detect::normalize_deps;
use dep_audit::manifest::extract;
use dep_audit::manifest::Dependency;
use dep_audit::manifest::MemberManifest;
use dep_audit::schema::check_workspace;
use dep_audit::schema::RootManifest;
use dep_audit::schema::SchemaError;
use dep_audit::schema::WorkspaceSection;
use dep_audit::version::normalize_version;
use dep_audit::version::VersionSpec;

fn manifest(name: &str, deps: Option<Vec<(&str, VersionSpec)>>) -> MemberManifest {
    MemberManifest {
        package_name: name.to_string(),
        package_version: "0.1.0".to_string(),
        dependencies: deps.map(|ds| {
            ds.into_iter()
                .map(|(n, v)| Dependency { name: n.to_string(), requested: v })
                .collect()
        }),
    }
}

fn bare(v: &str) -> VersionSpec {
    VersionSpec::Bare(v.to_string())
}

fn fixture_members() -> Vec<(String, MemberManifest)> {
    let crate1 = manifest(
        "crate1",
        Some(vec![
            ("serde", bare("1.0")),
            ("toml", bare("0.4")),
            ("internal_project", bare("0.1")),
        ]),
    );
    let crate2 = manifest(
        "crate2",
        Some(vec![("serde", bare("1.1")), ("toml", bare("0.5"))]),
    );
    vec![
        ("fixture/crate1.toml".to_string(), crate1),
        ("fixture/crate2.toml".to_string(), crate2),
    ]
}

#[test]
fn test_workspace_parsing() {
    let root = RootManifest {
        workspace: Some(WorkspaceSection {
            members: Some(vec![
                "awesome_project".to_string(),
                "crate1".to_string(),
                "crate2".to_string(),
                "other_project".to_string(),
            ]),
        }),
    };
    let members = check_workspace(root).unwrap();

    assert_eq!(4, members.len());
    assert_eq!("awesome_project", members.first().unwrap());
}

#[test]
fn test_dependency_map() {
    let tomls = fixture_members();
    let dm = dependency_map(&tomls);

    let serde = dm.get("serde").unwrap();
    assert_eq!(2, serde.len());

    let internal_project = dm.get("internal_project").unwrap();
    assert_eq!(1, internal_project.len());
}

#[test]
fn test_dupe_detection() {
    let tomls = fixture_members();
    let dm = dependency_map(&tomls);

    let repeating_deps = detect_dupes(dm);

    assert!(repeating_deps.contains_key("serde"));
    assert!(repeating_deps.contains_key("toml"));
    assert!(!repeating_deps.contains_key("unknown_project"));
}

#[test]
fn test_empty_tables_report_nothing() {
    let members = vec![
        ("a".to_string(), manifest("a", Some(vec![]))),
        ("b".to_string(), manifest("b", None)),
    ];
    let dm = dependency_map(&members);
    assert_eq!(0, dm.len());
    let reports = conflicts(dependency_map(&members));
    assert_eq!(0, reports.len());
}

#[test]
fn test_single_requester_never_reported() {
    let members = vec![
        ("a".to_string(), manifest("a", Some(vec![("x", bare("1.0"))]))),
        ("b".to_string(), manifest("b", Some(vec![("y", bare("2.0"))]))),
    ];
    let dm = dependency_map(&members);
    let filtered = detect_dupes(dm);
    assert!(!filtered.contains_key("x"));
    assert!(!filtered.contains_key("y"));
    let reports = conflicts(dependency_map(&members));
    assert_eq!(0, reports.len());
}

#[test]
fn test_identical_requests_not_reported() {
    let members = vec![
        ("a".to_string(), manifest("a", Some(vec![("x", bare("1.0"))]))),
        ("b".to_string(), manifest("b", Some(vec![("x", bare("1.0"))]))),
    ];
    let dm = dependency_map(&members);
    assert_eq!(2, dm.get("x").unwrap().len());
    let reports = conflicts(dependency_map(&members));
    assert_eq!(0, reports.len());
}

#[test]
fn test_conflict_scenario() {
    let members = vec![
        ("a".to_string(), manifest("a", Some(vec![("x", bare("1.0"))]))),
        ("b".to_string(), manifest("b", Some(vec![("x", bare("2.0"))]))),
    ];
    let reports = conflicts(dependency_map(&members));

    assert_eq!(1, reports.len());
    let report = &reports[0];
    assert_eq!("x", report.name);
    assert_eq!(2, report.entries.len());
    assert_eq!("a", report.entries[0].project);
    assert_eq!("1.0", report.entries[0].version);
    assert_eq!("b", report.entries[1].project);
    assert_eq!("2.0", report.entries[1].version);
    assert_eq!(vec!["1.0".to_string(), "2.0".to_string()], report.versions);
}

#[test]
fn test_conflict_reported_once_with_all_requesters() {
    let members = vec![
        ("a".to_string(), manifest("a", Some(vec![("x", bare("1.0"))]))),
        ("b".to_string(), manifest("b", Some(vec![("x", bare("2.0"))]))),
        ("c".to_string(), manifest("c", Some(vec![("x", bare("1.0"))]))),
    ];
    let reports = conflicts(dependency_map(&members));

    assert_eq!(1, reports.len());
    let report = &reports[0];
    assert_eq!("x", report.name);
    assert_eq!(3, report.entries.len());
    assert_eq!("c", report.entries[2].project);
    assert_eq!(vec!["1.0".to_string(), "2.0".to_string()], report.versions);
}

#[test]
fn test_normalization_round_trip() {
    assert_eq!("1.0", normalize_version(&bare("1.0")));
    assert_eq!(
        "1.0",
        normalize_version(&VersionSpec::Table(Some("1.0".to_string())))
    );

    let members = vec![
        ("a".to_string(), manifest("a", Some(vec![("x", bare("1.0"))]))),
        (
            "b".to_string(),
            manifest(
                "b",
                Some(vec![("x", VersionSpec::Table(Some("1.0".to_string())))]),
            ),
        ),
    ];
    let reports = conflicts(dependency_map(&members));
    assert_eq!(0, reports.len());
}

#[test]
fn test_unsupported_shapes_normalize_to_empty() {
    assert_eq!("", normalize_version(&VersionSpec::Table(None)));
    assert_eq!("", normalize_version(&VersionSpec::Other));

    let members = vec![
        (
            "a".to_string(),
            manifest("a", Some(vec![("x", VersionSpec::Table(None))])),
        ),
        (
            "b".to_string(),
            manifest("b", Some(vec![("x", VersionSpec::Other)])),
        ),
    ];
    let reports = conflicts(dependency_map(&members));
    assert_eq!(0, reports.len());
}

#[test]
fn test_unspecified_conflicts_with_real_version() {
    let members = vec![
        (
            "a".to_string(),
            manifest("a", Some(vec![("x", VersionSpec::Table(None))])),
        ),
        ("b".to_string(), manifest("b", Some(vec![("x", bare("1.0"))]))),
    ];
    let reports = conflicts(dependency_map(&members));
    assert_eq!(1, reports.len());
    assert_eq!(vec!["".to_string(), "1.0".to_string()], reports[0].versions);
}

#[test]
fn test_missing_workspace_key() {
    let root = RootManifest { workspace: None };
    let r = check_workspace(root);
    assert!(matches!(r, Err(SchemaError::MissingWorkspace)));
}

#[test]
fn test_missing_members_key() {
    let root = RootManifest {
        workspace: Some(WorkspaceSection { members: None }),
    };
    let r = check_workspace(root);
    assert!(matches!(r, Err(SchemaError::MissingMembers)));
}

#[test]
fn test_extract_pairs() {
    let m = manifest(
        "m",
        Some(vec![
            ("a", bare("1.0")),
            ("b", VersionSpec::Table(Some("2.0".to_string()))),
            ("c", VersionSpec::Table(None)),
            ("d", VersionSpec::Other),
        ]),
    );
    let pairs = extract(&m);
    assert_eq!(4, pairs.len());
    assert_eq!(("a".to_string(), "1.0".to_string()), pairs[0]);
    assert_eq!(("b".to_string(), "2.0".to_string()), pairs[1]);
    assert_eq!(("c".to_string(), "".to_string()), pairs[2]);
    assert_eq!(("d".to_string(), "".to_string()), pairs[3]);

    let absent = manifest("n", None);
    assert_eq!(0, extract(&absent).len());
}

#[test]
fn test_normalize_deps_sorts_and_dedups() {
    let entry = |p: &str, v: &str| DependencyEntry {
        project: p.to_string(),
        version: v.to_string(),
    };
    let entries = vec![
        entry("a", "2.0"),
        entry("b", "1.0"),
        entry("c", "1.0"),
        entry("d", ""),
    ];
    let versions = normalize_deps(&entries);
    assert_eq!(
        vec!["".to_string(), "1.0".to_string(), "2.0".to_string()],
        versions
    );
}

#[test]
fn test_versions_sorted_lexicographically() {
    let members = vec![
        ("a".to_string(), manifest("a", Some(vec![("x", bare("0.2"))]))),
        ("b".to_string(), manifest("b", Some(vec![("x", bare("0.10"))]))),
        ("c".to_string(), manifest("c", Some(vec![("x", bare("0.2"))]))),
    ];
    let reports = conflicts(dependency_map(&members));
    assert_eq!(1, reports.len());
    assert_eq!(vec!["0.10".to_string(), "0.2".to_string()], reports[0].versions);
}

#[test]
fn test_empty_member_list() {
    let members: Vec<(String, MemberManifest)> = Vec::new();
    let dm = dependency_map(&members);
    assert_eq!(0, dm.len());
    let reports = conflicts(dependency_map(&members));
    assert_eq!(0, reports.len());
}

use crd_merge::{CrdError, CrdMerger, CustomResourceExt, ResourceDescriptor, VersionedSchema};

fn version(name: &str) -> VersionedSchema {
    VersionedSchema {
        name: name.to_string(),
        served: true,
        storage: false,
        schema: format!("schema of {}", name),
    }
}

fn descriptor(group: &str, kind: &str, versions: &[&str]) -> ResourceDescriptor {
    ResourceDescriptor {
        group: group.to_string(),
        kind: kind.to_string(),
        metadata: format!("names of {}", kind),
        versions: versions.iter().map(|v| version(v)).collect(),
    }
}

fn foo(v: &str) -> ResourceDescriptor {
    descriptor("x", "Foo", &[v])
}

fn names(d: &ResourceDescriptor) -> Vec<String> {
    d.versions.iter().map(|v| v.name.clone()).collect()
}

fn sorted_names(d: &ResourceDescriptor) -> Vec<String> {
    let mut all = names(d);
    all.sort();
    all.dedup();
    all
}

fn split(d: &ResourceDescriptor) -> Vec<ResourceDescriptor> {
    d.versions
        .iter()
        .map(|v| ResourceDescriptor {
            group: d.group.clone(),
            kind: d.kind.clone(),
            metadata: d.metadata.clone(),
            versions: vec![v.clone()],
        })
        .collect()
}

#[test]
fn first_descriptor_is_root_by_default() {
    let merged = CrdMerger::new(vec![foo("v1"), foo("v2")]).merge().unwrap();
    assert_eq!(merged.group, "x");
    assert_eq!(merged.kind, "Foo");
    assert_eq!(names(&merged), vec!["v1", "v2"]);
}

#[test]
fn requested_root_comes_first() {
    let merged = CrdMerger::new(vec![foo("v1"), foo("v2")]).root("v2").merge().unwrap();
    assert_eq!(merged.group, "x");
    assert_eq!(merged.kind, "Foo");
    assert_eq!(names(&merged), vec!["v2", "v1"]);
}

#[test]
fn second_descriptor_of_root_version_is_dropped() {
    let merged = CrdMerger::new(vec![foo("v1"), foo("v1"), foo("v2")]).merge().unwrap();
    assert_eq!(names(&merged), vec!["v1", "v2"]);
}

#[test]
fn root_version_is_dropped_wherever_it_repeats() {
    let merged =
        CrdMerger::new(vec![foo("v1"), foo("v2"), foo("v1"), foo("v3"), foo("v1")]).merge().unwrap();
    assert_eq!(names(&merged), vec!["v1", "v2", "v3"]);
}

#[test]
fn repeated_other_version_is_kept() {
    let merged = CrdMerger::new(vec![foo("v1"), foo("v2"), foo("v2")]).merge().unwrap();
    assert_eq!(names(&merged), vec!["v1", "v2", "v2"]);
}

#[test]
fn single_descriptor_merges_to_itself() {
    let merged = CrdMerger::new(vec![foo("v1")]).merge().unwrap();
    assert_eq!(merged, foo("v1"));
}

#[test]
fn merged_versions_carry_their_contents() {
    let mut a = foo("v1");
    a.versions[0].storage = true;
    a.versions[0].schema = "first".to_string();
    let mut b = foo("v2");
    b.versions[0].served = false;
    b.versions[0].schema = "second".to_string();
    let merged = CrdMerger::new(vec![a, b]).merge().unwrap();
    assert_eq!(
        merged.versions,
        vec![
            VersionedSchema {
                name: "v1".to_string(),
                served: true,
                storage: true,
                schema: "first".to_string(),
            },
            VersionedSchema {
                name: "v2".to_string(),
                served: false,
                storage: false,
                schema: "second".to_string(),
            },
        ]
    );
}

#[test]
fn metadata_is_the_root_descriptor_s() {
    let mut a = foo("v1");
    a.metadata = "from the first".to_string();
    let mut b = foo("v2");
    b.metadata = "from the second".to_string();
    let mut c = foo("v2");
    c.metadata = "from the third".to_string();
    c.versions[0].schema = "third".to_string();
    let merged = CrdMerger::new(vec![a, b, c]).root("v2").merge().unwrap();
    assert_eq!(merged.metadata, "from the second");
    assert_eq!(names(&merged), vec!["v2", "v1"]);
    assert_eq!(merged.versions[0].schema, "schema of v2");
}

#[test]
fn empty_list_is_refused() {
    assert_eq!(CrdMerger::new(Vec::new()).merge(), Err(CrdError::NoDescriptors));
}

#[test]
fn empty_list_is_refused_whatever_the_selectors() {
    assert_eq!(CrdMerger::new(Vec::new()).root("v1").merge(), Err(CrdError::NoDescriptors));
    assert_eq!(CrdMerger::new(Vec::new()).served("v1").merge(), Err(CrdError::NoDescriptors));
    assert_eq!(
        CrdMerger::new(Vec::new()).served("v1").root("v2").merge(),
        Err(CrdError::NoDescriptors)
    );
}

#[test]
fn two_versions_in_one_descriptor_are_refused() {
    let crds = vec![foo("v1"), descriptor("x", "Foo", &["v2", "v3"]), foo("v4")];
    assert_eq!(CrdMerger::new(crds).merge(), Err(CrdError::TooManyVersions));
}

#[test]
fn two_versions_are_refused_before_the_root_is_looked_for() {
    let crds = vec![foo("v1"), descriptor("y", "Bar", &["v2", "v3"])];
    assert_eq!(CrdMerger::new(crds).root("v9").merge(), Err(CrdError::TooManyVersions));
}

#[test]
fn descriptor_without_version_is_refused() {
    let crds = vec![foo("v1"), descriptor("x", "Foo", &[])];
    assert_eq!(CrdMerger::new(crds).merge(), Err(CrdError::TooManyVersions));
}

#[test]
fn missing_root_is_named() {
    let crds = vec![foo("v1"), foo("v2")];
    assert_eq!(
        CrdMerger::new(crds).root("v9").merge(),
        Err(CrdError::MissingRootVersion("v9".to_string()))
    );
}

#[test]
fn missing_root_is_reported_before_a_mismatch() {
    let crds = vec![foo("v1"), descriptor("y", "Bar", &["v2"])];
    assert_eq!(
        CrdMerger::new(crds).root("").merge(),
        Err(CrdError::MissingRootVersion(String::new()))
    );
}

#[test]
fn different_groups_are_refused() {
    let crds = vec![descriptor("x", "Foo", &["v1"]), descriptor("y", "Foo", &["v2"])];
    assert_eq!(CrdMerger::new(crds).merge(), Err(CrdError::ApiGroupMismatch));
}

#[test]
fn different_kinds_are_refused() {
    let crds = vec![descriptor("x", "Foo", &["v1"]), descriptor("x", "Bar", &["v2"])];
    assert_eq!(CrdMerger::new(crds).merge(), Err(CrdError::KindMismatch));
}

#[test]
fn mismatch_is_measured_against_the_requested_root() {
    let crds = vec![
        descriptor("x", "Foo", &["v1"]),
        descriptor("x", "Bar", &["v2"]),
        descriptor("x", "Bar", &["v3"]),
    ];
    assert_eq!(CrdMerger::new(crds).root("v3").merge(), Err(CrdError::KindMismatch));
}

#[test]
fn group_is_reported_before_kind_in_one_descriptor() {
    let crds = vec![descriptor("x", "Foo", &["v1"]), descriptor("y", "Bar", &["v2"])];
    assert_eq!(CrdMerger::new(crds).merge(), Err(CrdError::ApiGroupMismatch));
}

#[test]
fn first_disagreeing_descriptor_decides_the_error() {
    let crds = vec![
        descriptor("x", "Foo", &["v1"]),
        descriptor("x", "Bar", &["v2"]),
        descriptor("y", "Foo", &["v3"]),
    ];
    assert_eq!(CrdMerger::new(crds).merge(), Err(CrdError::KindMismatch));
}

#[test]
fn mismatch_of_a_dropped_descriptor_is_still_reported() {
    let crds = vec![descriptor("x", "Foo", &["v1"]), descriptor("y", "Foo", &["v1"])];
    assert_eq!(CrdMerger::new(crds).merge(), Err(CrdError::ApiGroupMismatch));
}

#[test]
fn served_selector_changes_nothing() {
    let plain = CrdMerger::new(vec![foo("v1"), foo("v2")]).merge();
    let served = CrdMerger::new(vec![foo("v1"), foo("v2")]).served("v2").merge();
    let absent = CrdMerger::new(vec![foo("v1"), foo("v2")]).served("v9").merge();
    assert_eq!(plain, served);
    assert_eq!(plain, absent);
    assert_eq!(names(&plain.unwrap()), vec!["v1", "v2"]);
}

#[test]
fn later_root_selector_replaces_the_earlier() {
    let merged =
        CrdMerger::new(vec![foo("v1"), foo("v2"), foo("v3")]).root("v2").root("v3").merge().unwrap();
    assert_eq!(names(&merged), vec!["v3", "v1", "v2"]);
}

#[test]
fn merging_again_keeps_the_set_of_names() {
    let merged = CrdMerger::new(vec![foo("v1"), foo("v2"), foo("v3"), foo("v2")])
        .root("v3")
        .merge()
        .unwrap();
    assert_eq!(names(&merged), vec!["v3", "v1", "v2", "v2"]);
    let again = CrdMerger::new(split(&merged)).root("v3").merge().unwrap();
    assert_eq!(sorted_names(&again), sorted_names(&merged));
    assert_eq!(sorted_names(&again), vec!["v1", "v2", "v3"]);
}

#[test]
fn merging_again_without_root_keeps_the_set_of_names() {
    let merged = CrdMerger::new(vec![foo("v2"), foo("v1"), foo("v2")]).merge().unwrap();
    let again = CrdMerger::new(split(&merged)).merge().unwrap();
    assert_eq!(names(&again), vec!["v2", "v1"]);
    assert_eq!(sorted_names(&again), sorted_names(&merged));
}

#[test]
fn distinct_names_stay_distinct() {
    let merged =
        CrdMerger::new(vec![foo("v1"), foo("v2"), foo("v1"), foo("v3")]).merge().unwrap();
    let all = names(&merged);
    assert_eq!(all.len(), sorted_names(&merged).len());
}

#[test]
fn clone_of_a_descriptor_is_equal_to_it() {
    let d = descriptor("x", "Foo", &["v1", "v2"]);
    assert_eq!(d.clone(), d);
    assert_eq!(d.versions[1].clone(), version("v2"));
}

struct Widget;

impl CustomResourceExt for Widget {
    fn crd() -> ResourceDescriptor {
        descriptor("example.com", "Widget", &["v1"])
    }

    fn crd_name() -> &'static str {
        "widgets.example.com"
    }

    fn shortnames() -> &'static [&'static str] {
        &["wd"]
    }
}

struct WidgetV2;

impl CustomResourceExt for WidgetV2 {
    fn crd() -> ResourceDescriptor {
        descriptor("example.com", "Widget", &["v2"])
    }

    fn crd_name() -> &'static str {
        "widgets.example.com"
    }

    fn shortnames() -> &'static [&'static str] {
        &[]
    }
}

#[test]
fn declared_descriptors_merge() {
    assert_eq!(Widget::crd_name(), WidgetV2::crd_name());
    assert_eq!(Widget::shortnames().to_vec(), vec!["wd"]);
    assert!(WidgetV2::shortnames().is_empty());
    let merged = CrdMerger::new(vec![Widget::crd(), WidgetV2::crd()]).root("v2").merge().unwrap();
    assert_eq!(merged.group, "example.com");
    assert_eq!(merged.kind, "Widget");
    assert_eq!(names(&merged), vec!["v2", "v1"]);
}

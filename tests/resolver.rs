use green::resolver::{
    classify_edge, find_override, resolve, select_version, EdgeAction, ModrinthApiDependency,
    ModrinthApiDependencyType, ModrinthApiFile, ModrinthApiVersion, ModrinthDepVersion, ModrinthVersion,
    OverrideTable, ResolveError, ResolvedJar,
};

fn file(name: &str, primary: bool) -> ModrinthApiFile {
    ModrinthApiFile {
        url: format!("https://cdn.example/{}", name),
        filename: name.to_string(),
        primary,
    }
}

fn dep(version_id: Option<&str>, project: &str, optional: bool) -> ModrinthApiDependency {
    ModrinthApiDependency {
        version_id: version_id.map(|v| v.to_string()),
        project_id: project.to_string(),
        dependency_type: if optional {
            ModrinthApiDependencyType::Optional
        } else {
            ModrinthApiDependencyType::Required
        },
    }
}

fn release(id: &str, jar: &str, deps: Vec<ModrinthApiDependency>) -> ModrinthApiVersion {
    ModrinthApiVersion {
        name: format!("{} release", id),
        id: id.to_string(),
        files: vec![file(&format!("{}-sources.jar", jar), false), file(jar, true)],
        dependencies: deps,
    }
}

fn names(jars: &[ResolvedJar]) -> Vec<String> {
    jars.iter().map(|j| j.filename.clone()).collect()
}

#[test]
fn concrete_dependency_comes_before_dependent() {
    let reg = vec![release("lib1", "lib.jar", vec![])];
    let root = release("root", "root.jar", vec![dep(Some("lib1"), "libproj", false)]);
    let r = resolve(&reg, &root, &OverrideTable::new(), None, 16).unwrap();
    assert_eq!(names(&r), vec!["lib.jar".to_string(), "root.jar".to_string()]);
    assert_eq!(r[1].url, "https://cdn.example/root.jar");
}

#[test]
fn optional_edge_is_never_resolved() {
    let reg = vec![release("opt1", "opt.jar", vec![])];
    let root = release("root", "root.jar", vec![dep(Some("opt1"), "optproj", true), dep(None, "other", true)]);
    let r = resolve(&reg, &root, &OverrideTable::new(), None, 16).unwrap();
    assert_eq!(names(&r), vec!["root.jar".to_string()]);
}

#[test]
fn optional_edge_ignores_overrides() {
    let mut table = OverrideTable::new();
    table.add(0, "optproj".to_string(), ModrinthDepVersion::VersionId("opt1".to_string()), None);
    let reg = vec![release("opt1", "opt.jar", vec![])];
    let root = release("root", "root.jar", vec![dep(None, "optproj", true)]);
    let r = resolve(&reg, &root, &table, Some(0), 16).unwrap();
    assert_eq!(names(&r), vec!["root.jar".to_string()]);
}

#[test]
fn ignored_dependency_is_left_out() {
    let mut table = OverrideTable::new();
    table.add(0, "big".to_string(), ModrinthDepVersion::Ignore(true), None);
    let root = release("root", "root.jar", vec![dep(None, "big", false)]);
    let r = resolve(&vec![], &root, &table, Some(0), 16).unwrap();
    assert_eq!(names(&r), vec!["root.jar".to_string()]);
}

#[test]
fn ignore_false_is_an_error() {
    let mut table = OverrideTable::new();
    table.add(0, "big".to_string(), ModrinthDepVersion::Ignore(false), None);
    let root = release("root", "root.jar", vec![dep(None, "big", false)]);
    let r = resolve(&vec![], &root, &table, Some(0), 16);
    assert_eq!(r, Err(ResolveError::IgnoreFalse { project_id: "big".to_string() }));
}

#[test]
fn missing_override_is_unresolved() {
    let reg = vec![release("lib1", "lib.jar", vec![])];
    let root = release("root", "root.jar", vec![dep(Some("lib1"), "libproj", false), dep(None, "fabric", false)]);
    let r = resolve(&reg, &root, &OverrideTable::new(), None, 16);
    assert_eq!(r, Err(ResolveError::Unresolved { project_id: "fabric".to_string() }));
}

#[test]
fn override_scope_follows_nesting() {
    let mut table = OverrideTable::new();
    table.add(0, "api".to_string(), ModrinthDepVersion::VersionId("api2".to_string()), Some(1));
    table.add(1, "core".to_string(), ModrinthDepVersion::VersionId("core3".to_string()), None);
    let reg = vec![
        release("api2", "api.jar", vec![dep(None, "core", false)]),
        release("core3", "core.jar", vec![]),
    ];
    let root = release("root", "root.jar", vec![dep(None, "api", false)]);
    let r = resolve(&reg, &root, &table, Some(0), 16).unwrap();
    assert_eq!(names(&r), vec!["core.jar".to_string(), "api.jar".to_string(), "root.jar".to_string()]);
    // the nested mapping is not visible at the top level
    let root2 = release("root", "root.jar", vec![dep(None, "core", false)]);
    assert_eq!(
        resolve(&reg, &root2, &table, Some(0), 16),
        Err(ResolveError::Unresolved { project_id: "core".to_string() })
    );
}

#[test]
fn concrete_edge_does_not_inherit_scope() {
    let mut table = OverrideTable::new();
    table.add(0, "core".to_string(), ModrinthDepVersion::VersionId("core3".to_string()), None);
    let reg = vec![release("api2", "api.jar", vec![dep(None, "core", false)]), release("core3", "core.jar", vec![])];
    let root = release("root", "root.jar", vec![dep(Some("api2"), "api", false)]);
    assert_eq!(
        resolve(&reg, &root, &table, Some(0), 16),
        Err(ResolveError::Unresolved { project_id: "core".to_string() })
    );
}

#[test]
fn missing_release_asks_for_fetch() {
    let root = release("root", "root.jar", vec![dep(Some("lib9"), "libproj", false)]);
    let r = resolve(&vec![], &root, &OverrideTable::new(), None, 16);
    assert_eq!(r, Err(ResolveError::NotFetched { version_id: "lib9".to_string() }));
}

#[test]
fn release_without_primary_file_fails() {
    let mut root = release("root", "root.jar", vec![]);
    root.files[1].primary = false;
    let r = resolve(&vec![], &root, &OverrideTable::new(), None, 16);
    assert_eq!(r, Err(ResolveError::NoPrimaryArtifact { version_id: "root".to_string() }));
}

#[test]
fn dependency_cycle_is_bounded() {
    let reg = vec![
        release("a1", "a.jar", vec![dep(Some("b1"), "b", false)]),
        release("b1", "b.jar", vec![dep(Some("a1"), "a", false)]),
    ];
    let r = resolve(&reg, &reg[0], &OverrideTable::new(), None, 5);
    assert!(matches!(r, Err(ResolveError::TooDeep { .. })));
}

#[test]
fn resolution_is_deterministic() {
    let mut table = OverrideTable::new();
    table.add(0, "api".to_string(), ModrinthDepVersion::VersionId("api2".to_string()), None);
    let reg = vec![release("api2", "api.jar", vec![]), release("lib1", "lib.jar", vec![])];
    let root = release("root", "root.jar", vec![dep(None, "api", false), dep(Some("lib1"), "lib", false)]);
    let a = resolve(&reg, &root, &table, Some(0), 16).unwrap();
    let b = resolve(&reg, &root, &table, Some(0), 16).unwrap();
    assert_eq!(a, b);
    assert_eq!(names(&a), vec!["api.jar".to_string(), "lib.jar".to_string(), "root.jar".to_string()]);
}

#[test]
fn edge_classification() {
    let mut table = OverrideTable::new();
    table.add(3, "x".to_string(), ModrinthDepVersion::VersionId("x7".to_string()), Some(4));
    assert_eq!(find_override(&table, Some(3), &"x".to_string()), Some(0));
    assert_eq!(find_override(&table, None, &"x".to_string()), None);
    assert_eq!(
        classify_edge(&dep(None, "x", false), &table, Some(3)),
        Ok(EdgeAction::Fetch { version_id: "x7".to_string(), scope: Some(4) })
    );
    assert_eq!(classify_edge(&dep(None, "x", true), &table, Some(3)), Ok(EdgeAction::Skip));
    assert!(dep(None, "x", true).optional());
    assert!(!dep(None, "x", false).optional());
}

#[test]
fn version_selection_by_name_and_id() {
    let versions = vec![release("v1", "a.jar", vec![]), release("v2", "b.jar", vec![])];
    assert_eq!(select_version(&versions, &ModrinthVersion::VersionId("v2".to_string())), Some(1));
    assert_eq!(select_version(&versions, &ModrinthVersion::Version("v1 release".to_string())), Some(0));
    assert_eq!(select_version(&versions, &ModrinthVersion::Version("v3 release".to_string())), None);
}

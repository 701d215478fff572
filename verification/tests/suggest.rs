use cargo_compatible::cli::SelectionArgs;
use cargo_compatible::compat::analyze_current_workspace;
use cargo_compatible::index::select_best_candidate;
use cargo_compatible::manifest_edit::{
    dependency_section_label, dependency_source, direct_dependency_constraints,
    suggestion_requests, suggestions_from_lookups,
};
use cargo_compatible::metadata::{select_packages, workspace_from_metadata};
use cargo_compatible::model::{
    DependencyKind, Metadata, MetadataDependency, MetadataPackage, RegistryCandidate,
    ResolveNode, ResolveReport, WorkspaceData,
};
use cargo_compatible::version::{parse_version, Version};

const APP: &str = "path+file:///ws#app@0.1.0";
const DEMO: &str = "registry+https://github.com/rust-lang/crates.io-index#compat-demo@1.2.0";
const REGISTRY: &str = "registry+https://github.com/rust-lang/crates.io-index";

fn version(text: &str) -> Version {
    parse_version(text).unwrap()
}

fn demo_dependency(kind: DependencyKind) -> MetadataDependency {
    MetadataDependency {
        name: "compat-demo".to_string(),
        rename: None,
        req: "=1.2.0".to_string(),
        kind,
        source: Some(REGISTRY.to_string()),
        registry: None,
        path: None,
        features: Vec::new(),
        uses_default_features: true,
        optional: false,
    }
}

fn workspace() -> WorkspaceData {
    let metadata = Metadata {
        packages: vec![
            MetadataPackage {
                id: APP.to_string(),
                name: "app".to_string(),
                version: version("0.1.0"),
                source: None,
                manifest_path: "/ws/Cargo.toml".to_string(),
                rust_version: Some(version("1.60.0")),
                dependencies: vec![demo_dependency(DependencyKind::Normal), demo_dependency(DependencyKind::Development)],
            },
            MetadataPackage {
                id: DEMO.to_string(),
                name: "compat-demo".to_string(),
                version: version("1.2.0"),
                source: Some(REGISTRY.to_string()),
                manifest_path: "/registry/compat-demo-1.2.0/Cargo.toml".to_string(),
                rust_version: Some(version("1.70.0")),
                dependencies: Vec::new(),
            },
        ],
        workspace_members: vec![APP.to_string()],
        root_package: Some(APP.to_string()),
        resolve: Some(vec![
            ResolveNode { id: APP.to_string(), deps: vec![DEMO.to_string()] },
            ResolveNode { id: DEMO.to_string(), deps: Vec::new() },
        ]),
    };
    workspace_from_metadata(metadata, "/ws".to_string(), "/ws/Cargo.toml".to_string(), None).unwrap()
}

fn candidate(text: &str, rust_version: &str) -> RegistryCandidate {
    RegistryCandidate {
        version: version(text),
        rust_version: Some(version(rust_version)),
        yanked: false,
        features: Vec::new(),
    }
}

#[test]
fn manifest_constraints_come_from_normal_dependencies() {
    let ws = workspace();
    let constraints =
        direct_dependency_constraints(&ws.metadata, &APP.to_string(), &"/ws/Cargo.toml".to_string()).unwrap();
    assert_eq!(constraints.len(), 1);
    assert_eq!(constraints[0].dependency_key, "compat-demo");
    assert_eq!(constraints[0].requirement, "=1.2.0");
    assert_eq!(constraints[0].section, "dependencies");
    assert_eq!(constraints[0].source.as_deref(), Some(REGISTRY));
    let error = direct_dependency_constraints(&ws.metadata, &"missing".to_string(), &"/ws/Cargo.toml".to_string())
        .unwrap_err();
    assert_eq!(error.message(), "selected package `missing` missing from metadata");
}

#[test]
fn section_and_source_labels() {
    assert_eq!(dependency_section_label(DependencyKind::Build), "build-dependencies");
    assert_eq!(dependency_section_label(DependencyKind::Development), "dev-dependencies");
    assert_eq!(dependency_section_label(DependencyKind::Unknown), "dependencies");
    let mut dep = demo_dependency(DependencyKind::Normal);
    dep.source = None;
    assert_eq!(dependency_source(&dep).as_deref(), Some(REGISTRY));
    dep.registry = Some("https://example.invalid/index".to_string());
    assert_eq!(dependency_source(&dep).as_deref(), Some("registry+https://example.invalid/index"));
    dep.path = Some("/ws/demo".to_string());
    assert_eq!(dependency_source(&dep), None);
}

#[test]
fn suggest_manifest_proposes_the_compatible_release() {
    let ws = workspace();
    let args = SelectionArgs { manifest_path: None, rust_version: None, workspace: false, package: Vec::new() };
    let selection = select_packages(&ws, &args).unwrap();
    let current = analyze_current_workspace(&ws, &selection).unwrap();
    assert_eq!(current.incompatible_packages.len(), 1);
    let resolution = ResolveReport {
        current: analyze_current_workspace(&ws, &selection).unwrap(),
        candidate: current,
        version_changes: Vec::new(),
        improved_packages: Vec::new(),
        remaining_blockers: Vec::new(),
        candidate_lockfile: None,
        notes: Vec::new(),
    };
    let requests = suggestion_requests(&ws, &selection, &resolution).unwrap();
    assert_eq!(requests.len(), 1);
    let releases = vec![
        candidate("1.0.0", "1.56.0"),
        candidate("1.1.0", "1.60.0"),
        candidate("1.2.0", "1.70.0"),
    ];
    let found = requests
        .iter()
        .map(|request| select_best_candidate(&releases, &request.constraint, false).unwrap())
        .collect::<Vec<_>>();
    let suggestions = suggestions_from_lookups(&selection, &resolution, &requests, &found).unwrap();
    assert_eq!(suggestions.len(), 1);
    let suggestion = &suggestions[0];
    assert_eq!(suggestion.dependency_name, "compat-demo");
    assert_eq!(suggestion.current_requirement, "=1.2.0");
    assert_eq!(suggestion.suggested_requirement, "1.1.0");
    assert_eq!(suggestion.target_rust_version, "1.60");
    assert_eq!(
        suggestion.reason,
        "highest compatible non-yanked release with requested features for target 1.60"
    );
}

#[test]
fn no_candidate_problem_means_no_requests() {
    let ws = workspace();
    let args = SelectionArgs { manifest_path: None, rust_version: Some("1.70".to_string()), workspace: false, package: Vec::new() };
    let selection = select_packages(&ws, &args).unwrap();
    let report = analyze_current_workspace(&ws, &selection).unwrap();
    assert!(report.incompatible_packages.is_empty());
    let resolution = ResolveReport {
        current: analyze_current_workspace(&ws, &selection).unwrap(),
        candidate: report,
        version_changes: Vec::new(),
        improved_packages: Vec::new(),
        remaining_blockers: Vec::new(),
        candidate_lockfile: None,
        notes: Vec::new(),
    };
    assert!(suggestion_requests(&ws, &selection, &resolution).unwrap().is_empty());
}

#[test]
fn path_dependencies_get_no_registry_lookup() {
    let mut md_ws = workspace();
    // The member's dependency and the resolved package both become path ones.
    md_ws.metadata.packages[0].dependencies[0].source = None;
    md_ws.metadata.packages[0].dependencies[0].path = Some("/ws/compat-demo".to_string());
    md_ws.packages_by_id[1].source = None;
    md_ws.packages_by_id[1].source_kind = cargo_compatible::model::PackageSourceKind::Path;
    let args = SelectionArgs { manifest_path: None, rust_version: None, workspace: false, package: Vec::new() };
    let selection = select_packages(&md_ws, &args).unwrap();
    let current = analyze_current_workspace(&md_ws, &selection).unwrap();
    assert_eq!(current.incompatible_packages.len(), 1);
    assert_eq!(current.incompatible_packages[0].package.source, None);
    let resolution = ResolveReport {
        current: analyze_current_workspace(&md_ws, &selection).unwrap(),
        candidate: current,
        version_changes: Vec::new(),
        improved_packages: Vec::new(),
        remaining_blockers: Vec::new(),
        candidate_lockfile: None,
        notes: Vec::new(),
    };
    assert!(suggestion_requests(&md_ws, &selection, &resolution).unwrap().is_empty());
}

use cargo_compatible::cli::SelectionArgs;
use cargo_compatible::compat::{analyze_current_workspace, classify_package, strongest_status};
use cargo_compatible::explain::{
    classify_blocker, explain_current, finish_explain_report, resolve_package_query,
    selected_graph_package_ids,
};
use cargo_compatible::metadata::{
    match_selected_packages, package_id_from_query, select_packages, select_target,
    workspace_from_metadata,
};
use cargo_compatible::model::{
    BlockerKind, CompatibilityStatus, DependencyKind, Metadata, MetadataDependency,
    MetadataPackage, ResolveNode, ResolveReport, SelectedMember, TargetSelectionMode, WorkspaceData,
};
use cargo_compatible::report::render_scan_human;
use cargo_compatible::version::{parse_version, Version};

const APP: &str = "path+file:///ws#app@0.1.0";
const TOO_NEW: &str = "path+file:///ws/too_new#0.1.0";
const SERDE: &str = "registry+https://github.com/rust-lang/crates.io-index#serde@1.0.200";
const REGISTRY: &str = "registry+https://github.com/rust-lang/crates.io-index";

fn version(text: &str) -> Version {
    parse_version(text).unwrap()
}

fn dependency(name: &str, req: &str, source: Option<&str>, path: Option<&str>) -> MetadataDependency {
    MetadataDependency {
        name: name.to_string(),
        rename: None,
        req: req.to_string(),
        kind: DependencyKind::Normal,
        source: source.map(str::to_string),
        registry: None,
        path: path.map(str::to_string),
        features: Vec::new(),
        uses_default_features: true,
        optional: false,
    }
}

fn package(
    id: &str,
    name: &str,
    version_text: &str,
    source: Option<&str>,
    manifest_path: &str,
    rust_version: Option<&str>,
    dependencies: Vec<MetadataDependency>,
) -> MetadataPackage {
    MetadataPackage {
        id: id.to_string(),
        name: name.to_string(),
        version: version(version_text),
        source: source.map(str::to_string),
        manifest_path: manifest_path.to_string(),
        rust_version: rust_version.map(version),
        dependencies,
    }
}

fn node(id: &str, deps: &[&str]) -> ResolveNode {
    ResolveNode {
        id: id.to_string(),
        deps: deps.iter().map(|dep| dep.to_string()).collect(),
    }
}

fn metadata(with_resolve: bool) -> Metadata {
    Metadata {
        packages: vec![
            package(
                APP,
                "app",
                "0.1.0",
                None,
                "/ws/Cargo.toml",
                Some("1.60.0"),
                vec![
                    dependency("too_new", "*", None, Some("/ws/too_new")),
                    dependency("serde", "^1.0", Some(REGISTRY), None),
                ],
            ),
            package(
                TOO_NEW,
                "too_new",
                "0.1.0",
                None,
                "/ws/too_new/Cargo.toml",
                Some("1.70.0"),
                Vec::new(),
            ),
            package(
                SERDE,
                "serde",
                "1.0.200",
                Some(REGISTRY),
                "/home/cargo/registry/serde-1.0.200/Cargo.toml",
                None,
                Vec::new(),
            ),
        ],
        workspace_members: vec![APP.to_string()],
        root_package: Some(APP.to_string()),
        resolve: if with_resolve {
            Some(vec![node(APP, &[TOO_NEW, SERDE]), node(TOO_NEW, &[]), node(SERDE, &[])])
        } else {
            None
        },
    }
}

fn workspace() -> WorkspaceData {
    workspace_from_metadata(
        metadata(true),
        "/ws".to_string(),
        "/ws/Cargo.toml".to_string(),
        None,
    )
    .unwrap()
}

fn args(rust_version: Option<&str>, packages: &[&str]) -> SelectionArgs {
    SelectionArgs {
        manifest_path: None,
        rust_version: rust_version.map(str::to_string),
        workspace: false,
        package: packages.iter().map(|p| p.to_string()).collect(),
    }
}

fn member(name: &str, rust_version: Option<&str>) -> SelectedMember {
    SelectedMember {
        package_id: format!("path+file:///ws/{name}#0.1.0"),
        package_name: name.to_string(),
        manifest_path: format!("/ws/{name}/Cargo.toml"),
        rust_version: rust_version.map(version),
    }
}

#[test]
fn workspace_keeps_packages_and_graph_by_id() {
    let ws = workspace();
    assert!(!ws.is_virtual_workspace);
    assert!(ws.recommendations.is_empty());
    let ids = ws.packages_by_id.iter().map(|p| p.id.clone()).collect::<Vec<_>>();
    assert_eq!(ids, vec![APP.to_string(), TOO_NEW.to_string(), SERDE.to_string()]);
    let too_new = &ws.packages_by_id[1];
    assert_eq!(too_new.rust_version.as_deref(), Some("1.70"));
    assert!(ws.packages_by_id[0].workspace_member);
    assert_eq!(ws.graph[0].deps, vec![TOO_NEW.to_string(), SERDE.to_string()]);
}

#[test]
fn workspace_without_resolve_graph_is_refused() {
    let error = workspace_from_metadata(metadata(false), "/ws".to_string(), "/ws/Cargo.toml".to_string(), None)
        .unwrap_err();
    assert_eq!(error.message(), "cargo metadata returned no resolve graph");
}

#[test]
fn virtual_workspace_without_resolver_three_is_told_so() {
    let mut md = metadata(true);
    md.root_package = None;
    let ws = workspace_from_metadata(md, "/ws".to_string(), "/ws/Cargo.toml".to_string(), Some("2".to_string()))
        .unwrap();
    assert!(ws.is_virtual_workspace);
    assert_eq!(ws.recommendations.len(), 1);
    assert!(ws.recommendations[0].contains("workspace.resolver = \"3\""));
}

#[test]
fn scan_reports_incompatible_and_unknown_packages() {
    let ws = workspace();
    let selection = select_packages(&ws, &args(None, &[])).unwrap();
    assert_eq!(selection.target.mode, TargetSelectionMode::SelectedPackage);
    assert_eq!(selection.target.target_rust_version.as_deref(), Some("1.60"));
    let report = analyze_current_workspace(&ws, &selection).unwrap();

    assert_eq!(report.incompatible_packages.len(), 1);
    let issue = &report.incompatible_packages[0];
    assert_eq!(issue.package.name, "too_new");
    assert_eq!(issue.status, CompatibilityStatus::Incompatible);
    assert_eq!(
        issue.reason,
        "resolved package declares rust-version 1.70, which exceeds target 1.60"
    );
    assert_eq!(issue.paths.len(), 1);
    assert_eq!(issue.paths[0].member, "app");
    assert_eq!(
        issue.paths[0].packages,
        vec!["app@0.1.0 [workspace]".to_string(), "too_new@0.1.0 [path: too_new]".to_string()]
    );

    assert_eq!(report.unknown_packages.len(), 1);
    assert_eq!(report.unknown_packages[0].package.name, "serde");
    assert_eq!(
        report.unknown_packages[0].reason,
        "resolved package does not declare `rust-version`; compatibility is unknown"
    );
    assert_eq!(report.package_summaries.len(), 1);
    assert_eq!(report.package_summaries[0].incompatible, 1);
    assert_eq!(report.package_summaries[0].unknown, 1);

    let rendered = render_scan_human(&report);
    assert!(rendered.contains("Incompatible Packages"));
    assert!(rendered.contains("too_new"));
    assert!(rendered.contains("exceeds target"));
}

#[test]
fn explicit_target_admits_the_newer_package() {
    let ws = workspace();
    let selection = select_packages(&ws, &args(Some("1.70"), &[])).unwrap();
    assert_eq!(selection.target.mode, TargetSelectionMode::Explicit);
    let report = analyze_current_workspace(&ws, &selection).unwrap();
    assert!(report.incompatible_packages.is_empty());
    assert_eq!(report.unknown_packages.len(), 1);
}

#[test]
fn scan_rejects_non_workspace_package_selection() {
    let ws = workspace();
    let error = select_packages(&ws, &args(None, &["helper"])).unwrap_err();
    assert!(error.message().contains(
        "package spec `helper` did not match any workspace member by exact package name, package ID, or manifest path"
    ));
    // A package of the graph that is no workspace member is refused too.
    let error = select_packages(&ws, &args(None, &["too_new"])).unwrap_err();
    assert!(error.message().contains("package spec `too_new` did not match any workspace member"));
}

#[test]
fn scan_rejects_manifest_path_substring_package_selection() {
    let mut md = metadata(true);
    md.packages[0].manifest_path = "/ws/members/app/Cargo.toml".to_string();
    let error = match_selected_packages(&md, &vec!["members".to_string()]).unwrap_err();
    assert_eq!(
        error.message(),
        "package spec `members` did not match any workspace member by exact package name, package ID, or manifest path"
    );
    let ids = match_selected_packages(&md, &vec!["/ws/members/app/Cargo.toml".to_string()]).unwrap();
    assert_eq!(ids, vec![APP.to_string()]);
}

#[test]
fn scan_accepts_exact_package_selection() {
    let md = metadata(true);
    for spec in ["app", APP, "/ws/Cargo.toml"] {
        let ids = match_selected_packages(&md, &vec![spec.to_string()]).unwrap();
        assert_eq!(ids, vec![APP.to_string()]);
    }
}

#[test]
fn invalid_rust_versions_are_refused() {
    let members = vec![member("a", Some("1.60.0"))];
    let error = select_target(&members, Some("1.2.3.4")).unwrap_err();
    assert_eq!(error.message(), "invalid Rust version `1.2.3.4`");
    let error = select_target(&members, Some("one")).unwrap_err();
    assert_eq!(error.message(), "invalid version `one.0.0`");
}

#[test]
fn target_modes_follow_the_members() {
    let uniform = select_target(&vec![member("a", Some("1.60.0")), member("b", Some("1.60.0"))], None).unwrap();
    assert_eq!(uniform.mode, TargetSelectionMode::WorkspaceUniform);
    assert_eq!(uniform.target_rust_version.as_deref(), Some("1.60"));
    assert!(uniform.notes.is_empty());

    let mixed = select_target(&vec![member("b", Some("1.70.0")), member("a", Some("1.60.0"))], None).unwrap();
    assert_eq!(mixed.mode, TargetSelectionMode::WorkspaceMixed);
    assert_eq!(mixed.target_rust_version, None);
    assert_eq!(mixed.notes.len(), 1);
    assert_eq!(mixed.members[0].package_name, "a");
    assert_eq!(mixed.members[1].package_name, "b");

    let missing = select_target(&vec![member("a", Some("1.60.0")), member("b", None)], None).unwrap();
    assert_eq!(missing.mode, TargetSelectionMode::Missing);
    assert!(missing.notes[0].contains("missing `rust-version`"));

    let explicit = select_target(&vec![member("a", None)], Some("1.65")).unwrap();
    assert_eq!(explicit.mode, TargetSelectionMode::Explicit);
    assert_eq!(explicit.target_rust_version.as_deref(), Some("1.65"));
}

#[test]
fn classify_package_compares_declared_and_target() {
    let target = version("1.60.0");
    let (status, reason) = classify_package(Some("1.60"), &target);
    assert_eq!(status, CompatibilityStatus::Compatible);
    assert_eq!(
        reason,
        "resolved package declares rust-version 1.60, which is compatible with target 1.60"
    );
    let (status, _) = classify_package(Some("1.61"), &target);
    assert_eq!(status, CompatibilityStatus::Incompatible);
    let (status, _) = classify_package(None, &target);
    assert_eq!(status, CompatibilityStatus::Unknown);
}

#[test]
fn strongest_status_prefers_incompatible_then_unknown() {
    let (compatible, incompatible, unknown) = (
        CompatibilityStatus::Compatible,
        CompatibilityStatus::Incompatible,
        CompatibilityStatus::Unknown,
    );
    assert_eq!(strongest_status(compatible, unknown), unknown);
    assert_eq!(strongest_status(unknown, incompatible), incompatible);
    assert_eq!(strongest_status(compatible, compatible), compatible);
}

#[test]
fn explain_rejects_unknown_query() {
    let ws = workspace();
    let selection = select_packages(&ws, &args(None, &[])).unwrap();
    let selected = selected_graph_package_ids(&ws, &selection);
    assert_eq!(selected.len(), 3);
    let error = resolve_package_query(&ws, &selected, "definitely-not-a-package").unwrap_err();
    assert_eq!(
        error.message(),
        "query `definitely-not-a-package` did not match any package in the selected dependency graph"
    );
    assert_eq!(resolve_package_query(&ws, &selected, "serde@1.0.200").unwrap(), SERDE);
}

#[test]
fn explain_path_dependency_is_a_path_constraint() {
    let ws = workspace();
    let selection = select_packages(&ws, &args(None, &[])).unwrap();
    let start = explain_current(&ws, &selection, "too_new").unwrap().unwrap();
    assert_eq!(start.package_id, TOO_NEW);
    assert!(start.needs_resolution());
    let resolution = ResolveReport {
        current: analyze_current_workspace(&ws, &selection).unwrap(),
        candidate: analyze_current_workspace(&ws, &selection).unwrap(),
        version_changes: Vec::new(),
        improved_packages: Vec::new(),
        remaining_blockers: Vec::new(),
        candidate_lockfile: None,
        notes: Vec::new(),
    };
    let report = finish_explain_report(&ws, &selection, "too_new", start, Some(resolution));
    assert_eq!(report.blocker, Some(BlockerKind::PathOrGitConstraint));
    assert_eq!(report.current_status, Some(CompatibilityStatus::Incompatible));
    assert_eq!(report.current_paths.len(), 1);
    assert_eq!(report.candidate_version.as_deref(), Some("0.1.0"));
    assert_eq!(report.query, "too_new");
}

#[test]
fn blocker_of_a_compatible_package() {
    let ws = workspace();
    let selection = select_packages(&ws, &args(None, &[])).unwrap();
    let app = &ws.packages_by_id[0];
    assert_eq!(
        classify_blocker(Some(app), None, None, &selection),
        Some(BlockerKind::Compatible)
    );
    assert_eq!(classify_blocker(None, None, None, &selection), None);
}

#[test]
fn package_queries_name_ids_names_and_versions() {
    let ws = workspace();
    assert_eq!(package_id_from_query(&ws, "serde").as_deref(), Some(SERDE));
    assert_eq!(package_id_from_query(&ws, "too_new@0.1.0").as_deref(), Some(TOO_NEW));
    assert_eq!(package_id_from_query(&ws, APP).as_deref(), Some(APP));
    assert_eq!(package_id_from_query(&ws, "missing"), None);
}

#[test]
fn explain_of_a_compatible_package_needs_no_resolution() {
    let ws = workspace();
    let selection = select_packages(&ws, &args(Some("1.80"), &[])).unwrap();
    let start = explain_current(&ws, &selection, "too_new").unwrap().unwrap();
    assert!(!start.needs_resolution());
    let report = finish_explain_report(&ws, &selection, "too_new", start, None);
    assert_eq!(report.blocker, Some(BlockerKind::Compatible));
    assert_eq!(report.current_status, None);
    assert!(report.current_paths.is_empty());
}

#[test]
fn explain_rejects_query_outside_selected_graph() {
    const LOW: &str = "path+file:///ws/low#0.1.0";
    let mut md = metadata(true);
    md.packages.push(package(LOW, "low", "0.1.0", None, "/ws/low/Cargo.toml", Some("1.56.0"), Vec::new()));
    md.workspace_members.push(LOW.to_string());
    if let Some(nodes) = md.resolve.as_mut() {
        nodes.push(node(LOW, &[]));
    }
    let ws = workspace_from_metadata(md, "/ws".to_string(), "/ws/Cargo.toml".to_string(), None).unwrap();
    let selection = select_packages(&ws, &args(None, &["app"])).unwrap();
    let error = explain_current(&ws, &selection, "low").unwrap().unwrap_err();
    assert!(error
        .message()
        .contains("query `low` did not match any package in the selected dependency graph"));
}

#[test]
fn dependency_paths_tell_same_named_git_packages_apart() {
    let shared_a = "git+file:///tmp/shared-a#0123456789abcdef0123#shared@0.1.0";
    let shared_b = "git+file:///tmp/shared-b#fedcba9876543210fedc#shared@0.1.0";
    let md = Metadata {
        packages: vec![
            package(APP, "app", "0.1.0", None, "/ws/Cargo.toml", Some("1.60.0"), Vec::new()),
            package(
                shared_a,
                "shared",
                "0.1.0",
                Some("git+file:///tmp/shared-a#0123456789abcdef0123"),
                "/git/a/Cargo.toml",
                Some("1.70.0"),
                Vec::new(),
            ),
            package(
                shared_b,
                "shared",
                "0.1.0",
                Some("git+file:///tmp/shared-b#fedcba9876543210fedc"),
                "/git/b/Cargo.toml",
                Some("1.70.0"),
                Vec::new(),
            ),
        ],
        workspace_members: vec![APP.to_string()],
        root_package: Some(APP.to_string()),
        resolve: Some(vec![node(APP, &[shared_a, shared_b]), node(shared_a, &[]), node(shared_b, &[])]),
    };
    let ws = workspace_from_metadata(md, "/ws".to_string(), "/ws/Cargo.toml".to_string(), None).unwrap();
    let selection = select_packages(&ws, &args(None, &[])).unwrap();
    let report = analyze_current_workspace(&ws, &selection).unwrap();
    assert_eq!(report.incompatible_packages.len(), 2);
    let chains = report
        .incompatible_packages
        .iter()
        .map(|issue| issue.paths[0].packages.join(" -> "))
        .collect::<Vec<_>>();
    assert_ne!(chains[0], chains[1]);
    assert!(chains.iter().all(|c| c.contains("shared@0.1.0 [git: file://") && c.contains('#')));
    assert!(chains.contains(&"app@0.1.0 [workspace] -> shared@0.1.0 [git: file:///tmp/shared-a#0123456789ab]".to_string()));
}
